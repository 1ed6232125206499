//! Absolute orientations and player-relative moves.
//!
//! The map uses a right-handed grid: North is the positive `y` axis and East
//! the positive `x` axis. A relative move is interpreted against the
//! orientation the player currently faces; after the move the player faces
//! the direction it moved in.

use vstd::prelude::*;
use vstd::string::*;

verus! {

/// An absolute facing on the map.
#[derive(Debug, Clone, Copy, PartialEq, Eq, Hash, Structural)]
pub enum Direction {
    North,
    East,
    South,
    West,
}

/// A move expressed relative to the current facing.
#[derive(Debug, Clone, Copy, PartialEq, Eq, Hash, Structural)]
pub enum RelativeMove {
    Front,
    Right,
    Back,
    Left,
}

impl RelativeMove {
    /// Number of clockwise quarter turns between the facing and the move.
    pub open spec fn quarter(self) -> int {
        match self {
            RelativeMove::Front => 0,
            RelativeMove::Right => 1,
            RelativeMove::Back => 2,
            RelativeMove::Left => 3,
        }
    }

    /// The move that undoes this one: Front and Back swap, Left and Right swap.
    pub open spec fn spec_opposite(self) -> RelativeMove {
        match self {
            RelativeMove::Front => RelativeMove::Back,
            RelativeMove::Right => RelativeMove::Left,
            RelativeMove::Back => RelativeMove::Front,
            RelativeMove::Left => RelativeMove::Right,
        }
    }

    /// The token that stands for the move on the wire.
    pub open spec fn name(self) -> Seq<char> {
        match self {
            RelativeMove::Front => seq!['F', 'r', 'o', 'n', 't'],
            RelativeMove::Right => seq!['R', 'i', 'g', 'h', 't'],
            RelativeMove::Back => seq!['B', 'a', 'c', 'k'],
            RelativeMove::Left => seq!['L', 'e', 'f', 't'],
        }
    }

    /// The move a token stands for, if it is one of the four tokens.
    pub open spec fn parse(token: Seq<char>) -> Option<RelativeMove> {
        if token == RelativeMove::Front.name() {
            Some(RelativeMove::Front)
        } else if token == RelativeMove::Right.name() {
            Some(RelativeMove::Right)
        } else if token == RelativeMove::Back.name() {
            Some(RelativeMove::Back)
        } else if token == RelativeMove::Left.name() {
            Some(RelativeMove::Left)
        } else {
            None
        }
    }

    /// Every move is recovered from its own token.
    pub proof fn lemma_parse_name(self)
        ensures
            RelativeMove::parse(self.name()) == Some(self),
    {
        assert(RelativeMove::Front.name()[0] == 'F');
        assert(RelativeMove::Right.name()[0] == 'R');
        assert(RelativeMove::Back.name()[0] == 'B');
        assert(RelativeMove::Left.name()[0] == 'L');
    }

    /// Undoing a move twice gives the move back.
    pub proof fn lemma_opposite_involutive(self)
        ensures
            self.spec_opposite().spec_opposite() == self,
            self.spec_opposite() != self,
            self.spec_opposite().quarter() == (self.quarter() + 2) % 4,
    {
    }

    pub fn opposite(self) -> (r: RelativeMove)
        ensures
            r == self.spec_opposite(),
    {
        match self {
            RelativeMove::Front => RelativeMove::Back,
            RelativeMove::Right => RelativeMove::Left,
            RelativeMove::Back => RelativeMove::Front,
            RelativeMove::Left => RelativeMove::Right,
        }
    }

    /// The wire token of the move.
    pub fn as_str(self) -> (r: &'static str)
        ensures
            r@ == self.name(),
    {
        proof {
            reveal_strlit("Front");
            reveal_strlit("Right");
            reveal_strlit("Back");
            reveal_strlit("Left");
        }
        match self {
            RelativeMove::Front => {
                assert("Front"@ =~= RelativeMove::Front.name());
                "Front"
            },
            RelativeMove::Right => {
                assert("Right"@ =~= RelativeMove::Right.name());
                "Right"
            },
            RelativeMove::Back => {
                assert("Back"@ =~= RelativeMove::Back.name());
                "Back"
            },
            RelativeMove::Left => {
                assert("Left"@ =~= RelativeMove::Left.name());
                "Left"
            },
        }
    }

    /// Reads a wire token; anything but the four tokens gives `None`.
    pub fn from_name(token: &str) -> (r: Option<RelativeMove>)
        ensures
            r == RelativeMove::parse(token@),
    {
        if same_text(token, RelativeMove::Front.as_str()) {
            Some(RelativeMove::Front)
        } else if same_text(token, RelativeMove::Right.as_str()) {
            Some(RelativeMove::Right)
        } else if same_text(token, RelativeMove::Back.as_str()) {
            Some(RelativeMove::Back)
        } else if same_text(token, RelativeMove::Left.as_str()) {
            Some(RelativeMove::Left)
        } else {
            None
        }
    }
}

/// Compares two strings character by character.
pub(crate) fn same_text(a: &str, b: &str) -> (r: bool)
    ensures
        r == (a@ == b@),
{
    let n = a.unicode_len();
    if n != b.unicode_len() {
        return false;
    }
    let mut i: usize = 0;
    while i < n
        invariant
            i <= n,
            n == a@.len(),
            n == b@.len(),
            forall|k: int| 0 <= k < i ==> a@[k] == b@[k],
        decreases n - i,
    {
        if a.get_char(i) != b.get_char(i) {
            return false;
        }
        i += 1;
    }
    assert(a@ =~= b@);
    true
}

impl Direction {
    /// Number of clockwise quarter turns from North.
    pub open spec fn quarter(self) -> int {
        match self {
            Direction::North => 0,
            Direction::East => 1,
            Direction::South => 2,
            Direction::West => 3,
        }
    }

    /// The orientation `q` clockwise quarter turns from North, for any `q >= 0`.
    pub open spec fn from_quarter(q: int) -> Direction {
        let r = q % 4;
        if r == 0 {
            Direction::North
        } else if r == 1 {
            Direction::East
        } else if r == 2 {
            Direction::South
        } else {
            Direction::West
        }
    }

    /// The unit step `(dx, dy)` taken when moving in this direction.
    pub open spec fn offset(self) -> (int, int) {
        match self {
            Direction::North => (0, 1),
            Direction::East => (1, 0),
            Direction::South => (0, -1),
            Direction::West => (-1, 0),
        }
    }

    /// The absolute direction of a relative move made while facing `self`.
    pub open spec fn facing(self, m: RelativeMove) -> Direction {
        Direction::from_quarter(self.quarter() + m.quarter())
    }

    /// The cell reached from `(x, y)` by a relative move made while facing `self`.
    pub open spec fn moved(self, x: int, y: int, m: RelativeMove) -> (int, int) {
        let d = self.facing(m).offset();
        (x + d.0, y + d.1)
    }

    pub open spec fn spec_turn_left(self) -> Direction {
        self.facing(RelativeMove::Left)
    }

    pub open spec fn spec_turn_right(self) -> Direction {
        self.facing(RelativeMove::Right)
    }

    pub open spec fn spec_turn_back(self) -> Direction {
        self.facing(RelativeMove::Back)
    }

    /// What `relative_oposite` returns for a token: the token of the opposite
    /// move, and `Front` for a token that names no move.
    pub open spec fn spec_relative_oposite(token: Seq<char>) -> Seq<char> {
        match RelativeMove::parse(token) {
            Some(m) => m.spec_opposite().name(),
            None => RelativeMove::Front.name(),
        }
    }

    /// What `relative_to_absolute` returns for a token: the facing after the
    /// move, and the unchanged facing for a token that names no move.
    pub open spec fn spec_relative_to_absolute(self, token: Seq<char>) -> Direction {
        match RelativeMove::parse(token) {
            Some(m) => self.facing(m),
            None => self,
        }
    }

    /// What `new_position` returns for a token: the cell one step away in the
    /// direction of the move, and the same cell for a token that names no move.
    pub open spec fn spec_new_position(self, x: int, y: int, token: Seq<char>) -> (int, int) {
        match RelativeMove::parse(token) {
            Some(m) => self.moved(x, y, m),
            None => (x, y),
        }
    }

    /// The four quarter turns form a cycle: left and right cancel, two lefts
    /// (or two rights) make a half turn, and two half turns restore the facing.
    pub proof fn lemma_turns(self)
        ensures
            self.spec_turn_left().spec_turn_right() == self,
            self.spec_turn_right().spec_turn_left() == self,
            self.spec_turn_left().spec_turn_left() == self.spec_turn_back(),
            self.spec_turn_right().spec_turn_right() == self.spec_turn_back(),
            self.spec_turn_back().spec_turn_back() == self,
            self.facing(RelativeMove::Front) == self,
    {
    }

    /// A move followed by its opposite, both read against the same facing,
    /// returns to the starting cell.
    pub proof fn lemma_opposite_returns(self, x: int, y: int, m: RelativeMove)
        ensures
            ({
                let p = self.moved(x, y, m);
                self.moved(p.0, p.1, m.spec_opposite()) == (x, y)
            }),
    {
    }

    /// Rotates a quarter turn counter-clockwise (North becomes West).
    pub fn turn_left(self) -> (r: Direction)
        ensures
            r == self.spec_turn_left(),
    {
        match self {
            Direction::North => Direction::West,
            Direction::West => Direction::South,
            Direction::South => Direction::East,
            Direction::East => Direction::North,
        }
    }

    /// Rotates a quarter turn clockwise (North becomes East).
    pub fn turn_right(self) -> (r: Direction)
        ensures
            r == self.spec_turn_right(),
    {
        match self {
            Direction::North => Direction::East,
            Direction::East => Direction::South,
            Direction::South => Direction::West,
            Direction::West => Direction::North,
        }
    }

    /// Rotates a half turn (North becomes South).
    pub fn turn_back(self) -> (r: Direction)
        ensures
            r == self.spec_turn_back(),
    {
        match self {
            Direction::North => Direction::South,
            Direction::East => Direction::West,
            Direction::South => Direction::North,
            Direction::West => Direction::East,
        }
    }

    /// The absolute direction of a relative move made while facing `self`.
    pub fn rotate(self, m: RelativeMove) -> (r: Direction)
        ensures
            r == self.facing(m),
    {
        match m {
            RelativeMove::Front => self,
            RelativeMove::Right => self.turn_right(),
            RelativeMove::Back => self.turn_back(),
            RelativeMove::Left => self.turn_left(),
        }
    }

    /// The relative move that makes a player facing `self` go in the
    /// absolute direction `target`.
    pub fn move_towards(self, target: Direction) -> (r: RelativeMove)
        ensures
            self.facing(r) == target,
            r.quarter() == (target.quarter() - self.quarter() + 4) % 4,
    {
        if self.rotate(RelativeMove::Front) == target {
            RelativeMove::Front
        } else if self.rotate(RelativeMove::Right) == target {
            RelativeMove::Right
        } else if self.rotate(RelativeMove::Back) == target {
            RelativeMove::Back
        } else {
            RelativeMove::Left
        }
    }

    /// The cell one step away from `(x, y)` in this direction.
    pub fn step_from(self, x: i32, y: i32) -> (r: (i32, i32))
        requires
            i32::MIN < x < i32::MAX,
            i32::MIN < y < i32::MAX,
        ensures
            r.0 == x + self.offset().0,
            r.1 == y + self.offset().1,
    {
        match self {
            Direction::North => (x, y + 1),
            Direction::East => (x + 1, y),
            Direction::South => (x, y - 1),
            Direction::West => (x - 1, y),
        }
    }

    /// The token of the move that undoes the move named by `relative_dir`.
    pub fn relative_oposite(self, relative_dir: String) -> (r: String)
        ensures
            r@ == Direction::spec_relative_oposite(relative_dir@),
    {
        match RelativeMove::from_name(relative_dir.as_str()) {
            Some(m) => m.opposite().as_str().to_owned(),
            None => RelativeMove::Front.as_str().to_owned(),
        }
    }

    /// Converts a relative move token into the absolute direction it points
    /// to, given the current facing.
    pub fn relative_to_absolute(self, relative_dir: &str) -> (r: Direction)
        ensures
            r == self.spec_relative_to_absolute(relative_dir@),
    {
        match RelativeMove::from_name(relative_dir) {
            Some(m) => self.rotate(m),
            None => self,
        }
    }

    /// The position reached from `(x, y)` by the move named by `action`.
    pub fn new_position(self, x: i32, y: i32, action: &str) -> (r: (i32, i32))
        requires
            i32::MIN < x < i32::MAX,
            i32::MIN < y < i32::MAX,
        ensures
            (r.0 as int, r.1 as int) == self.spec_new_position(x as int, y as int, action@),
    {
        match RelativeMove::from_name(action) {
            Some(m) => self.rotate(m).step_from(x, y),
            None => (x, y),
        }
    }
}

} // verus!
