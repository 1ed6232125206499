//! The player: position, facing, and the two stacks used for backtracking.

use vstd::prelude::*;
use crate::direction::{Direction, RelativeMove};

verus! {

/// The state of the player.
#[derive(Debug)]
pub struct Player {
    /// Column of the player's cell.
    pub x: i32,
    /// Row of the player's cell.
    pub y: i32,
    /// Where the player faces.
    pub direction: Direction,
    /// The positions on the way from the start to the current cell.
    pub path: Vec<(i32, i32)>,
    /// For each step of the way, the move that undoes it.
    pub directions_path: Vec<RelativeMove>,
}

/// The mathematical value of a player.
pub struct PlayerState {
    pub x: int,
    pub y: int,
    pub direction: Direction,
    pub path: Seq<(i32, i32)>,
    pub directions_path: Seq<RelativeMove>,
}

impl View for Player {
    type V = PlayerState;

    open spec fn view(&self) -> PlayerState {
        PlayerState {
            x: self.x as int,
            y: self.y as int,
            direction: self.direction,
            path: self.path@,
            directions_path: self.directions_path@,
        }
    }
}

impl PlayerState {
    /// A player that has just been placed on `(x, y)`.
    pub open spec fn start(x: int, y: int, direction: Direction) -> PlayerState {
        PlayerState {
            x,
            y,
            direction,
            path: seq![(x as i32, y as i32)],
            directions_path: seq![],
        }
    }

    /// The state of a player between two moves: the way ends on the current
    /// cell, passes no cell twice, and has one undo move per step.
    pub open spec fn at_rest(self) -> bool {
        &&& self.path.len() == self.directions_path.len() + 1
        &&& self.path.last() == (self.x as i32, self.y as i32)
        &&& self.path.no_duplicates()
    }

    /// The way of the player, cut after the first `n` positions.
    pub open spec fn path_cut(self, n: int) -> Seq<(i32, i32)> {
        self.path.take(n)
    }

    /// The undo moves of the player, cut after the first `n` moves; all of
    /// them where there are fewer.
    pub open spec fn undo_cut(self, n: int) -> Seq<RelativeMove> {
        if n <= self.directions_path.len() {
            self.directions_path.take(n)
        } else {
            self.directions_path
        }
    }

    /// The player after the move named by `token` has been carried out. The
    /// player stands on the cell the move leads to and faces the way it
    /// moved. A cell that the way already passes closes a loop: the way is
    /// cut back to the first passage of that cell, and the undo moves to one
    /// fewer than the way is long. A new cell is appended to the way.
    pub open spec fn advanced(self, token: Seq<char>) -> PlayerState {
        let target = self.direction.spec_new_position(self.x, self.y, token);
        let facing = self.direction.spec_relative_to_absolute(token);
        match self.path.index_of_first((target.0 as i32, target.1 as i32)) {
            Some(k) => PlayerState {
                x: target.0,
                y: target.1,
                direction: facing,
                path: self.path_cut(k + 1),
                directions_path: self.undo_cut(k),
            },
            None => PlayerState {
                x: target.0,
                y: target.1,
                direction: facing,
                path: self.path.push((target.0 as i32, target.1 as i32)),
                directions_path: self.directions_path,
            },
        }
    }

    /// Whether there is an undo move for every step of the way. This holds
    /// between two moves and while a move is being decided.
    pub open spec fn stacks_aligned(self) -> bool {
        self.path.len() <= self.directions_path.len() + 1
    }

    /// A move onto a cell that the way already passes leaves the way ending
    /// on that cell, at its first passage and nowhere else, and leaves one
    /// undo move fewer than the way has positions. A way without repeated
    /// cells stays so.
    pub proof fn lemma_revisit_cuts_back(self, token: Seq<char>)
        requires
            self.can_step(),
            self.stacks_aligned(),
            self.path.contains(
                (
                    self.direction.spec_new_position(self.x, self.y, token).0 as i32,
                    self.direction.spec_new_position(self.x, self.y, token).1 as i32,
                ),
            ),
        ensures
            ({
                let target = self.direction.spec_new_position(self.x, self.y, token);
                let after = self.advanced(token);
                &&& (after.x, after.y) == target
                &&& 0 < after.path.len() <= self.path.len()
                &&& after.path == self.path.take(after.path.len() as int)
                &&& after.path.last() == (target.0 as i32, target.1 as i32)
                &&& forall|j: int|
                    0 <= j < after.path.len() - 1 ==> after.path[j] != (target.0 as i32, target.1 as i32)
                &&& after.directions_path.len() + 1 == after.path.len()
                &&& after.directions_path == self.directions_path.take(after.path.len() - 1)
                &&& self.path.no_duplicates() ==> after.path.no_duplicates()
            }),
    {
        let target = self.direction.spec_new_position(self.x, self.y, token);
        self.path.index_of_first_ensures((target.0 as i32, target.1 as i32));
    }

    /// A move onto a cell that the way does not pass yet appends the cell to
    /// the way and keeps the undo moves. A player that has recorded the undo
    /// move of the step is at rest afterwards.
    pub proof fn lemma_new_cell_extends(self, token: Seq<char>)
        requires
            self.can_step(),
            !self.path.contains(
                (
                    self.direction.spec_new_position(self.x, self.y, token).0 as i32,
                    self.direction.spec_new_position(self.x, self.y, token).1 as i32,
                ),
            ),
        ensures
            ({
                let target = self.direction.spec_new_position(self.x, self.y, token);
                let after = self.advanced(token);
                &&& (after.x, after.y) == target
                &&& after.path == self.path.push((target.0 as i32, target.1 as i32))
                &&& after.directions_path == self.directions_path
                &&& self.path.no_duplicates() ==> after.path.no_duplicates()
                &&& self.path.no_duplicates() && self.path.len() == self.directions_path.len()
                    ==> after.at_rest()
            }),
    {
        let target = self.direction.spec_new_position(self.x, self.y, token);
        self.path.index_of_first_ensures((target.0 as i32, target.1 as i32));
    }

    /// Whether the player can step in any direction without leaving the
    /// range of the coordinates.
    pub open spec fn can_step(self) -> bool {
        &&& i32::MIN < self.x < i32::MAX
        &&& i32::MIN < self.y < i32::MAX
    }
}

impl Default for Player {
    /// A player on `(0, 0)` that faces North and has not recorded its way.
    fn default() -> (r: Self)
        ensures
            r@ == (PlayerState {
                x: 0,
                y: 0,
                direction: Direction::North,
                path: Seq::<(i32, i32)>::empty(),
                directions_path: Seq::<RelativeMove>::empty(),
            }),
    {
        Self {
            x: 0,
            y: 0,
            direction: Direction::North,
            path: Vec::new(),
            directions_path: Vec::new(),
        }
    }
}

impl Player {
    /// A player on `(x, y)`; its way starts there.
    pub fn new(x: i32, y: i32, direction: Direction) -> (r: Self)
        ensures
            r@ == PlayerState::start(x as int, y as int, direction),
            r@.at_rest(),
    {
        let mut path: Vec<(i32, i32)> = Vec::new();
        path.push((x, y));
        let r = Self { x, y, direction, path, directions_path: Vec::new() };
        assert(r@.path =~= seq![(x, y)]);
        r
    }

    /// Turns the player a quarter turn counter-clockwise.
    pub fn turn_left(&mut self)
        ensures
            final(self)@ == (PlayerState { direction: old(self).direction.spec_turn_left(), ..old(self)@ }),
    {
        self.direction = self.direction.turn_left();
    }

    /// Turns the player a quarter turn clockwise.
    pub fn turn_right(&mut self)
        ensures
            final(self)@ == (PlayerState { direction: old(self).direction.spec_turn_right(), ..old(self)@ }),
    {
        self.direction = self.direction.turn_right();
    }

    /// Turns the player a half turn.
    pub fn turn_back(&mut self)
        ensures
            final(self)@ == (PlayerState { direction: old(self).direction.spec_turn_back(), ..old(self)@ }),
    {
        self.direction = self.direction.turn_back();
    }

    /// A copy of the player, with its own stacks.
    pub fn clone(&self) -> (r: Self)
        ensures
            r@ == self@,
    {
        let mut path: Vec<(i32, i32)> = Vec::new();
        let mut i: usize = 0;
        while i < self.path.len()
            invariant
                i <= self.path@.len(),
                path@ == self.path@.take(i as int),
            decreases self.path@.len() - i,
        {
            path.push(self.path[i]);
            i += 1;
        }
        let mut directions_path: Vec<RelativeMove> = Vec::new();
        let mut j: usize = 0;
        while j < self.directions_path.len()
            invariant
                j <= self.directions_path@.len(),
                directions_path@ == self.directions_path@.take(j as int),
            decreases self.directions_path@.len() - j,
        {
            directions_path.push(self.directions_path[j]);
            j += 1;
        }
        assert(path@ =~= self.path@);
        assert(directions_path@ =~= self.directions_path@);
        Self { x: self.x, y: self.y, direction: self.direction, path, directions_path }
    }
}

} // verus!
