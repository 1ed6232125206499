//! The maze map: the cells discovered so far, keyed by absolute position.
//!
//! Knowledge only grows. A wall that was seen stays seen, a visited cell
//! stays visited. When two readings of one wall disagree, the wall counts as
//! blocked.

use std::collections::HashMap;
use vstd::prelude::*;
use vstd::std_specs::hash::*;
use vstd::std_specs::iter::IteratorSpec;
use crate::cell::{Cell, CellState};
use crate::direction::Direction;
use crate::player::Player;
use crate::position::{
    at, in_range, key_of, lemma_keys, lemma_positions, pack_key, position_of, unpack_key,
};
use crate::radarview::{CellNature, PrettyRadarView, Wall};
use crate::walls::Walls;

verus! {

broadcast use vstd::std_specs::hash::group_hash_axioms;

/// The state of a wall after a new reading `new` has been merged into what
/// was known, `old`. `Undefined` yields to any reading, equal readings stay,
/// and of an open and a blocked reading the blocked one wins.
pub open spec fn merged(old: Wall, new: Wall) -> Wall {
    match (old, new) {
        (Wall::Undefined, w) => w,
        (w, Wall::Undefined) => w,
        (Wall::Open, Wall::Open) => Wall::Open,
        _ => Wall::Wall,
    }
}

/// Whether two readings of one wall contradict each other.
pub open spec fn conflicting(old: Wall, new: Wall) -> bool {
    (old == Wall::Open && new == Wall::Wall) || (old == Wall::Wall && new == Wall::Open)
}

/// Whether `after` knows at least what `before` knows of a wall.
pub open spec fn wall_refines(before: Wall, after: Wall) -> bool {
    before == Wall::Undefined || after == Wall::Wall || after == before
}

/// The four walls of a cell after new readings have been merged in.
pub open spec fn merged_walls(old: Walls, new: Walls) -> Walls {
    Walls {
        north: merged(old.north, new.north),
        east: merged(old.east, new.east),
        south: merged(old.south, new.south),
        west: merged(old.west, new.west),
    }
}

/// Merging does not depend on the order of the readings, `Undefined` is
/// neutral, a contradiction always resolves to blocked, and merging a
/// reading twice changes nothing.
pub proof fn lemma_merge_laws(a: Wall, b: Wall, c: Wall)
    ensures
        merged(a, b) == merged(b, a),
        merged(Wall::Undefined, a) == a,
        merged(a, Wall::Undefined) == a,
        merged(Wall::Open, Wall::Wall) == Wall::Wall,
        merged(Wall::Wall, Wall::Open) == Wall::Wall,
        merged(a, a) == a,
        merged(merged(a, b), b) == merged(a, b),
        merged(merged(a, b), c) == merged(a, merged(b, c)),
        conflicting(a, b) ==> merged(a, b) == Wall::Wall,
{
}

/// Merging never loses knowledge: the result refines both readings.
pub proof fn lemma_merge_refines(a: Wall, b: Wall)
    ensures
        wall_refines(a, merged(a, b)),
        wall_refines(b, merged(a, b)),
{
}

/// Merges a new reading of a wall into what was known of it.
pub fn merge_wall(old: Wall, new: Wall) -> (r: Wall)
    ensures
        r == merged(old, new),
{
    match (old, new) {
        (Wall::Undefined, w) => w,
        (w, Wall::Undefined) => w,
        (Wall::Open, Wall::Open) => Wall::Open,
        _ => Wall::Wall,
    }
}

/// Whether two readings of one wall contradict each other, so that the
/// caller can report the anomaly.
pub fn is_conflict(old: Wall, new: Wall) -> (r: bool)
    ensures
        r == conflicting(old, new),
{
    match (old, new) {
        (Wall::Open, Wall::Wall) => true,
        (Wall::Wall, Wall::Open) => true,
        _ => false,
    }
}

/// A cell after a reading of its walls and a visit state have been merged
/// into what the map held at its position.
pub open spec fn merged_cell(prev: Option<Cell>, walls: Walls, state: CellState) -> Cell {
    let base = match prev {
        Some(c) => c,
        None => Cell::fresh(),
    };
    Cell {
        walls: merged_walls(base.walls, walls),
        state: if base.state == CellState::Visited {
            CellState::Visited
        } else {
            state
        },
    }
}

/// What a map holds at a position.
pub open spec fn cell_at(m: Map<(int, int), Cell>, p: (int, int)) -> Option<Cell> {
    if m.contains_key(p) {
        Some(m[p])
    } else {
        None
    }
}

/// Whether map `after` holds every cell of `before`, with every wall at
/// least as well known and every visited cell still visited.
pub open spec fn map_refines(before: Map<(int, int), Cell>, after: Map<(int, int), Cell>) -> bool {
    forall|p: (int, int)| #[trigger]
        before.contains_key(p) ==> {
            &&& after.contains_key(p)
            &&& before[p].state == CellState::Visited ==> after[p].state == CellState::Visited
            &&& wall_refines(before[p].walls.north, after[p].walls.north)
            &&& wall_refines(before[p].walls.east, after[p].walls.east)
            &&& wall_refines(before[p].walls.south, after[p].walls.south)
            &&& wall_refines(before[p].walls.west, after[p].walls.west)
        }
}

/// Growth of knowledge composes: what holds after one update still holds
/// after any number of further updates.
pub proof fn lemma_map_refines_transitive(
    a: Map<(int, int), Cell>,
    b: Map<(int, int), Cell>,
    c: Map<(int, int), Cell>,
)
    requires
        map_refines(a, b),
        map_refines(b, c),
    ensures
        map_refines(a, c),
        map_refines(a, a),
{
    assert forall|p: (int, int)| #[trigger] a.contains_key(p) implies c.contains_key(p) by {
        assert(b.contains_key(p));
    }
}

/// The offset from the observer's cell to cell `i` of a snapshot taken while
/// facing `d`. Row 0 of the snapshot lies in front, column 0 to the left.
pub open spec fn radar_offset(d: Direction, i: int) -> (int, int) {
    let front = 1 - i / 3;
    let right = i % 3 - 1;
    match d {
        Direction::North => (right, front),
        Direction::East => (front, -right),
        Direction::South => (-right, -front),
        Direction::West => (-front, right),
    }
}

/// The absolute position of cell `i` of a snapshot taken on `(x, y)` while
/// facing `d`.
pub open spec fn radar_position(x: int, y: int, d: Direction, i: int) -> (int, int) {
    (x + radar_offset(d, i).0, y + radar_offset(d, i).1)
}

/// The index that position `p` has in a snapshot taken on `(x, y)` while
/// facing `d`, and -1 for a position outside the snapshot.
pub open spec fn radar_index_of(x: int, y: int, d: Direction, p: (int, int)) -> int {
    let dx = p.0 - x;
    let dy = p.1 - y;
    let (front, right) = match d {
        Direction::North => (dy, dx),
        Direction::East => (dx, -dy),
        Direction::South => (-dy, -dx),
        Direction::West => (-dx, dy),
    };
    if -1 <= front <= 1 && -1 <= right <= 1 {
        (1 - front) * 3 + (right + 1)
    } else {
        -1
    }
}

/// The absolute walls of cell `i` of a complete snapshot taken while facing
/// `d`.
pub open spec fn radar_walls(view: &PrettyRadarView, d: Direction, i: int) -> Walls {
    Walls::oriented(d, view.wall_front(i), view.wall_right(i), view.wall_back(i), view.wall_left(i))
}

/// Whether cell `i` of a snapshot is merged into the map: the observer's own
/// cell always, another cell unless it lies outside the maze.
pub open spec fn radar_touches(view: &PrettyRadarView, i: int) -> bool {
    0 <= i < 9 && (i == 4 || view.cells@[i].nature != CellNature::Invalid)
}

/// The visit state a snapshot gives to its cell `i`: the observer's own cell
/// is visited, of the others nothing is said.
pub open spec fn radar_state(i: int) -> CellState {
    if i == 4 {
        CellState::Visited
    } else {
        CellState::NotVisited
    }
}

/// The map after the cells of a complete snapshot with an index below `n`,
/// and the observer's own cell, have been merged in.
pub open spec fn after_radar_upto(
    before: Map<(int, int), Cell>,
    view: &PrettyRadarView,
    x: int,
    y: int,
    d: Direction,
    n: int,
) -> Map<(int, int), Cell> {
    Map::new(
        |p: (int, int)|
            before.contains_key(p) || {
                let i = radar_index_of(x, y, d, p);
                radar_touches(view, i) && (i < n || i == 4)
            },
        |p: (int, int)|
            {
                let i = radar_index_of(x, y, d, p);
                if radar_touches(view, i) && (i < n || i == 4) {
                    merged_cell(cell_at(before, p), radar_walls(view, d, i), radar_state(i))
                } else {
                    before[p]
                }
            },
    )
}

/// The map after a snapshot taken on `(x, y)` while facing `d` has been
/// merged in. Each cell of the snapshot that lies inside the maze is created
/// where the map did not hold it, and the walls around it are merged with
/// what was known; the observer's own cell becomes visited. A snapshot that
/// is not complete changes nothing.
pub open spec fn after_radar(
    before: Map<(int, int), Cell>,
    view: &PrettyRadarView,
    x: int,
    y: int,
    d: Direction,
) -> Map<(int, int), Cell> {
    if view.is_complete() {
        after_radar_upto(before, view, x, y, d, 9)
    } else {
        before
    }
}

/// How many of the four readings `new` contradict what the map holds of the
/// walls of a cell.
pub open spec fn cell_conflicts(known: Option<Cell>, new: Walls) -> int {
    match known {
        None => 0,
        Some(cell) => (if conflicting(cell.walls.north, new.north) {
            1int
        } else {
            0int
        }) + (if conflicting(cell.walls.east, new.east) {
            1int
        } else {
            0int
        }) + (if conflicting(cell.walls.south, new.south) {
            1int
        } else {
            0int
        }) + (if conflicting(cell.walls.west, new.west) {
            1int
        } else {
            0int
        }),
    }
}

/// How many wall readings of the cells of a complete snapshot with an index
/// below `n` contradict what the map holds.
pub open spec fn conflicts_upto(
    cells: Map<(int, int), Cell>,
    view: &PrettyRadarView,
    x: int,
    y: int,
    d: Direction,
    n: int,
) -> int
    decreases n,
{
    if n <= 0 {
        0
    } else {
        conflicts_upto(cells, view, x, y, d, n - 1) + (if radar_touches(view, n - 1) {
            cell_conflicts(cell_at(cells, radar_position(x, y, d, n - 1)), radar_walls(view, d, n - 1))
        } else {
            0
        })
    }
}

/// How many wall readings of a snapshot taken on `(x, y)` while facing `d`
/// contradict what the map holds: an open reading of a wall the map holds
/// as blocked, or a blocked reading of a wall the map holds as open. Only
/// the cells that would be merged into the map count.
pub open spec fn conflicts_in(
    cells: Map<(int, int), Cell>,
    view: &PrettyRadarView,
    x: int,
    y: int,
    d: Direction,
) -> int {
    if view.is_complete() {
        conflicts_upto(cells, view, x, y, d, 9)
    } else {
        0
    }
}

/// Each cell of a snapshot has its own position, and the index of a
/// position is that of the cell that lies there.
pub proof fn lemma_radar_positions(x: int, y: int, d: Direction, i: int)
    requires
        0 <= i < 9,
    ensures
        radar_index_of(x, y, d, radar_position(x, y, d, i)) == i,
        forall|p: (int, int)| radar_index_of(x, y, d, p) == i ==> p == radar_position(x, y, d, i),
        forall|p: (int, int)| -1 <= #[trigger] radar_index_of(x, y, d, p) < 9,
{
}

/// The snapshot is laid out as the moves are: its cells 1, 5, 7 and 3 are
/// the cells one step to the front, to the right, to the back and to the
/// left, and cell 4 is the observer's own.
pub proof fn lemma_radar_matches_moves(x: int, y: int, d: Direction)
    ensures
        radar_position(x, y, d, 4) == (x, y),
        radar_position(x, y, d, 1) == d.moved(x, y, crate::direction::RelativeMove::Front),
        radar_position(x, y, d, 5) == d.moved(x, y, crate::direction::RelativeMove::Right),
        radar_position(x, y, d, 7) == d.moved(x, y, crate::direction::RelativeMove::Back),
        radar_position(x, y, d, 3) == d.moved(x, y, crate::direction::RelativeMove::Left),
{
}

/// Merging a snapshot only adds knowledge.
pub proof fn lemma_after_radar_refines(
    before: Map<(int, int), Cell>,
    view: &PrettyRadarView,
    x: int,
    y: int,
    d: Direction,
)
    ensures
        map_refines(before, after_radar(before, view, x, y, d)),
{
    let after = after_radar(before, view, x, y, d);
    assert forall|p: (int, int)| #[trigger] before.contains_key(p) implies {
        &&& after.contains_key(p)
        &&& before[p].state == CellState::Visited ==> after[p].state == CellState::Visited
        &&& wall_refines(before[p].walls.north, after[p].walls.north)
        &&& wall_refines(before[p].walls.east, after[p].walls.east)
        &&& wall_refines(before[p].walls.south, after[p].walls.south)
        &&& wall_refines(before[p].walls.west, after[p].walls.west)
    } by {
        let i = radar_index_of(x, y, d, p);
        if view.is_complete() && radar_touches(view, i) {
            let w = radar_walls(view, d, i);
            lemma_merge_refines(before[p].walls.north, w.north);
            lemma_merge_refines(before[p].walls.east, w.east);
            lemma_merge_refines(before[p].walls.south, w.south);
            lemma_merge_refines(before[p].walls.west, w.west);
        }
    }
}

/// A rectangle of positions: the smallest and the largest column, and the
/// smallest and the largest row.
#[derive(Debug, Clone, Copy, PartialEq, Eq, Structural)]
pub struct Bounds {
    pub min_x: i32,
    pub max_x: i32,
    pub min_y: i32,
    pub max_y: i32,
}

impl Bounds {
    /// Whether the rectangle holds a position.
    pub open spec fn holds(self, p: (int, int)) -> bool {
        self.min_x <= p.0 <= self.max_x && self.min_y <= p.1 <= self.max_y
    }

    /// The rectangle that holds one position only.
    pub open spec fn around(p: (int, int)) -> Bounds {
        Bounds { min_x: p.0 as i32, max_x: p.0 as i32, min_y: p.1 as i32, max_y: p.1 as i32 }
    }

    /// The smallest rectangle that holds this one and a position.
    pub open spec fn with(self, p: (int, int)) -> Bounds {
        Bounds {
            min_x: if p.0 < self.min_x {
                p.0 as i32
            } else {
                self.min_x
            },
            max_x: if p.0 > self.max_x {
                p.0 as i32
            } else {
                self.max_x
            },
            min_y: if p.1 < self.min_y {
                p.1 as i32
            } else {
                self.min_y
            },
            max_y: if p.1 > self.max_y {
                p.1 as i32
            } else {
                self.max_y
            },
        }
    }
}

/// Whether `bounds` is the smallest rectangle that holds every cell of the
/// map, and nothing where the map is empty.
pub open spec fn is_span(cells: Map<(int, int), Cell>, bounds: Option<Bounds>) -> bool {
    match bounds {
        None => forall|p: (int, int)| !cells.contains_key(p),
        Some(b) => {
            &&& forall|p: (int, int)| cells.contains_key(p) ==> b.holds(p)
            &&& exists|p: (int, int)| cells.contains_key(p) && p.0 == b.min_x
            &&& exists|p: (int, int)| cells.contains_key(p) && p.0 == b.max_x
            &&& exists|p: (int, int)| cells.contains_key(p) && p.1 == b.min_y
            &&& exists|p: (int, int)| cells.contains_key(p) && p.1 == b.max_y
        },
    }
}

/// Whether `bounds` is the smallest rectangle that holds the first `n` of
/// the positions.
spec fn spans(positions: Seq<(int, int)>, n: int, bounds: Option<Bounds>) -> bool {
    match bounds {
        None => n == 0,
        Some(b) => {
            &&& forall|j: int| 0 <= j < n ==> b.holds(#[trigger] positions[j])
            &&& exists|j: int| 0 <= j < n && (#[trigger] positions[j]).0 == b.min_x
            &&& exists|j: int| 0 <= j < n && (#[trigger] positions[j]).0 == b.max_x
            &&& exists|j: int| 0 <= j < n && (#[trigger] positions[j]).1 == b.min_y
            &&& exists|j: int| 0 <= j < n && (#[trigger] positions[j]).1 == b.max_y
        },
    }
}

proof fn lemma_spans_one_more(positions: Seq<(int, int)>, n: int, bounds: Option<Bounds>)
    requires
        0 <= n < positions.len(),
        in_range(positions[n]),
        spans(positions, n, bounds),
    ensures
        spans(
            positions,
            n + 1,
            Some(
                match bounds {
                    None => Bounds::around(positions[n]),
                    Some(b) => b.with(positions[n]),
                },
            ),
        ),
{
    let p = positions[n];
    match bounds {
        None => {
            let b = Bounds::around(p);
            assert(positions[n].0 == b.min_x && positions[n].0 == b.max_x && positions[n].1
                == b.min_y && positions[n].1 == b.max_y);
        },
        Some(old) => {
            let b = old.with(p);
            let x0 = choose|j: int| 0 <= j < n && (#[trigger] positions[j]).0 == old.min_x;
            let x1 = choose|j: int| 0 <= j < n && (#[trigger] positions[j]).0 == old.max_x;
            let y0 = choose|j: int| 0 <= j < n && (#[trigger] positions[j]).1 == old.min_y;
            let y1 = choose|j: int| 0 <= j < n && (#[trigger] positions[j]).1 == old.max_y;
            assert(positions[if p.0 < old.min_x {
                n
            } else {
                x0
            }].0 == b.min_x);
            assert(positions[if p.0 > old.max_x {
                n
            } else {
                x1
            }].0 == b.max_x);
            assert(positions[if p.1 < old.min_y {
                n
            } else {
                y0
            }].1 == b.min_y);
            assert(positions[if p.1 > old.max_y {
                n
            } else {
                y1
            }].1 == b.max_y);
            assert forall|j: int| 0 <= j < n + 1 implies b.holds(#[trigger] positions[j]) by {
                if j < n {
                    assert(old.holds(positions[j]));
                }
            }
        },
    }
}

/// The cells discovered so far.
#[derive(Debug)]
pub struct MazeMap {
    grid: HashMap<u64, Cell>,
}

impl View for MazeMap {
    type V = Map<(int, int), Cell>;

    closed spec fn view(&self) -> Map<(int, int), Cell> {
        Map::new(
            |p: (int, int)| in_range(p) && self.grid@.contains_key(key_of(p)),
            |p: (int, int)| self.grid@[key_of(p)],
        )
    }
}

impl MazeMap {
    /// The map holds finitely many cells, all at positions that fit the
    /// coordinate type.
    pub proof fn lemma_domain(&self)
        ensures
            self@.dom().finite(),
            forall|p: (int, int)| self@.contains_key(p) ==> in_range(p),
    {
        let keys = self.grid@.dom();
        let image = keys.map(|k: u64| position_of(k));
        keys.lemma_map_finite(|k: u64| position_of(k));
        assert(self@.dom().subset_of(image)) by {
            assert forall|p: (int, int)| self@.dom().contains(p) implies image.contains(p) by {
                lemma_keys(p);
                assert(keys.contains(key_of(p)));
            }
        }
        vstd::set_lib::lemma_set_subset_finite(image, self@.dom());
    }

    /// An empty map.
    pub fn new() -> (r: Self)
        ensures
            r@ == Map::<(int, int), Cell>::empty(),
    {
        let r = Self { grid: HashMap::new() };
        assert(r@ =~= Map::<(int, int), Cell>::empty());
        r
    }

    /// The smallest rectangle that holds every cell of the map.
    pub fn bounds(&self) -> (r: Option<Bounds>)
        ensures
            is_span(self@, r),
    {
        let mut best: Option<Bounds> = None;
        let keys = self.grid.keys();
        let ghost all = keys.remaining().unref();
        let ghost positions = all.map_values(|k: u64| position_of(k));
        for key in it: keys
            invariant
                it.seq().unref() == all,
                positions == all.map_values(|k: u64| position_of(k)),
                spans(positions, it.index() as int, best),
        {
            let (x, y) = unpack_key(*key);
            proof {
                let i = it.index() as int;
                assert(all[i] == *key);
                lemma_positions(*key);
                assert(positions[i] == (x as int, y as int));
                lemma_spans_one_more(positions, i, best);
            }
            best = Some(
                match best {
                    None => Bounds { min_x: x, max_x: x, min_y: y, max_y: y },
                    Some(b) => Bounds {
                        min_x: if x < b.min_x {
                            x
                        } else {
                            b.min_x
                        },
                        max_x: if x > b.max_x {
                            x
                        } else {
                            b.max_x
                        },
                        min_y: if y < b.min_y {
                            y
                        } else {
                            b.min_y
                        },
                        max_y: if y > b.max_y {
                            y
                        } else {
                            b.max_y
                        },
                    },
                },
            );
        }
        proof {
            assert(all.to_set() == self.grid@.dom());
            assert forall|p: (int, int)| self@.contains_key(p) implies exists|j: int|
                0 <= j < positions.len() && #[trigger] positions[j] == p by {
                lemma_keys(p);
                assert(all.to_set().contains(key_of(p)));
                let j = choose|j: int| 0 <= j < all.len() && all[j] == key_of(p);
                assert(positions[j] == p);
            }
            assert forall|j: int| 0 <= j < positions.len() implies self@.contains_key(
                #[trigger] positions[j],
            ) by {
                lemma_positions(all[j]);
                assert(all.to_set().contains(all[j]));
            }
            match best {
                None => {
                    assert forall|p: (int, int)| !self@.contains_key(p) by {
                        if self@.contains_key(p) {
                            let j = choose|j: int|
                                0 <= j < positions.len() && #[trigger] positions[j] == p;
                        }
                    }
                },
                Some(b) => {
                    let n = positions.len() as int;
                    let x0 = choose|j: int| 0 <= j < n && (#[trigger] positions[j]).0 == b.min_x;
                    let x1 = choose|j: int| 0 <= j < n && (#[trigger] positions[j]).0 == b.max_x;
                    let y0 = choose|j: int| 0 <= j < n && (#[trigger] positions[j]).1 == b.min_y;
                    let y1 = choose|j: int| 0 <= j < n && (#[trigger] positions[j]).1 == b.max_y;
                    assert(self@.contains_key(positions[x0]) && positions[x0].0 == b.min_x);
                    assert(self@.contains_key(positions[x1]) && positions[x1].0 == b.max_x);
                    assert(self@.contains_key(positions[y0]) && positions[y0].1 == b.min_y);
                    assert(self@.contains_key(positions[y1]) && positions[y1].1 == b.max_y);
                    assert forall|p: (int, int)| self@.contains_key(p) implies b.holds(p) by {
                        let j = choose|j: int|
                            0 <= j < positions.len() && #[trigger] positions[j] == p;
                        assert(b.holds(positions[j]));
                    }
                },
            }
        }
        best
    }

    /// The cell at `(x, y)`, if it was discovered.
    pub fn get_cell(&self, x: i32, y: i32) -> (r: Option<&Cell>)
        ensures
            match r {
                Some(c) => Some(*c) == cell_at(self@, (x as int, y as int)),
                None => cell_at(self@, (x as int, y as int)) is None,
            },
    {
        let key = pack_key(x, y);
        self.grid.get(&key)
    }

    /// Whether the cell at `(x, y)` was discovered.
    pub fn cell_exists(&self, x: i32, y: i32) -> (r: bool)
        ensures
            r == self@.contains_key((x as int, y as int)),
    {
        let key = pack_key(x, y);
        self.grid.contains_key(&key)
    }

    /// Whether a map holds a visited cell at `p`.
    pub open spec fn visited_at(m: Map<(int, int), Cell>, p: (int, int)) -> bool {
        m.contains_key(p) && m[p].state == CellState::Visited
    }

    /// Whether the cell one step from the player in the given absolute
    /// direction was visited. A cell that was never discovered was not.
    pub fn is_cell_visited(&self, player: Player, direction: Direction) -> (r: bool)
        requires
            player@.can_step(),
        ensures
            r == MazeMap::visited_at(
                self@,
                (player@.x + direction.offset().0, player@.y + direction.offset().1),
            ),
    {
        let (nx, ny) = direction.step_from(player.x, player.y);
        match self.get_cell(nx, ny) {
            Some(cell) => cell.state == CellState::Visited,
            None => false,
        }
    }

    /// Merges a reading of the walls of the cell at `(x, y)` and a visit
    /// state into the map. The cell is created if the map did not hold it.
    /// A visited cell stays visited whatever `new_state` says.
    pub fn update_cell(&mut self, x: i32, y: i32, new_walls: Walls, new_state: CellState)
        ensures
            final(self)@ == old(self)@.insert(
                (x as int, y as int),
                merged_cell(cell_at(old(self)@, (x as int, y as int)), new_walls, new_state),
            ),
            map_refines(old(self)@, final(self)@),
    {
        let key = pack_key(x, y);
        let base = match self.grid.get(&key) {
            Some(cell) => *cell,
            None => Cell::new(),
        };
        let cell = Cell {
            walls: Walls {
                north: merge_wall(base.walls.north, new_walls.north),
                east: merge_wall(base.walls.east, new_walls.east),
                south: merge_wall(base.walls.south, new_walls.south),
                west: merge_wall(base.walls.west, new_walls.west),
            },
            state: if base.state == CellState::Visited {
                CellState::Visited
            } else {
                new_state
            },
        };
        self.grid.insert(key, cell);
        proof {
            let p = (x as int, y as int);
            lemma_keys(p);
            assert forall|q: (int, int)| in_range(q) && q != p implies key_of(q) != key_of(p) by {
                lemma_keys(q);
            }
            assert(final(self)@ =~= old(self)@.insert(p, cell));
        }
    }

    /// The position of cell `index` of a snapshot taken on `(x, y)` while
    /// facing `current_direction`.
    pub fn radarview_offset_to_map_north(
        x: i32,
        y: i32,
        index: usize,
        current_direction: Direction,
    ) -> (r: (i32, i32))
        requires
            index < 9,
            i32::MIN < x < i32::MAX,
            i32::MIN < y < i32::MAX,
        ensures
            (r.0 as int, r.1 as int) == radar_position(x as int, y as int, current_direction, index as int),
    {
        let front: i32 = 1 - (index / 3) as i32;
        let right: i32 = (index % 3) as i32 - 1;
        let (dx, dy) = match current_direction {
            Direction::North => (right, front),
            Direction::East => (front, -right),
            Direction::South => (-right, -front),
            Direction::West => (-front, right),
        };
        (x + dx, y + dy)
    }

    /// Carries out the move named by `action`: the player is moved and
    /// turned, and its way is extended, or cut back where the move closes a
    /// loop. The map itself does not change.
    pub fn update_player(&mut self, player: &mut Player, action: &str)
        requires
            old(player)@.can_step(),
        ensures
            final(self)@ == old(self)@,
            final(player)@ == old(player)@.advanced(action@),
    {
        let (x, y) = player.direction.new_position(player.x, player.y, action);
        match first_passage(&player.path, x, y) {
            Some(pos_index) => {
                player.path.truncate(pos_index + 1);
                player.directions_path.truncate(pos_index);
            },
            None => {
                player.path.push((x, y));
            },
        }
        player.x = x;
        player.y = y;
        player.direction = player.direction.relative_to_absolute(action);
    }

    /// Counts the wall readings of a snapshot taken by the player that
    /// contradict the map, so that the caller can report them before the
    /// snapshot is merged and the contradictions are resolved.
    pub fn count_conflicts(&self, radarview: &PrettyRadarView, player: &Player) -> (n: usize)
        requires
            player@.can_step(),
        ensures
            n == conflicts_in(self@, radarview, player@.x, player@.y, player@.direction),
            n <= 36,
    {
        if radarview.horizontal_walls.len() != 12 || radarview.vertical_walls.len() != 12
            || radarview.cells.len() != 9 {
            return 0;
        }
        let facing = player.direction;
        let mut n: usize = 0;
        let mut i: usize = 0;
        while i < 9
            invariant
                i <= 9,
                radarview.is_complete(),
                facing == player.direction,
                player@.can_step(),
                n <= 4 * i,
                n == conflicts_upto(self@, radarview, player@.x, player@.y, facing, i as int),
            decreases 9 - i,
        {
            if i == 4 || radarview.cells[i].nature != CellNature::Invalid {
                let (px, py) = Self::radarview_offset_to_map_north(player.x, player.y, i, facing);
                let row = i / 3;
                let walls = Walls::from_relative(
                    facing,
                    radarview.horizontal_walls[i],
                    radarview.vertical_walls[i + row + 1],
                    radarview.horizontal_walls[i + 3],
                    radarview.vertical_walls[i + row],
                );
                match self.get_cell(px, py) {
                    Some(cell) => {
                        if is_conflict(cell.walls.north, walls.north) {
                            n += 1;
                        }
                        if is_conflict(cell.walls.east, walls.east) {
                            n += 1;
                        }
                        if is_conflict(cell.walls.south, walls.south) {
                            n += 1;
                        }
                        if is_conflict(cell.walls.west, walls.west) {
                            n += 1;
                        }
                    },
                    None => {},
                }
            }
            i += 1;
        }
        n
    }

    /// Merges a snapshot taken by the player into the map: see
    /// `after_radar`. The player does not change.
    pub fn update_from_radar(&mut self, radarview: &PrettyRadarView, player: &mut Player)
        requires
            old(player)@.can_step(),
        ensures
            final(player)@ == old(player)@,
            final(self)@ == after_radar(
                old(self)@,
                radarview,
                old(player)@.x,
                old(player)@.y,
                old(player)@.direction,
            ),
            map_refines(old(self)@, final(self)@),
    {
        proof {
            lemma_after_radar_refines(
                old(self)@,
                radarview,
                player@.x,
                player@.y,
                player@.direction,
            );
        }
        if radarview.horizontal_walls.len() != 12 || radarview.vertical_walls.len() != 12
            || radarview.cells.len() != 9 {
            return ;
        }
        let facing = player.direction;
        let ghost before = self@;
        let ghost x = player.x as int;
        let ghost y = player.y as int;
        let own = Walls::from_relative(
            facing,
            radarview.horizontal_walls[4],
            radarview.vertical_walls[6],
            radarview.horizontal_walls[7],
            radarview.vertical_walls[5],
        );
        self.update_cell(player.x, player.y, own, CellState::Visited);
        proof {
            lemma_radar_positions(x, y, facing, 4);
            assert(self@ =~= after_radar_upto(before, radarview, x, y, facing, 0));
        }
        let mut i: usize = 0;
        while i < 9
            invariant
                i <= 9,
                radarview.is_complete(),
                facing == player.direction,
                x == player.x,
                y == player.y,
                player@.can_step(),
                self@ == after_radar_upto(before, radarview, x, y, facing, i as int),
            decreases 9 - i,
        {
            if i != 4 && radarview.cells[i].nature != CellNature::Invalid {
                let (px, py) = Self::radarview_offset_to_map_north(player.x, player.y, i, facing);
                let row = i / 3;
                let walls = Walls::from_relative(
                    facing,
                    radarview.horizontal_walls[i],
                    radarview.vertical_walls[i + row + 1],
                    radarview.horizontal_walls[i + 3],
                    radarview.vertical_walls[i + row],
                );
                self.update_cell(px, py, walls, CellState::NotVisited);
                proof {
                    lemma_radar_positions(x, y, facing, i as int);
                }
            }
            assert(self@ =~= after_radar_upto(before, radarview, x, y, facing, i + 1));
            i += 1;
        }
    }
}

/// The index of the first passage of the way through `(x, y)`.
fn first_passage(path: &Vec<(i32, i32)>, x: i32, y: i32) -> (r: Option<usize>)
    ensures
        match r {
            Some(k) => k < path.len() && path@.index_of_first((x, y)) == Some(k as int),
            None => path@.index_of_first((x, y)) is None,
        },
{
    let mut k: usize = 0;
    while k < path.len()
        invariant
            k <= path@.len(),
            forall|j: int| 0 <= j < k ==> path@[j] != (x, y),
        decreases path@.len() - k,
    {
        let (px, py) = path[k];
        if px == x && py == y {
            proof {
                assert(path@[k as int] == (x, y));
                path@.index_of_first_ensures((x, y));
            }
            return Some(k);
        }
        k += 1;
    }
    proof {
        path@.index_of_first_ensures((x, y));
    }
    None
}

} // verus!
