//! Choosing the next move.
//!
//! While exploring, the player prefers a neighbouring cell it has not
//! visited; with none left it retraces its way one step; with no way left to
//! retrace it takes any open direction. Among several equally good moves one
//! is drawn at random, so that the player does not walk in circles.

use rand::seq::IndexedRandom;
use vstd::prelude::*;
use crate::cell::Cell;
use crate::direction::{Direction, RelativeMove};
use crate::map::{after_radar, lemma_merge_refines, lemma_radar_positions, radar_position, wall_refines, MazeMap};
use crate::player::{Player, PlayerState};
use crate::position::at;
use crate::radarview::{CellNature, DecodedCell, PrettyRadarView, Wall};
use crate::search::{
    connected, covers_all, first_step, is_route, is_shortest_route, lemma_walk_starts, place,
    starts_shortest_route,
};

verus! {

/// The player is enclosed by walls and has no way left to retrace.
#[derive(Debug, Clone, Copy, PartialEq, Eq, Structural)]
pub struct ExplorationDeadEnd;

/// The moves among which the next one is drawn.
#[derive(Debug)]
pub struct Candidates {
    pub moves: Vec<RelativeMove>,
    /// Whether the moves retrace the way instead of extending it.
    pub backtrack: bool,
}

/// What a snapshot reads of the wall between the observer's cell and the
/// cell a move leads to.
pub open spec fn wall_towards(view: &PrettyRadarView, m: RelativeMove) -> Wall {
    match m {
        RelativeMove::Front => view.wall_front(4),
        RelativeMove::Right => view.wall_right(4),
        RelativeMove::Back => view.wall_back(4),
        RelativeMove::Left => view.wall_left(4),
    }
}

/// Whether a snapshot shows that a move is possible. A snapshot that is not
/// complete shows nothing.
pub open spec fn is_open(view: &PrettyRadarView, m: RelativeMove) -> bool {
    view.is_complete() && wall_towards(view, m) == Wall::Open
}

/// Whether a move is possible and leads to a cell that was not visited.
pub open spec fn is_fresh(
    cells: Map<(int, int), Cell>,
    player: PlayerState,
    view: &PrettyRadarView,
    m: RelativeMove,
) -> bool {
    is_open(view, m) && !MazeMap::visited_at(cells, player.direction.moved(player.x, player.y, m))
}

/// The sequence that holds `m` if `keep` holds, and nothing otherwise.
pub open spec fn kept(m: RelativeMove, keep: bool) -> Seq<RelativeMove> {
    if keep {
        seq![m]
    } else {
        seq![]
    }
}

/// The possible moves, in the order in which they are probed: right, left,
/// front, back.
pub open spec fn open_moves(view: &PrettyRadarView) -> Seq<RelativeMove> {
    kept(RelativeMove::Right, is_open(view, RelativeMove::Right)) + kept(
        RelativeMove::Left,
        is_open(view, RelativeMove::Left),
    ) + kept(RelativeMove::Front, is_open(view, RelativeMove::Front)) + kept(
        RelativeMove::Back,
        is_open(view, RelativeMove::Back),
    )
}

/// The possible moves that lead to a cell that was not visited, in the order
/// in which they are probed.
pub open spec fn fresh_moves(
    cells: Map<(int, int), Cell>,
    player: PlayerState,
    view: &PrettyRadarView,
) -> Seq<RelativeMove> {
    kept(RelativeMove::Right, is_fresh(cells, player, view, RelativeMove::Right)) + kept(
        RelativeMove::Left,
        is_fresh(cells, player, view, RelativeMove::Left),
    ) + kept(RelativeMove::Front, is_fresh(cells, player, view, RelativeMove::Front)) + kept(
        RelativeMove::Back,
        is_fresh(cells, player, view, RelativeMove::Back),
    )
}

/// Whether the player retraces its way: no possible move leads to a cell
/// that was not visited, and there is an undo move left.
pub open spec fn retraces(
    cells: Map<(int, int), Cell>,
    player: PlayerState,
    view: &PrettyRadarView,
) -> bool {
    fresh_moves(cells, player, view).len() == 0 && player.directions_path.len() > 0
}

/// The moves among which the next one is drawn: the fresh moves where there
/// are any; else the last undo move; else every possible move.
pub open spec fn candidate_moves(
    cells: Map<(int, int), Cell>,
    player: PlayerState,
    view: &PrettyRadarView,
) -> Seq<RelativeMove> {
    if fresh_moves(cells, player, view).len() > 0 {
        fresh_moves(cells, player, view)
    } else if player.directions_path.len() > 0 {
        seq![player.directions_path.last()]
    } else {
        open_moves(view)
    }
}

/// The player once `m` has been chosen. Retracing takes the last undo move
/// and the last position off the stacks; any other move puts its own undo
/// move on the stack.
pub open spec fn after_choice(player: PlayerState, backtrack: bool, m: RelativeMove) -> PlayerState {
    if backtrack {
        PlayerState {
            path: if player.path.len() > 0 {
                player.path.drop_last()
            } else {
                player.path
            },
            directions_path: if player.directions_path.len() > 0 {
                player.directions_path.drop_last()
            } else {
                player.directions_path
            },
            ..player
        }
    } else {
        PlayerState { directions_path: player.directions_path.push(m.spec_opposite()), ..player }
    }
}

/// A move is in a sequence put together from two exactly when it is in one
/// of the two.
proof fn lemma_joined(x: Seq<RelativeMove>, y: Seq<RelativeMove>, m: RelativeMove)
    ensures
        (x + y).contains(m) <==> x.contains(m) || y.contains(m),
{
    let all = x + y;
    if all.contains(m) {
        let i = choose|i: int| 0 <= i < all.len() && all[i] == m;
        if i < x.len() {
            assert(x[i] == m);
        } else {
            assert(y[i - x.len()] == m);
        }
    }
    if x.contains(m) {
        let i = choose|i: int| 0 <= i < x.len() && x[i] == m;
        assert(all[i] == m);
    }
    if y.contains(m) {
        let i = choose|i: int| 0 <= i < y.len() && y[i] == m;
        assert(all[i + x.len()] == m);
    }
}

/// A move that was kept or dropped is there exactly when it was kept.
proof fn lemma_kept_one(a: RelativeMove, keep: bool, m: RelativeMove)
    ensures
        kept(a, keep).contains(m) <==> keep && m == a,
{
    if keep {
        assert(kept(a, keep)[0] == a);
    }
}

/// A move is among four moves that were kept or dropped exactly when it is
/// one of those that were kept.
proof fn lemma_kept(
    a: RelativeMove,
    keep_a: bool,
    b: RelativeMove,
    keep_b: bool,
    c: RelativeMove,
    keep_c: bool,
    d: RelativeMove,
    keep_d: bool,
    m: RelativeMove,
)
    ensures
        (kept(a, keep_a) + kept(b, keep_b) + kept(c, keep_c) + kept(d, keep_d)).contains(m) <==> (
        keep_a && m == a) || (keep_b && m == b) || (keep_c && m == c) || (keep_d && m == d),
{
    lemma_kept_one(a, keep_a, m);
    lemma_kept_one(b, keep_b, m);
    lemma_kept_one(c, keep_c, m);
    lemma_kept_one(d, keep_d, m);
    lemma_joined(kept(a, keep_a), kept(b, keep_b), m);
    lemma_joined(kept(a, keep_a) + kept(b, keep_b), kept(c, keep_c), m);
    lemma_joined(kept(a, keep_a) + kept(b, keep_b) + kept(c, keep_c), kept(d, keep_d), m);
}

/// Every candidate is a possible move, unless the player retraces its way.
pub proof fn lemma_candidates_are_open(
    cells: Map<(int, int), Cell>,
    player: PlayerState,
    view: &PrettyRadarView,
    m: RelativeMove,
)
    requires
        candidate_moves(cells, player, view).contains(m),
        !retraces(cells, player, view),
    ensures
        is_open(view, m),
        wall_towards(view, m) == Wall::Open,
{
    lemma_kept(
        RelativeMove::Right,
        is_fresh(cells, player, view, RelativeMove::Right),
        RelativeMove::Left,
        is_fresh(cells, player, view, RelativeMove::Left),
        RelativeMove::Front,
        is_fresh(cells, player, view, RelativeMove::Front),
        RelativeMove::Back,
        is_fresh(cells, player, view, RelativeMove::Back),
        m,
    );
    lemma_kept(
        RelativeMove::Right,
        is_open(view, RelativeMove::Right),
        RelativeMove::Left,
        is_open(view, RelativeMove::Left),
        RelativeMove::Front,
        is_open(view, RelativeMove::Front),
        RelativeMove::Back,
        is_open(view, RelativeMove::Back),
        m,
    );
}

/// There is no candidate exactly when the snapshot shows no possible move
/// and there is no undo move left.
pub proof fn lemma_dead_end(cells: Map<(int, int), Cell>, player: PlayerState, view: &PrettyRadarView)
    ensures
        candidate_moves(cells, player, view).len() == 0 <==> player.directions_path.len() == 0
            && forall|m: RelativeMove| !is_open(view, m),
{
    let c = candidate_moves(cells, player, view);
    assert forall|m: RelativeMove| is_open(view, m) implies open_moves(view).contains(m) by {
        lemma_kept(
            RelativeMove::Right,
            is_open(view, RelativeMove::Right),
            RelativeMove::Left,
            is_open(view, RelativeMove::Left),
            RelativeMove::Front,
            is_open(view, RelativeMove::Front),
            RelativeMove::Back,
            is_open(view, RelativeMove::Back),
            m,
        );
    }
    if c.len() == 0 {
        assert forall|m: RelativeMove| !is_open(view, m) by {
            if is_open(view, m) {
                assert(open_moves(view).contains(m));
            }
        }
    } else if player.directions_path.len() == 0 {
        assert(c.contains(c[0]));
        lemma_candidates_are_open(cells, player, view, c[0]);
    }
}

/// Whether the snapshot shows that the move is possible.
pub fn shows_open(view: &PrettyRadarView, m: RelativeMove) -> (r: bool)
    ensures
        r == is_open(view, m),
{
    if view.horizontal_walls.len() != 12 || view.vertical_walls.len() != 12 || view.cells.len()
        != 9 {
        return false;
    }
    let wall = match m {
        RelativeMove::Front => view.horizontal_walls[4],
        RelativeMove::Right => view.vertical_walls[6],
        RelativeMove::Back => view.horizontal_walls[7],
        RelativeMove::Left => view.vertical_walls[5],
    };
    wall == Wall::Open
}

/// Collects the moves among which the next one is drawn.
pub fn gather_candidates(map: &MazeMap, player: &Player, view: &PrettyRadarView) -> (r: Candidates)
    requires
        player@.can_step(),
    ensures
        r.moves@ == candidate_moves(map@, player@, view),
        r.backtrack == retraces(map@, player@, view),
{
    let order = [RelativeMove::Right, RelativeMove::Left, RelativeMove::Front, RelativeMove::Back];
    let mut fresh: Vec<RelativeMove> = Vec::new();
    let mut open: Vec<RelativeMove> = Vec::new();
    let ghost cells = map@;
    let ghost state = player@;
    let mut i: usize = 0;
    while i < 4
        invariant
            i <= 4,
            cells == map@,
            state == player@,
            state.can_step(),
            order@ == seq![
                RelativeMove::Right,
                RelativeMove::Left,
                RelativeMove::Front,
                RelativeMove::Back,
            ],
            open@ == open_upto(view, i as int),
            fresh@ == fresh_upto(cells, state, view, i as int),
        decreases 4 - i,
    {
        let m = order[i];
        if shows_open(view, m) {
            open.push(m);
            let direction = player.direction.rotate(m);
            if !map.is_cell_visited(player.clone(), direction) {
                fresh.push(m);
            }
        }
        assert(open@ =~= open_upto(view, i + 1));
        assert(fresh@ =~= fresh_upto(cells, state, view, i + 1));
        i += 1;
    }
    assert(open@ =~= open_moves(view));
    assert(fresh@ =~= fresh_moves(cells, state, view));
    if fresh.len() > 0 {
        Candidates { moves: fresh, backtrack: false }
    } else if player.directions_path.len() > 0 {
        let mut moves: Vec<RelativeMove> = Vec::new();
        moves.push(player.directions_path[player.directions_path.len() - 1]);
        assert(moves@ =~= seq![state.directions_path.last()]);
        Candidates { moves, backtrack: true }
    } else {
        Candidates { moves: open, backtrack: false }
    }
}

/// The possible moves among the first `n` that are probed.
spec fn open_upto(view: &PrettyRadarView, n: int) -> Seq<RelativeMove> {
    kept(RelativeMove::Right, n > 0 && is_open(view, RelativeMove::Right)) + kept(
        RelativeMove::Left,
        n > 1 && is_open(view, RelativeMove::Left),
    ) + kept(RelativeMove::Front, n > 2 && is_open(view, RelativeMove::Front)) + kept(
        RelativeMove::Back,
        n > 3 && is_open(view, RelativeMove::Back),
    )
}

/// The fresh moves among the first `n` that are probed.
spec fn fresh_upto(
    cells: Map<(int, int), Cell>,
    player: PlayerState,
    view: &PrettyRadarView,
    n: int,
) -> Seq<RelativeMove> {
    kept(RelativeMove::Right, n > 0 && is_fresh(cells, player, view, RelativeMove::Right)) + kept(
        RelativeMove::Left,
        n > 1 && is_fresh(cells, player, view, RelativeMove::Left),
    ) + kept(RelativeMove::Front, n > 2 && is_fresh(cells, player, view, RelativeMove::Front))
        + kept(RelativeMove::Back, n > 3 && is_fresh(cells, player, view, RelativeMove::Back))
}

/// Records the move that was drawn. With no move drawn the player is at a
/// dead end and does not change.
pub fn take_move(player: &mut Player, backtrack: bool, chosen: Option<RelativeMove>) -> (r: Result<
    RelativeMove,
    ExplorationDeadEnd,
>)
    ensures
        match chosen {
            Some(m) => r == Ok::<RelativeMove, ExplorationDeadEnd>(m) && final(player)@
                == after_choice(old(player)@, backtrack, m),
            None => r is Err && final(player)@ == old(player)@,
        },
{
    match chosen {
        Some(m) => {
            if backtrack {
                player.directions_path.pop();
                player.path.pop();
            } else {
                player.directions_path.push(m.opposite());
            }
            assert(player@.path =~= after_choice(old(player)@, backtrack, m).path);
            assert(player@.directions_path =~= after_choice(
                old(player)@,
                backtrack,
                m,
            ).directions_path);
            Ok(m)
        },
        None => Err(ExplorationDeadEnd),
    }
}

/// `IndexedRandom::choose` of rand, on the generator of the current thread:
/// no move where there is none to choose from, else one of the given moves.
#[verifier::external_body]
fn choose_move(moves: &Vec<RelativeMove>) -> (r: Option<RelativeMove>)
    ensures
        moves@.len() == 0 ==> r is None,
        moves@.len() > 0 ==> r is Some && moves@.contains(r->0),
{
    moves.choose(&mut rand::rng()).copied()
}

/// Decides the next move of an exploring player and records it on the
/// player's stacks. The move is one of the candidates; which one is left to
/// chance. Without a candidate the player is at a dead end.
pub fn explore_next_move(map: &MazeMap, player: &mut Player, view: &PrettyRadarView) -> (r: Result<
    RelativeMove,
    ExplorationDeadEnd,
>)
    requires
        old(player)@.can_step(),
    ensures
        match r {
            Ok(m) => candidate_moves(map@, old(player)@, view).contains(m) && final(player)@
                == after_choice(old(player)@, retraces(map@, old(player)@, view), m),
            Err(_) => candidate_moves(map@, old(player)@, view).len() == 0 && final(player)@ == old(
                player,
            )@,
        },
{
    let candidates = gather_candidates(map, player, view);
    let chosen = choose_move(&candidates.moves);
    take_move(player, candidates.backtrack, chosen)
}

/// What the navigator is after.
#[derive(Debug, Clone, Copy, PartialEq, Eq, Structural)]
pub enum NavigatorMode {
    /// No goal has been seen yet: the player explores.
    Exploring,
    /// A goal has been seen at this position: the player heads for it.
    Seeking(i32, i32),
}

/// The navigator: its mode, and the compass hint where one was given, as a
/// bearing in degrees clockwise from North.
#[derive(Debug, Clone, Copy)]
pub struct Navigator {
    pub mode: NavigatorMode,
    pub hint: Option<u16>,
}

/// The bearing of a direction, in degrees clockwise from North.
pub open spec fn bearing(d: Direction) -> int {
    90 * d.quarter()
}

/// The angle between two bearings, between 0 and 180 degrees.
pub open spec fn angular_difference(a: int, b: int) -> int {
    let from = a % 360;
    let to = b % 360;
    let gap = if from >= to {
        from - to
    } else {
        to - from
    };
    if gap <= 180 {
        gap
    } else {
        360 - gap
    }
}

/// The place of a direction in the order in which neighbours are looked at:
/// the smaller, the earlier. With a hint the directions closest to it come
/// first; directions equally close, and all directions without a hint, come
/// in the order North, East, South, West.
pub open spec fn preference(hint: Option<u16>, d: Direction) -> int {
    match hint {
        Some(h) => 4 * angular_difference(bearing(d), h as int) + d.quarter(),
        None => d.quarter(),
    }
}

/// Whether `order` lists the four directions by rising `preference`.
pub open spec fn is_expansion_order(hint: Option<u16>, order: Seq<Direction>) -> bool {
    &&& order.len() == 4
    &&& covers_all(order)
    &&& forall|i: int, j: int|
        0 <= i < j < 4 ==> preference(hint, #[trigger] order[i]) < preference(hint, #[trigger] order[j])
}

fn preference_key(hint: Option<u16>, d: Direction) -> (r: u32)
    ensures
        r == preference(hint, d),
{
    let quarter: u32 = match d {
        Direction::North => 0,
        Direction::East => 1,
        Direction::South => 2,
        Direction::West => 3,
    };
    match hint {
        Some(h) => {
            let target: u32 = (h % 360) as u32;
            let own: u32 = 90 * quarter;
            let gap: u32 = if own >= target {
                own - target
            } else {
                target - own
            };
            let difference: u32 = if gap <= 180 {
                gap
            } else {
                360 - gap
            };
            4 * difference + quarter
        },
        None => quarter,
    }
}

fn ranked(keys: &[u32; 4], place: u32) -> (r: Direction)
    ensures
        r == ranked_direction(keys@, place as int),
{
    if rank(keys, 0) == place {
        Direction::North
    } else if rank(keys, 1) == place {
        Direction::East
    } else if rank(keys, 2) == place {
        Direction::South
    } else {
        Direction::West
    }
}

/// How many of the keys are smaller than key `i`.
spec fn rank_of(keys: Seq<u32>, i: int) -> int {
    (if keys[0] < keys[i] {
        1int
    } else {
        0int
    }) + (if keys[1] < keys[i] {
        1int
    } else {
        0int
    }) + (if keys[2] < keys[i] {
        1int
    } else {
        0int
    }) + (if keys[3] < keys[i] {
        1int
    } else {
        0int
    })
}

spec fn ranked_direction(keys: Seq<u32>, place: int) -> Direction {
    if rank_of(keys, 0) == place {
        Direction::North
    } else if rank_of(keys, 1) == place {
        Direction::East
    } else if rank_of(keys, 2) == place {
        Direction::South
    } else {
        Direction::West
    }
}

fn rank(keys: &[u32; 4], i: usize) -> (r: u32)
    requires
        i < 4,
    ensures
        r == rank_of(keys@, i as int),
{
    let own = keys[i];
    let mut r: u32 = 0;
    if keys[0] < own {
        r += 1;
    }
    if keys[1] < own {
        r += 1;
    }
    if keys[2] < own {
        r += 1;
    }
    if keys[3] < own {
        r += 1;
    }
    r
}

/// The order in which the neighbours of a cell are looked at.
pub fn expansion_order(hint: Option<u16>) -> (r: [Direction; 4])
    ensures
        is_expansion_order(hint, r@),
{
    let keys = [
        preference_key(hint, Direction::North),
        preference_key(hint, Direction::East),
        preference_key(hint, Direction::South),
        preference_key(hint, Direction::West),
    ];
    let r = [ranked(&keys, 0), ranked(&keys, 1), ranked(&keys, 2), ranked(&keys, 3)];
    proof {
        assert(keys@[0] == preference(hint, Direction::North));
        assert(keys@[1] == preference(hint, Direction::East));
        assert(keys@[2] == preference(hint, Direction::South));
        assert(keys@[3] == preference(hint, Direction::West));
        assert(keys@[0] % 4 == 0 && keys@[1] % 4 == 1 && keys@[2] % 4 == 2 && keys@[3] % 4 == 3);
        assert(r@[0] == ranked_direction(keys@, 0));
        assert(r@[1] == ranked_direction(keys@, 1));
        assert(r@[2] == ranked_direction(keys@, 2));
        assert(r@[3] == ranked_direction(keys@, 3));
        lemma_ranks(hint, keys@, r@);
    }
    r
}

/// In the order in which neighbours are looked at, a direction that comes
/// no later is preferred no less.
proof fn lemma_order_places(hint: Option<u16>, order: Seq<Direction>, d: Direction, e: Direction)
    requires
        is_expansion_order(hint, order),
        place(order, d) <= place(order, e),
    ensures
        preference(hint, d) <= preference(hint, e),
{
    let i = place(order, d);
    let j = place(order, e);
    let n = choose|t: int| 0 <= t < order.len() && order[t] == d;
    let w = choose|t: int| 0 <= t < order.len() && order[t] == e;
    assert(order.contains(d)) by {
        match d {
            Direction::North => {},
            Direction::East => {},
            Direction::South => {},
            Direction::West => {},
        }
    }
    assert(order.contains(e)) by {
        match e {
            Direction::North => {},
            Direction::East => {},
            Direction::South => {},
            Direction::West => {},
        }
    }
    assert(order[n] == d && order[w] == e);
    assert(order[i] == d && order[j] == e);
    if i < j {
        let pi = preference(hint, order[i]);
        let pj = preference(hint, order[j]);
        assert(pi < pj);
    }
}

proof fn lemma_ranks(hint: Option<u16>, keys: Seq<u32>, order: Seq<Direction>)
    requires
        keys.len() == 4,
        order.len() == 4,
        keys[0] == preference(hint, Direction::North),
        keys[1] == preference(hint, Direction::East),
        keys[2] == preference(hint, Direction::South),
        keys[3] == preference(hint, Direction::West),
        keys[0] != keys[1] && keys[0] != keys[2] && keys[0] != keys[3],
        keys[1] != keys[2] && keys[1] != keys[3] && keys[2] != keys[3],
        forall|i: int| 0 <= i < 4 ==> #[trigger] order[i] == ranked_direction(keys, i),
    ensures
        is_expansion_order(hint, order),
{
    let a = rank_of(keys, 0);
    let b = rank_of(keys, 1);
    let c = rank_of(keys, 2);
    let d = rank_of(keys, 3);
    assert(0 <= a < 4 && 0 <= b < 4 && 0 <= c < 4 && 0 <= d < 4);
    assert(a != b && a != c && a != d && b != c && b != d && c != d);
    assert(order[a] == Direction::North);
    assert(order[b] == Direction::East);
    assert(order[c] == Direction::South);
    assert(order[d] == Direction::West);
    assert(order.contains(Direction::North));
    assert(order.contains(Direction::East));
    assert(order.contains(Direction::South));
    assert(order.contains(Direction::West));
    assert forall|i: int, j: int| 0 <= i < j < 4 implies preference(hint, #[trigger] order[i])
        < preference(hint, #[trigger] order[j]) by {
        assert(order[i] == ranked_direction(keys, i));
        assert(order[j] == ranked_direction(keys, j));
    }
}

/// The index of the first goal cell at or after index `from`, and the number
/// of cells where there is none.
pub open spec fn goal_index(cells: Seq<DecodedCell>, from: int) -> int
    decreases cells.len() - from,
{
    if from < 0 || from >= cells.len() {
        cells.len() as int
    } else if cells[from].nature == CellNature::Goal {
        from
    } else {
        goal_index(cells, from + 1)
    }
}

/// The mode after a snapshot taken by the player has been looked at. An
/// exploring navigator starts to seek as soon as a complete snapshot shows a
/// goal cell, and heads for the first one shown. A seeking navigator keeps
/// its goal.
pub open spec fn next_mode(mode: NavigatorMode, view: &PrettyRadarView, player: PlayerState) -> NavigatorMode {
    match mode {
        NavigatorMode::Seeking(_, _) => mode,
        NavigatorMode::Exploring => if view.is_complete() && goal_index(view.cells@, 0) < 9 {
            let p = radar_position(
                player.x,
                player.y,
                player.direction,
                goal_index(view.cells@, 0),
            );
            NavigatorMode::Seeking(p.0 as i32, p.1 as i32)
        } else {
            NavigatorMode::Exploring
        },
    }
}

/// Whether the map holds what the snapshot reads of the four walls of the
/// player's cell, and the snapshot reads each of them as open or blocked.
/// This is so once the snapshot has been merged into the map.
pub open spec fn agrees_with(cells: Map<(int, int), Cell>, player: PlayerState, view: &PrettyRadarView) -> bool {
    &&& view.is_complete()
    &&& cells.contains_key((player.x, player.y))
    &&& forall|m: RelativeMove|
        {
            &&& #[trigger] wall_towards(view, m) != Wall::Undefined
            &&& wall_refines(
                wall_towards(view, m),
                cells[(player.x, player.y)].walls.side(player.direction.facing(m)),
            )
        }
}

/// A route through the discovered maze leaves the player's cell through a
/// wall that the snapshot reads as open, where map and snapshot agree.
pub proof fn lemma_route_starts_open(
    cells: Map<(int, int), Cell>,
    player: PlayerState,
    view: &PrettyRadarView,
    to: (int, int),
    ds: Seq<Direction>,
    m: RelativeMove,
)
    requires
        agrees_with(cells, player, view),
        is_route(cells, (player.x, player.y), to, ds),
        ds.len() > 0,
        ds[0] == player.direction.facing(m),
    ensures
        is_open(view, m),
{
    lemma_walk_starts(cells, (player.x, player.y), ds);
    assert(wall_towards(view, m) != Wall::Undefined);
}

/// Once a snapshot that reads the four walls of the player's cell as open or
/// blocked has been merged into the map, map and snapshot agree.
pub proof fn lemma_merged_snapshot_agrees(
    before: Map<(int, int), Cell>,
    player: PlayerState,
    view: &PrettyRadarView,
)
    requires
        view.is_complete(),
        forall|m: RelativeMove| #[trigger] wall_towards(view, m) != Wall::Undefined,
    ensures
        agrees_with(after_radar(before, view, player.x, player.y, player.direction), player, view),
{
    let after = after_radar(before, view, player.x, player.y, player.direction);
    let here = (player.x, player.y);
    lemma_radar_positions(player.x, player.y, player.direction, 4);
    assert(after.contains_key(here));
    assert forall|m: RelativeMove|
        {
            &&& #[trigger] wall_towards(view, m) != Wall::Undefined
            &&& wall_refines(
                wall_towards(view, m),
                after[here].walls.side(player.direction.facing(m)),
            )
        } by {
        let old_walls = match crate::map::cell_at(before, here) {
            Some(c) => c.walls,
            None => crate::walls::Walls::unknown(),
        };
        lemma_merge_refines(old_walls.north, wall_towards(view, m));
        lemma_merge_refines(old_walls.east, wall_towards(view, m));
        lemma_merge_refines(old_walls.south, wall_towards(view, m));
        lemma_merge_refines(old_walls.west, wall_towards(view, m));
    }
}

impl Navigator {
    /// Whether the navigator heads for its goal: it has one, the player
    /// does not stand on it, and a route through the discovered maze leads
    /// there.
    pub open spec fn seeks(self, cells: Map<(int, int), Cell>, player: PlayerState) -> bool {
        match self.mode {
            NavigatorMode::Seeking(gx, gy) => (player.x, player.y) != (gx as int, gy as int)
                && connected(cells, (player.x, player.y), (gx as int, gy as int)),
            NavigatorMode::Exploring => false,
        }
    }

    /// The position the navigator heads for.
    pub open spec fn goal(self) -> (int, int) {
        match self.mode {
            NavigatorMode::Seeking(gx, gy) => (gx as int, gy as int),
            NavigatorMode::Exploring => (0, 0),
        }
    }

    /// Whether `r` is a decision the navigator may take for the player
    /// `before`, and `after` the player once the decision is recorded.
    ///
    /// A navigator that heads for its goal takes the first step of a
    /// shortest route, of several such steps the one that the hint prefers,
    /// and records its undo move. Any other navigator takes
    /// one of the candidate moves and records it as `after_choice` says;
    /// without a candidate it is at a dead end and the player stays as it
    /// is.
    pub open spec fn decides(
        self,
        cells: Map<(int, int), Cell>,
        before: PlayerState,
        view: &PrettyRadarView,
        r: Result<RelativeMove, ExplorationDeadEnd>,
        after: PlayerState,
    ) -> bool {
        if self.seeks(cells, before) {
            &&& r is Ok
            &&& starts_shortest_route(
                cells,
                (before.x, before.y),
                self.goal(),
                before.direction.facing(r->Ok_0),
            )
            &&& forall|e: Direction| #[trigger]
                starts_shortest_route(cells, (before.x, before.y), self.goal(), e) ==> preference(
                    self.hint,
                    before.direction.facing(r->Ok_0),
                ) <= preference(self.hint, e)
            &&& after == after_choice(before, false, r->Ok_0)
        } else {
            match r {
                Ok(m) => candidate_moves(cells, before, view).contains(m) && after == after_choice(
                    before,
                    retraces(cells, before, view),
                    m,
                ),
                Err(_) => candidate_moves(cells, before, view).len() == 0 && after == before,
            }
        }
    }

    /// Whether every move the navigator may decide on leads through a wall
    /// that the snapshot reads as open: a navigator that heads for its goal
    /// needs a map that agrees with the snapshot, any other must not be
    /// retracing its way.
    pub open spec fn keeps_to_open_walls(
        self,
        cells: Map<(int, int), Cell>,
        player: PlayerState,
        view: &PrettyRadarView,
    ) -> bool {
        if self.seeks(cells, player) {
            agrees_with(cells, player, view)
        } else {
            !retraces(cells, player, view)
        }
    }

    /// A navigator that explores and has no hint.
    pub fn new() -> (r: Self)
        ensures
            r.mode == NavigatorMode::Exploring,
            r.hint is None,
    {
        Navigator { mode: NavigatorMode::Exploring, hint: None }
    }

    /// Records the compass hint: the bearing of the goal in degrees
    /// clockwise from North.
    pub fn set_hint(&mut self, bearing: u16)
        ensures
            final(self).hint == Some(bearing),
            final(self).mode == old(self).mode,
    {
        self.hint = Some(bearing);
    }

    /// Looks at a snapshot taken by the player: see `next_mode`.
    pub fn observe(&mut self, view: &PrettyRadarView, player: &Player)
        requires
            player@.can_step(),
        ensures
            final(self).mode == next_mode(old(self).mode, view, player@),
            final(self).hint == old(self).hint,
    {
        match self.mode {
            NavigatorMode::Seeking(_, _) => {},
            NavigatorMode::Exploring => {
                if view.horizontal_walls.len() != 12 || view.vertical_walls.len() != 12
                    || view.cells.len() != 9 {
                    return ;
                }
                let mut i: usize = 0;
                while i < 9
                    invariant
                        i <= 9,
                        view.is_complete(),
                        player@.can_step(),
                        self.mode == NavigatorMode::Exploring,
                        old(self).mode == NavigatorMode::Exploring,
                        self.hint == old(self).hint,
                        goal_index(view.cells@, 0) == goal_index(view.cells@, i as int),
                    decreases 9 - i,
                {
                    if view.cells[i].nature == CellNature::Goal {
                        let (gx, gy) = MazeMap::radarview_offset_to_map_north(
                            player.x,
                            player.y,
                            i,
                            player.direction,
                        );
                        self.mode = NavigatorMode::Seeking(gx, gy);
                        return ;
                    }
                    i += 1;
                }
            },
        }
    }

    /// Decides the next move and records it on the player's stacks.
    ///
    /// A navigator that heads for its goal takes the first step of a
    /// shortest route through the discovered maze; the neighbours of each
    /// cell are looked at in the order the hint gives. Any other navigator
    /// explores: see `explore_next_move`. The move leads through a wall that
    /// the snapshot reads as open, as long as the snapshot was merged into
    /// the map and the player does not retrace its way.
    pub fn decide_next_move(&self, map: &MazeMap, player: &mut Player, view: &PrettyRadarView) -> (r:
        Result<RelativeMove, ExplorationDeadEnd>)
        requires
            old(player)@.can_step(),
        ensures
            self.decides(map@, old(player)@, view, r, final(player)@),
            r is Ok && self.keeps_to_open_walls(map@, old(player)@, view) ==> is_open(view, r->Ok_0),
    {
        if let NavigatorMode::Seeking(gx, gy) = self.mode {
            let order = expansion_order(self.hint);
            match first_step(map, (player.x, player.y), (gx, gy), &order) {
                Some(d) => {
                    let m = player.direction.move_towards(d);
                    proof {
                        assert forall|e: Direction| #[trigger]
                            starts_shortest_route(
                                map@,
                                (player@.x, player@.y),
                                (gx as int, gy as int),
                                e,
                            ) implies preference(self.hint, d) <= preference(self.hint, e) by {
                            lemma_order_places(self.hint, order@, d, e);
                        }
                        let ds = choose|ds: Seq<Direction>|
                            is_shortest_route(map@, (player@.x, player@.y), (gx as int, gy as int), ds)
                                && ds.len() > 0 && ds[0] == d;
                        assert(is_route(map@, (player@.x, player@.y), (gx as int, gy as int), ds));
                        assert(connected(map@, (player@.x, player@.y), (gx as int, gy as int)));
                        if (player@.x, player@.y) == (gx as int, gy as int) {
                            assert(is_route(
                                map@,
                                (player@.x, player@.y),
                                (gx as int, gy as int),
                                Seq::<Direction>::empty(),
                            ));
                        }
                        assert(self.seeks(map@, player@));
                        if agrees_with(map@, player@, view) {
                            lemma_route_starts_open(
                                map@,
                                player@,
                                view,
                                (gx as int, gy as int),
                                ds,
                                m,
                            );
                        }
                    }
                    return take_move(player, false, Some(m));
                },
                None => {},
            }
        }
        let r = explore_next_move(map, player, view);
        proof {
            if r is Ok && !retraces(map@, old(player)@, view) {
                lemma_candidates_are_open(map@, old(player)@, view, r->Ok_0);
            }
        }
        r
    }
}

} // verus!
