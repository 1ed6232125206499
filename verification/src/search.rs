//! Shortest routes through the discovered part of the maze.
//!
//! Two neighbouring cells are joined where both were discovered and the wall
//! between them is known to be open: what the two cells hold of that wall is
//! merged, so one blocked reading closes the edge.

use vstd::prelude::*;
use crate::cell::Cell;
use crate::direction::Direction;
use crate::map::{merge_wall, merged, MazeMap};
use crate::position::{at, in_range, PositionSet};
use crate::radarview::Wall;

verus! {

/// The position one step from `p` in direction `d`.
pub open spec fn neighbor(p: (int, int), d: Direction) -> (int, int) {
    (p.0 + d.offset().0, p.1 + d.offset().1)
}

/// Whether the step from `p` in direction `d` is known to be possible.
pub open spec fn passable(cells: Map<(int, int), Cell>, p: (int, int), d: Direction) -> bool {
    let q = neighbor(p, d);
    &&& cells.contains_key(p)
    &&& cells.contains_key(q)
    &&& merged(cells[p].walls.side(d), cells[q].walls.side(d.spec_turn_back())) == Wall::Open
}

/// Where the steps `ds` lead from `p`.
pub open spec fn walk_end(p: (int, int), ds: Seq<Direction>) -> (int, int)
    decreases ds.len(),
{
    if ds.len() == 0 {
        p
    } else {
        neighbor(walk_end(p, ds.drop_last()), ds.last())
    }
}

/// Whether every one of the steps `ds`, taken from `p`, is known to be
/// possible.
pub open spec fn walkable(cells: Map<(int, int), Cell>, p: (int, int), ds: Seq<Direction>) -> bool
    decreases ds.len(),
{
    ds.len() == 0 || (walkable(cells, p, ds.drop_last()) && passable(
        cells,
        walk_end(p, ds.drop_last()),
        ds.last(),
    ))
}

/// Whether the steps `ds` are a route from `from` to `to`.
pub open spec fn is_route(
    cells: Map<(int, int), Cell>,
    from: (int, int),
    to: (int, int),
    ds: Seq<Direction>,
) -> bool {
    walkable(cells, from, ds) && walk_end(from, ds) == to
}

/// Whether the steps `ds` are a route from `from` to `to` and no route
/// between the two is shorter.
pub open spec fn is_shortest_route(
    cells: Map<(int, int), Cell>,
    from: (int, int),
    to: (int, int),
    ds: Seq<Direction>,
) -> bool {
    &&& is_route(cells, from, to, ds)
    &&& forall|other: Seq<Direction>| #[trigger]
        is_route(cells, from, to, other) ==> ds.len() <= other.len()
}

/// Whether some route leads from `from` to `to`.
pub open spec fn connected(cells: Map<(int, int), Cell>, from: (int, int), to: (int, int)) -> bool {
    exists|ds: Seq<Direction>| is_route(cells, from, to, ds)
}

/// Whether `ds` lists each of the four directions.
pub open spec fn covers_all(ds: Seq<Direction>) -> bool {
    &&& ds.contains(Direction::North)
    &&& ds.contains(Direction::East)
    &&& ds.contains(Direction::South)
    &&& ds.contains(Direction::West)
}

/// An edge can be walked both ways.
pub proof fn lemma_passable_symmetric(cells: Map<(int, int), Cell>, p: (int, int), d: Direction)
    ensures
        passable(cells, p, d) == passable(cells, neighbor(p, d), d.spec_turn_back()),
        neighbor(neighbor(p, d), d.spec_turn_back()) == p,
{
}

/// The place of a direction in the order in which neighbours are looked at.
pub open spec fn place(order: Seq<Direction>, d: Direction) -> int {
    if order[0] == d {
        0
    } else if order[1] == d {
        1
    } else if order[2] == d {
        2
    } else {
        3
    }
}

/// Whether a shortest route from `from` to `to` starts in direction `d`.
pub open spec fn starts_shortest_route(
    cells: Map<(int, int), Cell>,
    from: (int, int),
    to: (int, int),
    d: Direction,
) -> bool {
    exists|ds: Seq<Direction>| is_shortest_route(cells, from, to, ds) && ds.len() > 0 && ds[0] == d
}

/// Two steps from one cell that lead to the same cell are the same step.
pub proof fn lemma_neighbor_injective(p: (int, int), d: Direction, e: Direction)
    requires
        neighbor(p, d) == neighbor(p, e),
    ensures
        d == e,
{
}

/// The state of a breadth-first search: the cells found so far in the order
/// in which they were found, a route to each and the cell it was found
/// from, how many of the cells have had their neighbours looked at, and the
/// order in which neighbours are looked at.
ghost struct Frontier {
    queue: Seq<(i32, i32)>,
    routes: Seq<Seq<Direction>>,
    parent: Seq<int>,
    head: int,
    order: Seq<Direction>,
}

/// Whether the search has found `v`.
spec fn queued(queue: Seq<(i32, i32)>, v: (int, int)) -> bool {
    exists|j: int| 0 <= j < queue.len() && at(#[trigger] queue[j]) == v
}

/// The place of the first step of the route to cell `j`.
spec fn lead(f: Frontier, j: int) -> int {
    place(f.order, f.routes[j][0])
}

/// The place of the first step of the route that goes to cell `i` and then
/// one step in direction `d`.
spec fn lead_via(f: Frontier, i: int, d: Direction) -> int {
    if i == 0 {
        place(f.order, d)
    } else {
        lead(f, i)
    }
}

/// Whether entry `j` of the search is the cell `v`, found by a route of
/// fewer than `bound` steps, or of `bound` steps with a first step whose
/// place is at most `rank`.
spec fn lists(f: Frontier, j: int, v: (int, int), bound: nat, rank: int) -> bool {
    &&& 0 <= j < f.queue.len()
    &&& at(f.queue[j]) == v
    &&& f.routes[j].len() <= bound
    &&& f.routes[j].len() == bound && bound > 0 ==> lead(f, j) <= rank
}

/// Whether the search has found `v` by such a route.
spec fn listed(f: Frontier, v: (int, int), bound: nat, rank: int) -> bool {
    exists|j: int| #[trigger] lists(f, j, v, bound, rank)
}

/// The lists of the search have one length, and the search started at
/// `from`.
spec fn shaped(from: (int, int), f: Frontier) -> bool {
    &&& f.queue.len() == f.routes.len()
    &&& f.queue.len() == f.parent.len()
    &&& f.queue.len() >= 1
    &&& 0 <= f.head <= f.queue.len()
    &&& f.order.len() == 4
    &&& covers_all(f.order)
    &&& at(f.queue[0]) == from
    &&& f.routes[0].len() == 0
}

/// Each cell was found by a route from the start, no cell is the goal, and
/// the cells are listed by the length of their routes, none more than one
/// step longer than the route to the cell whose neighbours are looked at.
#[verifier::opaque]
spec fn routed(cells: Map<(int, int), Cell>, from: (int, int), to: (int, int), f: Frontier) -> bool {
    &&& forall|j: int|
        0 <= j < f.queue.len() ==> is_route(cells, from, at(f.queue[j]), #[trigger] f.routes[j])
    &&& forall|j: int| 0 < j < f.queue.len() ==> (#[trigger] f.routes[j]).len() > 0
    &&& forall|i: int, j: int|
        0 <= i <= j < f.queue.len() ==> (#[trigger] f.routes[i]).len() <= (#[trigger] f.routes[j]).len()
    &&& f.head < f.queue.len() ==> forall|j: int|
        0 <= j < f.queue.len() ==> (#[trigger] f.routes[j]).len() <= f.routes[f.head].len() + 1
    &&& forall|j: int| 0 <= j < f.queue.len() ==> at(#[trigger] f.queue[j]) != to
}

/// Each cell but the first was found from an earlier cell, one step before
/// the end of its route, and cells equally far from the start are listed by
/// the place of the first step of their routes.
#[verifier::opaque]
spec fn rooted(f: Frontier) -> bool {
    &&& forall|j: int|
        0 < j < f.queue.len() ==> {
            &&& 0 <= (#[trigger] f.parent[j]) < j
            &&& f.head < f.queue.len() ==> f.parent[j] <= f.head
            &&& f.routes[j].drop_last() == f.routes[f.parent[j]]
            &&& at(f.queue[j]) == neighbor(at(f.queue[f.parent[j]]), f.routes[j].last())
        }
    &&& forall|i: int, j: int|
        0 < i <= j < f.queue.len() && (#[trigger] f.routes[i]).len() == (#[trigger] f.routes[j]).len()
            ==> lead(f, i) <= lead(f, j)
}

/// Every neighbour of a cell whose neighbours have been looked at was
/// found, by a route that is no worse than the one through that cell.
#[verifier::opaque]
spec fn closed(cells: Map<(int, int), Cell>, f: Frontier) -> bool {
    forall|i: int, d: Direction|
        0 <= i < f.head && #[trigger] passable(cells, at(f.queue[i]), d) ==> listed(
            f,
            neighbor(at(f.queue[i]), d),
            f.routes[i].len() + 1,
            lead_via(f, i, d),
        )
}

spec fn frontier_ok(cells: Map<(int, int), Cell>, from: (int, int), to: (int, int), f: Frontier) -> bool {
    &&& shaped(from, f)
    &&& routed(cells, from, to, f)
    &&& rooted(f)
    &&& closed(cells, f)
}

/// The first `k` neighbours of the cell that is looked at were found, if
/// they can be reached, by routes no worse than the one through that cell;
/// and while the start is looked at, the cells found so far were found by
/// steps that come before step `k`.
#[verifier::opaque]
spec fn looked_at(cells: Map<(int, int), Cell>, f: Frontier, k: int) -> bool {
    &&& forall|i: int|
        0 <= i < k && passable(cells, at(f.queue[f.head]), #[trigger] f.order[i]) ==> listed(
            f,
            neighbor(at(f.queue[f.head]), f.order[i]),
            f.routes[f.head].len() + 1,
            lead_via(f, f.head, f.order[i]),
        )
    &&& f.head == 0 ==> forall|j: int|
        0 < j < f.queue.len() ==> place(f.order, (#[trigger] f.routes[j])[0]) < k
}

/// Whether `after` is the search `before` with one more cell, found from
/// the cell that is looked at by a step in direction `d`.
spec fn grown(before: Frontier, after: Frontier, d: Direction) -> bool {
    let n = before.queue.len() as int;
    &&& after.queue.len() == n + 1
    &&& after.routes.len() == n + 1
    &&& after.parent.len() == n + 1
    &&& after.head == before.head
    &&& after.order == before.order
    &&& forall|j: int|
        0 <= j < n ==> #[trigger] after.queue[j] == before.queue[j] && after.routes[j]
            == before.routes[j] && after.parent[j] == before.parent[j]
    &&& at(after.queue[n]) == neighbor(at(before.queue[before.head]), d)
    &&& after.routes[n] == before.routes[before.head].push(d)
    &&& after.parent[n] == before.head
}

/// An order that lists each of the four directions gives each its own place.
proof fn lemma_places(order: Seq<Direction>)
    requires
        order.len() == 4,
        covers_all(order),
    ensures
        forall|i: int| 0 <= i < 4 ==> place(order, #[trigger] order[i]) == i,
        forall|d: Direction| 0 <= #[trigger] place(order, d) < 4 && order[place(order, d)] == d,
{
    let n = choose|i: int| 0 <= i < order.len() && order[i] == Direction::North;
    let e = choose|i: int| 0 <= i < order.len() && order[i] == Direction::East;
    let s = choose|i: int| 0 <= i < order.len() && order[i] == Direction::South;
    let w = choose|i: int| 0 <= i < order.len() && order[i] == Direction::West;
    assert(order[n] == Direction::North && order[e] == Direction::East && order[s]
        == Direction::South && order[w] == Direction::West);
}

/// A search that has found more keeps what it had found.
proof fn lemma_listed_grows(before: Frontier, after: Frontier)
    requires
        before.queue.len() <= after.queue.len(),
        before.queue.len() == before.routes.len(),
        after.queue.len() == after.routes.len(),
        before.order == after.order,
        forall|j: int|
            0 <= j < before.queue.len() ==> #[trigger] after.queue[j] == before.queue[j]
                && after.routes[j] == before.routes[j],
    ensures
        forall|v: (int, int), bound: nat, rank: int| #[trigger]
            listed(before, v, bound, rank) ==> listed(after, v, bound, rank),
{
    assert forall|v: (int, int), bound: nat, rank: int| #[trigger]
        listed(before, v, bound, rank) implies listed(after, v, bound, rank) by {
        let j = choose|j: int| #[trigger] lists(before, j, v, bound, rank);
        assert(after.queue[j] == before.queue[j]);
        assert(lists(after, j, v, bound, rank));
    }
}

/// Every cell that a route of `ds` reaches is found by the search, by a
/// route that is shorter, or as long and with a first step that comes no
/// later, as long as `ds` is no longer than the route to the cell whose
/// neighbours are looked at next.
proof fn lemma_found(
    cells: Map<(int, int), Cell>,
    from: (int, int),
    to: (int, int),
    f: Frontier,
    ds: Seq<Direction>,
    v: (int, int),
)
    requires
        frontier_ok(cells, from, to, f),
        is_route(cells, from, v, ds),
        f.head < f.queue.len() ==> ds.len() <= f.routes[f.head].len(),
    ensures
        listed(f, v, ds.len(), place(f.order, ds[0])),
    decreases ds.len(),
{
    reveal(routed);
    reveal(closed);
    if ds.len() == 0 {
        assert(lists(f, 0, v, ds.len(), place(f.order, ds[0])));
    } else {
        let rest = ds.drop_last();
        let u = walk_end(from, rest);
        lemma_found(cells, from, to, f, rest, u);
        let i = choose|i: int| #[trigger] lists(f, i, u, rest.len(), place(f.order, rest[0]));
        if f.head < f.queue.len() {
            assert(f.routes[i].len() < f.routes[f.head].len());
            if i >= f.head {
                assert(f.routes[f.head].len() <= f.routes[i].len());
            }
        }
        assert(i < f.head);
        assert(passable(cells, at(f.queue[i]), ds.last()));
        assert(listed(
            f,
            neighbor(at(f.queue[i]), ds.last()),
            f.routes[i].len() + 1,
            lead_via(f, i, ds.last()),
        ));
        let j = choose|j: int| #[trigger]
            lists(
                f,
                j,
                neighbor(at(f.queue[i]), ds.last()),
                f.routes[i].len() + 1,
                lead_via(f, i, ds.last()),
            );
        if f.routes[j].len() == ds.len() {
            assert(f.routes[i].len() == rest.len());
            if rest.len() == 0 {
                assert(i == 0) by {
                    if i > 0 {
                        assert(f.routes[i].len() > 0);
                    }
                }
                assert(ds[0] == ds.last());
            } else {
                assert(rest[0] == ds[0]);
                assert(i != 0);
            }
        }
        assert(lists(f, j, v, ds.len(), place(f.order, ds[0])));
    }
}

/// The search as it starts.
proof fn lemma_started(cells: Map<(int, int), Cell>, from: (i32, i32), to: (int, int), order: Seq<Direction>)
    requires
        order.len() == 4,
        covers_all(order),
        at(from) != to,
    ensures
        frontier_ok(
            cells,
            at(from),
            to,
            Frontier {
                queue: seq![from],
                routes: seq![Seq::<Direction>::empty()],
                parent: seq![0int],
                head: 0,
                order,
            },
        ),
{
    reveal(routed);
    reveal(rooted);
    reveal(closed);
    let f = Frontier {
        queue: seq![from],
        routes: seq![Seq::<Direction>::empty()],
        parent: seq![0int],
        head: 0,
        order,
    };
    assert(is_route(cells, at(from), at(f.queue[0]), f.routes[0]));
}

/// Before the first neighbour of a cell is looked at.
proof fn lemma_begin_cell(cells: Map<(int, int), Cell>, f: Frontier)
    requires
        f.head == 0 ==> f.queue.len() == 1,
    ensures
        looked_at(cells, f, 0),
{
    reveal(looked_at);
}

/// A neighbour that cannot be reached needs no route.
proof fn lemma_blocked_step(cells: Map<(int, int), Cell>, f: Frontier, k: int)
    requires
        looked_at(cells, f, k),
        !passable(cells, at(f.queue[f.head]), f.order[k]),
    ensures
        looked_at(cells, f, k + 1),
{
    reveal(looked_at);
}

/// A neighbour that was found before was found by a route that is no worse
/// than the one through the cell whose neighbours are looked at.
proof fn lemma_seen_step(
    cells: Map<(int, int), Cell>,
    from: (int, int),
    to: (int, int),
    f: Frontier,
    k: int,
    j: int,
)
    requires
        frontier_ok(cells, from, to, f),
        looked_at(cells, f, k),
        0 <= k < 4,
        f.head < f.queue.len(),
        0 <= j < f.queue.len(),
        at(f.queue[j]) == neighbor(at(f.queue[f.head]), f.order[k]),
    ensures
        looked_at(cells, f, k + 1),
{
    reveal(routed);
    reveal(rooted);
    let h = f.head;
    let d = f.order[k];
    let v = neighbor(at(f.queue[h]), d);
    assert(f.routes[j].len() <= f.routes[h].len() + 1);
    if f.routes[j].len() == f.routes[h].len() + 1 {
        assert(j > 0) by {
            if j == 0 {
                assert(f.routes[0].len() == 0);
            }
        }
        let p = f.parent[j];
        assert(f.routes[j].drop_last() == f.routes[p]);
        assert(f.routes[p].len() == f.routes[h].len());
        assert(p <= h);
        if p == h {
            lemma_neighbor_injective(at(f.queue[h]), d, f.routes[j].last());
            if h == 0 {
                assert(f.routes[j].len() == 1);
                assert(f.routes[j][0] == f.routes[j].last());
            } else {
                assert(f.routes[h].len() > 0);
                assert(f.routes[j][0] == f.routes[j].drop_last()[0]);
            }
        } else {
            assert(h != 0);
            assert(p != 0) by {
                if p == 0 {
                    assert(f.routes[h].len() > 0);
                }
            }
            assert(f.routes[j][0] == f.routes[j].drop_last()[0]);
            assert(lead(f, p) <= lead(f, h));
        }
    }
    assert(lists(f, j, v, f.routes[h].len() + 1, lead_via(f, h, d)));
    reveal(looked_at);
}

/// The routes stay in order when one more cell is found.
proof fn lemma_grown_routed(
    cells: Map<(int, int), Cell>,
    from: (int, int),
    to: (int, int),
    before: Frontier,
    after: Frontier,
    d: Direction,
)
    requires
        shaped(from, before),
        routed(cells, from, to, before),
        before.head < before.queue.len(),
        passable(cells, at(before.queue[before.head]), d),
        neighbor(at(before.queue[before.head]), d) != to,
        grown(before, after, d),
    ensures
        shaped(from, after),
        routed(cells, from, to, after),
        after.routes[before.queue.len() as int][0] == (if before.head == 0 {
            d
        } else {
            before.routes[before.head][0]
        }),
{
    reveal(routed);
    let n = before.queue.len() as int;
    let h = before.head;
    let route = after.routes[n];
    assert(route.drop_last() =~= before.routes[h]);
    assert(route.last() == d);
    assert(is_route(cells, from, at(before.queue[h]), before.routes[h]));
    assert(is_route(cells, from, at(after.queue[n]), route));
    assert(after.queue[0] == before.queue[0]);
    assert(after.queue[h] == before.queue[h]);
    if h > 0 {
        assert(before.routes[h].len() > 0);
    }
    assert forall|j: int| 0 <= j < after.queue.len() implies is_route(
        cells,
        from,
        at(after.queue[j]),
        #[trigger] after.routes[j],
    ) by {
        if j < n {
            assert(after.queue[j] == before.queue[j]);
            assert(is_route(cells, from, at(before.queue[j]), before.routes[j]));
        }
    }
    assert forall|j: int| 0 < j < after.queue.len() implies (#[trigger] after.routes[j]).len()
        > 0 by {
        if j < n {
            assert(after.queue[j] == before.queue[j]);
            assert(before.routes[j].len() > 0);
        }
    }
    assert forall|i: int, j: int| 0 <= i <= j < after.queue.len() implies (
    #[trigger] after.routes[i]).len() <= (#[trigger] after.routes[j]).len() by {
        if i < n {
            assert(after.queue[i] == before.queue[i]);
            assert(before.routes[i].len() <= before.routes[h].len() + 1);
        }
        if j < n {
            assert(after.queue[j] == before.queue[j]);
            assert(before.routes[i].len() <= before.routes[j].len());
        }
    }
    assert forall|j: int| 0 <= j < after.queue.len() implies (#[trigger] after.routes[j]).len()
        <= after.routes[after.head].len() + 1 by {
        if j < n {
            assert(after.queue[j] == before.queue[j]);
            assert(before.routes[j].len() <= before.routes[h].len() + 1);
        }
    }
    assert forall|j: int| 0 <= j < after.queue.len() implies at(#[trigger] after.queue[j])
        != to by {
        if j < n {
            assert(at(before.queue[j]) != to);
        }
    }
}

/// The cells stay listed by the place of their first steps when one more
/// cell is found.
proof fn lemma_grown_rooted(
    cells: Map<(int, int), Cell>,
    from: (int, int),
    to: (int, int),
    before: Frontier,
    after: Frontier,
    k: int,
)
    requires
        shaped(from, before),
        routed(cells, from, to, before),
        rooted(before),
        looked_at(cells, before, k),
        0 <= k < 4,
        before.head < before.queue.len(),
        grown(before, after, before.order[k]),
    ensures
        rooted(after),
{
    reveal(routed);
    reveal(rooted);
    reveal(looked_at);
    lemma_places(before.order);
    let n = before.queue.len() as int;
    let h = before.head;
    let d = before.order[k];
    let route = after.routes[n];
    assert(route.drop_last() =~= before.routes[h]);
    assert(after.queue[h] == before.queue[h]);
    assert forall|j: int| 0 < j < after.queue.len() implies {
        &&& 0 <= (#[trigger] after.parent[j]) < j
        &&& after.head < after.queue.len() ==> after.parent[j] <= after.head
        &&& after.routes[j].drop_last() == after.routes[after.parent[j]]
        &&& at(after.queue[j]) == neighbor(at(after.queue[after.parent[j]]), after.routes[j].last())
    } by {
        if j < n {
            assert(after.queue[j] == before.queue[j]);
            let p = before.parent[j];
            assert(0 <= p < j);
            assert(after.queue[p] == before.queue[p]);
        }
    }
    assert forall|i: int, j: int|
        0 < i <= j < after.queue.len() && (#[trigger] after.routes[i]).len() == (
        #[trigger] after.routes[j]).len() implies lead(after, i) <= lead(after, j) by {
        if j < n {
            assert(after.queue[i] == before.queue[i]);
            assert(after.queue[j] == before.queue[j]);
            assert(lead(before, i) <= lead(before, j));
        } else if i < n {
            assert(after.queue[i] == before.queue[i]);
            let p = before.parent[i];
            assert(before.routes[i].drop_last() == before.routes[p]);
            assert(before.routes[p].len() == before.routes[h].len());
            if h == 0 {
                assert(place(before.order, before.routes[i][0]) < k);
                assert(route[0] == d);
            } else {
                assert(before.routes[h].len() > 0);
                assert(p != 0);
                assert(before.routes[i][0] == before.routes[i].drop_last()[0]);
                assert(route[0] == before.routes[h][0]);
                assert(p <= h);
                assert(lead(before, p) <= lead(before, h));
            }
        }
    }
}

/// What was found behind the cell that is looked at stays found when one
/// more cell is found, and so do the neighbours looked at so far.
proof fn lemma_grown_closed(
    cells: Map<(int, int), Cell>,
    from: (int, int),
    before: Frontier,
    after: Frontier,
    k: int,
)
    requires
        shaped(from, before),
        closed(cells, before),
        looked_at(cells, before, k),
        0 <= k < 4,
        before.head < before.queue.len(),
        grown(before, after, before.order[k]),
        before.head > 0 ==> before.routes[before.head].len() > 0,
    ensures
        closed(cells, after),
        looked_at(cells, after, k + 1),
{
    reveal(closed);
    reveal(looked_at);
    lemma_places(before.order);
    lemma_listed_grows(before, after);
    let n = before.queue.len() as int;
    let h = before.head;
    let d = before.order[k];
    let route = after.routes[n];
    assert(after.queue[h] == before.queue[h]);
    assert forall|i: int, e: Direction|
        0 <= i < after.head && #[trigger] passable(cells, at(after.queue[i]), e) implies listed(
        after,
        neighbor(at(after.queue[i]), e),
        after.routes[i].len() + 1,
        lead_via(after, i, e),
    ) by {
        assert(after.queue[i] == before.queue[i]);
        assert(passable(cells, at(before.queue[i]), e));
        assert(listed(
            before,
            neighbor(at(before.queue[i]), e),
            before.routes[i].len() + 1,
            lead_via(before, i, e),
        ));
        assert(lead_via(before, i, e) == lead_via(after, i, e));
    }
    assert(route[0] == if h == 0 {
        d
    } else {
        before.routes[h][0]
    });
    assert(lists(after, n, neighbor(at(before.queue[h]), d), before.routes[h].len() + 1, lead_via(after, h, d)));
    assert forall|i: int|
        0 <= i < k + 1 && passable(cells, at(after.queue[after.head]), #[trigger] after.order[i]) implies listed(
        after,
        neighbor(at(after.queue[after.head]), after.order[i]),
        after.routes[after.head].len() + 1,
        lead_via(after, after.head, after.order[i]),
    ) by {
        if i < k {
            assert(listed(
                before,
                neighbor(at(before.queue[h]), before.order[i]),
                before.routes[h].len() + 1,
                lead_via(before, h, before.order[i]),
            ));
            assert(lead_via(before, h, before.order[i]) == lead_via(after, h, after.order[i]));
        }
    }
    if h == 0 {
        assert forall|j: int| 0 < j < after.queue.len() implies place(
            after.order,
            (#[trigger] after.routes[j])[0],
        ) < k + 1 by {
            if j < n {
                assert(after.queue[j] == before.queue[j]);
                assert(place(before.order, before.routes[j][0]) < k);
            }
        }
    }
}

/// Once all neighbours of a cell have been looked at, the search goes on
/// with the next cell.
proof fn lemma_next_cell(cells: Map<(int, int), Cell>, from: (int, int), to: (int, int), f: Frontier, g: Frontier)
    requires
        frontier_ok(cells, from, to, f),
        looked_at(cells, f, 4),
        f.head < f.queue.len(),
        g == (Frontier { head: f.head + 1, ..f }),
    ensures
        frontier_ok(cells, from, to, g),
{
    reveal(routed);
    reveal(rooted);
    reveal(closed);
    reveal(looked_at);
    lemma_places(f.order);
    lemma_listed_grows(f, g);
    assert forall|i: int, e: Direction|
        0 <= i < g.head && #[trigger] passable(cells, at(g.queue[i]), e) implies listed(
        g,
        neighbor(at(g.queue[i]), e),
        g.routes[i].len() + 1,
        lead_via(g, i, e),
    ) by {
        if i < f.head {
            assert(listed(
                f,
                neighbor(at(f.queue[i]), e),
                f.routes[i].len() + 1,
                lead_via(f, i, e),
            ));
        } else {
            let t = place(f.order, e);
            assert(f.order[t] == e);
            assert(listed(
                f,
                neighbor(at(f.queue[f.head]), f.order[t]),
                f.routes[f.head].len() + 1,
                lead_via(f, f.head, f.order[t]),
            ));
        }
        assert(lead_via(f, i, e) == lead_via(g, i, e));
    }
    if g.head < g.queue.len() {
        assert forall|j: int| 0 <= j < g.queue.len() implies (#[trigger] g.routes[j]).len()
            <= g.routes[g.head].len() + 1 by {
            assert(f.routes[j].len() <= f.routes[f.head].len() + 1);
            assert(f.routes[f.head].len() <= f.routes[f.head + 1].len());
        }
    }
    assert forall|i: int, j: int|
        0 < i <= j < g.queue.len() && (#[trigger] g.routes[i]).len() == (
        #[trigger] g.routes[j]).len() implies lead(g, i) <= lead(g, j) by {
        assert(lead(f, i) <= lead(f, j));
    }
}

/// When the goal is found from the cell whose neighbours are looked at, the
/// route to that cell and one step more is a shortest route to the goal,
/// and no shortest route has a first step that comes earlier.
proof fn lemma_goal_found(
    cells: Map<(int, int), Cell>,
    from: (int, int),
    to: (int, int),
    f: Frontier,
    d: Direction,
)
    requires
        frontier_ok(cells, from, to, f),
        f.head < f.queue.len(),
        passable(cells, at(f.queue[f.head]), d),
        neighbor(at(f.queue[f.head]), d) == to,
    ensures
        ({
            let start_step = if f.head == 0 {
                d
            } else {
                f.routes[f.head][0]
            };
            &&& starts_shortest_route(cells, from, to, start_step)
            &&& forall|e: Direction| #[trigger]
                starts_shortest_route(cells, from, to, e) ==> place(f.order, start_step) <= place(
                    f.order,
                    e,
                )
        }),
{
    reveal(routed);
    reveal(rooted);
    reveal(closed);
    let h = f.head;
    let reach = f.routes[h];
    let route = reach.push(d);
    let start_step = if h == 0 {
        d
    } else {
        reach[0]
    };
    assert(route.drop_last() =~= reach);
    assert(is_route(cells, from, at(f.queue[h]), reach));
    assert(is_route(cells, from, to, route));
    if h > 0 {
        assert(reach.len() > 0);
    }
    assert(route[0] == start_step);
    assert forall|other: Seq<Direction>| #[trigger] is_route(cells, from, to, other) implies route.len()
        <= other.len() by {
        if other.len() <= reach.len() {
            lemma_found(cells, from, to, f, other, to);
            let j = choose|j: int| #[trigger]
                lists(f, j, to, other.len(), place(f.order, other[0]));
            assert(at(f.queue[j]) == to);
        }
    }
    assert(is_shortest_route(cells, from, to, route));
    assert forall|e: Direction| #[trigger] starts_shortest_route(cells, from, to, e) implies place(
        f.order,
        start_step,
    ) <= place(f.order, e) by {
        let other = choose|ds: Seq<Direction>|
            is_shortest_route(cells, from, to, ds) && ds.len() > 0 && ds[0] == e;
        assert(other.len() <= route.len());
        assert(route.len() <= other.len());
        let rest = other.drop_last();
        let w = walk_end(from, rest);
        assert(is_route(cells, from, w, rest));
        assert(passable(cells, w, other.last()));
        assert(neighbor(w, other.last()) == to);
        lemma_found(cells, from, to, f, rest, w);
        let i = choose|i: int| #[trigger] lists(f, i, w, rest.len(), place(f.order, rest[0]));
        if i < h {
            assert(listed(
                f,
                neighbor(at(f.queue[i]), other.last()),
                f.routes[i].len() + 1,
                lead_via(f, i, other.last()),
            ));
            let j = choose|j: int| #[trigger]
                lists(
                    f,
                    j,
                    neighbor(at(f.queue[i]), other.last()),
                    f.routes[i].len() + 1,
                    lead_via(f, i, other.last()),
                );
            assert(at(f.queue[j]) == to);
        } else {
            assert(f.routes[h].len() <= f.routes[i].len());
            assert(f.routes[i].len() == rest.len());
            if rest.len() == 0 {
                assert(i == 0) by {
                    if i > 0 {
                        assert(f.routes[i].len() > 0);
                    }
                }
                lemma_neighbor_injective(at(f.queue[h]), d, other.last());
                assert(other[0] == other.last());
            } else {
                assert(rest[0] == other[0]);
                assert(h > 0) by {
                    if h == 0 {
                        assert(f.routes[0].len() == 0);
                    }
                }
                assert(i > 0);
                assert(lead(f, i) <= place(f.order, rest[0]));
                if i == h {
                } else {
                    assert(lead(f, h) <= lead(f, i));
                }
            }
        }
    }
}

/// Once the neighbours of every cell that was found have been looked at,
/// the goal cannot be reached.
proof fn lemma_exhausted(cells: Map<(int, int), Cell>, from: (int, int), to: (int, int), f: Frontier)
    requires
        frontier_ok(cells, from, to, f),
        f.head == f.queue.len(),
    ensures
        !connected(cells, from, to),
{
    reveal(routed);
    assert forall|ds: Seq<Direction>| !is_route(cells, from, to, ds) by {
        if is_route(cells, from, to, ds) {
            lemma_found(cells, from, to, f, ds, to);
            let j = choose|j: int| #[trigger] lists(f, j, to, ds.len(), place(f.order, ds[0]));
            assert(at(f.queue[j]) == to);
        }
    }
}

/// The cell one step from `(x, y)` in direction `d`, if the step is known to
/// be possible.
pub fn open_neighbor(map: &MazeMap, x: i32, y: i32, d: Direction) -> (r: Option<(i32, i32)>)
    ensures
        match r {
            Some(q) => passable(map@, (x as int, y as int), d) && at(q) == neighbor(
                (x as int, y as int),
                d,
            ),
            None => !passable(map@, (x as int, y as int), d),
        },
{
    proof {
        map.lemma_domain();
    }
    let here = match map.get_cell(x, y) {
        Some(cell) => *cell,
        None => {
            return None;
        },
    };
    let (nx, ny) = match d {
        Direction::North => {
            if y == i32::MAX {
                assert(!in_range(neighbor((x as int, y as int), d)));
                return None;
            }
            (x, y + 1)
        },
        Direction::East => {
            if x == i32::MAX {
                assert(!in_range(neighbor((x as int, y as int), d)));
                return None;
            }
            (x + 1, y)
        },
        Direction::South => {
            if y == i32::MIN {
                assert(!in_range(neighbor((x as int, y as int), d)));
                return None;
            }
            (x, y - 1)
        },
        Direction::West => {
            if x == i32::MIN {
                assert(!in_range(neighbor((x as int, y as int), d)));
                return None;
            }
            (x - 1, y)
        },
    };
    let there = match map.get_cell(nx, ny) {
        Some(cell) => *cell,
        None => {
            return None;
        },
    };
    if merge_wall(here.walls.get(d), there.walls.get(d.turn_back())) == Wall::Open {
        Some((nx, ny))
    } else {
        None
    }
}

/// The first step of a shortest route from `from` to `to` through the
/// discovered maze, found breadth first. The neighbours of each cell are
/// looked at in the given order, so of the first steps of all shortest
/// routes the one that comes first in that order is returned. There is no
/// step to take where the two positions are the same or no route joins
/// them.
pub fn first_step(map: &MazeMap, from: (i32, i32), to: (i32, i32), order: &[Direction; 4]) -> (r:
    Option<Direction>)
    requires
        covers_all(order@),
    ensures
        match r {
            Some(d) => {
                &&& starts_shortest_route(map@, at(from), at(to), d)
                &&& forall|e: Direction| #[trigger]
                    starts_shortest_route(map@, at(from), at(to), e) ==> place(order@, d) <= place(
                        order@,
                        e,
                    )
            },
            None => from == to || !connected(map@, at(from), at(to)),
        },
{
    let ghost cells = map@;
    let ghost src = at(from);
    let ghost dst = at(to);
    if from.0 == to.0 && from.1 == to.1 {
        return None;
    }
    if !map.cell_exists(from.0, from.1) {
        proof {
            assert forall|ds: Seq<Direction>| !is_route(cells, src, dst, ds) by {
                lemma_route_needs_start(cells, src, dst, ds);
            }
        }
        return None;
    }
    let mut queue: Vec<(i32, i32)> = Vec::new();
    let mut first: Vec<Direction> = Vec::new();
    let mut seen = PositionSet::new();
    queue.push(from);
    first.push(order[0]);
    seen.insert(from.0, from.1);
    let ghost mut routes: Seq<Seq<Direction>> = seq![Seq::<Direction>::empty()];
    let ghost mut parent: Seq<int> = seq![0int];
    let mut head: usize = 0;
    proof {
        map.lemma_domain();
        assert(seen@ =~= set![src]);
        assert(queue@ =~= seq![from]);
        lemma_started(cells, from, dst, order@);
        assert(queued(queue@, src)) by {
            assert(at(queue@[0]) == src);
        }
    }
    while head < queue.len()
        invariant
            cells == map@,
            src == at(from),
            dst == at(to),
            cells.dom().finite(),
            frontier_ok(
                cells,
                src,
                dst,
                Frontier { queue: queue@, routes, parent, head: head as int, order: order@ },
            ),
            head == 0 ==> queue@.len() == 1,
            first@.len() == queue@.len(),
            forall|j: int| 0 < j < queue@.len() ==> #[trigger] first@[j] == routes[j][0],
            seen@.finite(),
            seen@.len() == queue@.len(),
            seen@.subset_of(cells.dom()),
            forall|j: int| 0 <= j < queue@.len() ==> seen@.contains(at(#[trigger] queue@[j])),
            forall|p: (int, int)| #[trigger] seen@.contains(p) ==> queued(queue@, p),
        decreases cells.dom().len() - head,
    {
        let (ux, uy) = queue[head];
        let ghost u = (ux as int, uy as int);
        proof {
            vstd::set_lib::lemma_len_subset(seen@, cells.dom());
            lemma_begin_cell(
                cells,
                Frontier { queue: queue@, routes, parent, head: head as int, order: order@ },
            );
        }
        let mut k: usize = 0;
        while k < 4
            invariant
                k <= 4,
                cells == map@,
                src == at(from),
                dst == at(to),
                head < queue@.len(),
                (ux, uy) == queue@[head as int],
                cells.dom().finite(),
                frontier_ok(
                    cells,
                    src,
                    dst,
                    Frontier { queue: queue@, routes, parent, head: head as int, order: order@ },
                ),
                looked_at(
                    cells,
                    Frontier { queue: queue@, routes, parent, head: head as int, order: order@ },
                    k as int,
                ),
                first@.len() == queue@.len(),
                forall|j: int| 0 < j < queue@.len() ==> #[trigger] first@[j] == routes[j][0],
                seen@.finite(),
                seen@.len() == queue@.len(),
                seen@.subset_of(cells.dom()),
                forall|j: int| 0 <= j < queue@.len() ==> seen@.contains(at(#[trigger] queue@[j])),
                forall|p: (int, int)| #[trigger] seen@.contains(p) ==> queued(queue@, p),
            decreases 4 - k,
        {
            let d = order[k];
            let ghost before = Frontier {
                queue: queue@,
                routes,
                parent,
                head: head as int,
                order: order@,
            };
            match open_neighbor(map, ux, uy, d) {
                Some((vx, vy)) => {
                    let ghost v = (vx as int, vy as int);
                    if !seen.contains(vx, vy) {
                        let start_step = if head == 0 {
                            d
                        } else {
                            first[head]
                        };
                        if vx == to.0 && vy == to.1 {
                            proof {
                                lemma_goal_found(cells, src, dst, before, d);
                            }
                            return Some(start_step);
                        }
                        queue.push((vx, vy));
                        first.push(start_step);
                        seen.insert(vx, vy);
                        proof {
                            routes = routes.push(before.routes[head as int].push(d));
                            parent = parent.push(head as int);
                            let after = Frontier {
                                queue: queue@,
                                routes,
                                parent,
                                head: head as int,
                                order: order@,
                            };
                            let n = before.queue.len() as int;
                            assert(grown(before, after, d));
                            lemma_grown_routed(cells, src, dst, before, after, d);
                            lemma_grown_rooted(cells, src, dst, before, after, k as int);
                            lemma_first_step_known(cells, src, dst, before);
                            lemma_grown_closed(cells, src, before, after, k as int);
                            assert forall|p: (int, int)| #[trigger] seen@.contains(p) implies queued(
                                queue@,
                                p,
                            ) by {
                                if p == v {
                                    assert(at(queue@[n]) == v);
                                } else {
                                    assert(queued(before.queue, p));
                                    let j = choose|j: int|
                                        0 <= j < before.queue.len() && at(#[trigger] before.queue[j])
                                            == p;
                                    assert(at(queue@[j]) == p);
                                }
                            }
                        }
                    } else {
                        proof {
                            assert(queued(queue@, v));
                            let j = choose|j: int|
                                0 <= j < queue@.len() && at(#[trigger] queue@[j]) == v;
                            lemma_seen_step(cells, src, dst, before, k as int, j);
                        }
                    }
                },
                None => {
                    proof {
                        lemma_blocked_step(cells, before, k as int);
                    }
                },
            }
            k += 1;
        }
        proof {
            lemma_next_cell(
                cells,
                src,
                dst,
                Frontier { queue: queue@, routes, parent, head: head as int, order: order@ },
                Frontier { queue: queue@, routes, parent, head: head + 1, order: order@ },
            );
        }
        head += 1;
    }
    proof {
        lemma_exhausted(
            cells,
            src,
            dst,
            Frontier { queue: queue@, routes, parent, head: head as int, order: order@ },
        );
    }
    None
}

/// The route to a cell other than the start has a first step.
proof fn lemma_first_step_known(cells: Map<(int, int), Cell>, from: (int, int), to: (int, int), f: Frontier)
    requires
        frontier_ok(cells, from, to, f),
        f.head < f.queue.len(),
    ensures
        f.head > 0 ==> f.routes[f.head].len() > 0,
{
    reveal(routed);
}

/// A route that starts on a cell the map does not hold has no step.
proof fn lemma_route_needs_start(
    cells: Map<(int, int), Cell>,
    from: (int, int),
    to: (int, int),
    ds: Seq<Direction>,
)
    requires
        !cells.contains_key(from),
        from != to,
    ensures
        !is_route(cells, from, to, ds),
    decreases ds.len(),
{
    if ds.len() > 0 && walkable(cells, from, ds) {
        lemma_walk_starts(cells, from, ds);
    }
}

/// The first step of a route leaves from its start.
pub proof fn lemma_walk_starts(cells: Map<(int, int), Cell>, from: (int, int), ds: Seq<Direction>)
    requires
        ds.len() > 0,
        walkable(cells, from, ds),
    ensures
        passable(cells, from, ds[0]),
    decreases ds.len(),
{
    if ds.len() == 1 {
        assert(ds.drop_last().len() == 0);
    } else {
        lemma_walk_starts(cells, from, ds.drop_last());
    }
}

} // verus!
