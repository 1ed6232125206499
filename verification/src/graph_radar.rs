//! A graph of cells: a node for each cell, and between two nodes the wall
//! that separates their cells.

use std::collections::HashMap;
use vstd::prelude::*;
use vstd::std_specs::hash::*;
use vstd::string::*;
use crate::radarview::{DecodedCell, Wall};

verus! {

broadcast use vstd::std_specs::hash::group_hash_axioms;

/// A node of the graph: a cell, and the wall towards each neighbour.
#[derive(Debug)]
pub struct Node {
    pub id: usize,
    pub cell: DecodedCell,
    pub neighbors: HashMap<usize, Wall>,
}

/// The mathematical value of a node.
pub struct NodeView {
    pub id: usize,
    pub cell: DecodedCell,
    pub neighbors: Map<usize, Wall>,
}

impl View for Node {
    type V = NodeView;

    open spec fn view(&self) -> NodeView {
        NodeView { id: self.id, cell: self.cell, neighbors: self.neighbors@ }
    }
}

/// The graph discovered so far.
#[derive(Debug)]
pub struct Graph {
    nodes: HashMap<usize, Node>,
    walls: HashMap<u128, Wall>,
}

/// The mathematical value of a graph: its nodes by their identifiers, and
/// the wall between each ordered pair of identifiers that was joined.
pub struct GraphView {
    pub nodes: Map<usize, NodeView>,
    pub walls: Map<(usize, usize), Wall>,
}

impl GraphView {
    /// The graph with a node for `cell` under `id`, unless it holds a node
    /// under `id` already.
    pub open spec fn with_node(self, id: usize, cell: DecodedCell) -> GraphView {
        if self.nodes.contains_key(id) {
            self
        } else {
            GraphView {
                nodes: self.nodes.insert(
                    id,
                    NodeView { id, cell, neighbors: Map::<usize, Wall>::empty() },
                ),
                ..self
            }
        }
    }

    /// The graph in which node `a`, if there is one, has `b` as a neighbour
    /// behind `wall`.
    pub open spec fn with_neighbor(self, a: usize, b: usize, wall: Wall) -> GraphView {
        if self.nodes.contains_key(a) {
            GraphView {
                nodes: self.nodes.insert(
                    a,
                    NodeView { neighbors: self.nodes[a].neighbors.insert(b, wall), ..self.nodes[a] },
                ),
                ..self
            }
        } else {
            self
        }
    }

    /// The graph in which `from` and `to` are joined by `wall`, in both
    /// directions. The wall is recorded whether or not the nodes exist; the
    /// nodes that exist learn of their new neighbour.
    pub open spec fn with_edge(self, from: usize, to: usize, wall: Wall) -> GraphView {
        (GraphView {
            walls: self.walls.insert((from, to), wall).insert((to, from), wall),
            ..self
        }).with_neighbor(from, to, wall).with_neighbor(to, from, wall)
    }
}

/// The key under which the wall between two nodes is stored.
closed spec fn edge_key(e: (usize, usize)) -> u128 {
    (e.0 * 0x1_0000_0000_0000_0000 + e.1) as u128
}

proof fn lemma_edge_keys(e: (usize, usize), f: (usize, usize))
    ensures
        edge_key(e) == edge_key(f) ==> e == f,
        edge_key(e) == e.0 * 0x1_0000_0000_0000_0000 + e.1,
{
}

fn pack_edge(from: usize, to: usize) -> (key: u128)
    ensures
        key == edge_key((from, to)),
{
    from as u128 * 0x1_0000_0000_0000_0000 + to as u128
}

impl View for Graph {
    type V = GraphView;

    closed spec fn view(&self) -> GraphView {
        GraphView {
            nodes: Map::new(|id: usize| self.nodes@.contains_key(id), |id: usize| self.nodes@[id]@),
            walls: Map::new(
                |e: (usize, usize)| self.walls@.contains_key(edge_key(e)),
                |e: (usize, usize)| self.walls@[edge_key(e)],
            ),
        }
    }
}

impl Graph {
    /// An empty graph.
    pub fn new() -> (r: Self)
        ensures
            r@.nodes == Map::<usize, NodeView>::empty(),
            r@.walls == Map::<(usize, usize), Wall>::empty(),
    {
        let r = Graph { nodes: HashMap::new(), walls: HashMap::new() };
        assert(r@.nodes =~= Map::<usize, NodeView>::empty());
        assert(r@.walls =~= Map::<(usize, usize), Wall>::empty());
        r
    }

    /// Adds a node for `cell` under `id`, unless there is one already.
    pub fn add_node(&mut self, id: usize, cell: DecodedCell)
        ensures
            final(self)@ == old(self)@.with_node(id, cell),
    {
        if !self.nodes.contains_key(&id) {
            self.nodes.insert(id, Node { id, cell, neighbors: HashMap::new() });
            assert(final(self)@.nodes =~= old(self)@.with_node(id, cell).nodes);
            assert(final(self)@.walls =~= old(self)@.walls);
        }
    }

    fn connect(&mut self, a: usize, b: usize, wall: Wall)
        ensures
            final(self)@ == old(self)@.with_neighbor(a, b, wall),
    {
        match self.nodes.remove(&a) {
            Some(node) => {
                let mut node = node;
                node.neighbors.insert(b, wall);
                self.nodes.insert(a, node);
                assert(final(self)@.nodes =~= old(self)@.with_neighbor(a, b, wall).nodes);
                assert(final(self)@.walls =~= old(self)@.walls);
            },
            None => {
                assert(final(self)@.nodes =~= old(self)@.nodes);
                assert(final(self)@.walls =~= old(self)@.walls);
            },
        }
    }

    /// Joins `from` and `to` by `wall`, in both directions.
    pub fn add_edge(&mut self, from: usize, to: usize, wall: Wall)
        ensures
            final(self)@ == old(self)@.with_edge(from, to, wall),
    {
        self.walls.insert(pack_edge(from, to), wall);
        self.walls.insert(pack_edge(to, from), wall);
        proof {
            assert forall|e: (usize, usize)| e != (from, to) implies #[trigger] edge_key(e)
                != edge_key((from, to)) by {
                lemma_edge_keys(e, (from, to));
            }
            assert forall|e: (usize, usize)| e != (to, from) implies #[trigger] edge_key(e)
                != edge_key((to, from)) by {
                lemma_edge_keys(e, (to, from));
            }
            assert(self@.walls =~= old(self)@.walls.insert((from, to), wall).insert(
                (to, from),
                wall,
            ));
            assert(self@.nodes =~= old(self)@.nodes);
        }
        self.connect(from, to, wall);
        self.connect(to, from, wall);
    }

    /// The node under `id`, if there is one.
    pub fn node(&self, id: usize) -> (r: Option<&Node>)
        ensures
            match r {
                Some(node) => self@.nodes.contains_key(id) && self@.nodes[id] == node@,
                None => !self@.nodes.contains_key(id),
            },
    {
        self.nodes.get(&id)
    }

    /// The wall recorded from `from` to `to`, if the two were joined.
    pub fn wall(&self, from: usize, to: usize) -> (r: Option<Wall>)
        ensures
            match r {
                Some(wall) => self@.walls.contains_key((from, to)) && self@.walls[(from, to)]
                    == wall,
                None => !self@.walls.contains_key((from, to)),
            },
    {
        let key = pack_edge(from, to);
        match self.walls.get(&key) {
            Some(wall) => Some(*wall),
            None => None,
        }
    }

    /// A drawing of the graph; so far only a note that there is none.
    pub fn visualize_ascii(&self) -> (r: String)
        ensures
            r@ == "ASCII visualization not fully implemented"@,
    {
        String::from_str("ASCII visualization not fully implemented")
    }
}

/// The graph with a node for each of the first `n` cells, numbered as the
/// cells are.
pub open spec fn nodes_added(cells: Seq<DecodedCell>, n: nat) -> GraphView
    decreases n,
{
    if n == 0 {
        GraphView {
            nodes: Map::<usize, NodeView>::empty(),
            walls: Map::<(usize, usize), Wall>::empty(),
        }
    } else {
        nodes_added(cells, (n - 1) as nat).with_node((n - 1) as usize, cells[n - 1])
    }
}

/// The graph `g` in which the first `n` pairs of cells that lie side by
/// side in a snapshot are joined by the vertical wall between them. Pair
/// `k` is the cell in row `k / 2` and column `k % 2` and its right-hand
/// neighbour.
pub open spec fn sides_joined(g: GraphView, verticals: Seq<Wall>, n: nat) -> GraphView
    decreases n,
{
    if n == 0 {
        g
    } else {
        let k = (n - 1) as int;
        let left = 3 * (k / 2) + k % 2;
        sides_joined(g, verticals, (n - 1) as nat).with_edge(
            left as usize,
            (left + 1) as usize,
            verticals[4 * (k / 2) + k % 2 + 1],
        )
    }
}

/// The graph `g` in which the first `n` pairs of cells that lie one behind
/// the other in a snapshot are joined by the horizontal wall between them.
/// Pair `k` is cell `k` and the cell behind it.
pub open spec fn rows_joined(g: GraphView, horizontals: Seq<Wall>, n: nat) -> GraphView
    decreases n,
{
    if n == 0 {
        g
    } else {
        let k = (n - 1) as int;
        rows_joined(g, horizontals, (n - 1) as nat).with_edge(
            k as usize,
            (k + 3) as usize,
            horizontals[k + 3],
        )
    }
}

/// The graph of a snapshot: a node for each of the nine cells, and every two
/// cells that touch joined by the wall between them.
pub open spec fn snapshot_graph(
    horizontals: Seq<Wall>,
    verticals: Seq<Wall>,
    cells: Seq<DecodedCell>,
) -> GraphView {
    rows_joined(sides_joined(nodes_added(cells, 9), verticals, 6), horizontals, 6)
}

/// The wall between cells `a` and `b` of a snapshot, if the two touch: the
/// vertical wall between two cells side by side, the horizontal wall
/// between two cells one behind the other.
pub open spec fn wall_between(horizontals: Seq<Wall>, verticals: Seq<Wall>, a: int, b: int) -> Option<
    Wall,
> {
    edge_upto(horizontals, verticals, a, b, 6, 6)
}

/// The wall between cells `a` and `b`, if they are one of the first `sides`
/// pairs of cells side by side or one of the first `rows` pairs of cells
/// one behind the other.
pub open spec fn edge_upto(
    horizontals: Seq<Wall>,
    verticals: Seq<Wall>,
    a: int,
    b: int,
    sides: int,
    rows: int,
) -> Option<Wall> {
    let low = if a <= b {
        a
    } else {
        b
    };
    let high = if a <= b {
        b
    } else {
        a
    };
    if 0 <= low && high < 9 && high == low + 1 && low % 3 < 2 && 2 * (low / 3) + low % 3 < sides {
        Some(verticals[low + low / 3 + 1])
    } else if 0 <= low && high < 9 && high == low + 3 && low < rows {
        Some(horizontals[high])
    } else {
        None
    }
}

/// Whether `g` has the nine cells as nodes and exactly the edges among the
/// first `sides` and `rows` pairs of touching cells.
spec fn joined_as(
    g: GraphView,
    horizontals: Seq<Wall>,
    verticals: Seq<Wall>,
    cells: Seq<DecodedCell>,
    sides: int,
    rows: int,
) -> bool {
    &&& forall|e: (usize, usize)|
        #![trigger g.walls.contains_key(e)]
        #![trigger g.walls[e]]
        {
            &&& g.walls.contains_key(e) <==> edge_upto(
                horizontals,
                verticals,
                e.0 as int,
                e.1 as int,
                sides,
                rows,
            ) is Some
            &&& g.walls.contains_key(e) ==> g.walls[e] == edge_upto(
                horizontals,
                verticals,
                e.0 as int,
                e.1 as int,
                sides,
                rows,
            )->0
        }
    &&& forall|i: usize| #[trigger] g.nodes.contains_key(i) <==> i < 9
    &&& forall|i: usize|
        i < 9 ==> (#[trigger] g.nodes[i]).id == i && g.nodes[i].cell == cells[i as int]
    &&& forall|i: usize, j: usize|
        #![trigger g.nodes[i].neighbors.contains_key(j)]
        #![trigger g.nodes[i].neighbors[j]]
        i < 9 ==> {
            &&& g.nodes[i].neighbors.contains_key(j) <==> edge_upto(
                horizontals,
                verticals,
                i as int,
                j as int,
                sides,
                rows,
            ) is Some
            &&& g.nodes[i].neighbors.contains_key(j) ==> g.nodes[i].neighbors[j] == edge_upto(
                horizontals,
                verticals,
                i as int,
                j as int,
                sides,
                rows,
            )->0
        }
}

proof fn lemma_nodes_added(cells: Seq<DecodedCell>, n: nat)
    requires
        n <= 9,
    ensures
        nodes_added(cells, n).walls == Map::<(usize, usize), Wall>::empty(),
        forall|i: usize| #[trigger] nodes_added(cells, n).nodes.contains_key(i) <==> i < n,
        forall|i: usize|
            i < n ==> {
                &&& (#[trigger] nodes_added(cells, n).nodes[i]).id == i
                &&& nodes_added(cells, n).nodes[i].cell == cells[i as int]
                &&& nodes_added(cells, n).nodes[i].neighbors == Map::<usize, Wall>::empty()
            },
    decreases n,
{
    if n > 0 {
        lemma_nodes_added(cells, (n - 1) as nat);
    }
}

proof fn lemma_edge_joined(
    g: GraphView,
    horizontals: Seq<Wall>,
    verticals: Seq<Wall>,
    cells: Seq<DecodedCell>,
    sides: int,
    rows: int,
    side: bool,
)
    requires
        joined_as(g, horizontals, verticals, cells, sides, rows),
        side ==> 0 <= sides < 6 && rows == 0,
        !side ==> sides == 6 && 0 <= rows < 6,
    ensures
        side ==> joined_as(
            g.with_edge(
                (3 * (sides / 2) + sides % 2) as usize,
                (3 * (sides / 2) + sides % 2 + 1) as usize,
                verticals[4 * (sides / 2) + sides % 2 + 1],
            ),
            horizontals,
            verticals,
            cells,
            sides + 1,
            rows,
        ),
        !side ==> joined_as(
            g.with_edge(rows as usize, (rows + 3) as usize, horizontals[rows + 3]),
            horizontals,
            verticals,
            cells,
            sides,
            rows + 1,
        ),
{
    let a = if side {
        (3 * (sides / 2) + sides % 2) as usize
    } else {
        rows as usize
    };
    let b = if side {
        (a + 1) as usize
    } else {
        (a + 3) as usize
    };
    let wall = if side {
        verticals[4 * (sides / 2) + sides % 2 + 1]
    } else {
        horizontals[rows + 3]
    };
    let ns = if side {
        sides + 1
    } else {
        sides
    };
    let nr = if side {
        rows
    } else {
        rows + 1
    };
    let after = g.with_edge(a, b, wall);
    assert(g.nodes.contains_key(a) && g.nodes.contains_key(b));
    let mid = (GraphView {
        walls: g.walls.insert((a, b), wall).insert((b, a), wall),
        ..g
    }).with_neighbor(a, b, wall);
    assert(after == mid.with_neighbor(b, a, wall));
    assert(edge_upto(horizontals, verticals, a as int, b as int, ns, nr) == Some(wall));
    assert(edge_upto(horizontals, verticals, b as int, a as int, ns, nr) == Some(wall));
    assert forall|e: (usize, usize)|
        #![trigger after.walls.contains_key(e)]
        #![trigger after.walls[e]]
        {
            &&& after.walls.contains_key(e) <==> edge_upto(
                horizontals,
                verticals,
                e.0 as int,
                e.1 as int,
                ns,
                nr,
            ) is Some
            &&& after.walls.contains_key(e) ==> after.walls[e] == edge_upto(
                horizontals,
                verticals,
                e.0 as int,
                e.1 as int,
                ns,
                nr,
            )->0
        } by {
        if e != (a, b) && e != (b, a) {
            assert(after.walls.contains_key(e) == g.walls.contains_key(e));
            assert(edge_upto(horizontals, verticals, e.0 as int, e.1 as int, ns, nr) == edge_upto(
                horizontals,
                verticals,
                e.0 as int,
                e.1 as int,
                sides,
                rows,
            ));
        }
    }
    assert forall|i: usize| #[trigger] after.nodes.contains_key(i) <==> i < 9 by {
        assert(g.nodes.contains_key(i) <==> i < 9);
    }
    assert forall|i: usize| i < 9 implies (#[trigger] after.nodes[i]).id == i && after.nodes[i].cell
        == cells[i as int] by {
        assert(g.nodes[i].id == i);
    }
    assert forall|i: usize, j: usize|
        #![trigger after.nodes[i].neighbors.contains_key(j)]
        #![trigger after.nodes[i].neighbors[j]]
        i < 9 implies {
            &&& after.nodes[i].neighbors.contains_key(j) <==> edge_upto(
                horizontals,
                verticals,
                i as int,
                j as int,
                ns,
                nr,
            ) is Some
            &&& after.nodes[i].neighbors.contains_key(j) ==> after.nodes[i].neighbors[j]
                == edge_upto(horizontals, verticals, i as int, j as int, ns, nr)->0
        } by {
        if (i, j) != (a, b) && (i, j) != (b, a) {
            assert(after.nodes[i].neighbors.contains_key(j) == g.nodes[i].neighbors.contains_key(
                j,
            ));
            assert(g.nodes[i].neighbors.contains_key(j) ==> after.nodes[i].neighbors[j]
                == g.nodes[i].neighbors[j]);
            assert(edge_upto(horizontals, verticals, i as int, j as int, ns, nr) == edge_upto(
                horizontals,
                verticals,
                i as int,
                j as int,
                sides,
                rows,
            ));
        }
    }
}

proof fn lemma_sides_joined(
    horizontals: Seq<Wall>,
    verticals: Seq<Wall>,
    cells: Seq<DecodedCell>,
    n: nat,
)
    requires
        n <= 6,
    ensures
        joined_as(
            sides_joined(nodes_added(cells, 9), verticals, n),
            horizontals,
            verticals,
            cells,
            n as int,
            0,
        ),
    decreases n,
{
    if n == 0 {
        lemma_nodes_added(cells, 9);
    } else {
        lemma_sides_joined(horizontals, verticals, cells, (n - 1) as nat);
        lemma_edge_joined(
            sides_joined(nodes_added(cells, 9), verticals, (n - 1) as nat),
            horizontals,
            verticals,
            cells,
            n - 1,
            0,
            true,
        );
    }
}

proof fn lemma_rows_joined(
    horizontals: Seq<Wall>,
    verticals: Seq<Wall>,
    cells: Seq<DecodedCell>,
    n: nat,
)
    requires
        n <= 6,
    ensures
        joined_as(
            rows_joined(sides_joined(nodes_added(cells, 9), verticals, 6), horizontals, n),
            horizontals,
            verticals,
            cells,
            6,
            n as int,
        ),
    decreases n,
{
    if n == 0 {
        lemma_sides_joined(horizontals, verticals, cells, 6);
    } else {
        lemma_rows_joined(horizontals, verticals, cells, (n - 1) as nat);
        lemma_edge_joined(
            rows_joined(
                sides_joined(nodes_added(cells, 9), verticals, 6),
                horizontals,
                (n - 1) as nat,
            ),
            horizontals,
            verticals,
            cells,
            6,
            n - 1,
            false,
        );
    }
}

/// The graph of a snapshot has the nine cells as its nodes, and joins two
/// of them exactly where they touch, by the wall between them; each node
/// knows the same of its neighbours.
pub proof fn lemma_snapshot_graph(
    horizontals: Seq<Wall>,
    verticals: Seq<Wall>,
    cells: Seq<DecodedCell>,
)
    ensures
        ({
            let g = snapshot_graph(horizontals, verticals, cells);
            &&& forall|i: usize| #[trigger] g.nodes.contains_key(i) <==> i < 9
            &&& forall|i: usize|
                i < 9 ==> (#[trigger] g.nodes[i]).id == i && g.nodes[i].cell == cells[i as int]
            &&& forall|a: usize, b: usize|
                #![trigger g.walls.contains_key((a, b))]
                {
                    &&& g.walls.contains_key((a, b)) <==> wall_between(
                        horizontals,
                        verticals,
                        a as int,
                        b as int,
                    ) is Some
                    &&& g.walls.contains_key((a, b)) ==> Some(g.walls[(a, b)]) == wall_between(
                        horizontals,
                        verticals,
                        a as int,
                        b as int,
                    )
                }
            &&& forall|a: usize, b: usize|
                #![trigger g.nodes[a].neighbors.contains_key(b)]
                a < 9 ==> {
                    &&& g.nodes[a].neighbors.contains_key(b) <==> wall_between(
                        horizontals,
                        verticals,
                        a as int,
                        b as int,
                    ) is Some
                    &&& g.nodes[a].neighbors.contains_key(b) ==> Some(g.nodes[a].neighbors[b])
                        == wall_between(horizontals, verticals, a as int, b as int)
                }
        }),
{
    lemma_rows_joined(horizontals, verticals, cells, 6);
}

/// Builds the graph of a snapshot from its walls and cells.
pub fn build_graph(horizontals: &[Wall], verticals: &[Wall], cells: &[DecodedCell]) -> (r: Graph)
    requires
        horizontals@.len() == 12,
        verticals@.len() == 12,
        cells@.len() == 9,
    ensures
        r@ == snapshot_graph(horizontals@, verticals@, cells@),
{
    let mut graph = Graph::new();
    assert(graph@ =~= nodes_added(cells@, 0)) by {
        assert(graph@.nodes =~= nodes_added(cells@, 0).nodes);
        assert(graph@.walls =~= nodes_added(cells@, 0).walls);
    }
    let mut i: usize = 0;
    while i < 9
        invariant
            i <= 9,
            cells@.len() == 9,
            graph@ == nodes_added(cells@, i as nat),
        decreases 9 - i,
    {
        graph.add_node(i, cells[i]);
        i += 1;
    }
    let ghost with_nodes = graph@;
    let mut k: usize = 0;
    while k < 6
        invariant
            k <= 6,
            verticals@.len() == 12,
            graph@ == sides_joined(with_nodes, verticals@, k as nat),
        decreases 6 - k,
    {
        let row = k / 2;
        let col = k % 2;
        let left = 3 * row + col;
        graph.add_edge(left, left + 1, verticals[4 * row + col + 1]);
        k += 1;
    }
    let ghost with_sides = graph@;
    let mut k: usize = 0;
    while k < 6
        invariant
            k <= 6,
            horizontals@.len() == 12,
            graph@ == rows_joined(with_sides, horizontals@, k as nat),
        decreases 6 - k,
    {
        graph.add_edge(k, k + 3, horizontals[k + 3]);
        k += 1;
    }
    graph
}

} // verus!
