use vstd::prelude::*;
use crate::edge::{Edge, EdgeIndex, EdgeUpdateStatus};
use crate::edge_update_list::EdgeUpdateList;
use crate::lattice::{
    all_edges, cell_edges, crack_triangles, edge_count, edge_exists, edge_origin, edge_target,
    lattice_edges, lemma_all_edges, lemma_edge_of_slot, lemma_lattice_edges_exist,
    lemma_slots_of_edge, node_slot, origin_slot, receivers, row_edges, side_complete,
    side_triangle, target_slot,
};
use crate::matrix::{EdgeMatrix, NodeMatrix};
use crate::model::{
    lemma_propagate_step, lemma_schedule, lemma_schedule_exact, EdgeState, LatticeState,
};
use crate::node::{node_consistent, slot_consistent, Node, NodeIndex};

verus! {

/// Whether `p` is what the edge arena of a lattice of `rows` x `cols` nodes
/// should hold at `i`: the edge with that address and its two endpoints where
/// the lattice carries one, nothing where it does not.
spec fn place_wf(rows: nat, cols: nat, i: EdgeIndex, p: Option<Edge>) -> bool {
    match p {
        Some(e) => {
            &&& edge_exists(rows, cols, i)
            &&& e.index == i
            &&& e.nodes@ == seq![edge_origin(i), edge_target(i)]
        },
        None => !edge_exists(rows, cols, i),
    }
}

/// Whether `edges` is the edge arena of a lattice of `rows` x `cols` nodes.
spec fn edges_wf(edges: &EdgeMatrix, rows: nat, cols: nat) -> bool {
    &&& edges@.len() == rows
    &&& forall|r: int| 0 <= r < rows ==> (#[trigger] edges@[r]).len() == cols
    &&& forall|i: EdgeIndex|
        i.row < rows && i.col < cols && i.ty < 3 ==> place_wf(rows, cols, i, #[trigger] edges.spec_get(i))
}

/// Whether `nodes` has `rows` x `cols` nodes, each with its own address.
spec fn nodes_placed(nodes: Seq<Seq<Node>>, rows: nat, cols: nat) -> bool {
    &&& nodes.len() == rows
    &&& forall|r: int| 0 <= r < rows ==> (#[trigger] nodes[r]).len() == cols
    &&& forall|r: int, c: int|
        0 <= r < rows && 0 <= c < cols ==> (#[trigger] nodes[r][c]).index == (NodeIndex {
            row: r as usize,
            col: c as usize,
        })
}

/// What slot `k` of node `n` holds once the edges of the rows before `y` and,
/// in row `y`, of the columns before `x` are on record.
spec fn slot_so_far(rows: nat, cols: nat, n: NodeIndex, k: int, y: nat, x: nat) -> Option<
    EdgeIndex,
> {
    match node_slot(rows, cols, n, k) {
        Some(e) => if e.row < y || (e.row == y && e.col < x) {
            Some(e)
        } else {
            None
        },
        None => None,
    }
}

/// Whether the slots of `nodes` hold the edges of the rows before `y` and, in
/// row `y`, of the columns before `x`, and no others.
spec fn nodes_wired_so_far(nodes: Seq<Seq<Node>>, rows: nat, cols: nat, y: nat, x: nat) -> bool {
    forall|r: int, c: int, k: int|
        0 <= r < rows && 0 <= c < cols && 0 <= k < 6 ==> #[trigger] nodes[r][c].edges[k] == slot_so_far(
            rows,
            cols,
            NodeIndex { row: r as usize, col: c as usize },
            k,
            y,
            x,
        )
}

/// Whether `nodes` is the node arena of a lattice of `rows` x `cols` nodes:
/// every node stands at its address and names, slot by slot, the edges that
/// meet it.
spec fn nodes_wf(nodes: &NodeMatrix, rows: nat, cols: nat) -> bool {
    &&& nodes_placed(nodes@, rows, cols)
    &&& forall|r: int, c: int, k: int|
        0 <= r < rows && 0 <= c < cols && 0 <= k < 6 ==> #[trigger] nodes@[r][c].edges[k] == node_slot(
            rows,
            cols,
            NodeIndex { row: r as usize, col: c as usize },
            k,
        )
}

/// A grid of `rows` x `cols` nodes that no edge meets yet.
fn blank_nodes(rows: usize, cols: usize) -> (nodes: NodeMatrix)
    ensures
        nodes_placed(nodes@, rows as nat, cols as nat),
        nodes_wired_so_far(nodes@, rows as nat, cols as nat, 0, 0),
{
    let mut out = NodeMatrix { v: Vec::with_capacity(rows) };
    let mut r: usize = 0;
    while r < rows
        invariant
            r <= rows,
            out@.len() == r,
            forall|i: int| 0 <= i < r ==> (#[trigger] out@[i]).len() == cols,
            forall|i: int, j: int|
                0 <= i < r && 0 <= j < cols ==> (#[trigger] out@[i][j]).index == (NodeIndex {
                    row: i as usize,
                    col: j as usize,
                }),
            forall|i: int, j: int, k: int|
                0 <= i < r && 0 <= j < cols && 0 <= k < 6 ==> #[trigger] out@[i][j].edges[k] is None,
        decreases rows - r,
    {
        let mut cur: Vec<Node> = Vec::with_capacity(cols);
        let mut c: usize = 0;
        while c < cols
            invariant
                c <= cols,
                cur@.len() == c,
                forall|j: int|
                    0 <= j < c ==> (#[trigger] cur@[j]).index == (NodeIndex { row: r, col: j as usize }),
                forall|j: int, k: int| 0 <= j < c && 0 <= k < 6 ==> #[trigger] cur@[j].edges[k] is None,
            decreases cols - c,
        {
            let ghost built = cur@;
            let fresh = Node::new(r, c);
            cur.push(fresh);
            assert forall|j: int, k: int| 0 <= j < c + 1 && 0 <= k < 6 implies #[trigger] cur@[j].edges[k] is None by {
                if j < c {
                    assert(cur@[j] == built[j]);
                    assert(built[j].edges[k] is None);
                } else {
                    assert(cur@[j] == fresh);
                    assert(fresh.edges[k] is None);
                }
            }
            c = c + 1;
        }
        let ghost before = out@;
        out.v.push(cur);
        assert(out@ =~~= before.push(cur@));
        assert forall|i: int, j: int, k: int| 0 <= i < r + 1 && 0 <= j < cols && 0 <= k < 6 implies #[trigger] out@[i][j].edges[k] is None by {
            if i < r {
                assert(out@[i] == before[i]);
                assert(before[i][j].edges[k] is None);
            } else {
                assert(out@[i] == cur@);
                assert(cur@[j].edges[k] is None);
            }
        }
        r = r + 1;
    }
    out
}

/// Whether `p` is what construction puts at `i`: the place is as the lattice
/// demands, and an edge there is intact and waits for the commit phase.
spec fn place_fresh(rows: nat, cols: nat, i: EdgeIndex, p: Option<Edge>) -> bool {
    &&& place_wf(rows, cols, i, p)
    &&& p matches Some(e) ==> !e.cracked && e.update_status == EdgeUpdateStatus::StressUpdate
}

/// Creates the edge at `i`, records it at both of its endpoints, marks it as
/// waiting for the commit phase and queues it.
fn place_edge(rows: usize, cols: usize, i: EdgeIndex, nodes: &mut NodeMatrix, queue: &mut EdgeUpdateList) -> (e:
    Edge)
    requires
        edge_exists(rows as nat, cols as nat, i),
        nodes_placed(old(nodes)@, rows as nat, cols as nat),
    ensures
        place_fresh(rows as nat, cols as nat, i, Some(e)),
        final(queue)@ == old(queue)@.push(i),
        nodes_placed(final(nodes)@, rows as nat, cols as nat),
        forall|r: int, c: int, k: int|
            0 <= r < rows && 0 <= c < cols && 0 <= k < 6 ==> #[trigger] final(nodes)@[r][c].edges[k] == (if node_slot(
                rows as nat,
                cols as nat,
                NodeIndex { row: r as usize, col: c as usize },
                k,
            ) == Some(i) {
                Some(i)
            } else {
                old(nodes)@[r][c].edges[k]
            }),
{
    let n1 = NodeIndex { row: i.row, col: i.col };
    let n2;
    let s1: usize;
    let s2: usize;
    if i.ty == 0 {
        n2 = NodeIndex { row: i.row, col: i.col + 1 };
        s1 = 0;
        s2 = 3;
    } else if i.ty == 1 {
        n2 = if i.row % 2 == 0 {
            NodeIndex { row: i.row + 1, col: i.col - 1 }
        } else {
            NodeIndex { row: i.row + 1, col: i.col }
        };
        s1 = 4;
        s2 = 1;
    } else {
        n2 = if i.row % 2 == 0 {
            NodeIndex { row: i.row + 1, col: i.col }
        } else {
            NodeIndex { row: i.row + 1, col: i.col + 1 }
        };
        s1 = 5;
        s2 = 2;
    }
    assert(n1 == edge_origin(i) && n2 == edge_target(i));
    assert(s1 == origin_slot(i.ty) && s2 == target_slot(i.ty));
    let mut e = Edge::new(n1, s1, n2, s2, i.row, i.col, i.ty, nodes);
    e.set_scheduled_for_stress_update();
    queue.push(e.index);
    e
}

/// Builds the three places of cell `(y, x)`: each edge that the lattice
/// carries there is created, recorded at its endpoints and queued.
fn build_cell(rows: usize, cols: usize, y: usize, x: usize, nodes: &mut NodeMatrix, queue: &mut EdgeUpdateList) -> (cell:
    [Option<Edge>; 3])
    requires
        y < rows,
        x < cols,
        nodes_placed(old(nodes)@, rows as nat, cols as nat),
    ensures
        forall|t: int|
            0 <= t < 3 ==> place_fresh(
                rows as nat,
                cols as nat,
                EdgeIndex { row: y, col: x, ty: t as usize },
                #[trigger] cell[t],
            ),
        final(queue)@ == old(queue)@ + cell_edges(rows as nat, cols as nat, y as nat, x as nat),
        nodes_placed(final(nodes)@, rows as nat, cols as nat),
        forall|r: int, c: int, k: int|
            0 <= r < rows && 0 <= c < cols && 0 <= k < 6 ==> #[trigger] final(nodes)@[r][c].edges[k] == (match node_slot(
                rows as nat,
                cols as nat,
                NodeIndex { row: r as usize, col: c as usize },
                k,
            ) {
                Some(e) => if e.row == y && e.col == x {
                    Some(e)
                } else {
                    old(nodes)@[r][c].edges[k]
                },
                None => old(nodes)@[r][c].edges[k],
            }),
{
    let lower = y + 1 < rows;
    let horizontal = if x + 1 < cols {
        Some(place_edge(rows, cols, EdgeIndex { row: y, col: x, ty: 0 }, nodes, queue))
    } else {
        None
    };
    let slash = if lower && (y % 2 == 1 || x > 0) {
        Some(place_edge(rows, cols, EdgeIndex { row: y, col: x, ty: 1 }, nodes, queue))
    } else {
        None
    };
    let backslash = if lower && (y % 2 == 0 || x + 1 < cols) {
        Some(place_edge(rows, cols, EdgeIndex { row: y, col: x, ty: 2 }, nodes, queue))
    } else {
        None
    };
    assert(queue@ =~= old(queue)@ + cell_edges(rows as nat, cols as nat, y as nat, x as nat));
    [horizontal, slash, backslash]
}

/// Builds row `y` of the edge arena, cell by cell.
fn build_row(rows: usize, cols: usize, y: usize, nodes: &mut NodeMatrix, queue: &mut EdgeUpdateList) -> (row:
    Vec<[Option<Edge>; 3]>)
    requires
        y < rows,
        nodes_placed(old(nodes)@, rows as nat, cols as nat),
        nodes_wired_so_far(old(nodes)@, rows as nat, cols as nat, y as nat, 0),
    ensures
        row@.len() == cols,
        forall|c: int, t: int|
            0 <= c < cols && 0 <= t < 3 ==> place_fresh(
                rows as nat,
                cols as nat,
                EdgeIndex { row: y, col: c as usize, ty: t as usize },
                #[trigger] row@[c][t],
            ),
        final(queue)@ == old(queue)@ + row_edges(rows as nat, cols as nat, y as nat, cols as nat),
        nodes_placed(final(nodes)@, rows as nat, cols as nat),
        nodes_wired_so_far(final(nodes)@, rows as nat, cols as nat, (y + 1) as nat, 0),
{
    let mut row: Vec<[Option<Edge>; 3]> = Vec::with_capacity(cols);
    let mut x: usize = 0;
    while x < cols
        invariant
            y < rows,
            x <= cols,
            row@.len() == x,
            forall|c: int, t: int|
                0 <= c < x && 0 <= t < 3 ==> place_fresh(
                    rows as nat,
                    cols as nat,
                    EdgeIndex { row: y, col: c as usize, ty: t as usize },
                    #[trigger] row@[c][t],
                ),
            queue@ == old(queue)@ + row_edges(rows as nat, cols as nat, y as nat, x as nat),
            nodes_placed(nodes@, rows as nat, cols as nat),
            nodes_wired_so_far(nodes@, rows as nat, cols as nat, y as nat, x as nat),
        decreases cols - x,
    {
        let ghost queued = queue@;
        let cell = build_cell(rows, cols, y, x, nodes, queue);
        row.push(cell);
        assert(queue@ =~= old(queue)@ + row_edges(rows as nat, cols as nat, y as nat, (x + 1) as nat));
        x = x + 1;
    }
    row
}

/// The one failure of the engine: the address names no edge of the lattice.
#[derive(Copy, Clone, PartialEq, Eq, Structural, Debug)]
pub struct NotFound;

/// The lattice, its arenas and its work queue.
///
/// Rows are staggered: seen from above the nodes stand like bricks,
///
/// ```text
/// * * * *
///  * * * *
/// * * * *
/// ```
///
/// so that the horizontal edges and the two diagonals tile the plane with
/// triangles.
pub struct Graph {
    rows: usize,
    cols: usize,
    node_matrix: NodeMatrix,
    edge_matrix: EdgeMatrix,
    update_edge_list: EdgeUpdateList,
}

impl View for Graph {
    type V = LatticeState;

    closed spec fn view(&self) -> LatticeState {
        LatticeState {
            rows: self.rows as nat,
            cols: self.cols as nat,
            edges: Map::new(
                |i: EdgeIndex| edge_exists(self.rows as nat, self.cols as nat, i),
                |i: EdgeIndex|
                    EdgeState {
                        cracked: self.edge_matrix.spec_get(i)->0.cracked,
                        status: self.edge_matrix.spec_get(i)->0.update_status,
                    },
            ),
            queue: self.update_edge_list@,
        }
    }
}

impl Graph {
    /// The node arena.
    pub closed spec fn nodes(&self) -> NodeMatrix {
        self.node_matrix
    }

    /// The edge arena.
    pub closed spec fn edges(&self) -> EdgeMatrix {
        self.edge_matrix
    }

    /// The arenas are those of a lattice of the graph's size, and the queue
    /// names only edges of that lattice.
    pub closed spec fn wf(&self) -> bool {
        &&& edge_count(self.rows as nat, self.cols as nat) <= usize::MAX
        &&& nodes_wf(&self.node_matrix, self.rows as nat, self.cols as nat)
        &&& edges_wf(&self.edge_matrix, self.rows as nat, self.cols as nat)
        &&& forall|k: int|
            0 <= k < self.update_edge_list@.len() ==> edge_exists(
                self.rows as nat,
                self.cols as nat,
                #[trigger] self.update_edge_list@[k],
            )
    }

    /// A lattice of `rows` x `cols` nodes with every edge intact and queued
    /// once for a first commit pass, in the order of `all_edges`.  The queue
    /// gets room for three edges per node where that many can be counted.
    pub fn new(rows: usize, cols: usize) -> (g: Self)
        ensures
            g.wf(),
            g@.rows == rows,
            g@.cols == cols,
            g@.queue == all_edges(rows as nat, cols as nat),
            g@.queue.len() == Set::new(|i: EdgeIndex| edge_exists(rows as nat, cols as nat, i)).len(),
            g@.queue.len() == edge_count(rows as nat, cols as nat),
            rows >= 1 && cols >= 1 ==> g@.queue.len() == rows * (cols - 1) + (rows - 1) * (2 * cols - 1),
            g@.queue.len() <= rows * cols * 3,
            g@.queue_exact(EdgeUpdateStatus::StressUpdate),
            forall|i: EdgeIndex|
                edge_exists(rows as nat, cols as nat, i) ==> #[trigger] g@.edges[i] == (EdgeState {
                    cracked: false,
                    status: EdgeUpdateStatus::StressUpdate,
                }),
    {
        let room = match rows.checked_mul(cols) {
            Some(nodes) => match nodes.checked_mul(3) {
                Some(places) => places,
                None => 0,
            },
            None => 0,
        };
        let mut out = Self {
            rows,
            cols,
            node_matrix: NodeMatrix { v: Vec::with_capacity(rows) },
            edge_matrix: EdgeMatrix { v: Vec::with_capacity(rows) },
            update_edge_list: EdgeUpdateList::new(room),
        };
        out.init();
        proof {
            lemma_all_edges(rows as nat, cols as nat);
            lemma_lattice_edges_exist(rows as nat, cols as nat, rows as nat);
            assert forall|i: EdgeIndex|
                #![trigger out@.edges[i]]
                out@.edges.dom().contains(i) implies out@.queued_between(i, 0, out@.queue.len() as int) by {
                assert(all_edges(rows as nat, cols as nat).contains(i));
                let j = choose|j: int| 0 <= j < out@.queue.len() && out@.queue[j] == i;
                assert(out@.queue[j] == i);
            }
        }
        out
    }

    /// Fills the empty arenas: first the nodes, then row by row the edges,
    /// each recorded at its endpoints and queued as it is made.
    fn init(&mut self)
        requires
            old(self).edge_matrix@.len() == 0,
            old(self).update_edge_list@.len() == 0,
        ensures
            final(self).wf(),
            final(self).rows == old(self).rows,
            final(self).cols == old(self).cols,
            final(self).update_edge_list@ == all_edges(old(self).rows as nat, old(self).cols as nat),
            forall|i: EdgeIndex|
                i.row < old(self).rows && i.col < old(self).cols && i.ty < 3 ==> place_fresh(
                    old(self).rows as nat,
                    old(self).cols as nat,
                    i,
                    #[trigger] final(self).edge_matrix.spec_get(i),
                ),
    {
        let rows = self.rows;
        let cols = self.cols;
        self.node_matrix = blank_nodes(rows, cols);
        let mut y: usize = 0;
        while y < rows
            invariant
                y <= rows,
                rows == self.rows,
                cols == self.cols,
                self.edge_matrix@.len() == y,
                forall|r: int| 0 <= r < y ==> (#[trigger] self.edge_matrix@[r]).len() == cols,
                forall|i: EdgeIndex|
                    i.row < y && i.col < cols && i.ty < 3 ==> place_fresh(
                        rows as nat,
                        cols as nat,
                        i,
                        #[trigger] self.edge_matrix.spec_get(i),
                    ),
                self.update_edge_list@ =~= lattice_edges(rows as nat, cols as nat, y as nat),
                nodes_placed(self.node_matrix@, rows as nat, cols as nat),
                nodes_wired_so_far(self.node_matrix@, rows as nat, cols as nat, y as nat, 0),
            decreases rows - y,
        {
            let row = build_row(rows, cols, y, &mut self.node_matrix, &mut self.update_edge_list);
            let ghost before = self.edge_matrix;
            let ghost cells = Seq::new(row@.len(), |c: int| row@[c]@);
            self.edge_matrix.v.push(row);
            assert(self.edge_matrix@ =~~= before@.push(cells));
            assert forall|i: EdgeIndex| i.row < y + 1 && i.col < cols && i.ty < 3 implies place_fresh(
                rows as nat,
                cols as nat,
                i,
                #[trigger] self.edge_matrix.spec_get(i),
            ) by {
                if i.row < y {
                    assert(self.edge_matrix.spec_get(i) == before.spec_get(i));
                } else {
                    assert(self.edge_matrix.spec_get(i) == row@[i.col as int][i.ty as int]);
                }
            }
            y = y + 1;
        }
        proof {
            lemma_lattice_edges_exist(rows as nat, cols as nat, rows as nat);
            lemma_all_edges(rows as nat, cols as nat);
            // A queue that holds every edge shows that the edges can be counted.
            assert(self.update_edge_list.v.len() == self.update_edge_list@.len());
        }
    }

    /// The mathematical state of a well-formed graph is well formed.
    pub proof fn lemma_view_wf(&self)
        requires
            self.wf(),
        ensures
            self@.wf(),
            self@.rows <= usize::MAX,
            self@.cols <= usize::MAX,
            edge_count(self@.rows, self@.cols) <= usize::MAX,
    {
    }

    /// In a well-formed graph every node is consistent with the arenas: it
    /// passes `Node::verify`.
    pub proof fn lemma_nodes_consistent(&self, n: NodeIndex)
        requires
            self.wf(),
            n.row < self@.rows,
            n.col < self@.cols,
        ensures
            node_consistent(
                &self.nodes().spec_get(n),
                &self.nodes(),
                &self.edges(),
                self@.rows,
                self@.cols,
                n,
            ),
    {
        let rows = self@.rows;
        let cols = self@.cols;
        let node = self.nodes().spec_get(n);
        assert(node == self.node_matrix@[n.row as int][n.col as int]);
        assert forall|k: int| 0 <= k < 6 && node_slot(rows, cols, n, k) is Some implies #[trigger] slot_consistent(
            &node,
            &self.nodes(),
            &self.edges(),
            k,
        ) by {
            let e = node_slot(rows, cols, n, k)->0;
            lemma_edge_of_slot(rows, cols, n, k);
            lemma_slots_of_edge(rows, cols, e);
            assert(node.edges[k] == Some(e));
            assert(place_wf(rows, cols, e, self.edge_matrix.spec_get(e)));
            let edge = self.edge_matrix.spec_get(e)->0;
            assert(edge.nodes@[0] == edge_origin(e) && edge.nodes@[1] == edge_target(e));
            let a = edge_origin(e);
            let b = edge_target(e);
            assert(self.node_matrix@[a.row as int][a.col as int].edges[origin_slot(e.ty)] == Some(e));
            assert(self.node_matrix@[b.row as int][b.col as int].edges[target_slot(e.ty)] == Some(e));
        }
    }

    /// Number of rows of nodes.
    pub fn rows(&self) -> (n: usize)
        ensures
            n == self@.rows,
    {
        self.rows
    }

    /// Number of columns of nodes.
    pub fn cols(&self) -> (n: usize)
        ensures
            n == self@.cols,
    {
        self.cols
    }

    /// The node arena, to read.
    pub fn node_matrix(&self) -> (m: &NodeMatrix)
        ensures
            *m == self.nodes(),
    {
        &self.node_matrix
    }

    /// The edge arena, to read.
    pub fn edge_matrix(&self) -> (m: &EdgeMatrix)
        ensures
            *m == self.edges(),
    {
        &self.edge_matrix
    }

    /// The work queue, to read.
    pub fn update_edge_list(&self) -> (l: &EdgeUpdateList)
        ensures
            l@ == self@.queue,
    {
        &self.update_edge_list
    }

    /// Number of entries in the work queue.
    pub fn get_update_amt(&self) -> (n: usize)
        ensures
            n == self@.queue.len(),
    {
        self.update_edge_list.size()
    }

    /// The node at `i`: it carries its address and names in each slot the
    /// edge that the lattice has there.
    pub fn get_node(&self, i: NodeIndex) -> (n: &Node)
        requires
            self.wf(),
            i.row < self@.rows,
            i.col < self@.cols,
        ensures
            *n == self.nodes().spec_get(i),
            n.index == i,
            forall|k: int| 0 <= k < 6 ==> #[trigger] n.edges[k] == node_slot(self@.rows, self@.cols, i, k),
    {
        self.node_matrix.get(i)
    }

    /// The edge at `i`, if the lattice carries one there.
    pub fn get_edge(&self, i: EdgeIndex) -> (e: Option<&Edge>)
        requires
            self.wf(),
        ensures
            e is Some <==> edge_exists(self@.rows, self@.cols, i),
            e matches Some(edge) ==> Some(*edge) == self.edges().spec_get(i),
            e matches Some(edge) ==> edge.index == i,
            e matches Some(edge) ==> edge.nodes@ == seq![edge_origin(i), edge_target(i)],
            e matches Some(edge) ==> edge.cracked == self@.edges[i].cracked,
            e matches Some(edge) ==> edge.update_status == self@.edges[i].status,
    {
        self.edge_matrix.get(i)
    }

    /// The node at `i`, to change.  The graph stays well formed if the node
    /// is handed back as it was.
    pub fn get_node_mut(&mut self, i: NodeIndex) -> (n: &mut Node)
        requires
            old(self).wf(),
            i.row < old(self)@.rows,
            i.col < old(self)@.cols,
        ensures
            *n == old(self).nodes().spec_get(i),
            final(self)@ == old(self)@,
            *final(n) == *n ==> final(self).wf(),
    {
        self.node_matrix.get_mut(i)
    }

    /// The edge at `i`, to change, if the lattice carries one there.  The
    /// graph stays well formed if the edge keeps its address and endpoints;
    /// its fracture flag and status are then what the state has for `i`.
    pub fn get_edge_mut(&mut self, i: EdgeIndex) -> (e: Option<&mut Edge>)
        requires
            old(self).wf(),
        ensures
            e is Some <==> edge_exists(old(self)@.rows, old(self)@.cols, i),
            e is None ==> final(self).wf() && final(self)@ == old(self)@,
            e matches Some(edge) ==> Some(*edge) == old(self).edges().spec_get(i),
            e matches Some(edge) ==> (final(edge).index == edge.index && final(edge).nodes == edge.nodes
                ==> final(self).wf() && final(self)@ == (LatticeState {
                edges: old(self)@.edges.insert(
                    i,
                    (EdgeState { cracked: final(edge).cracked, status: final(edge).update_status }),
                ),
                ..old(self)@
            })),
    {
        self.edge_matrix.get_mut(i)
    }

    /// Registers a stimulus at `i`.  Where the lattice carries no edge at
    /// `i` nothing changes and the call fails; otherwise the edge is
    /// scheduled for the commit phase, unless it is scheduled for it already.
    pub fn add_stress(&mut self, i: EdgeIndex) -> (r: Result<(), NotFound>)
        requires
            old(self).wf(),
        ensures
            final(self).wf(),
            r is Ok <==> edge_exists(old(self)@.rows, old(self)@.cols, i),
            r is Ok ==> final(self)@ == old(self)@.schedule(i),
            r is Err ==> final(self)@ == old(self)@,
            old(self)@.cracks_kept_by(final(self)@),
            old(self)@.queue_tidy(EdgeUpdateStatus::StressUpdate) ==> final(self)@.queue_tidy(
                EdgeUpdateStatus::StressUpdate,
            ),
            old(self)@.queue_exact(EdgeUpdateStatus::StressUpdate) ==> final(self)@.queue_exact(
                EdgeUpdateStatus::StressUpdate,
            ),
    {
        let ghost before = *self;
        let found = match self.edge_matrix.get_mut(i) {
            Some(e) => {
                e.add_stress(&mut self.update_edge_list);
                true
            },
            None => false,
        };
        if found {
            assert(self@ =~= before@.schedule(i));
            proof {
                lemma_schedule(before@, i);
                if before@.queue_exact(EdgeUpdateStatus::StressUpdate) {
                    lemma_schedule_exact(before@, i);
                }
            }
            Ok(())
        } else {
            assert(self.edge_matrix@ == before.edge_matrix@);
            assert(forall|j: EdgeIndex| #[trigger] self.edge_matrix.spec_get(j) == before.edge_matrix.spec_get(j));
            assert(self@ =~= before@);
            Err(NotFound)
        }
    }

    /// The oldest entry of the work queue, if there is one.
    pub fn next_update(&self) -> (head: Option<EdgeIndex>)
        ensures
            self@.queue.len() == 0 ==> head is None,
            self@.queue.len() > 0 ==> head == Some(self@.queue[0]),
    {
        if self.update_edge_list.v.len() > 0 {
            Some(self.update_edge_list.v[0])
        } else {
            None
        }
    }

    /// One step of the commit phase: takes the oldest queue entry off and
    /// takes in the verdict `loaded` on its edge (see
    /// `Edge::update_total_stress`).  Returns whether the edge fractured.
    /// On an empty queue nothing changes.
    pub fn commit_next(&mut self, loaded: bool) -> (newly_cracked: bool)
        requires
            old(self).wf(),
        ensures
            old(self)@.queue.len() == 0 ==> final(self)@ == old(self)@ && !newly_cracked,
            final(self).wf(),
            final(self)@ == old(self)@.commit_step(loaded),
            newly_cracked == old(self)@.cracks_next(loaded),
            old(self)@.cracks_kept_by(final(self)@),
    {
        let ghost before = *self;
        let mut newly_cracked = false;
        match self.update_edge_list.pop() {
            Some(i) => {
                match self.edge_matrix.get_mut(i) {
                    Some(e) => {
                        newly_cracked = e.update_total_stress(loaded, &mut self.update_edge_list);
                    },
                    None => {},
                }
            },
            None => {},
        }
        assert(self@ =~= before@.commit_step(loaded));
        newly_cracked
    }

    /// Whether the lattice carries an edge at both `a` and `b`.
    fn has_both(&self, a: Option<EdgeIndex>, b: Option<EdgeIndex>) -> (both: bool)
        requires
            self.wf(),
        ensures
            both == side_complete(self@.rows, self@.cols, a, b),
    {
        match (a, b) {
            (Some(x), Some(y)) => self.edge_matrix.get(x).is_some() && self.edge_matrix.get(y).is_some(),
            _ => false,
        }
    }

    /// The neighbours of edge `i` that may receive stress from it.  Where
    /// the lattice carries no edge at `i`, there are none.
    pub fn receivers(&self, i: EdgeIndex) -> (to: [Option<EdgeIndex>; 4])
        requires
            self.wf(),
        ensures
            to@ == receivers(self@.rows, self@.cols, i),
            to@[0] is Some <==> to@[1] is Some,
            to@[2] is Some <==> to@[3] is Some,
    {
        if i.ty >= 3 {
            return [None, None, None, None];
        }
        let around = Edge::get_adjacent_edges(i, self.cols);
        let first = self.has_both(around[0], around[1]);
        let second = self.has_both(around[2], around[3]);
        [
            if first { around[0] } else { None },
            if first { around[1] } else { None },
            if second { around[2] } else { None },
            if second { around[3] } else { None },
        ]
    }

    /// Appends to `out` the corners of the triangle that the edges at `a`
    /// and `b` close, if both are given.
    fn push_side_triangle(&self, a: Option<EdgeIndex>, b: Option<EdgeIndex>, out: &mut Vec<NodeIndex>)
        requires
            self.wf(),
            a is Some && b is Some ==> side_complete(self@.rows, self@.cols, a, b),
        ensures
            final(out)@ == old(out)@ + side_triangle(a, b),
    {
        match (a, b) {
            (Some(x), Some(y)) => {
                match (self.edge_matrix.get(x), self.edge_matrix.get(y)) {
                    (Some(e1), Some(e2)) => {
                        let n0 = e1.nodes[0];
                        let n1 = e1.nodes[1];
                        let n2 = if e2.nodes[0] == n0 || e2.nodes[0] == n1 {
                            e2.nodes[1]
                        } else {
                            e2.nodes[0]
                        };
                        out.push(n0);
                        out.push(n1);
                        out.push(n2);
                        assert(out@ =~= old(out)@ + side_triangle(a, b));
                    },
                    _ => {},
                }
            },
            _ => {
                assert(out@ =~= old(out)@ + side_triangle(a, b));
            },
        }
    }

    /// Appends to `out` the corners of the triangles on the two sides of edge
    /// `i`, three per triangle.
    pub fn collect_triangles(&self, i: EdgeIndex, out: &mut Vec<NodeIndex>)
        requires
            self.wf(),
        ensures
            final(out)@ == old(out)@ + crack_triangles(self@.rows, self@.cols, i),
    {
        let to = self.receivers(i);
        self.push_side_triangle(to[0], to[1], out);
        self.push_side_triangle(to[2], to[3], out);
        assert(out@ =~= old(out)@ + crack_triangles(self@.rows, self@.cols, i));
    }

    /// One step of the propagation phase: takes the oldest queue entry off,
    /// schedules for the commit phase each receiver of its edge whose flag in
    /// `shares` is set, and takes the edge itself off the schedule if it was
    /// scheduled for propagation.  On an empty queue nothing changes.
    pub fn propagate_next(&mut self, shares: [bool; 4])
        requires
            old(self).wf(),
        ensures
            old(self)@.queue.len() == 0 ==> final(self)@ == old(self)@,
            final(self).wf(),
            final(self)@ == old(self)@.propagate_step(shares@),
            old(self)@.cracks_kept_by(final(self)@),
    {
        let ghost before = *self;
        proof {
            if before@.queue.len() > 0 {
                lemma_propagate_step(before@, shares@, before@.queue.len() as int);
            }
        }
        match self.update_edge_list.pop() {
            Some(i) => {
                assert(self@ =~= before@.dequeue());
                let to = self.receivers(i);
                let mut k: usize = 0;
                while k < 4
                    invariant
                        k <= 4,
                        self.wf(),
                        self@.rows == before@.rows,
                        self@.cols == before@.cols,
                        to@ == receivers(before@.rows, before@.cols, i),
                        self@ == before@.dequeue().deliver(to@, shares@, k as nat),
                    decreases 4 - k,
                {
                    match to[k] {
                        Some(r) => {
                            if shares[k] {
                                let _ = self.add_stress(r);
                            }
                        },
                        None => {},
                    }
                    k = k + 1;
                }
                let ghost delivered = *self;
                match self.edge_matrix.get_mut(i) {
                    Some(e) => {
                        e.set_update_status_propogated();
                    },
                    None => {},
                }
                assert(self@ =~= delivered@.settle(i));
            },
            None => {},
        }
    }

    /// Whether no edge that the queue names is scheduled for `s`.
    pub fn valid_edge_assert_not(&self, s: EdgeUpdateStatus) -> (none: bool)
        requires
            self.wf(),
        ensures
            none == forall|k: int|
                0 <= k < self@.queue.len() ==> self@.edges[#[trigger] self@.queue[k]].status != s,
    {
        let n = self.update_edge_list.v.len();
        let mut k: usize = 0;
        while k < n
            invariant
                k <= n,
                n == self@.queue.len(),
                self.wf(),
                forall|j: int| 0 <= j < k ==> self@.edges[#[trigger] self@.queue[j]].status != s,
            decreases n - k,
        {
            let i = self.update_edge_list.v[k];
            match self.edge_matrix.get(i) {
                Some(e) => {
                    if e.get_update_status() == s {
                        return false;
                    }
                },
                None => {},
            }
            k = k + 1;
        }
        true
    }
}

} // verus!
