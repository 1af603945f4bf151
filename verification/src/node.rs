use vstd::prelude::*;
use vstd::std_specs::convert::FromSpecImpl;
use crate::edge::{edge_recorded, EdgeIndex};
use crate::lattice::node_slot;
use crate::matrix::{EdgeMatrix, NodeMatrix};

verus! {

/// Address of a lattice vertex: dense, 0-based row and column.
#[derive(Copy, Clone, PartialEq, Eq, Structural, Debug, Default)]
pub struct NodeIndex {
    pub row: usize,
    pub col: usize,
}

impl From<[usize; 2]> for NodeIndex {
    fn from(v: [usize; 2]) -> (r: Self) {
        Self { row: v[0], col: v[1] }
    }
}

impl FromSpecImpl<[usize; 2]> for NodeIndex {
    open spec fn obeys_from_spec() -> bool {
        true
    }

    open spec fn from_spec(v: [usize; 2]) -> Self {
        NodeIndex { row: v[0], col: v[1] }
    }
}

/// A lattice vertex: its address and the edges that meet it, one slot per
/// direction (slot `k` points `k * 60` degrees counter-clockwise from the
/// positive x axis).
pub struct Node {
    pub edges: [Option<EdgeIndex>; 6],
    pub index: NodeIndex,
}

/// What `Node::verify` checks of slot `k` of node `n`: the slot names an edge
/// that the edge arena holds, `n` is the endpoint of that edge that belongs to
/// the slot's direction (the first for slots 0, 4 and 5, the second for 1, 2
/// and 3), and both endpoints of the edge have it on record.
pub open spec fn slot_consistent(n: &Node, nodes: &NodeMatrix, edges: &EdgeMatrix, k: int) -> bool {
    &&& n.edges[k] matches Some(i)
    &&& edges.spec_get(i) matches Some(e)
    &&& e.nodes[if k == 0 || k == 4 || k == 5 { 0int } else { 1int }] == n.index
    &&& edge_recorded(nodes, &e)
}

/// Whether node `n` is what the arenas of a lattice of `rows` x `cols` nodes
/// should hold at `index`: it carries that address, the address lies in the
/// lattice, and every slot that the lattice fills there is consistent.
pub open spec fn node_consistent(
    n: &Node,
    nodes: &NodeMatrix,
    edges: &EdgeMatrix,
    rows: nat,
    cols: nat,
    index: NodeIndex,
) -> bool {
    &&& n.index == index
    &&& index.row < rows
    &&& index.col < cols
    &&& forall|k: int|
        0 <= k < 6 && node_slot(rows, cols, index, k) is Some ==> #[trigger] slot_consistent(
            n,
            nodes,
            edges,
            k,
        )
}

/// Whether a lattice of `rows` x `cols` nodes, which holds `index`, has an
/// edge in direction `k` there; decided from the borders that `index` lies on.
fn slot_filled(rows: usize, cols: usize, index: NodeIndex, k: usize) -> (filled: bool)
    requires
        index.row < rows,
        index.col < cols,
        k < 6,
    ensures
        filled == node_slot(rows as nat, cols as nat, index, k as int) is Some,
{
    let first_row = index.row == 0;
    let last_row = index.row + 1 == rows;
    let first_col = index.col == 0;
    let last_col = index.col + 1 == cols;
    let even = index.row % 2 == 0;
    if k == 0 {
        !last_col
    } else if k == 1 {
        !first_row && !(last_col && !even)
    } else if k == 2 {
        !first_row && !(first_col && even)
    } else if k == 3 {
        !first_col
    } else if k == 4 {
        !last_row && !(first_col && even)
    } else {
        !last_row && !(last_col && !even)
    }
}

impl Node {
    /// A vertex at `(row, col)` that no edge meets yet.
    pub fn new(row: usize, col: usize) -> (n: Self)
        ensures
            n.index == (NodeIndex { row, col }),
            forall|k: int| 0 <= k < 6 ==> n.edges[k] is None,
    {
        Self { edges: [None, None, None, None, None, None], index: NodeIndex { row, col } }
    }

    /// Records that edge `i` meets this vertex in direction `edge`.
    pub fn update_edge(&mut self, edge: usize, i: EdgeIndex)
        requires
            edge < 6,
        ensures
            final(self).index == old(self).index,
            final(self).edges@ == old(self).edges@.update(edge as int, Some(i)),
    {
        self.edges[edge] = Some(i);
    }

    /// The node at the far end of the edge in slot `n`; `None` where the slot
    /// is empty.
    pub open spec fn spec_adjacent_node_n(&self, n: int, matrix: &EdgeMatrix) -> Option<NodeIndex> {
        match self.edges[n] {
            Some(e) => Some(matrix.spec_get(e)->0.spec_traverse(self.index)),
            None => None,
        }
    }

    /// The node next to this one in direction `n` (0 is along the positive x
    /// axis, each further step turns 60 degrees counter-clockwise), if an
    /// edge leads there.
    pub fn get_adjacent_node_n(&self, n: usize, matrix: &EdgeMatrix) -> (r: Option<NodeIndex>)
        requires
            n < 6,
            self.edges[n as int] matches Some(e) ==> matrix.spec_get(e) is Some,
        ensures
            r == self.spec_adjacent_node_n(n as int, matrix),
    {
        match self.edges[n] {
            Some(e) => {
                match matrix.get(e) {
                    Some(edge) => Some(edge.traverse(self.index)),
                    None => None,
                }
            },
            None => None,
        }
    }

    /// Checks this node against the arenas of a lattice of `rows` x `cols`
    /// nodes in which it should stand at `index`.
    pub fn verify(
        &self,
        n_matrix: &NodeMatrix,
        e_matrix: &EdgeMatrix,
        rows: usize,
        cols: usize,
        index: NodeIndex,
    ) -> (ok: bool)
        ensures
            ok == node_consistent(self, n_matrix, e_matrix, rows as nat, cols as nat, index),
    {
        if !(index == self.index) || index.row >= rows || index.col >= cols {
            return false;
        }
        let mut k: usize = 0;
        while k < 6
            invariant
                k <= 6,
                index == self.index,
                index.row < rows,
                index.col < cols,
                forall|j: int|
                    0 <= j < k && node_slot(rows as nat, cols as nat, index, j) is Some
                        ==> #[trigger] slot_consistent(self, n_matrix, e_matrix, j),
            decreases 6 - k,
        {
            if slot_filled(rows, cols, index, k) {
                let good = match self.edges[k] {
                    Some(i) => match e_matrix.get(i) {
                        Some(edge) => {
                            let end: usize = if k == 0 || k == 4 || k == 5 {
                                0
                            } else {
                                1
                            };
                            edge.nodes[end] == self.index && edge.verify(n_matrix)
                        },
                        None => false,
                    },
                    None => false,
                };
                if !good {
                    assert(!slot_consistent(self, n_matrix, e_matrix, k as int));
                    return false;
                }
            }
            k = k + 1;
        }
        true
    }
}

} // verus!
