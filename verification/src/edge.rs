use vstd::prelude::*;
use crate::edge_update_list::EdgeUpdateList;
use crate::lattice::{adjacent_edges, origin_slot, target_slot};
use crate::matrix::{EdgeMatrix, NodeMatrix};
use crate::node::NodeIndex;

verus! {

/// Address of a lattice edge: the node that owns it and its orientation
/// (0 horizontal, 1 the "/" diagonal, 2 the "\" diagonal).
#[derive(Copy, Clone, PartialEq, Eq, Structural, Debug, Default)]
pub struct EdgeIndex {
    pub row: usize,
    pub col: usize,
    pub ty: usize,
}

/// The phase, if any, for which an edge waits in the work queue.
#[derive(Copy, Clone, PartialEq, Eq, Structural, Debug)]
pub enum EdgeUpdateStatus {
    NoUpdate,
    StressUpdate,
    PropogationUpdate,
}

impl Default for EdgeUpdateStatus {
    fn default() -> (s: Self)
        ensures
            s == EdgeUpdateStatus::NoUpdate,
    {
        Self::NoUpdate
    }
}

/// A lattice connection: its two endpoints, its own address, whether it has
/// fractured, and the phase it is scheduled for.
pub struct Edge {
    pub nodes: [NodeIndex; 2],
    pub index: EdgeIndex,
    pub cracked: bool,
    pub update_status: EdgeUpdateStatus,
}

/// What recording edge `idx` at slot `s1` of node `n1` and at slot `s2` of
/// node `n2` does to a node arena: those two slots name `idx`, every other
/// slot and every node address stay as they were.
pub open spec fn slots_recorded(
    before: Seq<Seq<crate::node::Node>>,
    after: Seq<Seq<crate::node::Node>>,
    n1: NodeIndex,
    s1: int,
    n2: NodeIndex,
    s2: int,
    idx: EdgeIndex,
) -> bool {
    &&& after.len() == before.len()
    &&& forall|r: int| 0 <= r < before.len() ==> (#[trigger] after[r]).len() == before[r].len()
    &&& forall|r: int, c: int|
        0 <= r < before.len() && 0 <= c < before[r].len() ==> (#[trigger] after[r][c]).index
            == before[r][c].index
    &&& forall|r: int, c: int, k: int|
        0 <= r < before.len() && 0 <= c < before[r].len() && 0 <= k < 6 ==> #[trigger] after[r][c].edges[k]
            == if (r == n1.row && c == n1.col && k == s1) || (r == n2.row && c == n2.col && k == s2) {
            Some(idx)
        } else {
            before[r][c].edges[k]
        }
}

/// Whether both endpoints of `e` exist in the node arena `nodes` and name `e`
/// in the slot that belongs to its orientation.
pub open spec fn edge_recorded(nodes: &NodeMatrix, e: &Edge) -> bool {
    &&& e.index.ty < 3
    &&& nodes.has(e.nodes[0])
    &&& nodes.has(e.nodes[1])
    &&& nodes.spec_get(e.nodes[0]).edges[origin_slot(e.index.ty)] == Some(e.index)
    &&& nodes.spec_get(e.nodes[1]).edges[target_slot(e.index.ty)] == Some(e.index)
}

impl Edge {
    /// The endpoint of this edge that is not `n` (the first endpoint where
    /// `n` is neither).
    pub open spec fn spec_traverse(&self, n: NodeIndex) -> NodeIndex {
        if self.nodes[0] == n {
            self.nodes[1]
        } else {
            self.nodes[0]
        }
    }

    /// A fresh, intact, unscheduled edge of orientation `ty` owned by
    /// `(row, col)`, running from `n1` to `n2`.  It is recorded at slot `s1`
    /// of `n1` and slot `s2` of `n2` in `matrix`.
    pub fn new(
        n1: NodeIndex,
        s1: usize,
        n2: NodeIndex,
        s2: usize,
        row: usize,
        col: usize,
        ty: usize,
        matrix: &mut NodeMatrix,
    ) -> (e: Self)
        requires
            ty < 3,
            s1 < 6,
            s2 < 6,
            old(matrix).has(n1),
            old(matrix).has(n2),
        ensures
            e.nodes@ == seq![n1, n2],
            e.index == (EdgeIndex { row, col, ty }),
            !e.cracked,
            e.update_status == EdgeUpdateStatus::NoUpdate,
            slots_recorded(old(matrix)@, final(matrix)@, n1, s1 as int, n2, s2 as int, e.index),
    {
        let out = Self {
            nodes: [n1, n2],
            index: EdgeIndex { row, col, ty },
            cracked: false,
            update_status: EdgeUpdateStatus::NoUpdate,
        };
        matrix.get_mut(n1).update_edge(s1, out.index);
        matrix.get_mut(n2).update_edge(s2, out.index);
        out
    }

    /// Walks along the edge away from `n`.
    pub fn traverse(&self, n: NodeIndex) -> (m: NodeIndex)
        ensures
            m == self.spec_traverse(n),
    {
        if self.nodes[0] == n {
            self.nodes[1]
        } else {
            self.nodes[0]
        }
    }

    /// Takes in the verdict of a commit of this edge's pending stress.
    ///
    /// `loaded` is the caller's reading after the commit: for an edge that had
    /// already fractured, that there was pending stress to commit; for an
    /// intact edge, that its committed stress now exceeds the fracture
    /// threshold.  A loaded edge is fractured from now on and queued for the
    /// propagation phase.  An edge that is not loaded leaves the schedule;
    /// only a fractured edge that waits for propagation keeps waiting.
    /// Returns whether the edge fractured in this call.
    pub fn update_total_stress(&mut self, loaded: bool, update_list: &mut EdgeUpdateList) -> (newly_cracked:
        bool)
        ensures
            final(self).nodes == old(self).nodes,
            final(self).index == old(self).index,
            newly_cracked == (loaded && !old(self).cracked),
            final(self).cracked == (loaded || old(self).cracked),
            final(self).update_status == (if loaded || (old(self).cracked && old(self).update_status
                == EdgeUpdateStatus::PropogationUpdate) {
                EdgeUpdateStatus::PropogationUpdate
            } else {
                EdgeUpdateStatus::NoUpdate
            }),
            final(update_list)@ == (if loaded {
                old(update_list)@.push(old(self).index)
            } else {
                old(update_list)@
            }),
    {
        if self.cracked {
            if loaded {
                self.set_scheduled_for_propagate_update();
                update_list.push(self.index);
            } else if self.update_status == EdgeUpdateStatus::StressUpdate {
                self.set_not_scheduled_for_update();
            }
            return false;
        }
        if loaded {
            self.cracked = true;
            self.set_scheduled_for_propagate_update();
            update_list.push(self.index);
            true
        } else {
            self.set_not_scheduled_for_update();
            false
        }
    }

    /// The four edge addresses around `index`, two per side, computed from
    /// the address and the lattice width alone, without regard to which of
    /// them the lattice carries.  Each side has both of its entries or
    /// neither.
    pub fn get_adjacent_edges(index: EdgeIndex, n_cols: usize) -> (out: [Option<EdgeIndex>; 4])
        requires
            index.ty < 3,
        ensures
            out@ == adjacent_edges(index, n_cols as nat),
            out@[0] is Some <==> out@[1] is Some,
            out@[2] is Some <==> out@[3] is Some,
    {
        let row = index.row;
        let col = index.col;
        let even = row % 2 == 0;
        let last = usize::MAX;
        let mut out: [Option<EdgeIndex>; 4] = [None, None, None, None];
        if index.ty == 0 {
            if row != 0 && (even || col < last) {
                let above = if even {
                    col
                } else {
                    col + 1
                };
                out[0] = Some(EdgeIndex { row: row - 1, col: above, ty: 1 });
                out[1] = Some(EdgeIndex { row: row - 1, col: above, ty: 2 });
            }
            if col < last {
                out[2] = Some(EdgeIndex { row, col, ty: 2 });
                out[3] = Some(EdgeIndex { row, col: col + 1, ty: 1 });
            }
        } else if index.ty == 1 {
            if col != 0 {
                out[0] = Some(EdgeIndex { row, col: col - 1, ty: 2 });
                out[1] = Some(EdgeIndex { row, col: col - 1, ty: 0 });
            }
            if row < last && !(even && col == 0) {
                let below = if even {
                    col - 1
                } else {
                    col
                };
                out[2] = Some(EdgeIndex { row: row + 1, col: below, ty: 0 });
                out[3] = Some(EdgeIndex { row, col, ty: 2 });
            }
        } else {
            if col < last && col + 1 != n_cols {
                out[0] = Some(EdgeIndex { row, col, ty: 0 });
                out[1] = Some(EdgeIndex { row, col: col + 1, ty: 1 });
            }
            if row < last && !(even && col == 0) {
                let below = if even {
                    col - 1
                } else {
                    col
                };
                out[2] = Some(EdgeIndex { row, col, ty: 1 });
                out[3] = Some(EdgeIndex { row: row + 1, col: below, ty: 0 });
            }
        }
        out
    }

    /// The directions, seen from the first endpoint, in which the apexes of
    /// the two triangles on an edge of orientation `ty` lie.
    pub open spec fn apex_slots(ty: usize) -> (int, int) {
        if ty == 0 {
            (1, 5)
        } else if ty == 1 {
            (3, 5)
        } else {
            (0, 4)
        }
    }

    /// The two nodes opposite this edge, one in each of the triangles that
    /// it borders: the neighbours of its first endpoint in the two directions
    /// next to the edge's own.
    pub fn get_orthogonal_nodes(&self, n_matrix: &NodeMatrix, e_matrix: &EdgeMatrix) -> (out: [Option<
        NodeIndex,
    >; 2])
        requires
            self.index.ty < 3,
            n_matrix.has(self.nodes[0]),
            n_matrix.spec_get(self.nodes[0]).edges[Self::apex_slots(self.index.ty).0] matches Some(e)
                ==> e_matrix.spec_get(e) is Some,
            n_matrix.spec_get(self.nodes[0]).edges[Self::apex_slots(self.index.ty).1] matches Some(e)
                ==> e_matrix.spec_get(e) is Some,
        ensures
            out@ == seq![
                n_matrix.spec_get(self.nodes[0]).spec_adjacent_node_n(
                    Self::apex_slots(self.index.ty).0,
                    e_matrix,
                ),
                n_matrix.spec_get(self.nodes[0]).spec_adjacent_node_n(
                    Self::apex_slots(self.index.ty).1,
                    e_matrix,
                ),
            ],
    {
        let first: usize = if self.index.ty == 0 {
            1
        } else if self.index.ty == 1 {
            3
        } else {
            0
        };
        let second: usize = if self.index.ty == 2 {
            4
        } else {
            5
        };
        let origin = n_matrix.get(self.nodes[0]);
        let upper_node = origin.get_adjacent_node_n(first, e_matrix);
        let lower_node = origin.get_adjacent_node_n(second, e_matrix);
        [upper_node, lower_node]
    }

    /// Whether both endpoints of this edge name it in the slot that belongs
    /// to its orientation.
    pub fn verify(&self, n_matrix: &NodeMatrix) -> (ok: bool)
        ensures
            ok == edge_recorded(n_matrix, self),
    {
        if self.index.ty >= 3 {
            return false;
        }
        let s1: usize = if self.index.ty == 0 {
            0
        } else if self.index.ty == 1 {
            4
        } else {
            5
        };
        let s2: usize = if self.index.ty == 0 {
            3
        } else if self.index.ty == 1 {
            1
        } else {
            2
        };
        let a = self.nodes[0];
        let b = self.nodes[1];
        if !(a.row < n_matrix.v.len() && a.col < n_matrix.v[a.row].len()) {
            return false;
        }
        if !(b.row < n_matrix.v.len() && b.col < n_matrix.v[b.row].len()) {
            return false;
        }
        let n1 = n_matrix.get(a);
        let n2 = n_matrix.get(b);
        let at1 = match n1.edges[s1] {
            Some(i) => i == self.index,
            None => false,
        };
        let at2 = match n2.edges[s2] {
            Some(i) => i == self.index,
            None => false,
        };
        at1 && at2
    }

    pub fn set_scheduled_for_stress_update(&mut self)
        ensures
            final(self).update_status == EdgeUpdateStatus::StressUpdate,
            final(self).nodes == old(self).nodes,
            final(self).index == old(self).index,
            final(self).cracked == old(self).cracked,
    {
        self.update_status = EdgeUpdateStatus::StressUpdate;
    }

    pub fn set_scheduled_for_propagate_update(&mut self)
        ensures
            final(self).update_status == EdgeUpdateStatus::PropogationUpdate,
            final(self).nodes == old(self).nodes,
            final(self).index == old(self).index,
            final(self).cracked == old(self).cracked,
    {
        self.update_status = EdgeUpdateStatus::PropogationUpdate;
    }

    pub fn set_not_scheduled_for_update(&mut self)
        ensures
            final(self).update_status == EdgeUpdateStatus::NoUpdate,
            final(self).nodes == old(self).nodes,
            final(self).index == old(self).index,
            final(self).cracked == old(self).cracked,
    {
        self.update_status = EdgeUpdateStatus::NoUpdate;
    }

    /// Marks the propagation this edge was scheduled for as done; an edge
    /// scheduled for anything else keeps its status.
    pub fn set_update_status_propogated(&mut self)
        ensures
            final(self).update_status == (if old(self).update_status == EdgeUpdateStatus::PropogationUpdate {
                EdgeUpdateStatus::NoUpdate
            } else {
                old(self).update_status
            }),
            final(self).nodes == old(self).nodes,
            final(self).index == old(self).index,
            final(self).cracked == old(self).cracked,
    {
        if self.update_status == EdgeUpdateStatus::PropogationUpdate {
            self.update_status = EdgeUpdateStatus::NoUpdate;
        }
    }

    pub fn get_update_status(&self) -> (s: EdgeUpdateStatus)
        ensures
            s == self.update_status,
    {
        self.update_status
    }

    /// Registers a stimulus on this edge: unless the edge already waits for
    /// the commit phase, it is marked so and appended to `update_list`.
    pub fn add_stress(&mut self, update_list: &mut EdgeUpdateList)
        ensures
            final(self).update_status == EdgeUpdateStatus::StressUpdate,
            final(self).nodes == old(self).nodes,
            final(self).index == old(self).index,
            final(self).cracked == old(self).cracked,
            final(update_list)@ == (if old(self).update_status == EdgeUpdateStatus::StressUpdate {
                old(update_list)@
            } else {
                old(update_list)@.push(old(self).index)
            }),
    {
        if self.update_status != EdgeUpdateStatus::StressUpdate {
            self.set_scheduled_for_stress_update();
            update_list.push(self.index);
        }
    }
}

} // verus!
