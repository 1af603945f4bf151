use vstd::prelude::*;
use crate::edge::{Edge, EdgeIndex};
use crate::node::{Node, NodeIndex};

verus! {

/// The arena that owns every node, addressed by row and column.
pub struct NodeMatrix {
    pub v: Vec<Vec<Node>>,
}

/// The arena that owns every edge: per row and column one cell of three
/// places, one per orientation, each empty where the lattice has no edge.
pub struct EdgeMatrix {
    pub v: Vec<Vec<[Option<Edge>; 3]>>,
}

impl View for NodeMatrix {
    type V = Seq<Seq<Node>>;

    open spec fn view(&self) -> Seq<Seq<Node>> {
        Seq::new(self.v@.len(), |r: int| self.v@[r]@)
    }
}

impl NodeMatrix {
    /// Whether `i` lies inside the arena.
    pub open spec fn has(&self, i: NodeIndex) -> bool {
        i.row < self@.len() && i.col < self@[i.row as int].len()
    }

    /// The node at `i`.
    pub open spec fn spec_get(&self, i: NodeIndex) -> Node
        recommends
            self.has(i),
    {
        self@[i.row as int][i.col as int]
    }

    pub fn get(&self, i: NodeIndex) -> (n: &Node)
        requires
            self.has(i),
        ensures
            *n == self.spec_get(i),
    {
        &self.v[i.row][i.col]
    }

    pub fn get_mut(&mut self, i: NodeIndex) -> (n: &mut Node)
        requires
            old(self).has(i),
        ensures
            *n == old(self).spec_get(i),
            final(self)@ == old(self)@.update(
                i.row as int,
                old(self)@[i.row as int].update(i.col as int, *final(n)),
            ),
            *final(n) == *n ==> final(self)@ =~~= old(self)@,
    {
        &mut self.v[i.row][i.col]
    }
}

impl View for EdgeMatrix {
    type V = Seq<Seq<Seq<Option<Edge>>>>;

    open spec fn view(&self) -> Seq<Seq<Seq<Option<Edge>>>> {
        Seq::new(self.v@.len(), |r: int| Seq::new(self.v@[r]@.len(), |c: int| self.v@[r]@[c]@))
    }
}

impl EdgeMatrix {
    /// Whether `i` names a place of the arena, occupied or not.
    pub open spec fn in_range(&self, i: EdgeIndex) -> bool {
        i.row < self@.len() && i.col < self@[i.row as int].len() && i.ty < 3
    }

    /// The edge at `i`; `None` where the place is empty or `i` lies outside
    /// the arena.
    pub open spec fn spec_get(&self, i: EdgeIndex) -> Option<Edge> {
        if self.in_range(i) {
            self@[i.row as int][i.col as int][i.ty as int]
        } else {
            None
        }
    }

    pub fn get(&self, i: EdgeIndex) -> (e: Option<&Edge>)
        ensures
            e is Some <==> self.spec_get(i) is Some,
            e matches Some(edge) ==> Some(*edge) == self.spec_get(i),
    {
        if i.row < self.v.len() && i.col < self.v[i.row].len() && i.ty < 3 {
            self.v[i.row][i.col][i.ty].as_ref()
        } else {
            None
        }
    }

    pub fn get_mut(&mut self, i: EdgeIndex) -> (e: Option<&mut Edge>)
        ensures
            e is Some <==> old(self).spec_get(i) is Some,
            e is None ==> final(self)@ =~~= old(self)@,
            final(self)@.len() == old(self)@.len(),
            forall|r: int| 0 <= r < old(self)@.len() ==> (#[trigger] final(self)@[r]).len() == old(self)@[r].len(),
            forall|j: EdgeIndex| j != i ==> #[trigger] final(self).spec_get(j) == old(self).spec_get(j),
            e is None ==> final(self).spec_get(i) is None,
            e matches Some(edge) ==> final(self).spec_get(i) == Some(*final(edge)),
            e matches Some(edge) ==> Some(*edge) == old(self).spec_get(i) && final(self)@
                =~~= old(self)@.update(
                i.row as int,
                old(self)@[i.row as int].update(
                    i.col as int,
                    old(self)@[i.row as int][i.col as int].update(i.ty as int, Some(*final(edge))),
                ),
            ),
    {
        if i.row < self.v.len() && i.col < self.v[i.row].len() && i.ty < 3 {
            self.v[i.row][i.col][i.ty].as_mut()
        } else {
            None
        }
    }
}

} // verus!
