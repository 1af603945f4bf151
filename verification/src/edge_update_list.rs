use vstd::prelude::*;
use std::collections::VecDeque;
use crate::edge::EdgeIndex;

verus! {

/// The work queue of the simulation: edge addresses in arrival order.
///
/// One queue serves both phases of a tick; which phase an entry is meant for
/// is recorded on the edge, not in the queue.
pub struct EdgeUpdateList {
    pub v: VecDeque<EdgeIndex>,
}

impl View for EdgeUpdateList {
    type V = Seq<EdgeIndex>;

    open spec fn view(&self) -> Seq<EdgeIndex> {
        self.v@
    }
}

impl EdgeUpdateList {
    /// An empty queue with room for `capacity` entries.
    pub fn new(capacity: usize) -> (l: Self)
        ensures
            l@ == Seq::<EdgeIndex>::empty(),
    {
        Self { v: VecDeque::with_capacity(capacity) }
    }

    /// Takes the oldest entry, if there is one.
    pub fn pop(&mut self) -> (r: Option<EdgeIndex>)
        ensures
            old(self)@.len() == 0 ==> r is None && final(self)@ == old(self)@,
            old(self)@.len() > 0 ==> r == Some(old(self)@[0]) && final(self)@ == old(self)@.drop_first(),
    {
        self.v.pop_front()
    }

    /// Appends `index` behind every entry already queued.
    pub fn push(&mut self, index: EdgeIndex)
        ensures
            final(self)@ == old(self)@.push(index),
    {
        self.v.push_back(index);
    }

    /// Number of queued entries.
    pub fn size(&self) -> (n: usize)
        ensures
            n == self@.len(),
    {
        self.v.len()
    }
}

} // verus!
