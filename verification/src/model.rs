use vstd::prelude::*;
use crate::edge::{EdgeIndex, EdgeUpdateStatus};
use crate::lattice::{crack_triangles, edge_exists, receivers};
use crate::node::NodeIndex;

verus! {

/// The part of an edge that the simulation changes.
pub struct EdgeState {
    pub cracked: bool,
    pub status: EdgeUpdateStatus,
}

/// The simulation state as mathematics: the size of the lattice, the state
/// of each of its edges, and the work queue.
#[verifier::ext_equal]
pub struct LatticeState {
    pub rows: nat,
    pub cols: nat,
    pub edges: Map<EdgeIndex, EdgeState>,
    pub queue: Seq<EdgeIndex>,
}

impl LatticeState {
    /// Every queue entry from position `from` on names a fractured edge that
    /// is scheduled for propagation.
    pub open spec fn propagation_queued_from(self, from: int) -> bool {
        forall|j: int|
            from <= j < self.queue.len() ==> self.edges[#[trigger] self.queue[j]] == (EdgeState {
                cracked: true,
                status: EdgeUpdateStatus::PropogationUpdate,
            })
    }

    /// Every queue entry from position `from` on names an edge that is
    /// scheduled for the commit phase.
    pub open spec fn commit_queued_from(self, from: int) -> bool {
        forall|j: int|
            from <= j < self.queue.len() ==> self.edges[#[trigger] self.queue[j]].status
                == EdgeUpdateStatus::StressUpdate
    }

    /// No two queue entries from position `from` on name the same edge.
    pub open spec fn distinct_from(self, from: int) -> bool {
        forall|a: int, b: int| from <= a < b < self.queue.len() ==> self.queue[a] != self.queue[b]
    }

    /// The queue names no edge twice, and every edge that it names is
    /// scheduled for `status`.
    pub open spec fn queue_tidy(self, status: EdgeUpdateStatus) -> bool {
        &&& self.queue.no_duplicates()
        &&& forall|j: int| 0 <= j < self.queue.len() ==> self.edges[#[trigger] self.queue[j]].status == status
    }

    /// Whether the queue names edge `i` at a position from `lo` up to, not
    /// including, `hi`.
    pub open spec fn queued_between(self, i: EdgeIndex, lo: int, hi: int) -> bool {
        exists|j: int| lo <= j < hi && 0 <= j < self.queue.len() && #[trigger] self.queue[j] == i
    }

    /// The status of every edge says what the queue holds: the queue names
    /// no edge twice, every edge that it names is scheduled for `status`, and
    /// every edge that is scheduled for anything is named by it.
    pub open spec fn queue_exact(self, status: EdgeUpdateStatus) -> bool {
        &&& self.queue_tidy(status)
        &&& forall|i: EdgeIndex|
            #![trigger self.edges[i]]
            self.edges.dom().contains(i) && self.edges[i].status != EdgeUpdateStatus::NoUpdate
                ==> self.queued_between(i, 0, self.queue.len() as int)
    }

    /// The status of every edge says what the queue holds in the middle of
    /// a commit phase that has `from` entries left to visit: those entries
    /// wait for the commit, the entries behind them are fractured and wait
    /// for propagation, no edge is named twice, and every edge that is
    /// scheduled for anything is named.
    pub open spec fn committing(self, from: int) -> bool {
        &&& self.queue.no_duplicates()
        &&& forall|j: int|
            0 <= j < from && j < self.queue.len() ==> self.edges[#[trigger] self.queue[j]].status
                == EdgeUpdateStatus::StressUpdate
        &&& self.propagation_queued_from(from)
        &&& forall|i: EdgeIndex|
            #![trigger self.edges[i]]
            self.edges.dom().contains(i) && self.edges[i].status != EdgeUpdateStatus::NoUpdate
                ==> self.queued_between(i, 0, self.queue.len() as int)
    }

    /// The status of every edge says what the queue holds in the middle of
    /// a propagation phase that has `from` entries left to visit, while the
    /// edge `head`, if there is one, has been taken off the queue and is
    /// being visited.  The entries left to visit are different edges, each
    /// scheduled, and `head` is none of them; the entries behind them are
    /// different edges that wait for the commit; every edge that waits for
    /// the commit is named behind, and every edge but `head` that waits for
    /// propagation is named among those left to visit.
    pub open spec fn propagating(self, from: int, head: Option<EdgeIndex>) -> bool {
        &&& forall|a: int, b: int| 0 <= a < b < from && b < self.queue.len() ==> self.queue[a] != self.queue[b]
        &&& self.distinct_from(from)
        &&& self.commit_queued_from(from)
        &&& forall|j: int|
            0 <= j < from && j < self.queue.len() ==> self.edges[#[trigger] self.queue[j]].status
                != EdgeUpdateStatus::NoUpdate
        &&& forall|j: int| 0 <= j < from && j < self.queue.len() ==> Some(#[trigger] self.queue[j]) != head
        &&& forall|i: EdgeIndex|
            #![trigger self.edges[i]]
            self.edges.dom().contains(i) && self.edges[i].status == EdgeUpdateStatus::StressUpdate
                ==> self.queued_between(i, from, self.queue.len() as int)
        &&& forall|i: EdgeIndex|
            #![trigger self.edges[i]]
            self.edges.dom().contains(i) && self.edges[i].status == EdgeUpdateStatus::PropogationUpdate && Some(i)
                != head ==> self.queued_between(i, 0, from)
    }

    /// Every edge that is fractured in `self` is fractured in `later`.
    pub open spec fn cracks_kept_by(self, later: LatticeState) -> bool {
        forall|i: EdgeIndex|
            self.edges.dom().contains(i) && self.edges[i].cracked ==> (#[trigger] later.edges[i]).cracked
    }

    /// The state has an entry for exactly the edges of the lattice, and the
    /// queue names only such edges.
    pub open spec fn wf(self) -> bool {
        &&& forall|i: EdgeIndex| self.edges.dom().contains(i) <==> edge_exists(self.rows, self.cols, i)
        &&& forall|k: int| 0 <= k < self.queue.len() ==> edge_exists(self.rows, self.cols, #[trigger] self.queue[k])
    }

    /// Edge `i` is marked as waiting for the commit phase and joins the
    /// queue, unless it is marked so already.
    pub open spec fn schedule(self, i: EdgeIndex) -> LatticeState {
        if self.edges[i].status == EdgeUpdateStatus::StressUpdate {
            self
        } else {
            LatticeState {
                edges: self.edges.insert(
                    i,
                    EdgeState { cracked: self.edges[i].cracked, status: EdgeUpdateStatus::StressUpdate },
                ),
                queue: self.queue.push(i),
                ..self
            }
        }
    }

    /// The state with the oldest queue entry taken off.
    pub open spec fn dequeue(self) -> LatticeState {
        LatticeState { queue: self.queue.drop_first(), ..self }
    }

    /// The status of an edge in state `e` after a visit of the commit phase
    /// that found it not loaded: it leaves the schedule.  Only a fractured
    /// edge that waits for propagation keeps waiting, for the entry that it
    /// waits with is still in the queue.
    pub open spec fn settled_status(e: EdgeState) -> EdgeUpdateStatus {
        if e.cracked && e.status == EdgeUpdateStatus::PropogationUpdate {
            EdgeUpdateStatus::PropogationUpdate
        } else {
            EdgeUpdateStatus::NoUpdate
        }
    }

    /// One step of the commit phase: the oldest queue entry is taken off and
    /// the verdict `loaded` on its edge is taken in.  A loaded edge is
    /// fractured and queued for propagation; an edge that is not loaded
    /// leaves the schedule (see `settled_status`).  On an empty queue nothing
    /// changes.
    pub open spec fn commit_step(self, loaded: bool) -> LatticeState {
        let i = self.queue[0];
        let rest = self.queue.drop_first();
        if self.queue.len() == 0 {
            self
        } else if loaded {
            LatticeState {
                edges: self.edges.insert(
                    i,
                    EdgeState { cracked: true, status: EdgeUpdateStatus::PropogationUpdate },
                ),
                queue: rest.push(i),
                ..self
            }
        } else {
            LatticeState {
                edges: self.edges.insert(
                    i,
                    EdgeState { cracked: self.edges[i].cracked, status: Self::settled_status(self.edges[i]) },
                ),
                queue: rest,
                ..self
            }
        }
    }

    /// Whether the commit step on the verdict `loaded` fractures an edge:
    /// there is an edge to visit, it is loaded and it was intact.
    pub open spec fn cracks_next(self, loaded: bool) -> bool {
        self.queue.len() > 0 && loaded && !self.edges[self.queue[0]].cracked
    }

    /// The commit phase on the verdicts `loaded`, one per queue entry, oldest
    /// first.
    pub open spec fn commit_steps(self, loaded: Seq<bool>) -> LatticeState
        decreases loaded.len(),
    {
        if loaded.len() == 0 {
            self
        } else {
            self.commit_steps(loaded.drop_last()).commit_step(loaded.last())
        }
    }

    /// The corners of the triangles that the commit phase on the verdicts
    /// `loaded` reports: for each edge that fractures, in the order in which
    /// they do, the triangles on its two sides.
    pub open spec fn commit_triangles(self, loaded: Seq<bool>) -> Seq<NodeIndex>
        decreases loaded.len(),
    {
        if loaded.len() == 0 {
            seq![]
        } else {
            let before = self.commit_steps(loaded.drop_last());
            self.commit_triangles(loaded.drop_last()) + if before.cracks_next(loaded.last()) {
                crack_triangles(self.rows, self.cols, before.queue[0])
            } else {
                seq![]
            }
        }
    }

    /// The first `n` of the receivers `to` are scheduled, each if its flag in
    /// `shares` is set.
    pub open spec fn deliver(self, to: Seq<Option<EdgeIndex>>, shares: Seq<bool>, n: nat) -> LatticeState
        decreases n,
    {
        if n == 0 {
            self
        } else {
            let before = self.deliver(to, shares, (n - 1) as nat);
            if to[n - 1] is Some && shares[n - 1] {
                before.schedule(to[n - 1]->0)
            } else {
                before
            }
        }
    }

    /// Edge `i`, if it was scheduled for propagation, leaves the schedule.
    pub open spec fn settle(self, i: EdgeIndex) -> LatticeState {
        if self.edges[i].status == EdgeUpdateStatus::PropogationUpdate {
            LatticeState {
                edges: self.edges.insert(
                    i,
                    EdgeState { cracked: self.edges[i].cracked, status: EdgeUpdateStatus::NoUpdate },
                ),
                ..self
            }
        } else {
            self
        }
    }

    /// One step of the propagation phase: the oldest queue entry is taken
    /// off, each receiver of its edge whose flag in `shares` is set is
    /// scheduled for the commit phase, and the edge itself, if it was
    /// scheduled for propagation, leaves the schedule.  On an empty queue
    /// nothing changes.
    pub open spec fn propagate_step(self, shares: Seq<bool>) -> LatticeState
        recommends
            shares.len() == 4,
    {
        let i = self.queue[0];
        if self.queue.len() == 0 {
            self
        } else {
            self.dequeue().deliver(receivers(self.rows, self.cols, i), shares, 4).settle(i)
        }
    }

    /// The propagation phase on the flags `shares`, four per queue entry,
    /// oldest entry first.
    pub open spec fn propagate_steps(self, shares: Seq<Seq<bool>>) -> LatticeState
        decreases shares.len(),
    {
        if shares.len() == 0 {
            self
        } else {
            self.propagate_steps(shares.drop_last()).propagate_step(shares.last())
        }
    }
}

/// Scheduling an edge of the lattice keeps the state well formed and changes
/// no edge's fracture flag.  Where the edge already waits for the commit
/// phase, nothing changes at all; so to schedule it twice is to schedule it
/// once, and a tidy queue stays tidy.
pub proof fn lemma_schedule(s: LatticeState, i: EdgeIndex)
    requires
        s.wf(),
        edge_exists(s.rows, s.cols, i),
    ensures
        s.schedule(i).wf(),
        s.schedule(i).rows == s.rows,
        s.schedule(i).cols == s.cols,
        forall|j: EdgeIndex| (#[trigger] s.schedule(i).edges[j]).cracked == s.edges[j].cracked,
        s.edges[i].status == EdgeUpdateStatus::StressUpdate ==> s.schedule(i) == s,
        s.schedule(i).edges[i].status == EdgeUpdateStatus::StressUpdate,
        s.schedule(i).schedule(i) == s.schedule(i),
        s.queue_tidy(EdgeUpdateStatus::StressUpdate) ==> s.schedule(i).queue_tidy(EdgeUpdateStatus::StressUpdate),
        forall|from: int|
            0 <= from <= s.queue.len() && s.commit_queued_from(from) && s.distinct_from(from) ==> #[trigger] s.schedule(
                i,
            ).distinct_from(from),
{
}

/// One commit step keeps the state well formed, never mends a fracture, and
/// leaves behind the not yet visited entries only edges that are fractured
/// and scheduled for propagation.
pub proof fn lemma_commit_step(s: LatticeState, loaded: bool, from: int)
    requires
        s.wf(),
        0 < from <= s.queue.len(),
        s.propagation_queued_from(from),
    ensures
        s.commit_step(loaded).wf(),
        s.commit_step(loaded).rows == s.rows,
        s.commit_step(loaded).cols == s.cols,
        s.cracks_kept_by(s.commit_step(loaded)),
        s.commit_step(loaded).propagation_queued_from(from - 1),
        s.commit_step(loaded).queue.len() == s.queue.len() - 1 + (if loaded { 1int } else { 0int }),
        s.queue.no_duplicates() ==> s.commit_step(loaded).queue.no_duplicates(),
{
    let t = s.commit_step(loaded);
    let i = s.queue[0];
    assert(edge_exists(s.rows, s.cols, i));
    assert forall|k: int| 0 <= k < t.queue.len() implies edge_exists(t.rows, t.cols, #[trigger] t.queue[k]) by {
        if k < s.queue.len() - 1 {
            assert(t.queue[k] == s.queue[k + 1]);
        }
    }
    assert forall|j: int| from - 1 <= j < t.queue.len() implies t.edges[#[trigger] t.queue[j]] == (EdgeState {
        cracked: true,
        status: EdgeUpdateStatus::PropogationUpdate,
    }) by {
        if j < s.queue.len() - 1 {
            assert(t.queue[j] == s.queue[j + 1]);
        }
    }
}

/// The commit phase, run on as many verdicts as the queue has entries or
/// fewer, keeps the state well formed and never mends a fracture; every
/// entry behind those not yet visited names a fractured edge that is
/// scheduled for propagation.
pub proof fn lemma_commit_steps(s: LatticeState, loaded: Seq<bool>)
    requires
        s.wf(),
        loaded.len() <= s.queue.len(),
    ensures
        s.commit_steps(loaded).wf(),
        s.commit_steps(loaded).rows == s.rows,
        s.commit_steps(loaded).cols == s.cols,
        s.cracks_kept_by(s.commit_steps(loaded)),
        s.commit_steps(loaded).propagation_queued_from(s.queue.len() - loaded.len()),
        s.queue.len() - loaded.len() <= s.commit_steps(loaded).queue.len() <= s.queue.len(),
        s.queue.no_duplicates() ==> s.commit_steps(loaded).queue.no_duplicates(),
        s.queue.no_duplicates() && loaded.len() == s.queue.len() ==> s.commit_steps(loaded).queue_tidy(
            EdgeUpdateStatus::PropogationUpdate,
        ),
    decreases loaded.len(),
{
    if loaded.len() > 0 {
        let before = s.commit_steps(loaded.drop_last());
        lemma_commit_steps(s, loaded.drop_last());
        lemma_commit_step(before, loaded.last(), s.queue.len() - loaded.len() + 1);
    }
}

/// The entries of `queue` whose verdict in `loaded` says loaded, in the order
/// of the queue.
pub open spec fn loaded_entries(queue: Seq<EdgeIndex>, loaded: Seq<bool>) -> Seq<EdgeIndex>
    decreases loaded.len(),
{
    if loaded.len() == 0 {
        seq![]
    } else {
        loaded_entries(queue, loaded.drop_last()) + if loaded.last() {
            seq![queue[loaded.len() - 1]]
        } else {
            seq![]
        }
    }
}

/// What the commit phase leaves in the queue: the entries not yet visited,
/// and behind them the visited entries that were loaded, in the order of
/// their visits.  After a whole phase the queue holds the loaded entries and
/// nothing else; if none was loaded, it is empty.
pub proof fn lemma_commit_queue(s: LatticeState, loaded: Seq<bool>)
    requires
        loaded.len() <= s.queue.len(),
    ensures
        s.commit_steps(loaded).queue == s.queue.skip(loaded.len() as int) + loaded_entries(s.queue, loaded),
        loaded.len() == s.queue.len() ==> s.commit_steps(loaded).queue == loaded_entries(s.queue, loaded),
        (forall|k: int| 0 <= k < loaded.len() ==> !loaded[k]) ==> loaded_entries(s.queue, loaded).len() == 0,
    decreases loaded.len(),
{
    if loaded.len() > 0 {
        let shorter = loaded.drop_last();
        let before = s.commit_steps(shorter);
        lemma_commit_queue(s, shorter);
        let visited = loaded_entries(s.queue, shorter);
        assert(before.queue == s.queue.skip(shorter.len() as int) + visited);
        assert(before.queue[0] == s.queue[shorter.len() as int]);
        assert(before.queue.drop_first() =~= s.queue.skip(loaded.len() as int) + visited);
        assert(s.commit_steps(loaded).queue =~= s.queue.skip(loaded.len() as int) + loaded_entries(
            s.queue,
            loaded,
        ));
    } else {
        assert(s.queue.skip(0) =~= s.queue);
    }
    if loaded.len() == s.queue.len() {
        assert(s.queue.skip(loaded.len() as int) =~= Seq::<EdgeIndex>::empty());
    }
}

/// No edge that the commit phase has visited still waits for the commit,
/// and the phase makes no edge wait for it.
pub proof fn lemma_commit_unmarks(s: LatticeState, loaded: Seq<bool>)
    requires
        loaded.len() <= s.queue.len(),
    ensures
        forall|j: int|
            0 <= j < loaded.len() ==> s.commit_steps(loaded).edges[#[trigger] s.queue[j]].status
                != EdgeUpdateStatus::StressUpdate,
        forall|e: EdgeIndex|
            s.edges[e].status != EdgeUpdateStatus::StressUpdate ==> (#[trigger] s.commit_steps(loaded).edges[e]).status
                != EdgeUpdateStatus::StressUpdate,
    decreases loaded.len(),
{
    if loaded.len() > 0 {
        let shorter = loaded.drop_last();
        let before = s.commit_steps(shorter);
        let after = s.commit_steps(loaded);
        lemma_commit_unmarks(s, shorter);
        lemma_commit_queue(s, shorter);
        assert(before.queue[0] == s.queue[shorter.len() as int]);
        assert(after == before.commit_step(loaded.last()));
        assert forall|j: int| 0 <= j < loaded.len() implies after.edges[#[trigger] s.queue[j]].status
            != EdgeUpdateStatus::StressUpdate by {
            if j < shorter.len() {
                assert(before.edges[s.queue[j]].status != EdgeUpdateStatus::StressUpdate);
            }
        }
        assert forall|e: EdgeIndex| s.edges[e].status != EdgeUpdateStatus::StressUpdate implies (#[trigger] after.edges[e]).status
            != EdgeUpdateStatus::StressUpdate by {
            assert(before.edges[e].status != EdgeUpdateStatus::StressUpdate);
        }
    }
}

/// Delivering shares keeps the state well formed and changes no edge's
/// fracture flag; what it appends to the queue is scheduled for the commit
/// phase, and so stays whatever was so scheduled behind `from`.
pub proof fn lemma_deliver(s: LatticeState, to: Seq<Option<EdgeIndex>>, shares: Seq<bool>, n: nat, from: int)
    requires
        s.wf(),
        n <= to.len(),
        n <= shares.len(),
        forall|k: int| 0 <= k < n ==> ((#[trigger] to[k]) matches Some(r) ==> edge_exists(s.rows, s.cols, r)),
        0 <= from <= s.queue.len(),
        s.commit_queued_from(from),
    ensures
        s.deliver(to, shares, n).wf(),
        s.deliver(to, shares, n).rows == s.rows,
        s.deliver(to, shares, n).cols == s.cols,
        forall|j: EdgeIndex| (#[trigger] s.deliver(to, shares, n).edges[j]).cracked == s.edges[j].cracked,
        s.deliver(to, shares, n).commit_queued_from(from),
        s.deliver(to, shares, n).queue.len() >= s.queue.len(),
        forall|j: int| 0 <= j < s.queue.len() ==> #[trigger] s.deliver(to, shares, n).queue[j] == s.queue[j],
        forall|j: EdgeIndex|
            s.edges[j].status == EdgeUpdateStatus::StressUpdate ==> (#[trigger] s.deliver(
                to,
                shares,
                n,
            ).edges[j]).status == EdgeUpdateStatus::StressUpdate,
        s.distinct_from(from) ==> s.deliver(to, shares, n).distinct_from(from),
    decreases n,
{
    if n > 0 {
        let before = s.deliver(to, shares, (n - 1) as nat);
        lemma_deliver(s, to, shares, (n - 1) as nat, from);
        if to[n - 1] is Some && shares[n - 1] {
            lemma_schedule(before, to[n - 1]->0);
        }
    }
}

/// One propagation step keeps the state well formed and changes no edge's
/// fracture flag; behind the not yet visited entries the queue holds only
/// edges that are scheduled for the commit phase.
pub proof fn lemma_propagate_step(s: LatticeState, shares: Seq<bool>, from: int)
    requires
        s.wf(),
        shares.len() == 4,
        0 < from <= s.queue.len(),
        s.commit_queued_from(from),
    ensures
        s.propagate_step(shares).wf(),
        s.propagate_step(shares).rows == s.rows,
        s.propagate_step(shares).cols == s.cols,
        forall|j: EdgeIndex| (#[trigger] s.propagate_step(shares).edges[j]).cracked == s.edges[j].cracked,
        s.propagate_step(shares).commit_queued_from(from - 1),
        s.propagate_step(shares).queue.len() >= s.queue.len() - 1,
        s.distinct_from(from) ==> s.propagate_step(shares).distinct_from(from - 1),
{
    let i = s.queue[0];
    let to = receivers(s.rows, s.cols, i);
    let popped = s.dequeue();
    assert(edge_exists(s.rows, s.cols, i));
    assert forall|k: int| 0 <= k < popped.queue.len() implies edge_exists(
        popped.rows,
        popped.cols,
        #[trigger] popped.queue[k],
    ) by {
        assert(popped.queue[k] == s.queue[k + 1]);
    }
    assert forall|j: int| from - 1 <= j < popped.queue.len() implies popped.edges[#[trigger] popped.queue[j]].status
        == EdgeUpdateStatus::StressUpdate by {
        assert(popped.queue[j] == s.queue[j + 1]);
    }
    lemma_deliver(popped, to, shares, 4, from - 1);
}

/// The propagation phase, run on flags for as many entries as the queue has
/// or fewer, keeps the state well formed and changes no edge's fracture
/// flag; every entry behind those not yet visited names an edge that is
/// scheduled for the commit phase.
pub proof fn lemma_propagate_steps(s: LatticeState, shares: Seq<Seq<bool>>)
    requires
        s.wf(),
        shares.len() <= s.queue.len(),
        forall|k: int| 0 <= k < shares.len() ==> (#[trigger] shares[k]).len() == 4,
    ensures
        s.propagate_steps(shares).wf(),
        s.propagate_steps(shares).rows == s.rows,
        s.propagate_steps(shares).cols == s.cols,
        forall|j: EdgeIndex| (#[trigger] s.propagate_steps(shares).edges[j]).cracked == s.edges[j].cracked,
        s.propagate_steps(shares).commit_queued_from(s.queue.len() - shares.len()),
        s.propagate_steps(shares).queue.len() >= s.queue.len() - shares.len(),
        s.propagate_steps(shares).distinct_from(s.queue.len() - shares.len()),
        shares.len() == s.queue.len() ==> s.propagate_steps(shares).queue_tidy(EdgeUpdateStatus::StressUpdate),
    decreases shares.len(),
{
    if shares.len() > 0 {
        let before = s.propagate_steps(shares.drop_last());
        lemma_propagate_steps(s, shares.drop_last());
        lemma_propagate_step(before, shares.last(), s.queue.len() - shares.len() + 1);
    }
}

/// One more verdict extends the commit phase by one step, and its report
/// by the triangles of the edge that fractures in that step, if one does.
pub proof fn lemma_commit_push(s: LatticeState, loaded: Seq<bool>, verdict: bool)
    ensures
        s.commit_steps(loaded.push(verdict)) == s.commit_steps(loaded).commit_step(verdict),
        s.commit_triangles(loaded.push(verdict)) == s.commit_triangles(loaded) + (if s.commit_steps(
            loaded,
        ).cracks_next(verdict) {
            crack_triangles(s.rows, s.cols, s.commit_steps(loaded).queue[0])
        } else {
            seq![]
        }),
{
    assert(loaded.push(verdict).drop_last() =~= loaded);
}

/// One more row of flags extends the propagation phase by one step.
pub proof fn lemma_propagate_push(s: LatticeState, shares: Seq<Seq<bool>>, given: Seq<bool>)
    ensures
        s.propagate_steps(shares.push(given)) == s.propagate_steps(shares).propagate_step(given),
{
    assert(shares.push(given).drop_last() =~= shares);
}

/// The commit phase on an empty queue, which hears no verdict, changes
/// nothing and reports nothing.
pub proof fn lemma_commit_nothing(s: LatticeState, loaded: Seq<bool>)
    requires
        loaded.len() == s.queue.len(),
        s.queue.len() == 0,
    ensures
        s.commit_steps(loaded) == s,
        s.commit_triangles(loaded) == Seq::<NodeIndex>::empty(),
{
}

/// The propagation phase on an empty queue changes nothing.
pub proof fn lemma_propagate_nothing(s: LatticeState, shares: Seq<Seq<bool>>)
    requires
        shares.len() == s.queue.len(),
        s.queue.len() == 0,
    ensures
        s.propagate_steps(shares) == s,
{
}

/// Scheduling an edge keeps the status of every edge in step with the
/// queue.
pub proof fn lemma_schedule_exact(s: LatticeState, i: EdgeIndex)
    requires
        s.wf(),
        edge_exists(s.rows, s.cols, i),
        s.queue_exact(EdgeUpdateStatus::StressUpdate),
    ensures
        s.schedule(i).queue_exact(EdgeUpdateStatus::StressUpdate),
{
    let t = s.schedule(i);
    lemma_schedule(s, i);
    if s.edges[i].status != EdgeUpdateStatus::StressUpdate {
        assert forall|e: EdgeIndex|
            #![trigger t.edges[e]]
            t.edges.dom().contains(e) && t.edges[e].status != EdgeUpdateStatus::NoUpdate implies t.queued_between(
            e,
            0,
            t.queue.len() as int,
        ) by {
            if e == i {
                assert(t.queue[s.queue.len() as int] == i);
            } else {
                assert(s.edges[e] == t.edges[e]);
                let j = choose|j: int| 0 <= j < s.queue.len() && s.queue[j] == e;
                assert(t.queue[j] == e);
            }
        }
    }
}

/// One commit step keeps the status of every edge in step with the queue.
pub proof fn lemma_commit_step_exact(s: LatticeState, loaded: bool, from: int)
    requires
        s.wf(),
        0 < from <= s.queue.len(),
        s.committing(from),
    ensures
        s.commit_step(loaded).committing(from - 1),
{
    let t = s.commit_step(loaded);
    let h = s.queue[0];
    lemma_commit_step(s, loaded, from);
    assert forall|j: int| 0 <= j < from - 1 && j < t.queue.len() implies t.edges[#[trigger] t.queue[j]].status
        == EdgeUpdateStatus::StressUpdate by {
        assert(t.queue[j] == s.queue[j + 1]);
        assert(s.queue[j + 1] != s.queue[0]);
    }
    assert forall|e: EdgeIndex|
        #![trigger t.edges[e]]
        t.edges.dom().contains(e) && t.edges[e].status != EdgeUpdateStatus::NoUpdate implies t.queued_between(
        e,
        0,
        t.queue.len() as int,
    ) by {
        if e == h {
            assert(loaded);
            assert(t.queue[t.queue.len() - 1] == h);
        } else {
            assert(s.edges[e] == t.edges[e]);
            let j = choose|j: int| 0 <= j < s.queue.len() && s.queue[j] == e;
            assert(t.queue[j - 1] == e);
        }
    }
}

/// The commit phase keeps the status of every edge in step with the queue:
/// run on a queue whose entries all wait for the commit, it leaves a queue
/// whose entries all wait for propagation, and no edge is scheduled that the
/// queue does not name.
pub proof fn lemma_commit_steps_exact(s: LatticeState, loaded: Seq<bool>)
    requires
        s.wf(),
        loaded.len() <= s.queue.len(),
        s.queue_exact(EdgeUpdateStatus::StressUpdate),
    ensures
        s.commit_steps(loaded).committing(s.queue.len() - loaded.len()),
        loaded.len() == s.queue.len() ==> s.commit_steps(loaded).queue_exact(EdgeUpdateStatus::PropogationUpdate),
    decreases loaded.len(),
{
    if loaded.len() > 0 {
        let before = s.commit_steps(loaded.drop_last());
        lemma_commit_steps(s, loaded.drop_last());
        lemma_commit_steps_exact(s, loaded.drop_last());
        lemma_commit_step_exact(before, loaded.last(), s.queue.len() - loaded.len() + 1);
    }
}

/// Scheduling an edge in the middle of a propagation phase keeps the status
/// of every edge in step with the queue.
pub proof fn lemma_schedule_propagating(s: LatticeState, i: EdgeIndex, from: int, head: Option<EdgeIndex>)
    requires
        s.wf(),
        edge_exists(s.rows, s.cols, i),
        0 <= from <= s.queue.len(),
        s.propagating(from, head),
    ensures
        s.schedule(i).propagating(from, head),
{
    let t = s.schedule(i);
    lemma_schedule(s, i);
    if s.edges[i].status != EdgeUpdateStatus::StressUpdate {
        let n = s.queue.len() as int;
        assert forall|a: int, b: int| from <= a < b < t.queue.len() implies t.queue[a] != t.queue[b] by {
            if b == n {
                assert(t.queue[a] == s.queue[a]);
                assert(s.edges[s.queue[a]].status == EdgeUpdateStatus::StressUpdate);
            } else {
                assert(t.queue[a] == s.queue[a] && t.queue[b] == s.queue[b]);
            }
        }
        assert forall|j: int| from <= j < t.queue.len() implies t.edges[#[trigger] t.queue[j]].status
            == EdgeUpdateStatus::StressUpdate by {
            if j < n {
                assert(t.queue[j] == s.queue[j]);
            }
        }
        assert forall|j: int| 0 <= j < from && j < t.queue.len() implies t.edges[#[trigger] t.queue[j]].status
            != EdgeUpdateStatus::NoUpdate && Some(t.queue[j]) != head by {
            assert(t.queue[j] == s.queue[j]);
        }
        assert forall|e: EdgeIndex|
            #![trigger t.edges[e]]
            t.edges.dom().contains(e) && t.edges[e].status == EdgeUpdateStatus::StressUpdate implies t.queued_between(
            e,
            from,
            t.queue.len() as int,
        ) by {
            if e == i {
                assert(t.queue[n] == i);
            } else {
                assert(s.edges[e] == t.edges[e]);
                let j = choose|j: int| from <= j < n && 0 <= j < s.queue.len() && s.queue[j] == e;
                assert(t.queue[j] == e);
            }
        }
        assert forall|e: EdgeIndex|
            #![trigger t.edges[e]]
            t.edges.dom().contains(e) && t.edges[e].status == EdgeUpdateStatus::PropogationUpdate && Some(e)
                != head implies t.queued_between(e, 0, from) by {
            assert(e != i);
            assert(s.edges[e] == t.edges[e]);
            let j = choose|j: int| 0 <= j < from && 0 <= j < s.queue.len() && s.queue[j] == e;
            assert(t.queue[j] == e);
        }
        assert forall|a: int, b: int| 0 <= a < b < from && b < t.queue.len() implies t.queue[a] != t.queue[b] by {
            assert(t.queue[a] == s.queue[a] && t.queue[b] == s.queue[b]);
        }
    }
}

/// Delivering shares in the middle of a propagation phase keeps the status
/// of every edge in step with the queue.
pub proof fn lemma_deliver_propagating(
    s: LatticeState,
    to: Seq<Option<EdgeIndex>>,
    shares: Seq<bool>,
    n: nat,
    from: int,
    head: Option<EdgeIndex>,
)
    requires
        s.wf(),
        n <= to.len(),
        n <= shares.len(),
        forall|k: int| 0 <= k < n ==> ((#[trigger] to[k]) matches Some(r) ==> edge_exists(s.rows, s.cols, r)),
        0 <= from <= s.queue.len(),
        s.propagating(from, head),
    ensures
        s.deliver(to, shares, n).propagating(from, head),
    decreases n,
{
    if n > 0 {
        let before = s.deliver(to, shares, (n - 1) as nat);
        lemma_deliver(s, to, shares, (n - 1) as nat, from);
        lemma_deliver_propagating(s, to, shares, (n - 1) as nat, from, head);
        if to[n - 1] is Some && shares[n - 1] {
            lemma_schedule_propagating(before, to[n - 1]->0, from, head);
        }
    }
}

/// One propagation step keeps the status of every edge in step with the
/// queue.
pub proof fn lemma_propagate_step_exact(s: LatticeState, shares: Seq<bool>, from: int)
    requires
        s.wf(),
        shares.len() == 4,
        0 < from <= s.queue.len(),
        s.propagating(from, None),
    ensures
        s.propagate_step(shares).propagating(from - 1, None),
{
    let h = s.queue[0];
    let to = receivers(s.rows, s.cols, h);
    let popped = s.dequeue();
    assert(popped.wf()) by {
        assert forall|k: int| 0 <= k < popped.queue.len() implies edge_exists(
            popped.rows,
            popped.cols,
            #[trigger] popped.queue[k],
        ) by {
            assert(popped.queue[k] == s.queue[k + 1]);
        }
    }
    assert(popped.propagating(from - 1, Some(h))) by {
        assert forall|a: int, b: int| 0 <= a < b < from - 1 && b < popped.queue.len() implies popped.queue[a]
            != popped.queue[b] by {
            assert(popped.queue[a] == s.queue[a + 1] && popped.queue[b] == s.queue[b + 1]);
        }
        assert forall|a: int, b: int| from - 1 <= a < b < popped.queue.len() implies popped.queue[a]
            != popped.queue[b] by {
            assert(popped.queue[a] == s.queue[a + 1] && popped.queue[b] == s.queue[b + 1]);
        }
        assert forall|j: int| from - 1 <= j < popped.queue.len() implies popped.edges[#[trigger] popped.queue[j]].status
            == EdgeUpdateStatus::StressUpdate by {
            assert(popped.queue[j] == s.queue[j + 1]);
        }
        assert forall|j: int| 0 <= j < from - 1 && j < popped.queue.len() implies popped.edges[#[trigger] popped.queue[j]].status
            != EdgeUpdateStatus::NoUpdate && Some(popped.queue[j]) != Some(h) by {
            assert(popped.queue[j] == s.queue[j + 1]);
            assert(s.queue[0] != s.queue[j + 1]);
        }
        assert forall|e: EdgeIndex|
            #![trigger popped.edges[e]]
            popped.edges.dom().contains(e) && popped.edges[e].status == EdgeUpdateStatus::StressUpdate implies popped.queued_between(
            e,
            from - 1,
            popped.queue.len() as int,
        ) by {
            let j = choose|j: int| from <= j < s.queue.len() && 0 <= j < s.queue.len() && s.queue[j] == e;
            assert(popped.queue[j - 1] == e);
        }
        assert forall|e: EdgeIndex|
            #![trigger popped.edges[e]]
            popped.edges.dom().contains(e) && popped.edges[e].status == EdgeUpdateStatus::PropogationUpdate && Some(
                e,
            ) != Some(h) implies popped.queued_between(e, 0, from - 1) by {
            let j = choose|j: int| 0 <= j < from && 0 <= j < s.queue.len() && s.queue[j] == e;
            assert(popped.queue[j - 1] == e);
        }
    }
    lemma_deliver(popped, to, shares, 4, from - 1);
    lemma_deliver_propagating(popped, to, shares, 4, from - 1, Some(h));
    let delivered = popped.deliver(to, shares, 4);
    let t = delivered.settle(h);
    assert(t.propagating(from - 1, None)) by {
        assert forall|j: int| 0 <= j < from - 1 && j < t.queue.len() implies t.edges[#[trigger] t.queue[j]].status
            != EdgeUpdateStatus::NoUpdate by {
            assert(Some(delivered.queue[j]) != Some(h));
        }
        assert forall|j: int| from - 1 <= j < t.queue.len() implies t.edges[#[trigger] t.queue[j]].status
            == EdgeUpdateStatus::StressUpdate by {
            assert(delivered.edges[delivered.queue[j]].status == EdgeUpdateStatus::StressUpdate);
        }
        assert forall|e: EdgeIndex|
            #![trigger t.edges[e]]
            t.edges.dom().contains(e) && t.edges[e].status == EdgeUpdateStatus::StressUpdate implies t.queued_between(
            e,
            from - 1,
            t.queue.len() as int,
        ) by {
            assert(delivered.edges[e].status == EdgeUpdateStatus::StressUpdate);
        }
        assert forall|e: EdgeIndex|
            #![trigger t.edges[e]]
            t.edges.dom().contains(e) && t.edges[e].status == EdgeUpdateStatus::PropogationUpdate implies t.queued_between(
            e,
            0,
            from - 1,
        ) by {
            assert(e != h);
            assert(delivered.edges[e] == t.edges[e]);
        }
    }
}

/// The propagation phase keeps the status of every edge in step with the
/// queue: run on a queue whose entries all wait for propagation, it leaves a
/// queue whose entries all wait for the commit, and no edge is scheduled that
/// the queue does not name.
pub proof fn lemma_propagate_steps_exact(s: LatticeState, shares: Seq<Seq<bool>>)
    requires
        s.wf(),
        shares.len() <= s.queue.len(),
        forall|k: int| 0 <= k < shares.len() ==> (#[trigger] shares[k]).len() == 4,
        s.queue_exact(EdgeUpdateStatus::PropogationUpdate),
    ensures
        s.propagate_steps(shares).propagating(s.queue.len() - shares.len(), None),
        shares.len() == s.queue.len() ==> s.propagate_steps(shares).queue_exact(EdgeUpdateStatus::StressUpdate),
    decreases shares.len(),
{
    if shares.len() > 0 {
        let before = s.propagate_steps(shares.drop_last());
        lemma_propagate_steps(s, shares.drop_last());
        lemma_propagate_steps_exact(s, shares.drop_last());
        lemma_propagate_step_exact(before, shares.last(), s.queue.len() - shares.len() + 1);
    }
    if shares.len() == s.queue.len() {
        lemma_propagate_steps(s, shares);
    }
}

} // verus!
