use vstd::prelude::*;
use crate::edge::{EdgeIndex, EdgeUpdateStatus};
use crate::graph::Graph;
use crate::lattice::receivers;
use crate::model::{
    lemma_commit_nothing, lemma_commit_push, lemma_commit_steps, lemma_commit_steps_exact,
    lemma_commit_unmarks,
    lemma_propagate_nothing, lemma_propagate_push, lemma_propagate_steps,
    lemma_propagate_steps_exact, LatticeState,
};
use crate::node::NodeIndex;

verus! {

/// Whether the verdict `loaded[k]` is one that `model` may give when it is
/// asked, on the state that the verdicts before it lead to from `s`, about
/// the edge at the head of the queue and whether that edge is fractured.
pub open spec fn verdict_heard_at<M: Fn(EdgeIndex, bool) -> bool>(
    s: LatticeState,
    model: M,
    loaded: Seq<bool>,
    k: int,
) -> bool {
    verdict_answer(s.commit_steps(loaded.take(k)), model, loaded[k])
}

/// Whether `verdict` is an answer that `model` may give when it is asked in
/// state `at` about the edge at the head of the queue.
pub open spec fn verdict_answer<M: Fn(EdgeIndex, bool) -> bool>(at: LatticeState, model: M, verdict: bool) -> bool {
    call_ensures(model, (at.queue[0], at.edges[at.queue[0]].cracked), verdict)
}

/// Whether each of the verdicts `loaded` is one that `model` may give when it
/// is asked, step by step through the commit phase from state `s`.
pub open spec fn commit_heard<M: Fn(EdgeIndex, bool) -> bool>(s: LatticeState, model: M, loaded: Seq<bool>) -> bool {
    forall|k: int| 0 <= k < loaded.len() ==> #[trigger] verdict_heard_at(s, model, loaded, k)
}

/// Whether `given` is an answer that `model` may give when it is asked in
/// state `at` about the edge at the head of the queue, whose receivers are
/// `to`.
pub open spec fn share_answer<S: Fn(EdgeIndex, [Option<EdgeIndex>; 4]) -> [bool; 4]>(
    at: LatticeState,
    model: S,
    to: [Option<EdgeIndex>; 4],
    given: [bool; 4],
) -> bool {
    &&& to@ == receivers(at.rows, at.cols, at.queue[0])
    &&& call_ensures(model, (at.queue[0], to), given)
}

/// Whether the flag row `shares[k]` is one that `model` may give when it is
/// asked, on the state that the rows before it lead to from `s`, about the
/// edge at the head of the queue and its receivers.
pub open spec fn share_heard_at<S: Fn(EdgeIndex, [Option<EdgeIndex>; 4]) -> [bool; 4]>(
    s: LatticeState,
    model: S,
    shares: Seq<Seq<bool>>,
    k: int,
) -> bool {
    exists|to: [Option<EdgeIndex>; 4], given: [bool; 4]| #[trigger]
        share_answer(s.propagate_steps(shares.take(k)), model, to, given) && given@ == shares[k]
}

/// Whether each of the flag rows `shares` is one that `model` may give when
/// it is asked, step by step through the propagation phase from state `s`.
pub open spec fn shares_heard<S: Fn(EdgeIndex, [Option<EdgeIndex>; 4]) -> [bool; 4]>(
    s: LatticeState,
    model: S,
    shares: Seq<Seq<bool>>,
) -> bool {
    forall|k: int| 0 <= k < shares.len() ==> #[trigger] share_heard_at(s, model, shares, k)
}

/// Whether every row of `shares` has four flags, one per receiver.
pub open spec fn four_each(shares: Seq<Seq<bool>>) -> bool {
    forall|k: int| 0 <= k < shares.len() ==> (#[trigger] shares[k]).len() == 4
}

/// Whether one tick leads from `before` to `after`: the commit phase on the
/// verdicts `loaded`, then the propagation phase on the flag rows `shares`,
/// each answer being one that its model may give.
pub open spec fn tick<M: Fn(EdgeIndex, bool) -> bool, S: Fn(EdgeIndex, [Option<EdgeIndex>; 4]) -> [bool; 4]>(
    before: LatticeState,
    after: LatticeState,
    commit_model: M,
    share_model: S,
    loaded: Seq<bool>,
    shares: Seq<Seq<bool>>,
) -> bool {
    let committed = before.commit_steps(loaded);
    &&& loaded.len() == before.queue.len()
    &&& commit_heard(before, commit_model, loaded)
    &&& shares.len() == committed.queue.len()
    &&& four_each(shares)
    &&& shares_heard(committed, share_model, shares)
    &&& after == committed.propagate_steps(shares)
}

/// A further verdict of `model`, given on the state that the verdicts
/// `loaded` lead to, extends what was heard of it.
proof fn lemma_commit_heard_push<M: Fn(EdgeIndex, bool) -> bool>(
    s: LatticeState,
    model: M,
    loaded: Seq<bool>,
    verdict: bool,
)
    requires
        commit_heard(s, model, loaded),
        verdict_answer(s.commit_steps(loaded), model, verdict),
    ensures
        commit_heard(s, model, loaded.push(verdict)),
{
    let longer = loaded.push(verdict);
    assert forall|j: int| 0 <= j < longer.len() implies #[trigger] verdict_heard_at(s, model, longer, j) by {
        if j < loaded.len() {
            assert(verdict_heard_at(s, model, loaded, j));
            assert(longer.take(j) =~= loaded.take(j));
            assert(longer[j] == loaded[j]);
        } else {
            assert(longer.take(j) =~= loaded);
        }
    }
}

/// A further answer of `model`, given on the state that the flag rows
/// `shares` lead to, extends what was heard of it.
proof fn lemma_shares_heard_push<S: Fn(EdgeIndex, [Option<EdgeIndex>; 4]) -> [bool; 4]>(
    s: LatticeState,
    model: S,
    shares: Seq<Seq<bool>>,
    to: [Option<EdgeIndex>; 4],
    given: [bool; 4],
)
    requires
        shares_heard(s, model, shares),
        share_answer(s.propagate_steps(shares), model, to, given),
    ensures
        shares_heard(s, model, shares.push(given@)),
{
    let longer = shares.push(given@);
    assert forall|j: int| 0 <= j < longer.len() implies #[trigger] share_heard_at(s, model, longer, j) by {
        if j < shares.len() {
            assert(share_heard_at(s, model, shares, j));
            assert(longer.take(j) =~= shares.take(j));
            assert(longer[j] == shares[j]);
        } else {
            assert(longer.take(j) =~= shares);
            assert(share_answer(s.propagate_steps(longer.take(j)), model, to, given) && given@ == longer[j]);
        }
    }
}

impl Graph {
    /// The commit phase with a collector that is always there; `collect` says
    /// whether triangles are reported to it.
    fn commit_phase<M: Fn(EdgeIndex, bool) -> bool>(&mut self, model: M, out: &mut Vec<NodeIndex>, collect: bool) -> (loaded:
        Ghost<Seq<bool>>)
        requires
            old(self).wf(),
            forall|e: EdgeIndex, c: bool| model.requires((e, c)),
        ensures
            final(self).wf(),
            loaded@.len() == old(self)@.queue.len(),
            commit_heard(old(self)@, model, loaded@),
            final(self)@ == old(self)@.commit_steps(loaded@),
            final(out)@ == old(out)@ + (if collect {
                old(self)@.commit_triangles(loaded@)
            } else {
                Seq::<NodeIndex>::empty()
            }),
    {
        let ghost before = self@;
        proof {
            self.lemma_view_wf();
        }
        let update_n = self.get_update_amt();
        let ghost mut loaded: Seq<bool> = Seq::empty();
        let mut k: usize = 0;
        while k < update_n
            invariant
                k <= update_n,
                update_n == before.queue.len(),
                before.wf(),
                self.wf(),
                forall|e: EdgeIndex, c: bool| model.requires((e, c)),
                loaded.len() == k,
                commit_heard(before, model, loaded),
                self@ == before.commit_steps(loaded),
                out@ == old(out)@ + if collect {
                    before.commit_triangles(loaded)
                } else {
                    Seq::<NodeIndex>::empty()
                },
            decreases update_n - k,
        {
            proof {
                lemma_commit_steps(before, loaded);
            }
            match self.next_update() {
                Some(i) => {
                    let cracked = match self.get_edge(i) {
                        Some(e) => e.cracked,
                        None => false,
                    };
                    let verdict = model(i, cracked);
                    proof {
                        assert(verdict_answer(self@, model, verdict));
                        lemma_commit_heard_push(before, model, loaded, verdict);
                        lemma_commit_push(before, loaded, verdict);
                    }
                    let newly_cracked = self.commit_next(verdict);
                    if newly_cracked && collect {
                        self.collect_triangles(i, out);
                    }
                    proof {
                        loaded = loaded.push(verdict);
                    }
                },
                None => {},
            }
            k = k + 1;
        }
        Ghost(loaded)
    }

    /// The commit phase: visits the entries that the queue holds at the call,
    /// oldest first, and no entry that joins the queue meanwhile.  For each it
    /// asks `model`, with the edge's address and whether the edge is
    /// fractured, for the verdict on the commit of the edge's pending stress,
    /// and takes the verdict in as `commit_next` does.  Where an edge
    /// fractures and `triangle_update_list` is given, the corners of the
    /// triangles on its two sides are appended to it.
    ///
    /// On an empty queue nothing changes.  No fracture is ever mended.
    /// Afterwards the queue holds only fractured edges that are scheduled for
    /// propagation, and no edge that was visited still waits for the commit,
    /// so that a later stimulus queues it again.  Where before the call the
    /// status of every edge said what the queue held, it does so afterwards:
    /// an edge is scheduled for propagation if the queue names it, and
    /// unscheduled if not.
    pub fn update_graph_edge_stresses<M: Fn(EdgeIndex, bool) -> bool>(
        &mut self,
        model: M,
        triangle_update_list: Option<&mut Vec<NodeIndex>>,
    )
        requires
            old(self).wf(),
            forall|e: EdgeIndex, c: bool| model.requires((e, c)),
        ensures
            final(self).wf(),
            exists|loaded: Seq<bool>|
                (loaded.len() == old(self)@.queue.len() && #[trigger] commit_heard(old(self)@, model, loaded)
                    && final(self)@ == old(self)@.commit_steps(loaded) && (triangle_update_list matches Some(
                    l,
                ) ==> final(l)@ == l@ + old(self)@.commit_triangles(loaded))),
            old(self)@.queue.len() == 0 ==> final(self)@ == old(self)@,
            old(self)@.queue.len() == 0 ==> (triangle_update_list matches Some(l) ==> final(l)@ == l@),
            old(self)@.cracks_kept_by(final(self)@),
            final(self)@.propagation_queued_from(0),
            final(self)@.queue.len() <= old(self)@.queue.len(),
            old(self)@.queue.no_duplicates() ==> final(self)@.queue_tidy(EdgeUpdateStatus::PropogationUpdate),
            forall|j: int|
                0 <= j < old(self)@.queue.len() ==> final(self)@.edges[#[trigger] old(self)@.queue[j]].status
                    != EdgeUpdateStatus::StressUpdate,
            old(self)@.queue_exact(EdgeUpdateStatus::StressUpdate) ==> final(self)@.queue_exact(
                EdgeUpdateStatus::PropogationUpdate,
            ),
    {
        proof {
            self.lemma_view_wf();
        }
        let loaded = match triangle_update_list {
            Some(l) => self.commit_phase(model, l, true),
            None => {
                let mut unused: Vec<NodeIndex> = Vec::new();
                self.commit_phase(model, &mut unused, false)
            },
        };
        proof {
            lemma_commit_steps(old(self)@, loaded@);
            lemma_commit_unmarks(old(self)@, loaded@);
            if old(self)@.queue.len() == 0 {
                lemma_commit_nothing(old(self)@, loaded@);
            }
            if old(self)@.queue_exact(EdgeUpdateStatus::StressUpdate) {
                lemma_commit_steps_exact(old(self)@, loaded@);
            }
        }
    }

    /// The propagation phase with its flags handed back for the proof.
    fn propagation_phase<S: Fn(EdgeIndex, [Option<EdgeIndex>; 4]) -> [bool; 4]>(&mut self, model: S) -> (shares:
        Ghost<Seq<Seq<bool>>>)
        requires
            old(self).wf(),
            forall|e: EdgeIndex, to: [Option<EdgeIndex>; 4]| model.requires((e, to)),
        ensures
            final(self).wf(),
            shares@.len() == old(self)@.queue.len(),
            forall|k: int| 0 <= k < shares@.len() ==> (#[trigger] shares@[k]).len() == 4,
            shares_heard(old(self)@, model, shares@),
            final(self)@ == old(self)@.propagate_steps(shares@),
    {
        let ghost before = self@;
        proof {
            self.lemma_view_wf();
        }
        let update_n = self.get_update_amt();
        let ghost mut shares: Seq<Seq<bool>> = Seq::empty();
        let mut k: usize = 0;
        while k < update_n
            invariant
                k <= update_n,
                update_n == before.queue.len(),
                before.wf(),
                self.wf(),
                forall|e: EdgeIndex, to: [Option<EdgeIndex>; 4]| model.requires((e, to)),
                shares.len() == k,
                forall|j: int| 0 <= j < shares.len() ==> (#[trigger] shares[j]).len() == 4,
                shares_heard(before, model, shares),
                self@ == before.propagate_steps(shares),
            decreases update_n - k,
        {
            proof {
                lemma_propagate_steps(before, shares);
            }
            match self.next_update() {
                Some(i) => {
                    let to = self.receivers(i);
                    let given = model(i, to);
                    proof {
                        assert(share_answer(self@, model, to, given));
                        lemma_shares_heard_push(before, model, shares, to, given);
                        lemma_propagate_push(before, shares, given@);
                    }
                    self.propagate_next(given);
                    proof {
                        shares = shares.push(given@);
                    }
                },
                None => {},
            }
            k = k + 1;
        }
        Ghost(shares)
    }

    /// The propagation phase: visits the entries that the queue holds at the
    /// call, oldest first, and no entry that joins the queue meanwhile.  For
    /// each it asks `model`, with the edge's address and its receivers, which
    /// receivers got a share of the edge's stress that is worth a commit, and
    /// takes the answer in as `propagate_next` does.
    ///
    /// On an empty queue nothing changes.  No edge's fracture flag changes.
    /// Afterwards the queue holds only edges that are scheduled for the
    /// commit phase, each once.  Where before the call the status of every
    /// edge said what the queue held, it does so afterwards.
    pub fn update_graph_stress_propagation<S: Fn(EdgeIndex, [Option<EdgeIndex>; 4]) -> [bool; 4]>(
        &mut self,
        model: S,
    )
        requires
            old(self).wf(),
            forall|e: EdgeIndex, to: [Option<EdgeIndex>; 4]| model.requires((e, to)),
        ensures
            final(self).wf(),
            exists|shares: Seq<Seq<bool>>|
                (shares.len() == old(self)@.queue.len() && four_each(shares) && #[trigger] shares_heard(
                    old(self)@,
                    model,
                    shares,
                ) && final(self)@ == old(self)@.propagate_steps(shares)),
            old(self)@.queue.len() == 0 ==> final(self)@ == old(self)@,
            forall|j: EdgeIndex| (#[trigger] final(self)@.edges[j]).cracked == old(self)@.edges[j].cracked,
            final(self)@.queue_tidy(EdgeUpdateStatus::StressUpdate),
            old(self)@.queue_exact(EdgeUpdateStatus::PropogationUpdate) ==> final(self)@.queue_exact(
                EdgeUpdateStatus::StressUpdate,
            ),
    {
        proof {
            self.lemma_view_wf();
        }
        let shares = self.propagation_phase(model);
        proof {
            lemma_propagate_steps(old(self)@, shares@);
            if old(self)@.queue.len() == 0 {
                lemma_propagate_nothing(old(self)@, shares@);
            }
            if old(self)@.queue_exact(EdgeUpdateStatus::PropogationUpdate) {
                lemma_propagate_steps_exact(old(self)@, shares@);
            }
        }
    }

    /// One tick: the commit phase, then the propagation phase on what the
    /// commit phase queued.
    ///
    /// On an empty queue nothing changes.  No fracture is ever mended.
    /// Afterwards the queue holds only edges that are scheduled for the
    /// commit phase, each once.  Where before the call the status of every
    /// edge said what the queue held, it does so afterwards.
    pub fn main_loop<M: Fn(EdgeIndex, bool) -> bool, S: Fn(EdgeIndex, [Option<EdgeIndex>; 4]) -> [bool; 4]>(
        &mut self,
        commit_model: M,
        share_model: S,
    )
        requires
            old(self).wf(),
            forall|e: EdgeIndex, c: bool| commit_model.requires((e, c)),
            forall|e: EdgeIndex, to: [Option<EdgeIndex>; 4]| share_model.requires((e, to)),
        ensures
            final(self).wf(),
            exists|loaded: Seq<bool>, shares: Seq<Seq<bool>>| #[trigger]
                tick(old(self)@, final(self)@, commit_model, share_model, loaded, shares),
            old(self)@.queue.len() == 0 ==> final(self)@ == old(self)@,
            old(self)@.cracks_kept_by(final(self)@),
            final(self)@.queue_tidy(EdgeUpdateStatus::StressUpdate),
            old(self)@.queue_exact(EdgeUpdateStatus::StressUpdate) ==> final(self)@.queue_exact(
                EdgeUpdateStatus::StressUpdate,
            ),
    {
        proof {
            self.lemma_view_wf();
        }
        let mut unused: Vec<NodeIndex> = Vec::new();
        let loaded = self.commit_phase(commit_model, &mut unused, false);
        let ghost committed = self@;
        proof {
            lemma_commit_steps(old(self)@, loaded@);
            self.lemma_view_wf();
        }
        let shares = self.propagation_phase(share_model);
        proof {
            lemma_propagate_steps(committed, shares@);
            if old(self)@.queue_exact(EdgeUpdateStatus::StressUpdate) {
                lemma_commit_steps_exact(old(self)@, loaded@);
                lemma_propagate_steps_exact(committed, shares@);
            }
            if old(self)@.queue.len() == 0 {
                lemma_commit_nothing(old(self)@, loaded@);
                lemma_propagate_nothing(committed, shares@);
            }
            assert(tick(old(self)@, self@, commit_model, share_model, loaded@, shares@));
        }
    }
}

} // verus!
