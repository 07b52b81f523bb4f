//! The fetch scheduler: a sync plan worked off by at most `max_tasks`
//! concurrent transfers, every entry attempted exactly once, and an exact
//! aggregate accounting of which paths failed.

use vstd::prelude::*;

use crate::manifest::{models, EntryModel, ManifestEntry};

verus! {

/// Where one planned entry stands.
pub enum EntryState {
    /// Not handed to a worker yet.
    Pending,
    /// Handed to a worker; its outcome has not been recorded.
    InFlight,
    /// Fetched and written.
    Done,
    /// The fetch or the write failed; siblings continue regardless.
    Failed,
}

/// How many entries are currently handed out.
pub open spec fn inflight_count(st: Seq<EntryState>) -> int
    decreases st.len(),
{
    if st.len() == 0 {
        0
    } else {
        (if st[0] is InFlight {
            1int
        } else {
            0int
        }) + inflight_count(st.skip(1))
    }
}

proof fn lemma_inflight_update(st: Seq<EntryState>, k: int, v: EntryState)
    requires
        0 <= k < st.len(),
    ensures
        inflight_count(st.update(k, v)) == inflight_count(st) + (if v is InFlight {
            1int
        } else {
            0int
        }) - (if st[k] is InFlight {
            1int
        } else {
            0int
        }),
    decreases st.len(),
{
    if k == 0 {
        assert(st.update(0, v).skip(1) =~= st.skip(1));
    } else {
        assert(st.update(k, v).skip(1) =~= st.skip(1).update(k - 1, v));
        lemma_inflight_update(st.skip(1), k - 1, v);
    }
}

proof fn lemma_inflight_push(st: Seq<EntryState>, v: EntryState)
    ensures
        inflight_count(st.push(v)) == inflight_count(st) + (if v is InFlight {
            1int
        } else {
            0int
        }),
    decreases st.len(),
{
    if st.len() == 0 {
        assert(st.push(v)[0] == v);
        assert(st.push(v).skip(1) =~= Seq::<EntryState>::empty());
        assert(inflight_count(st.push(v).skip(1)) == 0);
        assert(inflight_count(st.push(v)) == (if v is InFlight {
            1int
        } else {
            0int
        }) + inflight_count(st.push(v).skip(1)));
    } else {
        assert(st.push(v)[0] == st[0]);
        assert(st.push(v).len() == st.len() + 1);
        assert(st.push(v).skip(1) =~= st.skip(1).push(v));
        lemma_inflight_push(st.skip(1), v);
        assert(inflight_count(st.push(v)) == (if st[0] is InFlight {
            1int
        } else {
            0int
        }) + inflight_count(st.push(v).skip(1)));
        assert(inflight_count(st) == (if st[0] is InFlight {
            1int
        } else {
            0int
        }) + inflight_count(st.skip(1)));
    }
}

/// The paths of the entries whose fetch failed, in plan order.
pub open spec fn failed_paths(es: Seq<EntryModel>, st: Seq<EntryState>) -> Seq<Seq<u8>>
    recommends
        es.len() == st.len(),
    decreases es.len(),
{
    if es.len() == 0 {
        Seq::empty()
    } else {
        let rest = failed_paths(es.skip(1), st.skip(1));
        if st[0] is Failed {
            seq![es[0].path] + rest
        } else {
            rest
        }
    }
}

/// The aggregate result of a completed plan: on failure, exactly the
/// failed paths, in plan order.
pub struct FetchFailure {
    pub failed: Vec<Vec<u8>>,
}

/// A bounded scheduler over one sync plan. Entries are handed out in plan
/// order, never more than `max_tasks` at once, each exactly once; each
/// outcome is recorded once; the report comes only when every entry has a
/// recorded outcome.
pub struct FetchBatch {
    plan: Vec<ManifestEntry>,
    status: Vec<EntryState>,
    next: usize,
    in_flight: u64,
    max_tasks: u64,
}

impl FetchBatch {
    /// The plan this batch works off.
    pub closed spec fn plan_model(self) -> Seq<EntryModel> {
        models(self.plan@)
    }

    pub closed spec fn statuses(self) -> Seq<EntryState> {
        self.status@
    }

    /// How many entries were handed out so far (a plan-order prefix).
    pub closed spec fn started(self) -> int {
        self.next as int
    }

    pub closed spec fn bound(self) -> u64 {
        self.max_tasks
    }

    /// How many handed-out entries still lack a recorded outcome.
    pub closed spec fn outstanding(self) -> int {
        self.in_flight as int
    }

    pub open spec fn wf(self) -> bool {
        &&& self.bound() >= 1
        &&& self.statuses().len() == self.plan_model().len()
        &&& 0 <= self.started() <= self.plan_model().len()
        &&& forall|i: int|
            self.started() <= i < self.statuses().len() ==> (#[trigger] self.statuses()[i])
                is Pending
        &&& forall|i: int|
            0 <= i < self.started() ==> !((#[trigger] self.statuses()[i]) is Pending)
        &&& self.outstanding() == inflight_count(self.statuses())
        &&& self.outstanding() <= self.bound()
    }

    /// Every handed-out entry has its outcome recorded and nothing is left
    /// to hand out.
    pub open spec fn is_complete(self) -> bool {
        self.started() == self.plan_model().len() && self.outstanding() == 0
    }

    pub fn new(plan: Vec<ManifestEntry>, max_tasks: u64) -> (res: FetchBatch)
        requires
            max_tasks >= 1,
        ensures
            res.wf(),
            res.plan_model() == models(plan@),
            res.started() == 0,
            res.outstanding() == 0,
            res.bound() == max_tasks,
            forall|i: int|
                0 <= i < res.statuses().len() ==> (#[trigger] res.statuses()[i]) is Pending,
    {
        let mut status: Vec<EntryState> = Vec::new();
        let mut i: usize = 0;
        proof {
            assert(inflight_count(status@) == 0);
        }
        while i < plan.len()
            invariant
                i <= plan@.len(),
                status@.len() == i,
                forall|j: int| 0 <= j < i ==> (#[trigger] status@[j]) is Pending,
                inflight_count(status@) == 0,
            decreases plan@.len() - i,
        {
            proof {
                lemma_inflight_push(status@, EntryState::Pending);
            }
            status.push(EntryState::Pending);
            i = i + 1;
        }
        FetchBatch { plan, status, next: 0, in_flight: 0, max_tasks }
    }

    /// Whether another transfer may start now: plan not exhausted and the
    /// concurrency bound not reached.
    pub fn can_start(&self) -> (res: bool)
        requires
            self.wf(),
        ensures
            res == (self.started() < self.plan_model().len() && self.outstanding() < self.bound()),
    {
        self.next < self.plan.len() && self.in_flight < self.max_tasks
    }

    /// Hand out the next planned entry. The bound is respected exactly:
    /// nothing is handed out while `max_tasks` transfers are outstanding.
    pub fn start_next(&mut self) -> (res: Option<(usize, ManifestEntry)>)
        requires
            old(self).wf(),
        ensures
            final(self).wf(),
            final(self).plan_model() == old(self).plan_model(),
            final(self).bound() == old(self).bound(),
            match res {
                Some((idx, entry)) => {
                    &&& old(self).started() < old(self).plan_model().len()
                    &&& old(self).outstanding() < old(self).bound()
                    &&& idx == old(self).started()
                    &&& entry@ == old(self).plan_model()[idx as int]
                    &&& final(self).started() == old(self).started() + 1
                    &&& final(self).outstanding() == old(self).outstanding() + 1
                    &&& final(self).statuses() == old(self).statuses().update(
                        idx as int,
                        EntryState::InFlight,
                    )
                },
                None => {
                    &&& !(old(self).started() < old(self).plan_model().len() && old(
                        self,
                    ).outstanding() < old(self).bound())
                    &&& *final(self) == *old(self)
                },
            },
    {
        if self.next < self.plan.len() && self.in_flight < self.max_tasks {
            let idx = self.next;
            proof {
                lemma_inflight_update(self.status@, idx as int, EntryState::InFlight);
            }
            self.status[idx] = EntryState::InFlight;
            self.next = idx + 1;
            self.in_flight = self.in_flight + 1;
            let entry = self.plan[idx].clone();
            Some((idx, entry))
        } else {
            None
        }
    }

    /// Record one handed-out entry's outcome: fetched and written, or
    /// failed. A failure never aborts siblings; it is only recorded.
    pub fn record(&mut self, idx: usize, ok: bool)
        requires
            old(self).wf(),
            idx < old(self).statuses().len(),
            old(self).statuses()[idx as int] is InFlight,
        ensures
            final(self).wf(),
            final(self).plan_model() == old(self).plan_model(),
            final(self).bound() == old(self).bound(),
            final(self).started() == old(self).started(),
            final(self).outstanding() == old(self).outstanding() - 1,
            final(self).statuses() == old(self).statuses().update(
                idx as int,
                if ok {
                    EntryState::Done
                } else {
                    EntryState::Failed
                },
            ),
    {
        proof {
            lemma_inflight_update(
                self.status@,
                idx as int,
                if ok {
                    EntryState::Done
                } else {
                    EntryState::Failed
                },
            );
            assert(inflight_count(self.status@) >= 1) by {
                lemma_inflight_update(self.status@, idx as int, EntryState::Done);
                lemma_inflight_nonneg(self.status@.update(idx as int, EntryState::Done));
            }
        }
        if ok {
            self.status[idx] = EntryState::Done;
        } else {
            self.status[idx] = EntryState::Failed;
        }
        self.in_flight = self.in_flight - 1;
    }

    /// Whether every planned entry was handed out and has its outcome
    /// recorded.
    pub fn is_complete_exec(&self) -> (res: bool)
        requires
            self.wf(),
        ensures
            res == self.is_complete(),
    {
        self.next == self.plan.len() && self.in_flight == 0
    }

    /// The aggregate result of a completed batch: success only if every
    /// entry succeeded, else exactly the failed paths, keyed by path, in
    /// plan order.
    pub fn report(&self) -> (res: Result<(), FetchFailure>)
        requires
            self.wf(),
            self.is_complete(),
        ensures
            res is Ok <==> failed_paths(self.plan_model(), self.statuses()).len() == 0,
            match res {
                Ok(()) => true,
                Err(f) => f.failed.deep_view() == failed_paths(
                    self.plan_model(),
                    self.statuses(),
                ),
            },
    {
        let ghost es = self.plan_model();
        let ghost st = self.statuses();
        let mut failed: Vec<Vec<u8>> = Vec::new();
        let mut i: usize = 0;
        proof {
            assert(es.skip(0) =~= es);
            assert(st.skip(0) =~= st);
            assert(failed.deep_view() =~~= Seq::<Seq<u8>>::empty());
            assert(Seq::<Seq<u8>>::empty() + failed_paths(es, st) =~~= failed_paths(es, st));
        }
        while i < self.plan.len()
            invariant
                self.wf(),
                es == self.plan_model(),
                st == self.statuses(),
                i <= self.plan@.len(),
                failed_paths(es, st) == failed.deep_view() + failed_paths(
                    es.skip(i as int),
                    st.skip(i as int),
                ),
            decreases self.plan@.len() - i,
        {
            let ghost pre = failed.deep_view();
            proof {
                assert(es.skip(i as int)[0] == es[i as int]);
                assert(st.skip(i as int)[0] == st[i as int]);
                assert(es.skip(i as int).skip(1) =~= es.skip(i as int + 1));
                assert(st.skip(i as int).skip(1) =~= st.skip(i as int + 1));
            }
            let is_failed = match self.status[i] {
                EntryState::Failed => true,
                _ => false,
            };
            if is_failed {
                failed.push(vstd::slice::slice_to_vec(self.plan[i].path.as_slice()));
                proof {
                    assert(failed.deep_view() =~~= pre.push(es[i as int].path));
                    assert(pre + (seq![es[i as int].path] + failed_paths(
                        es.skip(i as int + 1),
                        st.skip(i as int + 1),
                    )) =~~= failed.deep_view() + failed_paths(
                        es.skip(i as int + 1),
                        st.skip(i as int + 1),
                    ));
                }
            }
            i = i + 1;
        }
        proof {
            assert(es.skip(i as int) =~= Seq::<EntryModel>::empty());
            assert(failed.deep_view() + failed_paths(es.skip(i as int), st.skip(i as int)) =~~= failed.deep_view());
        }
        if failed.len() == 0 {
            proof {
                assert(failed_paths(es, st) =~~= failed.deep_view());
            }
            Ok(())
        } else {
            Err(FetchFailure { failed })
        }
    }
}

proof fn lemma_inflight_nonneg(st: Seq<EntryState>)
    ensures
        inflight_count(st) >= 0,
    decreases st.len(),
{
    if st.len() > 0 {
        lemma_inflight_nonneg(st.skip(1));
    }
}

/// Law (partial failure): when exactly one planned entry failed and every
/// other entry succeeded, the aggregate accounting names exactly the
/// failed entry's path.
pub proof fn lemma_single_failure(es: Seq<EntryModel>, st: Seq<EntryState>, f: int)
    requires
        es.len() == st.len(),
        0 <= f < st.len(),
        st[f] is Failed,
        forall|j: int| 0 <= j < st.len() && j != f ==> (#[trigger] st[j]) is Done,
    ensures
        failed_paths(es, st) == seq![es[f].path],
    decreases es.len(),
{
    if f == 0 {
        assert(failed_paths(es.skip(1), st.skip(1)) =~~= Seq::<Seq<u8>>::empty()) by {
            lemma_no_failure(es.skip(1), st.skip(1));
        }
        assert(failed_paths(es, st) =~~= seq![es[0].path]);
    } else {
        assert(forall|j: int|
            0 <= j < st.skip(1).len() && j != f - 1 ==> (#[trigger] st.skip(1)[j]) is Done);
        lemma_single_failure(es.skip(1), st.skip(1), f - 1);
        assert(st[0] is Done);
        assert(failed_paths(es, st) =~~= seq![es[f].path]);
    }
}

/// Law: with every outcome recorded as success, the accounting is empty.
pub proof fn lemma_no_failure(es: Seq<EntryModel>, st: Seq<EntryState>)
    requires
        es.len() == st.len(),
        forall|j: int| 0 <= j < st.len() ==> !((#[trigger] st[j]) is Failed),
    ensures
        failed_paths(es, st) == Seq::<Seq<u8>>::empty(),
    decreases es.len(),
{
    if es.len() > 0 {
        lemma_no_failure(es.skip(1), st.skip(1));
        assert(failed_paths(es, st) =~~= Seq::<Seq<u8>>::empty());
    } else {
        assert(failed_paths(es, st) =~~= Seq::<Seq<u8>>::empty());
    }
}

} // verus!
