//! The shared per-generation cache of tasks.
//!
//! One cache instance serves all live computations of one (version, epoch)
//! pair: a map from dense key identity to the task memoizing that key's
//! computation. A task is pending (a broadcastable promise with possibly
//! many waiters), complete, or cancelled; a cancelled task stays in its slot
//! until new demand replaces it with a fresh task. For a fixed generation,
//! at most one non-cancelled task exists per key at any instant — slots are
//! owned and replaced whole, never mutated in place.

use vstd::prelude::*;

use crate::error::Cancelled;
use crate::error::CancellableResult;
use crate::key::DiceKey;
use crate::key::ParentKey;
use crate::value::DiceComputedValue;

verus! {

/// Lifecycle of one task: pending, complete, or cancelled (awaiting
/// replacement by new demand).
#[derive(Debug, Clone, Copy, PartialEq, Eq, Structural)]
pub enum DiceTaskState {
    Pending,
    Ready(DiceComputedValue),
    Cancelled,
}

/// The memoization unit for one key within one cache generation.
pub struct DiceTask {
    state: DiceTaskState,
    task_id: u64,
    depended_on_by: Vec<ParentKey>,
    deps: Vec<DiceKey>,
}

impl DiceTask {
    pub closed spec fn spec_state(self) -> DiceTaskState {
        self.state
    }

    pub closed spec fn spec_task_id(self) -> u64 {
        self.task_id
    }

    pub closed spec fn spec_waiters(self) -> Seq<ParentKey> {
        self.depended_on_by@
    }

    /// The dependency edges recorded by the evaluation that completed this
    /// task.
    pub closed spec fn spec_deps(self) -> Seq<DiceKey> {
        self.deps@
    }
}

/// A waiter's handle on one particular task instance. Resolving it observes
/// that instance's single completion event; if the instance was cancelled or
/// replaced, the attempt resolves as cancelled.
#[derive(Debug, Clone, Copy, PartialEq, Eq, Hash, Structural)]
pub struct DicePromise {
    pub key: DiceKey,
    pub task_id: u64,
}

/// What a cache lookup sees for one key.
#[derive(Debug, Clone, Copy, PartialEq, Eq, Structural)]
pub enum CacheEntry {
    Vacant,
    Occupied(DiceTaskState),
}

/// Attaching to an occupied slot either yields a promise on the live task,
/// or reports that the task there was cancelled (new demand should replace
/// it).
#[derive(Debug, Clone, Copy, PartialEq, Eq, Structural)]
pub enum MaybeCancelled {
    Attached(DicePromise),
    Cancelled,
}

pub struct SharedCache {
    slots: Vec<Option<DiceTask>>,
    valid: bool,
    next_task_id: u64,
}

impl SharedCache {
    /// The task occupying a key's slot, if any. Identities beyond the
    /// storage's current growth are vacant.
    pub closed spec fn slot(self, i: int) -> Option<DiceTask> {
        if 0 <= i < self.slots@.len() {
            self.slots@[i]
        } else {
            None
        }
    }

    pub open spec fn slot_state(self, k: DiceKey) -> Option<DiceTaskState> {
        match self.slot(k.index as int) {
            Some(t) => Some(t.spec_state()),
            None => None,
        }
    }

    /// Whether this cache generation is still current. A stale generation
    /// answers every lookup with "gone"; waiters treat that as cancellation.
    pub closed spec fn spec_valid(self) -> bool {
        self.valid
    }

    /// No task anywhere is pending: no evaluation is currently in flight
    /// against this cache.
    pub open spec fn quiescent(self) -> bool {
        forall|i: int| (#[trigger] self.slot(i)) matches Some(t) ==> t.spec_state()
            != DiceTaskState::Pending
    }

    /// Identities keep replacement tasks apart from their predecessors'
    /// promises. A task that can have waiters (it was spawned pending) has
    /// an identity below the next one to be handed out; a completed task
    /// installed whole in one step — which never had a pending phase for
    /// anyone to wait on — carries the one reserved identity instead. The
    /// two ranges never meet, so a promise on a cancelled predecessor can
    /// never resolve against what replaced it.
    pub closed spec fn spec_next_task_id(self) -> u64 {
        self.next_task_id
    }

    pub closed spec fn wf(self) -> bool {
        forall|i: int| (#[trigger] self.slot(i)) matches Some(t) ==> t.spec_task_id()
            < self.next_task_id || (t.spec_task_id() == u64::MAX && t.spec_state() matches
            DiceTaskState::Ready(_))
    }

    pub fn new() -> (r: SharedCache)
        ensures
            r.wf(),
            r.spec_valid(),
            r.quiescent(),
            forall|i: int| #[trigger] r.slot(i) is None,
    {
        SharedCache { slots: Vec::new(), valid: true, next_task_id: 0 }
    }

    pub fn is_valid(&self) -> (r: bool)
        ensures
            r == self.spec_valid(),
    {
        self.valid
    }

    /// Marks this generation stale: every later lookup reports the cache as
    /// gone and waiters observe cancellation.
    pub fn invalidate(&mut self)
        ensures
            !final(self).spec_valid(),
            old(self).wf() ==> final(self).wf(),
            final(self).spec_next_task_id() == old(self).spec_next_task_id(),
            forall|i: int| #[trigger] final(self).slot(i) == old(self).slot(i),
    {
        self.valid = false;
        proof {
            assert(forall|i: int| #[trigger] self.slot(i) == old(self).slot(i));
        }
    }

    /// What a requester sees for `k`: `None` when the generation is stale,
    /// otherwise the slot's entry.
    pub fn get_state(&self, k: DiceKey) -> (r: Option<CacheEntry>)
        ensures
            r matches Some(e) ==> self.spec_valid() && e == (match self.slot_state(k) {
                Some(st) => CacheEntry::Occupied(st),
                None => CacheEntry::Vacant,
            }),
            r is None ==> !self.spec_valid(),
    {
        if !self.valid {
            return None;
        }
        let i = k.index;
        if i < self.slots.len() {
            match &self.slots[i] {
                Some(t) => Some(CacheEntry::Occupied(t.state)),
                None => Some(CacheEntry::Vacant),
            }
        } else {
            Some(CacheEntry::Vacant)
        }
    }

    /// The completed value in `k`'s slot, if its task is ready.
    pub fn ready_value(&self, k: DiceKey) -> (r: Option<DiceComputedValue>)
        ensures
            match r {
                Some(v) => self.slot_state(k) == Some(DiceTaskState::Ready(v)),
                None => !(self.slot_state(k) matches Some(DiceTaskState::Ready(_))),
            },
    {
        let i = k.index;
        if i < self.slots.len() {
            match &self.slots[i] {
                Some(t) => match t.state {
                    DiceTaskState::Ready(v) => Some(v),
                    _ => None,
                },
                None => None,
            }
        } else {
            None
        }
    }

    /// The dependency edges recorded by the completed evaluation in `k`'s
    /// slot, for the invalidation layer.
    pub fn ready_deps(&self, k: DiceKey) -> (r: Option<&Vec<DiceKey>>)
        ensures
            match r {
                Some(deps) => {
                    &&& self.slot(k.index as int) matches Some(t) && t.spec_state() matches
                        DiceTaskState::Ready(_) && deps@ == t.spec_deps()
                },
                None => !(self.slot_state(k) matches Some(DiceTaskState::Ready(_))),
            },
    {
        let i = k.index;
        if i < self.slots.len() {
            match &self.slots[i] {
                Some(t) => match t.state {
                    DiceTaskState::Ready(_) => Some(&t.deps),
                    _ => None,
                },
                None => None,
            }
        } else {
            None
        }
    }

    /// Grows the slot storage so that `k` has a physical slot. Purely
    /// internal: every identity's logical slot is defined regardless.
    #[verifier::loop_isolation(false)]
    fn ensure_slot(&mut self, k: DiceKey)
        ensures
            final(self).slots@.len() > k.index as int,
            forall|i: int| #[trigger] final(self).slot(i) == old(self).slot(i),
            old(self).wf() ==> final(self).wf(),
            final(self).spec_valid() == old(self).spec_valid(),
            final(self).spec_next_task_id() == old(self).spec_next_task_id(),
    {
        let idx = k.index;
        while self.slots.len() <= idx
            invariant
                self.slots@.len() >= old(self).slots@.len(),
                forall|i: int| #[trigger] self.slot(i) == old(self).slot(i),
                self.spec_valid() == old(self).spec_valid(),
                self.next_task_id == old(self).next_task_id,
            decreases idx + 1 - self.slots.len(),
        {
            let ghost pre = *self;
            self.slots.push(None);
            proof {
                assert forall|i: int| #[trigger] self.slot(i) == old(self).slot(i) by {
                    if 0 <= i < pre.slots@.len() {
                        assert(self.slot(i) == pre.slot(i));
                    } else if i == pre.slots@.len() {
                        assert(self.slot(i) == None::<DiceTask>);
                        assert(old(self).slot(i) == None::<DiceTask>);
                    } else {
                        assert(self.slot(i) == None::<DiceTask>);
                    }
                }
            }
        }
    }

    /// Installs a freshly spawned pending task for `k`, either into a vacant
    /// slot or replacing a cancelled predecessor. The fresh task is a new
    /// instance: promises held on the predecessor can never resolve against
    /// it.
    pub fn begin_task(&mut self, k: DiceKey)
        requires
            old(self).wf(),
            old(self).spec_next_task_id() < u64::MAX,
            !(old(self).slot_state(k) matches Some(DiceTaskState::Pending)),
            !(old(self).slot_state(k) matches Some(DiceTaskState::Ready(_))),
        ensures
            final(self).wf(),
            final(self).slot(k.index as int) matches Some(t) && t.spec_state()
                == DiceTaskState::Pending && t.spec_waiters() =~= Seq::<ParentKey>::empty()
                && t.spec_task_id() == old(self).spec_next_task_id(),
            old(self).slot(k.index as int) matches Some(t0) ==> t0.spec_task_id() < old(self).spec_next_task_id() && t0.spec_task_id() != final(self).slot(
                k.index as int,
            ).unwrap().spec_task_id(),
            forall|i: int| i != k.index as int ==> #[trigger] final(self).slot(i) == old(self).slot(
                i,
            ),
            final(self).spec_valid() == old(self).spec_valid(),
            final(self).spec_next_task_id() == old(self).spec_next_task_id() + 1,
    {
        self.ensure_slot(k);
        let ghost grown = *self;
        let id = self.next_task_id;
        self.next_task_id = self.next_task_id + 1;
        let task = DiceTask {
            state: DiceTaskState::Pending,
            task_id: id,
            depended_on_by: Vec::new(),
            deps: Vec::new(),
        };
        self.slots[k.index] = Some(task);
        proof {
            assert(forall|i: int|
                i != k.index as int ==> #[trigger] self.slot(i) == grown.slot(i));
            assert(self.slot(k.index as int) == Some(task));
        }
    }

    /// Records `parent` as a waiter on `k`'s task and hands back a promise
    /// on that exact task instance — unless the task there was already
    /// cancelled, in which case the caller must replace it. Attaching never
    /// re-executes any compute logic.
    pub fn depended_on_by(&mut self, k: DiceKey, parent: ParentKey) -> (r: MaybeCancelled)
        requires
            old(self).wf(),
            old(self).slot_state(k) is Some,
        ensures
            final(self).wf(),
            final(self).spec_valid() == old(self).spec_valid(),
            final(self).spec_next_task_id() == old(self).spec_next_task_id(),
            forall|i: int| i != k.index as int ==> #[trigger] final(self).slot(i) == old(self).slot(
                i,
            ),
            match r {
                MaybeCancelled::Cancelled => {
                    &&& old(self).slot_state(k) == Some(DiceTaskState::Cancelled)
                    &&& final(self).slot(k.index as int) == old(self).slot(k.index as int)
                },
                MaybeCancelled::Attached(p) => {
                    &&& old(self).slot_state(k) != Some(DiceTaskState::Cancelled)
                    &&& old(self).slot(k.index as int) matches Some(t0)
                        && final(self).slot(k.index as int) matches Some(t1) && {
                        &&& p.key == k
                        &&& p.task_id == t0.spec_task_id()
                        &&& t1.spec_task_id() == t0.spec_task_id()
                        &&& t1.spec_state() == t0.spec_state()
                        &&& t1.spec_deps() == t0.spec_deps()
                        &&& t1.spec_waiters() == t0.spec_waiters().push(parent)
                    }
                },
            },
    {
        let i = k.index;
        let mut taken: Option<DiceTask> = None;
        std::mem::swap(&mut taken, &mut self.slots[i]);
        let ghost swapped = *self;
        match taken {
            Some(mut t) => {
                let is_cancelled = matches!(t.state, DiceTaskState::Cancelled);
                if is_cancelled {
                    self.slots[i] = Some(t);
                    proof {
                        assert(forall|j: int| #[trigger] self.slot(j) == old(self).slot(j));
                    }
                    MaybeCancelled::Cancelled
                } else {
                    let id = t.task_id;
                    t.depended_on_by.push(parent);
                    self.slots[i] = Some(t);
                    proof {
                        assert(forall|j: int|
                            j != i as int ==> #[trigger] self.slot(j) == old(self).slot(j));
                    }
                    MaybeCancelled::Attached(DicePromise { key: k, task_id: id })
                }
            },
            None => {
                proof {
                    assert(false);
                }
                MaybeCancelled::Cancelled
            },
        }
    }

    /// Cancellation checkpoint for `k`'s pending task: the task is marked
    /// cancelled in place. Its waiters stay attached and will observe the
    /// cancellation; new demand replaces the slot with a fresh task.
    pub fn cancel_task(&mut self, k: DiceKey)
        requires
            old(self).wf(),
            old(self).slot_state(k) == Some(DiceTaskState::Pending),
        ensures
            final(self).wf(),
            final(self).spec_valid() == old(self).spec_valid(),
            final(self).spec_next_task_id() == old(self).spec_next_task_id(),
            forall|i: int| i != k.index as int ==> #[trigger] final(self).slot(i) == old(self).slot(
                i,
            ),
            old(self).slot(k.index as int) matches Some(t0) && final(self).slot(k.index as int)
                matches Some(t1) && t1.spec_state() == DiceTaskState::Cancelled
                && t1.spec_task_id() == t0.spec_task_id() && t1.spec_waiters()
                == t0.spec_waiters(),
    {
        let i = k.index;
        let mut taken: Option<DiceTask> = None;
        std::mem::swap(&mut taken, &mut self.slots[i]);
        match taken {
            Some(mut t) => {
                t.state = DiceTaskState::Cancelled;
                self.slots[i] = Some(t);
                proof {
                    assert(forall|j: int|
                        j != i as int ==> #[trigger] self.slot(j) == old(self).slot(j));
                }
            },
            None => {
                proof {
                    assert(false);
                }
            },
        }
    }

    /// Completes `k`'s pending task: the stored value and recorded edges
    /// become visible to every attached waiter through one single completion
    /// event.
    pub fn complete_task(&mut self, k: DiceKey, v: DiceComputedValue, deps: Vec<DiceKey>)
        requires
            old(self).wf(),
            old(self).slot_state(k) == Some(DiceTaskState::Pending),
        ensures
            final(self).wf(),
            final(self).spec_valid() == old(self).spec_valid(),
            final(self).spec_next_task_id() == old(self).spec_next_task_id(),
            forall|i: int| i != k.index as int ==> #[trigger] final(self).slot(i) == old(self).slot(
                i,
            ),
            old(self).slot(k.index as int) matches Some(t0) && final(self).slot(k.index as int)
                matches Some(t1) && t1.spec_state() == DiceTaskState::Ready(v)
                && t1.spec_task_id() == t0.spec_task_id() && t1.spec_waiters()
                == t0.spec_waiters() && t1.spec_deps() == deps@,
    {
        let i = k.index;
        let mut taken: Option<DiceTask> = None;
        std::mem::swap(&mut taken, &mut self.slots[i]);
        match taken {
            Some(mut t) => {
                t.state = DiceTaskState::Ready(v);
                t.deps = deps;
                self.slots[i] = Some(t);
                proof {
                    assert(forall|j: int|
                        j != i as int ==> #[trigger] self.slot(j) == old(self).slot(j));
                }
            },
            None => {
                proof {
                    assert(false);
                }
            },
        }
    }

    /// Installs a completed task for `k` directly, skipping the pending
    /// state: the synchronous evaluator resolves a key in one step, so no
    /// waiter can ever observe its task mid-flight.
    pub fn complete_entry(&mut self, k: DiceKey, v: DiceComputedValue, deps: Vec<DiceKey>)
        requires
            old(self).wf(),
            !(old(self).slot_state(k) matches Some(DiceTaskState::Pending)),
            !(old(self).slot_state(k) matches Some(DiceTaskState::Ready(_))),
        ensures
            final(self).wf(),
            final(self).spec_valid() == old(self).spec_valid(),
            forall|i: int| i != k.index as int ==> #[trigger] final(self).slot(i) == old(self).slot(
                i,
            ),
            final(self).slot(k.index as int) matches Some(t) && t.spec_state()
                == DiceTaskState::Ready(v) && t.spec_deps() == deps@,
            final(self).spec_next_task_id() == old(self).spec_next_task_id(),
            old(self).slot(k.index as int) matches Some(t0) ==> t0.spec_task_id() != final(self).slot(k.index as int).unwrap().spec_task_id(),
    {
        self.ensure_slot(k);
        let ghost grown = *self;
        let task = DiceTask {
            state: DiceTaskState::Ready(v),
            task_id: u64::MAX,
            depended_on_by: Vec::new(),
            deps,
        };
        self.slots[k.index] = Some(task);
        proof {
            assert(forall|i: int|
                i != k.index as int ==> #[trigger] self.slot(i) == grown.slot(i));
            assert(self.slot(k.index as int) == Some(task));
        }
    }

    /// Plants a transient value for `k`, as the engine does when an
    /// evaluation completes over cancelled or partial inputs. Only transient
    /// values may be planted: durable entries are established solely by
    /// evaluation.
    pub fn inject_transient(&mut self, k: DiceKey, v: DiceComputedValue)
        requires
            old(self).wf(),
            v.validity == crate::value::DiceValidity::Transient,
            !(old(self).slot_state(k) matches Some(DiceTaskState::Pending)),
            !(old(self).slot_state(k) matches Some(DiceTaskState::Ready(_))),
        ensures
            final(self).wf(),
            final(self).spec_valid() == old(self).spec_valid(),
            final(self).spec_next_task_id() == old(self).spec_next_task_id(),
            forall|i: int| i != k.index as int ==> #[trigger] final(self).slot(i) == old(self).slot(
                i,
            ),
            final(self).slot(k.index as int) matches Some(t) && t.spec_state()
                == DiceTaskState::Ready(v) && t.spec_deps() =~= Seq::<DiceKey>::empty(),
            old(self).slot(k.index as int) matches Some(t0) ==> t0.spec_task_id() != final(self).slot(k.index as int).unwrap().spec_task_id(),
    {
        self.ensure_slot(k);
        let ghost grown = *self;
        let task = DiceTask {
            state: DiceTaskState::Ready(v),
            task_id: u64::MAX,
            depended_on_by: Vec::new(),
            deps: Vec::new(),
        };
        self.slots[k.index] = Some(task);
        proof {
            assert(forall|i: int|
                i != k.index as int ==> #[trigger] self.slot(i) == grown.slot(i));
            assert(self.slot(k.index as int) == Some(task));
        }
    }

    /// Resolves a waiter's promise against the task instance it attached
    /// to. `None` means the instance is still pending. Every waiter of one
    /// instance observes the same single outcome: the completed value, or
    /// cancellation if the instance was cancelled, replaced, or its whole
    /// generation went stale.
    pub fn poll_promise(&self, p: DicePromise) -> (r: Option<
        CancellableResult<DiceComputedValue>,
    >)
        ensures
            match r {
                None => {
                    &&& self.spec_valid()
                    &&& self.slot(p.key.index as int) matches Some(t) && t.spec_task_id()
                        == p.task_id && t.spec_state() == DiceTaskState::Pending
                },
                Some(Ok(v)) => {
                    &&& self.spec_valid()
                    &&& self.slot(p.key.index as int) matches Some(t) && t.spec_task_id()
                        == p.task_id && t.spec_state() == DiceTaskState::Ready(v)
                },
                Some(Err(c)) => {
                    &&& c == Cancelled
                    &&& !self.spec_valid() || self.slot(p.key.index as int) is None || (self.slot(
                        p.key.index as int,
                    ) matches Some(t) && (t.spec_task_id() != p.task_id || t.spec_state()
                        == DiceTaskState::Cancelled))
                },
            },
    {
        if !self.valid {
            return Some(Err(Cancelled));
        }
        let i = p.key.index;
        if i >= self.slots.len() {
            return Some(Err(Cancelled));
        }
        match &self.slots[i] {
            Some(t) => {
                if t.task_id != p.task_id {
                    Some(Err(Cancelled))
                } else {
                    match t.state {
                        DiceTaskState::Pending => None,
                        DiceTaskState::Ready(v) => Some(Ok(v)),
                        DiceTaskState::Cancelled => Some(Err(Cancelled)),
                    }
                }
            },
            None => Some(Err(Cancelled)),
        }
    }
}

} // verus!
