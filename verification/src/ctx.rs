//! The computation context: the public face of the engine.
//!
//! [`DiceComputations`] is the handle a key's compute logic (and a
//! top-level requester) works through: it resolves keys, derives
//! projections, records every dependency read, and carries the global and
//! per-transaction data. [`SharedLiveTransactionCtx`] is the state shared
//! by all live computations of one version: the cache generation together
//! with the task request protocol (attach to an existing task, spawn a
//! fresh one, or replace a cancelled one while keeping earlier waiters'
//! outcomes intact).

use vstd::prelude::*;

use crate::cache::CacheEntry;
use crate::cache::DicePromise;
use crate::cache::DiceTaskState;
use crate::cache::MaybeCancelled;
use crate::cache::SharedCache;
use crate::data::DiceData;
use crate::data::UserComputationData;
use crate::deps::RecordingDepsTracker;
use crate::deps::tracker_records;
use crate::error::CancellableResult;
use crate::error::DiceError;
use crate::error::DiceResult;
use crate::incremental::engine_inv;
use crate::incremental::eval_for_key;
use crate::incremental::is_cycle_err;
use crate::incremental::is_plain;
use crate::incremental::lemma_engine_inv_prefix;
use crate::incremental::lemma_prefix_trans;
use crate::incremental::lemma_ready_frozen_refl;
use crate::incremental::lemma_ready_frozen_trans;
use crate::incremental::no_transient;
use crate::incremental::plain_payload;
use crate::incremental::proj_index;
use crate::incremental::project_for_key;
use crate::incremental::ready_frozen;
use crate::incremental::requested_cycle_err;
use crate::key::DiceKey;
use crate::key::DiceKeyErased;
use crate::key::KeyIndex;
use crate::key::ParentKey;
use crate::model::evals_to;
use crate::model::proj_evals_to;
use crate::model::wrap_add;
use crate::value::DiceComputedValue;
use crate::value::DiceValidity;
use crate::versions::VersionEpoch;
use crate::versions::VersionNumber;

verus! {

/// A value computed opaquely: accessible only through projections (or by
/// explicitly unwrapping it, which records the full base dependency). This
/// narrows recorded edges: re-deriving a projection later depends on the
/// projection alone, not on everything the base computed.
#[derive(Debug, Clone, Copy, PartialEq, Eq, Structural)]
pub struct OpaqueValue {
    pub derive_from_key: DiceKey,
    pub value: DiceComputedValue,
}

/// The single-slot payload a key's compute logic may store once per
/// evaluation, surfaced to activation observers after completion.
pub struct EvaluationData {
    pub value: Option<u64>,
}

/// What an activation observer receives when a key finishes executing.
#[derive(Debug, Clone, Copy, PartialEq, Eq, Structural)]
pub enum ActivationData {
    Evaluated(Option<u64>),
}

impl EvaluationData {
    pub fn none() -> (r: EvaluationData)
        ensures
            r.value is None,
    {
        EvaluationData { value: None }
    }

    pub fn into_activation_data(self) -> (r: ActivationData)
        ensures
            r == ActivationData::Evaluated(self.value),
    {
        ActivationData::Evaluated(self.value)
    }
}

/// How the request protocol answered one demand for a key.
#[derive(Debug, Clone, Copy, PartialEq, Eq, Structural)]
pub enum RequestOutcome {
    /// A live task already exists: the requester is attached as one more
    /// waiter; no compute logic re-executes.
    AttachedToExisting(DicePromise),
    /// A fresh task was installed (into a vacant slot, or replacing a
    /// cancelled predecessor) and must be driven to completion exactly once.
    Spawned { promise: DicePromise, previously_cancelled: bool },
    /// The cache generation is stale: the requester should yield and report
    /// the computation cancelled.
    CacheGone,
}

/// Context shared by all live computations of one (version, epoch) pair.
pub struct SharedLiveTransactionCtx {
    pub version: VersionNumber,
    pub version_epoch: VersionEpoch,
    pub cache: SharedCache,
}

impl SharedLiveTransactionCtx {
    pub fn new(v: VersionNumber, version_epoch: VersionEpoch, cache: SharedCache) -> (r:
        SharedLiveTransactionCtx)
        ensures
            r.version == v,
            r.version_epoch == version_epoch,
            r.cache == cache,
    {
        SharedLiveTransactionCtx { version: v, version_epoch, cache }
    }

    pub fn get_version(&self) -> (r: VersionNumber)
        ensures
            r == self.version,
    {
        self.version
    }

    /// The cancel-and-replace request protocol for one key's task slot.
    ///
    /// A vacant slot spawns a fresh task; a live task gains `parent` as a
    /// waiter without re-executing anything; a cancelled task is replaced
    /// whole by a fresh spawn (earlier waiters keep observing the cancelled
    /// instance); a stale generation answers that the cache is gone.
    pub fn compute_opaque(&mut self, key: DiceKey, parent: ParentKey) -> (r: RequestOutcome)
        requires
            old(self).cache.wf(),
            old(self).cache.spec_next_task_id() < u64::MAX,
        ensures
            final(self).cache.wf(),
            final(self).version == old(self).version,
            final(self).version_epoch == old(self).version_epoch,
            final(self).cache.spec_valid() == old(self).cache.spec_valid(),
            forall|i: int|
                i != key.index as int ==> #[trigger] final(self).cache.slot(i) == old(self).cache.slot(i),
            match r {
                RequestOutcome::CacheGone => {
                    &&& !old(self).cache.spec_valid()
                    &&& final(self).cache == old(self).cache
                },
                RequestOutcome::AttachedToExisting(p) => {
                    &&& old(self).cache.spec_valid()
                    &&& p.key == key
                    &&& old(self).cache.slot(key.index as int) matches Some(t0) && final(self).cache.slot(
                        key.index as int,
                    ) matches Some(t1) && {
                        &&& t0.spec_state() != DiceTaskState::Cancelled
                        &&& p.task_id == t0.spec_task_id()
                        &&& t1.spec_task_id() == t0.spec_task_id()
                        &&& t1.spec_state() == t0.spec_state()
                        &&& t1.spec_waiters() == t0.spec_waiters().push(parent)
                    }
                },
                RequestOutcome::Spawned { promise: p, previously_cancelled } => {
                    &&& old(self).cache.spec_valid()
                    &&& final(self).cache.spec_next_task_id() == old(self).cache.spec_next_task_id()
                        + 1
                    &&& p.key == key
                    &&& previously_cancelled == (old(self).cache.slot_state(key) == Some(
                        DiceTaskState::Cancelled,
                    ))
                    &&& !previously_cancelled ==> old(self).cache.slot_state(key) is None
                    &&& final(self).cache.slot(key.index as int) matches Some(t1) && {
                        &&& t1.spec_state() == DiceTaskState::Pending
                        &&& p.task_id == t1.spec_task_id()
                        &&& t1.spec_waiters() =~= seq![parent]
                        // the fresh instance never answers promises held on
                        // the cancelled predecessor
                        &&& (old(self).cache.slot(key.index as int) matches Some(t0) ==> t1
                            .spec_task_id() != t0.spec_task_id())
                    }
                },
            },
    {
        match self.cache.get_state(key) {
            None => RequestOutcome::CacheGone,
            Some(CacheEntry::Occupied(DiceTaskState::Cancelled)) => {
                self.cache.begin_task(key);
                match self.cache.depended_on_by(key, parent) {
                    MaybeCancelled::Attached(p) => RequestOutcome::Spawned {
                        promise: p,
                        previously_cancelled: true,
                    },
                    MaybeCancelled::Cancelled => {
                        proof {
                            assert(false);
                        }
                        RequestOutcome::CacheGone
                    },
                }
            },
            Some(CacheEntry::Occupied(_)) => {
                match self.cache.depended_on_by(key, parent) {
                    MaybeCancelled::Attached(p) => RequestOutcome::AttachedToExisting(p),
                    MaybeCancelled::Cancelled => {
                        proof {
                            assert(false);
                        }
                        RequestOutcome::CacheGone
                    },
                }
            },
            Some(CacheEntry::Vacant) => {
                self.cache.begin_task(key);
                match self.cache.depended_on_by(key, parent) {
                    MaybeCancelled::Attached(p) => RequestOutcome::Spawned {
                        promise: p,
                        previously_cancelled: false,
                    },
                    MaybeCancelled::Cancelled => {
                        proof {
                            assert(false);
                        }
                        RequestOutcome::CacheGone
                    },
                }
            },
        }
    }

    /// Resolves one projection key against this generation's cache.
    ///
    /// Projections are cheap synchronous computes that are never cancelled:
    /// a stale generation still derives the value from the resolved base,
    /// it just stores nothing.
    pub fn compute_projection(
        &mut self,
        d: &DiceData,
        ki: &KeyIndex,
        log: &mut Vec<DiceKey>,
        key: DiceKey,
        base_key: DiceKey,
        base: DiceComputedValue,
    ) -> (r: CancellableResult<DiceComputedValue>)
        requires
            d.wf(),
            ki.wf(),
            old(self).cache.wf(),
            old(self).cache.quiescent(),
            engine_inv(*d, ki@, old(self).cache),
            key.index < ki@.len(),
            ki@[key.index as int] matches DiceKeyErased::Projection { base: b, proj } && b
                == base_key && proj < d.num_projs(),
            base_key.index < ki@.len(),
            is_plain(ki@[base_key.index as int]),
            plain_payload(ki@[base_key.index as int]) < d.num_keys(),
            base.validity == DiceValidity::Valid ==> evals_to(
                *d,
                plain_payload(ki@[base_key.index as int]) as int,
                base.value,
            ),
        ensures
            final(self).cache.wf(),
            final(self).cache.quiescent(),
            final(self).cache.spec_valid() == old(self).cache.spec_valid(),
            final(self).version == old(self).version,
            final(self).version_epoch == old(self).version_epoch,
            engine_inv(*d, ki@, final(self).cache),
            ready_frozen(old(self).cache, final(self).cache),
            forall|i: int|
                i != key.index as int ==> #[trigger] final(self).cache.slot(i) == old(self).cache.slot(i),
            old(log)@.is_prefix_of(final(log)@),
            r is Ok,
            old(self).cache.spec_valid() ==> (r matches Ok(cv) ==> {
                &&& final(self).cache.slot_state(key) == Some(DiceTaskState::Ready(cv))
                &&& cv.validity == DiceValidity::Valid ==> proj_evals_to(
                    *d,
                    plain_payload(ki@[base_key.index as int]) as int,
                    proj_index(ki@[key.index as int]) as int,
                    cv.value,
                )
            }),
            old(self).cache.spec_valid() ==> (old(self).cache.slot_state(key) matches Some(
                DiceTaskState::Ready(v0),
            ) ==> r == Ok::<DiceComputedValue, crate::error::Cancelled>(v0) && final(log)@ == old(
                log,
            )@ && (forall|i: int|
                #[trigger] final(self).cache.slot(i) == old(self).cache.slot(i))),
            old(self).cache.spec_valid() && !(old(self).cache.slot_state(key) matches Some(
                DiceTaskState::Ready(_),
            )) ==> final(log)@ == old(log)@.push(key) && r == Ok::<
                DiceComputedValue,
                crate::error::Cancelled,
            >(
                DiceComputedValue {
                    value: crate::model::wadd(
                        base.value,
                        d.spec_proj_rules()[proj_index(ki@[key.index as int]) as int].offset,
                    ),
                    validity: base.validity,
                },
            ),
            no_transient(old(self).cache) && base.validity == DiceValidity::Valid ==>
                no_transient(final(self).cache) && (r matches Ok(cv) ==> cv.validity
                == DiceValidity::Valid),
            !old(self).cache.spec_valid() ==> final(log)@ == old(log)@ && (forall|i: int|
                #[trigger] final(self).cache.slot(i) == old(self).cache.slot(i)) && r == Ok::<
                DiceComputedValue,
                crate::error::Cancelled,
            >(
                DiceComputedValue {
                    value: crate::model::wadd(
                        base.value,
                        d.spec_proj_rules()[proj_index(ki@[key.index as int]) as int].offset,
                    ),
                    validity: base.validity,
                },
            ),
    {
        if self.cache.is_valid() {
            let cv = project_for_key(d, ki, &mut self.cache, log, key, base_key, base);
            Ok(cv)
        } else {
            // never cancelled: derive from the base without storing
            let proj = match ki.get(key) {
                DiceKeyErased::Projection { base: _, proj } => proj,
                DiceKeyErased::Key { .. } => {
                    proof {
                        assert(false);
                    }
                    0
                },
            };
            let prule = d.proj_rule(proj);
            let pv = wrap_add(base.value, prule.offset);
            proof {
                lemma_ready_frozen_refl(self.cache);
            }
            Ok(DiceComputedValue { value: pv, validity: base.validity })
        }
    }
}

/// The dense identity under which a projection of `base` by `proj` is
/// interned (meaningful only when it is interned).
pub open spec fn proj_key_of(ks: Seq<DiceKeyErased>, base: DiceKey, proj: u64) -> DiceKey {
    DiceKey {
        index: crate::cycles::first_occurrence(
            ks,
            DiceKeyErased::Projection { base, proj },
        ) as usize,
    }
}

/// One key read was recorded: `post`'s tracker extends `pre`'s by exactly
/// the dense identity interned for `key`, carrying the validity of the
/// value observed in `post`'s cache — and by nothing else.
pub open spec fn records_key_edge(pre: DiceComputations, post: DiceComputations, key: u64) -> bool {
    exists|dk: DiceKey|
        {
            &&& dk.index < post.key_index@.len()
            &&& post.key_index@[dk.index as int] == (DiceKeyErased::Key { payload: key })
            &&& (#[trigger] post.per_live_version_ctx.cache.slot(dk.index as int)) matches Some(t)
                && t.spec_state() matches DiceTaskState::Ready(cv) && tracker_records(
                pre.dep_trackers,
                post.dep_trackers,
                dk,
                cv.validity,
            )
        }
}

/// The context's shared tracker holds an edge for `key`: some dense
/// identity interned for it is among the recorded reads.
pub open spec fn tracker_holds_key(ctx: DiceComputations, key: u64) -> bool {
    exists|dk: DiceKey|
        {
            &&& dk.index < ctx.key_index@.len()
            &&& ctx.key_index@[dk.index as int] == (DiceKeyErased::Key { payload: key })
            &&& #[trigger] ctx.dep_trackers.recorded().contains(dk)
        }
}

/// One projection read was recorded: exactly the projection's dense
/// identity entered the edge set — never the base key's.
pub open spec fn records_projection_edge(
    pre: DiceComputations,
    post: DiceComputations,
    base: DiceKey,
    proj: u64,
) -> bool {
    exists|dk: DiceKey, vv: DiceValidity|
        {
            &&& dk.index < post.key_index@.len()
            &&& post.key_index@[dk.index as int] == (DiceKeyErased::Projection { base, proj })
            &&& #[trigger] tracker_records(pre.dep_trackers, post.dep_trackers, dk, vv)
        }
}

/// The context for computations to request dependencies through. Every key
/// resolved through it is recorded for caching and future invalidation.
pub struct DiceComputations {
    pub per_live_version_ctx: SharedLiveTransactionCtx,
    pub key_index: KeyIndex,
    pub global_data: DiceData,
    pub user_data: UserComputationData,
    pub parent_key: ParentKey,
    pub cycle_guard_value: Option<u64>,
    pub dep_trackers: RecordingDepsTracker,
    pub evaluation_data: EvaluationData,
    /// Every evaluation this context actually spawned, in spawn order —
    /// reused tasks never appear. This is what activation observers see;
    /// it is also the witness that attaching to a task re-executes nothing.
    pub spawn_log: Vec<DiceKey>,
}

impl DiceComputations {
    /// Everything the engine relies on: closed rule tables, an unambiguous
    /// interner, and a cache whose completed entries are pinned to the
    /// evaluation model.
    pub open spec fn wf(self) -> bool {
        &&& self.global_data.wf()
        &&& self.key_index.wf()
        &&& self.per_live_version_ctx.cache.wf()
        &&& engine_inv(self.global_data, self.key_index@, self.per_live_version_ctx.cache)
        &&& self.dep_trackers.wf()
    }

    /// No evaluation is in flight: the synchronous driver resolves each
    /// request to completion before returning.
    pub open spec fn quiescent(self) -> bool {
        self.per_live_version_ctx.cache.quiescent()
    }

    /// The structural key `key` already has an identity, and its slot holds
    /// a completed value `v`.
    pub open spec fn cached_value(self, key: u64, v: u64) -> bool {
        exists|i: int|
            {
                &&& 0 <= i < self.key_index@.len()
                &&& self.key_index@[i] == (DiceKeyErased::Key { payload: key })
                &&& (#[trigger] self.per_live_version_ctx.cache.slot(i)) matches Some(t)
                    && t.spec_state() matches DiceTaskState::Ready(cv) && cv.value == v && (
                cv.validity == DiceValidity::Valid ==> evals_to(self.global_data, key as int, v))
            }
    }

    /// The projection of `base` under rule `proj` already has an identity,
    /// and its slot holds a completed value `v`.
    pub open spec fn cached_projection(self, base: DiceKey, proj: u64, v: u64) -> bool {
        exists|i: int|
            {
                &&& 0 <= i < self.key_index@.len()
                &&& self.key_index@[i] == (DiceKeyErased::Projection { base, proj })
                &&& (#[trigger] self.per_live_version_ctx.cache.slot(i)) matches Some(t)
                    && t.spec_state() matches DiceTaskState::Ready(cv) && cv.value == v
            }
    }

    pub fn new(
        global_data: DiceData,
        user_data: UserComputationData,
        per_live_version_ctx: SharedLiveTransactionCtx,
        parent_key: ParentKey,
        cycle_guard_value: Option<u64>,
    ) -> (r: DiceComputations)
        requires
            global_data.wf(),
            per_live_version_ctx.cache.wf(),
            forall|i: int|
                !((#[trigger] per_live_version_ctx.cache.slot(i)) matches Some(t)
                    && t.spec_state() matches DiceTaskState::Ready(_)),
        ensures
            r.wf(),
            r.per_live_version_ctx == per_live_version_ctx,
            r.global_data == global_data,
            r.user_data == user_data,
            r.parent_key == parent_key,
            r.cycle_guard_value == cycle_guard_value,
            r.key_index@ =~= Seq::<DiceKeyErased>::empty(),
            r.dep_trackers.recorded() =~= Seq::<DiceKey>::empty(),
            r.dep_trackers.validity() == DiceValidity::Valid,
            r.evaluation_data.value is None,
            r.spawn_log@ =~= Seq::<DiceKey>::empty(),
    {
        DiceComputations {
            per_live_version_ctx,
            key_index: KeyIndex::new(),
            global_data,
            user_data,
            parent_key,
            cycle_guard_value,
            dep_trackers: RecordingDepsTracker::new(),
            evaluation_data: EvaluationData::none(),
            spawn_log: Vec::new(),
        }
    }

    pub fn get_version(&self) -> (r: VersionNumber)
        ensures
            r == self.per_live_version_ctx.version,
    {
        self.per_live_version_ctx.get_version()
    }

    /// Data fixed for the engine's entire lifetime.
    pub fn global_data(&self) -> (r: &DiceData)
        ensures
            *r == self.global_data,
    {
        &self.global_data
    }

    /// Data fixed for the current top-level request, distinct per
    /// concurrent request.
    pub fn per_transaction_data(&self) -> (r: &UserComputationData)
        ensures
            *r == self.user_data,
    {
        &self.user_data
    }

    /// The cycle-detection guard installed for this request chain, if any.
    pub fn cycle_guard(&self) -> (r: DiceResult<Option<u64>>)
        ensures
            r == Ok::<Option<u64>, DiceError>(self.cycle_guard_value),
    {
        Ok(self.cycle_guard_value)
    }

    /// Stores the single evaluation payload for the current evaluation;
    /// storing twice is an error, surfaced immediately.
    pub fn store_evaluation_data(&mut self, value: u64) -> (r: DiceResult<()>)
        ensures
            *final(self) == (DiceComputations {
                evaluation_data: final(self).evaluation_data,
                ..*old(self)
            }),
            old(self).evaluation_data.value is Some ==> r == Err::<(), DiceError>(
                DiceError::DuplicateActivationData,
            ) && final(self).evaluation_data == old(self).evaluation_data,
            old(self).evaluation_data.value is None ==> r == Ok::<(), DiceError>(())
                && final(self).evaluation_data.value == Some(value),
    {
        match self.evaluation_data.value {
            Some(_) => Err(DiceError::duplicate_activation_data()),
            None => {
                self.evaluation_data.value = Some(value);
                Ok(())
            },
        }
    }

    /// Computes an "opaque" value for `key`: the memoized value is resolved
    /// (or evaluated exactly once) but no dependency edge is recorded yet —
    /// edges arise from the projections derived from it, or from unwrapping
    /// it whole.
    pub fn compute_opaque(&mut self, key: u64) -> (r: DiceResult<OpaqueValue>)
        requires
            old(self).wf(),
            old(self).quiescent(),
            key < old(self).global_data.num_keys(),
        ensures
            final(self).wf(),
            final(self).quiescent(),
            *final(self) == (DiceComputations {
                per_live_version_ctx: final(self).per_live_version_ctx,
                key_index: final(self).key_index,
                spawn_log: final(self).spawn_log,
                ..*old(self)
            }),
            final(self).per_live_version_ctx.version == old(self).per_live_version_ctx.version,
            final(self).per_live_version_ctx.cache.spec_valid() == old(self).per_live_version_ctx.cache.spec_valid(),
            old(self).key_index@.is_prefix_of(final(self).key_index@),
            ready_frozen(
                old(self).per_live_version_ctx.cache,
                final(self).per_live_version_ctx.cache,
            ),
            old(self).spawn_log@.is_prefix_of(final(self).spawn_log@),
            old(self).per_live_version_ctx.cache.spec_valid() ==> (forall|v: u64|
                old(self).cached_value(key, v) ==> (r matches Ok(o) && o.value.value == v
                    && final(self).spawn_log@ == old(self).spawn_log@ && final(self).key_index@
                    == old(self).key_index@ && (forall|j: int|
                    #[trigger] final(self).per_live_version_ctx.cache.slot(j) == old(self).per_live_version_ctx.cache.slot(j)))),
            r matches Ok(o) ==> {
                &&& o.derive_from_key.index < final(self).key_index@.len()
                &&& final(self).key_index@[o.derive_from_key.index as int] == (DiceKeyErased::Key {
                    payload: key,
                })
                &&& final(self).per_live_version_ctx.cache.slot_state(o.derive_from_key) == Some(
                    DiceTaskState::Ready(o.value),
                )
                &&& o.value.validity == DiceValidity::Valid ==> evals_to(
                    old(self).global_data,
                    key as int,
                    o.value.value,
                )
                &&& final(self).cached_value(key, o.value.value)
            },
            r == Err::<OpaqueValue, DiceError>(DiceError::Cancelled) ==> !old(self).per_live_version_ctx.cache.spec_valid(),
            r matches Err(e) ==> e == DiceError::Cancelled || is_cycle_err(
                old(self).global_data,
                e,
            ),
            r matches Err(e) ==> requested_cycle_err(
                old(self).global_data,
                Seq::<u64>::empty(),
                key,
                e,
            ),
            no_transient(old(self).per_live_version_ctx.cache) ==> no_transient(
                final(self).per_live_version_ctx.cache,
            ) && (r matches Ok(o) ==> o.value.validity == DiceValidity::Valid && evals_to(
                old(self).global_data,
                key as int,
                o.value.value,
            )),
            !old(self).per_live_version_ctx.cache.spec_valid() ==> r == Err::<
                OpaqueValue,
                DiceError,
            >(DiceError::Cancelled),
    {
        let ghost pre = *self;
        let dk = self.key_index.index(DiceKeyErased::Key { payload: key });
        proof {
            lemma_engine_inv_prefix(
                self.global_data,
                pre.key_index@,
                self.key_index@,
                self.per_live_version_ctx.cache,
            );
        }
        let mut chain: Vec<u64> = Vec::new();
        proof {
            assert(chain@ =~= Seq::<u64>::empty());
        }
        let res = eval_for_key(
            &self.global_data,
            &mut self.key_index,
            &mut self.per_live_version_ctx.cache,
            &mut self.spawn_log,
            &mut chain,
            dk,
        );
        proof {
            if pre.key_index@.contains(DiceKeyErased::Key { payload: key }) {
                assert(pre.key_index@[dk.index as int] == (DiceKeyErased::Key { payload: key }));
            }
            if pre.per_live_version_ctx.cache.spec_valid() {
                assert forall|v: u64| pre.cached_value(key, v) implies res matches Ok(cv)
                    && cv.value == v by {
                    let i = choose|i: int|
                        {
                            &&& 0 <= i < pre.key_index@.len()
                            &&& pre.key_index@[i] == (DiceKeyErased::Key { payload: key })
                            &&& (#[trigger] pre.per_live_version_ctx.cache.slot(i)) matches Some(
                                t,
                            ) && t.spec_state() matches DiceTaskState::Ready(cv) && cv.value == v
                                && (cv.validity == DiceValidity::Valid ==> evals_to(
                                pre.global_data,
                                key as int,
                                v,
                            ))
                        };
                    assert(pre.key_index@.contains(DiceKeyErased::Key { payload: key }));
                    assert(i == dk.index as int);
                }
            }
        }
        match res {
            Ok(cv) => {
                let o = OpaqueValue { derive_from_key: dk, value: cv };
                proof {
                    assert(final(self).cached_value(key, cv.value)) by {
                        assert(self.key_index@[dk.index as int] == (DiceKeyErased::Key {
                            payload: key,
                        }));
                        assert(self.per_live_version_ctx.cache.slot(dk.index as int) matches Some(
                            t,
                        ) && t.spec_state() matches DiceTaskState::Ready(v) && v == cv);
                    }
                }
                Ok(o)
            },
            Err(e) => Err(e),
        }
    }

    /// Unwraps an opaque value, recording the full base key as this
    /// evaluation's dependency.
    pub fn opaque_into_value(&mut self, derive_from: OpaqueValue) -> (r: DiceResult<u64>)
        requires
            old(self).dep_trackers.wf(),
        ensures
            *final(self) == (DiceComputations {
                dep_trackers: final(self).dep_trackers,
                ..*old(self)
            }),
            final(self).dep_trackers.wf(),
            r == Ok::<u64, DiceError>(derive_from.value.value),
            final(self).dep_trackers.recorded().contains(derive_from.derive_from_key),
            old(self).dep_trackers.recorded().contains(derive_from.derive_from_key) ==> final(self).dep_trackers.recorded() == old(self).dep_trackers.recorded(),
            !old(self).dep_trackers.recorded().contains(derive_from.derive_from_key) ==> final(self).dep_trackers.recorded() == old(self).dep_trackers.recorded().push(
                derive_from.derive_from_key,
            ),
            final(self).dep_trackers.validity() == old(self).dep_trackers.validity().spec_and(
                derive_from.value.validity,
            ),
    {
        self.dep_trackers.record(derive_from.derive_from_key, derive_from.value.validity);
        Ok(derive_from.value.value)
    }

    /// Computes the memoized value for `key`, recording exactly that key's
    /// identity as this evaluation's dependency edge. Fails with a cycle
    /// error — carrying the key whose re-request closed the cycle and the
    /// open chain that was followed to it — or, when the cache generation
    /// is stale, with cancellation.
    pub fn compute(&mut self, key: u64) -> (r: DiceResult<u64>)
        requires
            old(self).wf(),
            old(self).quiescent(),
            key < old(self).global_data.num_keys(),
        ensures
            final(self).wf(),
            final(self).quiescent(),
            *final(self) == (DiceComputations {
                per_live_version_ctx: final(self).per_live_version_ctx,
                key_index: final(self).key_index,
                spawn_log: final(self).spawn_log,
                dep_trackers: final(self).dep_trackers,
                ..*old(self)
            }),
            final(self).per_live_version_ctx.version == old(self).per_live_version_ctx.version,
            final(self).per_live_version_ctx.cache.spec_valid() == old(self).per_live_version_ctx.cache.spec_valid(),
            old(self).key_index@.is_prefix_of(final(self).key_index@),
            ready_frozen(
                old(self).per_live_version_ctx.cache,
                final(self).per_live_version_ctx.cache,
            ),
            old(self).spawn_log@.is_prefix_of(final(self).spawn_log@),
            final(self).dep_trackers.wf(),
            old(self).per_live_version_ctx.cache.spec_valid() ==> (forall|v: u64|
                old(self).cached_value(key, v) ==> r == Ok::<u64, DiceError>(v) && final(self).spawn_log@ == old(self).spawn_log@ && (forall|j: int|
                    #[trigger] final(self).per_live_version_ctx.cache.slot(j) == old(self).per_live_version_ctx.cache.slot(j))),
            r matches Ok(v) ==> final(self).cached_value(key, v),
            r == Err::<u64, DiceError>(DiceError::Cancelled) ==> !old(self).per_live_version_ctx.cache.spec_valid(),
            r matches Err(e) ==> e == DiceError::Cancelled || is_cycle_err(
                old(self).global_data,
                e,
            ),
            r matches Err(e) ==> requested_cycle_err(
                old(self).global_data,
                Seq::<u64>::empty(),
                key,
                e,
            ),
            no_transient(old(self).per_live_version_ctx.cache) ==> no_transient(
                final(self).per_live_version_ctx.cache,
            ) && (r matches Ok(v) ==> evals_to(old(self).global_data, key as int, v)),
            r is Ok ==> records_key_edge(*old(self), *final(self), key),
            r is Err ==> final(self).dep_trackers == old(self).dep_trackers,
            !old(self).per_live_version_ctx.cache.spec_valid() ==> r == Err::<u64, DiceError>(
                DiceError::Cancelled,
            ),
    {
        let o = match self.compute_opaque(key) {
            Ok(o) => o,
            Err(e) => {
                return Err(e);
            },
        };
        let r = self.opaque_into_value(o);
        proof {
            assert(records_key_edge(*old(self), *self, key)) by {
                let i = o.derive_from_key.index as int;
                assert(self.key_index@[i] == (DiceKeyErased::Key { payload: key }));
                assert(self.per_live_version_ctx.cache.slot(i) matches Some(t) && t.spec_state()
                    matches DiceTaskState::Ready(cv) && cv == o.value);
                assert(tracker_records(
                    old(self).dep_trackers,
                    self.dep_trackers,
                    o.derive_from_key,
                    o.value.validity,
                ));
            }
        }
        r
    }

    /// Derives a projection of an opaque base value, synchronously: the
    /// cached projection task is reused if present, else the derivation
    /// runs once from the already-resolved base value. Only the projection
    /// key — not the base — is recorded as this evaluation's dependency.
    pub fn projection(&mut self, derive_from: &OpaqueValue, projection_key: u64) -> (r: DiceResult<
        u64,
    >)
        requires
            old(self).wf(),
            old(self).quiescent(),
            derive_from.derive_from_key.index < old(self).key_index@.len(),
            is_plain(old(self).key_index@[derive_from.derive_from_key.index as int]),
            plain_payload(old(self).key_index@[derive_from.derive_from_key.index as int]) < old(self).global_data.num_keys(),
            derive_from.value.validity == DiceValidity::Valid ==> evals_to(
                old(self).global_data,
                plain_payload(
                    old(self).key_index@[derive_from.derive_from_key.index as int],
                ) as int,
                derive_from.value.value,
            ),
            projection_key < old(self).global_data.num_projs(),
        ensures
            final(self).wf(),
            final(self).quiescent(),
            *final(self) == (DiceComputations {
                per_live_version_ctx: final(self).per_live_version_ctx,
                key_index: final(self).key_index,
                spawn_log: final(self).spawn_log,
                dep_trackers: final(self).dep_trackers,
                ..*old(self)
            }),
            final(self).per_live_version_ctx.cache.spec_valid() == old(self).per_live_version_ctx.cache.spec_valid(),
            old(self).key_index@.is_prefix_of(final(self).key_index@),
            ready_frozen(
                old(self).per_live_version_ctx.cache,
                final(self).per_live_version_ctx.cache,
            ),
            old(self).spawn_log@.is_prefix_of(final(self).spawn_log@),
            final(self).dep_trackers.wf(),
            r is Ok,
            r is Ok ==> records_projection_edge(
                *old(self),
                *final(self),
                derive_from.derive_from_key,
                projection_key,
            ),
            old(self).per_live_version_ctx.cache.spec_valid() ==> (forall|v: u64|
                old(self).cached_projection(derive_from.derive_from_key, projection_key, v) ==> r
                    == Ok::<u64, DiceError>(v) && final(self).spawn_log@ == old(self).spawn_log@
                    && (forall|j: int|
                    #[trigger] final(self).per_live_version_ctx.cache.slot(j) == old(self).per_live_version_ctx.cache.slot(j))),
            old(self).per_live_version_ctx.cache.spec_valid() && !(exists|v: u64|
                old(self).cached_projection(derive_from.derive_from_key, projection_key, v)) ==> r
                == Ok::<u64, DiceError>(
                crate::model::wadd(
                    derive_from.value.value,
                    old(self).global_data.spec_proj_rules()[projection_key as int].offset,
                ),
            ) && final(self).spawn_log@.len() == old(self).spawn_log@.len() + 1,
            no_transient(old(self).per_live_version_ctx.cache) && derive_from.value.validity
                == DiceValidity::Valid ==> no_transient(final(self).per_live_version_ctx.cache)
                && (r matches Ok(v) ==> proj_evals_to(
                old(self).global_data,
                plain_payload(
                    old(self).key_index@[derive_from.derive_from_key.index as int],
                ) as int,
                projection_key as int,
                v,
            )),
            !old(self).per_live_version_ctx.cache.spec_valid() ==> r == Ok::<u64, DiceError>(
                crate::model::wadd(
                    derive_from.value.value,
                    old(self).global_data.spec_proj_rules()[projection_key as int].offset,
                ),
            ),
            old(self).per_live_version_ctx.cache.spec_valid() ==> (r matches Ok(v) ==> exists|
                cv: DiceComputedValue,
            |
                {
                    &&& final(self).per_live_version_ctx.cache.slot_state(
                        proj_key_of(final(self).key_index@, derive_from.derive_from_key, projection_key),
                    ) == Some(DiceTaskState::Ready(cv))
                    &&& #[trigger] cv.value == v
                    &&& cv.validity == DiceValidity::Valid ==> proj_evals_to(
                        old(self).global_data,
                        plain_payload(
                            old(self).key_index@[derive_from.derive_from_key.index as int],
                        ) as int,
                        projection_key as int,
                        v,
                    )
                }),
    {
        let ghost pre = *self;
        let pdk = self.key_index.index(
            DiceKeyErased::Projection { base: derive_from.derive_from_key, proj: projection_key },
        );
        proof {
            lemma_engine_inv_prefix(
                self.global_data,
                pre.key_index@,
                self.key_index@,
                self.per_live_version_ctx.cache,
            );
        }
        let pres = self.per_live_version_ctx.compute_projection(
            &self.global_data,
            &self.key_index,
            &mut self.spawn_log,
            pdk,
            derive_from.derive_from_key,
            derive_from.value,
        );
        match pres {
            Ok(pcv) => {
                self.dep_trackers.record(pdk, pcv.validity);
                proof {
                    crate::cycles::lemma_first_occurrence(
                        self.key_index@,
                        DiceKeyErased::Projection {
                            base: derive_from.derive_from_key,
                            proj: projection_key,
                        },
                        pdk.index as int,
                    );
                    assert(proj_key_of(
                        self.key_index@,
                        derive_from.derive_from_key,
                        projection_key,
                    ) == pdk);
                    assert(records_projection_edge(
                        *old(self),
                        *self,
                        derive_from.derive_from_key,
                        projection_key,
                    )) by {
                        assert(self.key_index@[pdk.index as int] == (DiceKeyErased::Projection {
                            base: derive_from.derive_from_key,
                            proj: projection_key,
                        }));
                        assert(tracker_records(
                            old(self).dep_trackers,
                            self.dep_trackers,
                            pdk,
                            pcv.validity,
                        ));
                    }
                    let pkey = DiceKeyErased::Projection {
                        base: derive_from.derive_from_key,
                        proj: projection_key,
                    };
                    if pre.key_index@.contains(pkey) {
                        assert(pre.key_index@[pdk.index as int] == pkey);
                    }
                    if pre.per_live_version_ctx.cache.spec_valid() {
                        assert forall|v: u64|
                            pre.cached_projection(
                                derive_from.derive_from_key,
                                projection_key,
                                v,
                            ) implies pcv.value == v by {
                            let i = choose|i: int|
                                {
                                    &&& 0 <= i < pre.key_index@.len()
                                    &&& pre.key_index@[i] == pkey
                                    &&& (#[trigger] pre.per_live_version_ctx.cache.slot(i))
                                        matches Some(t) && t.spec_state() matches
                                        DiceTaskState::Ready(cv) && cv.value == v
                                };
                            assert(pre.key_index@.contains(pkey));
                            assert(i == pdk.index as int);
                        }
                        if !(exists|v: u64|
                            pre.cached_projection(
                                derive_from.derive_from_key,
                                projection_key,
                                v,
                            )) {
                            // the slot cannot already be completed: a completed
                            // projection at an interned identity would be cached,
                            // and one beyond the interner has no completed entry
                            match pre.per_live_version_ctx.cache.slot(pdk.index as int) {
                                Some(t) => match t.spec_state() {
                                    DiceTaskState::Ready(cv) => {
                                        if (pdk.index as int) < pre.key_index@.len() {
                                            assert(pre.cached_projection(
                                                derive_from.derive_from_key,
                                                projection_key,
                                                cv.value,
                                            ));
                                        } else {
                                            assert(crate::incremental::entry_ok(
                                                pre.global_data,
                                                pre.key_index@,
                                                pdk.index as int,
                                                t,
                                            ));
                                        }
                                        assert(false);
                                    },
                                    _ => {},
                                },
                                None => {},
                            }
                        }
                    }
                }
                Ok(pcv.value)
            },
            Err(_) => {
                proof {
                    assert(false);  // projections are never cancelled
                }
                Err(DiceError::cancelled())
            },
        }
    }

    /// Runs the given sub-computations from within one evaluation; results
    /// come back positionally matching the caller's input order, exactly as
    /// if each key had been computed in sequence; every key is still
    /// deduplicated against anything already memoized, and every branch's
    /// dependency edge lands in this context's one shared tracker.
    #[verifier::loop_isolation(false)]
    #[verifier::rlimit(60)]
    pub fn compute_many(&mut self, keys: &Vec<u64>) -> (r: Vec<DiceResult<u64>>)
        requires
            old(self).wf(),
            old(self).quiescent(),
            forall|i: int|
                0 <= i < keys@.len() ==> (#[trigger] keys@[i]) < old(self).global_data.num_keys(),
        ensures
            final(self).wf(),
            final(self).quiescent(),
            *final(self) == (DiceComputations {
                per_live_version_ctx: final(self).per_live_version_ctx,
                key_index: final(self).key_index,
                spawn_log: final(self).spawn_log,
                dep_trackers: final(self).dep_trackers,
                ..*old(self)
            }),
            final(self).per_live_version_ctx.cache.spec_valid() == old(self).per_live_version_ctx.cache.spec_valid(),
            old(self).key_index@.is_prefix_of(final(self).key_index@),
            ready_frozen(
                old(self).per_live_version_ctx.cache,
                final(self).per_live_version_ctx.cache,
            ),
            old(self).spawn_log@.is_prefix_of(final(self).spawn_log@),
            old(self).dep_trackers.recorded().is_prefix_of(final(self).dep_trackers.recorded()),
            final(self).dep_trackers.wf(),
            r@.len() == keys@.len(),
            forall|i: int|
                0 <= i < keys@.len() ==> ((#[trigger] r@[i]) matches Ok(v) ==> final(self).cached_value(keys@[i], v)),
            // dedup: a key already completed before the request answers from
            // its completed entry, for every branch that names it
            old(self).per_live_version_ctx.cache.spec_valid() ==> (forall|i: int, v: u64|
                0 <= i < keys@.len() && #[trigger] old(self).cached_value(#[trigger] keys@[i], v)
                    ==> r@[i] == Ok::<u64, DiceError>(v)),
            // each resolved branch records its key's identity into the one
            // shared tracker
            forall|i: int|
                0 <= i < keys@.len() ==> ((#[trigger] r@[i]) is Ok ==> exists|dk: DiceKey|
                    {
                        &&& dk.index < final(self).key_index@.len()
                        &&& final(self).key_index@[dk.index as int] == (DiceKeyErased::Key {
                            payload: keys@[i],
                        })
                        &&& #[trigger] final(self).dep_trackers.recorded().contains(dk)
                    }),
            // and nothing else does: every new edge is one of the requested keys
            forall|x: int|
                old(self).dep_trackers.recorded().len() <= x < final(self).dep_trackers.recorded().len() ==> {
                    &&& (#[trigger] final(self).dep_trackers.recorded()[x]).index < final(self).key_index@.len()
                    &&& is_plain(
                        final(self).key_index@[final(self).dep_trackers.recorded()[x].index as int],
                    )
                    &&& keys@.contains(
                        plain_payload(
                            final(self).key_index@[final(self).dep_trackers.recorded()[x].index as int],
                        ),
                    )
                },
            forall|i: int|
                0 <= i < keys@.len() ==> ((#[trigger] r@[i]) matches Err(e) ==> e
                    == DiceError::Cancelled || is_cycle_err(old(self).global_data, e)),
            forall|i: int|
                0 <= i < keys@.len() ==> ((#[trigger] r@[i]) matches Err(e) ==> requested_cycle_err(
                    old(self).global_data,
                    Seq::<u64>::empty(),
                    keys@[i],
                    e,
                )),
            old(self).per_live_version_ctx.cache.spec_valid() ==> (forall|i: int|
                0 <= i < keys@.len() ==> (#[trigger] r@[i]) != Err::<u64, DiceError>(
                    DiceError::Cancelled,
                )),
            !old(self).per_live_version_ctx.cache.spec_valid() ==> (forall|i: int|
                0 <= i < keys@.len() ==> (#[trigger] r@[i]) == Err::<u64, DiceError>(
                    DiceError::Cancelled,
                )),
            no_transient(old(self).per_live_version_ctx.cache) ==> no_transient(
                final(self).per_live_version_ctx.cache,
            ) && (forall|i: int|
                0 <= i < keys@.len() ==> ((#[trigger] r@[i]) matches Ok(v) ==> evals_to(
                    old(self).global_data,
                    keys@[i] as int,
                    v,
                ))),
    {
        let ghost pre = *self;
        let n = keys.len();
        let mut results: Vec<DiceResult<u64>> = Vec::new();
        let mut i: usize = 0;
        while i < n
            invariant
                i <= n,
                n == keys@.len(),
                results@.len() == i,
                self.wf(),
                self.quiescent(),
                *self == (DiceComputations {
                    per_live_version_ctx: self.per_live_version_ctx,
                    key_index: self.key_index,
                    spawn_log: self.spawn_log,
                    dep_trackers: self.dep_trackers,
                    ..pre
                }),
                self.per_live_version_ctx.cache.spec_valid()
                    == pre.per_live_version_ctx.cache.spec_valid(),
                pre.key_index@.is_prefix_of(self.key_index@),
                ready_frozen(
                    pre.per_live_version_ctx.cache,
                    self.per_live_version_ctx.cache,
                ),
                pre.spawn_log@.is_prefix_of(self.spawn_log@),
                pre.dep_trackers.recorded().is_prefix_of(self.dep_trackers.recorded()),
                forall|j: int|
                    0 <= j < i ==> ((#[trigger] results@[j]) matches Ok(v) ==> self.cached_value(
                        keys@[j],
                        v,
                    )),
                pre.per_live_version_ctx.cache.spec_valid() ==> (forall|j: int, v: u64|
                    0 <= j < i && #[trigger] pre.cached_value(#[trigger] keys@[j], v)
                        ==> results@[j] == Ok::<u64, DiceError>(v)),
                forall|j: int|
                    0 <= j < i ==> ((#[trigger] results@[j]) is Ok ==> exists|dk: DiceKey|
                        {
                            &&& dk.index < self.key_index@.len()
                            &&& self.key_index@[dk.index as int] == (DiceKeyErased::Key {
                                payload: keys@[j],
                            })
                            &&& #[trigger] self.dep_trackers.recorded().contains(dk)
                        }),
                forall|x: int|
                    pre.dep_trackers.recorded().len() <= x < self.dep_trackers.recorded().len()
                        ==> {
                        &&& (#[trigger] self.dep_trackers.recorded()[x]).index
                            < self.key_index@.len()
                        &&& is_plain(
                            self.key_index@[self.dep_trackers.recorded()[x].index as int],
                        )
                        &&& keys@.contains(
                            plain_payload(
                                self.key_index@[self.dep_trackers.recorded()[x].index as int],
                            ),
                        )
                    },
                forall|j: int|
                    0 <= j < i ==> ((#[trigger] results@[j]) matches Err(e) ==> e
                        == DiceError::Cancelled || is_cycle_err(pre.global_data, e)),
                forall|j: int|
                    0 <= j < i ==> ((#[trigger] results@[j]) matches Err(e)
                        ==> requested_cycle_err(
                        pre.global_data,
                        Seq::<u64>::empty(),
                        keys@[j],
                        e,
                    )),
                pre.per_live_version_ctx.cache.spec_valid() ==> (forall|j: int|
                    0 <= j < i ==> (#[trigger] results@[j]) != Err::<u64, DiceError>(
                        DiceError::Cancelled,
                    )),
                !pre.per_live_version_ctx.cache.spec_valid() ==> (forall|j: int|
                    0 <= j < i ==> (#[trigger] results@[j]) == Err::<u64, DiceError>(
                        DiceError::Cancelled,
                    )),
                no_transient(pre.per_live_version_ctx.cache) ==> no_transient(
                    self.per_live_version_ctx.cache,
                ) && (forall|j: int|
                    0 <= j < i ==> ((#[trigger] results@[j]) matches Ok(v) ==> evals_to(
                        pre.global_data,
                        keys@[j] as int,
                        v,
                    ))),
            decreases n - i,
        {
            let ghost mid = *self;
            let one = self.compute(keys[i]);
            proof {
                lemma_prefix_trans(pre.key_index@, mid.key_index@, self.key_index@);
                lemma_ready_frozen_trans(
                    pre.per_live_version_ctx.cache,
                    mid.per_live_version_ctx.cache,
                    self.per_live_version_ctx.cache,
                );
                lemma_prefix_trans(pre.spawn_log@, mid.spawn_log@, self.spawn_log@);
                assert(mid.dep_trackers.recorded().is_prefix_of(self.dep_trackers.recorded()))
                    by {
                    if !(self.dep_trackers.recorded() == mid.dep_trackers.recorded()) {
                        assert(mid.dep_trackers.recorded() =~= self.dep_trackers.recorded()
                            .subrange(0, mid.dep_trackers.recorded().len() as int));
                    }
                }
                lemma_prefix_trans(
                    pre.dep_trackers.recorded(),
                    mid.dep_trackers.recorded(),
                    self.dep_trackers.recorded(),
                );
                // earlier branches' facts persist: identities and recorded
                // edges only accumulate
                assert forall|j: int|
                    0 <= j < i implies ((#[trigger] results@[j]) matches Ok(v)
                    ==> self.cached_value(keys@[j], v)) by {
                    match results@[j] {
                        Ok(v) => {
                            lemma_cached_value_frozen(mid, *self, keys@[j], v);
                        },
                        Err(_) => {},
                    }
                }
                assert forall|j: int|
                    0 <= j < i implies ((#[trigger] results@[j]) is Ok ==> exists|dk: DiceKey|
                        {
                            &&& dk.index < self.key_index@.len()
                            &&& self.key_index@[dk.index as int] == (DiceKeyErased::Key {
                                payload: keys@[j],
                            })
                            &&& #[trigger] self.dep_trackers.recorded().contains(dk)
                        }) by {
                    if results@[j] is Ok {
                        let dk = choose|dk: DiceKey|
                            {
                                &&& dk.index < mid.key_index@.len()
                                &&& mid.key_index@[dk.index as int] == (DiceKeyErased::Key {
                                    payload: keys@[j],
                                })
                                &&& #[trigger] mid.dep_trackers.recorded().contains(dk)
                            };
                        assert(self.key_index@[dk.index as int] == mid.key_index@[dk.index as int]);
                        let y = choose|y: int|
                            0 <= y < mid.dep_trackers.recorded().len()
                                && mid.dep_trackers.recorded()[y] == dk;
                        assert(self.dep_trackers.recorded()[y] == dk);
                        assert(self.dep_trackers.recorded().contains(dk));
                    }
                }
                // the branch just run: dedup, recording, and error pinning
                if pre.per_live_version_ctx.cache.spec_valid() {
                    assert forall|v: u64| #[trigger]
                        pre.cached_value(keys@[i as int], v) implies one == Ok::<u64, DiceError>(
                        v,
                    ) by {
                        lemma_cached_value_frozen(pre, mid, keys@[i as int], v);
                    }
                }
                if one is Ok {
                    assert(records_key_edge(mid, *self, keys@[i as int]));
                    let dk = choose|dk: DiceKey|
                        {
                            &&& dk.index < self.key_index@.len()
                            &&& self.key_index@[dk.index as int] == (DiceKeyErased::Key {
                                payload: keys@[i as int],
                            })
                            &&& (#[trigger] self.per_live_version_ctx.cache.slot(
                                dk.index as int,
                            )) matches Some(t) && t.spec_state() matches DiceTaskState::Ready(
                                cv,
                            ) && tracker_records(
                                mid.dep_trackers,
                                self.dep_trackers,
                                dk,
                                cv.validity,
                            )
                        };
                    assert(self.dep_trackers.recorded().contains(dk));
                }
                // every edge this iteration added names the branch's key
                assert forall|x: int|
                    mid.dep_trackers.recorded().len() <= x < self.dep_trackers.recorded().len()
                        implies {
                    &&& (#[trigger] self.dep_trackers.recorded()[x]).index
                        < self.key_index@.len()
                    &&& is_plain(self.key_index@[self.dep_trackers.recorded()[x].index as int])
                    &&& keys@.contains(
                        plain_payload(
                            self.key_index@[self.dep_trackers.recorded()[x].index as int],
                        ),
                    )
                } by {
                    match one {
                        Err(_) => {
                            // an error records nothing: the range is empty
                            assert(self.dep_trackers == mid.dep_trackers);
                            assert(false);
                        },
                        Ok(_) => {
                            let dk = choose|dk: DiceKey|
                                {
                                    &&& dk.index < self.key_index@.len()
                                    &&& self.key_index@[dk.index as int] == (DiceKeyErased::Key {
                                        payload: keys@[i as int],
                                    })
                                    &&& (#[trigger] self.per_live_version_ctx.cache.slot(
                                        dk.index as int,
                                    )) matches Some(t) && t.spec_state() matches
                                        DiceTaskState::Ready(cv) && tracker_records(
                                        mid.dep_trackers,
                                        self.dep_trackers,
                                        dk,
                                        cv.validity,
                                    )
                                };
                            if mid.dep_trackers.recorded().contains(dk) {
                                // re-reading a recorded edge grows nothing
                                assert(self.dep_trackers.recorded()
                                    == mid.dep_trackers.recorded());
                                assert(false);
                            } else {
                                assert(self.dep_trackers.recorded()
                                    == mid.dep_trackers.recorded().push(dk));
                                assert(self.dep_trackers.recorded()[x] == dk);
                                assert(keys@[i as int] == plain_payload(
                                    self.key_index@[dk.index as int],
                                ));
                                assert(keys@.contains(keys@[i as int]));
                            }
                        },
                    }
                }
                // and edges from earlier iterations keep naming theirs
                assert forall|x: int|
                    pre.dep_trackers.recorded().len() <= x < mid.dep_trackers.recorded().len()
                        implies {
                    &&& (#[trigger] self.dep_trackers.recorded()[x]).index
                        < self.key_index@.len()
                    &&& is_plain(self.key_index@[self.dep_trackers.recorded()[x].index as int])
                    &&& keys@.contains(
                        plain_payload(
                            self.key_index@[self.dep_trackers.recorded()[x].index as int],
                        ),
                    )
                } by {
                    assert(self.dep_trackers.recorded()[x] == mid.dep_trackers.recorded()[x]);
                    let dk = mid.dep_trackers.recorded()[x];
                    assert(self.key_index@[dk.index as int] == mid.key_index@[dk.index as int]);
                }
            }
            results.push(one);
            i = i + 1;
        }
        results
    }

    /// Runs two sub-computations, returning both results positionally, with
    /// the same dedup and shared-tracker recording as a grouped request.
    pub fn compute2(&mut self, key1: u64, key2: u64) -> (r: (DiceResult<u64>, DiceResult<u64>))
        requires
            old(self).wf(),
            old(self).quiescent(),
            key1 < old(self).global_data.num_keys(),
            key2 < old(self).global_data.num_keys(),
        ensures
            final(self).wf(),
            final(self).quiescent(),
            *final(self) == (DiceComputations {
                per_live_version_ctx: final(self).per_live_version_ctx,
                key_index: final(self).key_index,
                spawn_log: final(self).spawn_log,
                dep_trackers: final(self).dep_trackers,
                ..*old(self)
            }),
            final(self).per_live_version_ctx.cache.spec_valid() == old(self).per_live_version_ctx.cache.spec_valid(),
            old(self).key_index@.is_prefix_of(final(self).key_index@),
            ready_frozen(
                old(self).per_live_version_ctx.cache,
                final(self).per_live_version_ctx.cache,
            ),
            old(self).spawn_log@.is_prefix_of(final(self).spawn_log@),
            old(self).dep_trackers.recorded().is_prefix_of(final(self).dep_trackers.recorded()),
            r.0 matches Ok(v) ==> final(self).cached_value(key1, v),
            r.1 matches Ok(v) ==> final(self).cached_value(key2, v),
            old(self).per_live_version_ctx.cache.spec_valid() ==> (forall|v: u64|
                old(self).cached_value(key1, v) ==> r.0 == Ok::<u64, DiceError>(v)),
            old(self).per_live_version_ctx.cache.spec_valid() ==> (forall|v: u64|
                old(self).cached_value(key2, v) ==> r.1 == Ok::<u64, DiceError>(v)),
            r.0 is Ok ==> tracker_holds_key(*final(self), key1),
            r.1 is Ok ==> tracker_holds_key(*final(self), key2),
            r.0 matches Err(e) ==> e == DiceError::Cancelled || is_cycle_err(
                old(self).global_data,
                e,
            ),
            r.1 matches Err(e) ==> e == DiceError::Cancelled || is_cycle_err(
                old(self).global_data,
                e,
            ),
            r.0 matches Err(e) ==> requested_cycle_err(
                old(self).global_data,
                Seq::<u64>::empty(),
                key1,
                e,
            ),
            r.1 matches Err(e) ==> requested_cycle_err(
                old(self).global_data,
                Seq::<u64>::empty(),
                key2,
                e,
            ),
            !old(self).per_live_version_ctx.cache.spec_valid() ==> r.0 == Err::<u64, DiceError>(
                DiceError::Cancelled,
            ) && r.1 == Err::<u64, DiceError>(DiceError::Cancelled),
            no_transient(old(self).per_live_version_ctx.cache) ==> no_transient(
                final(self).per_live_version_ctx.cache,
            ) && (r.0 matches Ok(v) ==> evals_to(old(self).global_data, key1 as int, v)) && (
            r.1 matches Ok(v) ==> evals_to(old(self).global_data, key2 as int, v)),
    {
        let ghost pre = *self;
        let r1 = self.compute(key1);
        let ghost mid = *self;
        let r2 = self.compute(key2);
        proof {
            lemma_prefix_trans(pre.key_index@, mid.key_index@, self.key_index@);
            lemma_ready_frozen_trans(
                pre.per_live_version_ctx.cache,
                mid.per_live_version_ctx.cache,
                self.per_live_version_ctx.cache,
            );
            lemma_prefix_trans(pre.spawn_log@, mid.spawn_log@, self.spawn_log@);
            assert(pre.dep_trackers.recorded().is_prefix_of(mid.dep_trackers.recorded())) by {
                if !(mid.dep_trackers.recorded() == pre.dep_trackers.recorded()) {
                    assert(pre.dep_trackers.recorded() =~= mid.dep_trackers.recorded().subrange(
                        0,
                        pre.dep_trackers.recorded().len() as int,
                    ));
                }
            }
            assert(mid.dep_trackers.recorded().is_prefix_of(self.dep_trackers.recorded())) by {
                if !(self.dep_trackers.recorded() == mid.dep_trackers.recorded()) {
                    assert(mid.dep_trackers.recorded() =~= self.dep_trackers.recorded().subrange(
                        0,
                        mid.dep_trackers.recorded().len() as int,
                    ));
                }
            }
            lemma_prefix_trans(
                pre.dep_trackers.recorded(),
                mid.dep_trackers.recorded(),
                self.dep_trackers.recorded(),
            );
            match r1 {
                Ok(v) => {
                    lemma_cached_value_frozen(mid, *self, key1, v);
                    assert(records_key_edge(pre, mid, key1));
                    let dk = choose|dk: DiceKey|
                        {
                            &&& dk.index < mid.key_index@.len()
                            &&& mid.key_index@[dk.index as int] == (DiceKeyErased::Key {
                                payload: key1,
                            })
                            &&& (#[trigger] mid.per_live_version_ctx.cache.slot(dk.index as int))
                                matches Some(t) && t.spec_state() matches DiceTaskState::Ready(
                                cv,
                            ) && tracker_records(
                                pre.dep_trackers,
                                mid.dep_trackers,
                                dk,
                                cv.validity,
                            )
                        };
                    assert(self.key_index@[dk.index as int] == mid.key_index@[dk.index as int]);
                    let y = choose|y: int|
                        0 <= y < mid.dep_trackers.recorded().len()
                            && mid.dep_trackers.recorded()[y] == dk;
                    assert(self.dep_trackers.recorded()[y] == dk);
                    assert(self.dep_trackers.recorded().contains(dk));
                    assert(tracker_holds_key(*self, key1));
                },
                Err(_) => {},
            }
            match r2 {
                Ok(_) => {
                    assert(records_key_edge(mid, *self, key2));
                    let dk = choose|dk: DiceKey|
                        {
                            &&& dk.index < self.key_index@.len()
                            &&& self.key_index@[dk.index as int] == (DiceKeyErased::Key {
                                payload: key2,
                            })
                            &&& (#[trigger] self.per_live_version_ctx.cache.slot(dk.index as int))
                                matches Some(t) && t.spec_state() matches DiceTaskState::Ready(
                                cv,
                            ) && tracker_records(
                                mid.dep_trackers,
                                self.dep_trackers,
                                dk,
                                cv.validity,
                            )
                        };
                    assert(self.dep_trackers.recorded().contains(dk));
                    assert(tracker_holds_key(*self, key2));
                },
                Err(_) => {},
            }
            if self.per_live_version_ctx.cache.spec_valid() {
                assert forall|v: u64| pre.cached_value(key2, v) implies r2 == Ok::<
                    u64,
                    DiceError,
                >(v) by {
                    lemma_cached_value_frozen(pre, mid, key2, v);
                }
            }
        }
        (r1, r2)
    }

    /// Finalizes this evaluation: the de-duplicated dependency edge set
    /// with the aggregate validity, and the stored evaluation payload.
    pub fn finalize(self) -> (r: ((Vec<DiceKey>, DiceValidity), EvaluationData))
        ensures
            r.0.0@ == self.dep_trackers.recorded(),
            r.0.1 == self.dep_trackers.validity(),
            r.1 == self.evaluation_data,
    {
        let (deps, validity) = self.dep_trackers.collect_deps();
        ((deps, validity), self.evaluation_data)
    }
}


/// A value that one request observed stays observable, whatever later
/// requests resolve: completed slots are frozen and identities permanent.
pub proof fn lemma_cached_value_frozen(pre: DiceComputations, post: DiceComputations, key: u64, v: u64)
    requires
        pre.cached_value(key, v),
        pre.key_index@.is_prefix_of(post.key_index@),
        ready_frozen(pre.per_live_version_ctx.cache, post.per_live_version_ctx.cache),
        post.global_data == pre.global_data,
    ensures
        post.cached_value(key, v),
{
    let i = choose|i: int|
        {
            &&& 0 <= i < pre.key_index@.len()
            &&& pre.key_index@[i] == (DiceKeyErased::Key { payload: key })
            &&& (#[trigger] pre.per_live_version_ctx.cache.slot(i)) matches Some(t)
                && t.spec_state() matches DiceTaskState::Ready(cv) && cv.value == v && (cv.validity
                == DiceValidity::Valid ==> evals_to(pre.global_data, key as int, v))
        };
    assert(post.key_index@[i] == pre.key_index@[i]);
    assert(post.per_live_version_ctx.cache.slot(i) == pre.per_live_version_ctx.cache.slot(i));
}

/// Dependency-edge completeness: the edge set stored with a validly
/// computed key is exactly the set of reads its compute logic makes — each
/// direct dependency once, each projection once, and never a projection's
/// base on its own account.
pub proof fn lemma_dependency_edges_exact(ctx: DiceComputations, i: int, payload: u64)
    requires
        ctx.wf(),
        0 <= i < ctx.key_index@.len(),
        ctx.key_index@[i] == (DiceKeyErased::Key { payload }),
        ctx.per_live_version_ctx.cache.slot(i) matches Some(t) && t.spec_state() matches
            DiceTaskState::Ready(cv) && cv.validity == DiceValidity::Valid,
    ensures
        ctx.per_live_version_ctx.cache.slot(i) matches Some(t) && crate::incremental::edges_exact(
            ctx.global_data,
            ctx.key_index@,
            payload,
            t.spec_deps(),
        ),
{
    let t = ctx.per_live_version_ctx.cache.slot(i).unwrap();
    assert(crate::incremental::entry_ok(ctx.global_data, ctx.key_index@, i, t));
}

/// Wrapper handed to each branch of a grouped computation: each branch
/// works through its own scoped view of the same context, so every edge it
/// records lands in the one shared tracker.
pub struct DiceComputationsParallel(pub DiceComputations);

impl DiceComputationsParallel {
    pub fn new(ctx: DiceComputations) -> (r: DiceComputationsParallel)
        ensures
            r.0 == ctx,
    {
        DiceComputationsParallel(ctx)
    }
}



} // verus!
