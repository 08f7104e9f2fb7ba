//! The incremental engine: demand-driven evaluation against the shared
//! cache.
//!
//! [`eval_for_key`] resolves one plain key: a ready task in the cache is
//! reused as it stands (attaching never re-executes compute logic); a vacant
//! or cancelled slot gets a fresh evaluation, which runs the key's rule
//! under a fresh dependency tracker and a grown cycle chain, and completes
//! the slot with the value, its validity, and the recorded edges.
//! [`project_for_key`] resolves one projection synchronously from the
//! already-resolved base value.
//!
//! Every valid value that enters the cache is pinned to the pure evaluation
//! model, every recorded edge set is exactly the set of keys the rule reads,
//! and an evaluation fails only with a genuine cycle witness or because the
//! cache generation went stale.

use vstd::prelude::*;

use crate::cache::DiceTask;
use crate::cache::DiceTaskState;
use crate::cache::CacheEntry;
use crate::cache::SharedCache;
use crate::data::DiceData;
use crate::data::KeyRule;
use crate::data::ProjDep;
use crate::deps::RecordingDepsTracker;
use crate::error::DiceError;
use crate::key::DiceKey;
use crate::key::DiceKeyErased;
use crate::key::KeyIndex;
use crate::model::eval_deps_sum;
use crate::model::eval_key_pure;
use crate::model::eval_proj_sum;
use crate::model::evals_to;
use crate::model::lemma_deps_sum_mono;
use crate::model::lemma_deps_sum_push;
use crate::model::lemma_eval_key_mono;
use crate::model::lemma_proj_sum_mono;
use crate::model::lemma_proj_sum_push;
use crate::model::proj_evals_to;
use crate::model::proj_value;
use crate::model::wadd;
use crate::model::wrap_add;
use crate::value::DiceComputedValue;
use crate::value::DiceValidity;
use vstd::set_lib::lemma_int_range;
use vstd::set_lib::lemma_len_subset;

verus! {

/// Key `a`'s compute logic reads key `b`, directly or as the base of a
/// projection.
pub open spec fn edge(d: DiceData, a: u64, b: u64) -> bool {
    a < d.num_keys() && {
        let r = d.spec_rules()[a as int];
        r.deps@.contains(b) || exists|j: int|
            0 <= j < r.proj_deps@.len() && (#[trigger] r.proj_deps@[j]).base == b
    }
}

pub open spec fn is_plain(e: DiceKeyErased) -> bool {
    e matches DiceKeyErased::Key { .. }
}

pub open spec fn plain_payload(e: DiceKeyErased) -> u64 {
    match e {
        DiceKeyErased::Key { payload } => payload,
        DiceKeyErased::Projection { .. } => 0,
    }
}

/// A well-formed open chain: distinct keys, each defined by the rule table,
/// consecutive keys connected by real dependency edges.
pub open spec fn chain_wf(d: DiceData, chain: Seq<u64>) -> bool {
    &&& chain.no_duplicates()
    &&& forall|i: int| 0 <= i < chain.len() ==> (#[trigger] chain[i]) < d.num_keys()
    &&& forall|i: int| 0 <= i < chain.len() - 1 ==> edge(d, #[trigger] chain[i], chain[i + 1])
}

/// A genuine dependency cycle in the rule table: an ordered chain of keys
/// starting at the trigger, each reading the next, whose last key reads the
/// trigger again.
pub open spec fn is_cycle_witness(d: DiceData, trigger: DiceKeyErased, keys: Seq<DiceKeyErased>) -> bool {
    &&& keys.len() > 0
    &&& keys[0] == trigger
    &&& forall|i: int|
        0 <= i < keys.len() ==> is_plain(#[trigger] keys[i]) && plain_payload(keys[i])
            < d.num_keys()
    &&& forall|i: int|
        0 <= i < keys.len() - 1 ==> edge(d, plain_payload(#[trigger] keys[i]), plain_payload(
            keys[i + 1],
        ))
    &&& edge(d, plain_payload(keys.last()), plain_payload(trigger))
}

pub open spec fn is_cycle_err(d: DiceData, e: DiceError) -> bool {
    e matches DiceError::Cycle { trigger, cyclic_keys } && is_cycle_witness(
        d,
        trigger,
        cyclic_keys@,
    )
}

/// Index of the first position at which `p` is open in the chain `cc`
/// (meaningful only when `cc` contains `p`).
pub open spec fn first_open_at(cc: Seq<u64>, p: u64) -> int
    decreases cc.len(),
{
    if cc.len() == 0 {
        0
    } else if cc[0] == p {
        0
    } else {
        1 + first_open_at(cc.skip(1), p)
    }
}

pub proof fn lemma_first_open_at(cc: Seq<u64>, p: u64, i: int)
    requires
        0 <= i < cc.len(),
        cc[i] == p,
        forall|j: int| 0 <= j < i ==> cc[j] != p,
    ensures
        first_open_at(cc, p) == i,
    decreases i,
{
    if i > 0 {
        lemma_first_open_at(cc.skip(1), p, i - 1);
    }
}

/// The cycle error's exact contents, tied to the chain that was followed:
/// some well-formed open chain `cc` extends the caller's `chain0`; the
/// trigger is the key whose re-request closed the cycle — it is open in
/// `cc` and read again by `cc`'s innermost key; and `keys` is exactly `cc`
/// from the trigger's first occurrence onward, in order.
pub open spec fn followed_cycle(
    d: DiceData,
    chain0: Seq<u64>,
    cc: Seq<u64>,
    trigger: DiceKeyErased,
    keys: Seq<DiceKeyErased>,
) -> bool {
    &&& chain_wf(d, cc)
    &&& chain0.is_prefix_of(cc)
    &&& cc.len() > 0
    &&& is_plain(trigger)
    &&& cc.contains(plain_payload(trigger))
    &&& edge(d, cc.last(), plain_payload(trigger))
    &&& keys == cc.skip(first_open_at(cc, plain_payload(trigger))).map_values(
        |q: u64| DiceKeyErased::Key { payload: q },
    )
}

/// A cycle error raised somewhere below an evaluation running on `chain0`.
pub open spec fn chain_cycle_err(d: DiceData, chain0: Seq<u64>, e: DiceError) -> bool {
    e matches DiceError::Cycle { trigger, cyclic_keys } ==> exists|cc: Seq<u64>|
        #[trigger] followed_cycle(d, chain0, cc, trigger, cyclic_keys@)
}

/// A cycle error raised by requesting `payload` on `chain0`: the chain
/// followed descends through the requested key (or the requested key is
/// itself the trigger, already open in `chain0`).
pub open spec fn requested_cycle_err(d: DiceData, chain0: Seq<u64>, payload: u64, e: DiceError) -> bool {
    e matches DiceError::Cycle { trigger, cyclic_keys } ==> exists|cc: Seq<u64>|
        {
            &&& #[trigger] followed_cycle(d, chain0, cc, trigger, cyclic_keys@)
            &&& cc.len() > chain0.len() ==> cc[chain0.len() as int] == payload
            &&& cc.len() == chain0.len() ==> plain_payload(trigger) == payload
        }
}

/// `dk` identifies one of the reads that key `payload`'s rule makes: a
/// direct dependency, or a projection the rule derives.
pub open spec fn is_edge_of(d: DiceData, ks: Seq<DiceKeyErased>, payload: u64, dk: DiceKey) -> bool {
    &&& dk.index < ks.len()
    &&& match ks[dk.index as int] {
        DiceKeyErased::Key { payload: q } => d.spec_rules()[payload as int].deps@.contains(q),
        DiceKeyErased::Projection { base, proj } => base.index < ks.len() && match ks[base.index as int] {
            DiceKeyErased::Key { payload: b } => d.spec_rules()[payload as int].proj_deps@.contains(
                ProjDep { base: b, proj },
            ),
            DiceKeyErased::Projection { .. } => false,
        },
    }
}

/// `deps` holds an edge standing for the direct dependency `q`.
pub open spec fn deps_contains_key(ks: Seq<DiceKeyErased>, deps: Seq<DiceKey>, q: u64) -> bool {
    exists|i: int|
        0 <= i < deps.len() && (#[trigger] deps[i]).index < ks.len() && ks[deps[i].index as int]
            == (DiceKeyErased::Key { payload: q })
}

/// `deps` holds an edge standing for the projection read `pd`.
pub open spec fn deps_contains_proj(ks: Seq<DiceKeyErased>, deps: Seq<DiceKey>, pd: ProjDep) -> bool {
    exists|i: int|
        0 <= i < deps.len() && (#[trigger] deps[i]).index < ks.len() && match ks[deps[i].index as int] {
            DiceKeyErased::Projection { base, proj } => proj == pd.proj && base.index < ks.len()
                && ks[base.index as int] == (DiceKeyErased::Key { payload: pd.base }),
            DiceKeyErased::Key { .. } => false,
        }
}

/// The recorded edge set is exactly the set of reads the rule makes: every
/// recorded edge is one of the rule's reads, and every read is recorded.
pub open spec fn edges_exact(d: DiceData, ks: Seq<DiceKeyErased>, payload: u64, deps: Seq<DiceKey>) -> bool {
    &&& forall|i: int| 0 <= i < deps.len() ==> is_edge_of(d, ks, payload, #[trigger] deps[i])
    &&& forall|j: int|
        0 <= j < d.spec_rules()[payload as int].deps@.len() ==> deps_contains_key(
            ks,
            deps,
            #[trigger] d.spec_rules()[payload as int].deps@[j],
        )
    &&& forall|j: int|
        0 <= j < d.spec_rules()[payload as int].proj_deps@.len() ==> deps_contains_proj(
            ks,
            deps,
            #[trigger] d.spec_rules()[payload as int].proj_deps@[j],
        )
}

/// What a completed task must satisfy for the slot it occupies.
pub open spec fn entry_ok(d: DiceData, ks: Seq<DiceKeyErased>, i: int, t: DiceTask) -> bool {
    t.spec_state() matches DiceTaskState::Ready(cv) ==> {
        &&& 0 <= i < ks.len()
        &&& match ks[i] {
            DiceKeyErased::Key { payload } => {
                &&& payload < d.num_keys()
                &&& cv.validity == DiceValidity::Valid ==> evals_to(d, payload as int, cv.value)
                    && edges_exact(d, ks, payload, t.spec_deps())
            },
            DiceKeyErased::Projection { base, proj } => {
                &&& base.index < ks.len()
                &&& is_plain(ks[base.index as int])
                &&& plain_payload(ks[base.index as int]) < d.num_keys()
                &&& proj < d.num_projs()
                &&& cv.validity == DiceValidity::Valid ==> proj_evals_to(
                    d,
                    plain_payload(ks[base.index as int]) as int,
                    proj as int,
                    cv.value,
                ) && t.spec_deps() =~= seq![base]
            },
        }
    }
}

/// The engine's cache invariant: every completed entry is pinned to the
/// evaluation model and carries exactly its rule's edges.
pub open spec fn engine_inv(d: DiceData, ks: Seq<DiceKeyErased>, c: SharedCache) -> bool {
    forall|i: int| (#[trigger] c.slot(i)) matches Some(t) ==> entry_ok(d, ks, i, t)
}

/// No key that is open in `chain` has a completed entry: an open key's slot
/// is settled only when its own evaluation completes.
pub open spec fn chain_slots_open(ks: Seq<DiceKeyErased>, c: SharedCache, chain: Seq<u64>) -> bool {
    forall|i: int|
        0 <= i < ks.len() && is_plain(#[trigger] ks[i]) && chain.contains(plain_payload(ks[i]))
            ==> !(c.slot(i) matches Some(t) && t.spec_state() matches DiceTaskState::Ready(_))
}

/// Completed entries persist: once a waiter can observe a task's value,
/// no later evaluation disturbs that slot.
pub open spec fn ready_frozen(c1: SharedCache, c2: SharedCache) -> bool {
    forall|i: int|
        ((#[trigger] c1.slot(i)) matches Some(t) && t.spec_state() matches DiceTaskState::Ready(
            _,
        )) ==> c2.slot(i) == c1.slot(i)
}

pub proof fn lemma_ready_frozen_trans(c1: SharedCache, c2: SharedCache, c3: SharedCache)
    requires
        ready_frozen(c1, c2),
        ready_frozen(c2, c3),
    ensures
        ready_frozen(c1, c3),
{
    assert forall|i: int|
        ((#[trigger] c1.slot(i)) matches Some(t) && t.spec_state() matches DiceTaskState::Ready(
            _,
        )) implies c3.slot(i) == c1.slot(i) by {
        assert(c2.slot(i) == c1.slot(i));
    }
}

/// A write to one slot that was not completed leaves every completed slot
/// as it was.
pub proof fn lemma_ready_frozen_step(c1: SharedCache, c2: SharedCache, k: DiceKey)
    requires
        forall|i: int| i != k.index as int ==> #[trigger] c2.slot(i) == c1.slot(i),
        !(c1.slot(k.index as int) matches Some(t) && t.spec_state() matches DiceTaskState::Ready(
            _,
        )),
    ensures
        ready_frozen(c1, c2),
{
    assert forall|i: int|
        ((#[trigger] c1.slot(i)) matches Some(t) && t.spec_state() matches DiceTaskState::Ready(
            _,
        )) implies c2.slot(i) == c1.slot(i) by {
        if i == k.index as int {
            assert(false);
        }
    }
}

pub proof fn lemma_ready_frozen_refl(c: SharedCache)
    ensures
        ready_frozen(c, c),
{
}

/// No completed entry anywhere is transient: nothing partial has ever
/// entered this cache generation.
pub open spec fn no_transient(c: SharedCache) -> bool {
    forall|i: int|
        (#[trigger] c.slot(i)) matches Some(t) ==> (t.spec_state() matches DiceTaskState::Ready(
            cv,
        ) ==> cv.validity == DiceValidity::Valid)
}

/// A chain of distinct keys all drawn from a table of `n` rules cannot be
/// longer than `n`: recursion depth is bounded by the key universe.
pub proof fn lemma_chain_bounded(chain: Seq<u64>, n: int)
    requires
        chain.no_duplicates(),
        forall|i: int| 0 <= i < chain.len() ==> (#[trigger] chain[i]) < n,
        n >= 0,
    ensures
        chain.len() <= n,
{
    let m = chain.map_values(|x: u64| x as int);
    assert(m.no_duplicates()) by {
        assert forall|i: int, j: int| 0 <= i < m.len() && 0 <= j < m.len() && i != j implies m[i]
            != m[j] by {
            assert(chain[i] != chain[j]);
        }
    }
    m.unique_seq_to_set();
    lemma_int_range(0, n);
    assert(m.to_set().subset_of(vstd::set_lib::set_int_range(0, n))) by {
        assert forall|x: int| m.to_set().contains(x) implies vstd::set_lib::set_int_range(
            0,
            n,
        ).contains(x) by {
            let i = choose|i: int| 0 <= i < m.len() && m[i] == x;
            assert(chain[i] < n);
        }
    }
    lemma_len_subset(m.to_set(), vstd::set_lib::set_int_range(0, n));
}

/// Prefix extension of the interner preserves every edge statement.
proof fn lemma_edges_exact_prefix(
    d: DiceData,
    ks1: Seq<DiceKeyErased>,
    ks2: Seq<DiceKeyErased>,
    payload: u64,
    deps: Seq<DiceKey>,
)
    requires
        ks1.is_prefix_of(ks2),
        edges_exact(d, ks1, payload, deps),
    ensures
        edges_exact(d, ks2, payload, deps),
{
    assert forall|i: int| 0 <= i < deps.len() implies is_edge_of(d, ks2, payload, #[trigger] deps[i]) by {
        assert(is_edge_of(d, ks1, payload, deps[i]));
        assert(ks2[deps[i].index as int] == ks1[deps[i].index as int]);
        match ks1[deps[i].index as int] {
            DiceKeyErased::Projection { base, proj } => {
                assert(ks2[base.index as int] == ks1[base.index as int]);
            },
            _ => {},
        }
    }
    assert forall|j: int| 0 <= j < d.spec_rules()[payload as int].deps@.len() implies
        deps_contains_key(ks2, deps, #[trigger] d.spec_rules()[payload as int].deps@[j]) by {
        let q = d.spec_rules()[payload as int].deps@[j];
        let i = choose|i: int|
            0 <= i < deps.len() && (#[trigger] deps[i]).index < ks1.len() && ks1[deps[i].index as int]
                == (DiceKeyErased::Key { payload: q });
        assert(ks2[deps[i].index as int] == ks1[deps[i].index as int]);
    }
    assert forall|j: int| 0 <= j < d.spec_rules()[payload as int].proj_deps@.len() implies
        deps_contains_proj(ks2, deps, #[trigger] d.spec_rules()[payload as int].proj_deps@[j]) by {
        let pd = d.spec_rules()[payload as int].proj_deps@[j];
        let i = choose|i: int|
            0 <= i < deps.len() && (#[trigger] deps[i]).index < ks1.len() && match ks1[deps[i].index as int] {
                DiceKeyErased::Projection { base, proj } => proj == pd.proj && base.index
                    < ks1.len() && ks1[base.index as int] == (DiceKeyErased::Key {
                    payload: pd.base,
                }),
                DiceKeyErased::Key { .. } => false,
            };
        assert(ks2[deps[i].index as int] == ks1[deps[i].index as int]);
        match ks1[deps[i].index as int] {
            DiceKeyErased::Projection { base, proj } => {
                assert(ks2[base.index as int] == ks1[base.index as int]);
            },
            _ => {},
        }
    }
}

/// Prefix extension of the interner preserves the cache invariant.
pub proof fn lemma_engine_inv_prefix(
    d: DiceData,
    ks1: Seq<DiceKeyErased>,
    ks2: Seq<DiceKeyErased>,
    c: SharedCache,
)
    requires
        ks1.is_prefix_of(ks2),
        engine_inv(d, ks1, c),
    ensures
        engine_inv(d, ks2, c),
{
    assert forall|i: int| (#[trigger] c.slot(i)) is Some implies entry_ok(
        d,
        ks2,
        i,
        c.slot(i).unwrap(),
    ) by {
        let t = c.slot(i).unwrap();
        assert(entry_ok(d, ks1, i, t));
        match t.spec_state() {
            DiceTaskState::Ready(cv) => {
                assert(ks2[i] == ks1[i]);
                match ks1[i] {
                    DiceKeyErased::Key { payload } => {
                        if cv.validity == DiceValidity::Valid {
                            lemma_edges_exact_prefix(d, ks1, ks2, payload, t.spec_deps());
                        }
                    },
                    DiceKeyErased::Projection { base, proj } => {
                        assert(ks2[base.index as int] == ks1[base.index as int]);
                    },
                }
            },
            _ => {},
        }
    }
}

/// Prefix extension of the interner keeps open keys' slots open: a key that
/// was not even interned yet cannot have a completed entry.
pub proof fn lemma_chain_slots_open_prefix(
    d: DiceData,
    ks1: Seq<DiceKeyErased>,
    ks2: Seq<DiceKeyErased>,
    c: SharedCache,
    chain: Seq<u64>,
)
    requires
        ks1.is_prefix_of(ks2),
        chain_slots_open(ks1, c, chain),
        engine_inv(d, ks1, c),
    ensures
        chain_slots_open(ks2, c, chain),
{
    assert forall|i: int|
        0 <= i < ks2.len() && is_plain(#[trigger] ks2[i]) && chain.contains(plain_payload(ks2[i]))
            implies !(c.slot(i) matches Some(t) && t.spec_state() matches DiceTaskState::Ready(_)) by {
        if i < ks1.len() {
            assert(ks1[i] == ks2[i]);
        } else {
            if c.slot(i) is Some {
                let t = c.slot(i).unwrap();
                assert(entry_ok(d, ks1, i, t));
            }
        }
    }
}


pub open spec fn proj_index(e: DiceKeyErased) -> u64 {
    match e {
        DiceKeyErased::Projection { proj, .. } => proj,
        DiceKeyErased::Key { .. } => 0,
    }
}

/// Resolves one projection key synchronously: a completed projection task is
/// reused without re-deriving; otherwise the projection is derived from the
/// already-resolved base value in one step and completes its slot. A
/// projection never issues further sub-computations.
#[verifier::loop_isolation(false)]
pub fn project_for_key(
    d: &DiceData,
    ki: &KeyIndex,
    c: &mut SharedCache,
    log: &mut Vec<DiceKey>,
    pdk: DiceKey,
    bdk: DiceKey,
    bcv: DiceComputedValue,
) -> (r: DiceComputedValue)
    requires
        d.wf(),
        ki.wf(),
        old(c).wf(),
        old(c).quiescent(),
        old(c).spec_valid(),
        engine_inv(*d, ki@, *old(c)),
        pdk.index < ki@.len(),
        ki@[pdk.index as int] matches DiceKeyErased::Projection { base, proj } && base == bdk
            && proj < d.num_projs(),
        bdk.index < ki@.len(),
        is_plain(ki@[bdk.index as int]),
        plain_payload(ki@[bdk.index as int]) < d.num_keys(),
        bcv.validity == DiceValidity::Valid ==> evals_to(
            *d,
            plain_payload(ki@[bdk.index as int]) as int,
            bcv.value,
        ),
    ensures
        final(c).wf(),
        final(c).quiescent(),
        final(c).spec_valid(),
        engine_inv(*d, ki@, *final(c)),
        ready_frozen(*old(c), *final(c)),
        forall|i: int| i != pdk.index as int ==> #[trigger] final(c).slot(i) == old(c).slot(i),
        final(c).slot_state(pdk) == Some(DiceTaskState::Ready(r)),
        old(log)@.is_prefix_of(final(log)@),
        old(c).slot_state(pdk) matches Some(DiceTaskState::Ready(v0)) ==> r == v0 && final(log)@
            == old(log)@ && (forall|i: int| #[trigger] final(c).slot(i) == old(c).slot(i)),
        !(old(c).slot_state(pdk) matches Some(DiceTaskState::Ready(_))) ==> final(log)@ == old(
            log,
        )@.push(pdk) && r == (DiceComputedValue {
            value: wadd(
                bcv.value,
                d.spec_proj_rules()[proj_index(ki@[pdk.index as int]) as int].offset,
            ),
            validity: bcv.validity,
        }),
        r.validity == DiceValidity::Valid ==> proj_evals_to(
            *d,
            plain_payload(ki@[bdk.index as int]) as int,
            proj_index(ki@[pdk.index as int]) as int,
            r.value,
        ),
        no_transient(*old(c)) && bcv.validity == DiceValidity::Valid ==> no_transient(*final(c))
            && r.validity == DiceValidity::Valid,
{
    proof {
        lemma_ready_frozen_refl(*c);
    }
    let proj = match ki.get(pdk) {
        DiceKeyErased::Projection { base: _, proj } => proj,
        DiceKeyErased::Key { .. } => {
            proof {
                assert(false);
            }
            0
        },
    };
    match c.get_state(pdk) {
        Some(CacheEntry::Occupied(DiceTaskState::Ready(_))) => {
            match c.ready_value(pdk) {
                Some(v) => v,
                None => {
                    proof {
                        assert(false);
                    }
                    DiceComputedValue { value: 0, validity: DiceValidity::Transient }
                },
            }
        },
        Some(CacheEntry::Occupied(DiceTaskState::Pending)) => {
            proof {
                assert(false);
            }
            DiceComputedValue { value: 0, validity: DiceValidity::Transient }
        },
        None => {
            proof {
                assert(false);
            }
            DiceComputedValue { value: 0, validity: DiceValidity::Transient }
        },
        _ => {
            // vacant, or replacing a cancelled predecessor: derive now
            let prule = d.proj_rule(proj);
            let pv = wrap_add(bcv.value, prule.offset);
            let rcv = DiceComputedValue { value: pv, validity: bcv.validity };
            log.push(pdk);
            let mut pdeps: Vec<DiceKey> = Vec::new();
            pdeps.push(bdk);
            c.complete_entry(pdk, rcv, pdeps);
            proof {
                lemma_ready_frozen_step(*old(c), *c, pdk);
                let ks = ki@;
                let b = plain_payload(ks[bdk.index as int]);
                assert forall|i: int| (#[trigger] final(c).slot(i)) is Some implies entry_ok(
                    *d,
                    ks,
                    i,
                    final(c).slot(i).unwrap(),
                ) by {
                    if i != pdk.index as int {
                        assert(final(c).slot(i) == old(c).slot(i));
                    } else {
                        let t = final(c).slot(i).unwrap();
                        assert(t.spec_state() == DiceTaskState::Ready(rcv));
                        assert(t.spec_deps() =~= seq![bdk]);
                        if rcv.validity == DiceValidity::Valid {
                            assert(evals_to(*d, b as int, bcv.value));
                            assert(rcv.value == proj_value(*d, proj as int, bcv.value));
                            assert(proj_evals_to(*d, b as int, proj as int, rcv.value));
                        }
                    }
                }
            }
            rcv
        },
    }
}


/// Resolves one plain key against the shared cache, on behalf of the open
/// `chain`.
///
/// A key already open in the chain is a cycle and fails at once, before any
/// wait, with the trigger and the ordered cyclic keys. A stale cache
/// generation reports cancellation. A completed task is reused as it
/// stands: no compute logic runs, nothing changes. Otherwise (vacant slot,
/// or replacing a cancelled task) the key's rule is evaluated once: each
/// dependency resolves recursively, each projection derives from its base,
/// every read is recorded with the validity observed, and the slot
/// completes with the combined value, the aggregate validity, and exactly
/// the recorded edges.
#[verifier::loop_isolation(false)]
#[verifier::rlimit(100)]
pub fn eval_for_key(
    d: &DiceData,
    ki: &mut KeyIndex,
    c: &mut SharedCache,
    log: &mut Vec<DiceKey>,
    chain: &mut Vec<u64>,
    k: DiceKey,
) -> (r: Result<DiceComputedValue, DiceError>)
    requires
        d.wf(),
        old(ki).wf(),
        old(c).wf(),
        old(c).quiescent(),
        engine_inv(*d, old(ki)@, *old(c)),
        chain_wf(*d, old(chain)@),
        chain_slots_open(old(ki)@, *old(c), old(chain)@),
        k.index < old(ki)@.len(),
        is_plain(old(ki)@[k.index as int]),
        plain_payload(old(ki)@[k.index as int]) < d.num_keys(),
        old(chain)@.len() > 0 ==> edge(
            *d,
            old(chain)@.last(),
            plain_payload(old(ki)@[k.index as int]),
        ),
    ensures
        final(ki).wf(),
        old(ki)@.is_prefix_of(final(ki)@),
        final(c).wf(),
        final(c).quiescent(),
        final(c).spec_valid() == old(c).spec_valid(),
        engine_inv(*d, final(ki)@, *final(c)),
        chain_slots_open(final(ki)@, *final(c), old(chain)@),
        ready_frozen(*old(c), *final(c)),
        final(chain)@ == old(chain)@,
        old(log)@.is_prefix_of(final(log)@),
        old(c).spec_valid() ==> (old(c).slot_state(k) matches Some(DiceTaskState::Ready(v0))
            ==> r == Ok::<DiceComputedValue, DiceError>(v0) && final(log)@ == old(log)@
            && final(ki)@ == old(ki)@ && (forall|i: int|
            #[trigger] final(c).slot(i) == old(c).slot(i))),
        r matches Ok(cv) ==> final(c).slot_state(k) == Some(DiceTaskState::Ready(cv)) && (
        cv.validity == DiceValidity::Valid ==> evals_to(
            *d,
            plain_payload(old(ki)@[k.index as int]) as int,
            cv.value,
        )),
        r == Err::<DiceComputedValue, DiceError>(DiceError::Cancelled) ==> !old(c).spec_valid(),
        !old(c).spec_valid() && old(chain)@.len() == 0 ==> r == Err::<
            DiceComputedValue,
            DiceError,
        >(DiceError::Cancelled),
        r matches Err(e) ==> e == DiceError::Cancelled || is_cycle_err(*d, e),
        r matches Err(e) ==> requested_cycle_err(
            *d,
            old(chain)@,
            plain_payload(old(ki)@[k.index as int]),
            e,
        ),
        no_transient(*old(c)) ==> no_transient(*final(c)) && (r matches Ok(cv) ==> cv.validity
            == DiceValidity::Valid),
    decreases d.num_keys() - old(chain)@.len(), 0int,
{
    proof {
        lemma_ready_frozen_refl(*c);
    }
    let payload = match ki.get(k) {
        DiceKeyErased::Key { payload } => payload,
        DiceKeyErased::Projection { .. } => {
            proof {
                assert(false);
            }
            0
        },
    };

    // cycle detection: the key must not already be open in this chain
    let clen = chain.len();
    let mut ci: usize = 0;
    while ci < clen
        invariant
            ci <= clen,
            forall|j: int| 0 <= j < ci ==> chain@[j] != payload,
        decreases clen - ci,
    {
        if chain[ci] == payload {
            let mut cyclic_keys: Vec<DiceKeyErased> = Vec::new();
            let mut cj: usize = ci;
            while cj < clen
                invariant
                    ci <= cj <= clen,
                    cyclic_keys@.len() == cj - ci,
                    forall|x: int|
                        0 <= x < cyclic_keys@.len() ==> #[trigger] cyclic_keys@[x]
                            == (DiceKeyErased::Key { payload: chain@[ci + x] }),
                decreases clen - cj,
            {
                cyclic_keys.push(DiceKeyErased::Key { payload: chain[cj] });
                cj = cj + 1;
            }
            let trigger = DiceKeyErased::Key { payload };
            proof {
                assert(chain@.contains(payload)) by {
                    assert(chain@[ci as int] == payload);
                }
                assert(!(c.slot(k.index as int) matches Some(t) && t.spec_state() matches
                    DiceTaskState::Ready(_))) by {
                    assert(is_plain(ki@[k.index as int]));
                }
                let keys = cyclic_keys@;
                assert(keys[0] == trigger);
                assert forall|x: int| 0 <= x < keys.len() - 1 implies edge(
                    *d,
                    plain_payload(#[trigger] keys[x]),
                    plain_payload(keys[x + 1]),
                ) by {
                    assert(edge(*d, chain@[ci + x], chain@[ci + x + 1]));
                }
                assert(plain_payload(keys.last()) == chain@[clen - 1]);
                assert(chain@.last() == chain@[clen - 1]);
                assert(edge(*d, chain@[clen - 1], payload));
                // the chain itself witnesses the followed cycle
                let cc = chain@;
                lemma_first_open_at(cc, payload, ci as int);
                assert(cc.is_prefix_of(cc)) by {
                    assert(cc =~= cc.subrange(0, cc.len() as int));
                }
                assert(keys =~= cc.skip(ci as int).map_values(
                    |q: u64| DiceKeyErased::Key { payload: q },
                ));
                assert(followed_cycle(*d, cc, cc, trigger, keys));
            }
            return Err(DiceError::Cycle { trigger, cyclic_keys });
        }
        ci = ci + 1;
    }

    // consult the shared cache
    match c.get_state(k) {
        None => {
            // the cache generation is stale: report this attempt cancelled
            return Err(DiceError::cancelled());
        },
        Some(CacheEntry::Occupied(DiceTaskState::Ready(_))) => {
            match c.ready_value(k) {
                Some(v) => {
                    return Ok(v);
                },
                None => {
                    proof {
                        assert(false);
                    }
                    return Err(DiceError::cancelled());
                },
            }
        },
        Some(CacheEntry::Occupied(DiceTaskState::Pending)) => {
            proof {
                assert(false);
            }
            return Err(DiceError::cancelled());
        },
        _ => {},
    }

    // vacant slot or cancelled predecessor: spawn a fresh evaluation
    let ghost ks0 = ki@;
    let ghost chain0 = chain@;
    let ghost log0 = log@;
    log.push(k);
    chain.push(payload);
    let ghost chain1 = chain@;
    proof {
        assert(chain1 =~= chain0.push(payload));
        lemma_open_chain_grow(*d, ki@, *c, chain0, chain1, k, payload);
        lemma_chain_bounded(chain1, d.num_keys());
        assert(log@ =~= log0.push(k));
        assert(log0.is_prefix_of(log@)) by {
            assert(log0 =~= log@.subrange(0, log0.len() as int));
        }
    }
    let rule = d.key_rule(payload);
    proof {
        assert(d.rule_ok(d.spec_rules()[payload as int]));
    }
    let mut tracker = RecordingDepsTracker::new();
    let mut sum = rule.base_value;
    let dep_err = eval_rule_deps(d, ki, c, log, chain, payload, rule, &mut tracker, &mut sum);
    match dep_err {
        Some(e) => {
            chain.pop();
            proof {
                assert(chain@ =~= chain0);
                lemma_chain_slots_open_shrink(ki@, *c, chain0, chain1, payload);
                lemma_prefix_trans(log0, log0.push(k), log@);
                lemma_requested_cycle_from_below(*d, chain0, chain1, payload, e);
            }
            return Err(e);
        },
        None => {},
    }
    let ghost log1 = log@;
    let ghost s1 = sum;
    let proj_err = eval_rule_projs(
        d,
        ki,
        c,
        log,
        chain,
        payload,
        rule,
        &mut tracker,
        &mut sum,
        Ghost(s1),
    );
    match proj_err {
        Some(e) => {
            chain.pop();
            proof {
                assert(chain@ =~= chain0);
                lemma_chain_slots_open_shrink(ki@, *c, chain0, chain1, payload);
                lemma_prefix_trans(log0, log1, log@);
                lemma_requested_cycle_from_below(*d, chain0, chain1, payload, e);
            }
            return Err(e);
        },
        None => {},
    }
    chain.pop();
    proof {
        assert(chain@ =~= chain0);
    }
    let (deps_vec, validity) = tracker.collect_deps();
    let cv = DiceComputedValue { value: sum, validity };
    proof {
        // the key's own slot is still not completed: it is open in chain1
        assert(chain1.contains(payload)) by {
            assert(chain1.last() == payload);
        }
        assert(ki@[k.index as int] == (DiceKeyErased::Key { payload }));
        if validity == DiceValidity::Valid {
            let f = choose|f: nat|
                eval_deps_sum(*d, rule.deps@, rule.base_value, f) == Some(s1) && eval_proj_sum(
                    *d,
                    rule.proj_deps@,
                    s1,
                    f,
                ) == Some(sum);
            assert(eval_key_pure(*d, payload as int, f + 1) == Some(sum));
            assert(evals_to(*d, payload as int, cv.value));
        }
    }
    let ghost c_pre = *c;
    let ghost deps_seq = deps_vec@;
    c.complete_entry(k, cv, deps_vec);
    proof {
        lemma_completion_keeps_inv(*d, ki@, c_pre, *c, k, payload, cv, deps_seq, chain0, chain1);
        lemma_prefix_trans(log0, log1, log@);
        lemma_ready_frozen_step(c_pre, *c, k);
        lemma_ready_frozen_trans(*old(c), c_pre, *c);
    }
    Ok(cv)
}

/// Resolves every direct dependency of `payload`'s rule in order, recording
/// each edge with the validity observed and folding the values into `sum`.
#[verifier::loop_isolation(false)]
#[verifier::rlimit(100)]
#[verifier::spinoff_prover]
fn eval_rule_deps(
    d: &DiceData,
    ki: &mut KeyIndex,
    c: &mut SharedCache,
    log: &mut Vec<DiceKey>,
    chain: &mut Vec<u64>,
    payload: u64,
    rule: &KeyRule,
    tracker: &mut RecordingDepsTracker,
    sum: &mut u64,
) -> (r: Option<DiceError>)
    requires
        d.wf(),
        payload < d.num_keys(),
        *rule == d.spec_rules()[payload as int],
        old(ki).wf(),
        old(c).wf(),
        old(c).quiescent(),
        old(c).spec_valid(),
        engine_inv(*d, old(ki)@, *old(c)),
        chain_wf(*d, old(chain)@),
        chain_slots_open(old(ki)@, *old(c), old(chain)@),
        old(chain)@.len() > 0,
        old(chain)@.last() == payload,
        old(tracker).wf(),
        old(tracker).recorded() =~= Seq::<DiceKey>::empty(),
        old(tracker).validity() == DiceValidity::Valid,
        *old(sum) == rule.base_value,
    ensures
        final(ki).wf(),
        old(ki)@.is_prefix_of(final(ki)@),
        final(c).wf(),
        final(c).quiescent(),
        final(c).spec_valid(),
        engine_inv(*d, final(ki)@, *final(c)),
        chain_slots_open(final(ki)@, *final(c), old(chain)@),
        ready_frozen(*old(c), *final(c)),
        final(chain)@ == old(chain)@,
        old(log)@.is_prefix_of(final(log)@),
        final(tracker).wf(),
        forall|x: int|
            0 <= x < final(tracker).recorded().len() ==> is_edge_of(
                *d,
                final(ki)@,
                payload,
                #[trigger] final(tracker).recorded()[x],
            ),
        r is None ==> (forall|j: int|
            0 <= j < rule.deps@.len() ==> deps_contains_key(
                final(ki)@,
                final(tracker).recorded(),
                #[trigger] rule.deps@[j],
            )),
        r is None ==> (final(tracker).validity() == DiceValidity::Valid ==> exists|f: nat|
            eval_deps_sum(*d, rule.deps@, rule.base_value, f) == Some(*final(sum))),
        r matches Some(e) ==> is_cycle_err(*d, e) && chain_cycle_err(*d, old(chain)@, e),
        no_transient(*old(c)) ==> no_transient(*final(c)) && final(tracker).validity()
            == DiceValidity::Valid,
    decreases d.num_keys() - old(chain)@.len(), 1int,
{
    let ghost chain1 = chain@;
    let ghost rdeps = rule.deps@;
    proof {
        lemma_ready_frozen_refl(*c);
        assert(rdeps.take(0) =~= Seq::<u64>::empty());
        assert(eval_deps_sum(*d, rdeps.take(0), rule.base_value, 0nat) == Some(rule.base_value));
    }
    let nd = rule.deps.len();
    let mut di: usize = 0;
    while di < nd
        invariant
            di <= nd,
            ki.wf(),
            old(ki)@.is_prefix_of(ki@),
            c.wf(),
            c.quiescent(),
            c.spec_valid(),
            engine_inv(*d, ki@, *c),
            ready_frozen(*old(c), *c),
            no_transient(*old(c)) ==> no_transient(*c) && tracker.validity()
                == DiceValidity::Valid,
            chain@ == chain1,
            chain_slots_open(ki@, *c, chain1),
            old(log)@.is_prefix_of(log@),
            tracker.wf(),
            forall|x: int|
                0 <= x < tracker.recorded().len() ==> is_edge_of(
                    *d,
                    ki@,
                    payload,
                    #[trigger] tracker.recorded()[x],
                ),
            forall|j: int|
                0 <= j < di ==> deps_contains_key(ki@, tracker.recorded(), #[trigger] rdeps[j]),
            tracker.validity() == DiceValidity::Valid ==> exists|f: nat|
                eval_deps_sum(*d, rdeps.take(di as int), rule.base_value, f) == Some(*sum),
        decreases nd - di,
    {
        let dep_payload = rule.deps[di];
        let ghost ks_pre = ki@;
        let ddk = ki.index(DiceKeyErased::Key { payload: dep_payload });
        proof {
            assert(d.rule_ok(d.spec_rules()[payload as int]));
            assert(dep_payload < d.num_keys());
            lemma_engine_inv_prefix(*d, ks_pre, ki@, *c);
            lemma_chain_slots_open_prefix(*d, ks_pre, ki@, *c, chain1);
            assert(rdeps.contains(dep_payload));
            assert(edge(*d, payload, dep_payload));
            lemma_chain_bounded(chain1, d.num_keys());
            lemma_tracker_edges_prefix(*d, ks_pre, ki@, payload, tracker.recorded());
            lemma_tracker_keys_prefix(ks_pre, ki@, tracker.recorded(), rdeps, di as int);
        }
        let ghost ks_call = ki@;
        let ghost c_call = *c;
        let dres = eval_for_key(d, ki, c, log, chain, ddk);
        match dres {
            Ok(cv) => {
                proof {
                    lemma_ready_frozen_trans(*old(c), c_call, *c);
                    lemma_tracker_edges_prefix(*d, ks_call, ki@, payload, tracker.recorded());
                    lemma_tracker_keys_prefix(ks_call, ki@, tracker.recorded(), rdeps, di as int);
                }
                let ghost rec_pre = tracker.recorded();
                let ghost val_pre = tracker.validity();
                let ghost sum_pre = *sum;
                tracker.record(ddk, cv.validity);
                *sum = wrap_add(*sum, cv.value);
                proof {
                    assert(ki@[ddk.index as int] == (DiceKeyErased::Key { payload: dep_payload }));
                    assert(is_edge_of(*d, ki@, payload, ddk));
                    assert(tracker.recorded().contains(ddk));
                    assert forall|j: int| 0 <= j < di + 1 implies deps_contains_key(
                        ki@,
                        tracker.recorded(),
                        #[trigger] rdeps[j],
                    ) by {
                        if j < di {
                            lemma_deps_contains_recorded_grow(
                                ki@,
                                rec_pre,
                                tracker.recorded(),
                                rdeps[j],
                            );
                        } else {
                            let x = choose|x: int|
                                0 <= x < tracker.recorded().len() && tracker.recorded()[x] == ddk;
                            assert(deps_contains_key(ki@, tracker.recorded(), dep_payload));
                        }
                    }
                    assert forall|x: int| 0 <= x < tracker.recorded().len() implies is_edge_of(
                        *d,
                        ki@,
                        payload,
                        #[trigger] tracker.recorded()[x],
                    ) by {
                        if x < rec_pre.len() {
                            assert(tracker.recorded()[x] == rec_pre[x]);
                        } else {
                            assert(tracker.recorded()[x] == ddk);
                        }
                    }
                    // the running sum tracks the model while everything observed is valid
                    if tracker.validity() == DiceValidity::Valid {
                        assert(val_pre == DiceValidity::Valid);
                        assert(cv.validity == DiceValidity::Valid);
                        assert(evals_to(*d, dep_payload as int, cv.value));
                        let f0 = choose|f: nat|
                            eval_deps_sum(*d, rdeps.take(di as int), rule.base_value, f) == Some(
                                sum_pre,
                            );
                        let fd = choose|f: nat| eval_key_pure(*d, dep_payload as int, f) == Some(
                            cv.value,
                        );
                        let ff: nat = if f0 <= fd {
                            fd
                        } else {
                            f0
                        };
                        lemma_deps_sum_mono(*d, rdeps.take(di as int), rule.base_value, f0, ff);
                        lemma_eval_key_mono(*d, dep_payload as int, fd, ff);
                        lemma_deps_sum_push(
                            *d,
                            rdeps.take(di as int),
                            dep_payload,
                            rule.base_value,
                            sum_pre,
                            cv.value,
                            ff,
                        );
                        assert(rdeps.take(di as int).push(dep_payload) =~= rdeps.take(
                            di as int + 1,
                        ));
                        assert(eval_deps_sum(*d, rdeps.take(di as int + 1), rule.base_value, ff)
                            == Some(*sum));
                    }
                }
            },
            Err(e) => {
                proof {
                    lemma_chain_cycle_from_requested(*d, chain1, dep_payload, e);
                }
                return Some(e);
            },
        }
        di = di + 1;
    }
    proof {
        assert(rdeps.take(nd as int) =~= rdeps);
    }
    None
}

/// Resolves every projection the rule reads: the base key resolves
/// recursively (without itself becoming an edge), the projection derives
/// synchronously from the base value, and the projection's key is recorded.
#[verifier::loop_isolation(false)]
#[verifier::rlimit(100)]
#[verifier::spinoff_prover]
fn eval_rule_projs(
    d: &DiceData,
    ki: &mut KeyIndex,
    c: &mut SharedCache,
    log: &mut Vec<DiceKey>,
    chain: &mut Vec<u64>,
    payload: u64,
    rule: &KeyRule,
    tracker: &mut RecordingDepsTracker,
    sum: &mut u64,
    Ghost(s1): Ghost<u64>,
) -> (r: Option<DiceError>)
    requires
        d.wf(),
        payload < d.num_keys(),
        *rule == d.spec_rules()[payload as int],
        old(ki).wf(),
        old(c).wf(),
        old(c).quiescent(),
        old(c).spec_valid(),
        engine_inv(*d, old(ki)@, *old(c)),
        chain_wf(*d, old(chain)@),
        chain_slots_open(old(ki)@, *old(c), old(chain)@),
        old(chain)@.len() > 0,
        old(chain)@.last() == payload,
        old(tracker).wf(),
        forall|x: int|
            0 <= x < old(tracker).recorded().len() ==> is_edge_of(
                *d,
                old(ki)@,
                payload,
                #[trigger] old(tracker).recorded()[x],
            ),
        forall|j: int|
            0 <= j < rule.deps@.len() ==> deps_contains_key(
                old(ki)@,
                old(tracker).recorded(),
                #[trigger] rule.deps@[j],
            ),
        *old(sum) == s1,
        old(tracker).validity() == DiceValidity::Valid ==> exists|f: nat|
            eval_deps_sum(*d, rule.deps@, rule.base_value, f) == Some(s1),
    ensures
        final(ki).wf(),
        old(ki)@.is_prefix_of(final(ki)@),
        final(c).wf(),
        final(c).quiescent(),
        final(c).spec_valid(),
        engine_inv(*d, final(ki)@, *final(c)),
        chain_slots_open(final(ki)@, *final(c), old(chain)@),
        ready_frozen(*old(c), *final(c)),
        final(chain)@ == old(chain)@,
        old(log)@.is_prefix_of(final(log)@),
        final(tracker).wf(),
        r is None ==> (forall|x: int|
            0 <= x < final(tracker).recorded().len() ==> is_edge_of(
                *d,
                final(ki)@,
                payload,
                #[trigger] final(tracker).recorded()[x],
            )),
        r is None ==> (forall|j: int|
            0 <= j < rule.deps@.len() ==> deps_contains_key(
                final(ki)@,
                final(tracker).recorded(),
                #[trigger] rule.deps@[j],
            )),
        r is None ==> (forall|j: int|
            0 <= j < rule.proj_deps@.len() ==> deps_contains_proj(
                final(ki)@,
                final(tracker).recorded(),
                #[trigger] rule.proj_deps@[j],
            )),
        r is None ==> (final(tracker).validity() == DiceValidity::Valid ==> exists|f: nat|
            eval_deps_sum(*d, rule.deps@, rule.base_value, f) == Some(s1) && eval_proj_sum(
                *d,
                rule.proj_deps@,
                s1,
                f,
            ) == Some(*final(sum))),
        r matches Some(e) ==> is_cycle_err(*d, e) && chain_cycle_err(*d, old(chain)@, e),
        no_transient(*old(c)) ==> no_transient(*final(c)) && (old(tracker).validity()
            == DiceValidity::Valid ==> final(tracker).validity() == DiceValidity::Valid),
    decreases d.num_keys() - old(chain)@.len(), 1int,
{
    let ghost chain1 = chain@;
    let ghost rdeps = rule.deps@;
    let ghost rpdeps = rule.proj_deps@;
    proof {
        lemma_ready_frozen_refl(*c);
        assert(rpdeps.take(0) =~= Seq::<ProjDep>::empty());
        if tracker.validity() == DiceValidity::Valid {
            let f = choose|f: nat| eval_deps_sum(*d, rdeps, rule.base_value, f) == Some(s1);
            assert(eval_proj_sum(*d, rpdeps.take(0), s1, f) == Some(s1));
        }
    }
    let np = rule.proj_deps.len();
    let mut pi: usize = 0;
    while pi < np
        invariant
            pi <= np,
            ki.wf(),
            old(ki)@.is_prefix_of(ki@),
            c.wf(),
            c.quiescent(),
            c.spec_valid(),
            engine_inv(*d, ki@, *c),
            ready_frozen(*old(c), *c),
            no_transient(*old(c)) ==> no_transient(*c) && (old(tracker).validity()
                == DiceValidity::Valid ==> tracker.validity() == DiceValidity::Valid),
            chain@ == chain1,
            chain_slots_open(ki@, *c, chain1),
            old(log)@.is_prefix_of(log@),
            tracker.wf(),
            forall|x: int|
                0 <= x < tracker.recorded().len() ==> is_edge_of(
                    *d,
                    ki@,
                    payload,
                    #[trigger] tracker.recorded()[x],
                ),
            forall|j: int|
                0 <= j < rdeps.len() ==> deps_contains_key(
                    ki@,
                    tracker.recorded(),
                    #[trigger] rdeps[j],
                ),
            forall|j: int|
                0 <= j < pi ==> deps_contains_proj(ki@, tracker.recorded(), #[trigger] rpdeps[j]),
            tracker.validity() == DiceValidity::Valid ==> exists|f: nat|
                eval_deps_sum(*d, rdeps, rule.base_value, f) == Some(s1) && eval_proj_sum(
                    *d,
                    rpdeps.take(pi as int),
                    s1,
                    f,
                ) == Some(*sum),
        decreases np - pi,
    {
        let pd = rule.proj_deps[pi];
        let ghost ks_pre = ki@;
        let bdk = ki.index(DiceKeyErased::Key { payload: pd.base });
        proof {
            assert(d.rule_ok(d.spec_rules()[payload as int]));
            assert(rpdeps[pi as int].base < d.num_keys() && rpdeps[pi as int].proj
                < d.num_projs());
            lemma_engine_inv_prefix(*d, ks_pre, ki@, *c);
            lemma_chain_slots_open_prefix(*d, ks_pre, ki@, *c, chain1);
            assert(rpdeps.contains(pd));
            assert(edge(*d, payload, pd.base)) by {
                assert(rpdeps[pi as int].base == pd.base);
            }
            lemma_chain_bounded(chain1, d.num_keys());
            lemma_tracker_edges_prefix(*d, ks_pre, ki@, payload, tracker.recorded());
            lemma_tracker_keys_prefix(ks_pre, ki@, tracker.recorded(), rdeps, rdeps.len() as int);
            lemma_tracker_projs_prefix(ks_pre, ki@, tracker.recorded(), rpdeps, pi as int);
        }
        let ghost ks_call = ki@;
        let ghost c_call = *c;
        let bres = eval_for_key(d, ki, c, log, chain, bdk);
        match bres {
            Ok(bcv) => {
                proof {
                    lemma_ready_frozen_trans(*old(c), c_call, *c);
                    lemma_tracker_edges_prefix(*d, ks_call, ki@, payload, tracker.recorded());
                    lemma_tracker_keys_prefix(
                        ks_call,
                        ki@,
                        tracker.recorded(),
                        rdeps,
                        rdeps.len() as int,
                    );
                    lemma_tracker_projs_prefix(ks_call, ki@, tracker.recorded(), rpdeps, pi as int);
                }
                let ghost ks_mid = ki@;
                let pdk = ki.index(DiceKeyErased::Projection { base: bdk, proj: pd.proj });
                proof {
                    lemma_engine_inv_prefix(*d, ks_mid, ki@, *c);
                    lemma_chain_slots_open_prefix(*d, ks_mid, ki@, *c, chain1);
                    lemma_tracker_edges_prefix(*d, ks_mid, ki@, payload, tracker.recorded());
                    lemma_tracker_keys_prefix(
                        ks_mid,
                        ki@,
                        tracker.recorded(),
                        rdeps,
                        rdeps.len() as int,
                    );
                    lemma_tracker_projs_prefix(ks_mid, ki@, tracker.recorded(), rpdeps, pi as int);
                }
                let ghost c_proj = *c;
                let pcv = project_for_key(d, ki, c, log, pdk, bdk, bcv);
                proof {
                    lemma_ready_frozen_trans(*old(c), c_proj, *c);
                    assert(chain_slots_open(ki@, *c, chain1)) by {
                        assert forall|i: int|
                            0 <= i < ki@.len() && is_plain(#[trigger] ki@[i]) && chain1.contains(
                                plain_payload(ki@[i]),
                            ) implies !(c.slot(i) matches Some(t) && t.spec_state() matches
                            DiceTaskState::Ready(_)) by {
                            if i == pdk.index as int {
                                assert(!is_plain(ki@[i]));
                            }
                        }
                    }
                }
                let ghost rec_pre = tracker.recorded();
                let ghost val_pre = tracker.validity();
                let ghost sum_pre = *sum;
                tracker.record(pdk, pcv.validity);
                *sum = wrap_add(*sum, pcv.value);
                proof {
                    assert(ki@[pdk.index as int] == (DiceKeyErased::Projection {
                        base: bdk,
                        proj: pd.proj,
                    }));
                    assert(ki@[bdk.index as int] == (DiceKeyErased::Key { payload: pd.base }));
                    assert(is_edge_of(*d, ki@, payload, pdk)) by {
                        assert(rpdeps[pi as int] == pd);
                        assert(d.spec_rules()[payload as int].proj_deps@.contains(pd));
                    }
                    assert(tracker.recorded().contains(pdk));
                    assert forall|j: int| 0 <= j < pi + 1 implies deps_contains_proj(
                        ki@,
                        tracker.recorded(),
                        #[trigger] rpdeps[j],
                    ) by {
                        if j < pi {
                            lemma_deps_contains_proj_recorded_grow(
                                ki@,
                                rec_pre,
                                tracker.recorded(),
                                rpdeps[j],
                            );
                        } else {
                            let x = choose|x: int|
                                0 <= x < tracker.recorded().len() && tracker.recorded()[x] == pdk;
                            assert(deps_contains_proj(ki@, tracker.recorded(), pd));
                        }
                    }
                    assert forall|j: int| 0 <= j < rdeps.len() implies deps_contains_key(
                        ki@,
                        tracker.recorded(),
                        #[trigger] rdeps[j],
                    ) by {
                        lemma_deps_contains_recorded_grow(
                            ki@,
                            rec_pre,
                            tracker.recorded(),
                            rdeps[j],
                        );
                    }
                    assert forall|x: int| 0 <= x < tracker.recorded().len() implies is_edge_of(
                        *d,
                        ki@,
                        payload,
                        #[trigger] tracker.recorded()[x],
                    ) by {
                        if x < rec_pre.len() {
                            assert(tracker.recorded()[x] == rec_pre[x]);
                        } else {
                            assert(tracker.recorded()[x] == pdk);
                        }
                    }
                    if tracker.validity() == DiceValidity::Valid {
                        assert(val_pre == DiceValidity::Valid);
                        assert(pcv.validity == DiceValidity::Valid);
                        assert(proj_evals_to(*d, pd.base as int, pd.proj as int, pcv.value));
                        let bv = choose|bv: u64|
                            evals_to(*d, pd.base as int, bv) && pcv.value == proj_value(
                                *d,
                                pd.proj as int,
                                bv,
                            );
                        let f0 = choose|f: nat|
                            eval_deps_sum(*d, rdeps, rule.base_value, f) == Some(s1)
                                && eval_proj_sum(*d, rpdeps.take(pi as int), s1, f) == Some(
                                sum_pre,
                            );
                        let fb = choose|f: nat| eval_key_pure(*d, pd.base as int, f) == Some(bv);
                        let ff: nat = if f0 <= fb {
                            fb
                        } else {
                            f0
                        };
                        lemma_deps_sum_mono(*d, rdeps, rule.base_value, f0, ff);
                        lemma_proj_sum_mono(*d, rpdeps.take(pi as int), s1, f0, ff);
                        lemma_eval_key_mono(*d, pd.base as int, fb, ff);
                        lemma_proj_sum_push(*d, rpdeps.take(pi as int), pd, s1, sum_pre, bv, ff);
                        assert(rpdeps.take(pi as int).push(pd) =~= rpdeps.take(pi as int + 1));
                        assert(eval_proj_sum(*d, rpdeps.take(pi as int + 1), s1, ff) == Some(
                            *sum,
                        ));
                    }
                }
            },
            Err(e) => {
                proof {
                    lemma_chain_cycle_from_requested(*d, chain1, pd.base, e);
                }
                return Some(e);
            },
        }
        pi = pi + 1;
    }
    proof {
        assert(rpdeps.take(np as int) =~= rpdeps);
    }
    None
}

/// Prefix chains compose.
pub proof fn lemma_prefix_trans<A>(a: Seq<A>, b: Seq<A>, c: Seq<A>)
    requires
        a.is_prefix_of(b),
        b.is_prefix_of(c),
    ensures
        a.is_prefix_of(c),
{
    assert(a =~= c.subrange(0, a.len() as int));
}

/// Closing the newest open key keeps every remaining open key's slot open.
proof fn lemma_chain_slots_open_shrink(
    ks: Seq<DiceKeyErased>,
    c: SharedCache,
    chain0: Seq<u64>,
    chain1: Seq<u64>,
    payload: u64,
)
    requires
        chain1 == chain0.push(payload),
        chain_slots_open(ks, c, chain1),
    ensures
        chain_slots_open(ks, c, chain0),
{
    assert forall|i: int|
        0 <= i < ks.len() && is_plain(#[trigger] ks[i]) && chain0.contains(plain_payload(ks[i]))
            implies !(c.slot(i) matches Some(t) && t.spec_state() matches DiceTaskState::Ready(_)) by {
        let x = choose|x: int| 0 <= x < chain0.len() && chain0[x] == plain_payload(ks[i]);
        assert(chain1[x] == chain0[x]);
        assert(chain1.contains(plain_payload(ks[i])));
    }
}

/// Tracker facts survive interner growth.
proof fn lemma_tracker_edges_prefix(
    d: DiceData,
    ks1: Seq<DiceKeyErased>,
    ks2: Seq<DiceKeyErased>,
    payload: u64,
    rec: Seq<DiceKey>,
)
    requires
        ks1.is_prefix_of(ks2),
        forall|x: int| 0 <= x < rec.len() ==> is_edge_of(d, ks1, payload, #[trigger] rec[x]),
    ensures
        forall|x: int| 0 <= x < rec.len() ==> is_edge_of(d, ks2, payload, #[trigger] rec[x]),
{
    assert forall|x: int| 0 <= x < rec.len() implies is_edge_of(d, ks2, payload, #[trigger] rec[x]) by {
        lemma_is_edge_of_prefix(d, ks1, ks2, payload, rec[x]);
    }
}

proof fn lemma_tracker_keys_prefix(
    ks1: Seq<DiceKeyErased>,
    ks2: Seq<DiceKeyErased>,
    rec: Seq<DiceKey>,
    rdeps: Seq<u64>,
    n: int,
)
    requires
        ks1.is_prefix_of(ks2),
        n <= rdeps.len(),
        forall|j: int| 0 <= j < n ==> deps_contains_key(ks1, rec, #[trigger] rdeps[j]),
    ensures
        forall|j: int| 0 <= j < n ==> deps_contains_key(ks2, rec, #[trigger] rdeps[j]),
{
    assert forall|j: int| 0 <= j < n implies deps_contains_key(ks2, rec, #[trigger] rdeps[j]) by {
        lemma_deps_contains_key_prefix(ks1, ks2, rec, rdeps[j]);
    }
}

proof fn lemma_tracker_projs_prefix(
    ks1: Seq<DiceKeyErased>,
    ks2: Seq<DiceKeyErased>,
    rec: Seq<DiceKey>,
    rpdeps: Seq<ProjDep>,
    n: int,
)
    requires
        ks1.is_prefix_of(ks2),
        n <= rpdeps.len(),
        forall|j: int| 0 <= j < n ==> deps_contains_proj(ks1, rec, #[trigger] rpdeps[j]),
    ensures
        forall|j: int| 0 <= j < n ==> deps_contains_proj(ks2, rec, #[trigger] rpdeps[j]),
{
    assert forall|j: int| 0 <= j < n implies deps_contains_proj(ks2, rec, #[trigger] rpdeps[j]) by {
        lemma_deps_contains_proj_prefix(ks1, ks2, rec, rpdeps[j]);
    }
}

/// A recorded edge set only ever grows; what it contains, it keeps.
proof fn lemma_deps_contains_recorded_grow(
    ks: Seq<DiceKeyErased>,
    deps1: Seq<DiceKey>,
    deps2: Seq<DiceKey>,
    q: u64,
)
    requires
        deps_contains_key(ks, deps1, q),
        deps1.is_prefix_of(deps2) || deps1 == deps2,
    ensures
        deps_contains_key(ks, deps2, q),
{
    let i = choose|i: int|
        0 <= i < deps1.len() && (#[trigger] deps1[i]).index < ks.len() && ks[deps1[i].index as int]
            == (DiceKeyErased::Key { payload: q });
    assert(deps2[i] == deps1[i]);
}

proof fn lemma_deps_contains_proj_recorded_grow(
    ks: Seq<DiceKeyErased>,
    deps1: Seq<DiceKey>,
    deps2: Seq<DiceKey>,
    pd: ProjDep,
)
    requires
        deps_contains_proj(ks, deps1, pd),
        deps1.is_prefix_of(deps2) || deps1 == deps2,
    ensures
        deps_contains_proj(ks, deps2, pd),
{
    let i = choose|i: int|
        0 <= i < deps1.len() && (#[trigger] deps1[i]).index < ks.len() && match ks[deps1[i].index as int] {
            DiceKeyErased::Projection { base, proj } => proj == pd.proj && base.index < ks.len()
                && ks[base.index as int] == (DiceKeyErased::Key { payload: pd.base }),
            DiceKeyErased::Key { .. } => false,
        };
    assert(deps2[i] == deps1[i]);
}

/// A recorded edge keeps meaning the same read when the interner grows.
proof fn lemma_is_edge_of_prefix(
    d: DiceData,
    ks1: Seq<DiceKeyErased>,
    ks2: Seq<DiceKeyErased>,
    payload: u64,
    dk: DiceKey,
)
    requires
        ks1.is_prefix_of(ks2),
        is_edge_of(d, ks1, payload, dk),
    ensures
        is_edge_of(d, ks2, payload, dk),
{
    assert(ks2[dk.index as int] == ks1[dk.index as int]);
    match ks1[dk.index as int] {
        DiceKeyErased::Projection { base, proj } => {
            assert(ks2[base.index as int] == ks1[base.index as int]);
        },
        _ => {},
    }
}

proof fn lemma_deps_contains_key_prefix(
    ks1: Seq<DiceKeyErased>,
    ks2: Seq<DiceKeyErased>,
    deps: Seq<DiceKey>,
    q: u64,
)
    requires
        ks1.is_prefix_of(ks2),
        deps_contains_key(ks1, deps, q),
    ensures
        deps_contains_key(ks2, deps, q),
{
    let i = choose|i: int|
        0 <= i < deps.len() && (#[trigger] deps[i]).index < ks1.len() && ks1[deps[i].index as int]
            == (DiceKeyErased::Key { payload: q });
    assert(ks2[deps[i].index as int] == ks1[deps[i].index as int]);
}

proof fn lemma_deps_contains_proj_prefix(
    ks1: Seq<DiceKeyErased>,
    ks2: Seq<DiceKeyErased>,
    deps: Seq<DiceKey>,
    pd: ProjDep,
)
    requires
        ks1.is_prefix_of(ks2),
        deps_contains_proj(ks1, deps, pd),
    ensures
        deps_contains_proj(ks2, deps, pd),
{
    let i = choose|i: int|
        0 <= i < deps.len() && (#[trigger] deps[i]).index < ks1.len() && match ks1[deps[i].index as int] {
            DiceKeyErased::Projection { base, proj } => proj == pd.proj && base.index < ks1.len()
                && ks1[base.index as int] == (DiceKeyErased::Key { payload: pd.base }),
            DiceKeyErased::Key { .. } => false,
        };
    assert(ks2[deps[i].index as int] == ks1[deps[i].index as int]);
    match ks1[deps[i].index as int] {
        DiceKeyErased::Projection { base, proj } => {
            assert(ks2[base.index as int] == ks1[base.index as int]);
        },
        _ => {},
    }
}


/// Opening one more key keeps the chain well-formed and its slots open: the
/// new key's own slot is the one being (re)spawned, so it is not completed.
proof fn lemma_open_chain_grow(
    d: DiceData,
    ks: Seq<DiceKeyErased>,
    c: SharedCache,
    chain0: Seq<u64>,
    chain1: Seq<u64>,
    k: DiceKey,
    payload: u64,
)
    requires
        chain1 == chain0.push(payload),
        chain_wf(d, chain0),
        !chain0.contains(payload),
        payload < d.num_keys(),
        chain0.len() > 0 ==> edge(d, chain0.last(), payload),
        chain_slots_open(ks, c, chain0),
        ks.no_duplicates(),
        k.index < ks.len(),
        ks[k.index as int] == (DiceKeyErased::Key { payload }),
        !(c.slot(k.index as int) matches Some(t) && t.spec_state() matches DiceTaskState::Ready(
            _,
        )),
    ensures
        chain_wf(d, chain1),
        chain_slots_open(ks, c, chain1),
{
    assert forall|i: int| 0 <= i < chain1.len() - 1 implies edge(
        d,
        #[trigger] chain1[i],
        chain1[i + 1],
    ) by {
        if i < chain0.len() - 1 {
            assert(edge(d, chain0[i], chain0[i + 1]));
        } else {
            assert(chain1[i] == chain0.last());
        }
    }
    assert forall|i: int|
        0 <= i < ks.len() && is_plain(#[trigger] ks[i]) && chain1.contains(plain_payload(ks[i]))
            implies !(c.slot(i) matches Some(t) && t.spec_state() matches DiceTaskState::Ready(_)) by {
        if plain_payload(ks[i]) == payload {
            if i != k.index as int {
                assert(ks[i] == ks[k.index as int]);
                assert(false);  // the interner never holds one key twice
            }
        } else {
            let x = choose|x: int| 0 <= x < chain1.len() && chain1[x] == plain_payload(ks[i]);
            assert(chain0[x] == chain1[x]);
            assert(chain0.contains(plain_payload(ks[i])));
        }
    }
}

/// Completing the spawned key's slot preserves the cache invariant and
/// leaves every key still open in the caller's chain uncompleted.
proof fn lemma_completion_keeps_inv(
    d: DiceData,
    ks: Seq<DiceKeyErased>,
    c_pre: SharedCache,
    c: SharedCache,
    k: DiceKey,
    payload: u64,
    cv: DiceComputedValue,
    deps_seq: Seq<DiceKey>,
    chain0: Seq<u64>,
    chain1: Seq<u64>,
)
    requires
        engine_inv(d, ks, c_pre),
        chain_slots_open(ks, c_pre, chain1),
        chain1 == chain0.push(payload),
        !chain0.contains(payload),
        k.index < ks.len(),
        ks[k.index as int] == (DiceKeyErased::Key { payload }),
        payload < d.num_keys(),
        forall|i: int| i != k.index as int ==> #[trigger] c.slot(i) == c_pre.slot(i),
        c.slot(k.index as int) matches Some(t) && t.spec_state() == DiceTaskState::Ready(cv)
            && t.spec_deps() == deps_seq,
        cv.validity == DiceValidity::Valid ==> evals_to(d, payload as int, cv.value)
            && edges_exact(d, ks, payload, deps_seq),
    ensures
        engine_inv(d, ks, c),
        chain_slots_open(ks, c, chain0),
{
    assert forall|i: int| (#[trigger] c.slot(i)) is Some implies entry_ok(
        d,
        ks,
        i,
        c.slot(i).unwrap(),
    ) by {
        if i != k.index as int {
            assert(c.slot(i) == c_pre.slot(i));
        } else {
            let t = c.slot(i).unwrap();
            assert(t.spec_state() == DiceTaskState::Ready(cv));
        }
    }
    assert forall|i: int|
        0 <= i < ks.len() && is_plain(#[trigger] ks[i]) && chain0.contains(plain_payload(ks[i]))
            implies !(c.slot(i) matches Some(t) && t.spec_state() matches DiceTaskState::Ready(_)) by {
        if i == k.index as int {
            assert(plain_payload(ks[i]) == payload);
            assert(false);  // the spawned key was checked absent from the incoming chain
        } else {
            assert(c.slot(i) == c_pre.slot(i));
            let x = choose|x: int| 0 <= x < chain0.len() && chain0[x] == plain_payload(ks[i]);
            assert(chain1[x] == chain0[x]);
            assert(chain1.contains(plain_payload(ks[i])));
        }
    }
}


/// A cycle raised while one more key was open is a cycle raised through
/// that key: the same followed chain witnesses both views.
proof fn lemma_requested_cycle_from_below(
    d: DiceData,
    chain0: Seq<u64>,
    chain1: Seq<u64>,
    payload: u64,
    e: DiceError,
)
    requires
        chain1 == chain0.push(payload),
        chain_cycle_err(d, chain1, e),
        e matches DiceError::Cycle { .. },
    ensures
        requested_cycle_err(d, chain0, payload, e),
{
    match e {
        DiceError::Cycle { trigger, cyclic_keys } => {
            let cc = choose|cc: Seq<u64>|
                #[trigger] followed_cycle(d, chain1, cc, trigger, cyclic_keys@);
            assert(chain0.is_prefix_of(chain1)) by {
                assert(chain0 =~= chain1.subrange(0, chain0.len() as int));
            }
            lemma_prefix_trans(chain0, chain1, cc);
            assert(cc[chain0.len() as int] == chain1[chain0.len() as int]);
            assert(followed_cycle(d, chain0, cc, trigger, cyclic_keys@));
        },
        _ => {},
    }
}

/// A cycle the recursion attributes to a requested dependency is a cycle
/// raised below the chain it was requested on.
proof fn lemma_chain_cycle_from_requested(d: DiceData, chain1: Seq<u64>, p: u64, e: DiceError)
    requires
        requested_cycle_err(d, chain1, p, e),
    ensures
        chain_cycle_err(d, chain1, e),
{
    match e {
        DiceError::Cycle { trigger, cyclic_keys } => {
            let cc = choose|cc: Seq<u64>|
                {
                    &&& #[trigger] followed_cycle(d, chain1, cc, trigger, cyclic_keys@)
                    &&& cc.len() > chain1.len() ==> cc[chain1.len() as int] == p
                    &&& cc.len() == chain1.len() ==> plain_payload(trigger) == p
                };
            assert(followed_cycle(d, chain1, cc, trigger, cyclic_keys@));
        },
        _ => {},
    }
}

} // verus!
