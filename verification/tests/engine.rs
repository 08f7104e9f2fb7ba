//! End-to-end behaviour of the synchronous incremental engine.

use dice::cache::SharedCache;
use dice::ctx::DiceComputations;
use dice::ctx::SharedLiveTransactionCtx;
use dice::data::DiceData;
use dice::data::KeyRule;
use dice::data::ProjDep;
use dice::data::UserComputationData;
use dice::error::DiceError;
use dice::key::DiceKeyErased;
use dice::key::ParentKey;
use dice::value::DiceComputedValue;
use dice::value::DiceValidity;

fn rule(base_value: u64, deps: Vec<u64>, proj_deps: Vec<ProjDep>) -> KeyRule {
    KeyRule {
        base_value,
        deps,
        proj_deps,
    }
}

fn new_ctx(global: DiceData) -> DiceComputations {
    let shared = SharedLiveTransactionCtx::new(
        dice::versions::VersionNumber { value: 0 },
        dice::versions::VersionEpoch { value: 0 },
        SharedCache::new(),
    );
    DiceComputations::new(global, UserComputationData::new(), shared, ParentKey::Root, None)
}

/// Key 0 is a leaf worth 7; key 1 reads key 0 twice on top of 1.
fn small_table() -> DiceData {
    let mut d = DiceData::new();
    d.add_key_rule(rule(7, vec![], vec![]));
    d.add_key_rule(rule(1, vec![0, 0], vec![]));
    d
}

#[test]
fn computes_leaf_value() {
    let mut ctx = new_ctx(small_table());
    assert_eq!(ctx.compute(0), Ok(7));
}

#[test]
fn computes_derived_value() {
    let mut ctx = new_ctx(small_table());
    assert_eq!(ctx.compute(1), Ok(15));
}

#[test]
fn dedup_same_version_executes_once() {
    // two independent requesters of key 1 at the same version: its compute
    // logic executes exactly once, both observe the identical value
    let mut ctx = new_ctx(small_table());
    let first = ctx.compute(1).unwrap();
    let executions = ctx.spawn_log.len();
    assert_eq!(executions, 2); // key 1 and its leaf dependency, once each
    let second = ctx.compute(1).unwrap();
    assert_eq!(first, second);
    assert_eq!(ctx.spawn_log.len(), executions); // nothing re-executed
    // the already-computed leaf is deduplicated for new requesters too
    assert_eq!(ctx.compute(0), Ok(7));
    assert_eq!(ctx.spawn_log.len(), executions);
}

#[test]
fn compute_many_matches_sequential_computes() {
    let mut grouped = new_ctx(small_table());
    let many = grouped.compute_many(&vec![1, 0, 1]);

    let mut sequential = new_ctx(small_table());
    let one_by_one = vec![
        sequential.compute(1),
        sequential.compute(0),
        sequential.compute(1),
    ];

    assert_eq!(many, one_by_one);
    assert_eq!(many, vec![Ok(15), Ok(7), Ok(15)]);
    // grouped keys are still deduplicated against outstanding requests
    assert_eq!(grouped.spawn_log.len(), 2);
}

#[test]
fn compute2_returns_both_positionally() {
    let mut ctx = new_ctx(small_table());
    let (a, b) = ctx.compute2(1, 0);
    assert_eq!(a, Ok(15));
    assert_eq!(b, Ok(7));
}

#[test]
fn engine_reports_cycles_with_trigger_and_keys() {
    // 0 -> 1 -> 2 -> 0
    let mut d = DiceData::new();
    d.add_key_rule(rule(0, vec![1], vec![]));
    d.add_key_rule(rule(0, vec![2], vec![]));
    d.add_key_rule(rule(0, vec![0], vec![]));
    let mut ctx = new_ctx(d);
    match ctx.compute(0) {
        Err(DiceError::Cycle {
            trigger,
            cyclic_keys,
        }) => {
            assert_eq!(trigger, DiceKeyErased::Key { payload: 0 });
            assert_eq!(
                cyclic_keys,
                vec![
                    DiceKeyErased::Key { payload: 0 },
                    DiceKeyErased::Key { payload: 1 },
                    DiceKeyErased::Key { payload: 2 },
                ]
            );
        }
        other => panic!("expected a cycle error, got {:?}", other),
    }
}

#[test]
fn acyclic_chain_of_same_keys_succeeds() {
    // 0 -> 1 -> 2 -> 3, no repeat: plain success
    let mut d = DiceData::new();
    d.add_key_rule(rule(1, vec![1], vec![]));
    d.add_key_rule(rule(2, vec![2], vec![]));
    d.add_key_rule(rule(3, vec![3], vec![]));
    d.add_key_rule(rule(4, vec![], vec![]));
    let mut ctx = new_ctx(d);
    assert_eq!(ctx.compute(0), Ok(10));
}

#[test]
fn projection_caching_is_independent_of_base_rereads() {
    // base key 0 computed once; P0(B), P1(B), P0(B) again: each derivation
    // runs exactly once, however often the base is re-requested
    let mut d = DiceData::new();
    d.add_key_rule(rule(100, vec![], vec![]));
    d.add_proj_rule(dice::data::ProjRule { offset: 5 });
    d.add_proj_rule(dice::data::ProjRule { offset: 9 });
    let mut ctx = new_ctx(d);

    let opaque = ctx.compute_opaque(0).unwrap();
    assert_eq!(ctx.spawn_log.len(), 1); // the base itself
    assert_eq!(ctx.projection(&opaque, 0), Ok(105));
    assert_eq!(ctx.spawn_log.len(), 2); // P0 derived once
    assert_eq!(ctx.projection(&opaque, 1), Ok(109));
    assert_eq!(ctx.spawn_log.len(), 3); // P1 derived once
    assert_eq!(ctx.projection(&opaque, 0), Ok(105));
    assert_eq!(ctx.spawn_log.len(), 3); // P0 reused, not re-derived
    // re-requesting the base does not disturb the projections
    assert_eq!(ctx.compute(0), Ok(100));
    let opaque_again = ctx.compute_opaque(0).unwrap();
    assert_eq!(ctx.projection(&opaque_again, 0), Ok(105));
    assert_eq!(ctx.spawn_log.len(), 3);
}

#[test]
fn dependency_edges_are_exactly_what_was_read() {
    // key 2 computes key 0, then a projection over opaque key 1: its edges
    // are exactly { key 0, P0(key 1) } — not key 1 itself
    let mut d = DiceData::new();
    d.add_key_rule(rule(1, vec![], vec![]));
    d.add_key_rule(rule(2, vec![], vec![]));
    d.add_key_rule(rule(0, vec![0], vec![ProjDep { base: 1, proj: 0 }]));
    d.add_proj_rule(dice::data::ProjRule { offset: 3 });
    let mut ctx = new_ctx(d);

    let opaque = ctx.compute_opaque(2).unwrap();
    assert_eq!(opaque.value.value, 1 + (2 + 3));
    let deps = ctx
        .per_live_version_ctx
        .cache
        .ready_deps(opaque.derive_from_key)
        .unwrap()
        .clone();
    assert_eq!(deps.len(), 2);
    let key1 = DiceKeyErased::Key { payload: 1 };
    let mut saw_key0 = false;
    let mut saw_projection = false;
    for dk in &deps {
        let erased = ctx.key_index.get(*dk);
        assert_ne!(erased, key1, "the opaque base must not be an edge");
        match erased {
            DiceKeyErased::Key { payload } => {
                assert_eq!(payload, 0);
                saw_key0 = true;
            }
            DiceKeyErased::Projection { base, proj } => {
                assert_eq!(proj, 0);
                assert_eq!(ctx.key_index.get(base), key1);
                saw_projection = true;
            }
        }
    }
    assert!(saw_key0 && saw_projection);
}

#[test]
fn opaque_into_value_records_the_base_edge() {
    let mut ctx = new_ctx(small_table());
    let opaque = ctx.compute_opaque(0).unwrap();
    let base_key = opaque.derive_from_key;
    let v = ctx.opaque_into_value(opaque).unwrap();
    assert_eq!(v, 7);
    let ((deps, validity), _activation) = ctx.finalize();
    assert_eq!(deps, vec![base_key]);
    assert_eq!(validity, DiceValidity::Valid);
}

#[test]
fn transient_dependency_taints_the_result() {
    let mut ctx = new_ctx(small_table());
    let dk = ctx.key_index.index(DiceKeyErased::Key { payload: 0 });
    ctx.per_live_version_ctx.cache.inject_transient(
        dk,
        DiceComputedValue {
            value: 99,
            validity: DiceValidity::Transient,
        },
    );
    // the transient value still answers the immediate caller
    assert_eq!(ctx.compute(0), Ok(99));
    // and anything derived over it is transient, not a durable entry
    let opaque = ctx.compute_opaque(1).unwrap();
    assert_eq!(opaque.value.value, 1 + 99 + 99);
    assert_eq!(opaque.value.validity, DiceValidity::Transient);
}

#[test]
fn stale_generation_reports_cancelled() {
    let mut ctx = new_ctx(small_table());
    ctx.per_live_version_ctx.cache.invalidate();
    assert_eq!(ctx.compute(0), Err(DiceError::Cancelled));
}

#[test]
fn store_evaluation_data_twice_is_an_error() {
    let mut ctx = new_ctx(small_table());
    assert_eq!(ctx.store_evaluation_data(42), Ok(()));
    assert_eq!(
        ctx.store_evaluation_data(43),
        Err(DiceError::DuplicateActivationData)
    );
    let (_, activation) = ctx.finalize();
    assert_eq!(
        activation.into_activation_data(),
        dice::ctx::ActivationData::Evaluated(Some(42))
    );
}

#[test]
fn cycle_guard_round_trip() {
    let shared = SharedLiveTransactionCtx::new(
        dice::versions::VersionNumber { value: 0 },
        dice::versions::VersionEpoch { value: 0 },
        SharedCache::new(),
    );
    let ctx = DiceComputations::new(
        small_table(),
        UserComputationData::new(),
        shared,
        ParentKey::Root,
        Some(17),
    );
    assert_eq!(ctx.cycle_guard(), Ok(Some(17)));
    assert_eq!(ctx.per_transaction_data().data.len(), 0);
    assert_eq!(ctx.get_version(), dice::versions::VersionNumber { value: 0 });
}

#[test]
fn wrapping_combiner_wraps() {
    let mut d = DiceData::new();
    d.add_key_rule(rule(u64::MAX, vec![], vec![]));
    d.add_key_rule(rule(2, vec![0], vec![]));
    let mut ctx = new_ctx(d);
    assert_eq!(ctx.compute(1), Ok(1)); // 2 + (2^64 - 1), wrapped
}

#[test]
fn compute_opaque_alone_records_no_edge() {
    let mut ctx = new_ctx(small_table());
    let _opaque = ctx.compute_opaque(0).unwrap();
    let ((deps, validity), _activation) = ctx.finalize();
    assert!(deps.is_empty());
    assert_eq!(validity, DiceValidity::Valid);
}

#[test]
fn parallel_wrapper_carries_the_context() {
    let ctx = new_ctx(small_table());
    let mut parallel = dice::ctx::DiceComputationsParallel::new(ctx);
    assert_eq!(parallel.0.compute(0), Ok(7));
}

#[test]
fn finalize_returns_exactly_the_recorded_edges() {
    // this evaluation computes key 0, then a projection over opaque key 1:
    // the finalized edge set is exactly { key 0, P0(key 1) } — the opaque
    // base is not an edge
    let mut d = DiceData::new();
    d.add_key_rule(rule(5, vec![], vec![]));
    d.add_key_rule(rule(6, vec![], vec![]));
    d.add_proj_rule(dice::data::ProjRule { offset: 2 });
    let mut ctx = new_ctx(d);

    let a = ctx.compute(0).unwrap();
    let opaque_b = ctx.compute_opaque(1).unwrap();
    let p = ctx.projection(&opaque_b, 0).unwrap();
    assert_eq!((a, p), (5, 8));

    let dk_a = ctx.key_index.index(DiceKeyErased::Key { payload: 0 });
    let pdk = ctx.key_index.index(DiceKeyErased::Projection {
        base: opaque_b.derive_from_key,
        proj: 0,
    });
    let ((deps, validity), _activation) = ctx.finalize();
    assert_eq!(deps, vec![dk_a, pdk]);
    assert_eq!(validity, DiceValidity::Valid);
}

#[test]
fn grouped_branches_record_into_the_shared_tracker() {
    let mut ctx = new_ctx(small_table());
    let many = ctx.compute_many(&vec![1, 0, 1]);
    assert_eq!(many, vec![Ok(15), Ok(7), Ok(15)]);
    let dk1 = ctx.key_index.index(DiceKeyErased::Key { payload: 1 });
    let dk0 = ctx.key_index.index(DiceKeyErased::Key { payload: 0 });
    let ((deps, validity), _activation) = ctx.finalize();
    // each branch's edge once, in first-read order; the repeated branch
    // adds nothing new
    assert_eq!(deps, vec![dk1, dk0]);
    assert_eq!(validity, DiceValidity::Valid);
}
