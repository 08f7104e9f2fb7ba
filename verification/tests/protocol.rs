//! The task protocol: attach, spawn, cancel, replace, and promises.

use dice::cache::DiceTaskState;
use dice::cache::MaybeCancelled;
use dice::cache::SharedCache;
use dice::ctx::DiceComputations;
use dice::ctx::RequestOutcome;
use dice::ctx::SharedLiveTransactionCtx;
use dice::data::DiceData;
use dice::data::KeyRule;
use dice::data::UserComputationData;
use dice::error::Cancelled;
use dice::key::DiceKey;
use dice::key::DiceKeyErased;
use dice::key::ParentKey;
use dice::value::DiceComputedValue;
use dice::value::DiceValidity;
use dice::versions::VersionEpoch;
use dice::versions::VersionNumber;
use dice::versions::VersionTracker;

fn shared_with(cache: SharedCache) -> SharedLiveTransactionCtx {
    SharedLiveTransactionCtx::new(
        VersionNumber { value: 1 },
        VersionEpoch { value: 0 },
        cache,
    )
}

#[test]
fn waiter_attached_before_cancellation_observes_cancelled() {
    let mut cache = SharedCache::new();
    let dk = DiceKey { index: 0 };
    cache.begin_task(dk);
    let promise = match cache.depended_on_by(dk, ParentKey::Root) {
        MaybeCancelled::Attached(p) => p,
        MaybeCancelled::Cancelled => panic!("task was just spawned"),
    };
    assert_eq!(cache.poll_promise(promise), None); // still pending
    cache.cancel_task(dk);
    assert_eq!(cache.poll_promise(promise), Some(Err(Cancelled)));
}

#[test]
fn cancelled_task_with_zero_waiters_is_replaced_by_one_fresh_execution() {
    // a task cancelled while nobody waits; a later request for the same key
    // causes exactly one fresh execution, not a hang and not a stale result
    let mut d = DiceData::new();
    d.add_key_rule(KeyRule {
        base_value: 11,
        deps: vec![],
        proj_deps: vec![],
    });
    let mut ctx = DiceComputations::new(
        d,
        UserComputationData::new(),
        shared_with(SharedCache::new()),
        ParentKey::Root,
        None,
    );
    let dk = ctx.key_index.index(DiceKeyErased::Key { payload: 0 });
    ctx.per_live_version_ctx.cache.begin_task(dk);
    ctx.per_live_version_ctx.cache.cancel_task(dk);

    assert_eq!(ctx.compute(0), Ok(11));
    assert_eq!(ctx.spawn_log, vec![dk]); // exactly one fresh execution
}

#[test]
fn replacement_keeps_old_waiters_on_the_cancelled_attempt() {
    let mut cache = SharedCache::new();
    let dk = DiceKey { index: 3 };
    cache.begin_task(dk);
    let old_promise = match cache.depended_on_by(dk, ParentKey::Root) {
        MaybeCancelled::Attached(p) => p,
        MaybeCancelled::Cancelled => panic!("task was just spawned"),
    };
    cache.cancel_task(dk);

    let mut shared = shared_with(cache);
    let new_promise = match shared.compute_opaque(dk, ParentKey::Key(DiceKey { index: 9 })) {
        RequestOutcome::Spawned {
            promise,
            previously_cancelled,
        } => {
            assert!(previously_cancelled);
            promise
        }
        other => panic!("expected a replacement spawn, got {:?}", other),
    };

    // the earlier waiter still observes cancellation for its attempt
    assert_eq!(shared.cache.poll_promise(old_promise), Some(Err(Cancelled)));
    // the new attempt is live, and all its waiters see one completion event
    assert_eq!(shared.cache.poll_promise(new_promise), None);
    let v = DiceComputedValue {
        value: 5,
        validity: DiceValidity::Valid,
    };
    shared.cache.complete_task(dk, v, vec![]);
    assert_eq!(shared.cache.poll_promise(new_promise), Some(Ok(v)));
}

#[test]
fn attaching_to_a_live_task_never_respawns() {
    let mut cache = SharedCache::new();
    let dk = DiceKey { index: 0 };
    cache.begin_task(dk);
    let mut shared = shared_with(cache);
    match shared.compute_opaque(dk, ParentKey::Root) {
        RequestOutcome::AttachedToExisting(p) => {
            assert_eq!(p.key, dk);
        }
        other => panic!("expected to attach, got {:?}", other),
    }
    // both waiters of the one task observe the same completion
    let v = DiceComputedValue {
        value: 8,
        validity: DiceValidity::Valid,
    };
    shared.cache.complete_task(dk, v, vec![]);
    match shared.compute_opaque(dk, ParentKey::Root) {
        RequestOutcome::AttachedToExisting(p) => {
            assert_eq!(shared.cache.poll_promise(p), Some(Ok(v)));
        }
        other => panic!("expected to attach, got {:?}", other),
    }
}

#[test]
fn vacant_slot_spawns() {
    let mut shared = shared_with(SharedCache::new());
    let dk = DiceKey { index: 2 };
    match shared.compute_opaque(dk, ParentKey::Root) {
        RequestOutcome::Spawned {
            previously_cancelled,
            ..
        } => assert!(!previously_cancelled),
        other => panic!("expected a spawn, got {:?}", other),
    }
    assert_eq!(
        shared.cache.get_state(dk),
        Some(dice::cache::CacheEntry::Occupied(DiceTaskState::Pending))
    );
}

#[test]
fn stale_generation_answers_cache_gone() {
    let mut cache = SharedCache::new();
    cache.invalidate();
    let mut shared = shared_with(cache);
    match shared.compute_opaque(DiceKey { index: 0 }, ParentKey::Root) {
        RequestOutcome::CacheGone => {}
        other => panic!("expected the cache to be gone, got {:?}", other),
    }
}

#[test]
fn version_numbers_increase_and_epochs_invalidate() {
    let mut tracker = VersionTracker::new();
    assert_eq!(tracker.current_version(), VersionNumber { value: 0 });
    let v1 = tracker.next();
    let v2 = tracker.next();
    assert_eq!(v1, VersionNumber { value: 1 });
    assert_eq!(v2, VersionNumber { value: 2 });
    assert_eq!(tracker.current_epoch(), VersionEpoch { value: 0 });
    let e1 = tracker.bump_epoch();
    assert_eq!(e1, VersionEpoch { value: 1 });
    assert_eq!(tracker.current_version(), v2);
}

#[test]
fn interner_assigns_one_identity_per_key() {
    let mut ki = dice::key::KeyIndex::new();
    let a = ki.index(DiceKeyErased::Key { payload: 10 });
    let b = ki.index(DiceKeyErased::Key { payload: 11 });
    let a_again = ki.index(DiceKeyErased::Key { payload: 10 });
    assert_eq!(a, a_again);
    assert_ne!(a, b);
    let p = ki.index(DiceKeyErased::Projection { base: a, proj: 0 });
    let p_again = ki.index(DiceKeyErased::Projection { base: a, proj: 0 });
    assert_eq!(p, p_again);
    assert_ne!(p, a);
    assert_eq!(ki.len(), 3);
    assert_eq!(ki.get(a), DiceKeyErased::Key { payload: 10 });
}
