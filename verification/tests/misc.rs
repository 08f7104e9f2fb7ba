//! Cancellation contexts, visibility specs, action keys, and client
//! helpers.

use dice::actions::ActionKey;
use dice::actions::BaseDeferredKey;
use dice::actions::BaseDeferredKeyDyn;
use dice::actions::ConfiguredTargetLabel;
use dice::actions::DeferredKey;
use dice::cancellation::CancellationContext;
use dice::cancellation::ExecutionContext;
use dice::cancellation::ExplicitCancellationContext;
use dice::client::Argv;
use dice::client::KillCommand;
use dice::client::user_version;
use dice::client::version;
use dice::visibility::TargetLabel;
use dice::visibility::VisibilityPattern;
use dice::visibility::VisibilitySpecification;
use dice::visibility::VisibilityWithinViewBuilder;
use dice::visibility::WithinViewSpecification;

fn label(s: &str) -> TargetLabel {
    TargetLabel {
        text: s.to_owned(),
    }
}

#[test]
fn critical_section_runs_the_body() {
    let ctx = CancellationContext::never_cancelled();
    let r = ctx.critical_section(|| 5 + 6);
    assert_eq!(r, 11);
}

#[test]
fn structured_cancellation_observer_reports_pending_cancellation() {
    let calm = ExplicitCancellationContext::testing();
    let r = calm.with_structured_cancellation(|obs| obs.is_cancelled());
    assert!(!r);

    let cancelled = ExplicitCancellationContext {
        inner: ExecutionContext {
            cancellation_requested: true,
            cancellation_disabled: false,
        },
    };
    let r = cancelled.with_structured_cancellation(|obs| obs.is_cancelled());
    assert!(r);
    let via_compat = cancelled.into_compatible();
    let r = via_compat.with_structured_cancellation(|obs| obs.is_cancelled());
    assert!(r);
}

#[test]
fn try_to_disable_cancellation_fails_once_cancelled() {
    let mut cancelled = ExplicitCancellationContext {
        inner: ExecutionContext {
            cancellation_requested: true,
            cancellation_disabled: false,
        },
    };
    assert!(cancelled.try_to_disable_cancellation().is_none());

    let mut calm = ExplicitCancellationContext::testing();
    assert!(calm.try_to_disable_cancellation().is_some());
    // once disabled, a later request never cancels the computation
    calm.inner.cancellation_requested = true;
    let r = calm.with_structured_cancellation(|obs| obs.is_cancelled());
    assert!(!r);

    let mut todo_ctx = CancellationContext::todo();
    assert!(todo_ctx.try_to_disable_cancellation().is_some());
    let mut testing_ctx = CancellationContext::testing();
    assert!(testing_ctx.try_to_disable_cancellation().is_some());
}

#[test]
fn public_visibility_admits_everyone() {
    let spec = VisibilitySpecification::testing_parse(vec![
        "//pkg:target".to_owned(),
        "PUBLIC".to_owned(),
    ]);
    assert_eq!(spec, VisibilitySpecification::Public);
    assert!(spec.is_visible_to(&label("//anything:at-all")));
}

#[test]
fn pattern_visibility_admits_exactly_the_named_targets() {
    let spec =
        VisibilitySpecification::testing_parse(vec!["//a:x".to_owned(), "//b:y".to_owned()]);
    assert!(spec.is_visible_to(&label("//a:x")));
    assert!(spec.is_visible_to(&label("//b:y")));
    assert!(!spec.is_visible_to(&label("//c:z")));
    // the default spec admits no one
    let default_spec = VisibilitySpecification::default();
    assert!(!default_spec.is_visible_to(&label("//a:x")));
}

#[test]
fn extend_with_unions_pattern_lists() {
    let a = VisibilitySpecification::testing_parse(vec!["//a:x".to_owned()]);
    let b = VisibilitySpecification::testing_parse(vec!["//b:y".to_owned()]);
    let c = a.extend_with(&b);
    assert!(c.is_visible_to(&label("//a:x")));
    assert!(c.is_visible_to(&label("//b:y")));
    assert!(!c.is_visible_to(&label("//c:z")));
    let p = a.extend_with(&VisibilitySpecification::Public);
    assert_eq!(p, VisibilitySpecification::Public);
}

#[test]
fn builder_builds_visibility_and_within_view() {
    let mut b = VisibilityWithinViewBuilder::with_capacity(2);
    b.add(VisibilityPattern::testing_new("//a:x".to_owned()));
    b.add(VisibilityPattern::testing_new("//b:y".to_owned()));
    let spec = b.build_visibility();
    assert!(spec.is_visible_to(&label("//a:x")));
    assert!(!spec.is_visible_to(&label("//c:z")));

    let mut b = VisibilityWithinViewBuilder::with_capacity(1);
    b.add_public();
    b.add(VisibilityPattern::testing_new("//a:x".to_owned()));
    assert_eq!(b.build_visibility(), VisibilitySpecification::Public);

    // an empty builder: visible to no one, but unrestricted view
    let b = VisibilityWithinViewBuilder::with_capacity(0);
    match b.build_visibility() {
        VisibilitySpecification::VisibleTo(ps) => assert_eq!(ps.len(), 0),
        VisibilitySpecification::Public => panic!("empty visibility must not be public"),
    }
    let b = VisibilityWithinViewBuilder::with_capacity(0);
    assert_eq!(b.build_within_view(), WithinViewSpecification::Public);
}

#[test]
fn within_view_extend_with() {
    let mut b = VisibilityWithinViewBuilder::with_capacity(1);
    b.add(VisibilityPattern::testing_new("//a:x".to_owned()));
    let a = b.build_within_view();
    let p = a.extend_with(&WithinViewSpecification::Public);
    assert_eq!(p, WithinViewSpecification::Public);
}

#[test]
fn action_key_carries_its_deferred_owner() {
    let owner = BaseDeferredKey::TargetLabel(ConfiguredTargetLabel {
        target: label("//a:x"),
        cfg: 1,
    });
    let deferred = DeferredKey {
        owner: owner.clone(),
        id: 42,
    };
    let action = ActionKey::unchecked_new(deferred.clone());
    assert_eq!(action.deferred_key(), &deferred);
    assert_eq!(action.owner(), &owner);

    let dynamic = owner.clone().into_dyn();
    assert_eq!(
        dynamic,
        BaseDeferredKeyDyn::TargetLabel(ConfiguredTargetLabel {
            target: label("//a:x"),
            cfg: 1,
        })
    );
    assert_eq!(BaseDeferredKey::from_dyn(dynamic), owner);
}

#[test]
fn kill_command_sanitizes_nothing() {
    let argv = Argv {
        argv: vec!["buck2".to_owned(), "kill".to_owned()],
        expanded_argv: vec!["buck2".to_owned(), "kill".to_owned()],
    };
    let sanitized = KillCommand {}.sanitize_argv(argv.clone());
    assert_eq!(sanitized.argv, argv.argv);
    assert_eq!(sanitized.expanded_argv, argv.expanded_argv);
}

#[test]
fn user_version_prefers_the_sandbox_id() {
    assert_eq!(
        user_version(Some("sandbox-1".to_owned()), vec![None, Some("ci-2".to_owned())]),
        Some("sandbox-1".to_owned())
    );
    assert_eq!(
        user_version(None, vec![None, Some("ci-2".to_owned()), Some("ci-3".to_owned())]),
        Some("ci-2".to_owned())
    );
    assert_eq!(user_version(None, vec![None, None]), None);
    assert!(!version().is_empty());
}
