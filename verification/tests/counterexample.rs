use chronos_services::counterexample::{
    run_error_to_service_error, ChronosCounterexampleService, CounterexampleBundleSummary,
    CounterexampleListFilter, CounterexampleRunError, HypothesisKind, ShrinkConfig,
    DEFAULT_SHRINK_MAX_ROUNDS,
};
use chronos_services::error::ServiceError;

fn summary() -> CounterexampleBundleSummary {
    CounterexampleBundleSummary {
        bundle_id: "ce-00000000000000000000000000000001".to_string(),
        property_kind: HypothesisKind::Invariant,
        workspace_id: "ws-default".to_string(),
        created_at_ms: 1_700_000_000_000,
        rounds_used: 0,
        has_full_bundle: false,
    }
}

#[test]
fn ce_services_tests_counterexample_list_filter_default_has_zero_limit() {
    let f = CounterexampleListFilter::default();
    assert_eq!(f.workspace_id, None);
    assert_eq!(f.property_kind, None);
    assert_eq!(f.since_ms, None);
    assert_eq!(f.until_ms, None);
    assert_eq!(f.limit, 0);
}

#[test]
fn ce_services_tests_counterexample_input_default_max_rounds_is_64() {
    assert_eq!(DEFAULT_SHRINK_MAX_ROUNDS, 64);
}

#[test]
fn ce_services_tests_counterexample_bundle_summary_has_full_bundle_false_is_m8_01_state() {
    let summary = summary();
    assert!(!summary.has_full_bundle, "m8-01 must never report has_full_bundle=true");
    assert_eq!(summary.rounds_used, 0, "m8-01 cannot have run any shrink rounds yet");
}

#[test]
fn counterexample_counterexample_list_filter_default_has_zero_limit() {
    let f = CounterexampleListFilter::default();
    assert_eq!(f.workspace_id, None);
    assert_eq!(f.property_kind, None);
    assert_eq!(f.since_ms, None);
    assert_eq!(f.until_ms, None);
    assert_eq!(f.limit, 0);
}

#[test]
fn counterexample_counterexample_input_default_max_rounds_is_64() {
    assert_eq!(DEFAULT_SHRINK_MAX_ROUNDS, 64);
}

#[test]
fn counterexample_counterexample_bundle_summary_has_full_bundle_false_is_m8_01_state() {
    let summary = summary();
    assert!(!summary.has_full_bundle, "m8-01 must never report has_full_bundle=true");
    assert_eq!(summary.rounds_used, 0, "m8-01 cannot have run any shrink rounds yet");
}

#[test]
fn m8_02_shrink_config_default_matches_pinned_max_rounds() {
    let cfg = ShrinkConfig::default();
    assert_eq!(cfg.max_rounds, DEFAULT_SHRINK_MAX_ROUNDS);
    assert_eq!(cfg.seed, None);
}

#[test]
fn m8_02_run_error_maps_to_documented_service_error_variants() {
    let no_v: ServiceError = CounterexampleRunError::NoViolation { reason: "no violation".into() }.into();
    match no_v {
        ServiceError::Unsupported(_) => {}
        other => panic!("expected Unsupported, got {other:?}"),
    }

    let exh: ServiceError = CounterexampleRunError::RoundsExhausted { best_so_far: None }.into();
    match exh {
        ServiceError::Unsupported(_) => {}
        other => panic!("expected Unsupported, got {other:?}"),
    }

    let adp: ServiceError = CounterexampleRunError::AdapterFailed("compile fail".into()).into();
    match adp {
        ServiceError::EvalError(_) => {}
        other => panic!("expected EvalError, got {other:?}"),
    }
}

#[test]
fn run_error_messages_are_carried_over() {
    assert_eq!(
        run_error_to_service_error(CounterexampleRunError::NoViolation { reason: "held".into() }),
        ServiceError::Unsupported("held".into())
    );
    assert_eq!(
        run_error_to_service_error(CounterexampleRunError::AdapterFailed("boom".into())),
        ServiceError::EvalError("boom".into())
    );
}

#[test]
fn get_and_list_answer_with_stable_errors_until_storage_exists() {
    assert_eq!(
        ChronosCounterexampleService::get("ce-1"),
        Err(ServiceError::LoadFailed("counterexample_bundles table not yet provisioned (m8-03)".into()))
    );
    assert!(matches!(
        ChronosCounterexampleService::list(CounterexampleListFilter::default()),
        Err(ServiceError::Unsupported(_))
    ));
}
