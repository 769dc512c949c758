use chronos_services::debug_trace_specialized::{DebugTraceSpecializedService, PerfEntry};
use chronos_services::diff::{classify_call_change, CallChange, ChronosDiffService};
use chronos_services::counterexample::HypothesisKind;
use chronos_services::error::ServiceError;
use chronos_services::hypothesis_test::{
    ChronosHypothesisTestService, ExistencePredicate, HypothesisInput, HypothesisPlan, HypothesisScope,
    ObservationSource,
};

fn summary(entries: &[(&str, u64)]) -> Vec<(String, u64)> {
    entries.iter().map(|(n, c)| (n.to_string(), *c)).collect()
}

#[test]
fn performance_regression_audit_classifies_regressions_and_improvements() {
    let baseline = summary(&[("hot", 10), ("cold", 10), ("same", 10), ("gone", 4)]);
    let target = summary(&[("hot", 30), ("cold", 2), ("same", 12), ("new", 9)]);
    let audit = ChronosDiffService::call_count_audit(&baseline, &target, None);
    assert_eq!(audit.functions_analyzed, 5);
    assert_eq!(audit.regressions.len(), 1);
    assert_eq!(audit.regressions[0].function, "hot");
    assert_eq!(audit.regressions[0].baseline_calls, 10);
    assert_eq!(audit.regressions[0].target_calls, 30);
    assert_eq!(audit.improvements.len(), 1);
    assert_eq!(audit.improvements[0].function, "cold");
    assert_eq!(audit.baseline_total, 34);
    assert_eq!(audit.target_total, 53);
}

#[test]
fn regressions_come_largest_increase_first() {
    let baseline = summary(&[("a", 10), ("b", 10), ("c", 10)]);
    let target = summary(&[("a", 16), ("b", 40), ("c", 25)]);
    let audit = ChronosDiffService::call_count_audit(&baseline, &target, None);
    let names: Vec<&str> = audit.regressions.iter().map(|e| e.function.as_str()).collect();
    assert_eq!(names, vec!["b", "c", "a"]);
    let baseline = summary(&[("a", 10), ("b", 10)]);
    let target = summary(&[("a", 4), ("b", 1)]);
    let audit = ChronosDiffService::call_count_audit(&baseline, &target, None);
    let names: Vec<&str> = audit.improvements.iter().map(|e| e.function.as_str()).collect();
    assert_eq!(names, vec!["b", "a"]);
}

#[test]
fn only_the_top_n_entries_are_audited_and_later_entries_win() {
    let baseline = summary(&[("a", 10), ("a", 2), ("b", 10)]);
    let target = summary(&[("a", 4), ("b", 100)]);
    let audit = ChronosDiffService::call_count_audit(&baseline, &target, Some(2));
    assert_eq!(audit.functions_analyzed, 2);
    assert_eq!(audit.baseline_total, 2, "the later entry for a wins; b is past the top 2 of the baseline");
    assert_eq!(audit.regressions.len(), 1);
    assert_eq!(audit.regressions[0].function, "a");
    assert!(audit.improvements.is_empty());
}

#[test]
fn the_fifty_percent_boundaries_are_exclusive() {
    assert_eq!(classify_call_change(2, 3), CallChange::Steady);
    assert_eq!(classify_call_change(2, 4), CallChange::Regression);
    assert_eq!(classify_call_change(2, 1), CallChange::Steady);
    assert_eq!(classify_call_change(3, 1), CallChange::Improvement);
    assert_eq!(classify_call_change(0, 9), CallChange::NotComparable);
    assert_eq!(classify_call_change(9, 0), CallChange::NotComparable);
}

fn hypothesis(kind: HypothesisKind) -> HypothesisInput {
    HypothesisInput {
        session_id: "s1".into(),
        kind,
        scope: None,
        property_target: None,
        predicate: None,
        caller: None,
        callee: None,
        max_depth: None,
    }
}

#[test]
fn invariant_property_value_without_target_is_unsupported() {
    let mut h = hypothesis(HypothesisKind::Invariant);
    h.scope = Some(HypothesisScope::PropertyValue);
    match ChronosHypothesisTestService::plan(&h) {
        HypothesisPlan::MissingPropertyTarget { reason, summary } => {
            assert_eq!(reason, "scope=property_value requires property_target");
            assert_eq!(summary, "scope=property_value requires property_target to be set");
        }
        other => panic!("expected MissingPropertyTarget, got {other:?}"),
    }
    h.property_target = Some("total".into());
    assert_eq!(
        ChronosHypothesisTestService::plan(&h),
        HypothesisPlan::Invariant { observation: ObservationSource::PropertyValue { target: "total".into() } }
    );
}

#[test]
fn hypothesis_defaults() {
    assert_eq!(
        ChronosHypothesisTestService::plan(&hypothesis(HypothesisKind::Invariant)),
        HypothesisPlan::Invariant { observation: ObservationSource::EventCount }
    );
    assert_eq!(
        ChronosHypothesisTestService::plan(&hypothesis(HypothesisKind::Existence)),
        HypothesisPlan::Existence { predicate: ExistencePredicate::EventTypeEquals { event_type: "function_entry".into() } }
    );
    let mut cp = hypothesis(HypothesisKind::CallPath);
    cp.caller = Some("main".into());
    assert_eq!(
        ChronosHypothesisTestService::plan(&cp),
        HypothesisPlan::CallPath { caller: "main".into(), callee: String::new(), max_depth: 10 }
    );
}

#[test]
fn service_error_messages_match_their_display_text() {
    assert_eq!(ServiceError::SessionNotFound("s9".into()).message(), "session 's9' not found");
    assert_eq!(ServiceError::LockPoisoned.message(), "lock poisoned");
    assert_eq!(
        ServiceError::MemoryNotFound { address: 0x1f, timestamp_ns: 42 }.message(),
        "no memory at address 0x1f before timestamp 42"
    );
    assert_eq!(ServiceError::EventNotFound { event_id: 7 }.message(), "event 7 not found");
    assert_eq!(ServiceError::InvalidTripwireIdFormat("x".into()).message(), "invalid tripwire ID format 'x'");
    assert_eq!(ServiceError::InvalidCursorPayload.message(), "invalid cursor payload");
    assert_eq!(ServiceError::BrowserProbeNotFound("b".into()).message(), "Browser probe session 'b' not found");
    assert_eq!(ServiceError::InvalidInput("bad".into()).message(), "invalid input: bad");
    assert_eq!(
        ServiceError::EvidenceReadStalled { session_id: "s".into(), position: 3 }.message(),
        "evidence read of session 's' stalled at seq 3"
    );
}

#[test]
fn race_summary_and_notes() {
    assert_eq!(
        DebugTraceSpecializedService::race_summary(0, 5),
        "No suspicious concurrent accesses found within the threshold"
    );
    assert_eq!(
        DebugTraceSpecializedService::race_summary(2, 5),
        "Found 2 suspicious concurrent accesses across 5 addresses"
    );
    assert_eq!(DebugTraceSpecializedService::keep_first(vec![1, 2, 3], 2), vec![1, 2]);
    assert_eq!(DebugTraceSpecializedService::keep_first(vec![1, 2, 3], 9), vec![1, 2, 3]);
    assert_eq!(DebugTraceSpecializedService::lineage_note(true, false), None);
    assert_eq!(
        DebugTraceSpecializedService::lineage_note(false, true).as_deref(),
        Some("No causality index or no writes to this address found")
    );
    assert_eq!(DebugTraceSpecializedService::crash_note(false).as_deref(), Some("No fatal signal found in the trace"));
}

#[test]
fn saliency_plan_takes_the_first_functions_and_the_full_total() {
    let perf = vec![
        PerfEntry { name: Some("hot".into()), total_cycles: 600, call_count: 3 },
        PerfEntry { name: None, total_cycles: 300, call_count: 1 },
        PerfEntry { name: Some("cold".into()), total_cycles: 100, call_count: 9 },
    ];
    let plan = DebugTraceSpecializedService::saliency_plan(Some(&perf), &vec![], 2);
    assert_eq!(plan.total, 1000);
    assert_eq!(plan.entries.len(), 2);
    assert_eq!(plan.entries[0].function, "hot");
    assert_eq!(plan.entries[1].function, "<unknown>");
    assert_eq!(plan.entries[1].total_cycles, Some(300));
    let top = vec![("a".to_string(), 5u64), ("b".to_string(), 15u64)];
    let by_calls = DebugTraceSpecializedService::saliency_plan(None, &top, 10);
    assert_eq!(by_calls.total, 20);
    assert_eq!(by_calls.entries.len(), 2);
    assert_eq!(by_calls.entries[1].part, 15);
    assert_eq!(by_calls.entries[1].total_cycles, None);
}
