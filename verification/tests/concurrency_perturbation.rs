use chronos_services::concurrency_graph::{
    ConcurrencyPrimitive, ConcurrentPair, EdgeKind, HappensBeforeGraph, Provenance,
    TypedConcurrencyEvent,
};
use chronos_services::concurrency_perturbation::{
    expected_outcome_for, perturb, perturbation_outcome, verify_perturbation_contract, PerturbationKind, RaceClassification,
};

fn event_with_full_prov(id: u64, thread: u64, ts: u64) -> TypedConcurrencyEvent {
    TypedConcurrencyEvent::new(
        id,
        ConcurrencyPrimitive::Lock,
        Provenance {
            function: Some("worker".to_string()),
            file: Some("main.rs".to_string()),
            line: Some(10),
            thread_id: Some(thread),
            timestamp_ns: Some(ts),
        },
    )
}

fn build_graph_with_pair() -> (HappensBeforeGraph, ConcurrentPair) {
    let mut g = HappensBeforeGraph::new();
    g.add_event(event_with_full_prov(1, 1, 100));
    g.add_event(event_with_full_prov(2, 2, 200));
    (g, ConcurrentPair { earlier: 1, later: 2 })
}

#[test]
fn perturbation_labels_are_distinct() {
    let labels = [
        PerturbationKind::DropEvent,
        PerturbationKind::DropThreadId,
        PerturbationKind::DropTimestamp,
        PerturbationKind::DropFunction,
        PerturbationKind::DropFile,
        PerturbationKind::DropLine,
    ]
    .iter()
    .map(|k| k.label())
    .collect::<std::collections::BTreeSet<_>>();
    assert_eq!(labels.len(), 6);
}

#[test]
fn expected_outcomes_match_adr_contract() {
    assert_eq!(expected_outcome_for(PerturbationKind::DropEvent), RaceClassification::Unsupported);
    assert_eq!(expected_outcome_for(PerturbationKind::DropThreadId), RaceClassification::Suspicious);
    assert_eq!(expected_outcome_for(PerturbationKind::DropTimestamp), RaceClassification::Unsupported);
    assert_eq!(expected_outcome_for(PerturbationKind::DropFunction), RaceClassification::Unsupported);
    assert_eq!(expected_outcome_for(PerturbationKind::DropFile), RaceClassification::Confirmed);
    assert_eq!(expected_outcome_for(PerturbationKind::DropLine), RaceClassification::Confirmed);
}

#[test]
fn drop_event_removes_both_events_and_their_edges() {
    let (mut g, pair) = build_graph_with_pair();
    g.add_event(event_with_full_prov(3, 1, 300));
    g.add_edge(1, 3, EdgeKind::LockReleaseAcquire);
    perturb(&mut g, &pair, PerturbationKind::DropEvent);
    assert_eq!(g.event_count(), 1);
    assert_eq!(g.edge_count(), 0);
    assert!(g.get_event(1).is_none());
    assert!(g.get_event(3).is_some());
}

#[test]
fn drop_thread_id_clears_only_that_field_of_the_pair() {
    let (mut g, pair) = build_graph_with_pair();
    g.add_event(event_with_full_prov(3, 5, 300));
    perturb(&mut g, &pair, PerturbationKind::DropThreadId);
    assert_eq!(g.get_event(1).unwrap().provenance.thread_id, None);
    assert_eq!(g.get_event(2).unwrap().provenance.thread_id, None);
    assert_eq!(g.get_event(1).unwrap().provenance.timestamp_ns, Some(100));
    assert_eq!(g.get_event(3).unwrap().provenance.thread_id, Some(5));
}

#[test]
fn drop_file_and_line_clear_their_fields() {
    let (mut g, pair) = build_graph_with_pair();
    perturb(&mut g, &pair, PerturbationKind::DropFile);
    perturb(&mut g, &pair, PerturbationKind::DropLine);
    let e = g.get_event(2).unwrap();
    assert_eq!(e.provenance.file, None);
    assert_eq!(e.provenance.line, None);
    assert_eq!(e.provenance.function.as_deref(), Some("worker"));
}

#[test]
fn outcome_passes_only_on_the_expected_verdict() {
    let pair = ConcurrentPair { earlier: 1, later: 2 };
    let ok = perturbation_outcome(&pair, PerturbationKind::DropThreadId, RaceClassification::Suspicious);
    assert!(ok.passed);
    assert_eq!(ok.expected_classification, RaceClassification::Suspicious);
    let bad = perturbation_outcome(&pair, PerturbationKind::DropTimestamp, RaceClassification::Confirmed);
    assert!(!bad.passed);
    assert_eq!(bad.pair, pair);
}

#[test]
fn contract_run_reports_one_outcome_per_kind_in_order() {
    let pair = ConcurrentPair { earlier: 1, later: 2 };
    let perturbed = vec![
        RaceClassification::Unsupported,
        RaceClassification::Suspicious,
        RaceClassification::Unsupported,
        RaceClassification::Confirmed,
        RaceClassification::Confirmed,
        RaceClassification::Confirmed,
    ];
    let outcomes = verify_perturbation_contract(&pair, &perturbed);
    assert_eq!(outcomes.len(), 6);
    let kinds = [
        PerturbationKind::DropEvent,
        PerturbationKind::DropThreadId,
        PerturbationKind::DropTimestamp,
        PerturbationKind::DropFunction,
        PerturbationKind::DropFile,
        PerturbationKind::DropLine,
    ];
    for (o, k) in outcomes.iter().zip(kinds.iter()) {
        assert_eq!(o.perturbation, *k);
        assert_eq!(o.pair, pair);
    }
    let passed: Vec<bool> = outcomes.iter().map(|o| o.passed).collect();
    assert_eq!(passed, vec![true, true, true, false, true, true]);
    assert_eq!(outcomes[3].expected_classification, RaceClassification::Unsupported);
}
