use std::collections::BTreeSet;

use chronos_services::concurrency_graph::{
    ConcurrencyPrimitive, EdgeKind, HappensBeforeGraph, Provenance, TypedConcurrencyEvent,
};

fn empty_event(id: u64) -> TypedConcurrencyEvent {
    TypedConcurrencyEvent::new(id, ConcurrencyPrimitive::Unknown, Provenance::empty())
}

fn lock_event(id: u64) -> TypedConcurrencyEvent {
    TypedConcurrencyEvent::new(id, ConcurrencyPrimitive::Lock, Provenance::empty())
}

#[test]
fn empty_graph_has_no_events() {
    let g = HappensBeforeGraph::new();
    assert_eq!(g.event_count(), 0);
    assert_eq!(g.edge_count(), 0);
    assert!(g.concurrent_pairs().is_empty());
    assert!(g.cycles().is_empty());
}

#[test]
fn add_event_increments_count() {
    let mut g = HappensBeforeGraph::new();
    g.add_event(empty_event(1));
    g.add_event(empty_event(2));
    assert_eq!(g.event_count(), 2);
}

#[test]
fn add_edge_records_observed_relation() {
    let mut g = HappensBeforeGraph::new();
    g.add_event(lock_event(1));
    g.add_event(lock_event(2));
    g.add_edge(1, 2, EdgeKind::LockReleaseAcquire);
    assert_eq!(g.edge_count(), 1);
    assert!(g.happens_before(1, 2));
    assert!(!g.happens_before(2, 1));
}

#[test]
fn self_edge_is_rejected() {
    let mut g = HappensBeforeGraph::new();
    g.add_event(empty_event(1));
    g.add_edge(1, 1, EdgeKind::LockReleaseAcquire);
    assert_eq!(g.edge_count(), 0);
}

#[test]
fn unknown_edge_does_not_propagate() {
    let mut g = HappensBeforeGraph::new();
    g.add_event(empty_event(1));
    g.add_event(empty_event(2));
    g.add_edge(1, 2, EdgeKind::Unknown);
    assert_eq!(g.edge_count(), 1);
    assert!(!g.happens_before(1, 2));
}

#[test]
fn transitive_happens_before_via_chain() {
    let mut g = HappensBeforeGraph::new();
    g.add_event(lock_event(1));
    g.add_event(lock_event(2));
    g.add_event(lock_event(3));
    g.add_edge(1, 2, EdgeKind::LockReleaseAcquire);
    g.add_edge(2, 3, EdgeKind::LockReleaseAcquire);
    assert!(g.happens_before(1, 3));
}

#[test]
fn cycle_detected_as_mutual_happens_before() {
    let mut g = HappensBeforeGraph::new();
    g.add_event(empty_event(1));
    g.add_event(empty_event(2));
    g.add_edge(1, 2, EdgeKind::TaskSpawnJoin);
    g.add_edge(2, 1, EdgeKind::TaskSpawnJoin);
    let cycles = g.cycles();
    assert_eq!(cycles.len(), 1);
    assert_eq!(cycles[0].earlier, 1);
    assert_eq!(cycles[0].later, 2);
}

#[test]
fn concurrent_pairs_excludes_ordered_pairs() {
    let mut g = HappensBeforeGraph::new();
    g.add_event(lock_event(1));
    g.add_event(lock_event(2));
    g.add_event(lock_event(3));
    g.add_edge(1, 2, EdgeKind::LockReleaseAcquire);
    let pairs = g.concurrent_pairs();
    assert_eq!(pairs.len(), 2);
    let pair_set: BTreeSet<(u64, u64)> = pairs.iter().map(|p| (p.earlier, p.later)).collect();
    assert!(pair_set.contains(&(1, 3)));
    assert!(pair_set.contains(&(2, 3)));
    assert!(!pair_set.contains(&(1, 2)));
}

#[test]
fn concurrent_pairs_excludes_self() {
    let mut g = HappensBeforeGraph::new();
    g.add_event(empty_event(42));
    assert!(g.concurrent_pairs().is_empty());
}

#[test]
fn edge_kind_labels_are_distinct() {
    let labels = [
        EdgeKind::LockReleaseAcquire,
        EdgeKind::AtomicStoreLoad,
        EdgeKind::TaskSpawnJoin,
        EdgeKind::GoroutineForkJoin,
        EdgeKind::MessageSendReceive,
        EdgeKind::Unknown,
    ]
    .iter()
    .map(|k| k.label())
    .collect::<BTreeSet<_>>();
    assert_eq!(labels.len(), 6, "labels must be distinct");
}

#[test]
fn is_observed_excludes_only_unknown() {
    assert!(EdgeKind::LockReleaseAcquire.is_observed());
    assert!(EdgeKind::AtomicStoreLoad.is_observed());
    assert!(EdgeKind::TaskSpawnJoin.is_observed());
    assert!(EdgeKind::GoroutineForkJoin.is_observed());
    assert!(EdgeKind::MessageSendReceive.is_observed());
    assert!(!EdgeKind::Unknown.is_observed());
}

#[test]
fn events_sorted_returns_in_id_order() {
    let mut g = HappensBeforeGraph::new();
    g.add_event(empty_event(3));
    g.add_event(empty_event(1));
    g.add_event(empty_event(2));
    let sorted: Vec<u64> = g.events_sorted().iter().map(|e| e.event_id).collect();
    assert_eq!(sorted, vec![1, 2, 3]);
}

#[test]
fn add_edge_creates_missing_endpoints_as_unknown_events() {
    let mut g = HappensBeforeGraph::new();
    g.add_edge(7, 9, EdgeKind::AtomicStoreLoad);
    assert_eq!(g.event_count(), 2);
    assert_eq!(g.get_event(7).unwrap().primitive, ConcurrencyPrimitive::Unknown);
    assert!(g.get_event(8).is_none());
}

#[test]
fn re_adding_an_edge_replaces_its_kind() {
    let mut g = HappensBeforeGraph::new();
    g.add_edge(1, 2, EdgeKind::Unknown);
    assert!(!g.happens_before(1, 2));
    g.add_edge(1, 2, EdgeKind::MessageSendReceive);
    assert_eq!(g.edge_count(), 1);
    assert!(g.happens_before(1, 2));
}

#[test]
fn a_pair_is_either_concurrent_ordered_or_cyclic() {
    let mut g = HappensBeforeGraph::new();
    g.add_edge(1, 2, EdgeKind::LockReleaseAcquire);
    g.add_edge(2, 3, EdgeKind::LockReleaseAcquire);
    g.add_edge(3, 2, EdgeKind::LockReleaseAcquire);
    g.add_event(empty_event(4));
    let conc: Vec<(u64, u64)> = g.concurrent_pairs().iter().map(|p| (p.earlier, p.later)).collect();
    let cyc: Vec<(u64, u64)> = g.cycles().iter().map(|p| (p.earlier, p.later)).collect();
    assert_eq!(conc, vec![(1, 4), (2, 4), (3, 4)]);
    assert_eq!(cyc, vec![(2, 3)]);
    assert!(g.happens_before(1, 3));
}

#[test]
fn a_fresh_graph_has_no_pairs_and_a_new_endpoint_is_an_unknown_event() {
    let mut g = HappensBeforeGraph::new();
    assert!(g.cycles().is_empty());
    assert!(g.concurrent_pairs().is_empty());
    g.add_edge(3, 4, EdgeKind::TaskSpawnJoin);
    let e = g.get_event(4).unwrap();
    assert_eq!(e.primitive, ConcurrencyPrimitive::Unknown);
    assert_eq!(e.provenance, Provenance::empty());
    assert_eq!(g.event_count(), 2);
}
