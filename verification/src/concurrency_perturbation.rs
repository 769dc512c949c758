//! Loss injection over the happens-before graph: each perturbation removes
//! one piece of evidence for a pair of events, and the fail-closed
//! contract says which race verdict must follow.

use vstd::prelude::*;
use crate::concurrency_graph::{ConcurrentPair, HappensBeforeGraph, TypedConcurrencyEvent, event_without};

verus! {

/// One piece of evidence to remove.
#[derive(Debug, Clone, Copy, PartialEq, Eq, Hash, Structural)]
pub enum PerturbationKind {
    /// Drop both events of the pair.
    DropEvent,
    /// Drop `thread_id` from both events' provenance.
    DropThreadId,
    /// Drop `timestamp_ns` from both events' provenance.
    DropTimestamp,
    /// Drop `function` from both events' provenance.
    DropFunction,
    /// Drop `file` from both events' provenance.
    DropFile,
    /// Drop `line` from both events' provenance.
    DropLine,
}

pub open spec fn perturbation_label_spec(k: PerturbationKind) -> Seq<char> {
    match k {
        PerturbationKind::DropEvent => "drop_event"@,
        PerturbationKind::DropThreadId => "drop_thread_id"@,
        PerturbationKind::DropTimestamp => "drop_timestamp"@,
        PerturbationKind::DropFunction => "drop_function"@,
        PerturbationKind::DropFile => "drop_file"@,
        PerturbationKind::DropLine => "drop_line"@,
    }
}

impl PerturbationKind {
    pub fn label(&self) -> (r: &'static str)
        ensures
            r@ == perturbation_label_spec(*self),
    {
        match self {
            PerturbationKind::DropEvent => "drop_event",
            PerturbationKind::DropThreadId => "drop_thread_id",
            PerturbationKind::DropTimestamp => "drop_timestamp",
            PerturbationKind::DropFunction => "drop_function",
            PerturbationKind::DropFile => "drop_file",
            PerturbationKind::DropLine => "drop_line",
        }
    }
}

/// Verdict of the race classifier for a pair of events.
#[derive(Debug, Clone, Copy, PartialEq, Eq, Hash, Structural)]
pub enum RaceClassification {
    /// The pair is ordered: no race.
    NotARace,
    /// Contention without enough evidence to confirm a cross-thread race.
    Suspicious,
    /// Cross-thread contention with sufficient evidence.
    Confirmed,
    /// Evidence is missing; no verdict can be given.
    Unsupported,
}

/// Outcome of classifying a pair after one perturbation.
#[derive(Debug, Clone, PartialEq, Eq)]
pub struct PerturbationOutcome {
    pub pair: ConcurrentPair,
    pub perturbation: PerturbationKind,
    pub perturbed_classification: RaceClassification,
    /// What the fail-closed contract expects.
    pub expected_classification: RaceClassification,
    /// `perturbed_classification == expected_classification`.
    pub passed: bool,
}

pub open spec fn expected_outcome_spec(kind: PerturbationKind) -> RaceClassification {
    match kind {
        PerturbationKind::DropEvent => RaceClassification::Unsupported,
        PerturbationKind::DropThreadId => RaceClassification::Suspicious,
        PerturbationKind::DropTimestamp => RaceClassification::Unsupported,
        PerturbationKind::DropFunction => RaceClassification::Unsupported,
        PerturbationKind::DropFile => RaceClassification::Confirmed,
        PerturbationKind::DropLine => RaceClassification::Confirmed,
    }
}

/// Expected verdict after a perturbation of a pair whose baseline is
/// `Confirmed`: missing events, timestamps or functions make the pair
/// `Unsupported`; a missing thread id leaves it `Suspicious`; file and
/// line are not part of the minimum evidence and change nothing.
pub fn expected_outcome_for(kind: PerturbationKind) -> (r: RaceClassification)
    ensures
        r == expected_outcome_spec(kind),
{
    match kind {
        PerturbationKind::DropEvent => RaceClassification::Unsupported,
        PerturbationKind::DropThreadId => RaceClassification::Suspicious,
        PerturbationKind::DropTimestamp => RaceClassification::Unsupported,
        PerturbationKind::DropFunction => RaceClassification::Unsupported,
        PerturbationKind::DropFile => RaceClassification::Confirmed,
        PerturbationKind::DropLine => RaceClassification::Confirmed,
    }
}

/// The perturbation kinds, in declaration order.
pub open spec fn all_kinds_spec() -> Seq<PerturbationKind> {
    seq![
        PerturbationKind::DropEvent,
        PerturbationKind::DropThreadId,
        PerturbationKind::DropTimestamp,
        PerturbationKind::DropFunction,
        PerturbationKind::DropFile,
        PerturbationKind::DropLine,
    ]
}

/// Apply one perturbation to the pair's two events, in place.
/// `DropEvent` removes both events and every edge touching them; every
/// other kind clears one provenance field of both events and leaves the
/// rest of the graph as it was.
pub fn perturb(graph: &mut HappensBeforeGraph, pair: &ConcurrentPair, kind: PerturbationKind)
    ensures
        kind == PerturbationKind::DropEvent ==> {
            &&& forall|e: TypedConcurrencyEvent| #[trigger] final(graph).spec_events().contains(e) <==> (old(graph).spec_events().contains(e) && e.event_id != pair.earlier && e.event_id != pair.later)
            &&& forall|x: u64| #[trigger] final(graph).spec_ids().contains(x) <==> (old(graph).spec_ids().contains(x)
                && x != pair.earlier && x != pair.later)
            &&& forall|e: (u64, u64, crate::concurrency_graph::EdgeKind)| #[trigger] final(graph).spec_edges().contains(e) <==> (old(graph).spec_edges().contains(e) && e.0 != pair.earlier && e.1
                != pair.earlier && e.0 != pair.later && e.1 != pair.later)
        },
        kind != PerturbationKind::DropEvent ==> {
            &&& final(graph).spec_events() == old(graph).spec_events().map_values(
                |e: TypedConcurrencyEvent| event_without(event_without(e, pair.earlier, kind), pair.later, kind),
            )
            &&& final(graph).spec_edges() == old(graph).spec_edges()
        },
{
    if kind == PerturbationKind::DropEvent {
        graph.remove_event(pair.earlier);
        graph.remove_event(pair.later);
    } else {
        let ghost g0 = graph.spec_events();
        graph.drop_provenance_field(pair.earlier, kind);
        graph.drop_provenance_field(pair.later, kind);
        proof {
            assert(graph.spec_events() =~= g0.map_values(
                |e: TypedConcurrencyEvent| event_without(event_without(e, pair.earlier, kind), pair.later, kind),
            ));
        }
    }
}

/// The outcome record for a pair classified `perturbed` after `kind`.
pub fn perturbation_outcome(pair: &ConcurrentPair, kind: PerturbationKind, perturbed: RaceClassification) -> (r:
    PerturbationOutcome)
    ensures
        r.pair == *pair,
        r.perturbation == kind,
        r.perturbed_classification == perturbed,
        r.expected_classification == expected_outcome_spec(kind),
        r.passed == (perturbed == expected_outcome_spec(kind)),
{
    let expected = expected_outcome_for(kind);
    PerturbationOutcome {
        pair: ConcurrentPair { earlier: pair.earlier, later: pair.later },
        perturbation: kind,
        perturbed_classification: perturbed,
        expected_classification: expected,
        passed: perturbed == expected,
    }
}

/// One outcome per perturbation kind, in declaration order: the `i`-th
/// record pairs the `i`-th kind with `perturbed[i]`, the verdict the race
/// classifier gave for the pair on a copy of the graph that only that
/// perturbation touched.
pub fn verify_perturbation_contract(pair: &ConcurrentPair, perturbed: &Vec<RaceClassification>) -> (r: Vec<
    PerturbationOutcome,
>)
    requires
        perturbed.len() == all_kinds_spec().len(),
    ensures
        r.len() == all_kinds_spec().len(),
        forall|i: int|
            0 <= i < r.len() ==> {
                &&& (#[trigger] r[i]).pair == *pair
                &&& r[i].perturbation == all_kinds_spec()[i]
                &&& r[i].perturbed_classification == perturbed[i]
                &&& r[i].expected_classification == expected_outcome_spec(all_kinds_spec()[i])
                &&& r[i].passed == (perturbed[i] == expected_outcome_spec(all_kinds_spec()[i]))
            },
{
    let kinds: Vec<PerturbationKind> = vec![
        PerturbationKind::DropEvent,
        PerturbationKind::DropThreadId,
        PerturbationKind::DropTimestamp,
        PerturbationKind::DropFunction,
        PerturbationKind::DropFile,
        PerturbationKind::DropLine,
    ];
    assert(kinds@ =~= all_kinds_spec());
    let mut results: Vec<PerturbationOutcome> = Vec::new();
    let mut i: usize = 0;
    while i < kinds.len()
        invariant
            kinds@ == all_kinds_spec(),
            perturbed.len() == kinds.len(),
            i <= kinds.len(),
            results.len() == i,
            forall|j: int|
                0 <= j < i ==> {
                    &&& (#[trigger] results[j]).pair == *pair
                    &&& results[j].perturbation == kinds@[j]
                    &&& results[j].perturbed_classification == perturbed[j]
                    &&& results[j].expected_classification == expected_outcome_spec(kinds@[j])
                    &&& results[j].passed == (perturbed[j] == expected_outcome_spec(kinds@[j]))
                },
        decreases kinds.len() - i,
    {
        let outcome = perturbation_outcome(pair, kinds[i], perturbed[i]);
        results.push(outcome);
        i = i + 1;
    }
    results
}

} // verus!
