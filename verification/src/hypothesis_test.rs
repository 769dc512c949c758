//! The `hypothesis_test` dispatcher: which evaluation a typed hypothesis
//! asks for, with its defaults applied, and the verdict for an invariant
//! over a property value that names no property.

use vstd::prelude::*;
use crate::counterexample::HypothesisKind;

verus! {

/// What an invariant observes.
#[derive(Debug, Clone, Copy, PartialEq, Eq, Structural)]
pub enum HypothesisScope {
    EventCount,
    PropertyValue,
    LatencyMs,
}

/// What an existence hypothesis looks for.
#[derive(Debug, PartialEq, Eq)]
pub enum ExistencePredicate {
    EventTypeEquals { event_type: String },
    ThreadEquals { thread_id: u64 },
    PropertyKeyEquals { target: String },
}

impl Clone for ExistencePredicate {
    fn clone(&self) -> (r: Self)
        ensures
            r == *self,
    {
        match self {
            ExistencePredicate::EventTypeEquals { event_type } => ExistencePredicate::EventTypeEquals {
                event_type: event_type.clone(),
            },
            ExistencePredicate::ThreadEquals { thread_id } => ExistencePredicate::ThreadEquals { thread_id: *thread_id },
            ExistencePredicate::PropertyKeyEquals { target } => ExistencePredicate::PropertyKeyEquals {
                target: target.clone(),
            },
        }
    }
}

/// The observation an invariant is evaluated over.
#[derive(Debug, Clone, PartialEq, Eq)]
pub enum ObservationSource {
    EventCount,
    PropertyValue { target: String },
    LatencyMs,
}

/// The shape of a hypothesis, without the comparison constant (a number
/// the evaluation takes as it is).
#[derive(Debug, Clone, PartialEq, Eq)]
pub struct HypothesisInput {
    pub session_id: String,
    pub kind: HypothesisKind,
    pub scope: Option<HypothesisScope>,
    pub property_target: Option<String>,
    pub predicate: Option<ExistencePredicate>,
    pub caller: Option<String>,
    pub callee: Option<String>,
    pub max_depth: Option<usize>,
}

/// The evaluation a hypothesis asks for.
#[derive(Debug, Clone, PartialEq, Eq)]
pub enum HypothesisPlan {
    /// Evaluate an invariant over this observation.
    Invariant { observation: ObservationSource },
    /// An invariant over a property value without a property: answered
    /// `Unsupported` with this reason and summary, nothing evaluated.
    MissingPropertyTarget { reason: String, summary: String },
    /// Look for an event matching the predicate.
    Existence { predicate: ExistencePredicate },
    /// Look for a call path from `caller` to `callee` within `max_depth`.
    CallPath { caller: String, callee: String, max_depth: usize },
}

/// Stateless holder of the `hypothesis_test` dispatcher.
pub struct ChronosHypothesisTestService;

/// Default depth of a call-path search.
pub const DEFAULT_CALL_PATH_DEPTH: usize = 10;

pub open spec fn missing_target_reason() -> Seq<char> {
    "scope=property_value requires property_target"@
}

pub open spec fn missing_target_summary() -> Seq<char> {
    "scope=property_value requires property_target to be set"@
}

/// Characters of an optional string, empty when absent.
pub open spec fn or_empty(s: Option<String>) -> Seq<char> {
    match s {
        Some(v) => v@,
        None => Seq::empty(),
    }
}

/// `p` is the plan for `input`: an invariant observes its scope (event
/// count by default), a property value needing a target; an existence
/// hypothesis looks for its predicate (function entries by default); a
/// call path runs between the given functions (empty names when absent)
/// within the given depth (10 by default).
pub open spec fn plan_for(input: HypothesisInput, p: HypothesisPlan) -> bool {
    match input.kind {
        HypothesisKind::Invariant => match input.scope {
            Some(HypothesisScope::PropertyValue) => match input.property_target {
                Some(t) => p matches HypothesisPlan::Invariant { observation: ObservationSource::PropertyValue { target } }
                    && target@ == t@,
                None => p matches HypothesisPlan::MissingPropertyTarget { reason, summary } && reason@
                    == missing_target_reason() && summary@ == missing_target_summary(),
            },
            Some(HypothesisScope::LatencyMs) => p == HypothesisPlan::Invariant { observation: ObservationSource::LatencyMs },
            _ => p == HypothesisPlan::Invariant { observation: ObservationSource::EventCount },
        },
        HypothesisKind::Existence => match input.predicate {
            Some(pr) => p == HypothesisPlan::Existence { predicate: pr },
            None => p matches HypothesisPlan::Existence { predicate: ExistencePredicate::EventTypeEquals { event_type } }
                && event_type@ == "function_entry"@,
        },
        HypothesisKind::CallPath => p matches HypothesisPlan::CallPath { caller, callee, max_depth } && caller@ == or_empty(
            input.caller,
        ) && callee@ == or_empty(input.callee) && max_depth == match input.max_depth {
            Some(d) => d,
            None => DEFAULT_CALL_PATH_DEPTH,
        },
    }
}

fn owned_or_empty(s: &Option<String>) -> (r: String)
    ensures
        r@ == or_empty(*s),
{
    match s {
        Some(v) => v.clone(),
        None => String::new(),
    }
}

impl ChronosHypothesisTestService {
    /// Plan the evaluation of a hypothesis: see `plan_for`.
    pub fn plan(input: &HypothesisInput) -> (p: HypothesisPlan)
        ensures
            plan_for(*input, p),
    {
        match input.kind {
            HypothesisKind::Invariant => match input.scope {
                Some(HypothesisScope::PropertyValue) => match &input.property_target {
                    Some(t) => HypothesisPlan::Invariant { observation: ObservationSource::PropertyValue { target: t.clone() } },
                    None => HypothesisPlan::MissingPropertyTarget {
                        reason: "scope=property_value requires property_target".to_owned(),
                        summary: "scope=property_value requires property_target to be set".to_owned(),
                    },
                },
                Some(HypothesisScope::LatencyMs) => HypothesisPlan::Invariant { observation: ObservationSource::LatencyMs },
                _ => HypothesisPlan::Invariant { observation: ObservationSource::EventCount },
            },
            HypothesisKind::Existence => match &input.predicate {
                Some(pr) => HypothesisPlan::Existence { predicate: pr.clone() },
                None => HypothesisPlan::Existence {
                    predicate: ExistencePredicate::EventTypeEquals { event_type: "function_entry".to_owned() },
                },
            },
            HypothesisKind::CallPath => HypothesisPlan::CallPath {
                caller: owned_or_empty(&input.caller),
                callee: owned_or_empty(&input.callee),
                max_depth: match input.max_depth {
                    Some(d) => d,
                    None => DEFAULT_CALL_PATH_DEPTH,
                },
            },
        }
    }
}

/// What a plan evaluates, for every hypothesis: an invariant observes
/// what its scope names (latency for a latency scope, the event count for
/// an event-count scope or none, the named property for a property scope,
/// which without a target is refused); an existence hypothesis and a call
/// path are planned as what they are, never as an invariant.
pub proof fn law_plan_follows_the_hypothesis(input: HypothesisInput, p: HypothesisPlan)
    requires
        plan_for(input, p),
    ensures
        (input.kind == HypothesisKind::Invariant && input.scope == Some(HypothesisScope::LatencyMs)) ==> (p
            == (HypothesisPlan::Invariant { observation: ObservationSource::LatencyMs })),
        (input.kind == HypothesisKind::Invariant && (input.scope == Some(HypothesisScope::EventCount)
            || input.scope is None)) ==> (p == (HypothesisPlan::Invariant { observation: ObservationSource::EventCount })),
        (input.kind == HypothesisKind::Invariant && input.scope == Some(HypothesisScope::PropertyValue)) ==> (
        (p matches HypothesisPlan::Invariant { observation: ObservationSource::PropertyValue { target } }
            && input.property_target matches Some(t) && target@ == t@) || ((p is MissingPropertyTarget)
            && (input.property_target is None))),
        (input.kind == HypothesisKind::Invariant) ==> ((p is Invariant) || (p is MissingPropertyTarget)),
        (input.kind == HypothesisKind::Existence) ==> (p is Existence),
        (input.kind == HypothesisKind::CallPath) ==> (p is CallPath),
        (input.kind == HypothesisKind::CallPath && input.max_depth is None) ==> (p matches HypothesisPlan::CallPath {
            max_depth,
            ..
        } && max_depth == 10),
        (input.kind == HypothesisKind::CallPath) ==> (input.max_depth matches Some(d) ==> (p matches HypothesisPlan::CallPath {
            max_depth,
            ..
        } && max_depth == d)),
        (input.kind == HypothesisKind::Existence) ==> (input.predicate matches Some(pr) ==> (p == (
        HypothesisPlan::Existence { predicate: pr }))),
{
}

} // verus!
