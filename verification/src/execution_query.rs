//! The `execution_query` dispatcher: which analysis a request asks for,
//! with which argument, defaults applied and required fields checked.

use vstd::prelude::*;
use crate::error::ServiceError;

verus! {

/// Analysis a request asks for.
#[derive(Debug, Clone, Copy, PartialEq, Eq, Structural)]
pub enum ExecutionQueryKind {
    CallStack,
    ExecutionSummary,
    CallGraph,
    RaceDetect,
    Hotspot,
    Saliency,
}

/// Input of an `execution_query` request.
#[derive(Debug, Clone, PartialEq, Eq)]
pub struct ExecutionQueryInput {
    pub session_id: String,
    pub kind: ExecutionQueryKind,
    pub event_id: Option<u64>,
    pub max_depth: Option<usize>,
    pub threshold_ns: Option<u64>,
    pub top_n: Option<usize>,
    pub saliency_limit: Option<usize>,
}

/// The analysis to run, with its argument.
#[derive(Debug, Clone, Copy, PartialEq, Eq, Structural)]
pub enum ExecutionQueryPlan {
    CallStack { event_id: u64 },
    ExecutionSummary,
    CallGraph { max_depth: usize },
    RaceDetect { threshold_ns: u64 },
    Hotspot { top_n: usize },
    Saliency { limit: usize },
}

/// Stateless holder of the `execution_query` dispatcher.
pub struct ChronosExecutionQueryService;

/// Default call-graph depth.
pub const DEFAULT_MAX_DEPTH: usize = 10;

/// Default race window, in nanoseconds.
pub const DEFAULT_THRESHOLD_NS: u64 = 100;

/// Default number of hotspots.
pub const DEFAULT_TOP_N: usize = 10;

/// Default number of saliency scores.
pub const DEFAULT_SALIENCY_LIMIT: usize = 20;

pub open spec fn or_default<T>(o: Option<T>, d: T) -> T {
    match o {
        Some(v) => v,
        None => d,
    }
}

impl ChronosExecutionQueryService {
    /// Plan a request: a call stack needs an event id; every other kind
    /// takes its argument or the default.
    pub fn plan(input: &ExecutionQueryInput) -> (r: Result<ExecutionQueryPlan, ServiceError>)
        ensures
            match input.kind {
                ExecutionQueryKind::CallStack => match input.event_id {
                    Some(id) => r == Ok::<ExecutionQueryPlan, ServiceError>(ExecutionQueryPlan::CallStack { event_id: id }),
                    None => r matches Err(ServiceError::InvalidInput(m)) && m@ == "event_id required for kind=call_stack"@,
                },
                ExecutionQueryKind::ExecutionSummary => r == Ok::<ExecutionQueryPlan, ServiceError>(
                    ExecutionQueryPlan::ExecutionSummary,
                ),
                ExecutionQueryKind::CallGraph => r == Ok::<ExecutionQueryPlan, ServiceError>(
                    ExecutionQueryPlan::CallGraph { max_depth: or_default(input.max_depth, DEFAULT_MAX_DEPTH) },
                ),
                ExecutionQueryKind::RaceDetect => r == Ok::<ExecutionQueryPlan, ServiceError>(
                    ExecutionQueryPlan::RaceDetect { threshold_ns: or_default(input.threshold_ns, DEFAULT_THRESHOLD_NS) },
                ),
                ExecutionQueryKind::Hotspot => r == Ok::<ExecutionQueryPlan, ServiceError>(
                    ExecutionQueryPlan::Hotspot { top_n: or_default(input.top_n, DEFAULT_TOP_N) },
                ),
                ExecutionQueryKind::Saliency => r == Ok::<ExecutionQueryPlan, ServiceError>(
                    ExecutionQueryPlan::Saliency { limit: or_default(input.saliency_limit, DEFAULT_SALIENCY_LIMIT) },
                ),
            },
    {
        match input.kind {
            ExecutionQueryKind::CallStack => match input.event_id {
                Some(id) => Ok(ExecutionQueryPlan::CallStack { event_id: id }),
                None => Err(ServiceError::InvalidInput("event_id required for kind=call_stack".to_owned())),
            },
            ExecutionQueryKind::ExecutionSummary => Ok(ExecutionQueryPlan::ExecutionSummary),
            ExecutionQueryKind::CallGraph => Ok(
                ExecutionQueryPlan::CallGraph {
                    max_depth: match input.max_depth {
                        Some(d) => d,
                        None => DEFAULT_MAX_DEPTH,
                    },
                },
            ),
            ExecutionQueryKind::RaceDetect => Ok(
                ExecutionQueryPlan::RaceDetect {
                    threshold_ns: match input.threshold_ns {
                        Some(t) => t,
                        None => DEFAULT_THRESHOLD_NS,
                    },
                },
            ),
            ExecutionQueryKind::Hotspot => Ok(
                ExecutionQueryPlan::Hotspot {
                    top_n: match input.top_n {
                        Some(n) => n,
                        None => DEFAULT_TOP_N,
                    },
                },
            ),
            ExecutionQueryKind::Saliency => Ok(
                ExecutionQueryPlan::Saliency {
                    limit: match input.saliency_limit {
                        Some(l) => l,
                        None => DEFAULT_SALIENCY_LIMIT,
                    },
                },
            ),
        }
    }
}

} // verus!
