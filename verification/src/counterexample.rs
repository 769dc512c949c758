//! Counterexample bundles: identities, summaries, the shrink budget, and
//! the `get` / `list` entry points, which answer with a stable error until
//! bundle storage is provisioned.

use vstd::prelude::*;
use crate::error::ServiceError;

verus! {

/// Default number of shrink rounds.
pub const DEFAULT_SHRINK_MAX_ROUNDS: u32 = 64;

/// Shape of the property a counterexample violates.
#[derive(Debug, Clone, Copy, PartialEq, Eq, Structural)]
pub enum HypothesisKind {
    Invariant,
    Existence,
    CallPath,
}

/// Immutable summary of one persisted (or would-be-persisted) bundle.
#[derive(Debug, Clone, PartialEq, Eq)]
pub struct CounterexampleBundleSummary {
    pub bundle_id: String,
    pub property_kind: HypothesisKind,
    pub workspace_id: String,
    pub created_at_ms: u64,
    pub rounds_used: u32,
    /// `true` iff the full bundle (events payload) is stored and retrievable.
    pub has_full_bundle: bool,
}

/// What the counterexample service answers with.
#[derive(Debug, Clone, PartialEq, Eq)]
pub enum CounterexampleOutput {
    Got { summary: CounterexampleBundleSummary },
    Listed { summaries: Vec<CounterexampleBundleSummary>, next_cursor: Option<String> },
}

/// Filter for listing bundle summaries.
#[derive(Debug, Clone, PartialEq, Eq)]
pub struct CounterexampleListFilter {
    pub workspace_id: Option<String>,
    pub property_kind: Option<HypothesisKind>,
    pub since_ms: Option<u64>,
    pub until_ms: Option<u64>,
    pub limit: u32,
}

impl Default for CounterexampleListFilter {
    /// No constraint on any field, and a zero limit.
    fn default() -> (f: Self)
        ensures
            f.workspace_id is None,
            f.property_kind is None,
            f.since_ms is None,
            f.until_ms is None,
            f.limit == 0,
    {
        CounterexampleListFilter { workspace_id: None, property_kind: None, since_ms: None, until_ms: None, limit: 0 }
    }
}

/// Budget of a shrink run.
#[derive(Debug, Clone, Copy, PartialEq, Eq, Structural)]
pub struct ShrinkConfig {
    pub max_rounds: u32,
    pub seed: Option<u64>,
}

impl Default for ShrinkConfig {
    /// The pinned default budget and no seed.
    fn default() -> (c: Self)
        ensures
            c.max_rounds == DEFAULT_SHRINK_MAX_ROUNDS,
            c.seed is None,
    {
        ShrinkConfig { max_rounds: DEFAULT_SHRINK_MAX_ROUNDS, seed: None }
    }
}

/// Why a shrink run produced no counterexample.
#[derive(Debug, Clone, PartialEq, Eq)]
pub enum CounterexampleRunError {
    /// The property held on every generated case.
    NoViolation { reason: String },
    /// The round budget ran out before a minimal case was reached.
    RoundsExhausted { best_so_far: Option<CounterexampleBundleSummary> },
    /// The property adapter could not be built or run.
    AdapterFailed(String),
}

pub open spec fn rounds_exhausted_text() -> Seq<char> {
    "shrink rounds exhausted before a minimal counterexample was found"@
}

/// `r` is what a failed run `e` means on the service surface: a run that
/// found nothing is `Unsupported` (carrying the run's reason, or the fixed
/// exhaustion text), an adapter failure is an `EvalError` with its message.
pub open spec fn run_error_maps_to(e: CounterexampleRunError, r: ServiceError) -> bool {
    match e {
        CounterexampleRunError::NoViolation { reason } => r matches ServiceError::Unsupported(m) && m@ == reason@,
        CounterexampleRunError::RoundsExhausted { .. } => r matches ServiceError::Unsupported(m) && m@
            == rounds_exhausted_text(),
        CounterexampleRunError::AdapterFailed(msg) => r matches ServiceError::EvalError(m) && m@ == msg@,
    }
}

/// Map a failed run onto the service error surface.
pub fn run_error_to_service_error(e: CounterexampleRunError) -> (r: ServiceError)
    ensures
        run_error_maps_to(e, r),
{
    match e {
        CounterexampleRunError::NoViolation { reason } => ServiceError::Unsupported(reason),
        CounterexampleRunError::RoundsExhausted { .. } => ServiceError::Unsupported(
            "shrink rounds exhausted before a minimal counterexample was found".to_owned(),
        ),
        CounterexampleRunError::AdapterFailed(msg) => ServiceError::EvalError(msg),
    }
}

impl From<CounterexampleRunError> for ServiceError {
    /// Same mapping as `run_error_to_service_error`.
    fn from(e: CounterexampleRunError) -> (r: ServiceError) {
        run_error_to_service_error(e)
    }
}

impl vstd::std_specs::convert::FromSpecImpl<CounterexampleRunError> for ServiceError {
    /// The message of the exhaustion case is a fresh `String`, known only
    /// by its characters, so the result is stated by `run_error_maps_to` on
    /// `run_error_to_service_error` and not promised as an equation here.
    open spec fn obeys_from_spec() -> bool {
        false
    }

    open spec fn from_spec(e: CounterexampleRunError) -> ServiceError {
        match e {
            CounterexampleRunError::NoViolation { reason } => ServiceError::Unsupported(reason),
            CounterexampleRunError::RoundsExhausted { .. } => ServiceError::Unsupported(
                choose|m: String| m@ == rounds_exhausted_text(),
            ),
            CounterexampleRunError::AdapterFailed(msg) => ServiceError::EvalError(msg),
        }
    }
}

/// Dispatcher for the counterexample surface.
pub struct ChronosCounterexampleService;

pub open spec fn get_stub_text() -> Seq<char> {
    "counterexample_bundles table not yet provisioned (m8-03)"@
}

pub open spec fn list_stub_text() -> Seq<char> {
    "counterexample list requires the redb counterexample_bundles table (m8-03)"@
}

impl ChronosCounterexampleService {
    /// Retrieve a bundle by id: bundle storage is not provisioned, so this
    /// always fails with `LoadFailed`.
    pub fn get(bundle_id: &str) -> (r: Result<CounterexampleOutput, ServiceError>)
        ensures
            r matches Err(ServiceError::LoadFailed(msg)) && msg@ == get_stub_text(),
    {
        Err(ServiceError::LoadFailed("counterexample_bundles table not yet provisioned (m8-03)".to_owned()))
    }

    /// List bundle summaries matching `filter`: bundle storage is not
    /// provisioned, so this always fails with `Unsupported`.
    pub fn list(filter: CounterexampleListFilter) -> (r: Result<CounterexampleOutput, ServiceError>)
        ensures
            r matches Err(ServiceError::Unsupported(msg)) && msg@ == list_stub_text(),
    {
        Err(
            ServiceError::Unsupported(
                "counterexample list requires the redb counterexample_bundles table (m8-03)".to_owned(),
            ),
        )
    }
}

} // verus!
