//! Service-level errors shared by every service operation.

use vstd::prelude::*;
use crate::text::{dec, dec_string, hex, hex_string, push_str};

verus! {

/// Errors a service operation can report.
#[derive(Debug, Clone, PartialEq, Eq)]
pub enum ServiceError {
    /// The requested session does not exist.
    SessionNotFound(String),
    /// A shared lock was poisoned by a panicking thread.
    LockPoisoned,
    /// No memory write was found at the address before the timestamp.
    MemoryNotFound { address: u64, timestamp_ns: u64 },
    /// The requested trace event does not exist.
    EventNotFound { event_id: u64 },
    /// No register state is available at the event.
    NoRegisterState { event_id: u64 },
    /// Expression evaluation failed.
    EvalError(String),
    /// The session is not held in memory.
    SessionNotInMemory(String),
    /// The session has no events to save.
    EmptySession(String),
    /// Saving a session failed.
    SaveFailed(String),
    /// Loading a session (or a persisted bundle) failed.
    LoadFailed(String),
    /// Writing a session export failed.
    ExportFailed(String),
    /// An export was asked for with an unrecognised or reserved parameter.
    InvalidExportParameter(String),
    /// Listing sessions failed.
    ListFailed(String),
    /// Deleting a session failed.
    DeleteFailed(String),
    /// The event type could not be parsed into a known tripwire condition.
    InvalidCondition(String),
    /// A tripwire id did not have the `tripwire-<number>` form.
    InvalidTripwireIdFormat(String),
    /// The named tripwire does not exist.
    TripwireNotFound(String),
    /// A trace query could not be executed.
    QueryExecutionError(String),
    /// The program path given to a probe is not usable.
    InvalidProgramPath(String),
    /// The live probe session is not registered.
    ProbeNotFound(String),
    /// Starting a probe failed.
    ProbeStartFailed(String),
    /// Stopping a probe failed.
    ProbeStopError(String),
    /// A cursor payload could not be decoded.
    InvalidCursorPayload,
    /// The cursor points before the oldest position the log still retains.
    CursorStale { requested_next_seq: u64, retained_from_seq: u64 },
    /// Draining a backend failed.
    DrainFailed(String),
    /// The probe is registered but has not emitted anything yet.
    ProbeStarting,
    /// eBPF is not supported on this host.
    EbpfUnsupported(String),
    /// eBPF uprobe injection failed.
    InjectionFailed(String),
    /// Chrome or Chromium is not available.
    ChromeUnavailable,
    /// The browser probe session is not registered.
    BrowserProbeNotFound(String),
    /// Starting a browser probe failed.
    BrowserProbeStartFailed(String),
    /// Draining browser events failed.
    BrowserProbeDrainFailed(String),
    /// A required parameter was missing or invalid.
    InvalidInput(String),
    /// The operation is not supported on the recorded evidence.
    Unsupported(String),
    /// No execution log backs the request.
    NoExecutionLog(String),
    /// The session's execution log is not available.
    ExecutionLogUnavailable { session_id: String, reason: String },
    /// A log record could not be decoded; the read fails closed.
    EvidenceDecodeFailed { session_id: String, seq: u64, payload_tag: String },
    /// The backend claimed more data but made no progress.
    EvidenceReadStalled { session_id: String, position: u64 },
    /// The answer may lie in history the log has already retired.
    EvidenceUnavailableDueToRetention { retained_from: u64 },
    /// No capture session is active.
    NoActiveSession,
}

/// The text of `prefix` and `body` in turn.
fn join(prefix: &str, body: &str) -> (r: String)
    ensures
        r@ == prefix@ + body@,
{
    let mut r = prefix.to_owned();
    push_str(&mut r, body);
    r
}

/// The text of `prefix`, `body` and `suffix` in turn.
fn wrap(prefix: &str, body: &str, suffix: &str) -> (r: String)
    ensures
        r@ == prefix@ + body@ + suffix@,
{
    let mut r = prefix.to_owned();
    push_str(&mut r, body);
    push_str(&mut r, suffix);
    r
}

/// The human-readable text of an error.
pub open spec fn service_error_text(e: ServiceError) -> Seq<char> {
    match e {
        ServiceError::SessionNotFound(x) => "session '"@ + x@ + "' not found"@,
        ServiceError::LockPoisoned => "lock poisoned"@,
        ServiceError::MemoryNotFound { address, timestamp_ns } => "no memory at address 0x"@ + hex(address as nat) + " before timestamp "@ + dec(timestamp_ns as nat),
        ServiceError::EventNotFound { event_id } => "event "@ + dec(event_id as nat) + " not found"@,
        ServiceError::NoRegisterState { event_id } => "no register state at event "@ + dec(event_id as nat),
        ServiceError::EvalError(x) => "evaluation error: "@ + x@,
        ServiceError::SessionNotInMemory(x) => "session '"@ + x@ + "' not found in memory"@,
        ServiceError::EmptySession(x) => "session '"@ + x@ + "' has no events to save"@,
        ServiceError::SaveFailed(x) => "save failed: "@ + x@,
        ServiceError::LoadFailed(x) => "load failed: "@ + x@,
        ServiceError::ExportFailed(x) => "export failed: "@ + x@,
        ServiceError::InvalidExportParameter(x) => "invalid export parameter: "@ + x@,
        ServiceError::ListFailed(x) => "list failed: "@ + x@,
        ServiceError::DeleteFailed(x) => "delete failed: "@ + x@,
        ServiceError::InvalidCondition(x) => "unknown event_type '"@ + x@ + "'"@,
        ServiceError::InvalidTripwireIdFormat(x) => "invalid tripwire ID format '"@ + x@ + "'"@,
        ServiceError::TripwireNotFound(x) => "tripwire '"@ + x@ + "' not found"@,
        ServiceError::QueryExecutionError(x) => "query execution error: "@ + x@,
        ServiceError::InvalidProgramPath(x) => "invalid program path: "@ + x@,
        ServiceError::ProbeNotFound(x) => "probe not found: "@ + x@,
        ServiceError::ProbeStartFailed(x) => "probe start failed: "@ + x@,
        ServiceError::ProbeStopError(x) => "probe stop error: "@ + x@,
        ServiceError::InvalidCursorPayload => "invalid cursor payload"@,
        ServiceError::CursorStale { requested_next_seq, retained_from_seq } => "cursor stale: next_seq "@ + dec(requested_next_seq as nat) + " is below the retained boundary "@ + dec(retained_from_seq as nat),
        ServiceError::DrainFailed(x) => "drain failed: "@ + x@,
        ServiceError::ProbeStarting => "probe still starting up"@,
        ServiceError::EbpfUnsupported(x) => "eBPF unsupported: "@ + x@,
        ServiceError::InjectionFailed(x) => "injection failed: "@ + x@,
        ServiceError::ChromeUnavailable => "Chrome is not available. Please ensure Chrome or Chromium is installed and accessible."@,
        ServiceError::BrowserProbeNotFound(x) => "Browser probe session '"@ + x@ + "' not found"@,
        ServiceError::BrowserProbeStartFailed(x) => "Failed to start browser probe: "@ + x@,
        ServiceError::BrowserProbeDrainFailed(x) => "Failed to drain browser events: "@ + x@,
        ServiceError::InvalidInput(x) => "invalid input: "@ + x@,
        ServiceError::Unsupported(x) => "unsupported: "@ + x@,
        ServiceError::NoExecutionLog(x) => "no execution log: "@ + x@,
        ServiceError::ExecutionLogUnavailable { session_id, reason } => "execution log of session '"@ + session_id@ + "' is unavailable: "@ + reason@,
        ServiceError::EvidenceDecodeFailed { session_id, seq, payload_tag } => "evidence at seq "@ + dec(seq as nat) + " of session '"@ + session_id@ + "' could not be decoded (payload "@ + payload_tag@ + ")"@,
        ServiceError::EvidenceReadStalled { session_id, position } => "evidence read of session '"@ + session_id@ + "' stalled at seq "@ + dec(position as nat),
        ServiceError::EvidenceUnavailableDueToRetention { retained_from } => "evidence may lie in retired history before seq "@ + dec(retained_from as nat),
        ServiceError::NoActiveSession => "no active session"@,
    }
}

impl ServiceError {
    /// The human-readable text of the error, as it is displayed.
    pub fn message(&self) -> (s: String)
        ensures
            s@ == service_error_text(*self),
    {
        match self {
            ServiceError::SessionNotFound(x) => wrap("session '", x.as_str(), "' not found"),
            ServiceError::LockPoisoned => "lock poisoned".to_owned(),
            ServiceError::MemoryNotFound { address, timestamp_ns } => {
                let mut m = "no memory at address 0x".to_owned();
                let a = hex_string(*address);
                push_str(&mut m, a.as_str());
                push_str(&mut m, " before timestamp ");
                let t = dec_string(*timestamp_ns);
                push_str(&mut m, t.as_str());
                m
            },
            ServiceError::EventNotFound { event_id } => wrap("event ", dec_string(*event_id).as_str(), " not found"),
            ServiceError::NoRegisterState { event_id } => join("no register state at event ", dec_string(*event_id).as_str()),
            ServiceError::EvalError(x) => join("evaluation error: ", x.as_str()),
            ServiceError::SessionNotInMemory(x) => wrap("session '", x.as_str(), "' not found in memory"),
            ServiceError::EmptySession(x) => wrap("session '", x.as_str(), "' has no events to save"),
            ServiceError::SaveFailed(x) => join("save failed: ", x.as_str()),
            ServiceError::LoadFailed(x) => join("load failed: ", x.as_str()),
            ServiceError::ExportFailed(x) => join("export failed: ", x.as_str()),
            ServiceError::InvalidExportParameter(x) => join("invalid export parameter: ", x.as_str()),
            ServiceError::ListFailed(x) => join("list failed: ", x.as_str()),
            ServiceError::DeleteFailed(x) => join("delete failed: ", x.as_str()),
            ServiceError::InvalidCondition(x) => wrap("unknown event_type '", x.as_str(), "'"),
            ServiceError::InvalidTripwireIdFormat(x) => wrap("invalid tripwire ID format '", x.as_str(), "'"),
            ServiceError::TripwireNotFound(x) => wrap("tripwire '", x.as_str(), "' not found"),
            ServiceError::QueryExecutionError(x) => join("query execution error: ", x.as_str()),
            ServiceError::InvalidProgramPath(x) => join("invalid program path: ", x.as_str()),
            ServiceError::ProbeNotFound(x) => join("probe not found: ", x.as_str()),
            ServiceError::ProbeStartFailed(x) => join("probe start failed: ", x.as_str()),
            ServiceError::ProbeStopError(x) => join("probe stop error: ", x.as_str()),
            ServiceError::InvalidCursorPayload => "invalid cursor payload".to_owned(),
            ServiceError::CursorStale { requested_next_seq, retained_from_seq } => {
                let mut m = "cursor stale: next_seq ".to_owned();
                let a = dec_string(*requested_next_seq);
                push_str(&mut m, a.as_str());
                push_str(&mut m, " is below the retained boundary ");
                let b = dec_string(*retained_from_seq);
                push_str(&mut m, b.as_str());
                m
            },
            ServiceError::DrainFailed(x) => join("drain failed: ", x.as_str()),
            ServiceError::ProbeStarting => "probe still starting up".to_owned(),
            ServiceError::EbpfUnsupported(x) => join("eBPF unsupported: ", x.as_str()),
            ServiceError::InjectionFailed(x) => join("injection failed: ", x.as_str()),
            ServiceError::ChromeUnavailable => "Chrome is not available. Please ensure Chrome or Chromium is installed and accessible.".to_owned(),
            ServiceError::BrowserProbeNotFound(x) => wrap("Browser probe session '", x.as_str(), "' not found"),
            ServiceError::BrowserProbeStartFailed(x) => join("Failed to start browser probe: ", x.as_str()),
            ServiceError::BrowserProbeDrainFailed(x) => join("Failed to drain browser events: ", x.as_str()),
            ServiceError::InvalidInput(x) => join("invalid input: ", x.as_str()),
            ServiceError::Unsupported(x) => join("unsupported: ", x.as_str()),
            ServiceError::NoExecutionLog(x) => join("no execution log: ", x.as_str()),
            ServiceError::ExecutionLogUnavailable { session_id, reason } => {
                let mut m = wrap("execution log of session '", session_id.as_str(), "' is unavailable: ");
                push_str(&mut m, reason.as_str());
                m
            },
            ServiceError::EvidenceDecodeFailed { session_id, seq, payload_tag } => {
                let mut m = "evidence at seq ".to_owned();
                let q = dec_string(*seq);
                push_str(&mut m, q.as_str());
                push_str(&mut m, " of session '");
                push_str(&mut m, session_id.as_str());
                push_str(&mut m, "' could not be decoded (payload ");
                push_str(&mut m, payload_tag.as_str());
                push_str(&mut m, ")");
                m
            },
            ServiceError::EvidenceReadStalled { session_id, position } => {
                let mut m = wrap("evidence read of session '", session_id.as_str(), "' stalled at seq ");
                let p = dec_string(*position);
                push_str(&mut m, p.as_str());
                m
            },
            ServiceError::EvidenceUnavailableDueToRetention { retained_from } => join("evidence may lie in retired history before seq ", dec_string(*retained_from).as_str()),
            ServiceError::NoActiveSession => "no active session".to_owned(),
        }
    }
}

} // verus!
