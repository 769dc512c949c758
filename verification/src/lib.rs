//! Chronos services: the verified decision and algorithm layer behind the
//! agent-facing execution-evidence tools.

pub mod health_check;
pub mod execution_explorer;
pub mod ops_evidence;
pub mod language_capabilities;
pub mod language_fixtures;
pub mod text;
pub mod events_cursor;
pub mod live_streaming;
pub mod concurrency_graph;
pub mod concurrency_perturbation;
pub mod error;
pub mod counterexample;
pub mod trace;
pub mod events_log_read;
pub mod canonical_drain;
pub mod events_read;
pub mod debug_trace;
pub mod analysis;
pub mod debug_read;
pub mod observe;
pub mod execution_log_bootstrap;
pub mod browser_probe;
pub mod execution_query;
pub mod diff;
pub mod hypothesis_test;
pub mod debug_trace_specialized;
