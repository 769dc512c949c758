//! Browser probe requests and results, and the paging of a drained batch
//! of browser events.

use vstd::prelude::*;
use crate::error::ServiceError;

verus! {

/// Input of a browser probe start.
#[derive(Debug, Clone, PartialEq, Eq)]
pub struct BrowserProbeStartInput {
    pub url: String,
    pub headless: bool,
    pub chrome_path: Option<String>,
}

/// Result of a browser probe start.
#[derive(Debug, Clone, PartialEq, Eq)]
pub struct BrowserProbeStartResult {
    pub session_id: String,
    pub url: String,
}

/// Input of a browser probe stop.
#[derive(Debug, Clone, PartialEq, Eq)]
pub struct BrowserProbeStopInput {
    pub session_id: String,
}

/// Input of a browser probe drain.
#[derive(Debug, Clone, PartialEq, Eq)]
pub struct BrowserProbeDrainInput {
    pub session_id: String,
    pub offset: usize,
    pub limit: usize,
}

/// Result of a browser probe drain; `E` is the drained event type.
#[derive(Debug, Clone, PartialEq, Eq)]
pub struct BrowserProbeDrainResult<E> {
    pub session_id: String,
    /// Events the drain took out of the adapter's buffer.
    pub total_buffered: usize,
    pub returned: usize,
    pub offset: usize,
    pub limit: usize,
    pub events: Vec<E>,
}

/// Stateless owner of the browser probe lifecycle.
pub struct BrowserProbeService;

pub open spec fn min_int(a: int, b: int) -> int {
    if a < b {
        a
    } else {
        b
    }
}

impl BrowserProbeService {
    /// Page a drained batch: skip `offset` events and keep at most `limit`,
    /// reporting how many were drained in all.
    pub fn drain_result<E>(input: BrowserProbeDrainInput, drained: Vec<E>) -> (r: BrowserProbeDrainResult<E>)
        ensures
            r.session_id == input.session_id,
            r.total_buffered == drained@.len(),
            r.offset == input.offset,
            r.limit == input.limit,
            r.events@ == drained@.subrange(
                min_int(input.offset as int, drained@.len() as int),
                min_int(input.offset as int + input.limit as int, drained@.len() as int),
            ),
            r.returned == r.events@.len(),
    {
        let total = drained.len();
        let mut events = drained;
        let start = if input.offset < total {
            input.offset
        } else {
            total
        };
        let ghost all = events@;
        let mut page = events.split_off(start);
        page.truncate(input.limit);
        proof {
            if input.limit as int <= all.len() - start {
                assert(page@ =~= all.subrange(start as int, start + input.limit));
            } else {
                assert(page@ =~= all.subrange(start as int, all.len() as int));
            }
        }
        let returned = page.len();
        BrowserProbeDrainResult {
            session_id: input.session_id,
            total_buffered: total,
            returned,
            offset: input.offset,
            limit: input.limit,
            events: page,
        }
    }

    /// A session that is not registered is `BrowserProbeNotFound`.
    pub fn require_session<S>(session_id: &str, found: Option<S>) -> (r: Result<S, ServiceError>)
        ensures
            found matches Some(s) ==> r == Ok::<S, ServiceError>(s),
            found is None ==> (r matches Err(ServiceError::BrowserProbeNotFound(m)) && m@ == session_id@),
    {
        match found {
            Some(s) => Ok(s),
            None => Err(ServiceError::BrowserProbeNotFound(session_id.to_owned())),
        }
    }
}

} // verus!
