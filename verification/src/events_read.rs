//! The `events_read` dispatcher's decisions: which mode needs which
//! field, how a cursor failure is reported, which filters a query applies,
//! and whether a page hands out a next cursor.

use vstd::prelude::*;
use crate::error::ServiceError;
use crate::events_cursor::{
    CursorParse, EventSeq, EventsCursorError, EventsCursorV1, SessionId, EVENTS_CURSOR_V1_SCHEMA,
    parse_cursor_spec,
};
use vstd::utf8::{decode_utf8, encode_utf8};
use crate::events_log_read::LogReadFilters;
use crate::text::{debug_str, debug_str_text, push_str};
use crate::trace::EventType;

verus! {

/// Read mode.
#[derive(Debug, Clone, Copy, PartialEq, Eq, Structural)]
pub enum EventsReadKind {
    /// A filtered page of events from a cursor.
    Query,
    /// One event by id.
    ById,
}

/// Input of an `events_read` request.
#[derive(Debug, Clone, PartialEq, Eq)]
pub struct EventsReadInput {
    pub session_id: String,
    pub mode: EventsReadKind,
    pub event_types: Option<Vec<EventType>>,
    pub thread_id: Option<u64>,
    pub timestamp_start: Option<u64>,
    pub timestamp_end: Option<u64>,
    pub function_pattern: Option<String>,
    pub limit: usize,
    /// Opaque cursor of the next page; `None` starts at seq 0.
    pub cursor: Option<String>,
    pub event_id: Option<u64>,
}

/// Stateless holder of the `events_read` decisions.
pub struct ChronosEventsReadService;

pub open spec fn by_id_required_text() -> Seq<char> {
    "event_id required for mode=by_id"@
}

/// A cursor from another session is the caller's mistake and stays
/// distinguishable from a malformed or unsupported payload.
pub open spec fn cursor_error_maps_to(err: EventsCursorError, r: ServiceError) -> bool {
    match err {
        EventsCursorError::Malformed { .. } => r == ServiceError::InvalidCursorPayload,
        EventsCursorError::UnsupportedVersion { .. } => r == ServiceError::InvalidCursorPayload,
        EventsCursorError::WrongSession { expected, found } => r matches ServiceError::InvalidInput(m) && m@
            == "cursor belongs to session "@ + debug_str_text(found@) + ", not "@ + debug_str_text(expected@),
    }
}

/// Map a cursor validation failure onto the service error surface.
pub fn map_cursor_error(err: EventsCursorError) -> (r: ServiceError)
    ensures
        cursor_error_maps_to(err, r),
{
    match err {
        EventsCursorError::Malformed { .. } => ServiceError::InvalidCursorPayload,
        EventsCursorError::UnsupportedVersion { .. } => ServiceError::InvalidCursorPayload,
        EventsCursorError::WrongSession { expected, found } => {
            let mut m = "cursor belongs to session ".to_owned();
            let f = debug_str(found.as_str());
            push_str(&mut m, f.as_str());
            push_str(&mut m, ", not ");
            let e = debug_str(expected.as_str());
            push_str(&mut m, e.as_str());
            ServiceError::InvalidInput(m)
        },
    }
}

fn copy_types(ts: &Vec<EventType>) -> (r: Vec<EventType>)
    ensures
        r@ == ts@,
{
    let mut r: Vec<EventType> = Vec::new();
    let mut i: usize = 0;
    while i < ts.len()
        invariant
            0 <= i <= ts@.len(),
            r@ == ts@.subrange(0, i as int),
        decreases ts@.len() - i,
    {
        r.push(ts[i]);
        proof {
            assert(ts@.subrange(0, i + 1) =~= ts@.subrange(0, i as int).push(ts@[i as int]));
        }
        i += 1;
    }
    proof {
        assert(ts@.subrange(0, ts@.len() as int) =~= ts@);
    }
    r
}

impl ChronosEventsReadService {
    /// The event id a `ById` read needs.
    pub fn required_event_id(input: &EventsReadInput) -> (r: Result<u64, ServiceError>)
        ensures
            input.event_id matches Some(id) ==> r == Ok::<u64, ServiceError>(id),
            input.event_id is None ==> (r matches Err(ServiceError::InvalidInput(m)) && m@ == by_id_required_text()),
    {
        match input.event_id {
            Some(id) => Ok(id),
            None => Err(ServiceError::InvalidInput("event_id required for mode=by_id".to_owned())),
        }
    }

    /// The cursor a `Query` read starts from: the decoded cursor, which must
    /// belong to the session, or the start of the session's log.
    pub fn start_cursor(raw: &Option<String>, session: &SessionId) -> (r: Result<EventsCursorV1, ServiceError>)
        ensures
            raw is None ==> (r matches Ok(c) && c.spec_schema() == EVENTS_CURSOR_V1_SCHEMA && c.spec_session()
                == session@ && c.spec_next() == 0),
            raw matches Some(s) ==> match parse_cursor_spec(encode_utf8(s@)) {
                CursorParse::Parsed(sess, n) => if decode_utf8(sess) == session@ {
                    r matches Ok(c) && c.spec_schema() == 1 && c.spec_session() == session@ && c.spec_next() == n
                } else {
                    r matches Err(ServiceError::InvalidInput(m)) && m@ == "cursor belongs to session "@
                        + debug_str_text(decode_utf8(sess)) + ", not "@ + debug_str_text(session@)
                },
                _ => r == Err::<EventsCursorV1, ServiceError>(ServiceError::InvalidCursorPayload),
            },
    {
        match raw {
            Some(s) => match EventsCursorV1::decode_for_session(s.as_str(), session) {
                Ok(c) => Ok(c),
                Err(e) => Err(map_cursor_error(e)),
            },
            None => Ok(EventsCursorV1::start(session.clone())),
        }
    }

    /// The filters a `Query` read applies, taken from the request as given.
    pub fn query_filters(input: &EventsReadInput) -> (f: LogReadFilters)
        ensures
            f.event_types is Some <==> input.event_types is Some,
            f.event_types matches Some(a) ==> (input.event_types matches Some(b) && a@ == b@),
            f.thread_id == input.thread_id,
            f.timestamp_start == input.timestamp_start,
            f.timestamp_end == input.timestamp_end,
            f.function_pattern == input.function_pattern,
    {
        let event_types = match &input.event_types {
            Some(ts) => Some(copy_types(ts)),
            None => None,
        };
        let function_pattern = match &input.function_pattern {
            Some(p) => Some(p.clone()),
            None => None,
        };
        LogReadFilters {
            event_types,
            thread_id: input.thread_id,
            timestamp_start: input.timestamp_start,
            timestamp_end: input.timestamp_end,
            function_pattern,
        }
    }

    /// Whether a page ending at `position_after` hands out a next cursor:
    /// only while evidence may still exist at or after that position, which
    /// the log's tail bounds. Without a known tail there is none.
    pub fn has_more(position_after: EventSeq, tail_seq: Option<EventSeq>) -> (b: bool)
        ensures
            b == (tail_seq matches Some(t) && position_after.0 <= t.0),
    {
        match tail_seq {
            Some(t) => position_after.0 <= t.0,
            None => false,
        }
    }
}

} // verus!
