//! The authoritative, stateless read page over a session's execution log.
//!
//! The cursor records evidence examined, not results returned: after
//! examining through seq `M` the next read starts at `M + 1`, whatever the
//! filters matched. Completeness is always scoped to the examined range, and
//! a range is `Complete` only when the log can prove continuity for it.

use vstd::prelude::*;
use crate::error::ServiceError;
use crate::events_cursor::{EventSeq, EventsCursorV1, SessionId};
use crate::trace::{EventType, TraceEvent};
use crate::text::{debug_str, debug_str_text, push_str};

verus! {

/// How complete the evidence in an examined range is.
#[derive(Debug, Clone, Copy, PartialEq, Eq, Structural)]
pub enum Completeness {
    /// The log demonstrates that nothing is missing in the range.
    Complete,
    /// One or more recorded gaps intersect the range.
    GapDetected,
    /// Loss is known but cannot be delimited.
    Partial,
    /// Neither completeness nor loss can be demonstrated.
    Unknown,
    /// The source cannot evaluate completeness at all.
    Unsupported,
}

pub open spec fn completeness_label(c: Completeness) -> Seq<char> {
    match c {
        Completeness::Complete => "complete"@,
        Completeness::GapDetected => "gap_detected"@,
        Completeness::Partial => "partial"@,
        Completeness::Unknown => "unknown"@,
        Completeness::Unsupported => "unsupported"@,
    }
}

impl Completeness {
    pub fn as_str(self) -> (r: &'static str)
        ensures
            r@ == completeness_label(self),
    {
        match self {
            Completeness::Complete => "complete",
            Completeness::GapDetected => "gap_detected",
            Completeness::Partial => "partial",
            Completeness::Unknown => "unknown",
            Completeness::Unsupported => "unsupported",
        }
    }
}

/// `s` has the same characters as `lit`.
fn str_is(s: &str, lit: &str) -> (b: bool)
    ensures
        b == (s@ == lit@),
{
    s.to_owned() == lit.to_owned()
}

/// Status named by a wire label; any label that is not one of the known
/// non-`unknown` names reads as `Unknown`.
pub open spec fn completeness_from_label(s: Seq<char>) -> Completeness {
    if s == "complete"@ {
        Completeness::Complete
    } else if s == "gap_detected"@ {
        Completeness::GapDetected
    } else if s == "partial"@ {
        Completeness::Partial
    } else if s == "unsupported"@ {
        Completeness::Unsupported
    } else {
        Completeness::Unknown
    }
}

/// The scope every report refers to today.
pub open spec fn examined_range_scope() -> Seq<char> {
    "examined_range"@
}

/// A completeness verdict, always scoped to an explicit range
/// `[from_seq, to_seq_exclusive)`.
#[derive(Debug, Clone, Copy, PartialEq, Eq)]
pub struct CompletenessReport {
    pub status: Completeness,
    pub scope: &'static str,
    pub from_seq: u64,
    pub to_seq_exclusive: u64,
}

impl CompletenessReport {
    pub const SCOPE_EXAMINED_RANGE: &'static str = "examined_range";

    pub fn is_complete(&self) -> (b: bool)
        ensures
            b == (self.status == Completeness::Complete),
    {
        self.status == Completeness::Complete
    }

    /// The scope name this report refers to.
    pub fn scope_name(&self) -> (s: &'static str)
        ensures
            s@ == self.scope@,
    {
        self.scope
    }

    /// A report for the examined range.
    pub fn examined_range(status: Completeness, from_seq: u64, to_seq_exclusive: u64) -> (r: Self)
        ensures
            r.status == status,
            r.scope@ == examined_range_scope(),
            r.from_seq == from_seq,
            r.to_seq_exclusive == to_seq_exclusive,
    {
        proof {
            reveal_strlit("examined_range");
        }
        CompletenessReport { status, scope: "examined_range", from_seq, to_seq_exclusive }
    }

    /// Rebuild a report from its wire fields. An empty scope means the
    /// examined range; any other scope but `examined_range` is refused, so
    /// a future scope is never reinterpreted as this one.
    pub fn from_wire(status: &str, scope: &str, from_seq: u64, to_seq_exclusive: u64) -> (r: Result<Self, String>)
        ensures
            (scope@.len() == 0 || scope@ == examined_range_scope()) ==> (r matches Ok(rep) && rep.status
                == completeness_from_label(status@) && rep.scope@ == examined_range_scope() && rep.from_seq
                == from_seq && rep.to_seq_exclusive == to_seq_exclusive),
            !(scope@.len() == 0 || scope@ == examined_range_scope()) ==> (r matches Err(msg) && msg@
                == "unsupported completeness scope "@ + debug_str_text(scope@)),
    {
        proof {
            reveal_strlit("");
            if scope@.len() == 0 {
                assert(scope@ =~= ""@);
            }
        }
        if !(str_is(scope, "") || str_is(scope, "examined_range")) {
            let mut msg = "unsupported completeness scope ".to_owned();
            let quoted = debug_str(scope);
            push_str(&mut msg, quoted.as_str());
            return Err(msg);
        }
        let st = if str_is(status, "complete") {
            Completeness::Complete
        } else if str_is(status, "gap_detected") {
            Completeness::GapDetected
        } else if str_is(status, "partial") {
            Completeness::Partial
        } else if str_is(status, "unsupported") {
            Completeness::Unsupported
        } else {
            Completeness::Unknown
        };
        Ok(CompletenessReport::examined_range(st, from_seq, to_seq_exclusive))
    }
}

/// `needle` occurs as a contiguous run inside `hay`.
pub open spec fn contains_sub(hay: Seq<u8>, needle: Seq<u8>) -> bool {
    exists|i: int| 0 <= i && i + needle.len() <= hay.len() && #[trigger] hay.subrange(i, i + needle.len()) == needle
}

/// Byte substring search, as `str::contains` with a string pattern does it.
fn bytes_contain(hay: &[u8], needle: &[u8]) -> (b: bool)
    ensures
        b == contains_sub(hay@, needle@),
{
    if needle.len() > hay.len() {
        proof {
            assert forall|i: int| 0 <= i && i + needle@.len() <= hay@.len() implies #[trigger] hay@.subrange(
                i,
                i + needle@.len(),
            ) != needle@ by {}
        }
        return false;
    }
    let hlen = hay.len();
    let last = hlen - needle.len();
    let mut i: usize = 0;
    while i <= last
        invariant
            last == hay@.len() - needle@.len(),
            hlen == hay@.len(),
            needle@.len() <= hay@.len(),
            0 <= i <= last,
            forall|k: int| 0 <= k < i ==> #[trigger] hay@.subrange(k, k + needle@.len()) != needle@,
        decreases last - i,
    {
        let mut j: usize = 0;
        let mut same = true;
        while j < needle.len()
            invariant
                i <= last,
                hlen == hay@.len(),
                needle@.len() <= hay@.len(),
                last == hay@.len() - needle@.len(),
                0 <= j <= needle@.len(),
                same == (forall|m: int| 0 <= m < j ==> hay@[i + m] == needle@[m]),
            decreases needle@.len() - j,
        {
            assert(i + j < hay@.len());
            if hay[i + j] != needle[j] {
                same = false;
            }
            j += 1;
        }
        if same {
            proof {
                assert(hay@.subrange(i as int, i + needle@.len()) =~= needle@);
            }
            return true;
        }
        proof {
            let m = choose|m: int| 0 <= m < needle@.len() && hay@[i + m] != needle@[m];
            assert(hay@.subrange(i as int, i + needle@.len())[m] != needle@[m]);
        }
        if i == last {
            return false;
        }
        i += 1;
    }
    false
}

/// Filters applied after selection. They never move the cursor.
#[derive(Debug, Clone, PartialEq, Eq)]
pub struct LogReadFilters {
    pub event_types: Option<Vec<EventType>>,
    pub thread_id: Option<u64>,
    pub timestamp_start: Option<u64>,
    pub timestamp_end: Option<u64>,
    pub function_pattern: Option<String>,
}

impl Default for LogReadFilters {
    /// No filter at all.
    fn default() -> (f: Self)
        ensures
            f.event_types is None,
            f.thread_id is None,
            f.timestamp_start is None,
            f.timestamp_end is None,
            f.function_pattern is None,
    {
        LogReadFilters { event_types: None, thread_id: None, timestamp_start: None, timestamp_end: None, function_pattern: None }
    }
}

/// `e` passes every filter that is set. A function filter matches the
/// events whose function name contains the pattern; an event without a
/// function name never matches it.
pub open spec fn filters_match(f: LogReadFilters, e: TraceEvent) -> bool {
    &&& (f.event_types matches Some(ts) ==> ts@.contains(e.event_type))
    &&& (f.thread_id matches Some(t) ==> e.thread_id == t)
    &&& (f.timestamp_start matches Some(s) ==> e.timestamp_ns >= s)
    &&& (f.timestamp_end matches Some(x) ==> e.timestamp_ns <= x)
    &&& (f.function_pattern matches Some(p) ==> (e.location.function matches Some(name) && contains_sub(
        vstd::utf8::encode_utf8(name@),
        vstd::utf8::encode_utf8(p@),
    )))
}

fn type_listed(types: &Vec<EventType>, t: EventType) -> (b: bool)
    ensures
        b == types@.contains(t),
{
    let mut i: usize = 0;
    while i < types.len()
        invariant
            0 <= i <= types@.len(),
            forall|k: int| 0 <= k < i ==> types@[k] != t,
        decreases types@.len() - i,
    {
        if types[i] == t {
            proof {
                assert(types@[i as int] == t);
            }
            return true;
        }
        i += 1;
    }
    false
}

impl LogReadFilters {
    pub fn matches(&self, r: &TraceEvent) -> (b: bool)
        ensures
            b == filters_match(*self, *r),
    {
        if let Some(types) = &self.event_types {
            if !type_listed(types, r.event_type) {
                return false;
            }
        }
        if let Some(thread) = self.thread_id {
            if r.thread_id != thread {
                return false;
            }
        }
        if let Some(start) = self.timestamp_start {
            if r.timestamp_ns < start {
                return false;
            }
        }
        if let Some(end) = self.timestamp_end {
            if r.timestamp_ns > end {
                return false;
            }
        }
        if let Some(pattern) = &self.function_pattern {
            match &r.location.function {
                Some(name) => {
                    if !bytes_contain(name.as_str().as_bytes(), pattern.as_str().as_bytes()) {
                        return false;
                    }
                },
                None => {
                    return false;
                },
            }
        }
        true
    }
}

/// A recorded gap: seqs `first_missing..=last_missing` are missing, for
/// the reason the producer gave (by name) and from the source it named.
#[derive(Debug, PartialEq, Eq)]
pub struct Gap {
    pub first_missing: EventSeq,
    pub last_missing: EventSeq,
    pub reason: String,
    pub source: String,
}

impl Clone for Gap {
    fn clone(&self) -> (r: Self)
        ensures
            r == *self,
    {
        Gap {
            first_missing: self.first_missing,
            last_missing: self.last_missing,
            reason: self.reason.clone(),
            source: self.source.clone(),
        }
    }
}

/// The gap `g` overlaps the non-empty range `[from, to)`.
pub open spec fn gap_intersects(g: Gap, from: u64, to: u64) -> bool {
    to > from && g.first_missing.0 < to && g.last_missing.0 >= from
}

/// Verdict for `[from, to)` given the recorded gaps and the log's tail.
pub open spec fn completeness_status(from: u64, to: u64, gaps: Seq<Gap>, tail: Option<EventSeq>) -> Completeness {
    if exists|i: int| 0 <= i < gaps.len() && gap_intersects(#[trigger] gaps[i], from, to) {
        Completeness::GapDetected
    } else if tail matches Some(t) && to <= t.0 + 1 {
        Completeness::Complete
    } else {
        Completeness::Unknown
    }
}

/// Decide the completeness verdict for `[from_seq, to_seq_exclusive)`.
/// Only gaps that intersect the examined range contaminate it; without a
/// known tail, or past it, there is no proof of continuity.
pub fn completeness_for(
    session_id: &str,
    from_seq: EventSeq,
    to_seq_exclusive: EventSeq,
    gaps: &[Gap],
    tail: Option<EventSeq>,
) -> (r: CompletenessReport)
    ensures
        r.status == completeness_status(from_seq.0, to_seq_exclusive.0, gaps@, tail),
        r.scope@ == examined_range_scope(),
        r.from_seq == from_seq.0,
        r.to_seq_exclusive == to_seq_exclusive.0,
{
    let from = from_seq.0;
    let to = to_seq_exclusive.0;
    let mut i: usize = 0;
    while i < gaps.len()
        invariant
            from == from_seq.0,
            to == to_seq_exclusive.0,
            0 <= i <= gaps@.len(),
            forall|k: int| 0 <= k < i ==> !gap_intersects(#[trigger] gaps@[k], from, to),
        decreases gaps@.len() - i,
    {
        let g = &gaps[i];
        if to > from && g.first_missing.0 < to && g.last_missing.0 >= from {
            proof {
                assert(gap_intersects(gaps@[i as int], from, to));
            }
            return CompletenessReport::examined_range(Completeness::GapDetected, from, to);
        }
        i += 1;
    }
    match tail {
        Some(t) => {
            if to as u128 <= t.0 as u128 + 1 {
                CompletenessReport::examined_range(Completeness::Complete, from, to)
            } else {
                CompletenessReport::examined_range(Completeness::Unknown, from, to)
            }
        },
        None => CompletenessReport::examined_range(Completeness::Unknown, from, to),
    }
}

/// A range that a recorded gap intersects is never reported `Complete`,
/// and is always reported `GapDetected`.
pub proof fn law_gap_in_range_never_complete(from: u64, to: u64, gaps: Seq<Gap>, tail: Option<EventSeq>, i: int)
    requires
        0 <= i < gaps.len(),
        gap_intersects(gaps[i], from, to),
    ensures
        completeness_status(from, to, gaps, tail) == Completeness::GapDetected,
        completeness_status(from, to, gaps, tail) != Completeness::Complete,
{
}

/// Without a known tail no range is ever reported `Complete`.
pub proof fn law_no_tail_no_proof(from: u64, to: u64, gaps: Seq<Gap>)
    ensures
        completeness_status(from, to, gaps, None) != Completeness::Complete,
{
}

/// Retention facts: the earliest seq the log can still serve.
#[derive(Debug, Clone, Copy, PartialEq, Eq, Structural)]
pub struct RetentionFacts {
    pub retained_from_seq: u64,
    /// `true` iff some history was already retired.
    pub history_truncated: bool,
}

impl RetentionFacts {
    pub fn from_retained_from(retained_from: EventSeq) -> (r: Self)
        ensures
            r.retained_from_seq == retained_from.0,
            r.history_truncated == (retained_from.0 > 0),
    {
        RetentionFacts { retained_from_seq: retained_from.0, history_truncated: retained_from.0 > 0 }
    }
}

/// Lifecycle state of a log's tail, as the log reports it.
#[derive(Debug, Clone, Copy, PartialEq, Eq, Structural)]
pub enum TailState {
    /// The run is still in progress.
    Open,
    /// The run ended with an explicit, durable seal.
    Sealed,
    /// Positive evidence that the run did not end cleanly.
    Unclean,
    /// No proof either way.
    Unknown,
}

/// Flat wire name of a tail state.
#[derive(Debug, Clone, Copy, PartialEq, Eq, Structural)]
pub enum TailStateWire {
    Open,
    Sealed,
    Unclean,
    Unknown,
}

pub open spec fn tail_wire(s: TailState) -> TailStateWire {
    match s {
        TailState::Open => TailStateWire::Open,
        TailState::Sealed => TailStateWire::Sealed,
        TailState::Unclean => TailStateWire::Unclean,
        TailState::Unknown => TailStateWire::Unknown,
    }
}

impl TailStateWire {
    pub fn from_log_state(state: &TailState) -> (r: Self)
        ensures
            r == tail_wire(*state),
    {
        match state {
            TailState::Open => TailStateWire::Open,
            TailState::Sealed => TailStateWire::Sealed,
            TailState::Unclean => TailStateWire::Unclean,
            TailState::Unknown => TailStateWire::Unknown,
        }
    }
}

/// Tail facts: the state name and, unless the state is unknown, the tail.
#[derive(Debug, Clone, Copy, PartialEq, Eq, Structural)]
pub struct TailFacts {
    pub state: TailStateWire,
    pub tail_seq: Option<u64>,
}

impl TailFacts {
    /// The tail seq is dropped when the state is unknown: an unproven tail
    /// is never presented as the tail.
    pub fn from_log_tail(state: &TailState, tail_seq: Option<EventSeq>) -> (r: Self)
        ensures
            r.state == tail_wire(*state),
            r.tail_seq == (if *state == TailState::Unknown {
                None::<u64>
            } else {
                match tail_seq {
                    Some(s) => Some(s.0),
                    None => None,
                }
            }),
    {
        let wire = TailStateWire::from_log_state(state);
        let tail_seq = match wire {
            TailStateWire::Unknown => None,
            _ => match tail_seq {
                Some(s) => Some(s.0),
                None => None,
            },
        };
        TailFacts { state: wire, tail_seq }
    }
}

/// What a log record holds.
#[derive(Debug, Clone, Copy, PartialEq, Eq, Structural)]
pub enum ExecutionKind {
    /// A captured trace event.
    Raw,
    /// Evidence that a tripwire fired on an earlier `Raw` record.
    TripwireFired,
    /// A producer-recorded gap marker.
    GapMarker,
}

/// One log record as the read path sees it: its position and kind, its
/// payload decoded as a trace event (`None` when it does not decode as
/// one), for a firing the position of its source record when the evidence
/// decodes, and the producer's payload tag for diagnostics.
#[derive(Debug, PartialEq, Eq)]
pub struct LogRecord {
    pub seq: EventSeq,
    pub kind: ExecutionKind,
    pub event: Option<TraceEvent>,
    pub firing_source: Option<EventSeq>,
    pub payload_tag: String,
}

/// One batch the log hands back for a read from a position.
#[derive(Debug, PartialEq, Eq)]
pub struct LogPage {
    pub records: Vec<LogRecord>,
    pub gaps: Vec<Gap>,
    /// The position after the last record the batch covers.
    pub position_after: EventSeq,
    /// The log holds nothing more past this batch.
    pub exhausted: bool,
}

impl LogPage {
    /// Nothing to read at `position`.
    pub fn empty_at(position: EventSeq) -> (p: Self)
        ensures
            p.records@.len() == 0,
            p.gaps@.len() == 0,
            p.position_after == position,
            p.exhausted,
    {
        LogPage { records: Vec::new(), gaps: Vec::new(), position_after: position, exhausted: true }
    }
}

/// One authoritative page.
#[derive(Debug)]
pub struct LogReadPage {
    /// Decoded events that passed the filters, in seq order.
    pub records: Vec<TraceEvent>,
    /// The cursor for the next read.
    pub next: EventsCursorV1,
    /// The position after the last examined record: `next.next_seq()`.
    pub position_after: EventSeq,
    /// Gaps the read passed over, ascending by first missing seq.
    pub gaps: Vec<Gap>,
    /// Verdict for the examined range.
    pub completeness: CompletenessReport,
    pub retention: RetentionFacts,
    pub tail: TailFacts,
}

/// Records examined per read from the log.
pub const SCAN_CHUNK: usize = 512;

/// The record can be examined: it decodes, and a position exists after it.
pub open spec fn record_ok(r: LogRecord) -> bool {
    r.event is Some && r.seq.0 < u64::MAX
}

/// Examine `recs` from index `i`, stopping when `limit` matches are held
/// or at a record that cannot be examined. Gives the matches, the position
/// after the last examined record, and the index where the scan stopped.
pub open spec fn scan_records(
    recs: Seq<LogRecord>,
    i: int,
    f: LogReadFilters,
    limit: nat,
    matched: Seq<TraceEvent>,
    position: u64,
) -> (Seq<TraceEvent>, u64, int)
    decreases recs.len() - i,
{
    if i < 0 || i >= recs.len() || matched.len() >= limit || !record_ok(recs[i]) {
        (matched, position, i)
    } else {
        let e = recs[i].event->Some_0;
        scan_records(
            recs,
            i + 1,
            f,
            limit,
            if filters_match(f, e) {
                matched.push(e)
            } else {
                matched
            },
            (recs[i].seq.0 + 1) as u64,
        )
    }
}

proof fn lemma_scan_records(
    recs: Seq<LogRecord>,
    i: int,
    f: LogReadFilters,
    limit: nat,
    matched: Seq<TraceEvent>,
    position: u64,
)
    requires
        0 <= i <= recs.len(),
    ensures
        ({
            let r = scan_records(recs, i, f, limit, matched, position);
            &&& i <= r.2 <= recs.len()
            &&& r.0.len() >= matched.len()
            &&& forall|k: int| 0 <= k < matched.len() ==> r.0[k] == matched[k]
            &&& forall|k: int| matched.len() <= k < r.0.len() ==> filters_match(f, #[trigger] r.0[k])
            &&& matched.len() <= limit ==> r.0.len() <= limit
            &&& (r.2 < recs.len() && r.0.len() < limit) ==> !record_ok(recs[r.2])
        }),
    decreases recs.len() - i,
{
    let r = scan_records(recs, i, f, limit, matched, position);
    if i < recs.len() && matched.len() < limit && record_ok(recs[i]) {
        let e = recs[i].event->Some_0;
        let m2 = if filters_match(f, e) {
            matched.push(e)
        } else {
            matched
        };
        lemma_scan_records(recs, i + 1, f, limit, m2, (recs[i].seq.0 + 1) as u64);
        assert(r == scan_records(recs, i + 1, f, limit, m2, (recs[i].seq.0 + 1) as u64));
        assert forall|k: int| 0 <= k < matched.len() implies r.0[k] == matched[k] by {
            assert(m2[k] == matched[k]);
        }
        assert forall|k: int| matched.len() <= k < r.0.len() implies filters_match(f, #[trigger] r.0[k]) by {
            if k == matched.len() && filters_match(f, e) {
                assert(m2[k] == e);
            }
        }
    } else {
        assert(r == (matched, position, i));
    }
}

/// Result of examining one batch, before any error: the matches held
/// after it, the position reached, and whether the page is finished.
pub open spec fn chunk_outcome(
    page: LogPage,
    f: LogReadFilters,
    limit: nat,
    matched: Seq<TraceEvent>,
    position: u64,
) -> (u64, bool) {
    let r = scan_records(page.records@, 0, f, limit, matched, position);
    if r.0.len() >= limit {
        (r.1, true)
    } else if page.exhausted {
        (page.position_after.0, true)
    } else if page.position_after.0 > r.1 {
        (page.position_after.0, false)
    } else {
        (r.1, false)
    }
}

/// The batch cannot be finished from `position`: a record that has to
/// be examined does not decode (or has no position after it), or the
/// batch was examined in full without finishing the page and without
/// moving past `position`.
pub open spec fn chunk_fails(page: LogPage, f: LogReadFilters, limit: nat, matched: Seq<TraceEvent>, position: u64) -> bool {
    let s = scan_records(page.records@, 0, f, limit, matched, position);
    let out = chunk_outcome(page, f, limit, matched, position);
    (s.2 < page.records@.len() && s.0.len() < limit) || (!out.1 && out.0 <= position)
}

/// `e` is the error of a failing batch: the undecodable record, by
/// position and payload tag; otherwise a stalled read at the position
/// where the read could not go on.
pub open spec fn chunk_error(
    page: LogPage,
    sid: Seq<char>,
    f: LogReadFilters,
    limit: nat,
    matched: Seq<TraceEvent>,
    position: u64,
    e: ServiceError,
) -> bool {
    let s = scan_records(page.records@, 0, f, limit, matched, position);
    let out = chunk_outcome(page, f, limit, matched, position);
    if s.2 < page.records@.len() && s.0.len() < limit {
        let bad = page.records@[s.2];
        if bad.event is None {
            e matches ServiceError::EvidenceDecodeFailed { session_id: x, seq, payload_tag } && x@ == sid && seq
                == bad.seq.0 && payload_tag@ == bad.payload_tag@
        } else {
            e matches ServiceError::EvidenceReadStalled { session_id: x, position: p } && x@ == sid && p == bad.seq.0
        }
    } else {
        e matches ServiceError::EvidenceReadStalled { session_id: x, position: p } && x@ == sid && p == out.0
    }
}

/// Examine one batch returned by the log. Records are examined in order
/// until `limit` matches are held; the position advances to just after
/// each examined record, never to the end of the batch while stopping
/// early. A record that does not decode fails the read (no position is
/// handed out past evidence that could not be read). When the batch was
/// examined in full, an exhausted log finishes the page at the batch's
/// end, and otherwise the read goes on from the batch's end, or fails as
/// stalled when that is no progress from `position`.
pub fn scan_chunk(
    session_id: &str,
    limit: usize,
    filters: &LogReadFilters,
    position: EventSeq,
    matched: &mut Vec<TraceEvent>,
    gaps: &mut Vec<Gap>,
    page: &LogPage,
) -> (r: Result<(EventSeq, bool), ServiceError>)
    ensures
        final(gaps)@ == old(gaps)@ + page.gaps@,
        chunk_fails(*page, *filters, limit as nat, old(matched)@, position.0) ==> (r matches Err(e) && chunk_error(
            *page,
            session_id@,
            *filters,
            limit as nat,
            old(matched)@,
            position.0,
            e,
        )),
        !chunk_fails(*page, *filters, limit as nat, old(matched)@, position.0) ==> ({
            let s = scan_records(page.records@, 0, *filters, limit as nat, old(matched)@, position.0);
            let out = chunk_outcome(*page, *filters, limit as nat, old(matched)@, position.0);
            &&& r matches Ok((p, done)) && p.0 == out.0 && done == out.1
            &&& final(matched)@ == s.0
        }),
{
    let ghost recs = page.records@;
    let ghost total = scan_records(recs, 0, *filters, limit as nat, matched@, position.0);
    let mut i: usize = 0;
    while i < page.gaps.len()
        invariant
            0 <= i <= page.gaps@.len(),
            gaps@ == old(gaps)@ + page.gaps@.subrange(0, i as int),
        decreases page.gaps@.len() - i,
    {
        gaps.push(page.gaps[i].clone());
        proof {
            assert(page.gaps@.subrange(0, i + 1) =~= page.gaps@.subrange(0, i as int).push(page.gaps@[i as int]));
        }
        i += 1;
    }
    proof {
        assert(page.gaps@.subrange(0, page.gaps@.len() as int) =~= page.gaps@);
        lemma_scan_records(recs, 0, *filters, limit as nat, old(matched)@, position.0);
    }
    let mut pos = position;
    let mut j: usize = 0;
    while j < page.records.len() && matched.len() < limit
        invariant
            recs == page.records@,
            0 <= j <= recs.len(),
            total == scan_records(recs, 0, *filters, limit as nat, old(matched)@, position.0),
            total == scan_records(recs, j as int, *filters, limit as nat, matched@, pos.0),
            gaps@ == old(gaps)@ + page.gaps@,
        decreases recs.len() - j,
    {
        let rec = &page.records[j];
        match &rec.event {
            None => {
                return Err(ServiceError::EvidenceDecodeFailed {
                    session_id: session_id.to_owned(),
                    seq: rec.seq.0,
                    payload_tag: rec.payload_tag.clone(),
                });
            },
            Some(event) => {
                if rec.seq.0 == u64::MAX {
                    return Err(ServiceError::EvidenceReadStalled { session_id: session_id.to_owned(), position: rec.seq.0 });
                }
                pos = EventSeq::new(rec.seq.0 + 1);
                if filters.matches(event) {
                    matched.push(event.clone());
                }
            },
        }
        j += 1;
    }
    proof {
        assert(total.0 == matched@);
        assert(total.1 == pos.0);
    }
    if matched.len() >= limit {
        return Ok((pos, true));
    }
    if page.exhausted {
        return Ok((page.position_after, true));
    }
    if page.position_after.0 > pos.0 {
        pos = page.position_after;
    }
    if pos.0 <= position.0 {
        return Err(ServiceError::EvidenceReadStalled { session_id: session_id.to_owned(), position: pos.0 });
    }
    Ok((pos, false))
}

/// `gs[i]` lies before `pos` and no earlier gap before `pos` starts where
/// it starts.
pub open spec fn first_kept_with_key(gs: Seq<Gap>, i: int, pos: u64) -> bool {
    &&& gs[i].last_missing.0 < pos
    &&& forall|j: int| 0 <= j < i && gs[j].last_missing.0 < pos ==> gs[j].first_missing != gs[i].first_missing
}

/// `g` is the first gap of `gs` before `pos` with its starting seq.
pub open spec fn kept_first(gs: Seq<Gap>, g: Gap, pos: u64) -> bool {
    exists|i: int| 0 <= i < gs.len() && #[trigger] gs[i] == g && first_kept_with_key(gs, i, pos)
}

/// `out` is `gs` restricted to the gaps that end before `pos`, ordered by
/// first missing seq, keeping the first gap of each starting seq.
pub open spec fn gaps_normalized(out: Seq<Gap>, gs: Seq<Gap>, pos: u64) -> bool {
    &&& forall|a: int, b: int| 0 <= a < b < out.len() ==> out[a].first_missing.0 < out[b].first_missing.0
    &&& forall|k: int| 0 <= k < out.len() ==> kept_first(gs, #[trigger] out[k], pos)
    &&& forall|i: int| 0 <= i < gs.len() && (#[trigger] gs[i]).last_missing.0 < pos ==> exists|k: int|
        0 <= k < out.len() && #[trigger] out[k].first_missing == gs[i].first_missing
}

/// Keep the gaps the reader passed over (ending before `pos`), ascending
/// by first missing seq, one per starting seq (the first one seen).
pub fn normalize_gaps(gs: &Vec<Gap>, pos: u64) -> (out: Vec<Gap>)
    ensures
        gaps_normalized(out@, gs@, pos),
{
    let mut out: Vec<Gap> = Vec::new();
    let ghost mut wit: Seq<int> = Seq::empty();
    let mut i: usize = 0;
    while i < gs.len()
        invariant
            0 <= i <= gs@.len(),
            wit.len() == out@.len(),
            forall|a: int, b: int| 0 <= a < b < out@.len() ==> out@[a].first_missing.0 < out@[b].first_missing.0,
            forall|k: int| 0 <= k < out@.len() ==> 0 <= #[trigger] wit[k] < i && gs@[wit[k]] == out@[k]
                && first_kept_with_key(gs@, wit[k], pos),
            forall|j: int| 0 <= j < i && (#[trigger] gs@[j]).last_missing.0 < pos ==> exists|k: int|
                0 <= k < out@.len() && #[trigger] out@[k].first_missing == gs@[j].first_missing,
        decreases gs@.len() - i,
    {
        let g = gs[i].clone();
        if g.last_missing.0 < pos {
            let mut p: usize = 0;
            while p < out.len() && out[p].first_missing.0 < g.first_missing.0
                invariant
                    0 <= p <= out@.len(),
                    forall|k: int| 0 <= k < p ==> out@[k].first_missing.0 < g.first_missing.0,
                decreases out@.len() - p,
            {
                p += 1;
            }
            if p < out.len() && out[p].first_missing.0 == g.first_missing.0 {
                proof {
                    assert forall|j: int| 0 <= j < i + 1 && (#[trigger] gs@[j]).last_missing.0 < pos implies exists|k: int|
                        0 <= k < out@.len() && #[trigger] out@[k].first_missing == gs@[j].first_missing by {
                        if j == i {
                            assert(out@[p as int].first_missing == gs@[j].first_missing);
                        }
                    }
                }
            } else {
                let ghost old_out = out@;
                let ghost old_wit = wit;
                proof {
                    assert forall|j: int| 0 <= j < i && gs@[j].last_missing.0 < pos implies gs@[j].first_missing
                        != g.first_missing by {
                        if gs@[j].first_missing == g.first_missing {
                            let k = choose|k: int| 0 <= k < old_out.len() && #[trigger] old_out[k].first_missing
                                == gs@[j].first_missing;
                            if k < p {
                            } else {
                                if k > p {
                                    assert(old_out[p as int].first_missing.0 < old_out[k].first_missing.0);
                                }
                            }
                        }
                    }
                    assert(first_kept_with_key(gs@, i as int, pos));
                }
                out.insert(p, g);
                proof {
                    wit = old_wit.insert(p as int, i as int);
                    assert forall|a: int, b: int| 0 <= a < b < out@.len() implies out@[a].first_missing.0
                        < out@[b].first_missing.0 by {
                        if b < p {
                        } else if b == p {
                        } else if a < p {
                            assert(out@[b] == old_out[b - 1]);
                            if b - 1 > p {
                                assert(old_out[p as int].first_missing.0 < old_out[b - 1].first_missing.0);
                            }
                        } else if a == p {
                            assert(out@[b] == old_out[b - 1]);
                            if b - 1 > p {
                                assert(old_out[p as int].first_missing.0 < old_out[b - 1].first_missing.0);
                            }
                        } else {
                            assert(out@[a] == old_out[a - 1]);
                            assert(out@[b] == old_out[b - 1]);
                        }
                    }
                    assert forall|k: int| 0 <= k < out@.len() implies 0 <= #[trigger] wit[k] < i + 1 && gs@[wit[k]]
                        == out@[k] && first_kept_with_key(gs@, wit[k], pos) by {
                        if k < p {
                            assert(wit[k] == old_wit[k]);
                        } else if k > p {
                            assert(wit[k] == old_wit[k - 1]);
                            assert(out@[k] == old_out[k - 1]);
                        }
                    }
                    assert forall|j: int| 0 <= j < i + 1 && (#[trigger] gs@[j]).last_missing.0 < pos implies exists|k: int|
                        0 <= k < out@.len() && #[trigger] out@[k].first_missing == gs@[j].first_missing by {
                        if j == i {
                            assert(out@[p as int].first_missing == gs@[j].first_missing);
                        } else {
                            let k = choose|k: int| 0 <= k < old_out.len() && #[trigger] old_out[k].first_missing
                                == gs@[j].first_missing;
                            if k < p {
                                assert(out@[k] == old_out[k]);
                            } else {
                                assert(out@[k + 1] == old_out[k]);
                            }
                        }
                    }
                }
            }
        }
        i += 1;
    }
    proof {
        assert forall|k: int| 0 <= k < out@.len() implies kept_first(gs@, #[trigger] out@[k], pos) by {
            assert(gs@[wit[k]] == out@[k]);
        }
    }
    out
}

/// Where a read stands after examining `pages` in turn from `position`
/// with `matched` already held: the matches, the position reached, every
/// gap the batches reported, and whether the page is finished.
pub open spec fn run_state(
    pages: Seq<LogPage>,
    f: LogReadFilters,
    limit: nat,
    matched: Seq<TraceEvent>,
    position: u64,
) -> (Seq<TraceEvent>, u64, Seq<Gap>, bool)
    decreases pages.len(),
{
    if pages.len() == 0 {
        (matched, position, Seq::empty(), false)
    } else {
        let st = run_state(pages.drop_last(), f, limit, matched, position);
        let pg = pages.last();
        let s = scan_records(pg.records@, 0, f, limit, st.0, st.1);
        let out = chunk_outcome(pg, f, limit, st.0, st.1);
        (s.0, out.0, st.2 + pg.gaps@, out.1)
    }
}

/// `pages` is what `read` answered, in turn, from the positions the read
/// reached: each batch asked for at the position the earlier ones led to,
/// while the page was not finished, and none of them failed.
pub open spec fn reads_valid<F: Fn(EventSeq, usize) -> Result<LogPage, ServiceError>>(
    read: F,
    pages: Seq<LogPage>,
    f: LogReadFilters,
    limit: nat,
    matched: Seq<TraceEvent>,
    position: u64,
) -> bool
    decreases pages.len(),
{
    if pages.len() == 0 {
        true
    } else {
        let st = run_state(pages.drop_last(), f, limit, matched, position);
        &&& reads_valid(read, pages.drop_last(), f, limit, matched, position)
        &&& !st.3
        &&& read.ensures((EventSeq(st.1), SCAN_CHUNK), Ok::<LogPage, ServiceError>(pages.last()))
        &&& !chunk_fails(pages.last(), f, limit, st.0, st.1)
    }
}

/// `e` is how a read that got `pages` and then `last` fails: the log's own
/// failure, or the failure of that last batch.
pub open spec fn read_fails_with<F: Fn(EventSeq, usize) -> Result<LogPage, ServiceError>>(
    read: F,
    pages: Seq<LogPage>,
    last: Result<LogPage, ServiceError>,
    sid: Seq<char>,
    f: LogReadFilters,
    limit: nat,
    position: u64,
    e: ServiceError,
) -> bool {
    let st = run_state(pages, f, limit, Seq::empty(), position);
    &&& reads_valid(read, pages, f, limit, Seq::empty(), position)
    &&& !st.3
    &&& read.ensures((EventSeq(st.1), SCAN_CHUNK), last)
    &&& match last {
        Err(x) => e == x,
        Ok(pg) => chunk_fails(pg, f, limit, st.0, st.1) && chunk_error(pg, sid, f, limit, st.0, st.1, e),
    }
}

proof fn lemma_reads_valid_prefix<F: Fn(EventSeq, usize) -> Result<LogPage, ServiceError>>(
    read: F,
    pages: Seq<LogPage>,
    f: LogReadFilters,
    limit: nat,
    matched: Seq<TraceEvent>,
    position: u64,
    n: int,
)
    requires
        reads_valid(read, pages, f, limit, matched, position),
        0 <= n <= pages.len(),
    ensures
        reads_valid(read, pages.subrange(0, n), f, limit, matched, position),
    decreases pages.len() - n,
{
    if n < pages.len() {
        lemma_reads_valid_prefix(read, pages, f, limit, matched, position, n + 1);
        assert(pages.subrange(0, n + 1).drop_last() =~= pages.subrange(0, n));
    } else {
        assert(pages.subrange(0, n) =~= pages);
    }
}

proof fn lemma_same_prefix<F: Fn(EventSeq, usize) -> Result<LogPage, ServiceError>>(
    read: F,
    f: LogReadFilters,
    limit: nat,
    start: u64,
    pages1: Seq<LogPage>,
    pages2: Seq<LogPage>,
    i: int,
)
    requires
        forall|p: EventSeq, c: usize, a: Result<LogPage, ServiceError>, b: Result<LogPage, ServiceError>|
            read.ensures((p, c), a) && read.ensures((p, c), b) ==> a == b,
        reads_valid(read, pages1, f, limit, Seq::empty(), start),
        reads_valid(read, pages2, f, limit, Seq::empty(), start),
        0 <= i <= pages1.len(),
        i <= pages2.len(),
    ensures
        pages1.subrange(0, i) == pages2.subrange(0, i),
    decreases i,
{
    if i > 0 {
        lemma_same_prefix(read, f, limit, start, pages1, pages2, i - 1);
        lemma_reads_valid_prefix(read, pages1, f, limit, Seq::empty(), start, i);
        lemma_reads_valid_prefix(read, pages2, f, limit, Seq::empty(), start, i);
        let q1 = pages1.subrange(0, i);
        let q2 = pages2.subrange(0, i);
        assert(q1.drop_last() =~= pages1.subrange(0, i - 1));
        assert(q2.drop_last() =~= pages2.subrange(0, i - 1));
        assert(q1.last() == q2.last());
        assert(q1 =~= q2);
    }
}

/// A log that always answers a read at a position the same way gives the
/// same page to every read from the same position with the same filters
/// and limit: reading is repeatable, consumes nothing, and one reader does
/// not change what another reads.
pub proof fn law_read_is_repeatable<F: Fn(EventSeq, usize) -> Result<LogPage, ServiceError>>(
    read: F,
    f: LogReadFilters,
    limit: nat,
    start: u64,
    pages1: Seq<LogPage>,
    pages2: Seq<LogPage>,
)
    requires
        forall|p: EventSeq, c: usize, a: Result<LogPage, ServiceError>, b: Result<LogPage, ServiceError>|
            read.ensures((p, c), a) && read.ensures((p, c), b) ==> a == b,
        reads_valid(read, pages1, f, limit, Seq::empty(), start),
        run_state(pages1, f, limit, Seq::empty(), start).3,
        reads_valid(read, pages2, f, limit, Seq::empty(), start),
        run_state(pages2, f, limit, Seq::empty(), start).3,
    ensures
        pages1 == pages2,
        run_state(pages1, f, limit, Seq::empty(), start) == run_state(pages2, f, limit, Seq::empty(), start),
{
    let m = if pages1.len() < pages2.len() { pages1.len() as int } else { pages2.len() as int };
    lemma_same_prefix(read, f, limit, start, pages1, pages2, m);
    if pages1.len() < pages2.len() {
        lemma_reads_valid_prefix(read, pages2, f, limit, Seq::empty(), start, m + 1);
        assert(pages2.subrange(0, m + 1).drop_last() =~= pages2.subrange(0, m));
        assert(pages1 =~= pages1.subrange(0, m));
        assert(false);
    } else if pages2.len() < pages1.len() {
        lemma_reads_valid_prefix(read, pages1, f, limit, Seq::empty(), start, m + 1);
        assert(pages1.subrange(0, m + 1).drop_last() =~= pages1.subrange(0, m));
        assert(pages2 =~= pages2.subrange(0, m));
        assert(false);
    } else {
        assert(pages1 =~= pages1.subrange(0, m));
        assert(pages2 =~= pages2.subrange(0, m));
    }
}

/// Index of the first record of `log` from `i` whose position is at least
/// `p`; `log.len()` when there is none.
pub open spec fn first_from(log: Seq<LogRecord>, p: u64, i: int) -> int
    decreases log.len() - i,
{
    if i < 0 || i >= log.len() {
        log.len() as int
    } else if log[i].seq.0 >= p {
        i
    } else {
        first_from(log, p, i + 1)
    }
}

/// A fixed log: positions strictly ascending, every record readable, and
/// all of them below `end`, the position after the log.
pub open spec fn ordered_log(log: Seq<LogRecord>, end: u64) -> bool {
    &&& forall|a: int, b: int| 0 <= a < b < log.len() ==> log[a].seq.0 < log[b].seq.0
    &&& forall|k: int| 0 <= k < log.len() ==> record_ok(#[trigger] log[k]) && log[k].seq.0 < end
}

/// `pg` is how the fixed log answers a read of `c` records from `p`: the
/// next `c` records at or after `p`; exhausted when they reach the end of
/// the log, and then ending at the log's end (never before `p`), else just
/// after the last record handed back.
pub open spec fn answers_from(log: Seq<LogRecord>, end: u64, p: u64, c: nat, pg: LogPage) -> bool {
    let j = first_from(log, p, 0);
    let stop = if j + c < log.len() { j + c } else { log.len() as int };
    &&& pg.records@ == log.subrange(j, stop)
    &&& pg.exhausted == (stop == log.len())
    &&& pg.position_after.0 == (if stop == log.len() {
        if end > p { end } else { p }
    } else {
        (log[stop - 1].seq.0 + 1) as u64
    })
}

/// The page of at most `k` matches that the fixed log holds from `p`: the
/// first `k` matching events at or after `p`, and the position just after
/// the last record examined; with fewer than `k` matches, the log's end.
pub open spec fn page_from(log: Seq<LogRecord>, end: u64, f: LogReadFilters, k: nat, p: u64) -> (Seq<TraceEvent>, u64) {
    let r = scan_records(log, first_from(log, p, 0), f, k, Seq::empty(), p);
    if r.0.len() >= k {
        (r.0, r.1)
    } else {
        (r.0, if end > p { end } else { p })
    }
}

proof fn lemma_first_from(log: Seq<LogRecord>, p: u64, i: int)
    requires
        0 <= i <= log.len(),
    ensures
        i <= first_from(log, p, i) <= log.len(),
        forall|k: int| i <= k < first_from(log, p, i) ==> log[k].seq.0 < p,
        first_from(log, p, i) < log.len() ==> log[first_from(log, p, i)].seq.0 >= p,
    decreases log.len() - i,
{
    if i < log.len() && log[i].seq.0 < p {
        lemma_first_from(log, p, i + 1);
    }
}

proof fn lemma_first_after(log: Seq<LogRecord>, end: u64, t: int)
    requires
        ordered_log(log, end),
        0 < t <= log.len(),
    ensures
        first_from(log, (log[t - 1].seq.0 + 1) as u64, 0) == t,
{
    assert(record_ok(log[t - 1]));
    let q = (log[t - 1].seq.0 + 1) as u64;
    lemma_first_from(log, q, 0);
    let r = first_from(log, q, 0);
    if r < t {
        if r < t - 1 {
            assert(log[r].seq.0 < log[t - 1].seq.0);
        }
    } else if r > t {
        assert(log[t].seq.0 < q);
        assert(log[t - 1].seq.0 < log[t].seq.0);
    }
}

proof fn lemma_first_past_end(log: Seq<LogRecord>, end: u64, p: u64)
    requires
        ordered_log(log, end),
        p >= end,
    ensures
        first_from(log, p, 0) == log.len(),
{
    lemma_first_from(log, p, 0);
    let r = first_from(log, p, 0);
    if r < log.len() {
        assert(record_ok(log[r]));
    }
}

/// Where a scan stops, its position is just after the last record it
/// examined, or where it started when it examined none.
proof fn lemma_scan_pos(recs: Seq<LogRecord>, i: int, f: LogReadFilters, k: nat, m: Seq<TraceEvent>, p: u64)
    requires
        0 <= i <= recs.len(),
    ensures
        ({
            let r = scan_records(recs, i, f, k, m, p);
            &&& r.2 > i ==> r.1 == (recs[r.2 - 1].seq.0 + 1) as u64
            &&& r.2 == i ==> r.1 == p && r.0 == m
        }),
    decreases recs.len() - i,
{
    lemma_scan_records(recs, i, f, k, m, p);
    if i < recs.len() && m.len() < k && record_ok(recs[i]) {
        let e = recs[i].event->Some_0;
        let m2 = if filters_match(f, e) { m.push(e) } else { m };
        lemma_scan_pos(recs, i + 1, f, k, m2, (recs[i].seq.0 + 1) as u64);
        lemma_scan_records(recs, i + 1, f, k, m2, (recs[i].seq.0 + 1) as u64);
    }
}

/// Scanning a batch cut out of the log is scanning the log there: up to
/// the batch's end, or to where the limit is reached inside it.
proof fn lemma_scan_chunk(
    log: Seq<LogRecord>,
    end: u64,
    j: int,
    cl: int,
    i: int,
    f: LogReadFilters,
    k: nat,
    m: Seq<TraceEvent>,
    p: u64,
)
    requires
        ordered_log(log, end),
        0 <= j,
        0 <= i <= cl,
        j + cl <= log.len(),
    ensures
        ({
            let chunk = log.subrange(j, j + cl);
            let s = scan_records(chunk, i, f, k, m, p);
            &&& s.0.len() >= k ==> scan_records(log, j + i, f, k, m, p) == (s.0, s.1, j + s.2)
            &&& s.0.len() < k ==> s.2 == cl && scan_records(log, j + i, f, k, m, p) == scan_records(
                log,
                j + cl,
                f,
                k,
                s.0,
                s.1,
            )
        }),
    decreases cl - i,
{
    let chunk = log.subrange(j, j + cl);
    if i < cl && m.len() < k {
        assert(chunk[i] == log[j + i]);
        assert(record_ok(log[j + i]));
        let e = log[j + i].event->Some_0;
        let m2 = if filters_match(f, e) { m.push(e) } else { m };
        lemma_scan_chunk(log, end, j, cl, i + 1, f, k, m2, (log[j + i].seq.0 + 1) as u64);
        assert(scan_records(log, j + i, f, k, m, p) == scan_records(log, j + i + 1, f, k, m2, (log[j + i].seq.0 + 1) as u64));
    }
}

/// A larger limit goes the same way as far as the smaller one went.
proof fn lemma_scan_longer(
    log: Seq<LogRecord>,
    end: u64,
    i: int,
    f: LogReadFilters,
    n: nat,
    big: nat,
    m: Seq<TraceEvent>,
    p: u64,
)
    requires
        ordered_log(log, end),
        0 <= i <= log.len(),
        n <= big,
        m.len() <= n,
    ensures
        ({
            let g = scan_records(log, i, f, n, m, p);
            scan_records(log, i, f, big, m, p) == scan_records(log, g.2, f, big, g.0, g.1)
        }),
    decreases log.len() - i,
{
    if i < log.len() && m.len() < n {
        assert(record_ok(log[i]));
        let e = log[i].event->Some_0;
        let m2 = if filters_match(f, e) { m.push(e) } else { m };
        lemma_scan_longer(log, end, i + 1, f, n, big, m2, (log[i].seq.0 + 1) as u64);
    }
}

/// Matches already held only sit in front of what the scan adds.
proof fn lemma_scan_shift(
    recs: Seq<LogRecord>,
    i: int,
    f: LogReadFilters,
    k: nat,
    x: Seq<TraceEvent>,
    y: Seq<TraceEvent>,
    p: u64,
)
    ensures
        ({
            let a = scan_records(recs, i, f, k + x.len(), x + y, p);
            let b = scan_records(recs, i, f, k, y, p);
            a == (x + b.0, b.1, b.2)
        }),
    decreases recs.len() - i,
{
    if !(i < 0 || i >= recs.len() || y.len() >= k || !record_ok(recs[i])) {
        let e = recs[i].event->Some_0;
        let y2 = if filters_match(f, e) { y.push(e) } else { y };
        lemma_scan_shift(recs, i + 1, f, k, x, y2, (recs[i].seq.0 + 1) as u64);
        if filters_match(f, e) {
            assert((x + y).push(e) =~= x + y2);
        }
    }
}

/// Where a read over the fixed log stands after its first `i` batches.
proof fn lemma_read_prefix<F: Fn(EventSeq, usize) -> Result<LogPage, ServiceError>>(
    read: F,
    log: Seq<LogRecord>,
    end: u64,
    f: LogReadFilters,
    k: nat,
    p: u64,
    pages: Seq<LogPage>,
    i: int,
)
    requires
        ordered_log(log, end),
        forall|q: EventSeq, c: usize, a: Result<LogPage, ServiceError>| #[trigger] read.ensures((q, c), a) ==> (a matches Ok(
            pg,
        ) && answers_from(log, end, q.0, c as nat, pg)),
        k > 0,
        reads_valid(read, pages, f, k, Seq::empty(), p),
        0 <= i <= pages.len(),
    ensures
        ({
            let st = run_state(pages.subrange(0, i), f, k, Seq::empty(), p);
            &&& !st.3 ==> {
                &&& st.0.len() < k
                &&& st.1 >= p
                &&& (st.1 == p || st.1 <= end)
                &&& scan_records(log, first_from(log, p, 0), f, k, Seq::empty(), p) == scan_records(
                    log,
                    first_from(log, st.1, 0),
                    f,
                    k,
                    st.0,
                    st.1,
                )
            }
            &&& st.3 ==> (st.0, st.1) == page_from(log, end, f, k, p)
        }),
    decreases i,
{
    if i == 0 {
        assert(pages.subrange(0, 0) =~= Seq::<LogPage>::empty());
    } else {
        lemma_read_prefix(read, log, end, f, k, p, pages, i - 1);
        lemma_reads_valid_prefix(read, pages, f, k, Seq::empty(), p, i);
        let pre = pages.subrange(0, i - 1);
        let cur = pages.subrange(0, i);
        assert(cur.drop_last() =~= pre);
        let st = run_state(pre, f, k, Seq::empty(), p);
        let pg = cur.last();
        assert(!st.3);
        assert(read.ensures((EventSeq(st.1), SCAN_CHUNK), Ok::<LogPage, ServiceError>(pg)));
        assert(answers_from(log, end, st.1, SCAN_CHUNK as nat, pg));
        let j = first_from(log, st.1, 0);
        lemma_first_from(log, st.1, 0);
        let stop = if j + SCAN_CHUNK < log.len() { j + SCAN_CHUNK } else { log.len() as int };
        let cl = stop - j;
        assert(pg.records@ == log.subrange(j, j + cl));
        let s = scan_records(pg.records@, 0, f, k, st.0, st.1);
        lemma_scan_chunk(log, end, j, cl, 0, f, k, st.0, st.1);
        lemma_scan_records(pg.records@, 0, f, k, st.0, st.1);
        lemma_first_from(log, p, 0);
        let r = scan_records(log, first_from(log, p, 0), f, k, Seq::empty(), p);
        if s.0.len() >= k {
            assert(r == (s.0, s.1, j + s.2));
        } else if stop == log.len() {
            assert(scan_records(log, log.len() as int, f, k, s.0, s.1) == (s.0, s.1, log.len() as int));
            assert(r.0 == s.0);
        } else {
            lemma_scan_pos(pg.records@, 0, f, k, st.0, st.1);
            assert(pg.records@[cl - 1] == log[stop - 1]);
            assert(s.1 == (log[stop - 1].seq.0 + 1) as u64);
            lemma_first_after(log, end, stop);
            assert(record_ok(log[stop - 1]));
            if stop - 1 > j {
                assert(log[j].seq.0 < log[stop - 1].seq.0);
            }
        }
    }
}

/// A read over a fixed log that finishes gives exactly the log's page: the
/// first `k` matching events from where it starts, and the position just
/// after the last record it examined (the log's end when fewer match).
pub proof fn law_read_is_the_log_page<F: Fn(EventSeq, usize) -> Result<LogPage, ServiceError>>(
    read: F,
    log: Seq<LogRecord>,
    end: u64,
    f: LogReadFilters,
    k: nat,
    p: u64,
    pages: Seq<LogPage>,
)
    requires
        ordered_log(log, end),
        forall|q: EventSeq, c: usize, a: Result<LogPage, ServiceError>| #[trigger] read.ensures((q, c), a) ==> (a matches Ok(
            pg,
        ) && answers_from(log, end, q.0, c as nat, pg)),
        k > 0,
        reads_valid(read, pages, f, k, Seq::empty(), p),
        run_state(pages, f, k, Seq::empty(), p).3,
    ensures
        (run_state(pages, f, k, Seq::empty(), p).0, run_state(pages, f, k, Seq::empty(), p).1) == page_from(
            log,
            end,
            f,
            k,
            p,
        ),
{
    lemma_read_prefix(read, log, end, f, k, p, pages, pages.len() as int);
    assert(pages.subrange(0, pages.len() as int) =~= pages);
}

/// Two pages of the fixed log read one after the other, at most `n` then
/// at most `m` matches, are one page of at most `n + m`.
proof fn lemma_page_split(log: Seq<LogRecord>, end: u64, f: LogReadFilters, n: nat, m: nat, p: u64)
    requires
        ordered_log(log, end),
        n > 0,
        m > 0,
    ensures
        ({
            let first = page_from(log, end, f, n, p);
            let second = page_from(log, end, f, m, first.1);
            page_from(log, end, f, n + m, p) == (first.0 + second.0, second.1)
        }),
{
    let j0 = first_from(log, p, 0);
    lemma_first_from(log, p, 0);
    let g1 = scan_records(log, j0, f, n, Seq::empty(), p);
    lemma_scan_records(log, j0, f, n, Seq::empty(), p);
    lemma_scan_longer(log, end, j0, f, n, n + m, Seq::empty(), p);
    let first = page_from(log, end, f, n, p);
    if g1.0.len() >= n {
        let t = g1.2;
        lemma_scan_pos(log, j0, f, n, Seq::empty(), p);
        assert(t > j0);
        lemma_first_after(log, end, t);
        assert(first.1 == g1.1);
        let g2 = scan_records(log, t, f, m, Seq::empty(), g1.1);
        lemma_scan_shift(log, t, f, m, g1.0, Seq::empty(), g1.1);
        assert(g1.0 + Seq::<TraceEvent>::empty() =~= g1.0);
        assert(m + g1.0.len() == n + m);
        lemma_scan_records(log, t, f, m, Seq::empty(), g1.1);
        assert(record_ok(log[t - 1]));
        if t - 1 > j0 {
            assert(log[j0].seq.0 < log[t - 1].seq.0);
        }
    } else {
        assert(g1.2 == log.len());
        let e = if end > p { end } else { p };
        lemma_first_past_end(log, end, e);
        assert(scan_records(log, log.len() as int, f, m, Seq::empty(), e) == (Seq::<TraceEvent>::empty(), e, log.len() as int));
        assert(scan_records(log, log.len() as int, f, n + m, g1.0, g1.1) == (g1.0, g1.1, log.len() as int));
        assert(g1.0 + Seq::<TraceEvent>::empty() =~= g1.0);
    }
}

/// Never re-read, never skip: over a fixed log, a page of at most `n`
/// matches followed by a page of at most `m` matches read from where the
/// first one stopped hand back exactly the events, and end exactly where,
/// a single page of at most `n + m` matches from the same start does.
pub proof fn law_consecutive_pages_are_one_page<F: Fn(EventSeq, usize) -> Result<LogPage, ServiceError>>(
    read: F,
    log: Seq<LogRecord>,
    end: u64,
    f: LogReadFilters,
    n: nat,
    m: nat,
    start: u64,
    pages1: Seq<LogPage>,
    pages2: Seq<LogPage>,
    pages3: Seq<LogPage>,
)
    requires
        ordered_log(log, end),
        forall|q: EventSeq, c: usize, a: Result<LogPage, ServiceError>| #[trigger] read.ensures((q, c), a) ==> (a matches Ok(
            pg,
        ) && answers_from(log, end, q.0, c as nat, pg)),
        n > 0,
        m > 0,
        reads_valid(read, pages1, f, n, Seq::empty(), start),
        run_state(pages1, f, n, Seq::empty(), start).3,
        reads_valid(read, pages2, f, m, Seq::empty(), run_state(pages1, f, n, Seq::empty(), start).1),
        run_state(pages2, f, m, Seq::empty(), run_state(pages1, f, n, Seq::empty(), start).1).3,
        reads_valid(read, pages3, f, n + m, Seq::empty(), start),
        run_state(pages3, f, n + m, Seq::empty(), start).3,
    ensures
        run_state(pages3, f, n + m, Seq::empty(), start).0 == run_state(pages1, f, n, Seq::empty(), start).0
            + run_state(pages2, f, m, Seq::empty(), run_state(pages1, f, n, Seq::empty(), start).1).0,
        run_state(pages3, f, n + m, Seq::empty(), start).1 == run_state(
            pages2,
            f,
            m,
            Seq::empty(),
            run_state(pages1, f, n, Seq::empty(), start).1,
        ).1,
{
    let p1 = run_state(pages1, f, n, Seq::empty(), start).1;
    law_read_is_the_log_page(read, log, end, f, n, start, pages1);
    law_read_is_the_log_page(read, log, end, f, m, p1, pages2);
    law_read_is_the_log_page(read, log, end, f, n + m, start, pages3);
    lemma_page_split(log, end, f, n, m, start);
}

/// What a page read answers, given what `read` answers: see
/// `read_page_with`.
pub open spec fn page_read_outcome<F: Fn(EventSeq, usize) -> Result<LogPage, ServiceError>>(
    read: F,
    session_id: Seq<char>,
    cursor: EventsCursorV1,
    limit: usize,
    filters: LogReadFilters,
    retained_from: EventSeq,
    tail_seq: Option<EventSeq>,
    tail_state: TailState,
    r: Result<LogReadPage, ServiceError>,
) -> bool {
    &&& (r matches Ok(page) ==> {
            &&& page.next.spec_session() == cursor.spec_session()
            &&& page.next.spec_schema() == cursor.spec_schema()
            &&& page.next.spec_next() == page.position_after.0
            &&& page.position_after.0 >= cursor.spec_next()
            &&& page.records@.len() <= limit
            &&& forall|k: int| 0 <= k < page.records@.len() ==> filters_match(filters, #[trigger] page.records@[k])
            &&& forall|a: int, b: int| 0 <= a < b < page.gaps@.len() ==> page.gaps@[a].first_missing.0
                < page.gaps@[b].first_missing.0
            &&& forall|k: int| 0 <= k < page.gaps@.len() ==> (#[trigger] page.gaps@[k]).last_missing.0
                < page.position_after.0
            &&& page.completeness.status == completeness_status(
                cursor.spec_next(),
                page.position_after.0,
                page.gaps@,
                tail_seq,
            )
            &&& page.completeness.scope@ == examined_range_scope()
            &&& page.completeness.from_seq == cursor.spec_next()
            &&& page.completeness.to_seq_exclusive == page.position_after.0
            &&& page.retention.retained_from_seq == retained_from.0
            &&& page.retention.history_truncated == (retained_from.0 > 0)
            &&& page.tail.state == tail_wire(tail_state)
            &&& page.tail.tail_seq == (if tail_state == TailState::Unknown {
                None::<u64>
            } else {
                match tail_seq {
                    Some(s) => Some(s.0),
                    None => None,
                }
            })
        })
    &&& (limit > 0 ==> (r matches Ok(page) ==> exists|pages: Seq<LogPage>|
            #[trigger] reads_valid(read, pages, filters, limit as nat, Seq::empty(), cursor.spec_next()) && {
                let st = run_state(pages, filters, limit as nat, Seq::empty(), cursor.spec_next());
                &&& st.3
                &&& page.records@ == st.0
                &&& page.position_after.0 == st.1
                &&& gaps_normalized(page.gaps@, st.2, st.1)
            }))
    &&& (limit > 0 ==> (r matches Err(e) ==> (exists|pages: Seq<LogPage>, last: Result<LogPage, ServiceError>|
            #[trigger] read_fails_with(read, pages, last, session_id, filters, limit as nat, cursor.spec_next(), e))
            || (e == ServiceError::InvalidCursorPayload && exists|pages: Seq<LogPage>|
            #[trigger] reads_valid(read, pages, filters, limit as nat, Seq::empty(), cursor.spec_next()) && {
                let st = run_state(pages, filters, limit as nat, Seq::empty(), cursor.spec_next());
                st.3 && st.1 < cursor.spec_next()
            })))
    &&& (limit == 0 ==> (r matches Ok(page) && page.records@.len() == 0 && page.gaps@.len() == 0
            && page.position_after.0 == cursor.spec_next()))
}

/// Read up to `limit` matching records starting at `cursor.next_seq()`
/// through `read` (position, batch size) and return the page and the
/// cursor for the next read. Each batch goes through `scan_chunk`; the read
/// stops when `limit` matches are held, when the log is exhausted, or on
/// the first failure.
///
/// A returned page is exactly what examining the log's answers in turn
/// gives (`run_state`): its records are the matches, its position the
/// position reached, and its gaps those the batches reported, normalized
/// against that position. It hands out a cursor for the same session at
/// that position, scopes its completeness to
/// `[cursor.next_seq(), position_after)`, and carries the retention and
/// tail facts of the log. A failed read is the log's failure or the
/// failure of the last batch (`read_fails_with`). With `limit == 0`
/// nothing is read and the cursor does not move.
pub fn read_page_with<F>(
    session_id: &str,
    cursor: &EventsCursorV1,
    limit: usize,
    filters: &LogReadFilters,
    retained_from: EventSeq,
    tail_seq: Option<EventSeq>,
    tail_state: &TailState,
    read: F,
) -> (r: Result<LogReadPage, ServiceError>) where F: Fn(EventSeq, usize) -> Result<LogPage, ServiceError>
    requires
        forall|p: EventSeq, c: usize| read.requires((p, c)),
    ensures
        page_read_outcome(read, session_id@, *cursor, limit, *filters, retained_from, tail_seq, *tail_state, r),

{
    let mut position = cursor.next_seq();
    let mut matched: Vec<TraceEvent> = Vec::new();
    let mut gaps: Vec<Gap> = Vec::new();
    let ghost start = position.0;
    let ghost mut pages: Seq<LogPage> = Seq::empty();
    if limit > 0 {
        loop
            invariant_except_break
                !run_state(pages, *filters, limit as nat, Seq::empty(), start).3,
            invariant
                limit > 0,
                start == cursor.spec_next(),
                forall|p: EventSeq, c: usize| read.requires((p, c)),
                matched@.len() <= limit,
                forall|k: int| 0 <= k < matched@.len() ==> filters_match(*filters, #[trigger] matched@[k]),
                reads_valid(read, pages, *filters, limit as nat, Seq::empty(), start),
                ({
                    let st = run_state(pages, *filters, limit as nat, Seq::empty(), start);
                    &&& matched@ == st.0
                    &&& position.0 == st.1
                    &&& gaps@ == st.2
                }),
            ensures
                run_state(pages, *filters, limit as nat, Seq::empty(), start).3,
            decreases u64::MAX - position.0,
        {
            let answer = read(position, SCAN_CHUNK);
            let page = match answer {
                Ok(p) => p,
                Err(e) => {
                    proof {
                        assert(read_fails_with(read, pages, answer, session_id@, *filters, limit as nat, start, e));
                    }
                    return Err(e);
                },
            };
            let ghost before = matched@;
            proof {
                lemma_scan_records(page.records@, 0, *filters, limit as nat, before, position.0);
            }
            let step = scan_chunk(session_id, limit, filters, position, &mut matched, &mut gaps, &page);
            let (p, fin) = match step {
                Ok(x) => x,
                Err(e) => {
                    proof {
                        assert(read_fails_with(read, pages, Ok::<LogPage, ServiceError>(page), session_id@, *filters, limit as nat, start, e));
                    }
                    return Err(e);
                },
            };
            proof {
                let s = scan_records(page.records@, 0, *filters, limit as nat, before, position.0);
                assert forall|k: int| 0 <= k < matched@.len() implies filters_match(*filters, #[trigger] matched@[k]) by {
                    if k < before.len() {
                        assert(s.0[k] == before[k]);
                    }
                }
                let np = pages.push(page);
                assert(np.drop_last() =~= pages);
                pages = np;
            }
            position = p;
            if fin {
                break;
            }
        }
    }
    proof {
        if limit == 0 {
            assert(gaps@.len() == 0);
        }
    }
    let gaps = normalize_gaps(&gaps, position.0);
    proof {
        if limit == 0 && gaps@.len() > 0 {
            assert(kept_first(Seq::<Gap>::empty(), gaps@[0], position.0));
        }
    }
    let next = match cursor.clone().advanced_to(position) {
        Ok(c) => c,
        Err(_) => {
            return Err(ServiceError::InvalidCursorPayload);
        },
    };
    let from_seq = cursor.next_seq();
    let completeness = completeness_for(session_id, from_seq, position, gaps.as_slice(), tail_seq);
    let retention = RetentionFacts::from_retained_from(retained_from);
    let tail = TailFacts::from_log_tail(tail_state, tail_seq);
    Ok(LogReadPage { records: matched, next, position_after: position, gaps, completeness, retention, tail })
}

/// A page holds only events inside every bound the filters set: at or
/// after the start time, at or before the end time, on the requested
/// thread, of a listed type, in a function whose name contains the
/// pattern. Whatever `read` answered.
pub proof fn law_page_respects_filters<F: Fn(EventSeq, usize) -> Result<LogPage, ServiceError>>(
    read: F,
    session_id: Seq<char>,
    cursor: EventsCursorV1,
    limit: usize,
    filters: LogReadFilters,
    retained_from: EventSeq,
    tail_seq: Option<EventSeq>,
    tail_state: TailState,
    page: LogReadPage,
    k: int,
)
    requires
        page_read_outcome(
            read,
            session_id,
            cursor,
            limit,
            filters,
            retained_from,
            tail_seq,
            tail_state,
            Ok::<LogReadPage, ServiceError>(page),
        ),
        0 <= k < page.records@.len(),
    ensures
        filters.timestamp_start matches Some(s) ==> page.records@[k].timestamp_ns >= s,
        filters.timestamp_end matches Some(x) ==> page.records@[k].timestamp_ns <= x,
        filters.thread_id matches Some(t) ==> page.records@[k].thread_id == t,
        filters.event_types matches Some(ts) ==> ts@.contains(page.records@[k].event_type),
        filters.function_pattern matches Some(p) ==> (page.records@[k].location.function matches Some(name)
            && contains_sub(vstd::utf8::encode_utf8(name@), vstd::utf8::encode_utf8(p@))),
{
    assert(filters_match(filters, page.records@[k]));
}

/// The filters drop nothing they do not name: with no filter set every
/// event passes, and a filter that only bounds time keeps exactly the
/// events whose time lies within the bounds.
pub proof fn law_filters_keep_what_they_allow(f: LogReadFilters, e: TraceEvent)
    ensures
        (f.event_types is None && f.thread_id is None && f.timestamp_start is None && f.timestamp_end is None
            && f.function_pattern is None) ==> filters_match(f, e),
        (f.event_types is None && f.thread_id is None && f.function_pattern is None) ==> (filters_match(f, e) <==> (
        (f.timestamp_start matches Some(s) ==> e.timestamp_ns >= s) && (f.timestamp_end matches Some(x)
            ==> e.timestamp_ns <= x))),
{
}

/// Index of the first record from `i` that either does not decode or is
/// the event `id`; `recs.len()` when there is none.
pub open spec fn first_hit(recs: Seq<LogRecord>, id: u64, i: int) -> int
    decreases recs.len() - i,
{
    if i < 0 || i >= recs.len() {
        recs.len() as int
    } else if (recs[i].event matches Some(e) && e.event_id != id) {
        first_hit(recs, id, i + 1)
    } else {
        i
    }
}

proof fn lemma_first_hit(recs: Seq<LogRecord>, id: u64, i: int)
    requires
        0 <= i <= recs.len(),
    ensures
        i <= first_hit(recs, id, i) <= recs.len(),
    decreases recs.len() - i,
{
    if i < recs.len() && (recs[i].event matches Some(e) && e.event_id != id) {
        lemma_first_hit(recs, id, i + 1);
    }
}

/// Look for the event `id` in one batch: the first record that does not
/// decode fails the search (an unreadable record is not "not here"), the
/// first record holding the event answers it.
pub fn find_in_page(session_id: &str, event_id: u64, records: &Vec<LogRecord>) -> (r: Result<
    Option<TraceEvent>,
    ServiceError,
>)
    ensures
        ({
            let h = first_hit(records@, event_id, 0);
            if h == records@.len() {
                r matches Ok(None)
            } else {
                let rec = records@[h];
                match rec.event {
                    Some(e) => r matches Ok(Some(found)) && found == e && found.event_id == event_id,
                    None => r matches Err(ServiceError::EvidenceDecodeFailed { session_id: sid, seq, payload_tag })
                        && sid@ == session_id@ && seq == rec.seq.0 && payload_tag@ == rec.payload_tag@,
                }
            }
        }),
{
    proof {
        lemma_first_hit(records@, event_id, 0);
    }
    let mut i: usize = 0;
    while i < records.len()
        invariant
            0 <= i <= records@.len(),
            first_hit(records@, event_id, 0) == first_hit(records@, event_id, i as int),
        decreases records@.len() - i,
    {
        let rec = &records[i];
        match &rec.event {
            None => {
                return Err(ServiceError::EvidenceDecodeFailed {
                    session_id: session_id.to_owned(),
                    seq: rec.seq.0,
                    payload_tag: rec.payload_tag.clone(),
                });
            },
            Some(e) => {
                if e.event_id == event_id {
                    return Ok(Some(e.clone()));
                }
            },
        }
        i += 1;
    }
    Ok(None)
}

/// A by-id scan goes on past `page`, read at `position`: the batch holds
/// neither the event nor an undecodable record, the log is not exhausted,
/// and the batch moved the position forward.
pub open spec fn find_goes_on(page: LogPage, id: u64, position: u64) -> bool {
    &&& first_hit(page.records@, id, 0) == page.records@.len()
    &&& !page.exhausted
    &&& page.position_after.0 > position
}

/// Where a by-id scan from `position` stands after `pages`.
pub open spec fn find_position(pages: Seq<LogPage>, position: u64) -> u64 {
    if pages.len() == 0 {
        position
    } else {
        pages.last().position_after.0
    }
}

/// `pages` is what `read` answered, in turn, to a by-id scan from
/// `position` for `id`, each batch letting the scan go on.
pub open spec fn find_reads_valid<F: Fn(EventSeq, usize) -> Result<LogPage, ServiceError>>(
    read: F,
    pages: Seq<LogPage>,
    id: u64,
    position: u64,
) -> bool
    decreases pages.len(),
{
    if pages.len() == 0 {
        true
    } else {
        let at = find_position(pages.drop_last(), position);
        &&& find_reads_valid(read, pages.drop_last(), id, position)
        &&& read.ensures((EventSeq(at), SCAN_CHUNK), Ok::<LogPage, ServiceError>(pages.last()))
        &&& find_goes_on(pages.last(), id, at)
    }
}

/// How a by-id scan that went on through `pages` ends with the answer
/// `last` to its next read: with the event, with `None` when the log is
/// exhausted without it, or with the log's failure, the undecodable record
/// met first, or a stall at the position it could not move from.
pub open spec fn find_ends_with<F: Fn(EventSeq, usize) -> Result<LogPage, ServiceError>>(
    read: F,
    pages: Seq<LogPage>,
    last: Result<LogPage, ServiceError>,
    sid: Seq<char>,
    id: u64,
    position: u64,
    r: Result<Option<TraceEvent>, ServiceError>,
) -> bool {
    let at = find_position(pages, position);
    &&& find_reads_valid(read, pages, id, position)
    &&& read.ensures((EventSeq(at), SCAN_CHUNK), last)
    &&& match last {
        Err(x) => r == Err::<Option<TraceEvent>, ServiceError>(x),
        Ok(pg) => {
            let h = first_hit(pg.records@, id, 0);
            if h < pg.records@.len() {
                match pg.records@[h].event {
                    Some(e) => r == Ok::<Option<TraceEvent>, ServiceError>(Some(e)),
                    None => r matches Err(ServiceError::EvidenceDecodeFailed { session_id: x, seq, payload_tag })
                        && x@ == sid && seq == pg.records@[h].seq.0 && payload_tag@ == pg.records@[h].payload_tag@,
                }
            } else if pg.exhausted {
                r == Ok::<Option<TraceEvent>, ServiceError>(None)
            } else {
                &&& pg.position_after.0 <= at
                &&& r matches Err(ServiceError::EvidenceReadStalled { session_id: x, position: p }) && x@ == sid
                    && p == at
            }
        },
    }
}

/// Scan the log from `from_seq` for the event `event_id`, batch by batch
/// through `read`, with the same progress rule as `read_page_with`: a
/// batch that claims more data but does not move the position is a
/// stalled read, never a loop. The answer is exactly how the scan ends
/// over the log's answers (`find_ends_with`); a found event is always the
/// one asked for.
pub fn find_by_id_with<F>(session_id: &str, event_id: u64, from_seq: EventSeq, read: F) -> (r: Result<
    Option<TraceEvent>,
    ServiceError,
>) where F: Fn(EventSeq, usize) -> Result<LogPage, ServiceError>
    requires
        forall|p: EventSeq, c: usize| read.requires((p, c)),
    ensures
        exists|pages: Seq<LogPage>, last: Result<LogPage, ServiceError>|
            #[trigger] find_ends_with(read, pages, last, session_id@, event_id, from_seq.0, r),
        r matches Ok(Some(e)) ==> e.event_id == event_id,
{
    let mut position = from_seq;
    let ghost mut pages: Seq<LogPage> = Seq::empty();
    loop
        invariant
            forall|p: EventSeq, c: usize| read.requires((p, c)),
            find_reads_valid(read, pages, event_id, from_seq.0),
            position.0 == find_position(pages, from_seq.0),
        decreases u64::MAX - position.0,
    {
        let start_position = position;
        let answer = read(position, SCAN_CHUNK);
        let page = match answer {
            Ok(p) => p,
            Err(e) => {
                let r = Err(e);
                proof {
                    assert(find_ends_with(read, pages, answer, session_id@, event_id, from_seq.0, r));
                }
                return r;
            },
        };
        proof {
            lemma_first_hit(page.records@, event_id, 0);
        }
        let found = find_in_page(session_id, event_id, &page.records);
        let hit = match found {
            Ok(h) => h,
            Err(e) => {
                let r = Err(e);
                proof {
                    assert(find_ends_with(read, pages, Ok::<LogPage, ServiceError>(page), session_id@, event_id, from_seq.0, r));
                }
                return r;
            },
        };
        if hit.is_some() {
            let r = Ok(hit);
            proof {
                assert(find_ends_with(read, pages, Ok::<LogPage, ServiceError>(page), session_id@, event_id, from_seq.0, r));
            }
            return r;
        }
        if page.exhausted {
            let r = Ok(None);
            proof {
                assert(find_ends_with(read, pages, Ok::<LogPage, ServiceError>(page), session_id@, event_id, from_seq.0, r));
            }
            return r;
        }
        if page.position_after.0 <= position.0 {
            let r = Err(ServiceError::EvidenceReadStalled { session_id: session_id.to_owned(), position: position.0 });
            proof {
                assert(find_ends_with(read, pages, Ok::<LogPage, ServiceError>(page), session_id@, event_id, from_seq.0, r));
            }
            return r;
        }
        position = page.position_after;
        proof {
            let np = pages.push(page);
            assert(np.drop_last() =~= pages);
            pages = np;
        }
    }
}

/// Final answer of a by-id lookup over the retained region: a found event
/// stands; not finding it is an honest `None` only when no history was
/// retired, and otherwise the event may have lived in retired history.
pub fn resolve_by_id(found: Option<TraceEvent>, retained_from: EventSeq) -> (r: Result<Option<TraceEvent>, ServiceError>)
    ensures
        found is Some ==> r == Ok::<Option<TraceEvent>, ServiceError>(found),
        found is None && retained_from.0 > 0 ==> r == Err::<Option<TraceEvent>, ServiceError>(
            ServiceError::EvidenceUnavailableDueToRetention { retained_from: retained_from.0 },
        ),
        found is None && retained_from.0 == 0 ==> r == Ok::<Option<TraceEvent>, ServiceError>(None),
{
    if found.is_some() {
        return Ok(found);
    }
    if retained_from.0 > 0 {
        return Err(ServiceError::EvidenceUnavailableDueToRetention { retained_from: retained_from.0 });
    }
    Ok(None)
}

/// A cursor may only be used against the log of its own session.
pub fn check_cursor_session(cursor: &EventsCursorV1, log_session: &SessionId) -> (r: Result<(), ServiceError>)
    ensures
        cursor.spec_session() == log_session@ ==> r is Ok,
        cursor.spec_session() != log_session@ ==> (r matches Err(ServiceError::NoExecutionLog(msg)) && msg@
            == "cursor for session "@ + cursor.spec_session() + " used against log for "@ + log_session@),
{
    if cursor.session_id().same(log_session) {
        return Ok(());
    }
    let mut msg = "cursor for session ".to_owned();
    push_str(&mut msg, cursor.session_id().as_str());
    push_str(&mut msg, " used against log for ");
    push_str(&mut msg, log_session.as_str());
    Err(ServiceError::NoExecutionLog(msg))
}

/// What the read path knows of a session's execution log besides its
/// records: whose log it is, the earliest position it still serves, and
/// its tail.
#[derive(Debug)]
pub struct ExecutionLogFacts {
    pub session_id: SessionId,
    pub retained_from: EventSeq,
    pub tail_seq: Option<EventSeq>,
    pub tail_state: TailState,
}

/// Read up to `limit` matching records of `log` from `cursor`, the log's
/// batches coming from `read` (position, batch size). A cursor of another
/// session is refused before anything is read; otherwise the page is what
/// `read_page_with` gives for the log's retention and tail facts.
pub fn read_page<F>(
    log: &ExecutionLogFacts,
    cursor: &EventsCursorV1,
    limit: usize,
    filters: &LogReadFilters,
    read: F,
) -> (r: Result<LogReadPage, ServiceError>) where F: Fn(EventSeq, usize) -> Result<LogPage, ServiceError>
    requires
        forall|p: EventSeq, c: usize| read.requires((p, c)),
    ensures
        cursor.spec_session() != log.session_id@ ==> (r matches Err(ServiceError::NoExecutionLog(msg)) && msg@
            == "cursor for session "@ + cursor.spec_session() + " used against log for "@ + log.session_id@),
        cursor.spec_session() == log.session_id@ ==> page_read_outcome(
            read,
            log.session_id@,
            *cursor,
            limit,
            *filters,
            log.retained_from,
            log.tail_seq,
            log.tail_state,
            r,
        ),
{
    match check_cursor_session(cursor, &log.session_id) {
        Err(e) => Err(e),
        Ok(()) => read_page_with(
            log.session_id.as_str(),
            cursor,
            limit,
            filters,
            log.retained_from,
            log.tail_seq,
            &log.tail_state,
            read,
        ),
    }
}

/// The answer of a by-id lookup once the scan of the retained region
/// answered `found`: see `resolve_by_id`.
pub open spec fn resolved(found: Result<Option<TraceEvent>, ServiceError>, retained_from: u64) -> Result<
    Option<TraceEvent>,
    ServiceError,
> {
    match found {
        Err(e) => Err(e),
        Ok(Some(e)) => Ok(Some(e)),
        Ok(None) => if retained_from > 0 {
            Err(ServiceError::EvidenceUnavailableDueToRetention { retained_from })
        } else {
            Ok(None)
        },
    }
}

/// Look up the event `event_id` in `log`: a scan of the retained region
/// (`find_by_id_with` from the retention boundary), whose `None` is only
/// an answer when no history was retired.
pub fn find_by_id<F>(log: &ExecutionLogFacts, event_id: u64, read: F) -> (r: Result<Option<TraceEvent>, ServiceError>) where
    F: Fn(EventSeq, usize) -> Result<LogPage, ServiceError>,

    requires
        forall|p: EventSeq, c: usize| read.requires((p, c)),
    ensures
        exists|pages: Seq<LogPage>, last: Result<LogPage, ServiceError>, found: Result<Option<TraceEvent>, ServiceError>|
            #[trigger] find_ends_with(read, pages, last, log.session_id@, event_id, log.retained_from.0, found) && r
                == resolved(found, log.retained_from.0),
        r matches Ok(Some(e)) ==> e.event_id == event_id,
{
    let found = find_by_id_with(log.session_id.as_str(), event_id, log.retained_from, read);
    match found {
        Err(e) => Err(e),
        Ok(f) => resolve_by_id(f, log.retained_from),
    }
}

/// A failure reported by the execution log.
#[derive(Debug, Clone, PartialEq, Eq)]
pub enum LogError {
    /// The requested position lies before what the log still retains.
    PositionBeforeRetention { requested_next_seq: EventSeq, retained_from: EventSeq },
    /// Any other failure, by its diagnostic text.
    Other(String),
}

/// Retention is not evidence loss: a position before the boundary is a
/// typed `CursorStale` carrying both numbers; anything else is a drain
/// failure with the log's diagnostic text.
pub fn map_log_error(e: LogError) -> (r: ServiceError)
    ensures
        e matches LogError::PositionBeforeRetention { requested_next_seq, retained_from } ==> r
            == (ServiceError::CursorStale {
            requested_next_seq: requested_next_seq.0,
            retained_from_seq: retained_from.0,
        }),
        e matches LogError::Other(text) ==> (r matches ServiceError::DrainFailed(m) && m == text),
{
    match e {
        LogError::PositionBeforeRetention { requested_next_seq, retained_from } => ServiceError::CursorStale {
            requested_next_seq: requested_next_seq.0,
            retained_from_seq: retained_from.0,
        },
        LogError::Other(text) => ServiceError::DrainFailed(text),
    }
}

} // verus!
