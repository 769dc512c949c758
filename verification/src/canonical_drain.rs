//! The canonical probe-drain reader: one scan over a session's execution
//! log, one truth per record kind. A `Raw` record is decoded and projected,
//! a `TripwireFired` record is counted as durable firing evidence, and a
//! gap (recorded or marked) makes the examined range `GapDetected`.

use vstd::prelude::*;
use crate::error::ServiceError;
use crate::events_cursor::{EventSeq, EventsCursorV1, SessionId, EVENTS_CURSOR_V1_SCHEMA};
use crate::events_log_read::{
    Completeness, CompletenessReport, ExecutionKind, LogPage, LogRecord, examined_range_scope,
};
use crate::text::{dec, dec_string, push_str};
use crate::trace::TraceEvent;

verus! {

/// Default number of `Raw` events a drain page returns.
pub const DEFAULT_MAX_RAW_EVENTS: usize = 512;

/// Default cap on records examined per page (a cost bound, not a truth bound).
pub const DEFAULT_MAX_EXAMINED_RECORDS: u64 = 50_000;

/// Default cap on derived firings that may follow one `Raw` record.
pub const DEFAULT_MAX_DERIVED_PER_SOURCE: usize = 4_096;

/// Records read per batch by the drain page.
pub const DRAIN_BATCH: usize = 512;

/// Records read per batch by the full raw scan.
pub const RAW_SCAN_BATCH: usize = 1024;

/// Every durable `Raw` record of a session, decoded, in log order.
#[derive(Debug)]
pub struct CanonicalRawScan {
    pub events: Vec<TraceEvent>,
    /// Completeness of the range that was read.
    pub completeness: CompletenessReport,
    /// Records examined, of every kind.
    pub examined_records: u64,
}

/// One canonical probe-drain page; `S` is the projected event type.
#[derive(Debug)]
pub struct CanonicalDrainPage<S> {
    /// Projection of the `Raw` records of this page.
    pub events: Vec<S>,
    /// Number of `TripwireFired` records examined.
    pub tripwires_fired: usize,
    /// Positions of those firings, in the order examined.
    pub firing_seqs: Vec<EventSeq>,
    /// Cursor to hand back: after the last examined record.
    pub next_cursor: EventsCursorV1,
    /// Records examined, of every kind.
    pub examined_records: u64,
    /// `Raw` events returned.
    pub raw_events: usize,
    /// Completeness of the examined range.
    pub completeness: CompletenessReport,
    /// The scan reached the end of what the log holds.
    pub exhausted: bool,
}

/// Progress of a drain page over the records examined so far.
pub struct DrainScan<S> {
    pub events: Vec<S>,
    pub firing_seqs: Vec<EventSeq>,
    pub examined: u64,
    pub position: EventSeq,
    pub derived_since_raw: usize,
    pub gap_seen: bool,
}

/// The text of the refusal of a cluster with too many derived firings.
pub open spec fn too_many_derived_text(max_derived: nat, seq: nat) -> Seq<char> {
    "probe_drain found more than "@ + dec(max_derived) + " derived firings for one source at seq "@ + dec(seq)
}

/// The text of the refusal of a cursor inside a derived cluster.
pub open spec fn not_at_boundary_text(from: nat, source: nat) -> Seq<char> {
    "probe_drain cursor is not at a logical Raw boundary: seq "@ + dec(from) + " is a derived firing of source "@
        + dec(source) + "; resume from "@ + dec(source) + " or from a Raw boundary"@
}

/// What a drain page knows after some records: the decoded `Raw` events
/// (before projection), the positions of the firings, the records
/// examined, the position reached, the firings since the last `Raw`, and
/// whether a gap was seen.
pub struct DrainModel {
    pub raws: Seq<TraceEvent>,
    pub firings: Seq<EventSeq>,
    pub examined: u64,
    pub position: u64,
    pub derived: usize,
    pub gap_seen: bool,
}

/// Caps of a drain page.
pub struct DrainLimits {
    pub max_raw: nat,
    pub max_examined: u64,
    pub max_derived: usize,
}

/// The page stops before `rec`: the last requested `Raw` is held and `rec`
/// is not one of its derived firings, or the examination budget is spent.
pub open spec fn drain_rec_stops(m: DrainModel, rec: LogRecord, lim: DrainLimits) -> bool {
    (m.raws.len() >= lim.max_raw && rec.kind != ExecutionKind::TripwireFired) || m.examined >= lim.max_examined
}

/// `rec` cannot be examined: it has no position after it, it is a `Raw`
/// that does not decode, or it is one firing too many for its source.
pub open spec fn drain_rec_fails(m: DrainModel, rec: LogRecord, lim: DrainLimits) -> bool {
    ||| rec.seq.0 == u64::MAX
    ||| (rec.kind == ExecutionKind::Raw && rec.event is None)
    ||| (rec.kind == ExecutionKind::TripwireFired && m.derived >= lim.max_derived)
}

/// The error of a record that cannot be examined.
pub open spec fn drain_rec_error(m: DrainModel, rec: LogRecord, sid: Seq<char>, lim: DrainLimits, e: ServiceError) -> bool {
    if rec.seq.0 == u64::MAX {
        e matches ServiceError::EvidenceReadStalled { session_id: x, position: p } && x@ == sid && p == rec.seq.0
    } else if rec.kind == ExecutionKind::Raw {
        e matches ServiceError::EvidenceDecodeFailed { session_id: x, seq, payload_tag } && x@ == sid && seq
            == rec.seq.0 && payload_tag@ == rec.payload_tag@
    } else {
        e matches ServiceError::InvalidInput(msg) && msg@ == too_many_derived_text(lim.max_derived as nat, rec.seq.0 as nat)
    }
}

/// The model after examining `rec`: a `Raw` event is kept and restarts
/// the derived count, a firing is counted with its position, a gap marker
/// marks the range; the position moves just past `rec`.
pub open spec fn drain_rec_next(m: DrainModel, rec: LogRecord) -> DrainModel {
    let n = DrainModel { examined: (m.examined + 1) as u64, position: (rec.seq.0 + 1) as u64, ..m };
    match rec.kind {
        ExecutionKind::Raw => DrainModel { raws: m.raws.push(rec.event->Some_0), derived: 0, ..n },
        ExecutionKind::TripwireFired => DrainModel {
            firings: m.firings.push(rec.seq),
            derived: (m.derived + 1) as usize,
            ..n
        },
        ExecutionKind::GapMarker => DrainModel { gap_seen: true, ..n },
    }
}

/// `events` are the projections of `raws`, one for one.
pub open spec fn projected<S, P: Fn(&TraceEvent) -> S>(project: P, raws: Seq<TraceEvent>, events: Seq<S>) -> bool {
    &&& events.len() == raws.len()
    &&& forall|k: int| 0 <= k < raws.len() ==> project.ensures((&raws[k],), #[trigger] events[k])
}

/// `scan` holds what the model `m` knows, its events projected.
pub open spec fn scan_holds<S, P: Fn(&TraceEvent) -> S>(scan: DrainScan<S>, m: DrainModel, project: P) -> bool {
    &&& projected(project, m.raws, scan.events@)
    &&& scan.firing_seqs@ == m.firings
    &&& scan.examined == m.examined
    &&& scan.position.0 == m.position
    &&& scan.derived_since_raw == m.derived
    &&& scan.gap_seen == m.gap_seen
}

/// Examine one record of a drain page (`drain_rec_stops`,
/// `drain_rec_fails`, `drain_rec_next`): the answer is `Ok(true)` when the
/// page stops before it, with nothing changed; an error when it cannot be
/// examined; otherwise `Ok(false)` with the record examined.
pub(crate) fn drain_record<S, P>(
    session_id: &str,
    scan: &mut DrainScan<S>,
    rec: &LogRecord,
    max_raw: usize,
    max_examined: u64,
    max_derived: usize,
    project: &P,
    model: Ghost<DrainModel>,
) -> (r: Result<bool, ServiceError>) where P: Fn(&TraceEvent) -> S
    requires
        forall|e: &TraceEvent| project.requires((e,)),
        scan_holds(*old(scan), model@, *project),
    ensures
        ({
            let lim = DrainLimits { max_raw: max_raw as nat, max_examined, max_derived };
            if drain_rec_stops(model@, *rec, lim) {
                r == Ok::<bool, ServiceError>(true) && scan_holds(*final(scan), model@, *project)
            } else if drain_rec_fails(model@, *rec, lim) {
                r matches Err(e) && drain_rec_error(model@, *rec, session_id@, lim, e)
            } else {
                r == Ok::<bool, ServiceError>(false) && scan_holds(*final(scan), drain_rec_next(model@, *rec), *project)
            }
        }),
{
    if (scan.events.len() >= max_raw && rec.kind != ExecutionKind::TripwireFired) || scan.examined >= max_examined {
        return Ok(true);
    }
    if rec.seq.0 == u64::MAX {
        return Err(ServiceError::EvidenceReadStalled { session_id: session_id.to_owned(), position: rec.seq.0 });
    }
    match rec.kind {
        ExecutionKind::Raw => {
            match &rec.event {
                None => {
                    return Err(ServiceError::EvidenceDecodeFailed {
                        session_id: session_id.to_owned(),
                        seq: rec.seq.0,
                        payload_tag: rec.payload_tag.clone(),
                    });
                },
                Some(event) => {
                    let projected_event = project(event);
                    let ghost before = scan.events@;
                    scan.events.push(projected_event);
                    proof {
                        let raws = model@.raws.push(*event);
                        assert forall|k: int| 0 <= k < raws.len() implies project.ensures(
                            (&raws[k],),
                            #[trigger] scan.events@[k],
                        ) by {
                            if k < before.len() {
                                assert(scan.events@[k] == before[k]);
                            }
                        }
                    }
                    scan.derived_since_raw = 0;
                },
            }
        },
        ExecutionKind::TripwireFired => {
            if scan.derived_since_raw >= max_derived {
                let mut msg = "probe_drain found more than ".to_owned();
                let m = dec_string(max_derived as u64);
                push_str(&mut msg, m.as_str());
                push_str(&mut msg, " derived firings for one source at seq ");
                let q = dec_string(rec.seq.0);
                push_str(&mut msg, q.as_str());
                return Err(ServiceError::InvalidInput(msg));
            }
            scan.derived_since_raw = scan.derived_since_raw + 1;
            scan.firing_seqs.push(rec.seq);
        },
        ExecutionKind::GapMarker => {
            scan.gap_seen = true;
        },
    }
    scan.position = EventSeq::new(rec.seq.0 + 1);
    scan.examined = scan.examined + 1;
    Ok(false)
}

/// Examine `recs` from index `i` with `drain_rec_*`: the model reached,
/// the index where examination ended, and whether the page stopped there
/// (an index before the end without a stop is a record that cannot be
/// examined).
pub open spec fn drain_recs(m: DrainModel, recs: Seq<LogRecord>, i: int, lim: DrainLimits) -> (DrainModel, int, bool)
    decreases recs.len() - i,
{
    if i < 0 || i >= recs.len() {
        (m, recs.len() as int, false)
    } else if drain_rec_stops(m, recs[i], lim) {
        (m, i, true)
    } else if drain_rec_fails(m, recs[i], lim) {
        (m, i, false)
    } else {
        drain_recs(drain_rec_next(m, recs[i]), recs, i + 1, lim)
    }
}

/// Where a drain page stands after a batch: going on from a model,
/// finished (with whether the log is exhausted), or failed.
pub enum DrainStep {
    Go(DrainModel),
    Done(DrainModel, bool),
    Fail,
}

/// The model before a batch's records: a reported gap marks the range.
pub open spec fn with_batch_gaps(m: DrainModel, page: LogPage) -> DrainModel {
    DrainModel { gap_seen: m.gap_seen || page.gaps@.len() > 0, ..m }
}

/// One batch of a drain page read at `m.position`: its records are
/// examined in turn; a stop finishes the page, an exhausted log finishes
/// it at the end of what it holds, a batch ending before the position
/// reached or not moving past `m.position` fails, and otherwise the page
/// goes on from the batch's end.
pub open spec fn drain_page_step(m: DrainModel, page: LogPage, lim: DrainLimits) -> DrainStep {
    let t = drain_recs(with_batch_gaps(m, page), page.records@, 0, lim);
    if t.2 {
        DrainStep::Done(t.0, false)
    } else if t.1 < page.records@.len() {
        DrainStep::Fail
    } else if page.exhausted {
        DrainStep::Done(t.0, true)
    } else if page.position_after.0 < t.0.position || page.position_after.0 <= m.position {
        DrainStep::Fail
    } else {
        DrainStep::Go(DrainModel { position: page.position_after.0, ..t.0 })
    }
}

/// The error of a failing batch.
pub open spec fn drain_page_error(m: DrainModel, page: LogPage, sid: Seq<char>, lim: DrainLimits, e: ServiceError) -> bool {
    let t = drain_recs(with_batch_gaps(m, page), page.records@, 0, lim);
    if t.1 < page.records@.len() {
        drain_rec_error(t.0, page.records@[t.1], sid, lim, e)
    } else if page.position_after.0 < t.0.position {
        e matches ServiceError::EvidenceReadStalled { session_id: x, position: p } && x@ == sid && p == t.0.position
    } else {
        e matches ServiceError::EvidenceReadStalled { session_id: x, position: p } && x@ == sid && p
            == page.position_after.0
    }
}

/// Where a drain page stands after the batches `pages`, from `m0`.
pub open spec fn drain_run(pages: Seq<LogPage>, m0: DrainModel, lim: DrainLimits) -> DrainStep
    decreases pages.len(),
{
    if pages.len() == 0 {
        DrainStep::Go(m0)
    } else {
        match drain_run(pages.drop_last(), m0, lim) {
            DrainStep::Go(m) => drain_page_step(m, pages.last(), lim),
            other => other,
        }
    }
}

/// `pages` is what `read` answered, in turn, to a drain page from `m0`:
/// each batch asked for at the position reached, while the page went on
/// within its examination budget, and none of them failed.
pub open spec fn drain_reads_valid<F: Fn(EventSeq, usize) -> Result<LogPage, String>>(
    read: F,
    pages: Seq<LogPage>,
    m0: DrainModel,
    lim: DrainLimits,
) -> bool
    decreases pages.len(),
{
    if pages.len() == 0 {
        true
    } else {
        &&& drain_reads_valid(read, pages.drop_last(), m0, lim)
        &&& drain_run(pages.drop_last(), m0, lim) matches DrainStep::Go(m)
        &&& m.examined < lim.max_examined
        &&& read.ensures((EventSeq(m.position), DRAIN_BATCH), Ok::<LogPage, String>(pages.last()))
        &&& !(drain_page_step(m, pages.last(), lim) is Fail)
    }
}

/// How a drain page over `pages` ends: finished by a batch, or by the
/// examination budget before the next read.
pub open spec fn drain_final(pages: Seq<LogPage>, m0: DrainModel, lim: DrainLimits) -> Option<(DrainModel, bool)> {
    match drain_run(pages, m0, lim) {
        DrainStep::Done(m, exhausted) => Some((m, exhausted)),
        DrainStep::Go(m) => if m.examined >= lim.max_examined {
            Some((m, false))
        } else {
            None
        },
        DrainStep::Fail => None,
    }
}

/// The model a drain page starts from at `from`.
pub open spec fn drain_start(from: u64) -> DrainModel {
    DrainModel { raws: Seq::empty(), firings: Seq::empty(), examined: 0, position: from, derived: 0, gap_seen: false }
}

/// The first record at the start is a firing whose source lies before
/// the start: the start is inside a derived cluster.
pub open spec fn head_refuses(head: LogPage, from: u64) -> bool {
    &&& head.records@.len() > 0
    &&& head.records@[0].kind == ExecutionKind::TripwireFired
    &&& head.records@[0].firing_source matches Some(src) && src.0 < from
}

/// The log answered the head read at `from` with `head`, which does not
/// refuse the start, and then the batches `pages`.
pub open spec fn drain_attempt<F: Fn(EventSeq, usize) -> Result<LogPage, String>>(
    read: F,
    head: LogPage,
    pages: Seq<LogPage>,
    from: u64,
    lim: DrainLimits,
) -> bool {
    &&& read.ensures((EventSeq(from), 1usize), Ok::<LogPage, String>(head))
    &&& !head_refuses(head, from)
    &&& drain_reads_valid(read, pages, drain_start(from), lim)
}

/// How a drain page that read `head` and `pages` fails on the answer
/// `last` to its next read.
pub open spec fn drain_fails_with<F: Fn(EventSeq, usize) -> Result<LogPage, String>>(
    read: F,
    head: LogPage,
    pages: Seq<LogPage>,
    last: Result<LogPage, String>,
    sid: Seq<char>,
    from: u64,
    lim: DrainLimits,
    e: ServiceError,
) -> bool {
    &&& drain_attempt(read, head, pages, from, lim)
    &&& drain_run(pages, drain_start(from), lim) matches DrainStep::Go(m)
    &&& m.examined < lim.max_examined
    &&& read.ensures((EventSeq(m.position), DRAIN_BATCH), last)
    &&& match last {
        Err(text) => e matches ServiceError::DrainFailed(msg) && msg@ == "probe_drain read: "@ + text@,
        Ok(pg) => drain_page_step(m, pg, lim) is Fail && drain_page_error(m, pg, sid, lim, e),
    }
}

/// The error of a failed log read, named by the step that made it.
fn read_failure(prefix: &str, detail: &str) -> (r: ServiceError)
    ensures
        r matches ServiceError::DrainFailed(m) && m@ == prefix@ + detail@,
{
    let mut m = prefix.to_owned();
    push_str(&mut m, detail);
    ServiceError::DrainFailed(m)
}

proof fn lemma_drain_reads_prefix<F: Fn(EventSeq, usize) -> Result<LogPage, String>>(
    read: F,
    pages: Seq<LogPage>,
    m0: DrainModel,
    lim: DrainLimits,
    n: int,
)
    requires
        drain_reads_valid(read, pages, m0, lim),
        0 <= n <= pages.len(),
    ensures
        drain_reads_valid(read, pages.subrange(0, n), m0, lim),
    decreases pages.len() - n,
{
    if n < pages.len() {
        lemma_drain_reads_prefix(read, pages, m0, lim, n + 1);
        assert(pages.subrange(0, n + 1).drop_last() =~= pages.subrange(0, n));
    } else {
        assert(pages.subrange(0, n) =~= pages);
    }
}

proof fn lemma_drain_same_prefix<F: Fn(EventSeq, usize) -> Result<LogPage, String>>(
    read: F,
    pages1: Seq<LogPage>,
    pages2: Seq<LogPage>,
    m0: DrainModel,
    lim: DrainLimits,
    i: int,
)
    requires
        forall|p: EventSeq, c: usize, a: Result<LogPage, String>, b: Result<LogPage, String>|
            read.ensures((p, c), a) && read.ensures((p, c), b) ==> a == b,
        drain_reads_valid(read, pages1, m0, lim),
        drain_reads_valid(read, pages2, m0, lim),
        0 <= i <= pages1.len(),
        i <= pages2.len(),
    ensures
        pages1.subrange(0, i) == pages2.subrange(0, i),
    decreases i,
{
    if i > 0 {
        lemma_drain_same_prefix(read, pages1, pages2, m0, lim, i - 1);
        lemma_drain_reads_prefix(read, pages1, m0, lim, i);
        lemma_drain_reads_prefix(read, pages2, m0, lim, i);
        let q1 = pages1.subrange(0, i);
        let q2 = pages2.subrange(0, i);
        assert(q1.drop_last() =~= pages1.subrange(0, i - 1));
        assert(q2.drop_last() =~= pages2.subrange(0, i - 1));
        assert(q1.last() == q2.last());
        assert(q1 =~= q2);
    }
}

/// Over a log that always answers a read at a position the same way, two
/// drain pages from the same start with the same caps read the same
/// batches and end the same: neither transport nor an earlier drain
/// changes what a drain page says.
pub proof fn law_drain_is_repeatable<F: Fn(EventSeq, usize) -> Result<LogPage, String>>(
    read: F,
    from: u64,
    lim: DrainLimits,
    head1: LogPage,
    pages1: Seq<LogPage>,
    head2: LogPage,
    pages2: Seq<LogPage>,
)
    requires
        forall|p: EventSeq, c: usize, a: Result<LogPage, String>, b: Result<LogPage, String>|
            read.ensures((p, c), a) && read.ensures((p, c), b) ==> a == b,
        drain_attempt(read, head1, pages1, from, lim),
        drain_final(pages1, drain_start(from), lim) is Some,
        drain_attempt(read, head2, pages2, from, lim),
        drain_final(pages2, drain_start(from), lim) is Some,
    ensures
        head1 == head2,
        pages1 == pages2,
        drain_final(pages1, drain_start(from), lim) == drain_final(pages2, drain_start(from), lim),
{
    let m0 = drain_start(from);
    let m = if pages1.len() < pages2.len() { pages1.len() as int } else { pages2.len() as int };
    lemma_drain_same_prefix(read, pages1, pages2, m0, lim, m);
    if pages1.len() < pages2.len() {
        lemma_drain_reads_prefix(read, pages2, m0, lim, m + 1);
        assert(pages2.subrange(0, m + 1).drop_last() =~= pages2.subrange(0, m));
        assert(pages1 =~= pages1.subrange(0, m));
        assert(false);
    } else if pages2.len() < pages1.len() {
        lemma_drain_reads_prefix(read, pages1, m0, lim, m + 1);
        assert(pages1.subrange(0, m + 1).drop_last() =~= pages1.subrange(0, m));
        assert(pages2 =~= pages2.subrange(0, m));
        assert(false);
    } else {
        assert(pages1 =~= pages1.subrange(0, m));
        assert(pages2 =~= pages2.subrange(0, m));
    }
}

/// A drain page that stops on its `Raw` budget stops before a record that
/// is not a derived firing: a `Raw` and the firings derived from it are
/// never split across pages.
pub proof fn law_cluster_is_one_unit(m: DrainModel, recs: Seq<LogRecord>, i: int, lim: DrainLimits)
    requires
        0 <= i,
        drain_recs(m, recs, i, lim).2,
        drain_recs(m, recs, i, lim).0.examined < lim.max_examined,
    ensures
        0 <= drain_recs(m, recs, i, lim).1 < recs.len(),
        recs[drain_recs(m, recs, i, lim).1].kind != ExecutionKind::TripwireFired,
    decreases recs.len() - i,
{
    if i < recs.len() && !drain_rec_stops(m, recs[i], lim) && !drain_rec_fails(m, recs[i], lim) {
        law_cluster_is_one_unit(drain_rec_next(m, recs[i]), recs, i + 1, lim);
    }
}

/// What a drain page answers, given what `read` answers: see
/// `read_canonical_drain_page`.
pub open spec fn drain_outcome<S, F: Fn(EventSeq, usize) -> Result<LogPage, String>, P: Fn(&TraceEvent) -> S>(
    read: F,
    project: P,
    session: Seq<char>,
    from: u64,
    lim: DrainLimits,
    r: Result<CanonicalDrainPage<S>, ServiceError>,
) -> bool {
    match r {
        Ok(page) => exists|head: LogPage, pages: Seq<LogPage>|
            #[trigger] drain_attempt(read, head, pages, from, lim) && match drain_final(pages, drain_start(from), lim) {
                Some((m, exhausted)) => {
                    &&& projected(project, m.raws, page.events@)
                    &&& page.firing_seqs@ == m.firings
                    &&& page.raw_events == m.raws.len()
                    &&& page.tripwires_fired == m.firings.len()
                    &&& page.examined_records == m.examined
                    &&& page.exhausted == exhausted
                    &&& page.next_cursor.spec_session() == session
                    &&& page.next_cursor.spec_schema() == EVENTS_CURSOR_V1_SCHEMA
                    &&& page.next_cursor.spec_next() == m.position
                    &&& page.completeness.status == (if m.gap_seen {
                        Completeness::GapDetected
                    } else {
                        Completeness::Complete
                    })
                    &&& page.completeness.scope@ == examined_range_scope()
                    &&& page.completeness.from_seq == from
                    &&& page.completeness.to_seq_exclusive == m.position
                },
                None => false,
            },
        Err(e) => {
            ||| exists|text: String| #[trigger] read.ensures((EventSeq(from), 1usize), Err::<LogPage, String>(text))
                && (e matches ServiceError::DrainFailed(msg) && msg@ == "probe_drain head read: "@ + text@)
            ||| exists|head: LogPage| #[trigger] read.ensures((EventSeq(from), 1usize), Ok::<LogPage, String>(head))
                && head_refuses(head, from) && (e matches ServiceError::InvalidInput(msg) && msg@
                == not_at_boundary_text(from as nat, head.records@[0].firing_source->Some_0.0 as nat))
            ||| exists|head: LogPage, pages: Seq<LogPage>, last: Result<LogPage, String>|
                #[trigger] drain_fails_with(read, head, pages, last, session, from, lim, e)
        },
    }
}

/// The log answers a read at `p` with records at or after `p`, in strictly
/// ascending positions.
pub open spec fn batch_ordered(pg: LogPage, p: u64) -> bool {
    &&& forall|a: int, b: int| 0 <= a < b < pg.records@.len() ==> pg.records@[a].seq.0 < pg.records@[b].seq.0
    &&& forall|k: int| 0 <= k < pg.records@.len() ==> (#[trigger] pg.records@[k]).seq.0 >= p
}

/// The model never went back: its position is at least `from`, and the
/// firings it holds are strictly ascending and all before its position.
pub open spec fn drain_forward(m: DrainModel, from: u64) -> bool {
    &&& m.position >= from
    &&& forall|a: int, b: int| 0 <= a < b < m.firings.len() ==> m.firings[a].0 < m.firings[b].0
    &&& forall|k: int| 0 <= k < m.firings.len() ==> from <= (#[trigger] m.firings[k]).0 < m.position
}

proof fn lemma_drain_recs_forward(m: DrainModel, recs: Seq<LogRecord>, i: int, lim: DrainLimits, from: u64)
    requires
        drain_forward(m, from),
        0 <= i <= recs.len(),
        forall|a: int, b: int| 0 <= a < b < recs.len() ==> recs[a].seq.0 < recs[b].seq.0,
        i < recs.len() ==> recs[i].seq.0 >= m.position,
    ensures
        drain_forward(drain_recs(m, recs, i, lim).0, from),
    decreases recs.len() - i,
{
    if i < recs.len() && !drain_rec_stops(m, recs[i], lim) && !drain_rec_fails(m, recs[i], lim) {
        let n = drain_rec_next(m, recs[i]);
        assert forall|k: int| 0 <= k < n.firings.len() implies from <= (#[trigger] n.firings[k]).0 < n.position by {
            if k < m.firings.len() {
                assert(n.firings[k] == m.firings[k]);
            }
        }
        assert forall|a: int, b: int| 0 <= a < b < n.firings.len() implies n.firings[a].0 < n.firings[b].0 by {
            if b < m.firings.len() {
                assert(n.firings[a] == m.firings[a] && n.firings[b] == m.firings[b]);
            } else {
                assert(n.firings[a] == m.firings[a]);
                assert(m.firings[a].0 < m.position);
            }
        }
        assert(drain_forward(n, from));
        lemma_drain_recs_forward(n, recs, i + 1, lim, from);
    }
}

proof fn lemma_drain_run_forward<F: Fn(EventSeq, usize) -> Result<LogPage, String>>(
    read: F,
    pages: Seq<LogPage>,
    from: u64,
    lim: DrainLimits,
)
    requires
        forall|q: EventSeq, c: usize, pg: LogPage| #[trigger] read.ensures((q, c), Ok::<LogPage, String>(pg))
            ==> batch_ordered(pg, q.0),
        drain_reads_valid(read, pages, drain_start(from), lim),
    ensures
        match drain_run(pages, drain_start(from), lim) {
            DrainStep::Go(m) => drain_forward(m, from),
            DrainStep::Done(m, _) => drain_forward(m, from),
            DrainStep::Fail => true,
        },
    decreases pages.len(),
{
    if pages.len() > 0 {
        lemma_drain_run_forward(read, pages.drop_last(), from, lim);
        if let DrainStep::Go(m) = drain_run(pages.drop_last(), drain_start(from), lim) {
            let pg = pages.last();
            assert(read.ensures((EventSeq(m.position), DRAIN_BATCH), Ok::<LogPage, String>(pg)));
            assert(batch_ordered(pg, m.position));
            let g = with_batch_gaps(m, pg);
            if pg.records@.len() > 0 {
                assert(pg.records@[0].seq.0 >= m.position);
            }
            lemma_drain_recs_forward(g, pg.records@, 0, lim, from);
        }
    }
}

/// A drain page over a log that answers every read with records at or
/// after the position read, in ascending order, moves forward: its range
/// ends at or after where it starts, and the firings it hands back come in
/// strictly ascending positions, all inside that range.
pub proof fn law_drain_moves_forward<S, F: Fn(EventSeq, usize) -> Result<LogPage, String>, P: Fn(&TraceEvent) -> S>(
    read: F,
    project: P,
    session: Seq<char>,
    from: u64,
    lim: DrainLimits,
    page: CanonicalDrainPage<S>,
)
    requires
        forall|q: EventSeq, c: usize, pg: LogPage| #[trigger] read.ensures((q, c), Ok::<LogPage, String>(pg))
            ==> batch_ordered(pg, q.0),
        drain_outcome(read, project, session, from, lim, Ok::<CanonicalDrainPage<S>, ServiceError>(page)),
    ensures
        page.completeness.to_seq_exclusive >= page.completeness.from_seq,
        page.completeness.from_seq == from,
        forall|a: int, b: int| 0 <= a < b < page.firing_seqs@.len() ==> page.firing_seqs@[a].0 < page.firing_seqs@[b].0,
        forall|k: int| 0 <= k < page.firing_seqs@.len() ==> from <= (#[trigger] page.firing_seqs@[k]).0
            < page.completeness.to_seq_exclusive,
{
    let (head, pages) = choose|head: LogPage, pages: Seq<LogPage>|
        #[trigger] drain_attempt(read, head, pages, from, lim) && match drain_final(pages, drain_start(from), lim) {
            Some((m, exhausted)) => {
                &&& projected(project, m.raws, page.events@)
                &&& page.firing_seqs@ == m.firings
                &&& page.raw_events == m.raws.len()
                &&& page.tripwires_fired == m.firings.len()
                &&& page.examined_records == m.examined
                &&& page.exhausted == exhausted
                &&& page.next_cursor.spec_session() == session
                &&& page.next_cursor.spec_schema() == EVENTS_CURSOR_V1_SCHEMA
                &&& page.next_cursor.spec_next() == m.position
                &&& page.completeness.status == (if m.gap_seen {
                    Completeness::GapDetected
                } else {
                    Completeness::Complete
                })
                &&& page.completeness.scope@ == examined_range_scope()
                &&& page.completeness.from_seq == from
                &&& page.completeness.to_seq_exclusive == m.position
            },
            None => false,
        };
    lemma_drain_run_forward(read, pages, from, lim);
    let m = drain_final(pages, drain_start(from), lim)->Some_0.0;
    assert(drain_forward(m, from));
}

/// Read one canonical drain page through `read` (position, batch size;
/// failures by their text), projecting each `Raw` event with `project`.
///
/// The page starts at the cursor, or at the retention boundary without
/// one. A start inside a derived cluster (the first record is a firing
/// whose source lies before the start) is refused, never re-anchored.
/// Records are then examined batch by batch (`drain_page_step`) until the
/// page stops, the examination budget is spent, or the log is exhausted.
/// The page is exactly what that examination of the log's answers gives
/// (`drain_outcome`): the projections of the `Raw` events examined, the
/// firings examined with their positions, the count of records examined,
/// a cursor for `session` just past the last examined record, and a range
/// that is `GapDetected` when a gap was reported or marked in it and
/// `Complete` otherwise. It holds at most `max_raw_events` events and
/// stays within the examination budget.
pub fn read_canonical_drain_page<S, F, P>(
    session: &SessionId,
    cursor: Option<&EventsCursorV1>,
    retained_from: EventSeq,
    max_raw_events: usize,
    max_examined_records: u64,
    max_derived_per_source: usize,
    read: F,
    project: P,
) -> (r: Result<CanonicalDrainPage<S>, ServiceError>) where
    F: Fn(EventSeq, usize) -> Result<LogPage, String>,
    P: Fn(&TraceEvent) -> S,

    requires
        forall|p: EventSeq, c: usize| read.requires((p, c)),
        forall|e: &TraceEvent| project.requires((e,)),
    ensures
        drain_outcome(
            read,
            project,
            session@,
            match cursor {
                Some(c) => c.spec_next(),
                None => retained_from.0,
            },
            DrainLimits {
                max_raw: max_raw_events as nat,
                max_examined: max_examined_records,
                max_derived: max_derived_per_source,
            },
            r,
        ),
        r matches Ok(page) ==> {
            &&& page.raw_events <= max_raw_events
            &&& page.examined_records <= max_examined_records
            &&& page.raw_events + page.tripwires_fired <= page.examined_records
        },
{
    let from = match cursor {
        Some(c) => c.next_seq(),
        None => retained_from,
    };
    let ghost lim = DrainLimits {
        max_raw: max_raw_events as nat,
        max_examined: max_examined_records,
        max_derived: max_derived_per_source,
    };
    let session_id = session.as_str();
    let head_answer = read(from, 1);
    let head = match head_answer {
        Ok(p) => p,
        Err(e) => {
            let r = Err(read_failure("probe_drain head read: ", e.as_str()));
            proof {
                assert(read.ensures((EventSeq(from.0), 1usize), Err::<LogPage, String>(e)));
            }
            return r;
        },
    };
    if head.records.len() > 0 {
        let first = &head.records[0];
        if first.kind == ExecutionKind::TripwireFired {
            if let Some(source) = first.firing_source {
                if source.0 < from.0 {
                    let mut msg = "probe_drain cursor is not at a logical Raw boundary: seq ".to_owned();
                    let a = dec_string(from.0);
                    push_str(&mut msg, a.as_str());
                    push_str(&mut msg, " is a derived firing of source ");
                    let b = dec_string(source.0);
                    push_str(&mut msg, b.as_str());
                    push_str(&mut msg, "; resume from ");
                    push_str(&mut msg, b.as_str());
                    push_str(&mut msg, " or from a Raw boundary");
                    let r = Err(ServiceError::InvalidInput(msg));
                    proof {
                        assert(read.ensures((EventSeq(from.0), 1usize), Ok::<LogPage, String>(head)));
                        assert(head_refuses(head, from.0));
                    }
                    return r;
                }
            }
        }
    }
    let mut scan: DrainScan<S> = DrainScan {
        events: Vec::new(),
        firing_seqs: Vec::new(),
        examined: 0,
        position: from,
        derived_since_raw: 0,
        gap_seen: false,
    };
    let ghost mut pages: Seq<LogPage> = Seq::empty();
    let ghost mut m: DrainModel = drain_start(from.0);
    let mut exhausted = false;
    proof {
        assert(drain_attempt(read, head, pages, from.0, lim));
    }
    loop
        invariant_except_break
            drain_run(pages, drain_start(from.0), lim) == DrainStep::Go(m),
            !exhausted,
        invariant
            forall|p: EventSeq, c: usize| read.requires((p, c)),
            forall|e: &TraceEvent| project.requires((e,)),
            session_id@ == session@,
            from.0 == (match cursor {
                Some(c) => c.spec_next(),
                None => retained_from.0,
            }),
            lim == (DrainLimits {
                max_raw: max_raw_events as nat,
                max_examined: max_examined_records,
                max_derived: max_derived_per_source,
            }),
            scan.events@.len() <= max_raw_events,
            scan.examined <= max_examined_records,
            scan.events@.len() + scan.firing_seqs@.len() <= scan.examined,
            scan_holds(scan, m, project),
            drain_attempt(read, head, pages, from.0, lim),
        ensures
            drain_final(pages, drain_start(from.0), lim) == Some((m, exhausted)),
        decreases u64::MAX - scan.position.0,
    {
        if scan.examined >= max_examined_records {
            break;
        }
        let start = scan.position;
        let answer = read(scan.position, DRAIN_BATCH);
        let page = match answer {
            Ok(p) => p,
            Err(e) => {
                let r = Err(read_failure("probe_drain read: ", e.as_str()));
                proof {
                    assert(drain_fails_with(read, head, pages, answer, session@, from.0, lim, r->Err_0));
                    assert(drain_outcome(read, project, session@, from.0, lim, r));
                }
                return r;
            },
        };
        if !scan.gap_seen && page.gaps.len() > 0 {
            scan.gap_seen = true;
        }
        let ghost m0 = m;
        let ghost total = drain_recs(with_batch_gaps(m0, page), page.records@, 0, lim);
        let ghost mut mm = with_batch_gaps(m0, page);
        let mut j: usize = 0;
        let mut stop = false;
        while j < page.records.len() && !stop
            invariant
                0 <= j <= page.records@.len(),
                forall|e: &TraceEvent| project.requires((e,)),
                scan.events@.len() <= max_raw_events,
                scan.examined <= max_examined_records,
                scan.events@.len() + scan.firing_seqs@.len() <= scan.examined,
                scan_holds(scan, mm, project),
                lim == (DrainLimits {
                    max_raw: max_raw_events as nat,
                    max_examined: max_examined_records,
                    max_derived: max_derived_per_source,
                }),
                total == drain_recs(with_batch_gaps(m0, page), page.records@, 0, lim),
                !stop ==> total == drain_recs(mm, page.records@, j as int, lim),
                session_id@ == session@,
                from.0 == (match cursor {
                    Some(c) => c.spec_next(),
                    None => retained_from.0,
                }),
                drain_attempt(read, head, pages, from.0, lim),
                drain_run(pages, drain_start(from.0), lim) == DrainStep::Go(m0),
                m0.examined < max_examined_records,
                read.ensures((EventSeq(m0.position), DRAIN_BATCH), Ok::<LogPage, String>(page)),
                stop ==> j > 0 && total == (mm, (j - 1) as int, true),
            decreases page.records@.len() - j,
        {
            let step = drain_record(
                session_id,
                &mut scan,
                &page.records[j],
                max_raw_events,
                max_examined_records,
                max_derived_per_source,
                &project,
                Ghost(mm),
            );
            match step {
                Ok(b) => {
                    stop = b;
                    proof {
                        if !b {
                            mm = drain_rec_next(mm, page.records@[j as int]);
                        }
                    }
                },
                Err(e) => {
                    let r = Err(e);
                    proof {
                        assert(drain_page_step(m0, page, lim) is Fail);
                        assert(drain_fails_with(read, head, pages, Ok::<LogPage, String>(page), session@, from.0, lim, r->Err_0));
                        assert(drain_outcome(read, project, session@, from.0, lim, r));
                    }
                    return r;
                },
            }
            j += 1;
        }
        proof {
            let np = pages.push(page);
            assert(np.drop_last() =~= pages);
        }
        if stop {
            proof {
                pages = pages.push(page);
                m = mm;
            }
            break;
        }
        if page.exhausted {
            exhausted = true;
            proof {
                pages = pages.push(page);
                m = mm;
            }
            break;
        }
        if page.position_after.0 < scan.position.0 {
            let r = Err(
                ServiceError::EvidenceReadStalled { session_id: session_id.to_owned(), position: scan.position.0 },
            );
            proof {
                assert(drain_fails_with(read, head, pages, Ok::<LogPage, String>(page), session@, from.0, lim, r->Err_0));
                assert(drain_outcome(read, project, session@, from.0, lim, r));
            }
            return r;
        }
        let next = page.position_after;
        if next.0 <= start.0 {
            let r = Err(ServiceError::EvidenceReadStalled { session_id: session_id.to_owned(), position: next.0 });
            proof {
                assert(drain_fails_with(read, head, pages, Ok::<LogPage, String>(page), session@, from.0, lim, r->Err_0));
                assert(drain_outcome(read, project, session@, from.0, lim, r));
            }
            return r;
        }
        scan.position = next;
        proof {
            pages = pages.push(page);
            m = DrainModel { position: next.0, ..mm };
        }
    }
    let position = scan.position;
    let next_cursor = match EventsCursorV1::start(session.clone()).advanced_to(position) {
        Ok(c) => c,
        Err(e) => {
            let mut msg = "probe_drain cursor advance: ".to_owned();
            let detail = e.message();
            push_str(&mut msg, detail.as_str());
            return Err(ServiceError::InvalidInput(msg));
        },
    };
    let status = if scan.gap_seen {
        Completeness::GapDetected
    } else {
        Completeness::Complete
    };
    let completeness = CompletenessReport::examined_range(status, from.0, position.0);
    let raw_events = scan.events.len();
    let tripwires_fired = scan.firing_seqs.len();
    let r = Ok(CanonicalDrainPage {
        events: scan.events,
        tripwires_fired,
        firing_seqs: scan.firing_seqs,
        next_cursor,
        examined_records: scan.examined,
        raw_events,
        completeness,
        exhausted,
    });
    proof {
        assert(drain_attempt(read, head, pages, from.0, lim));
    }
    r
}

/// What a full raw scan knows after some records: the `Raw` events, the
/// position reached, the records examined, and whether a gap was seen.
pub struct RawScanModel {
    pub events: Seq<TraceEvent>,
    pub position: u64,
    pub examined: u64,
    pub gap_seen: bool,
}

/// `rec` cannot be examined: no position exists after it, the count of
/// examined records cannot grow, or it is a `Raw` that does not decode.
pub open spec fn raw_rec_fails(m: RawScanModel, rec: LogRecord) -> bool {
    ||| rec.seq.0 == u64::MAX
    ||| m.examined == u64::MAX
    ||| (rec.kind == ExecutionKind::Raw && rec.event is None)
}

/// The error of a record that cannot be examined.
pub open spec fn raw_rec_error(m: RawScanModel, rec: LogRecord, sid: Seq<char>, e: ServiceError) -> bool {
    if rec.seq.0 == u64::MAX {
        e matches ServiceError::EvidenceReadStalled { session_id: x, position: p } && x@ == sid && p == rec.seq.0
    } else if m.examined == u64::MAX {
        e matches ServiceError::EvidenceReadStalled { session_id: x, position: p } && x@ == sid && p == rec.seq.0 + 1
    } else {
        e matches ServiceError::EvidenceDecodeFailed { session_id: x, seq, payload_tag } && x@ == sid && seq
            == rec.seq.0 && payload_tag@ == rec.payload_tag@
    }
}

/// The model after examining `rec`: a `Raw` event is kept, a gap marker
/// marks the range, a firing is only counted as examined.
pub open spec fn raw_rec_next(m: RawScanModel, rec: LogRecord) -> RawScanModel {
    let n = RawScanModel { position: (rec.seq.0 + 1) as u64, examined: (m.examined + 1) as u64, ..m };
    match rec.kind {
        ExecutionKind::Raw => RawScanModel { events: m.events.push(rec.event->Some_0), ..n },
        ExecutionKind::GapMarker => RawScanModel { gap_seen: true, ..n },
        ExecutionKind::TripwireFired => n,
    }
}

/// Examine `recs` from index `i`: the model reached and the index where
/// examination ended (before the end: a record that cannot be examined).
pub open spec fn raw_recs(m: RawScanModel, recs: Seq<LogRecord>, i: int) -> (RawScanModel, int)
    decreases recs.len() - i,
{
    if i < 0 || i >= recs.len() {
        (m, recs.len() as int)
    } else if raw_rec_fails(m, recs[i]) {
        (m, i)
    } else {
        raw_recs(raw_rec_next(m, recs[i]), recs, i + 1)
    }
}

/// Where a full raw scan stands after a batch read at `m.position`: an
/// empty batch finishes it, a record that cannot be examined or a batch
/// that does not move the position fails it, and otherwise it goes on.
pub enum RawStep {
    Go(RawScanModel),
    Done(RawScanModel),
    Fail,
}

pub open spec fn raw_page_step(m: RawScanModel, page: LogPage) -> RawStep {
    let m1 = RawScanModel { gap_seen: m.gap_seen || page.gaps@.len() > 0, ..m };
    let t = raw_recs(m1, page.records@, 0);
    if page.records@.len() == 0 {
        RawStep::Done(m1)
    } else if t.1 < page.records@.len() || t.0.position <= m.position {
        RawStep::Fail
    } else {
        RawStep::Go(t.0)
    }
}

/// The error of a failing batch.
pub open spec fn raw_page_error(m: RawScanModel, page: LogPage, sid: Seq<char>, e: ServiceError) -> bool {
    let m1 = RawScanModel { gap_seen: m.gap_seen || page.gaps@.len() > 0, ..m };
    let t = raw_recs(m1, page.records@, 0);
    if t.1 < page.records@.len() {
        raw_rec_error(t.0, page.records@[t.1], sid, e)
    } else {
        e matches ServiceError::EvidenceReadStalled { session_id: x, position: p } && x@ == sid && p == t.0.position
    }
}

/// Where a full raw scan stands after the batches `pages`, from `m0`.
pub open spec fn raw_run(pages: Seq<LogPage>, m0: RawScanModel) -> RawStep
    decreases pages.len(),
{
    if pages.len() == 0 {
        RawStep::Go(m0)
    } else {
        match raw_run(pages.drop_last(), m0) {
            RawStep::Go(m) => raw_page_step(m, pages.last()),
            other => other,
        }
    }
}

/// `pages` is what `read` answered, in turn, to a full raw scan from `m0`,
/// each batch asked for at the position reached and none failing.
pub open spec fn raw_reads_valid<F: Fn(EventSeq, usize) -> Result<LogPage, String>>(
    read: F,
    pages: Seq<LogPage>,
    m0: RawScanModel,
) -> bool
    decreases pages.len(),
{
    if pages.len() == 0 {
        true
    } else {
        &&& raw_reads_valid(read, pages.drop_last(), m0)
        &&& raw_run(pages.drop_last(), m0) matches RawStep::Go(m)
        &&& read.ensures((EventSeq(m.position), RAW_SCAN_BATCH), Ok::<LogPage, String>(pages.last()))
        &&& !(raw_page_step(m, pages.last()) is Fail)
    }
}

/// The model a full raw scan starts from.
pub open spec fn raw_start(from: u64) -> RawScanModel {
    RawScanModel { events: Seq::empty(), position: from, examined: 0, gap_seen: false }
}

/// How a full raw scan that read `pages` fails on the answer `last` to its
/// next read: the log's failure, or the failure of that batch.
pub open spec fn raw_scan_fails_with<F: Fn(EventSeq, usize) -> Result<LogPage, String>>(
    read: F,
    pages: Seq<LogPage>,
    last: Result<LogPage, String>,
    sid: Seq<char>,
    from: u64,
    e: ServiceError,
) -> bool {
    &&& raw_reads_valid(read, pages, raw_start(from))
    &&& raw_run(pages, raw_start(from)) matches RawStep::Go(m)
    &&& read.ensures((EventSeq(m.position), RAW_SCAN_BATCH), last)
    &&& match last {
        Err(text) => e matches ServiceError::DrainFailed(msg) && msg@ == "canonical raw scan: "@ + text@,
        Ok(pg) => raw_page_step(m, pg) is Fail && raw_page_error(m, pg, sid, e),
    }
}

/// What a full raw scan from `from` answers, given what `read` answers.
pub open spec fn raw_scan_outcome<F: Fn(EventSeq, usize) -> Result<LogPage, String>>(
    read: F,
    sid: Seq<char>,
    from: u64,
    r: Result<CanonicalRawScan, ServiceError>,
) -> bool {
    match r {
        Ok(scan) => exists|pages: Seq<LogPage>|
            #[trigger] raw_reads_valid(read, pages, raw_start(from)) && match raw_run(pages, raw_start(from)) {
                RawStep::Done(m) => {
                    &&& scan.events@ == m.events
                    &&& scan.examined_records == m.examined
                    &&& scan.completeness.status == (if m.gap_seen {
                        Completeness::GapDetected
                    } else {
                        Completeness::Complete
                    })
                    &&& scan.completeness.scope@ == examined_range_scope()
                    &&& scan.completeness.from_seq == from
                    &&& scan.completeness.to_seq_exclusive == m.position
                },
                _ => false,
            },
        Err(e) => exists|pages: Seq<LogPage>, last: Result<LogPage, String>|
            #[trigger] raw_scan_fails_with(read, pages, last, sid, from, e),
    }
}

/// Read every durable `Raw` record from the retention boundary on,
/// decoded, in log order, through `read`. The scan ends at the first empty
/// batch; an undecodable `Raw` fails it, and a batch that does not move the
/// position forward fails it as stalled. The answer is exactly what
/// examining the log's answers in turn gives (`raw_scan_outcome`): the
/// `Raw` events examined, the count of records examined, and a range from
/// the boundary to the position reached that is `GapDetected` when a gap
/// was recorded or marked and `Complete` otherwise. Firings are examined
/// but never returned as events.
pub fn read_all_raw_events<F>(session_id: &str, retained_from: EventSeq, read: F) -> (r: Result<
    CanonicalRawScan,
    ServiceError,
>) where F: Fn(EventSeq, usize) -> Result<LogPage, String>
    requires
        forall|p: EventSeq, c: usize| read.requires((p, c)),
    ensures
        raw_scan_outcome(read, session_id@, retained_from.0, r),
        r matches Ok(scan) ==> scan.events@.len() <= scan.examined_records,
{
    let mut events: Vec<TraceEvent> = Vec::new();
    let mut position = retained_from;
    let mut examined: u64 = 0;
    let mut gap_seen = false;
    let ghost mut pages: Seq<LogPage> = Seq::empty();
    loop
        invariant
            forall|p: EventSeq, c: usize| read.requires((p, c)),
            events@.len() <= examined,
            raw_reads_valid(read, pages, raw_start(retained_from.0)),
            raw_run(pages, raw_start(retained_from.0)) == (RawStep::Go(
                RawScanModel { events: events@, position: position.0, examined, gap_seen },
            )),
        decreases u64::MAX - position.0,
    {
        let start = position;
        let ghost m = RawScanModel { events: events@, position: position.0, examined, gap_seen };
        let answer = read(position, RAW_SCAN_BATCH);
        let page = match answer {
            Ok(p) => p,
            Err(e) => {
                let r = Err(read_failure("canonical raw scan: ", e.as_str()));
                proof {
                    assert(raw_scan_fails_with(read, pages, answer, session_id@, retained_from.0, r->Err_0));
                }
                return r;
            },
        };
        if !gap_seen && page.gaps.len() > 0 {
            gap_seen = true;
        }
        let ghost m1 = RawScanModel { events: events@, position: position.0, examined, gap_seen };
        let ghost total = raw_recs(m1, page.records@, 0);
        proof {
            let np = pages.push(page);
            assert(np.drop_last() =~= pages);
        }
        if page.records.len() == 0 {
            proof {
                pages = pages.push(page);
            }
            let status = if gap_seen {
                Completeness::GapDetected
            } else {
                Completeness::Complete
            };
            let r = Ok(CanonicalRawScan {
                events,
                completeness: CompletenessReport::examined_range(status, retained_from.0, position.0),
                examined_records: examined,
            });
            proof {
                assert(raw_reads_valid(read, pages, raw_start(retained_from.0)));
            }
            return r;
        }
        let mut j: usize = 0;
        while j < page.records.len()
            invariant
                0 <= j <= page.records@.len(),
                events@.len() <= examined,
                total == raw_recs(
                    RawScanModel { events: events@, position: position.0, examined, gap_seen },
                    page.records@,
                    j as int,
                ),
                total == raw_recs(m1, page.records@, 0),
                m1 == (RawScanModel { gap_seen: m.gap_seen || page.gaps@.len() > 0, ..m }),
                page.records@.len() > 0,
                raw_reads_valid(read, pages, raw_start(retained_from.0)),
                raw_run(pages, raw_start(retained_from.0)) == RawStep::Go(m),
                read.ensures((EventSeq(m.position), RAW_SCAN_BATCH), Ok::<LogPage, String>(page)),
            decreases page.records@.len() - j,
        {
            let rec = &page.records[j];
            if rec.seq.0 == u64::MAX {
                let r = Err(ServiceError::EvidenceReadStalled { session_id: session_id.to_owned(), position: rec.seq.0 });
                proof {
                    assert(raw_scan_fails_with(read, pages, Ok::<LogPage, String>(page), session_id@, retained_from.0, r->Err_0));
                }
                return r;
            }
            if examined == u64::MAX {
                let r = Err(
                    ServiceError::EvidenceReadStalled { session_id: session_id.to_owned(), position: rec.seq.0 + 1 },
                );
                proof {
                    assert(raw_scan_fails_with(read, pages, Ok::<LogPage, String>(page), session_id@, retained_from.0, r->Err_0));
                }
                return r;
            }
            match rec.kind {
                ExecutionKind::Raw => match &rec.event {
                    None => {
                        let r = Err(ServiceError::EvidenceDecodeFailed {
                            session_id: session_id.to_owned(),
                            seq: rec.seq.0,
                            payload_tag: rec.payload_tag.clone(),
                        });
                        proof {
                            assert(raw_scan_fails_with(read, pages, Ok::<LogPage, String>(page), session_id@, retained_from.0, r->Err_0));
                        }
                        return r;
                    },
                    Some(e) => {
                        events.push(e.clone());
                    },
                },
                ExecutionKind::GapMarker => {
                    gap_seen = true;
                },
                ExecutionKind::TripwireFired => {},
            }
            position = EventSeq::new(rec.seq.0 + 1);
            examined = examined + 1;
            j += 1;
        }
        if position.0 <= start.0 {
            let r = Err(ServiceError::EvidenceReadStalled { session_id: session_id.to_owned(), position: position.0 });
            proof {
                assert(raw_scan_fails_with(read, pages, Ok::<LogPage, String>(page), session_id@, retained_from.0, r->Err_0));
            }
            return r;
        }
        proof {
            pages = pages.push(page);
        }
    }
}

} // verus!
