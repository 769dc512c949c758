use chronos_services::error::ServiceError;
use chronos_services::events_cursor::{EventSeq, EventsCursorV1, SessionId};
use chronos_services::events_log_read::{
    check_cursor_session, completeness_for, find_by_id_with, map_log_error, read_page_with,
    resolve_by_id, Completeness, CompletenessReport, ExecutionKind, Gap, LogError, LogPage,
    LogReadFilters, LogReadPage, LogRecord, RetentionFacts, TailFacts, TailState, TailStateWire,
};
use chronos_services::trace::{EventData, EventType, SourceLocation, TraceEvent};

/// An in-memory execution log: records in seq order and recorded gaps.
#[derive(Default)]
struct MemLog {
    records: Vec<(u64, Option<TraceEvent>, String)>,
    gaps: Vec<Gap>,
    retained_from: u64,
}

fn event(i: u64, event_type: EventType) -> TraceEvent {
    TraceEvent::new(
        i,
        i * 10,
        1,
        event_type,
        SourceLocation {
            file: Some("f.rs".to_string()),
            line: Some(i as u32),
            column: None,
            function: Some(format!("fn_{i}")),
            address: 0,
        },
        EventData::Empty,
    )
}

impl MemLog {
    fn with_entries(types: &[EventType]) -> Self {
        let mut log = MemLog::default();
        for (i, t) in types.iter().enumerate() {
            log.push(i as u64, *t);
        }
        log
    }

    fn push(&mut self, seq: u64, t: EventType) {
        self.records.push((seq, Some(event(seq, t)), "trace_event".to_string()));
    }

    fn gap(&mut self, first: u64, last: u64) {
        self.gaps.push(Gap {
            first_missing: EventSeq::new(first),
            last_missing: EventSeq::new(last),
            reason: "AdapterBufferOverflow".into(),
            source: "test".into(),
        });
    }

    fn tail(&self) -> Option<EventSeq> {
        let last_rec = self.records.last().map(|r| r.0);
        let last_gap = self.gaps.iter().map(|g| g.last_missing.0).max();
        match (last_rec, last_gap) {
            (None, None) => None,
            (a, b) => Some(EventSeq::new(a.unwrap_or(0).max(b.unwrap_or(0)))),
        }
    }

    /// One batch: up to `chunk` retained records from `position`, the gaps
    /// passed over, and the position after the batch.
    fn read(&self, position: EventSeq, chunk: usize) -> Result<LogPage, ServiceError> {
        if position.0 < self.retained_from {
            return Err(map_log_error(LogError::PositionBeforeRetention {
                requested_next_seq: position,
                retained_from: EventSeq::new(self.retained_from),
            }));
        }
        let rest: Vec<&(u64, Option<TraceEvent>, String)> =
            self.records.iter().filter(|r| r.0 >= position.0).collect();
        let taken: Vec<&(u64, Option<TraceEvent>, String)> = rest.iter().take(chunk).cloned().collect();
        let exhausted = taken.len() == rest.len();
        let mut end = taken.last().map(|r| r.0 + 1).unwrap_or(position.0);
        if exhausted {
            for g in &self.gaps {
                if g.last_missing.0 + 1 > end {
                    end = g.last_missing.0 + 1;
                }
            }
        }
        let gaps = self
            .gaps
            .iter()
            .filter(|g| g.first_missing.0 >= position.0 && g.first_missing.0 < end)
            .cloned()
            .collect();
        let records = taken
            .into_iter()
            .map(|(seq, e, tag)| LogRecord {
                seq: EventSeq::new(*seq),
                kind: ExecutionKind::Raw,
                event: e.clone(),
                firing_source: None,
                payload_tag: tag.clone(),
            })
            .collect();
        Ok(LogPage { records, gaps, position_after: EventSeq::new(end), exhausted })
    }

    fn read_page(
        &self,
        cursor: &EventsCursorV1,
        limit: usize,
        filters: &LogReadFilters,
    ) -> Result<LogReadPage, ServiceError> {
        read_page_with(
            "mem",
            cursor,
            limit,
            filters,
            EventSeq::new(self.retained_from),
            self.tail(),
            &TailState::Open,
            |p: EventSeq, c: usize| self.read(p, c),
        )
    }

    fn find_by_id(&self, id: u64) -> Result<Option<TraceEvent>, ServiceError> {
        let found = find_by_id_with("mem", id, EventSeq::new(self.retained_from), |p: EventSeq, c: usize| {
            self.read(p, c)
        })?;
        resolve_by_id(found, EventSeq::new(self.retained_from))
    }
}

fn start() -> EventsCursorV1 {
    EventsCursorV1::start(SessionId::new("mem"))
}

fn at(n: u64) -> EventsCursorV1 {
    start().advanced_to(EventSeq::new(n)).unwrap()
}

fn entries(n: usize) -> Vec<EventType> {
    vec![EventType::FunctionEntry; n]
}

fn ids(page: &LogReadPage) -> Vec<u64> {
    page.records.iter().map(|e| e.event_id).collect()
}

fn gappy() -> MemLog {
    let mut log = MemLog::default();
    log.push(0, EventType::FunctionEntry);
    log.gap(1, 3);
    log.push(4, EventType::FunctionEntry);
    log
}

fn faulty(position: EventSeq, _chunk: usize) -> Result<LogPage, ServiceError> {
    Ok(LogPage { records: Vec::new(), gaps: Vec::new(), position_after: position, exhausted: false })
}

fn empty_exhausted(position: EventSeq, _chunk: usize) -> Result<LogPage, ServiceError> {
    Ok(LogPage::empty_at(position))
}

fn wire_page(retained: u64, tail: u64, state: TailState) -> LogReadPage {
    read_page_with(
        "wire-facts",
        &EventsCursorV1::start(SessionId::new("wire-facts")),
        10,
        &LogReadFilters::default(),
        EventSeq::new(retained),
        Some(EventSeq::new(tail)),
        &state,
        empty_exhausted,
    )
    .unwrap()
}

#[test]
fn seq_zero_is_not_lost() {
    let log = MemLog::with_entries(&entries(3));
    let page = log.read_page(&start(), 10, &LogReadFilters::default()).unwrap();
    assert_eq!(page.records.len(), 3, "seq#0 must be delivered");
    assert_eq!(page.records[0].event_id, 0);
    assert_eq!(page.next.next_seq(), EventSeq::new(3));
    assert_eq!(page.completeness.status, Completeness::Complete);
}

#[test]
fn page_boundary_and_exact_resume() {
    let log = MemLog::with_entries(&entries(25));
    let p1 = log.read_page(&start(), 10, &LogReadFilters::default()).unwrap();
    assert_eq!(ids(&p1), (0..10).collect::<Vec<u64>>());
    assert_eq!(p1.next.next_seq(), EventSeq::new(10));
    let p2 = log.read_page(&p1.next, 10, &LogReadFilters::default()).unwrap();
    assert_eq!(ids(&p2), (10..20).collect::<Vec<u64>>(), "resume starts exactly at 10");
    assert_eq!(p2.next.next_seq(), EventSeq::new(20));
    let again = log.read_page(&at(10), 10, &LogReadFilters::default()).unwrap();
    assert_eq!(ids(&again), ids(&p2));
}

#[test]
fn two_readers_are_independent() {
    let log = MemLog::with_entries(&entries(60));
    let a = log.read_page(&at(10), 5, &LogReadFilters::default()).unwrap();
    let b = log.read_page(&at(40), 5, &LogReadFilters::default()).unwrap();
    assert_eq!(a.records.first().unwrap().event_id, 10);
    assert_eq!(b.records.first().unwrap().event_id, 40);
    let a2 = log.read_page(&at(10), 5, &LogReadFilters::default()).unwrap();
    assert_eq!(ids(&a2), ids(&a));
}

#[test]
fn filters_do_not_move_the_position_to_the_match_count() {
    let mut types = entries(151);
    for idx in [103usize, 121, 147] {
        types[idx] = EventType::FunctionExit;
    }
    let log = MemLog::with_entries(&types);
    let filters = LogReadFilters { event_types: Some(vec![EventType::FunctionExit]), ..Default::default() };
    let page = log.read_page(&at(100), 3, &filters).unwrap();
    assert_eq!(ids(&page), vec![103, 121, 147]);
    assert_eq!(
        page.next.next_seq(),
        EventSeq::new(148),
        "cursor must point past the last examined record, not at 3"
    );
}

#[test]
fn t1_limit_larger_than_one_inner_chunk_is_honoured() {
    let log = MemLog::with_entries(&entries(1200));
    let page = log.read_page(&start(), 1000, &LogReadFilters::default()).unwrap();
    assert_eq!(page.records.len(), 1000, "limit must not be capped by SCAN_CHUNK");
    assert_eq!(ids(&page), (0..1000).collect::<Vec<u64>>());
    assert_eq!(page.next.next_seq(), EventSeq::new(1000));
    assert_eq!(page.position_after, EventSeq::new(1000));
}

#[test]
fn t2_matches_beyond_the_first_chunk_are_found() {
    let mut types = entries(1200);
    for idx in [103usize, 721, 1147] {
        types[idx] = EventType::FunctionExit;
    }
    let log = MemLog::with_entries(&types);
    let filters = LogReadFilters { event_types: Some(vec![EventType::FunctionExit]), ..Default::default() };
    let page = log.read_page(&start(), 3, &filters).unwrap();
    assert_eq!(ids(&page), vec![103, 721, 1147], "the scan must continue past the first chunk");
    assert_eq!(page.next.next_seq(), EventSeq::new(1148));
}

#[test]
fn t3_scan_continues_after_a_gap_between_chunks() {
    let mut log = MemLog::default();
    for i in 0..600u64 {
        log.push(i, EventType::FunctionEntry);
    }
    log.gap(600, 700);
    for i in 701..1400u64 {
        log.push(i, EventType::FunctionEntry);
    }
    let page = log.read_page(&start(), 1000, &LogReadFilters::default()).unwrap();
    assert_eq!(page.records.len(), 1000, "records after the gap are reachable");
    assert!(page.position_after > EventSeq::new(700));
    assert_eq!(page.gaps.len(), 1, "the gap is reported, not hidden");
    assert_eq!(page.gaps[0].last_missing, EventSeq::new(700));
}

#[test]
fn an_undecodable_record_fails_closed_and_emits_no_cursor() {
    let mut log = MemLog::with_entries(&entries(5));
    log.records.push((5, None, "unknown_producer".to_string()));
    let err = log.read_page(&start(), 50, &LogReadFilters::default()).unwrap_err();
    match err {
        ServiceError::EvidenceDecodeFailed { seq, payload_tag, session_id } => {
            assert_eq!(seq, 5);
            assert_eq!(payload_tag, "unknown_producer");
            assert_eq!(session_id, "mem");
        }
        other => panic!("expected EvidenceDecodeFailed, got {other:?}"),
    }
    let err = log.find_by_id(9999).unwrap_err();
    assert!(matches!(err, ServiceError::EvidenceDecodeFailed { .. }));
}

#[test]
fn by_id_reads_from_the_log_not_an_engine() {
    let log = MemLog::with_entries(&entries(5));
    let found = log.find_by_id(3).unwrap().expect("event 3 exists");
    assert_eq!(found.event_id, 3);
    assert!(log.find_by_id(99).unwrap().is_none());
}

#[test]
fn c15_by_id_under_retention_never_claims_not_found() {
    let mut log = MemLog::default();
    for i in 10..20u64 {
        log.push(i, EventType::FunctionEntry);
    }
    log.retained_from = 10;
    assert!(log.find_by_id(15).unwrap().is_some());
    match log.find_by_id(12345).unwrap_err() {
        ServiceError::EvidenceUnavailableDueToRetention { retained_from } => assert_eq!(retained_from, 10),
        other => panic!("expected EvidenceUnavailableDueToRetention, got {other:?}"),
    }
}

#[test]
fn cursor_from_another_session_is_refused() {
    let b = EventsCursorV1::start(SessionId::new("sess-b"));
    let err = check_cursor_session(&b, &SessionId::new("sess-a")).unwrap_err();
    assert!(matches!(err, ServiceError::NoExecutionLog(_)), "{err:?}");
    assert!(check_cursor_session(&b, &SessionId::new("sess-b")).is_ok());
}

#[test]
fn c14_continuous_range_is_complete() {
    let log = MemLog::with_entries(&entries(10));
    let page = log.read_page(&start(), 5, &LogReadFilters::default()).unwrap();
    assert_eq!(page.completeness.status, Completeness::Complete);
    assert_eq!(page.completeness.scope, "examined_range");
    assert_eq!(page.completeness.from_seq, 0);
    assert_eq!(page.completeness.to_seq_exclusive, 5);
    assert!(page.next.next_seq() < EventSeq::new(10));
}

#[test]
fn c14_gap_inside_the_range_is_gap_detected_with_an_exact_range() {
    let log = gappy();
    let page = log.read_page(&start(), 10, &LogReadFilters::default()).unwrap();
    assert_eq!(page.completeness.status, Completeness::GapDetected);
    assert_eq!(page.completeness.from_seq, 0);
    assert_eq!(page.completeness.to_seq_exclusive, page.position_after.0);
    assert_eq!(page.gaps.len(), 1);
}

#[test]
fn c14_gap_before_the_cursor_does_not_contaminate_the_page() {
    let log = gappy();
    let page = log.read_page(&at(4), 10, &LogReadFilters::default()).unwrap();
    assert_eq!(page.completeness.status, Completeness::Complete);
    assert!(page.gaps.is_empty());
}

#[test]
fn c14_gap_after_the_stop_point_does_not_contaminate_yet() {
    let log = gappy();
    let page = log.read_page(&start(), 1, &LogReadFilters::default()).unwrap();
    assert_eq!(page.position_after, EventSeq::new(1));
    assert_eq!(page.completeness.status, Completeness::Complete);
}

#[test]
fn c14_filters_that_span_a_gap_are_gap_detected() {
    let log = gappy();
    let page = log.read_page(&start(), 2, &LogReadFilters::default()).unwrap();
    assert_eq!(ids(&page), vec![0, 4], "both requested results exist");
    assert_eq!(page.completeness.status, Completeness::GapDetected);
}

#[test]
fn c14_two_gaps_are_reported_ordered_and_not_collapsed() {
    let mut log = MemLog::default();
    for i in 0..6u64 {
        log.push(i, EventType::FunctionEntry);
    }
    log.gap(6, 7);
    for i in 8..12u64 {
        log.push(i, EventType::FunctionEntry);
    }
    log.gap(12, 14);
    for i in 15..20u64 {
        log.push(i, EventType::FunctionEntry);
    }
    let page = log.read_page(&start(), 100, &LogReadFilters::default()).unwrap();
    assert_eq!(page.gaps.len(), 2, "both gaps reported: {:?}", page.gaps);
    assert!(page.gaps[0].first_missing.0 < page.gaps[1].first_missing.0);
    assert_eq!(page.completeness.status, Completeness::GapDetected);
}

#[test]
fn c14_no_proof_available_is_unknown_never_complete() {
    let report = completeness_for("s", EventSeq::new(0), EventSeq::new(5), &[], None);
    assert_eq!(report.status, Completeness::Unknown);
}

#[test]
fn c14_invariant_gaps_in_range_never_yield_complete() {
    for gap_first in 0..6u64 {
        for gap_last in gap_first..6u64 {
            let gaps = vec![Gap {
                first_missing: EventSeq::new(gap_first),
                last_missing: EventSeq::new(gap_last),
                reason: "CorruptSegment".into(),
                source: "t".into(),
            }];
            for from in 0..8u64 {
                for to in from..8u64 {
                    let r = completeness_for("s", EventSeq::new(from), EventSeq::new(to), &gaps, Some(EventSeq::new(9)));
                    let intersects = to > from && gap_first < to && gap_last >= from;
                    if intersects {
                        assert_ne!(r.status, Completeness::Complete);
                    }
                    assert_eq!(r.status == Completeness::GapDetected, intersects);
                }
            }
        }
    }
}

#[test]
fn c14_only_complete_gapdetected_and_unknown_are_produced() {
    let log = MemLog::with_entries(&entries(3));
    let page = log.read_page(&start(), 10, &LogReadFilters::default()).unwrap();
    assert!(matches!(
        page.completeness.status,
        Completeness::Complete | Completeness::GapDetected | Completeness::Unknown
    ));
    assert_ne!(page.completeness.status, Completeness::Partial);
    assert_ne!(page.completeness.status, Completeness::Unsupported);
}

#[test]
fn t4_read_page_stalls_loudly_and_emits_no_cursor() {
    let cursor = EventsCursorV1::start(SessionId::new("stall"));
    let err = read_page_with(
        "stall",
        &cursor,
        10,
        &LogReadFilters::default(),
        EventSeq::zero(),
        Some(EventSeq::new(0)),
        &TailState::Open,
        faulty,
    )
    .unwrap_err();
    match err {
        ServiceError::EvidenceReadStalled { session_id, position } => {
            assert_eq!(session_id, "stall");
            assert_eq!(position, 0);
        }
        other => panic!("expected EvidenceReadStalled, got {other:?}"),
    }
}

#[test]
fn t5_find_by_id_stalls_loudly_and_never_loops() {
    let err = find_by_id_with("stall", 42, EventSeq::zero(), faulty).unwrap_err();
    assert!(matches!(err, ServiceError::EvidenceReadStalled { .. }), "{err:?}");
}

#[test]
fn an_exhausted_backend_is_still_a_normal_empty_result() {
    let cursor = EventsCursorV1::start(SessionId::new("ok"));
    let page = read_page_with(
        "ok",
        &cursor,
        10,
        &LogReadFilters::default(),
        EventSeq::zero(),
        Some(EventSeq::new(0)),
        &TailState::Open,
        empty_exhausted,
    )
    .unwrap();
    assert!(page.records.is_empty());
    assert_eq!(page.next.next_seq(), EventSeq::zero());
}

#[test]
fn wire_ret_1_zero_retained_from_is_not_truncated() {
    let page = wire_page(0, 0, TailState::Open);
    assert_eq!(page.retention.retained_from_seq, 0);
    assert!(!page.retention.history_truncated);
}

#[test]
fn wire_ret_2_nonzero_retained_from_marks_truncated() {
    let page = wire_page(5, 5, TailState::Open);
    assert_eq!(page.retention.retained_from_seq, 5);
    assert!(page.retention.history_truncated);
}

#[test]
fn wire_tail_1_open_state_carries_tail_seq() {
    let page = wire_page(0, 42, TailState::Open);
    assert_eq!(page.tail.state, TailStateWire::Open);
    assert_eq!(page.tail.tail_seq, Some(42));
}

#[test]
fn wire_tail_2_sealed_state_carries_tail_seq() {
    let page = wire_page(0, 99, TailState::Sealed);
    assert_eq!(page.tail.state, TailStateWire::Sealed);
    assert_eq!(page.tail.tail_seq, Some(99));
}

#[test]
fn wire_tail_3_unknown_state_drops_tail_seq_even_if_log_has_one() {
    let page = wire_page(0, 123, TailState::Unknown);
    assert_eq!(page.tail.state, TailStateWire::Unknown);
    assert_eq!(page.tail.tail_seq, None, "Unknown state refuses to present an unproven tail");
}

#[test]
fn retention_and_tail_facts_by_themselves() {
    assert_eq!(
        RetentionFacts::from_retained_from(EventSeq::new(3)),
        RetentionFacts { retained_from_seq: 3, history_truncated: true }
    );
    assert_eq!(
        TailFacts::from_log_tail(&TailState::Unclean, Some(EventSeq::new(8))),
        TailFacts { state: TailStateWire::Unclean, tail_seq: Some(8) }
    );
}

#[test]
fn position_before_retention_is_a_typed_stale_cursor() {
    let mut log = MemLog::with_entries(&entries(10));
    log.retained_from = 4;
    let err = log.read(EventSeq::new(2), 10).unwrap_err();
    assert_eq!(err, ServiceError::CursorStale { requested_next_seq: 2, retained_from_seq: 4 });
    assert_eq!(map_log_error(LogError::Other("io".into())), ServiceError::DrainFailed("io".into()));
}

#[test]
fn completeness_wire_round_trip() {
    let r = CompletenessReport::from_wire("gap_detected", "", 3, 9).unwrap();
    assert_eq!(r.status, Completeness::GapDetected);
    assert_eq!(r.scope_name(), "examined_range");
    assert!(!r.is_complete());
    assert_eq!(Completeness::GapDetected.as_str(), "gap_detected");
    assert_eq!(
        CompletenessReport::from_wire("complete", "global", 0, 1).unwrap_err(),
        "unsupported completeness scope \"global\""
    );
}

#[test]
fn function_pattern_filter_matches_substrings_only_when_named() {
    let f = LogReadFilters { function_pattern: Some("n_1".to_string()), ..Default::default() };
    assert!(f.matches(&event(12, EventType::FunctionEntry)));
    assert!(!f.matches(&event(2, EventType::FunctionEntry)));
    let mut unnamed = event(1, EventType::FunctionEntry);
    unnamed.location.function = None;
    assert!(!f.matches(&unnamed));
    let t = LogReadFilters { thread_id: Some(2), timestamp_start: Some(5), ..Default::default() };
    assert!(!t.matches(&event(1, EventType::FunctionEntry)));
}

#[test]
fn zero_limit_reads_nothing_and_keeps_the_cursor() {
    let log = MemLog::with_entries(&entries(5));
    let page = log.read_page(&at(2), 0, &LogReadFilters::default()).unwrap();
    assert!(page.records.is_empty());
    assert_eq!(page.next.next_seq(), EventSeq::new(2));
}
