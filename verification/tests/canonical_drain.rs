use chronos_services::canonical_drain::{
    read_all_raw_events, read_canonical_drain_page, CanonicalDrainPage,
    DEFAULT_MAX_DERIVED_PER_SOURCE,
};
use chronos_services::error::ServiceError;
use chronos_services::events_cursor::{EventSeq, EventsCursorV1, SessionId};
use chronos_services::events_log_read::{Completeness, ExecutionKind, Gap, LogPage, LogRecord};
use chronos_services::trace::{EventData, EventType, SourceLocation, TraceEvent};

/// An in-memory log whose seqs are assigned on append.
#[derive(Default)]
struct MemLog {
    records: Vec<(ExecutionKind, Option<TraceEvent>, Option<u64>, String)>,
    gaps: Vec<Gap>,
    next: u64,
}

impl MemLog {
    fn append_raw(&mut self, id: u64) -> u64 {
        let seq = self.next;
        let e = TraceEvent::new(id, id * 1000, 1, EventType::FunctionEntry, SourceLocation::unknown(), EventData::Empty);
        self.records.push((ExecutionKind::Raw, Some(e), None, "trace_event".into()));
        self.next += 1;
        seq
    }

    fn append_broken_raw(&mut self) -> u64 {
        let seq = self.next;
        self.records.push((ExecutionKind::Raw, None, None, "broken".into()));
        self.next += 1;
        seq
    }

    fn append_firing(&mut self, source: u64) -> u64 {
        let seq = self.next;
        self.records.push((ExecutionKind::TripwireFired, None, Some(source), "tripwire_fired".into()));
        self.next += 1;
        seq
    }

    fn record_gap(&mut self, first: u64, last: u64) {
        self.gaps.push(Gap {
            first_missing: EventSeq::new(first),
            last_missing: EventSeq::new(last),
            reason: "AdapterBufferOverflow".into(),
            source: "test".into(),
        });
        self.next = last + 1;
    }

    fn seq_of(&self, index: usize) -> u64 {
        // Seqs are dense except where a gap was recorded.
        let mut seq = 0u64;
        let mut i = 0usize;
        loop {
            if let Some(g) = self.gaps.iter().find(|g| g.first_missing.0 == seq) {
                seq = g.last_missing.0 + 1;
                continue;
            }
            if i == index {
                return seq;
            }
            i += 1;
            seq += 1;
        }
    }

    fn read(&self, position: EventSeq, chunk: usize) -> Result<LogPage, String> {
        let all: Vec<LogRecord> = self
            .records
            .iter()
            .enumerate()
            .map(|(i, (kind, e, src, tag))| LogRecord {
                seq: EventSeq::new(self.seq_of(i)),
                kind: *kind,
                event: e.clone(),
                firing_source: src.map(EventSeq::new),
                payload_tag: tag.clone(),
            })
            .filter(|r| r.seq.0 >= position.0)
            .collect();
        let exhausted = all.len() <= chunk;
        let records: Vec<LogRecord> = all.into_iter().take(chunk).collect();
        let end = records.last().map(|r| r.seq.0 + 1).unwrap_or(position.0);
        let gaps = self
            .gaps
            .iter()
            .filter(|g| g.first_missing.0 >= position.0 && g.first_missing.0 < end)
            .cloned()
            .collect();
        Ok(LogPage { records, gaps, position_after: EventSeq::new(end), exhausted })
    }
}

fn project(e: &TraceEvent) -> String {
    format!("raw-{}", e.event_id)
}

fn drain(log: &MemLog, cursor: Option<&EventsCursorV1>, max_raw: usize) -> Result<CanonicalDrainPage<String>, ServiceError> {
    read_canonical_drain_page(
        &SessionId::new("drain"),
        cursor,
        EventSeq::zero(),
        max_raw,
        100_000,
        DEFAULT_MAX_DERIVED_PER_SOURCE,
        |p: EventSeq, c: usize| log.read(p, c),
        project,
    )
}

#[test]
fn drain_2_firings_come_from_evidence_not_configuration() {
    let mut log = MemLog::default();
    let s = log.append_raw(1);
    log.append_firing(s);
    let page = drain(&log, None, 10).expect("page");
    assert_eq!(page.raw_events, 1, "the Raw source is visible");
    assert_eq!(page.tripwires_fired, 1, "counted from TripwireFired evidence");
    assert_eq!(page.completeness.status, Completeness::Complete);
    assert_eq!(page.events, vec!["raw-1".to_string()]);
}

#[test]
fn drain_3_raw_and_its_derived_firings_are_one_unit() {
    let mut log = MemLog::default();
    let first_raw = log.append_raw(100);
    log.append_firing(first_raw);
    log.append_firing(first_raw);
    let next_raw = log.append_raw(103);
    assert_eq!(first_raw, 0);
    assert_eq!(next_raw, 3);
    let page = drain(&log, None, 1).expect("page");
    assert_eq!(page.raw_events, 1, "only the requested Raw");
    assert_eq!(page.tripwires_fired, 2, "both derived firings came along");
    assert_eq!(page.firing_seqs, vec![EventSeq::new(1), EventSeq::new(2)]);
    assert_eq!(page.next_cursor.next_seq(), EventSeq::new(3));
}

#[test]
fn drain_4_cursor_inside_a_derived_cluster_is_rejected() {
    let mut log = MemLog::default();
    let source = log.append_raw(100);
    let firing = log.append_firing(source);
    assert_eq!(firing, 1);
    let inside = EventsCursorV1::start(SessionId::new("drain")).advanced_to(EventSeq::new(firing)).unwrap();
    let err = drain(&log, Some(&inside), 10).expect_err("must refuse");
    assert!(matches!(err, ServiceError::InvalidInput(_)), "expected a logical-boundary error, got {err:?}");
    assert_eq!(
        err,
        ServiceError::InvalidInput(
            "probe_drain cursor is not at a logical Raw boundary: seq 1 is a derived firing of source 0; resume from 0 or from a Raw boundary".into()
        )
    );
}

#[test]
fn drain_5_page_progresses_when_it_stops_early() {
    let mut log = MemLog::default();
    for i in 0..10u64 {
        log.append_raw(i);
    }
    let first = drain(&log, None, 3).expect("page");
    assert_eq!(first.raw_events, 3);
    assert!(!first.exhausted);
    assert_eq!(first.completeness.status, Completeness::Complete);
    assert_eq!(first.next_cursor.next_seq(), EventSeq::new(3));
    let second = drain(&log, Some(&first.next_cursor), 100).expect("page");
    assert_eq!(second.raw_events, 7, "the rest, no re-read");
    assert_eq!(second.next_cursor.next_seq(), EventSeq::new(10));
    assert!(second.exhausted);
}

#[test]
fn drain_6_gap_makes_completeness_explicit() {
    let mut log = MemLog::default();
    log.append_raw(0);
    log.record_gap(1, 5);
    log.append_raw(6);
    let page = drain(&log, None, 100).expect("page");
    assert_eq!(page.completeness.status, Completeness::GapDetected);
    assert_eq!(page.completeness.scope, "examined_range");
    assert_eq!(page.raw_events, 2, "both Raw records are still returned");
}

#[test]
fn drain_7_undecodable_raw_fails_closed() {
    let mut log = MemLog::default();
    let bad = log.append_broken_raw();
    log.append_firing(bad);
    match drain(&log, None, 10).expect_err("must fail closed") {
        ServiceError::EvidenceDecodeFailed { seq, payload_tag, .. } => {
            assert_eq!(seq, bad, "the error names the undecodable record");
            assert_eq!(payload_tag, "broken");
        }
        other => panic!("expected EvidenceDecodeFailed, got {other:?}"),
    }
}

#[test]
fn stop_1_reading_all_raw_is_repeatable() {
    let mut log = MemLog::default();
    for i in 0..5 {
        log.append_raw(i);
    }
    let read = |p: EventSeq, c: usize| log.read(p, c);
    let first = read_all_raw_events("stop1", EventSeq::zero(), read).expect("first read");
    let second = read_all_raw_events("stop1", EventSeq::zero(), read).expect("second read");
    assert_eq!(first.events.len(), 5);
    assert_eq!(second.events.len(), 5);
    assert_eq!(
        first.events.iter().map(|e| e.event_id).collect::<Vec<_>>(),
        second.events.iter().map(|e| e.event_id).collect::<Vec<_>>()
    );
    assert_eq!(first.completeness.status, Completeness::Complete);
}

#[test]
fn stop_2_derived_firings_are_not_returned_as_events() {
    let mut log = MemLog::default();
    let raw = log.append_raw(0);
    log.append_firing(raw);
    let scan = read_all_raw_events("stop2", EventSeq::zero(), |p: EventSeq, c: usize| log.read(p, c)).expect("scan");
    assert_eq!(scan.events.len(), 1, "one Raw, one event");
    assert_eq!(scan.events[0].event_id, 0);
    assert!(scan.examined_records >= 2);
}

#[test]
fn stop_3_gap_makes_completeness_explicit() {
    let mut log = MemLog::default();
    log.append_raw(0);
    log.record_gap(1, 3);
    log.append_raw(4);
    let scan = read_all_raw_events("stop3", EventSeq::zero(), |p: EventSeq, c: usize| log.read(p, c)).expect("scan");
    assert_eq!(scan.events.len(), 2);
    assert_eq!(scan.completeness.status, Completeness::GapDetected);
    assert_eq!(scan.completeness.scope, "examined_range");
}

#[test]
fn stop_4_undecodable_raw_fails_closed() {
    let mut log = MemLog::default();
    log.append_raw(0);
    log.append_broken_raw();
    let err = read_all_raw_events("stop4", EventSeq::zero(), |p: EventSeq, c: usize| log.read(p, c))
        .expect_err("must fail closed");
    assert!(matches!(err, ServiceError::EvidenceDecodeFailed { .. }));
}

#[test]
fn drain_output_cannot_be_influenced_by_transport_or_policy() {
    let mut log = MemLog::default();
    let s = log.append_raw(1);
    log.append_firing(s);
    let a = drain(&log, None, 10).expect("page");
    let b = drain(&log, None, 10).expect("page");
    assert_eq!(a.raw_events, b.raw_events);
    assert_eq!(a.tripwires_fired, b.tripwires_fired);
    assert_eq!(a.firing_seqs, b.firing_seqs);
    assert_eq!(a.next_cursor.next_seq(), b.next_cursor.next_seq());
}

#[test]
fn a_failed_read_is_a_drain_failure_naming_the_step() {
    let err = read_canonical_drain_page(
        &SessionId::new("x"),
        None,
        EventSeq::zero(),
        10,
        100,
        4,
        |_p: EventSeq, _c: usize| -> Result<LogPage, String> { Err("disk gone".into()) },
        project,
    )
    .unwrap_err();
    assert_eq!(err, ServiceError::DrainFailed("probe_drain head read: disk gone".into()));
}

#[test]
fn too_many_derived_firings_for_one_source_are_refused() {
    let mut log = MemLog::default();
    let s = log.append_raw(0);
    log.append_firing(s);
    log.append_firing(s);
    log.append_firing(s);
    let err = read_canonical_drain_page(
        &SessionId::new("x"),
        None,
        EventSeq::zero(),
        10,
        100,
        2,
        |p: EventSeq, c: usize| log.read(p, c),
        project,
    )
    .unwrap_err();
    assert_eq!(
        err,
        ServiceError::InvalidInput("probe_drain found more than 2 derived firings for one source at seq 3".into())
    );
}

#[test]
fn the_examination_budget_bounds_the_page() {
    let mut log = MemLog::default();
    for i in 0..10u64 {
        log.append_raw(i);
    }
    let page = read_canonical_drain_page(
        &SessionId::new("x"),
        None,
        EventSeq::zero(),
        100,
        4,
        4,
        |p: EventSeq, c: usize| log.read(p, c),
        project,
    )
    .unwrap();
    assert_eq!(page.examined_records, 4);
    assert_eq!(page.raw_events, 4);
    assert_eq!(page.next_cursor.next_seq(), EventSeq::new(4));
}
