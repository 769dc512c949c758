use chronos_services::browser_probe::{BrowserProbeDrainInput, BrowserProbeService};
use chronos_services::error::ServiceError;
use chronos_services::events_cursor::{EventSeq, EventsCursorV1, SessionId};
use chronos_services::events_read::{ChronosEventsReadService, EventsReadInput, EventsReadKind};
use chronos_services::execution_log_bootstrap::{plan_entry, BootstrapEntry, BootstrapPlan};
use chronos_services::execution_query::{
    ChronosExecutionQueryService, ExecutionQueryInput, ExecutionQueryKind, ExecutionQueryPlan,
};
use chronos_services::observe::{
    firing_count_status_str, ChronosObserveService, FiringCountStatus, ObserveRetention, ObserveScope,
    ObserveVerb, ProbeInjectResult,
};
use chronos_services::trace::EventType;

fn query(kind: ExecutionQueryKind) -> ExecutionQueryInput {
    ExecutionQueryInput {
        session_id: "s".into(),
        kind,
        event_id: None,
        max_depth: None,
        threshold_ns: None,
        top_n: None,
        saliency_limit: None,
    }
}

fn read_input(mode: EventsReadKind) -> EventsReadInput {
    EventsReadInput {
        session_id: "s".into(),
        mode,
        event_types: Some(vec![EventType::FunctionExit]),
        thread_id: Some(3),
        timestamp_start: None,
        timestamp_end: Some(99),
        function_pattern: Some("main".into()),
        limit: 10,
        cursor: None,
        event_id: None,
    }
}

#[test]
fn call_stack_missing_event_id_returns_invalid_input() {
    assert_eq!(
        ChronosExecutionQueryService::plan(&query(ExecutionQueryKind::CallStack)),
        Err(ServiceError::InvalidInput("event_id required for kind=call_stack".into()))
    );
    let mut q = query(ExecutionQueryKind::CallStack);
    q.event_id = Some(7);
    assert_eq!(ChronosExecutionQueryService::plan(&q), Ok(ExecutionQueryPlan::CallStack { event_id: 7 }));
}

#[test]
fn execution_query_defaults() {
    assert_eq!(
        ChronosExecutionQueryService::plan(&query(ExecutionQueryKind::CallGraph)),
        Ok(ExecutionQueryPlan::CallGraph { max_depth: 10 })
    );
    assert_eq!(
        ChronosExecutionQueryService::plan(&query(ExecutionQueryKind::RaceDetect)),
        Ok(ExecutionQueryPlan::RaceDetect { threshold_ns: 100 })
    );
    assert_eq!(
        ChronosExecutionQueryService::plan(&query(ExecutionQueryKind::Hotspot)),
        Ok(ExecutionQueryPlan::Hotspot { top_n: 10 })
    );
    assert_eq!(
        ChronosExecutionQueryService::plan(&query(ExecutionQueryKind::Saliency)),
        Ok(ExecutionQueryPlan::Saliency { limit: 20 })
    );
    assert_eq!(
        ChronosExecutionQueryService::plan(&query(ExecutionQueryKind::ExecutionSummary)),
        Ok(ExecutionQueryPlan::ExecutionSummary)
    );
    let mut q = query(ExecutionQueryKind::Hotspot);
    q.top_n = Some(3);
    assert_eq!(ChronosExecutionQueryService::plan(&q), Ok(ExecutionQueryPlan::Hotspot { top_n: 3 }));
}

#[test]
fn by_id_needs_an_event_id() {
    assert_eq!(
        ChronosEventsReadService::required_event_id(&read_input(EventsReadKind::ById)),
        Err(ServiceError::InvalidInput("event_id required for mode=by_id".into()))
    );
    let mut i = read_input(EventsReadKind::ById);
    i.event_id = Some(4);
    assert_eq!(ChronosEventsReadService::required_event_id(&i), Ok(4));
}

#[test]
fn a_cursor_from_another_session_is_refused() {
    let session = SessionId::new("sess-a");
    let foreign = EventsCursorV1::start(SessionId::new("sess-b")).encode();
    assert_eq!(
        ChronosEventsReadService::start_cursor(&Some(foreign), &session).unwrap_err(),
        ServiceError::InvalidInput("cursor belongs to session \"sess-b\", not \"sess-a\"".into())
    );
    assert_eq!(
        ChronosEventsReadService::start_cursor(&Some("garbage".into()), &session).unwrap_err(),
        ServiceError::InvalidCursorPayload
    );
    let own = EventsCursorV1::start(session.clone()).advance_to(EventSeq::new(12)).unwrap();
    let c = ChronosEventsReadService::start_cursor(&Some(own.encode()), &session).unwrap();
    assert_eq!(c.next_seq(), EventSeq::new(12));
    let fresh = ChronosEventsReadService::start_cursor(&None, &session).unwrap();
    assert_eq!(fresh.next_seq(), EventSeq::zero());
}

#[test]
fn query_filters_come_from_the_request() {
    let f = ChronosEventsReadService::query_filters(&read_input(EventsReadKind::Query));
    assert_eq!(f.event_types, Some(vec![EventType::FunctionExit]));
    assert_eq!(f.thread_id, Some(3));
    assert_eq!(f.timestamp_start, None);
    assert_eq!(f.timestamp_end, Some(99));
    assert_eq!(f.function_pattern.as_deref(), Some("main"));
}

#[test]
fn next_cursor_only_while_evidence_may_remain() {
    assert!(ChronosEventsReadService::has_more(EventSeq::new(5), Some(EventSeq::new(9))));
    assert!(ChronosEventsReadService::has_more(EventSeq::new(9), Some(EventSeq::new(9))));
    assert!(!ChronosEventsReadService::has_more(EventSeq::new(10), Some(EventSeq::new(9))));
    assert!(!ChronosEventsReadService::has_more(EventSeq::new(0), None));
}

#[test]
fn verb_update_returns_unsupported() {
    assert_eq!(
        ChronosObserveService::check_verb(ObserveVerb::Update),
        Err(ServiceError::Unsupported("verb=update deferred to m7+".into()))
    );
    assert!(ChronosObserveService::check_verb(ObserveVerb::Create).is_ok());
}

#[test]
fn list_with_permanent_retention_returns_unsupported() {
    assert_eq!(
        ChronosObserveService::check_retention(Some(ObserveRetention::Permanent)),
        Err(ServiceError::Unsupported("retention=permanent deferred to m7+".into()))
    );
    assert_eq!(ChronosObserveService::check_retention(None), Ok(ObserveRetention::Drained));
    assert_eq!(
        ChronosObserveService::check_retention(Some(ObserveRetention::RetainedUntilSessionEnd)),
        Ok(ObserveRetention::RetainedUntilSessionEnd)
    );
    assert!(ChronosObserveService::check_requested_evidence(true).is_err());
    assert!(ChronosObserveService::check_requested_evidence(false).is_ok());
}

#[test]
fn an_explicit_session_scope_wins_over_the_active_session() {
    let scope = ObserveScope::Session { session_id: "x".into() };
    assert_eq!(ChronosObserveService::resolve_session(Some(&scope), Some("y".into())), Ok("x".into()));
    assert_eq!(ChronosObserveService::resolve_session(Some(&ObserveScope::Global), Some("y".into())), Ok("y".into()));
    assert_eq!(ChronosObserveService::resolve_session(None, None), Err(ServiceError::NoActiveSession));
}

#[test]
fn foreign_session_cursor_is_rejected() {
    let sid = "sess-a".to_string();
    let foreign = EventsCursorV1::start(SessionId::new("sess-b")).encode();
    let err = ChronosObserveService::list_start(Some(&foreign), &sid, EventSeq::zero()).unwrap_err();
    assert_eq!(
        err,
        ServiceError::InvalidInput("observe cursor: cursor belongs to session \"sess-b\", not \"sess-a\"".into())
    );
    assert_eq!(ChronosObserveService::list_start(None, &sid, EventSeq::new(3)), Ok(EventSeq::new(3)));
}

#[test]
fn a_cursor_below_retention_is_stale() {
    let sid = "s".to_string();
    let c = EventsCursorV1::start(SessionId::new("s")).advance_to(EventSeq::new(2)).unwrap().encode();
    assert_eq!(
        ChronosObserveService::list_start(Some(&c), &sid, EventSeq::new(5)),
        Err(ServiceError::InvalidInput(
            "observe cursor is stale: next_seq 2 is below the retained boundary 5; re-anchor with a fresh cursor".into()
        ))
    );
    assert_eq!(ChronosObserveService::list_start(Some(&c), &sid, EventSeq::new(2)), Ok(EventSeq::new(2)));
}

#[test]
fn create_uprobe_requires_a_session_scope() {
    assert!(matches!(ChronosObserveService::uprobe_session(&None), Err(ServiceError::Unsupported(_))));
    assert_eq!(
        ChronosObserveService::uprobe_session(&Some(ObserveScope::Session { session_id: "s".into() })),
        Ok("s".into())
    );
}

#[test]
fn uprobe_ids_count_per_session() {
    let mut counter: Vec<(String, usize)> = Vec::new();
    let a = "a".to_string();
    let b = "b".to_string();
    assert_eq!(ChronosObserveService::allocate_uprobe_id(&mut counter, &a), "uprobe-a-1");
    assert_eq!(ChronosObserveService::allocate_uprobe_id(&mut counter, &a), "uprobe-a-2");
    assert_eq!(ChronosObserveService::allocate_uprobe_id(&mut counter, &b), "uprobe-b-1");
    assert_eq!(ChronosObserveService::sentinel_label(None, &"uprobe-a-1".to_string()), "uprobe:uprobe-a-1");
    assert_eq!(ChronosObserveService::sentinel_label(Some("mine".into()), &"x".to_string()), "mine");
}

#[test]
fn create_uprobe_results_are_typed() {
    assert_eq!(ChronosObserveService::attached_pid(ProbeInjectResult::Attached { pid: 42 }), Ok(42));
    assert_eq!(
        ChronosObserveService::attached_pid(ProbeInjectResult::AttachFailed { error: "denied".into() }),
        Err(ServiceError::InjectionFailed("denied".into()))
    );
    assert_eq!(
        ChronosObserveService::attached_pid(ProbeInjectResult::EbpfUnavailable("no bpf".into())),
        Err(ServiceError::EbpfUnsupported("no bpf".into()))
    );
    assert_eq!(
        ChronosObserveService::attached_pid(ProbeInjectResult::ProbeStarting),
        Err(ServiceError::ProbeStarting)
    );
}

#[test]
fn delete_targets() {
    assert_eq!(
        ChronosObserveService::delete_target(None),
        Err(ServiceError::Unsupported("verb=delete requires 'subscription_id'".into()))
    );
    assert_eq!(ChronosObserveService::delete_target(Some("  tripwire-3 ")), Ok("tripwire-3".into()));
    assert_eq!(
        ChronosObserveService::delete_target(Some("uprobe-1")),
        Err(ServiceError::Unsupported(
            "observe verb=delete only supports tripwire subscriptions in m7-02; got 'uprobe-1'".into()
        ))
    );
}

#[test]
fn firing_count_status_names() {
    assert_eq!(firing_count_status_str(FiringCountStatus::Complete), "complete");
    assert_eq!(firing_count_status_str(FiringCountStatus::Truncated), "truncated");
    assert_eq!(firing_count_status_str(FiringCountStatus::Partial), "partial");
}

#[test]
fn browser_drain_pages_the_drained_batch() {
    let input = BrowserProbeDrainInput { session_id: "b".into(), offset: 2, limit: 3 };
    let r = BrowserProbeService::drain_result(input, vec![0, 1, 2, 3, 4, 5, 6]);
    assert_eq!(r.events, vec![2, 3, 4]);
    assert_eq!(r.returned, 3);
    assert_eq!(r.total_buffered, 7);
    let past = BrowserProbeDrainInput { session_id: "b".into(), offset: 9, limit: 3 };
    let r = BrowserProbeService::drain_result(past, vec![1, 2]);
    assert!(r.events.is_empty());
    assert_eq!(r.total_buffered, 2);
    assert_eq!(
        BrowserProbeService::require_session::<u8>("gone", None),
        Err(ServiceError::BrowserProbeNotFound("gone".into()))
    );
}

#[test]
fn boot_5_corrupt_log_is_unavailable_with_its_reason() {
    let ok = plan_entry("s1".into(), "/d/s1".into(), Ok::<u32, String>(7));
    let bad = plan_entry("s2".into(), "/d/s2".into(), Err::<u32, String>("manifest checksum".into()));
    assert!(matches!(ok, BootstrapEntry::Available { log: 7, .. }));
    match &bad {
        BootstrapEntry::Unavailable { session_id, reason, .. } => {
            assert_eq!(session_id, "s2");
            assert_eq!(reason, "manifest checksum");
        }
        other => panic!("expected Unavailable, got {other:?}"),
    }
    let plan = BootstrapPlan { entries: vec![ok, bad], unmanaged: vec![], unreadable: vec![], duplicates: vec![] };
    assert_eq!(plan.available().len(), 1);
    assert_eq!(plan.unavailable().len(), 1);
}

#[test]
fn a_cursor_splitting_a_character_gets_a_typed_error() {
    let bad = "ecv1:1:1:é:0".to_string();
    assert_eq!(
        ChronosEventsReadService::start_cursor(&Some(bad.clone()), &SessionId::new("é")).unwrap_err(),
        ServiceError::InvalidCursorPayload
    );
    assert_eq!(
        ChronosObserveService::list_start(Some(&bad), &"é".to_string(), EventSeq::zero()),
        Err(ServiceError::InvalidInput(
            "observe cursor: malformed cursor: session length 1 ends inside a character".into()
        ))
    );
}

#[test]
fn create_request_missing_condition_returns_unsupported() {
    let none: Option<u32> = None;
    assert_eq!(
        ChronosObserveService::require_condition(none),
        Err(ServiceError::Unsupported("verb=create requires 'condition'".into()))
    );
    assert_eq!(ChronosObserveService::require_condition(Some(7u32)), Ok(7));
    assert_eq!(
        ChronosObserveService::tripwire_label(None, Some("req".into())),
        Some("req".to_string())
    );
    assert_eq!(
        ChronosObserveService::tripwire_label(Some("own".into()), Some("req".into())),
        Some("own".to_string())
    );
}
