use chronos_services::events_cursor::{EventSeq, SessionId};
use chronos_services::live_streaming::{
    causality_status, CausalityStatus, LiveEventStream, LiveStreamError, MockEvent,
    SubscriptionRegistry,
};

fn sid(n: &str) -> SessionId {
    SessionId::new(&format!("sess-{n}"))
}

#[test]
fn subscribe_registers_handle() {
    let mut reg = SubscriptionRegistry::default();
    let session = sid("a");
    let _stream = LiveEventStream::subscribe(session.clone(), EventSeq::zero(), &mut reg);
    assert_eq!(reg.active_count(&session), 1);
    assert_eq!(reg.total(), 1);
}

#[test]
fn drop_unregisters_handle() {
    let mut reg = SubscriptionRegistry::default();
    let session = sid("b");
    {
        let stream = LiveEventStream::subscribe(session.clone(), EventSeq::zero(), &mut reg);
        assert_eq!(reg.active_count(&session), 1);
        stream.disconnect(&mut reg);
    }
    assert_eq!(reg.active_count(&session), 0);
    assert_eq!(reg.total(), 0);
}

#[test]
fn multiple_subscriptions_count_correctly() {
    let mut reg = SubscriptionRegistry::default();
    let session = sid("c");
    let _s1 = LiveEventStream::subscribe(session.clone(), EventSeq::zero(), &mut reg);
    let s2 = LiveEventStream::subscribe(session.clone(), EventSeq::zero(), &mut reg);
    let _s3 = LiveEventStream::subscribe(session.clone(), EventSeq::zero(), &mut reg);
    assert_eq!(reg.active_count(&session), 3);
    s2.disconnect(&mut reg);
    assert_eq!(reg.active_count(&session), 2);
}

#[test]
fn multiple_sessions_tracked_independently() {
    let mut reg = SubscriptionRegistry::default();
    let s1 = sid("d1");
    let s2 = sid("d2");
    let _h1 = LiveEventStream::subscribe(s1.clone(), EventSeq::zero(), &mut reg);
    let _h2 = LiveEventStream::subscribe(s2.clone(), EventSeq::zero(), &mut reg);
    let _h3 = LiveEventStream::subscribe(s1.clone(), EventSeq::zero(), &mut reg);
    assert_eq!(reg.active_count(&s1), 2);
    assert_eq!(reg.active_count(&s2), 1);
    assert_eq!(reg.total(), 3);
}

#[test]
fn explicit_disconnect_unregisters_handle() {
    let mut reg = SubscriptionRegistry::default();
    let session = sid("e");
    let stream = LiveEventStream::subscribe(session.clone(), EventSeq::zero(), &mut reg);
    assert_eq!(reg.active_count(&session), 1);
    stream.disconnect(&mut reg);
    assert_eq!(reg.active_count(&session), 0);
}

#[test]
fn poll_batch_stub_returns_empty_with_current_cursor() {
    let mut reg = SubscriptionRegistry::default();
    let session = sid("f");
    let mut stream = LiveEventStream::subscribe(session.clone(), EventSeq::zero(), &mut reg);
    let batch = stream.poll_batch(100);
    assert!(batch.events.is_empty());
    assert_eq!(&batch.next_cursor, stream.cursor());
}

#[test]
fn advance_forward_succeeds() {
    let mut reg = SubscriptionRegistry::default();
    let mut stream = LiveEventStream::subscribe(sid("g"), EventSeq::zero(), &mut reg);
    assert!(stream.advance(EventSeq::new(5)).is_ok());
    assert_eq!(stream.cursor().next_seq(), EventSeq::new(5));
}

#[test]
fn advance_backward_is_rejected() {
    let mut reg = SubscriptionRegistry::default();
    let mut stream = LiveEventStream::subscribe(sid("h"), EventSeq::zero(), &mut reg);
    assert!(stream.advance(EventSeq::new(10)).is_ok());
    let result = stream.advance(EventSeq::new(5));
    assert!(matches!(result, Err(LiveStreamError::BackwardAdvance { .. })));
    assert_eq!(
        result,
        Err(LiveStreamError::BackwardAdvance { current: 10, requested: 5 })
    );
    assert_eq!(stream.cursor().next_seq(), EventSeq::new(10));
}

#[test]
fn advance_to_same_seq_is_noop() {
    let mut reg = SubscriptionRegistry::default();
    let mut stream = LiveEventStream::subscribe(sid("i"), EventSeq::zero(), &mut reg);
    assert!(stream.advance(EventSeq::new(7)).is_ok());
    assert!(stream.advance(EventSeq::new(7)).is_ok());
    assert_eq!(stream.cursor().next_seq(), EventSeq::new(7));
}

#[test]
fn session_id_accessor_returns_subscribed_session() {
    let mut reg = SubscriptionRegistry::default();
    let session = sid("j");
    let stream = LiveEventStream::subscribe(session.clone(), EventSeq::zero(), &mut reg);
    assert_eq!(stream.session_id(), &session);
}

#[test]
fn causality_status_returns_unsupported_stub() {
    assert_eq!(causality_status(), CausalityStatus::Unsupported);
}

#[test]
fn causality_status_variants_are_distinct() {
    assert_ne!(CausalityStatus::Unsupported, CausalityStatus::Wired);
}

#[test]
fn registry_default_is_empty() {
    let reg = SubscriptionRegistry::default();
    let session = sid("k");
    assert_eq!(reg.active_count(&session), 0);
    assert_eq!(reg.total(), 0);
}

#[test]
fn mock_event_fields_are_independent() {
    let e1 = MockEvent { seq: EventSeq::new(1), kind: "lock".to_string(), payload: "acquire".to_string() };
    let e2 = e1.clone();
    assert_eq!(e1, e2);
}

#[test]
fn event_batch_equality() {
    let mut reg = SubscriptionRegistry::default();
    let mut stream = LiveEventStream::subscribe(sid("l"), EventSeq::zero(), &mut reg);
    let b1 = stream.poll_batch(10);
    let b2 = stream.poll_batch(10);
    assert_eq!(b1, b2);
}

#[test]
fn subscribe_then_disconnect_restores_counts() {
    let mut reg = SubscriptionRegistry::default();
    let a = sid("m1");
    let b = sid("m2");
    let _keep = LiveEventStream::subscribe(b.clone(), EventSeq::zero(), &mut reg);
    let s = LiveEventStream::subscribe(a.clone(), EventSeq::zero(), &mut reg);
    s.disconnect(&mut reg);
    assert_eq!(reg.active_count(&a), 0);
    assert_eq!(reg.active_count(&b), 1);
    assert_eq!(reg.total(), 1);
}

#[test]
fn live_stream_error_messages() {
    assert_eq!(
        LiveStreamError::BackwardAdvance { current: 10, requested: 5 }.message(),
        "backward cursor advance rejected: current 10, requested 5"
    );
}

#[test]
fn subscribe_starts_at_the_session_tail() {
    let mut reg = SubscriptionRegistry::default();
    let session = sid("tail");
    let stream = LiveEventStream::subscribe(session.clone(), EventSeq::new(42), &mut reg);
    assert_eq!(stream.cursor().next_seq(), EventSeq::new(42));
    assert_eq!(stream.cursor().session_id(), &session);
    assert_eq!(reg.active_count(&session), 1);
    assert_eq!(reg.total(), 1);
}
