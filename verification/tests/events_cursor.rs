use chronos_services::events_cursor::{
    EventSeq, EventsCursorError, EventsCursorV1, SessionId, EVENTS_CURSOR_V1_SCHEMA,
};

fn sid(s: &str) -> SessionId {
    SessionId::new(s)
}

#[test]
fn start_is_at_zero_with_current_schema() {
    let c = EventsCursorV1::start(sid("s-1"));
    assert_eq!(c.schema_version(), EVENTS_CURSOR_V1_SCHEMA);
    assert_eq!(c.session_id().as_str(), "s-1");
    assert_eq!(c.next_seq(), EventSeq::zero());
}

#[test]
fn roundtrip_is_stable() {
    let c = EventsCursorV1::start(sid("sess-abc")).advance_to(EventSeq::new(42)).unwrap();
    let encoded = c.encode();
    assert_eq!(encoded, "ecv1:1:8:sess-abc:42");
    assert_eq!(EventsCursorV1::decode(&encoded).unwrap(), c);
    assert_eq!(EventsCursorV1::decode(&encoded).unwrap().encode(), encoded);
}

#[test]
fn roundtrip_survives_colons_and_unicode_in_session_id() {
    for raw in ["a:b:c", "sesión-ü", "", "x".repeat(300).as_str()] {
        let c = EventsCursorV1::start(sid(raw)).advance_to(EventSeq::new(7)).unwrap();
        let decoded = EventsCursorV1::decode(&c.encode()).unwrap();
        assert_eq!(decoded.session_id().as_str(), raw, "raw={raw:?}");
        assert_eq!(decoded.next_seq(), EventSeq::new(7));
    }
}

#[test]
fn rejects_foreign_prefix() {
    let err = EventsCursorV1::decode("ECV2:1:3:abc:0").unwrap_err();
    assert!(matches!(err, EventsCursorError::Malformed { .. }), "{err:?}");
}

#[test]
fn rejects_unsupported_version_before_anything_else() {
    let err = EventsCursorV1::decode("ecv1:2:3:abc:0").unwrap_err();
    assert_eq!(err, EventsCursorError::UnsupportedVersion { found: 2, supported: 1 });
}

#[test]
fn rejects_malformed_shapes() {
    for bad in [
        "",
        "ecv1",
        "ecv1:1",
        "ecv1:1:3",
        "ecv1:x:3:abc:0",
        "ecv1:1:x:abc:0",
        "ecv1:1:9:abc:0",
        "ecv1:1:3:abc",
        "ecv1:1:3:abc:not-a-number",
        "ecv1:1:3:abc:0:extra",
        "ecv1:1:3:ab",
    ] {
        let err = EventsCursorV1::decode(bad).unwrap_err();
        assert!(
            matches!(err, EventsCursorError::Malformed { .. }),
            "expected malformed for {bad:?}, got {err:?}"
        );
    }
}

#[test]
fn rejects_negative_and_non_u64_seq() {
    for bad in ["ecv1:1:3:abc:-1", "ecv1:1:3:abc:1.5", "ecv1:1:3:abc:1e3"] {
        assert!(matches!(EventsCursorV1::decode(bad).unwrap_err(), EventsCursorError::Malformed { .. }));
    }
}

#[test]
fn accepts_u64_max() {
    let max = format!("ecv1:1:3:abc:{}", u64::MAX);
    let c = EventsCursorV1::decode(&max).unwrap();
    assert_eq!(c.next_seq(), EventSeq::new(u64::MAX));
}

#[test]
fn session_check_rejects_mismatch() {
    let encoded = EventsCursorV1::start(sid("sess-a")).encode();
    let err = EventsCursorV1::decode_for_session(&encoded, &sid("sess-b")).unwrap_err();
    assert_eq!(
        err,
        EventsCursorError::WrongSession { expected: "sess-b".into(), found: "sess-a".into() }
    );
}

#[test]
fn session_check_accepts_match() {
    let c = EventsCursorV1::start(sid("sess-a"));
    let decoded = EventsCursorV1::decode_for_session(&c.encode(), &sid("sess-a")).unwrap();
    assert_eq!(decoded, c);
}

#[test]
fn session_check_surfaces_malformed_not_wrong_session() {
    let err = EventsCursorV1::decode_for_session("garbage", &sid("sess-a")).unwrap_err();
    assert!(matches!(err, EventsCursorError::Malformed { .. }));
}

#[test]
fn advance_is_monotonic_and_same_session() {
    let c = EventsCursorV1::start(sid("s")).advance_to(EventSeq::new(10)).unwrap();
    let fwd = c.advance_to(EventSeq::new(11)).unwrap();
    assert_eq!(fwd.next_seq(), EventSeq::new(11));
    assert_eq!(fwd.session_id(), c.session_id());
    assert!(c.advance_to(EventSeq::new(10)).is_ok());
    assert!(c.advance_to(EventSeq::new(9)).is_err());
}

#[test]
fn cursor_has_no_public_fields_and_no_offset_surface() {
    let c = EventsCursorV1::start(sid("s"));
    let _: u16 = c.schema_version();
    let _: &SessionId = c.session_id();
    let _: EventSeq = c.next_seq();
}

#[test]
fn error_messages_render_like_display() {
    assert_eq!(
        EventsCursorError::UnsupportedVersion { found: 2, supported: 1 }.message(),
        "unsupported cursor schema version 2 (supported: 1)"
    );
    assert_eq!(
        EventsCursorError::Malformed { reason: "x".into() }.message(),
        "malformed cursor: x"
    );
    assert_eq!(
        EventsCursorError::WrongSession { expected: "b".into(), found: "a".into() }.message(),
        "cursor belongs to session \"a\", not \"b\""
    );
}

#[test]
fn backward_advance_reason_names_both_positions() {
    let c = EventsCursorV1::start(sid("s")).advance_to(EventSeq::new(10)).unwrap();
    assert_eq!(
        c.advance_to(EventSeq::new(9)).unwrap_err(),
        EventsCursorError::Malformed { reason: "non-monotonic advance: 10 -> 9".into() }
    );
}

#[test]
fn a_session_length_ending_inside_a_character_is_malformed() {
    // "é" is two bytes: a declared length of 1 ends inside it.
    assert_eq!(
        EventsCursorV1::decode("ecv1:1:1:é:0").unwrap_err(),
        EventsCursorError::Malformed { reason: "session length 1 ends inside a character".into() }
    );
    assert!(EventsCursorV1::decode_for_session("ecv1:1:1:é:0", &sid("é")).is_err());
    let c = EventsCursorV1::start(sid("sesión")).advance_to(EventSeq::new(3)).unwrap();
    assert_eq!(EventsCursorV1::decode(&c.encode()).unwrap(), c);
    assert_eq!(EventsCursorV1::decode("ecv1:1:2:é:7").unwrap().session_id(), &sid("é"));
}
