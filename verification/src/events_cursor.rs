//! `EventsCursorV1`: the authoritative agent-visible read cursor, a
//! position `(schema_version, session_id, next_seq)` in a session's log,
//! with an opaque, stable text form.

use vstd::prelude::*;
use vstd::utf8::{valid_utf8, decode_utf8, encode_utf8, is_continuation_byte};
use vstd::string::StringSliceAdditionalSpecFns;
use crate::text::{
    dec, dec_bytes, dec_string, debug_str, debug_str_text, parse_unsigned, parse_unsigned_spec, push_str,
    utf8_to_string, lemma_dec_bytes_props, lemma_parse_dec, lemma_encode_utf8_concat,
};

verus! {

/// Sequence number of a record in a session's execution log.
#[derive(Debug, Clone, Copy, PartialEq, Eq, PartialOrd, Ord, Hash, Structural)]
pub struct EventSeq(pub u64);

impl EventSeq {
    /// The first position of a log.
    pub fn zero() -> (s: Self)
        ensures
            s.0 == 0,
    {
        EventSeq(0)
    }

    pub fn new(v: u64) -> (s: Self)
        ensures
            s.0 == v,
    {
        EventSeq(v)
    }

    pub fn get(&self) -> (v: u64)
        ensures
            v == self.0,
    {
        self.0
    }
}

/// Identifier of a capture session.
#[derive(Debug, PartialEq, Eq, Hash)]
pub struct SessionId {
    id: String,
}

impl Clone for SessionId {
    fn clone(&self) -> (r: Self)
        ensures
            r@ == self@,
    {
        SessionId { id: self.id.clone() }
    }
}

impl View for SessionId {
    type V = Seq<char>;

    closed spec fn view(&self) -> Seq<char> {
        self.id@
    }
}

impl SessionId {
    pub fn new(id: &str) -> (s: Self)
        ensures
            s@ == id@,
    {
        SessionId { id: id.to_owned() }
    }

    pub fn from_string(id: String) -> (s: Self)
        ensures
            s@ == id@,
    {
        SessionId { id }
    }

    pub fn as_str(&self) -> (s: &str)
        ensures
            s@ == self@,
    {
        self.id.as_str()
    }

    /// Same characters.
    pub fn same(&self, other: &SessionId) -> (b: bool)
        ensures
            b == (self@ == other@),
    {
        self.id == other.id
    }
}

/// Schema version this build understands and emits.
pub const EVENTS_CURSOR_V1_SCHEMA: u16 = 1;

/// Typed failures when validating an externally supplied cursor.
#[derive(Debug, Clone, PartialEq, Eq)]
pub enum EventsCursorError {
    /// The external representation could not be parsed.
    Malformed { reason: String },
    /// The cursor was produced by a schema version this build does not support.
    UnsupportedVersion { found: u16, supported: u16 },
    /// The cursor belongs to a different session than the one being read.
    WrongSession { expected: String, found: String },
}

/// The text an `EventsCursorError` displays.
pub open spec fn cursor_error_text(e: EventsCursorError) -> Seq<char> {
    match e {
        EventsCursorError::Malformed { reason } => "malformed cursor: "@ + reason@,
        EventsCursorError::UnsupportedVersion { found, supported } => "unsupported cursor schema version "@ + dec(
            found as nat,
        ) + " (supported: "@ + dec(supported as nat) + ")"@,
        EventsCursorError::WrongSession { expected, found } => "cursor belongs to session "@ + debug_str_text(found@)
            + ", not "@ + debug_str_text(expected@),
    }
}

impl EventsCursorError {
    /// The human-readable description of the failure.
    pub fn message(&self) -> (s: String)
        ensures
            s@ == cursor_error_text(*self),
    {
        match self {
            EventsCursorError::Malformed { reason } => {
                let mut s = "malformed cursor: ".to_owned();
                push_str(&mut s, reason.as_str());
                s
            },
            EventsCursorError::UnsupportedVersion { found, supported } => {
                let mut s = "unsupported cursor schema version ".to_owned();
                let f = dec_string(*found as u64);
                push_str(&mut s, f.as_str());
                push_str(&mut s, " (supported: ");
                let p = dec_string(*supported as u64);
                push_str(&mut s, p.as_str());
                push_str(&mut s, ")");
                s
            },
            EventsCursorError::WrongSession { expected, found } => {
                let mut s = "cursor belongs to session ".to_owned();
                let f = debug_str(found.as_str());
                push_str(&mut s, f.as_str());
                push_str(&mut s, ", not ");
                let e = debug_str(expected.as_str());
                push_str(&mut s, e.as_str());
                s
            },
        }
    }
}

/// Authoritative read cursor: `(schema_version, session_id, next_seq)`.
#[derive(Debug, PartialEq, Eq, Hash)]
pub struct EventsCursorV1 {
    schema_version: u16,
    session_id: SessionId,
    next_seq: EventSeq,
}

impl Clone for EventsCursorV1 {
    fn clone(&self) -> (r: Self)
        ensures
            r.spec_schema() == self.spec_schema(),
            r.spec_session() == self.spec_session(),
            r.spec_next() == self.spec_next(),
    {
        EventsCursorV1 { schema_version: self.schema_version, session_id: self.session_id.clone(), next_seq: self.next_seq }
    }
}

/// The text form `ecv1:<schema>:<len>:<session_id>:<next_seq>`, where
/// `<len>` is the byte length of the session id.
pub open spec fn encode_spec(schema: u16, session: Seq<char>, next: u64) -> Seq<char> {
    seq!['e', 'c', 'v', '1', ':'] + dec(schema as nat) + seq![':'] + dec(encode_utf8(session).len())
        + seq![':'] + session + seq![':'] + dec(next as nat)
}

/// Outcome of parsing a cursor's bytes.
pub enum CursorParse {
    Malformed(Seq<char>),
    UnsupportedVersion(nat),
    Parsed(Seq<u8>, nat),
}

/// Index of the first `:` at or after `i`, or -1.
pub open spec fn find_colon(b: Seq<u8>, i: int) -> int
    decreases b.len() - i,
{
    if i < 0 || i >= b.len() {
        -1
    } else if b[i] == 58u8 {
        i
    } else {
        find_colon(b, i + 1)
    }
}

pub open spec fn prefix_bytes() -> Seq<u8> {
    seq![101u8, 99u8, 118u8, 49u8]
}

pub open spec fn frag(b: Seq<u8>, start: int, end: int) -> Seq<char> {
    decode_utf8(b.subrange(start, end))
}

/// The parse of a cursor's text (as UTF-8 bytes), following the
/// four-way split on `:` of the text form.
pub open spec fn parse_cursor_spec(b: Seq<u8>) -> CursorParse {
    let c1 = find_colon(b, 0);
    let p_end = if c1 < 0 { b.len() as int } else { c1 };
    if b.subrange(0, p_end) != prefix_bytes() {
        CursorParse::Malformed(
            "expected prefix \"ecv1\", found "@ + debug_str_text(frag(b, 0, p_end)),
        )
    } else if c1 < 0 {
        CursorParse::Malformed("missing schema version"@)
    } else {
        let c2 = find_colon(b, c1 + 1);
        if c2 < 0 {
            CursorParse::Malformed("missing session length"@)
        } else {
            let c3 = find_colon(b, c2 + 1);
            if c3 < 0 {
                CursorParse::Malformed("missing session id"@)
            } else {
                match parse_unsigned_spec(b.subrange(c1 + 1, c2), 65535) {
                    None => CursorParse::Malformed(
                        "non-numeric schema version "@ + debug_str_text(frag(b, c1 + 1, c2)),
                    ),
                    Some(v) => if v != 1 {
                        CursorParse::UnsupportedVersion(v)
                    } else {
                        match parse_unsigned_spec(b.subrange(c2 + 1, c3), usize::MAX as nat) {
                            None => CursorParse::Malformed(
                                "non-numeric session length "@ + debug_str_text(frag(b, c2 + 1, c3)),
                            ),
                            Some(k) => {
                                let rest = b.subrange(c3 + 1, b.len() as int);
                                if rest.len() < k {
                                    CursorParse::Malformed(
                                        "session id shorter than declared length "@ + dec(k),
                                    )
                                } else if k < rest.len() && is_continuation_byte(rest[k as int]) {
                                    CursorParse::Malformed(
                                        "session length "@ + dec(k) + " ends inside a character"@,
                                    )
                                } else {
                                    let tail = rest.subrange(k as int, rest.len() as int);
                                    if tail.len() == 0 || tail[0] != 58u8 {
                                        CursorParse::Malformed("missing separator after session id"@)
                                    } else {
                                        match parse_unsigned_spec(tail.subrange(1, tail.len() as int), u64::MAX as nat) {
                                            None => CursorParse::Malformed(
                                                "non-numeric next_seq "@ + debug_str_text(
                                                    decode_utf8(tail.subrange(1, tail.len() as int)),
                                                ),
                                            ),
                                            Some(n) => CursorParse::Parsed(rest.subrange(0, k as int), n),
                                        }
                                    }
                                }
                            },
                        }
                    },
                }
            }
        }
    }
}

pub proof fn lemma_find_colon_bounds(b: Seq<u8>, i: int)
    ensures
        find_colon(b, i) == -1 || (i <= find_colon(b, i) < b.len() && b[find_colon(b, i)] == 58u8),
        forall|j: int| 0 <= i <= j < b.len() && (find_colon(b, i) == -1 || j < find_colon(b, i)) ==> b[j] != 58u8,
    decreases b.len() - i,
{
    if 0 <= i < b.len() && b[i] != 58u8 {
        lemma_find_colon_bounds(b, i + 1);
    }
}

/// A UTF-8 text stays valid after an ASCII byte, and before it.
pub proof fn lemma_split_at_ascii(b: Seq<u8>, i: int)
    requires
        valid_utf8(b),
        0 <= i < b.len(),
        b[i] <= 0x7f,
    ensures
        valid_utf8(b.subrange(0, i)),
        valid_utf8(b.subrange(i + 1, b.len() as int)),
{
    vstd::utf8::is_char_boundary_iff_not_is_continuation_byte(b, i);
    vstd::utf8::valid_utf8_split(b, i);
    let s = b.subrange(i, b.len() as int);
    assert(s[0] == b[i]);
    assert(vstd::utf8::pop_first_scalar(s) =~= b.subrange(i + 1, b.len() as int));
}

pub proof fn lemma_between_ascii(b: Seq<u8>, a: int, c: int)
    requires
        valid_utf8(b),
        0 <= a <= c < b.len(),
        a > 0 ==> b[a - 1] <= 0x7f,
        b[c] <= 0x7f,
    ensures
        valid_utf8(b.subrange(a, c)),
{
    let s = if a > 0 {
        lemma_split_at_ascii(b, a - 1);
        b.subrange(a, b.len() as int)
    } else {
        assert(b.subrange(0, b.len() as int) =~= b);
        b
    };
    assert(s[c - a] == b[c]);
    lemma_split_at_ascii(s, c - a);
    assert(s.subrange(0, c - a) =~= b.subrange(a, c));
}

/// `b[start..end]` copied out.
fn sub_bytes(b: &[u8], start: usize, end: usize) -> (v: Vec<u8>)
    requires
        start <= end <= b@.len(),
    ensures
        v@ == b@.subrange(start as int, end as int),
{
    let mut v: Vec<u8> = Vec::new();
    let mut i = start;
    while i < end
        invariant
            start <= i <= end <= b@.len(),
            v@ == b@.subrange(start as int, i as int),
        decreases end - i,
    {
        v.push(b[i]);
        i += 1;
        assert(v@ =~= b@.subrange(start as int, i as int));
    }
    v
}

/// The text of `b[start..end]`, which must be valid UTF-8.
fn frag_string(b: &[u8], start: usize, end: usize) -> (s: String)
    requires
        start <= end <= b@.len(),
        valid_utf8(b@.subrange(start as int, end as int)),
    ensures
        s@ == frag(b@, start as int, end as int),
{
    let v = sub_bytes(b, start, end);
    match utf8_to_string(v.as_slice()) {
        Some(s) => s,
        None => String::new(),
    }
}

/// `prefix + debug(b[start..end])`.
fn reason_with_fragment(prefix: &str, b: &[u8], start: usize, end: usize) -> (s: String)
    requires
        start <= end <= b@.len(),
        valid_utf8(b@.subrange(start as int, end as int)),
    ensures
        s@ == prefix@ + debug_str_text(frag(b@, start as int, end as int)),
{
    let f = frag_string(b, start, end);
    let d = debug_str(f.as_str());
    let mut s = prefix.to_owned();
    push_str(&mut s, d.as_str());
    s
}

fn find_colon_exec(b: &[u8], from: usize) -> (r: Option<usize>)
    requires
        from <= b@.len(),
    ensures
        match r {
            Some(i) => find_colon(b@, from as int) == i as int,
            None => find_colon(b@, from as int) == -1,
        },
{
    let mut i = from;
    while i < b.len()
        invariant
            from <= i <= b@.len(),
            find_colon(b@, from as int) == find_colon(b@, i as int),
        decreases b@.len() - i,
    {
        if b[i] == 58u8 {
            return Some(i);
        }
        i += 1;
    }
    None
}

fn malformed(reason: String) -> (e: EventsCursorError)
    ensures
        e matches EventsCursorError::Malformed { reason: r } && r@ == reason@,
{
    EventsCursorError::Malformed { reason }
}

/// `r` is the error the parse outcome `p` calls for.
pub open spec fn error_matches(p: CursorParse, e: EventsCursorError) -> bool {
    match p {
        CursorParse::Malformed(reason) => e matches EventsCursorError::Malformed { reason: r } && r@ == reason,
        CursorParse::UnsupportedVersion(v) => e == EventsCursorError::UnsupportedVersion {
            found: v as u16,
            supported: 1,
        },
        CursorParse::Parsed(_, _) => false,
    }
}

/// Parse `encoded` into `(schema_version, session_id, next_seq)`.
fn parse(encoded: &str) -> (r: Result<(u16, SessionId, EventSeq), EventsCursorError>)
    ensures
        match parse_cursor_spec(encoded.spec_bytes()) {
            CursorParse::Parsed(session, n) => r matches Ok((v, s, q)) && v == 1 && s@ == decode_utf8(session)
                && q.0 == n,
            p => r matches Err(e) && error_matches(p, e),
        },
{
    let b = encoded.as_bytes();
    let ghost bs = b@;
    proof {
        vstd::utf8::encode_utf8_valid_utf8(encoded@);
        assert(valid_utf8(bs));
        lemma_find_colon_bounds(bs, 0);
    }
    let c1 = find_colon_exec(b, 0);
    let p_end: usize = match c1 {
        Some(i) => i,
        None => b.len(),
    };
    proof {
        if c1 is Some {
            lemma_split_at_ascii(bs, p_end as int);
        } else {
            assert(bs.subrange(0, bs.len() as int) =~= bs);
        }
    }
    let prefix_ok = p_end == 4 && b[0] == 101u8 && b[1] == 99u8 && b[2] == 118u8 && b[3] == 49u8;
    proof {
        if prefix_ok {
            assert(bs.subrange(0, p_end as int) =~= prefix_bytes());
        } else if p_end == 4 {
            if bs.subrange(0, p_end as int) == prefix_bytes() {
                assert(bs.subrange(0, p_end as int)[0] == bs[0]);
                assert(bs.subrange(0, p_end as int)[1] == bs[1]);
                assert(bs.subrange(0, p_end as int)[2] == bs[2]);
                assert(bs.subrange(0, p_end as int)[3] == bs[3]);
            }
        }
    }
    if !prefix_ok {
        return Err(malformed(reason_with_fragment("expected prefix \"ecv1\", found ", b, 0, p_end)));
    }
    let c1 = match c1 {
        Some(i) => i,
        None => {
            return Err(malformed("missing schema version".to_owned()));
        },
    };
    proof {
        lemma_find_colon_bounds(bs, c1 + 1);
    }
    let c2 = match find_colon_exec(b, c1 + 1) {
        Some(i) => i,
        None => {
            return Err(malformed("missing session length".to_owned()));
        },
    };
    proof {
        lemma_find_colon_bounds(bs, c2 + 1);
    }
    let c3 = match find_colon_exec(b, c2 + 1) {
        Some(i) => i,
        None => {
            return Err(malformed("missing session id".to_owned()));
        },
    };
    let version = match parse_unsigned(b, c1 + 1, c2, 65535) {
        Some(v) => v,
        None => {
            proof {
                lemma_between_ascii(bs, c1 + 1, c2 as int);
            }
            return Err(malformed(reason_with_fragment("non-numeric schema version ", b, c1 + 1, c2)));
        },
    };
    if version != 1 {
        return Err(EventsCursorError::UnsupportedVersion { found: version as u16, supported: EVENTS_CURSOR_V1_SCHEMA });
    }
    let declared_len = match parse_unsigned(b, c2 + 1, c3, usize::MAX as u64) {
        Some(v) => v as usize,
        None => {
            proof {
                lemma_between_ascii(bs, c2 + 1, c3 as int);
            }
            return Err(malformed(reason_with_fragment("non-numeric session length ", b, c2 + 1, c3)));
        },
    };
    let rest_start = c3 + 1;
    let rest_len = b.len() - rest_start;
    let ghost rest = bs.subrange(rest_start as int, bs.len() as int);
    if rest_len < declared_len {
        let mut s = "session id shorter than declared length ".to_owned();
        let d = dec_string(declared_len as u64);
        push_str(&mut s, d.as_str());
        return Err(malformed(s));
    }
    let tail_start = rest_start + declared_len;
    if declared_len < rest_len && b[tail_start] >= 0x80u8 && b[tail_start] < 0xC0u8 {
        assert(rest[declared_len as int] == bs[tail_start as int]);
        let mut s = "session length ".to_owned();
        let d = dec_string(declared_len as u64);
        push_str(&mut s, d.as_str());
        push_str(&mut s, " ends inside a character");
        return Err(malformed(s));
    }
    if declared_len == rest_len {
        return Err(malformed("missing separator after session id".to_owned()));
    }
    proof {
        assert(rest[declared_len as int] == bs[tail_start as int]);
        lemma_split_at_ascii(bs, c3 as int);
        vstd::utf8::is_char_boundary_iff_not_is_continuation_byte(rest, declared_len as int);
        vstd::utf8::valid_utf8_split(rest, declared_len as int);
        assert(rest.subrange(0, declared_len as int) =~= bs.subrange(rest_start as int, rest_start + declared_len));
    }
    let ghost tail = rest.subrange(declared_len as int, rest.len() as int);
    proof {
        assert(tail =~= bs.subrange(tail_start as int, bs.len() as int));
    }
    if tail_start >= b.len() || b[tail_start] != 58u8 {
        return Err(malformed("missing separator after session id".to_owned()));
    }
    let next = match parse_unsigned(b, tail_start + 1, b.len(), u64::MAX) {
        Some(n) => n,
        None => {
            proof {
                assert(tail.subrange(1, tail.len() as int) =~= bs.subrange(tail_start + 1, bs.len() as int));
                lemma_split_at_ascii(bs, tail_start as int);
            }
            return Err(malformed(reason_with_fragment("non-numeric next_seq ", b, tail_start + 1, b.len())));
        },
    };
    proof {
        assert(tail.subrange(1, tail.len() as int) =~= bs.subrange(tail_start + 1, bs.len() as int));
    }
    let session = frag_string(b, rest_start, tail_start);
    Ok((1u16, SessionId::from_string(session), EventSeq::new(next)))
}

impl EventsCursorV1 {
    pub closed spec fn spec_schema(&self) -> u16 {
        self.schema_version
    }

    pub closed spec fn spec_session(&self) -> Seq<char> {
        self.session_id@
    }

    pub closed spec fn spec_next(&self) -> u64 {
        self.next_seq.0
    }

    /// A fresh cursor at the beginning of `session_id`'s log.
    pub fn start(session_id: SessionId) -> (c: Self)
        ensures
            c.spec_schema() == EVENTS_CURSOR_V1_SCHEMA,
            c.spec_session() == session_id@,
            c.spec_next() == 0,
    {
        EventsCursorV1 { schema_version: EVENTS_CURSOR_V1_SCHEMA, session_id, next_seq: EventSeq(0) }
    }

    pub fn schema_version(&self) -> (v: u16)
        ensures
            v == self.spec_schema(),
    {
        self.schema_version
    }

    pub fn session_id(&self) -> (s: &SessionId)
        ensures
            s@ == self.spec_session(),
    {
        &self.session_id
    }

    pub fn next_seq(&self) -> (s: EventSeq)
        ensures
            s.0 == self.spec_next(),
    {
        self.next_seq
    }

    /// Advance the cursor to a position no earlier than the current one;
    /// going backwards is rejected.
    pub fn advance_to(&self, next_seq: EventSeq) -> (r: Result<Self, EventsCursorError>)
        ensures
            next_seq.0 >= self.spec_next() ==> (r matches Ok(c) && c.spec_schema() == self.spec_schema()
                && c.spec_session() == self.spec_session() && c.spec_next() == next_seq.0),
            next_seq.0 < self.spec_next() ==> (r matches Err(EventsCursorError::Malformed { reason })
                && reason@ == "non-monotonic advance: "@ + dec(self.spec_next() as nat) + " -> "@ + dec(
                next_seq.0 as nat,
            )),
    {
        if next_seq.0 < self.next_seq.0 {
            let mut s = "non-monotonic advance: ".to_owned();
            let a = dec_string(self.next_seq.0);
            push_str(&mut s, a.as_str());
            push_str(&mut s, " -> ");
            let b = dec_string(next_seq.0);
            push_str(&mut s, b.as_str());
            return Err(EventsCursorError::Malformed { reason: s });
        }
        Ok(EventsCursorV1 { schema_version: self.schema_version, session_id: self.session_id.clone(), next_seq })
    }

    /// Same as `advance_to`, consuming the cursor.
    pub fn advanced_to(self, next_seq: EventSeq) -> (r: Result<Self, EventsCursorError>)
        ensures
            next_seq.0 >= self.spec_next() ==> (r matches Ok(c) && c.spec_schema() == self.spec_schema()
                && c.spec_session() == self.spec_session() && c.spec_next() == next_seq.0),
            next_seq.0 < self.spec_next() ==> r is Err,
    {
        self.advance_to(next_seq)
    }

    /// Opaque, stable external representation.
    pub fn encode(&self) -> (s: String)
        ensures
            s@ == encode_spec(self.spec_schema(), self.spec_session(), self.spec_next()),
    {
        let mut s = "ecv1:".to_owned();
        proof {
            reveal_strlit("ecv1:");
            assert(s@ =~= seq!['e', 'c', 'v', '1', ':']);
        }
        let v = dec_string(self.schema_version as u64);
        push_str(&mut s, v.as_str());
        push_str(&mut s, ":");
        let sid = self.session_id.as_str();
        let sid_len = sid.as_bytes().len();
        assert(sid_len as nat == encode_utf8(sid@).len());
        let l = dec_string(sid_len as u64);
        push_str(&mut s, l.as_str());
        push_str(&mut s, ":");
        push_str(&mut s, sid);
        push_str(&mut s, ":");
        let n = dec_string(self.next_seq.0);
        push_str(&mut s, n.as_str());
        proof {
            reveal_strlit("ecv1:");
            reveal_strlit(":");
            assert(s@ =~= encode_spec(self.spec_schema(), self.spec_session(), self.spec_next()));
        }
        s
    }

    /// Parse an opaque representation without a session expectation.
    pub fn decode(encoded: &str) -> (r: Result<Self, EventsCursorError>)
        ensures
            match parse_cursor_spec(encoded.spec_bytes()) {
                CursorParse::Parsed(session, n) => r matches Ok(c) && c.spec_schema() == 1 && c.spec_session()
                    == decode_utf8(session) && c.spec_next() == n,
                p => r matches Err(e) && error_matches(p, e),
            },
    {
        match parse(encoded) {
            Ok((schema_version, session_id, next_seq)) => Ok(EventsCursorV1 { schema_version, session_id, next_seq }),
            Err(e) => Err(e),
        }
    }

    /// Parse an opaque representation and require it to belong to `expected`.
    pub fn decode_for_session(encoded: &str, expected: &SessionId) -> (r: Result<Self, EventsCursorError>)
        ensures
            match parse_cursor_spec(encoded.spec_bytes()) {
                CursorParse::Parsed(session, n) => if decode_utf8(session) == expected@ {
                    r matches Ok(c) && c.spec_schema() == 1 && c.spec_session() == expected@ && c.spec_next() == n
                } else {
                    r matches Err(EventsCursorError::WrongSession { expected: ex, found: fo }) && ex@ == expected@
                        && fo@ == decode_utf8(session)
                },
                p => r matches Err(e) && error_matches(p, e),
            },
    {
        let cursor = Self::decode(encoded)?;
        if !cursor.session_id.same(expected) {
            return Err(EventsCursorError::WrongSession {
                expected: expected.as_str().to_owned(),
                found: cursor.session_id.as_str().to_owned(),
            });
        }
        Ok(cursor)
    }
}

} // verus!

verus! {

pub proof fn lemma_find_colon_at(b: Seq<u8>, i: int, j: int)
    requires
        0 <= i <= j < b.len(),
        b[j] == 58u8,
        forall|k: int| i <= k < j ==> b[k] != 58u8,
    ensures
        find_colon(b, i) == j,
    decreases j - i,
{
    if i < j {
        lemma_find_colon_at(b, i + 1, j);
    }
}

proof fn lemma_encode_ascii_colon()
    ensures
        encode_utf8(seq![':']) == seq![58u8],
{
    let c = seq![':'];
    assert(vstd::utf8::is_ascii_chars(c));
    vstd::utf8::is_ascii_chars_encode_utf8(c);
    assert(encode_utf8(c) =~= seq![58u8]);
}

proof fn lemma_encode_prefix()
    ensures
        encode_utf8(seq!['e', 'c', 'v', '1', ':']) == prefix_bytes() + seq![58u8],
{
    let c = seq!['e', 'c', 'v', '1', ':'];
    assert(vstd::utf8::is_ascii_chars(c));
    vstd::utf8::is_ascii_chars_encode_utf8(c);
    assert(encode_utf8(c) =~= prefix_bytes() + seq![58u8]);
}

proof fn lemma_encode_dec(n: nat)
    ensures
        encode_utf8(dec(n)) == dec_bytes(n),
{
    lemma_dec_bytes_props(n);
    assert(vstd::utf8::is_ascii_chars(dec(n)));
    vstd::utf8::is_ascii_chars_encode_utf8(dec(n));
    assert(encode_utf8(dec(n)) =~= dec_bytes(n));
}

/// The bytes of a cursor's text form.
pub open spec fn encoded_bytes(session: Seq<char>, next: u64) -> Seq<u8> {
    prefix_bytes() + seq![58u8] + dec_bytes(1) + seq![58u8] + dec_bytes(encode_utf8(session).len()) + seq![58u8]
        + encode_utf8(session) + seq![58u8] + dec_bytes(next as nat)
}

proof fn lemma_encoded_bytes(session: Seq<char>, next: u64)
    ensures
        encode_utf8(encode_spec(1, session, next)) == encoded_bytes(session, next),
{
    let p = seq!['e', 'c', 'v', '1', ':'];
    let col = seq![':'];
    let d1 = dec(1);
    let d2 = dec(encode_utf8(session).len());
    let d3 = dec(next as nat);
    lemma_encode_prefix();
    lemma_encode_ascii_colon();
    lemma_encode_dec(1);
    lemma_encode_dec(encode_utf8(session).len());
    lemma_encode_dec(next as nat);
    lemma_encode_utf8_concat(p, d1);
    lemma_encode_utf8_concat(p + d1, col);
    lemma_encode_utf8_concat(p + d1 + col, d2);
    lemma_encode_utf8_concat(p + d1 + col + d2, col);
    lemma_encode_utf8_concat(p + d1 + col + d2 + col, session);
    lemma_encode_utf8_concat(p + d1 + col + d2 + col + session, col);
    lemma_encode_utf8_concat(p + d1 + col + d2 + col + session + col, d3);
    assert(encode_spec(1, session, next) == p + d1 + col + d2 + col + session + col + d3);
}

/// Decoding an encoded cursor gives the same cursor back: the text form
/// of `(1, session, next)` parses to exactly that session and position.
pub proof fn law_cursor_roundtrip(session: Seq<char>, next: u64)
    requires
        encode_utf8(session).len() <= usize::MAX,
    ensures
        parse_cursor_spec(encode_utf8(encode_spec(1, session, next))) == CursorParse::Parsed(
            encode_utf8(session),
            next as nat,
        ),
        decode_utf8(encode_utf8(session)) == session,
{
    lemma_encoded_bytes(session, next);
    let b = encoded_bytes(session, next);
    let sb = encode_utf8(session);
    let l = sb.len();
    let db1 = dec_bytes(1);
    let db2 = dec_bytes(l);
    let db3 = dec_bytes(next as nat);
    lemma_dec_bytes_props(1);
    lemma_dec_bytes_props(l);
    lemma_dec_bytes_props(next as nat);
    vstd::utf8::encode_utf8_decode_utf8(session);
    let c1 = 4int;
    let c2: int = 5 + db1.len() as int;
    let c3: int = c2 + 1 + db2.len() as int;
    assert(b[c1] == 58u8);
    assert forall|k: int| 0 <= k < c1 implies b[k] != 58u8 by {
        assert(b[k] == prefix_bytes()[k]);
    }
    lemma_find_colon_at(b, 0, c1);
    assert(b[c2] == 58u8);
    assert forall|k: int| c1 + 1 <= k < c2 implies b[k] != 58u8 by {
        assert(b[k] == db1[k - 5]);
    }
    lemma_find_colon_at(b, c1 + 1, c2);
    assert(b[c3] == 58u8);
    assert forall|k: int| c2 + 1 <= k < c3 implies b[k] != 58u8 by {
        assert(b[k] == db2[k - c2 - 1]);
    }
    lemma_find_colon_at(b, c2 + 1, c3);
    assert(b.subrange(0, c1) =~= prefix_bytes());
    assert(b.subrange(c1 + 1, c2) =~= db1);
    assert(b.subrange(c2 + 1, c3) =~= db2);
    lemma_parse_dec(1, 65535);
    lemma_parse_dec(l, usize::MAX as nat);
    let rest = b.subrange(c3 + 1, b.len() as int);
    assert(rest =~= sb + seq![58u8] + db3);
    let tail = rest.subrange(l as int, rest.len() as int);
    assert(tail =~= seq![58u8] + db3);
    assert(tail.subrange(1, tail.len() as int) =~= db3);
    lemma_parse_dec(next as nat, u64::MAX as nat);
    assert(rest.subrange(0, l as int) =~= sb);
    assert(rest[l as int] == 58u8);
}

} // verus!
