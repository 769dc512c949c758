//! The `observe` dispatcher's decisions: which verbs and policies are
//! served, which session a request is about, where a firing page starts,
//! how uprobe subscriptions are named, and which subscriptions `delete`
//! accepts.

use vstd::prelude::*;
use crate::error::ServiceError;
use crate::events_cursor::{
    EventSeq, EventsCursorV1, SessionId, cursor_error_text, parse_cursor_spec, CursorParse,
    error_matches,
};
use crate::text::{bytes_start_with, dec, dec_string, push_str, starts_with, trim_str, trimmed};
use vstd::utf8::{decode_utf8, encode_utf8};

verus! {

/// Most firings one `list` page hands back.
pub const MAX_FIRINGS_PER_PAGE: usize = 200;

/// What an `observe` request does.
#[derive(Debug, Clone, Copy, PartialEq, Eq, Structural)]
pub enum ObserveVerb {
    Create,
    List,
    Delete,
    Query,
    Update,
}

/// How long observed evidence is kept.
#[derive(Debug, Clone, Copy, PartialEq, Eq, Structural)]
pub enum ObserveRetention {
    Drained,
    RetainedUntilSessionEnd,
    Permanent,
}

/// Which session a request is about.
#[derive(Debug, Clone, PartialEq, Eq)]
pub enum ObserveScope {
    Global,
    Session { session_id: String },
}

/// How complete a firing count is.
#[derive(Debug, Clone, Copy, PartialEq, Eq, Structural)]
pub enum FiringCountStatus {
    Complete,
    Truncated,
    Partial,
}

/// Outcome of attaching a uprobe.
#[derive(Debug, Clone, PartialEq, Eq)]
pub enum ProbeInjectResult {
    Attached { pid: u32 },
    AttachFailed { error: String },
    EbpfUnavailable(String),
    ProbeStarting,
}

/// Stateless holder of the `observe` decisions.
pub struct ChronosObserveService;

pub open spec fn firing_status_label(s: FiringCountStatus) -> Seq<char> {
    match s {
        FiringCountStatus::Complete => "complete"@,
        FiringCountStatus::Truncated => "truncated"@,
        FiringCountStatus::Partial => "partial"@,
    }
}

/// Wire name of a firing-count status.
pub fn firing_count_status_str(s: FiringCountStatus) -> (r: String)
    ensures
        r@ == firing_status_label(s),
{
    match s {
        FiringCountStatus::Complete => "complete".to_owned(),
        FiringCountStatus::Truncated => "truncated".to_owned(),
        FiringCountStatus::Partial => "partial".to_owned(),
    }
}

/// Text of the refusal of a cursor below the retention boundary.
pub open spec fn stale_cursor_text(next: nat, retained: nat) -> Seq<char> {
    "observe cursor is stale: next_seq "@ + dec(next) + " is below the retained boundary "@ + dec(retained)
        + "; re-anchor with a fresh cursor"@
}

/// The uprobe subscription id for the `n`-th uprobe of a session.
pub open spec fn uprobe_id_text(session: Seq<char>, n: nat) -> Seq<char> {
    "uprobe-"@ + session + "-"@ + dec(n)
}

/// Count recorded for `session` in the counter table (0 when absent).
pub open spec fn counter_of(counter: Seq<(String, usize)>, session: Seq<char>) -> nat
    decreases counter.len(),
{
    if counter.len() == 0 {
        0
    } else if counter.last().0@ == session {
        counter.last().1 as nat
    } else {
        counter_of(counter.drop_last(), session)
    }
}

impl ChronosObserveService {
    /// `update` is not served; every other verb is.
    pub fn check_verb(verb: ObserveVerb) -> (r: Result<(), ServiceError>)
        ensures
            verb == ObserveVerb::Update <==> r is Err,
            r matches Err(e) ==> (e matches ServiceError::Unsupported(m) && m@ == "verb=update deferred to m7+"@),
    {
        match verb {
            ObserveVerb::Update => Err(ServiceError::Unsupported("verb=update deferred to m7+".to_owned())),
            _ => Ok(()),
        }
    }

    /// The session a request is about: an explicit session scope always
    /// wins; otherwise the active session; otherwise none is active.
    pub fn resolve_session(scope: Option<&ObserveScope>, active: Option<String>) -> (r: Result<String, ServiceError>)
        ensures
            scope matches Some(ObserveScope::Session { session_id }) ==> (r matches Ok(s) && s@ == session_id@),
            !(scope matches Some(ObserveScope::Session { .. })) ==> match active {
                Some(a) => r matches Ok(s) && s@ == a@,
                None => r == Err::<String, ServiceError>(ServiceError::NoActiveSession),
            },
    {
        if let Some(ObserveScope::Session { session_id }) = scope {
            return Ok(session_id.clone());
        }
        match active {
            Some(a) => Ok(a),
            None => Err(ServiceError::NoActiveSession),
        }
    }

    /// The retention in effect for a `list`: drained by default; permanent
    /// retention is not served.
    pub fn check_retention(retention: Option<ObserveRetention>) -> (r: Result<ObserveRetention, ServiceError>)
        ensures
            retention == Some(ObserveRetention::Permanent) ==> (r matches Err(ServiceError::Unsupported(m)) && m@
                == "retention=permanent deferred to m7+"@),
            retention is None ==> r == Ok::<ObserveRetention, ServiceError>(ObserveRetention::Drained),
            retention matches Some(x) ==> (x != ObserveRetention::Permanent ==> r == Ok::<
                ObserveRetention,
                ServiceError,
            >(x)),
    {
        match retention {
            None => Ok(ObserveRetention::Drained),
            Some(ObserveRetention::Permanent) => Err(
                ServiceError::Unsupported("retention=permanent deferred to m7+".to_owned()),
            ),
            Some(x) => Ok(x),
        }
    }

    /// Property evidence is not served.
    pub fn check_requested_evidence(requests_properties: bool) -> (r: Result<(), ServiceError>)
        ensures
            requests_properties <==> r is Err,
            r matches Err(e) ==> (e matches ServiceError::Unsupported(m) && m@
                == "requested_evidence.kind=properties deferred to m7+"@),
    {
        if requests_properties {
            return Err(ServiceError::Unsupported("requested_evidence.kind=properties deferred to m7+".to_owned()));
        }
        Ok(())
    }

    /// Where a firing page starts: the decoded cursor, which must belong to
    /// the session and not lie below the retention boundary, or the
    /// boundary itself without a cursor. A cursor is never re-anchored.
    pub fn list_start(cursor: Option<&String>, session_id: &String, retained_from: EventSeq) -> (r: Result<
        EventSeq,
        ServiceError,
    >)
        ensures
            cursor is None ==> r == Ok::<EventSeq, ServiceError>(retained_from),
            cursor matches Some(t) ==> match parse_cursor_spec(encode_utf8(t@)) {
                CursorParse::Parsed(sess, n) => if decode_utf8(sess) != session_id@ {
                    r matches Err(ServiceError::InvalidInput(m)) && m@ == "observe cursor: "@ + "cursor belongs to session "@
                        + crate::text::debug_str_text(decode_utf8(sess)) + ", not "@ + crate::text::debug_str_text(
                        session_id@,
                    )
                } else if n < retained_from.0 {
                    r matches Err(ServiceError::InvalidInput(m)) && m@ == stale_cursor_text(n, retained_from.0 as nat)
                } else {
                    r == Ok::<EventSeq, ServiceError>(EventSeq(n as u64))
                },
                p => r matches Err(ServiceError::InvalidInput(m)) && exists|e: crate::events_cursor::EventsCursorError|
                    error_matches(p, e) && m@ == "observe cursor: "@ + cursor_error_text(e),
            },
    {
        match cursor {
            None => Ok(retained_from),
            Some(token) => {
                let sid = SessionId::new(session_id.as_str());
                match EventsCursorV1::decode_for_session(token.as_str(), &sid) {
                    Err(e) => {
                        let mut m = "observe cursor: ".to_owned();
                        let t = e.message();
                        push_str(&mut m, t.as_str());
                        Err(ServiceError::InvalidInput(m))
                    },
                    Ok(c) => {
                        let next = c.next_seq();
                        if next.0 < retained_from.0 {
                            let mut m = "observe cursor is stale: next_seq ".to_owned();
                            let a = dec_string(next.0);
                            push_str(&mut m, a.as_str());
                            push_str(&mut m, " is below the retained boundary ");
                            let b = dec_string(retained_from.0);
                            push_str(&mut m, b.as_str());
                            push_str(&mut m, "; re-anchor with a fresh cursor");
                            return Err(ServiceError::InvalidInput(m));
                        }
                        Ok(next)
                    },
                }
            },
        }
    }

    /// What a create request subscribes to: its condition, which it must
    /// carry.
    pub fn require_condition<C>(condition: Option<C>) -> (r: Result<C, ServiceError>)
        ensures
            condition matches Some(c) ==> r == Ok::<C, ServiceError>(c),
            condition is None ==> (r matches Err(ServiceError::Unsupported(m)) && m@
                == "verb=create requires 'condition'"@),
    {
        match condition {
            Some(c) => Ok(c),
            None => Err(ServiceError::Unsupported("verb=create requires 'condition'".to_owned())),
        }
    }

    /// The label of a created tripwire: the condition's own label, else the
    /// request's.
    pub fn tripwire_label(own: Option<String>, request: Option<String>) -> (r: Option<String>)
        ensures
            own is Some ==> r == own,
            own is None ==> r == request,
    {
        match own {
            Some(l) => Some(l),
            None => request,
        }
    }

    /// The session a uprobe is created in: only an explicit session scope.
    pub fn uprobe_session(scope: &Option<ObserveScope>) -> (r: Result<String, ServiceError>)
        ensures
            scope matches Some(ObserveScope::Session { session_id }) ==> (r matches Ok(s) && s@ == session_id@),
            !(scope matches Some(ObserveScope::Session { .. })) ==> (r matches Err(ServiceError::Unsupported(m)) && m@
                == "verb=create with condition.kind=uprobe requires scope=session{session_id}"@),
    {
        match scope {
            Some(ObserveScope::Session { session_id }) => Ok(session_id.clone()),
            _ => Err(
                ServiceError::Unsupported(
                    "verb=create with condition.kind=uprobe requires scope=session{session_id}".to_owned(),
                ),
            ),
        }
    }

    /// Allocate the next uprobe id of `session_id`: its counter goes up by
    /// one and the id is `uprobe-<session>-<count>`.
    pub fn allocate_uprobe_id(counter: &mut Vec<(String, usize)>, session_id: &String) -> (id: String)
        requires
            forall|k: int| 0 <= k < old(counter)@.len() ==> (#[trigger] old(counter)@[k]).1 < usize::MAX,
        ensures
            counter_of(final(counter)@, session_id@) == counter_of(old(counter)@, session_id@) + 1,
            forall|s: Seq<char>| s != session_id@ ==> counter_of(final(counter)@, s) == counter_of(old(counter)@, s),
            id@ == uprobe_id_text(session_id@, counter_of(final(counter)@, session_id@)),
    {
        let ghost before = counter@;
        let mut k: usize = counter.len();
        proof {
            assert(before.subrange(0, k as int) =~= before);
        }
        while k > 0 && counter[k - 1].0 != *session_id
            invariant
                0 <= k <= counter@.len(),
                counter@ == before,
                forall|q: int| k <= q < counter@.len() ==> (#[trigger] counter@[q]).0@ != session_id@,
                counter_of(before, session_id@) == counter_of(before.subrange(0, k as int), session_id@),
            decreases k,
        {
            proof {
                assert(before.subrange(0, k as int).drop_last() =~= before.subrange(0, k - 1));
            }
            k -= 1;
        }
        let n: usize;
        if k == 0 {
            proof {
                assert(before.subrange(0, 0) =~= Seq::<(String, usize)>::empty());
            }
            counter.push((session_id.clone(), 1));
            n = 1;
            proof {
                assert(counter@.drop_last() =~= before);
                assert forall|s: Seq<char>| s != session_id@ implies counter_of(counter@, s) == counter_of(before, s) by {}
            }
        } else {
            let c = counter[k - 1].1;
            proof {
                assert(before.subrange(0, k as int).last() == before[k - 1]);
                assert(counter_of(before, session_id@) == c);
            }
            counter.set(k - 1, (session_id.clone(), c + 1));
            n = c + 1;
            proof {
                assert forall|s: Seq<char>| counter_of(counter@, s) == if s == session_id@ {
                    (c + 1) as nat
                } else {
                    counter_of(before, s)
                } by {
                    lemma_counter_update(before, (k - 1) as int, session_id@, (c + 1) as usize, s, counter@);
                }
            }
        }
        let mut id = "uprobe-".to_owned();
        push_str(&mut id, session_id.as_str());
        push_str(&mut id, "-");
        let d = dec_string(n as u64);
        push_str(&mut id, d.as_str());
        id
    }

    /// The label the uprobe's sentinel tripwire carries: the given label,
    /// or `uprobe:<id>`.
    pub fn sentinel_label(label: Option<String>, uprobe_id: &String) -> (r: String)
        ensures
            label matches Some(l) ==> r@ == l@,
            label is None ==> r@ == "uprobe:"@ + uprobe_id@,
    {
        match label {
            Some(l) => l,
            None => {
                let mut s = "uprobe:".to_owned();
                push_str(&mut s, uprobe_id.as_str());
                s
            },
        }
    }

    /// A uprobe that did not attach is an error of its own kind; an
    /// attached one gives its process id.
    pub fn attached_pid(result: ProbeInjectResult) -> (r: Result<u32, ServiceError>)
        ensures
            match result {
                ProbeInjectResult::Attached { pid } => r == Ok::<u32, ServiceError>(pid),
                ProbeInjectResult::AttachFailed { error } => r matches Err(ServiceError::InjectionFailed(m)) && m
                    == error,
                ProbeInjectResult::EbpfUnavailable(reason) => r matches Err(ServiceError::EbpfUnsupported(m)) && m
                    == reason,
                ProbeInjectResult::ProbeStarting => r == Err::<u32, ServiceError>(ServiceError::ProbeStarting),
            },
    {
        match result {
            ProbeInjectResult::Attached { pid } => Ok(pid),
            ProbeInjectResult::AttachFailed { error } => Err(ServiceError::InjectionFailed(error)),
            ProbeInjectResult::EbpfUnavailable(reason) => Err(ServiceError::EbpfUnsupported(reason)),
            ProbeInjectResult::ProbeStarting => Err(ServiceError::ProbeStarting),
        }
    }

    /// The subscription a `delete` removes: required, trimmed, and only a
    /// tripwire subscription (`tripwire-` prefix).
    pub fn delete_target(subscription_id: Option<&str>) -> (r: Result<String, ServiceError>)
        ensures
            subscription_id is None ==> (r matches Err(ServiceError::Unsupported(m)) && m@
                == "verb=delete requires 'subscription_id'"@),
            subscription_id matches Some(raw) ==> exists|t: Seq<char>| #[trigger] trimmed(raw@, t) && if bytes_start_with(
                t,
                "tripwire-"@,
            ) {
                r matches Ok(s) && s@ == t
            } else {
                r matches Err(ServiceError::Unsupported(m)) && m@
                    == "observe verb=delete only supports tripwire subscriptions in m7-02; got '"@ + t + "'"@
            },
    {
        match subscription_id {
            None => Err(ServiceError::Unsupported("verb=delete requires 'subscription_id'".to_owned())),
            Some(raw) => {
                let id = trim_str(raw);
                if !starts_with(id.as_str(), "tripwire-") {
                    let mut m = "observe verb=delete only supports tripwire subscriptions in m7-02; got '".to_owned();
                    push_str(&mut m, id.as_str());
                    push_str(&mut m, "'");
                    return Err(ServiceError::Unsupported(m));
                }
                Ok(id)
            },
        }
    }
}

proof fn lemma_counter_update(
    before: Seq<(String, usize)>,
    k: int,
    session: Seq<char>,
    v: usize,
    s: Seq<char>,
    after: Seq<(String, usize)>,
)
    requires
        0 <= k < before.len(),
        before[k].0@ == session,
        forall|q: int| k < q < before.len() ==> (#[trigger] before[q]).0@ != session,
        after.len() == before.len(),
        after[k].0@ == session,
        after[k].1 == v,
        forall|q: int| 0 <= q < before.len() && q != k ==> after[q] == before[q],
    ensures
        counter_of(after, s) == if s == session {
            v as nat
        } else {
            counter_of(before, s)
        },
    decreases before.len(),
{
    if k < before.len() - 1 {
        assert(after.last() == before.last());
        lemma_counter_update(before.drop_last(), k, session, v, s, after.drop_last());
    } else {
        assert(after.drop_last() =~= before.drop_last());
    }
}

} // verus!
