//! Live event streaming for the Execution Explorer: one subscription handle
//! per consumer, a registry of active subscriptions per session, and a
//! cursor that never moves backwards.

use vstd::prelude::*;
use crate::events_cursor::{cursor_error_text, EventSeq, EventsCursorError, EventsCursorV1, SessionId};
use crate::text::{dec, dec_string, push_str};

verus! {

/// Error type for live streaming operations.
#[derive(Debug, Clone, PartialEq, Eq)]
pub enum LiveStreamError {
    /// Tried to advance the cursor backward.
    BackwardAdvance { current: u64, requested: u64 },
    /// Underlying cursor error (malformed, wrong session, etc.).
    Cursor(EventsCursorError),
}

/// The text of a live-stream error.
pub open spec fn live_error_text(e: LiveStreamError) -> Seq<char> {
    match e {
        LiveStreamError::BackwardAdvance { current, requested } => "backward cursor advance rejected: current "@ + dec(
            current as nat,
        ) + ", requested "@ + dec(requested as nat),
        LiveStreamError::Cursor(c) => "cursor error: "@ + cursor_error_text(c),
    }
}

impl LiveStreamError {
    /// The human-readable text of the error, as it is displayed.
    pub fn message(&self) -> (s: String)
        ensures
            s@ == live_error_text(*self),
    {
        match self {
            LiveStreamError::BackwardAdvance { current, requested } => {
                let mut s = "backward cursor advance rejected: current ".to_owned();
                let a = dec_string(*current);
                push_str(&mut s, a.as_str());
                push_str(&mut s, ", requested ");
                let b = dec_string(*requested);
                push_str(&mut s, b.as_str());
                s
            },
            LiveStreamError::Cursor(c) => {
                let mut s = "cursor error: ".to_owned();
                let t = c.message();
                push_str(&mut s, t.as_str());
                s
            },
        }
    }
}

/// Active subscriptions per session.
#[derive(Debug)]
pub struct SubscriptionRegistry {
    entries: Vec<(SessionId, usize)>,
}

/// Subscriptions recorded for session `k` in `v`.
pub open spec fn count_of(v: Seq<(SessionId, usize)>, k: Seq<char>) -> nat
    decreases v.len(),
{
    if v.len() == 0 {
        0
    } else {
        count_of(v.drop_last(), k) + if v.last().0@ == k { v.last().1 as nat } else { 0nat }
    }
}

/// All subscriptions recorded in `v`.
pub open spec fn total_of(v: Seq<(SessionId, usize)>) -> nat
    decreases v.len(),
{
    if v.len() == 0 {
        0
    } else {
        total_of(v.drop_last()) + v.last().1 as nat
    }
}

proof fn lemma_update(v: Seq<(SessionId, usize)>, i: int, key: SessionId, c: usize)
    requires
        0 <= i < v.len(),
        key@ == v[i].0@,
    ensures
        forall|k: Seq<char>| #[trigger] count_of(v.update(i, (key, c)), k) == if v[i].0@ == k {
            count_of(v, k) - v[i].1 + c
        } else {
            count_of(v, k) as int
        },
        total_of(v.update(i, (key, c))) == total_of(v) - v[i].1 + c,
    decreases v.len(),
{
    let u = v.update(i, (key, c));
    if i == v.len() - 1 {
        assert(u.drop_last() =~= v.drop_last());
    } else {
        lemma_update(v.drop_last(), i, key, c);
        assert(u.drop_last() =~= v.drop_last().update(i, (key, c)));
        assert forall|k: Seq<char>| #[trigger] count_of(u, k) == if v[i].0@ == k {
            count_of(v, k) - v[i].1 + c
        } else {
            count_of(v, k) as int
        } by {
            assert(count_of(v.drop_last().update(i, (key, c)), k) == if v[i].0@ == k {
                count_of(v.drop_last(), k) - v[i].1 + c
            } else {
                count_of(v.drop_last(), k) as int
            });
        }
    }
}

proof fn lemma_count_le_total(v: Seq<(SessionId, usize)>, k: Seq<char>)
    ensures
        count_of(v, k) <= total_of(v),
    decreases v.len(),
{
    if v.len() > 0 {
        lemma_count_le_total(v.drop_last(), k);
    }
}

proof fn lemma_entry_le_count(v: Seq<(SessionId, usize)>, i: int)
    requires
        0 <= i < v.len(),
    ensures
        v[i].1 <= count_of(v, v[i].0@),
    decreases v.len(),
{
    if i < v.len() - 1 {
        lemma_entry_le_count(v.drop_last(), i);
    }
}

proof fn lemma_no_entry_zero(v: Seq<(SessionId, usize)>, k: Seq<char>)
    requires
        forall|j: int| 0 <= j < v.len() ==> (#[trigger] v[j]).0@ != k || v[j].1 == 0,
    ensures
        count_of(v, k) == 0,
    decreases v.len(),
{
    if v.len() > 0 {
        lemma_no_entry_zero(v.drop_last(), k);
    }
}

impl SubscriptionRegistry {
    /// The subscriptions recorded in all fit in a `usize`.
    #[verifier::type_invariant]
    closed spec fn counts_fit(&self) -> bool {
        total_of(self.entries@) <= usize::MAX
    }

    /// Subscriptions registered for session `k`.
    pub closed spec fn spec_count(&self, k: Seq<char>) -> nat {
        count_of(self.entries@, k)
    }

    /// Subscriptions registered across all sessions.
    pub closed spec fn spec_total(&self) -> nat {
        total_of(self.entries@)
    }

    /// An empty registry.
    pub fn new() -> (r: Self)
        ensures
            forall|k: Seq<char>| #[trigger] r.spec_count(k) == 0,
            r.spec_total() == 0,
    {
        SubscriptionRegistry { entries: Vec::new() }
    }

    /// Number of active subscriptions for a session (0 if none).
    pub fn active_count(&self, session_id: &SessionId) -> (n: usize)
        ensures
            n == self.spec_count(session_id@),
    {
        proof {
            use_type_invariant(self);
        }
        let mut i: usize = 0;
        let mut n: usize = 0;
        proof {
            lemma_count_le_total(self.entries@, session_id@);
        }
        while i < self.entries.len()
            invariant
                0 <= i <= self.entries@.len(),
                n == count_of(self.entries@.subrange(0, i as int), session_id@),
                count_of(self.entries@, session_id@) <= usize::MAX,
            decreases self.entries@.len() - i,
        {
            let ghost pre = self.entries@.subrange(0, i as int);
            let ghost post = self.entries@.subrange(0, i + 1);
            assert(post.drop_last() =~= pre);
            proof {
                lemma_prefix_count_le(self.entries@, i + 1, session_id@);
            }
            if self.entries[i].0.same(session_id) {
                n = n + self.entries[i].1;
            }
            i += 1;
        }
        assert(self.entries@.subrange(0, self.entries@.len() as int) =~= self.entries@);
        n
    }

    /// Total subscriptions across all sessions.
    pub fn total(&self) -> (n: usize)
        ensures
            n == self.spec_total(),
    {
        proof {
            use_type_invariant(self);
        }
        let mut i: usize = 0;
        let mut n: usize = 0;
        while i < self.entries.len()
            invariant
                0 <= i <= self.entries@.len(),
                n == total_of(self.entries@.subrange(0, i as int)),
                total_of(self.entries@) <= usize::MAX,
            decreases self.entries@.len() - i,
        {
            let ghost post = self.entries@.subrange(0, i + 1);
            assert(post.drop_last() =~= self.entries@.subrange(0, i as int));
            proof {
                lemma_prefix_total_le(self.entries@, i + 1);
            }
            n = n + self.entries[i].1;
            i += 1;
        }
        assert(self.entries@.subrange(0, self.entries@.len() as int) =~= self.entries@);
        n
    }

    /// Record one more subscription for `session_id`.
    fn register(&mut self, session_id: &SessionId)
        requires
            old(self).spec_total() < usize::MAX,
        ensures
            final(self).spec_count(session_id@) == old(self).spec_count(session_id@) + 1,
            forall|k: Seq<char>| k != session_id@ ==> #[trigger] final(self).spec_count(k) == old(self).spec_count(k),
            final(self).spec_total() == old(self).spec_total() + 1,
    {
        let mut entries: Vec<(SessionId, usize)> = Vec::new();
        std::mem::swap(&mut entries, &mut self.entries);
        let ghost start = entries@;
        let mut i: usize = 0;
        while i < entries.len()
            invariant
                0 <= i <= entries@.len(),
                entries@ == start,
                start == old(self).entries@,
                total_of(entries@) < usize::MAX,
            decreases entries@.len() - i,
        {
            if entries[i].0.same(session_id) {
                let c = entries[i].1;
                let key = entries[i].0.clone();
                proof {
                    lemma_entry_le_count(entries@, i as int);
                    lemma_count_le_total(entries@, session_id@);
                    lemma_update(entries@, i as int, key, (c + 1) as usize);
                }
                let ghost before = entries@;
                let ghost k2 = key;
                entries.set(i, (key, c + 1));
                proof {
                    assert(entries@ =~= before.update(i as int, (k2, (c + 1) as usize)));
                }
                self.entries = entries;
                return;
            }
            i += 1;
        }
        let ghost before = entries@;
        entries.push((session_id.clone(), 1));
        proof {
            assert(entries@.drop_last() =~= before);
        }
        self.entries = entries;
    }

    /// Remove one subscription for `session_id`, if any is recorded.
    fn unregister(&mut self, session_id: &SessionId)
        ensures
            final(self).spec_count(session_id@) == if old(self).spec_count(session_id@) > 0 {
                old(self).spec_count(session_id@) - 1
            } else {
                0
            },
            forall|k: Seq<char>| k != session_id@ ==> #[trigger] final(self).spec_count(k) == old(self).spec_count(k),
            final(self).spec_total() == if old(self).spec_count(session_id@) > 0 {
                old(self).spec_total() - 1
            } else {
                old(self).spec_total() as int
            },
    {
        proof {
            use_type_invariant(&*self);
        }
        let mut entries: Vec<(SessionId, usize)> = Vec::new();
        std::mem::swap(&mut entries, &mut self.entries);
        let ghost start = entries@;
        let mut i: usize = 0;
        while i < entries.len()
            invariant
                0 <= i <= entries@.len(),
                entries@ == start,
                start == old(self).entries@,
                total_of(entries@) <= usize::MAX,
                forall|j: int| 0 <= j < i ==> (#[trigger] entries@[j]).0@ != session_id@ || entries@[j].1 == 0,
            decreases entries@.len() - i,
        {
            if entries[i].0.same(session_id) && entries[i].1 > 0 {
                let c = entries[i].1;
                let key = entries[i].0.clone();
                proof {
                    lemma_entry_le_count(entries@, i as int);
                    lemma_count_le_total(entries@, session_id@);
                    lemma_update(entries@, i as int, key, (c - 1) as usize);
                }
                let ghost before = entries@;
                let ghost k2 = key;
                entries.set(i, (key, c - 1));
                proof {
                    assert(entries@ =~= before.update(i as int, (k2, (c - 1) as usize)));
                }
                self.entries = entries;
                return;
            }
            i += 1;
        }
        proof {
            lemma_no_entry_zero(entries@, session_id@);
        }
        self.entries = entries;
    }
}

proof fn lemma_prefix_count_le(v: Seq<(SessionId, usize)>, i: int, k: Seq<char>)
    requires
        0 <= i <= v.len(),
    ensures
        count_of(v.subrange(0, i), k) <= count_of(v, k),
    decreases v.len() - i,
{
    if i < v.len() {
        lemma_prefix_count_le(v, i + 1, k);
        assert(v.subrange(0, i + 1).drop_last() =~= v.subrange(0, i));
    } else {
        assert(v.subrange(0, i) =~= v);
    }
}

proof fn lemma_prefix_total_le(v: Seq<(SessionId, usize)>, i: int)
    requires
        0 <= i <= v.len(),
    ensures
        total_of(v.subrange(0, i)) <= total_of(v),
    decreases v.len() - i,
{
    if i < v.len() {
        lemma_prefix_total_le(v, i + 1);
        assert(v.subrange(0, i + 1).drop_last() =~= v.subrange(0, i));
    } else {
        assert(v.subrange(0, i) =~= v);
    }
}

impl Default for SubscriptionRegistry {
    fn default() -> (r: Self)
        ensures
            forall|k: Seq<char>| #[trigger] r.spec_count(k) == 0,
            r.spec_total() == 0,
    {
        SubscriptionRegistry::new()
    }
}

/// Synthetic event shape for the live stream.
#[derive(Debug, Clone, PartialEq, Eq)]
pub struct MockEvent {
    pub seq: EventSeq,
    pub kind: String,
    pub payload: String,
}

/// A batch of events returned by `poll_batch`.
#[derive(Debug, Clone, PartialEq, Eq)]
pub struct EventBatch {
    /// Cursor position after the last event in `events`.
    pub next_cursor: EventsCursorV1,
    /// Events returned in this batch, in arrival order.
    pub events: Vec<MockEvent>,
}

/// Causality integration status.
#[derive(Debug, Clone, Copy, PartialEq, Eq, Structural)]
pub enum CausalityStatus {
    /// Causality integration is not wired.
    Unsupported,
    /// Causality is wired.
    Wired,
}

/// Whether the live stream emits race-detection hints: not wired yet.
pub fn causality_status() -> (s: CausalityStatus)
    ensures
        s == CausalityStatus::Unsupported,
{
    CausalityStatus::Unsupported
}

/// Live event subscription for a single session.
#[derive(Debug)]
pub struct LiveEventStream {
    session_id: SessionId,
    cursor: EventsCursorV1,
    last_seq: EventSeq,
}

impl LiveEventStream {
    /// The cursor stays on the stream's session and at its last position.
    #[verifier::type_invariant]
    closed spec fn inv(self) -> bool {
        &&& self.cursor.spec_session() == self.session_id@
        &&& self.cursor.spec_next() == self.last_seq.0
        &&& self.cursor.spec_schema() == 1
    }

    pub closed spec fn spec_session(&self) -> Seq<char> {
        self.session_id@
    }

    /// The last position the consumer advanced to.
    pub closed spec fn spec_position(&self) -> u64 {
        self.last_seq.0
    }

    /// Subscribe to live events for `session_id`, whose log currently ends
    /// at `tail`: the stream starts at that tail, so nothing already in the
    /// log is replayed, and the registry records one more subscription for
    /// the session.
    pub fn subscribe(session_id: SessionId, tail: EventSeq, registry: &mut SubscriptionRegistry) -> (s: Self)
        requires
            old(registry).spec_total() < usize::MAX,
        ensures
            s.spec_session() == session_id@,
            s.spec_position() == tail.0,
            final(registry).spec_count(session_id@) == old(registry).spec_count(session_id@) + 1,
            forall|k: Seq<char>| k != session_id@ ==> #[trigger] final(registry).spec_count(k) == old(registry).spec_count(k),
            final(registry).spec_total() == old(registry).spec_total() + 1,
    {
        let start = EventsCursorV1::start(session_id.clone());
        let cursor = match start.advanced_to(tail) {
            Ok(c) => c,
            Err(_) => EventsCursorV1::start(session_id.clone()),
        };
        registry.register(&session_id);
        LiveEventStream { session_id, cursor, last_seq: tail }
    }

    /// The current cursor: on this stream's session, at its position.
    pub fn cursor(&self) -> (c: &EventsCursorV1)
        ensures
            c.spec_session() == self.spec_session(),
            c.spec_next() == self.spec_position(),
            c.spec_schema() == 1,
    {
        proof {
            use_type_invariant(self);
        }
        &self.cursor
    }

    /// The session this stream follows.
    pub fn session_id(&self) -> (s: &SessionId)
        ensures
            s@ == self.spec_session(),
    {
        &self.session_id
    }

    /// Poll for new events (at most `limit`). No event source is wired, so
    /// the batch is empty and carries the current cursor.
    pub fn poll_batch(&mut self, _limit: usize) -> (b: EventBatch)
        ensures
            b.events@.len() == 0,
            b.next_cursor.spec_session() == old(self).spec_session(),
            b.next_cursor.spec_next() == old(self).spec_position(),
            b.next_cursor.spec_schema() == 1,
            final(self).spec_session() == old(self).spec_session(),
            final(self).spec_position() == old(self).spec_position(),
    {
        proof {
            use_type_invariant(&*self);
        }
        let next_cursor = self.cursor.clone();
        EventBatch { next_cursor, events: Vec::new() }
    }

    /// Advance to `new_seq`; a position before the current one is rejected
    /// and leaves the stream unchanged.
    pub fn advance(&mut self, new_seq: EventSeq) -> (r: Result<(), LiveStreamError>)
        ensures
            final(self).spec_session() == old(self).spec_session(),
            new_seq.0 >= old(self).spec_position() ==> r is Ok && final(self).spec_position() == new_seq.0,
            new_seq.0 < old(self).spec_position() ==> r == Err::<(), LiveStreamError>(
                LiveStreamError::BackwardAdvance { current: old(self).spec_position(), requested: new_seq.0 },
            ) && final(self).spec_position() == old(self).spec_position(),
    {
        proof {
            use_type_invariant(&*self);
        }
        let new_seq_u64 = new_seq.get();
        let last_seq_u64 = self.last_seq.get();
        if new_seq_u64 < last_seq_u64 {
            return Err(LiveStreamError::BackwardAdvance { current: last_seq_u64, requested: new_seq_u64 });
        }
        match self.cursor.advance_to(new_seq) {
            Ok(c) => {
                let sid = self.session_id.clone();
                *self = LiveEventStream { session_id: sid, cursor: c, last_seq: new_seq };
                Ok(())
            },
            Err(e) => Err(LiveStreamError::Cursor(e)),
        }
    }

    /// Disconnect: the registry records one subscription fewer for this
    /// stream's session.
    pub fn disconnect(self, registry: &mut SubscriptionRegistry)
        ensures
            final(registry).spec_count(self.spec_session()) == if old(registry).spec_count(self.spec_session()) > 0 {
                old(registry).spec_count(self.spec_session()) - 1
            } else {
                0
            },
            forall|k: Seq<char>| k != self.spec_session() ==> #[trigger] final(registry).spec_count(k) == old(
                registry,
            ).spec_count(k),
    {
        registry.unregister(&self.session_id);
    }
}

/// Subscribing and then disconnecting leaves every session's count and
/// the total as they were.
pub proof fn law_subscribe_disconnect_restores(
    before: SubscriptionRegistry,
    between: SubscriptionRegistry,
    after: SubscriptionRegistry,
    session: Seq<char>,
)
    requires
        between.spec_count(session) == before.spec_count(session) + 1,
        forall|k: Seq<char>| k != session ==> #[trigger] between.spec_count(k) == before.spec_count(k),
        after.spec_count(session) == if between.spec_count(session) > 0 {
            between.spec_count(session) - 1
        } else {
            0
        },
        forall|k: Seq<char>| k != session ==> #[trigger] after.spec_count(k) == between.spec_count(k),
    ensures
        forall|k: Seq<char>| #[trigger] after.spec_count(k) == before.spec_count(k),
{
}

} // verus!
