//! Happens-before graph over typed concurrency events: incremental event
//! and edge insertion, transitive ordering through observed
//! synchronization only, and the concurrent / cyclic pairs it implies.

use vstd::prelude::*;
use crate::concurrency_perturbation::PerturbationKind;

verus! {

/// Synchronization primitive an event took part in.
#[derive(Debug, Clone, Copy, PartialEq, Eq, Structural)]
pub enum ConcurrencyPrimitive {
    Lock,
    Atomic,
    Channel,
    Task,
    Goroutine,
    Unknown,
}

/// Where an event came from. Every field is optional evidence.
#[derive(Debug, Clone, PartialEq, Eq)]
pub struct Provenance {
    pub function: Option<String>,
    pub file: Option<String>,
    pub line: Option<u32>,
    pub thread_id: Option<u64>,
    pub timestamp_ns: Option<u64>,
}

impl Provenance {
    /// No field carries evidence.
    pub open spec fn spec_is_empty(&self) -> bool {
        &&& self.function is None
        &&& self.file is None
        &&& self.line is None
        &&& self.thread_id is None
        &&& self.timestamp_ns is None
    }

    /// Provenance with no evidence at all.
    pub fn empty() -> (p: Self)
        ensures
            p.spec_is_empty(),
    {
        Provenance { function: None, file: None, line: None, thread_id: None, timestamp_ns: None }
    }
}

/// A concurrency event: id, primitive and provenance.
#[derive(Debug, Clone, PartialEq, Eq)]
pub struct TypedConcurrencyEvent {
    pub event_id: u64,
    pub primitive: ConcurrencyPrimitive,
    pub provenance: Provenance,
}

impl TypedConcurrencyEvent {
    pub fn new(event_id: u64, primitive: ConcurrencyPrimitive, provenance: Provenance) -> (e: Self)
        ensures
            e.event_id == event_id,
            e.primitive == primitive,
            e.provenance == provenance,
    {
        TypedConcurrencyEvent { event_id, primitive, provenance }
    }
}

/// Why an edge exists in the graph.
#[derive(Debug, Clone, Copy, PartialEq, Eq, Structural)]
pub enum EdgeKind {
    /// Lock acquire/release pair.
    LockReleaseAcquire,
    /// Atomic store/load with appropriate memory ordering.
    AtomicStoreLoad,
    /// Task spawn / join.
    TaskSpawnJoin,
    /// Goroutine fork/join.
    GoroutineForkJoin,
    /// Message send/receive pair.
    MessageSendReceive,
    /// Synchronization primitive is unknown; the edge cannot be confirmed.
    Unknown,
}

pub open spec fn edge_kind_label_spec(k: EdgeKind) -> Seq<char> {
    match k {
        EdgeKind::LockReleaseAcquire => "lock_release_acquire"@,
        EdgeKind::AtomicStoreLoad => "atomic_store_load"@,
        EdgeKind::TaskSpawnJoin => "task_spawn_join"@,
        EdgeKind::GoroutineForkJoin => "goroutine_fork_join"@,
        EdgeKind::MessageSendReceive => "message_send_receive"@,
        EdgeKind::Unknown => "unknown"@,
    }
}

impl EdgeKind {
    pub fn label(&self) -> (r: &'static str)
        ensures
            r@ == edge_kind_label_spec(*self),
    {
        match self {
            EdgeKind::LockReleaseAcquire => "lock_release_acquire",
            EdgeKind::AtomicStoreLoad => "atomic_store_load",
            EdgeKind::TaskSpawnJoin => "task_spawn_join",
            EdgeKind::GoroutineForkJoin => "goroutine_fork_join",
            EdgeKind::MessageSendReceive => "message_send_receive",
            EdgeKind::Unknown => "unknown",
        }
    }

    /// Every kind but `Unknown` is an observed synchronization.
    pub fn is_observed(&self) -> (b: bool)
        ensures
            b == (*self != EdgeKind::Unknown),
    {
        !matches!(self, EdgeKind::Unknown)
    }
}

/// A pair of events (by id).
#[derive(Debug, Clone, PartialEq, Eq, Structural)]
pub struct ConcurrentPair {
    pub earlier: u64,
    pub later: u64,
}

/// A happens-before edge with its kind and optional witness provenance.
#[derive(Debug, PartialEq, Eq)]
pub struct HappensBeforeEdge {
    pub earlier: u64,
    pub later: u64,
    pub kind: EdgeKind,
    pub witness: Option<Provenance>,
}

/// An edge of the graph: `(earlier, later, kind)`.
pub type Edge = (u64, u64, EdgeKind);

/// There is an observed edge `a -> b` in `edges`.
pub open spec fn observed_edge(edges: Seq<Edge>, a: u64, b: u64) -> bool {
    exists|i: int| 0 <= i < edges.len() && #[trigger] edges[i].0 == a && edges[i].1 == b && edges[i].2 != EdgeKind::Unknown
}

/// Some entry of `edges` is for the ordered pair `(a, b)`.
pub open spec fn has_pair(edges: Seq<Edge>, a: u64, b: u64) -> bool {
    exists|i: int| 0 <= i < edges.len() && #[trigger] edges[i].0 == a && edges[i].1 == b
}

/// The position of an entry for `(a, b)`, when there is one.
pub open spec fn pair_index(edges: Seq<Edge>, a: u64, b: u64) -> int {
    choose|i: int| 0 <= i < edges.len() && #[trigger] edges[i].0 == a && edges[i].1 == b
}

/// `path` walks observed edges from its first to its last node.
pub open spec fn is_path(edges: Seq<Edge>, path: Seq<u64>) -> bool {
    forall|i: int| 0 <= i < path.len() - 1 ==> #[trigger] observed_edge(edges, path[i], path[i + 1])
}

/// `b` is reachable from `a` through one or more observed edges.
pub open spec fn reachable(edges: Seq<Edge>, a: u64, b: u64) -> bool {
    exists|path: Seq<u64>| #![trigger is_path(edges, path)]
        path.len() >= 2 && path[0] == a && path.last() == b && is_path(edges, path)
}

/// `b` is `a` or reachable from it.
pub open spec fn reach0(edges: Seq<Edge>, a: u64, b: u64) -> bool {
    a == b || reachable(edges, a, b)
}

proof fn lemma_reach0_step(edges: Seq<Edge>, a: u64, b: u64, c: u64)
    requires
        reach0(edges, a, b),
        observed_edge(edges, b, c),
    ensures
        reachable(edges, a, c),
{
    if a == b {
        let path = seq![a, c];
        assert(is_path(edges, path));
    } else {
        let path = choose|path: Seq<u64>| #![trigger is_path(edges, path)]
            path.len() >= 2 && path[0] == a && path.last() == b && is_path(edges, path);
        let p2 = path.push(c);
        assert forall|i: int| 0 <= i < p2.len() - 1 implies #[trigger] observed_edge(edges, p2[i], p2[i + 1]) by {
            if i < path.len() - 1 {
                assert(p2[i] == path[i] && p2[i + 1] == path[i + 1]);
            }
        }
        assert(is_path(edges, p2));
    }
}

/// If a set of nodes holds `a`, misses `b`, and is closed under observed
/// edges, `b` is not reachable from `a`.
proof fn lemma_closed_not_reachable(edges: Seq<Edge>, closed: Set<u64>, a: u64, b: u64)
    requires
        closed.contains(a),
        !closed.contains(b),
        forall|x: u64, y: u64| closed.contains(x) && #[trigger] observed_edge(edges, x, y) ==> closed.contains(y),
    ensures
        !reachable(edges, a, b),
{
    if reachable(edges, a, b) {
        let path = choose|path: Seq<u64>| #![trigger is_path(edges, path)]
            path.len() >= 2 && path[0] == a && path.last() == b && is_path(edges, path);
        assert forall|i: int| 0 <= i < path.len() implies closed.contains(#[trigger] path[i]) by {
            lemma_path_closed(edges, closed, path, i);
        }
        assert(closed.contains(path[path.len() - 1]));
    }
}

proof fn lemma_path_closed(edges: Seq<Edge>, closed: Set<u64>, path: Seq<u64>, i: int)
    requires
        path.len() >= 1,
        closed.contains(path[0]),
        is_path(edges, path),
        0 <= i < path.len(),
        forall|x: u64, y: u64| closed.contains(x) && #[trigger] observed_edge(edges, x, y) ==> closed.contains(y),
    ensures
        closed.contains(path[i]),
    decreases i,
{
    if i > 0 {
        lemma_path_closed(edges, closed, path, i - 1);
        let j = i - 1;
        assert(observed_edge(edges, path[j], path[j + 1]));
    }
}

/// The happens-before graph: events kept sorted by id, and edges with at
/// most one entry per ordered pair.
#[derive(Debug)]
pub struct HappensBeforeGraph {
    events: Vec<TypedConcurrencyEvent>,
    edges: Vec<Edge>,
}

pub open spec fn ids_of(events: Seq<TypedConcurrencyEvent>) -> Seq<u64> {
    events.map_values(|e: TypedConcurrencyEvent| e.event_id)
}

pub open spec fn strictly_sorted(ids: Seq<u64>) -> bool {
    forall|i: int, j: int| 0 <= i < j < ids.len() ==> ids[i] < ids[j]
}

/// Distinct pairs, no self-edge, endpoints among the event ids.
pub open spec fn edges_wf(edges: Seq<Edge>, ids: Seq<u64>) -> bool {
    &&& forall|i: int, j: int| 0 <= i < j < edges.len() ==> (edges[i].0 != edges[j].0 || edges[i].1 != edges[j].1)
    &&& forall|i: int| 0 <= i < edges.len() ==> (#[trigger] edges[i]).0 != edges[i].1
    &&& forall|i: int| 0 <= i < edges.len() ==> ids.contains((#[trigger] edges[i]).0) && ids.contains(edges[i].1)
}

impl HappensBeforeGraph {
    #[verifier::type_invariant]
    closed spec fn inv(self) -> bool {
        &&& strictly_sorted(ids_of(self.events@))
        &&& edges_wf(self.edges@, ids_of(self.events@))
    }

    /// Event ids, ascending.
    pub closed spec fn spec_ids(&self) -> Seq<u64> {
        ids_of(self.events@)
    }

    /// Events, ascending by id.
    pub closed spec fn spec_events(&self) -> Seq<TypedConcurrencyEvent> {
        self.events@
    }

    /// Edges, one per ordered pair.
    pub closed spec fn spec_edges(&self) -> Seq<Edge> {
        self.edges@
    }

    /// What every graph keeps: ids strictly ascending; at most one edge per
    /// ordered pair, never a self-edge, and both endpoints among the events.
    pub open spec fn graph_wf(&self) -> bool {
        &&& self.spec_ids() == ids_of(self.spec_events())
        &&& strictly_sorted(self.spec_ids())
        &&& edges_wf(self.spec_edges(), self.spec_ids())
    }

    /// The kind recorded for the pair `(a, b)`, if any.
    pub open spec fn spec_edge_kind(&self, a: u64, b: u64) -> Option<EdgeKind> {
        if exists|i: int| 0 <= i < self.spec_edges().len() && #[trigger] self.spec_edges()[i].0 == a
            && self.spec_edges()[i].1 == b {
            let i = choose|i: int| 0 <= i < self.spec_edges().len() && #[trigger] self.spec_edges()[i].0 == a
                && self.spec_edges()[i].1 == b;
            Some(self.spec_edges()[i].2)
        } else {
            None
        }
    }

    /// `earlier` happens-before `later` in this graph.
    pub open spec fn spec_happens_before(&self, earlier: u64, later: u64) -> bool {
        earlier != later && reachable(self.spec_edges(), earlier, later)
    }

    /// An empty graph.
    pub fn new() -> (g: Self)
        ensures
            g.spec_events().len() == 0,
            g.spec_ids().len() == 0,
            g.spec_edges().len() == 0,
            g.graph_wf(),
    {
        HappensBeforeGraph { events: Vec::new(), edges: Vec::new() }
    }

    /// Number of events.
    pub fn event_count(&self) -> (n: usize)
        ensures
            n == self.spec_events().len(),
    {
        self.events.len()
    }

    /// Number of edges (distinct ordered pairs).
    pub fn edge_count(&self) -> (n: usize)
        ensures
            n == self.spec_edges().len(),
    {
        self.edges.len()
    }

    /// Position of the event with id `id`, or of where it would go.
    fn position_of(&self, id: u64) -> (r: (usize, bool))
        ensures
            r.0 <= self.spec_ids().len(),
            r.1 ==> r.0 < self.spec_ids().len() && self.spec_ids()[r.0 as int] == id,
            !r.1 ==> !self.spec_ids().contains(id),
            forall|i: int| 0 <= i < r.0 ==> self.spec_ids()[i] < id,
            forall|i: int| r.0 <= i < self.spec_ids().len() ==> self.spec_ids()[i] >= id,
    {
        proof {
            use_type_invariant(self);
        }
        let mut i: usize = 0;
        while i < self.events.len()
            invariant
                0 <= i <= self.events@.len(),
                strictly_sorted(ids_of(self.events@)),
                forall|j: int| 0 <= j < i ==> ids_of(self.events@)[j] < id,
            decreases self.events@.len() - i,
        {
            let e = self.events[i].event_id;
            assert(ids_of(self.events@)[i as int] == e);
            if e == id {
                return (i, true);
            }
            if e > id {
                proof {
                    assert forall|k: int| i <= k < ids_of(self.events@).len() implies ids_of(self.events@)[k] >= id by {
                        if k > i {
                            assert(ids_of(self.events@)[i as int] < ids_of(self.events@)[k]);
                        }
                    }
                    assert(!ids_of(self.events@).contains(id));
                }
                return (i, false);
            }
            i += 1;
        }
        (i, false)
    }

    /// Look up an event by id.
    pub fn get_event(&self, event_id: u64) -> (r: Option<&TypedConcurrencyEvent>)
        ensures
            match r {
                Some(e) => e.event_id == event_id && self.spec_events().contains(*e)
                    && self.spec_ids().contains(event_id),
                None => !self.spec_ids().contains(event_id),
            },
    {
        let (i, found) = self.position_of(event_id);
        if found {
            assert(self.spec_events()[i as int].event_id == event_id);
            Some(&self.events[i])
        } else {
            None
        }
    }

    /// Add (or replace) a single event, without edges.
    pub fn add_event(&mut self, event: TypedConcurrencyEvent)
        ensures
            final(self).spec_ids().contains(event.event_id),
            final(self).spec_edges() == old(self).spec_edges(),
            forall|x: u64| x != event.event_id ==> (old(self).spec_ids().contains(x)
                <==> #[trigger] final(self).spec_ids().contains(x)),
            final(self).spec_ids().len() == old(self).spec_ids().len()
                + if old(self).spec_ids().contains(event.event_id) { 0int } else { 1int },
            forall|e: TypedConcurrencyEvent| #[trigger] final(self).spec_events().contains(e)
                ==> (e == event || (e.event_id != event.event_id && old(self).spec_events().contains(e))),
            forall|e: TypedConcurrencyEvent| #[trigger] old(self).spec_events().contains(e) && e.event_id != event.event_id
                ==> final(self).spec_events().contains(e),
            !old(self).spec_ids().contains(event.event_id) ==> forall|e: TypedConcurrencyEvent|
                #[trigger] old(self).spec_events().contains(e) ==> final(self).spec_events().contains(e),
            final(self).spec_events().contains(event),
            final(self).graph_wf(),
    {
        proof {
            use_type_invariant(&*self);
        }
        let id = event.event_id;
        let (pos, found) = self.position_of(id);
        let ghost old_events = self.events@;
        let ghost old_ids = ids_of(old_events);
        let mut edges: Vec<Edge> = Vec::new();
        std::mem::swap(&mut edges, &mut self.edges);
        let mut events: Vec<TypedConcurrencyEvent> = Vec::new();
        std::mem::swap(&mut events, &mut self.events);
        assert(events@ == old_events);
        if found {
            events.set(pos, event);
            proof {
                assert(ids_of(events@) =~= old_ids);
                assert forall|e: TypedConcurrencyEvent| #[trigger] events@.contains(e) implies (e == event || (
                    e.event_id != id && old_events.contains(e))) by {
                    let k = choose|k: int| 0 <= k < events@.len() && events@[k] == e;
                    if k != pos {
                        assert(old_events[k] == e);
                        assert(old_ids[k] != old_ids[pos as int]);
                    }
                }
                assert forall|e: TypedConcurrencyEvent| #[trigger] old_events.contains(e) && e.event_id != id implies events@.contains(e) by {
                    let k = choose|k: int| 0 <= k < old_events.len() && old_events[k] == e;
                    assert(k != pos);
                    assert(events@[k] == e);
                }
                assert(events@[pos as int] == event);
                assert(old_ids[pos as int] == id);
            }
        } else {
            events.insert(pos, event);
            proof {
                assert(ids_of(events@) =~= old_ids.insert(pos as int, id));
                assert forall|i: int, j: int| 0 <= i < j < ids_of(events@).len() implies ids_of(events@)[i] < ids_of(events@)[j] by {
                    if j < pos {
                    } else if j == pos {
                    } else if i < pos {
                    } else if i == pos {
                        assert(ids_of(events@)[j] == old_ids[j - 1]);
                    } else {
                        assert(ids_of(events@)[j] == old_ids[j - 1]);
                        assert(ids_of(events@)[i] == old_ids[i - 1]);
                    }
                }
                assert forall|x: u64| x != id implies (old_ids.contains(x) <==> #[trigger] ids_of(events@).contains(x)) by {
                    if old_ids.contains(x) {
                        let k = choose|k: int| 0 <= k < old_ids.len() && old_ids[k] == x;
                        if k < pos {
                            assert(ids_of(events@)[k] == x);
                        } else {
                            assert(ids_of(events@)[k + 1] == x);
                        }
                    }
                    if ids_of(events@).contains(x) {
                        let k = choose|k: int| 0 <= k < ids_of(events@).len() && ids_of(events@)[k] == x;
                        if k < pos {
                            assert(old_ids[k] == x);
                        } else {
                            assert(old_ids[k - 1] == x);
                        }
                    }
                }
                assert forall|e: TypedConcurrencyEvent| #[trigger] events@.contains(e) implies (e == event || (
                    e.event_id != id && old_events.contains(e))) by {
                    let k = choose|k: int| 0 <= k < events@.len() && events@[k] == e;
                    if k < pos {
                        assert(old_events[k] == e);
                        assert(old_ids[k] == e.event_id);
                    } else if k > pos {
                        assert(old_events[k - 1] == e);
                        assert(old_ids[k - 1] == e.event_id);
                    }
                }
                assert forall|e: TypedConcurrencyEvent| #[trigger] old_events.contains(e) implies events@.contains(e) by {
                    let k = choose|k: int| 0 <= k < old_events.len() && old_events[k] == e;
                    if k < pos {
                        assert(events@[k] == e);
                    } else {
                        assert(events@[k + 1] == e);
                    }
                }
                assert(events@[pos as int] == event);
                assert(ids_of(events@)[pos as int] == id);
                assert forall|i: int| 0 <= i < edges@.len() implies ids_of(events@).contains((#[trigger] edges@[i]).0)
                    && ids_of(events@).contains(edges@[i].1) by {
                    assert(old_ids.contains(edges@[i].0));
                    assert(old_ids.contains(edges@[i].1));
                }
            }
        }
        *self = HappensBeforeGraph { events, edges };
        proof {
            use_type_invariant(&*self);
        }
    }

    /// Edges after recording `(a, b, kind)`: the pair's entry is replaced,
    /// or appended when the pair is new.
    pub open spec fn edges_after_add(edges: Seq<Edge>, a: u64, b: u64, kind: EdgeKind) -> Seq<Edge> {
        if has_pair(edges, a, b) {
            edges.update(pair_index(edges, a, b), (a, b, kind))
        } else {
            edges.push((a, b, kind))
        }
    }

    /// Add a happens-before edge `earlier -> later`. A self-edge is refused
    /// (no change). Endpoints not yet in the graph are added as events with
    /// an unknown primitive and empty provenance.
    pub fn add_edge(&mut self, earlier: u64, later: u64, kind: EdgeKind)
        ensures
            earlier == later ==> final(self).spec_events() == old(self).spec_events() && final(self).spec_edges()
                == old(self).spec_edges(),
            earlier != later ==> final(self).spec_edges() == Self::edges_after_add(
                old(self).spec_edges(),
                earlier,
                later,
                kind,
            ),
            earlier != later ==> final(self).spec_ids().contains(earlier) && final(self).spec_ids().contains(later),
            earlier != later ==> final(self).spec_edge_kind(earlier, later) == Some(kind),
            earlier != later && !old(self).spec_ids().contains(earlier) ==> exists|e: TypedConcurrencyEvent|
                #[trigger] final(self).spec_events().contains(e) && e.event_id == earlier && e.primitive
                    == ConcurrencyPrimitive::Unknown && e.provenance.spec_is_empty(),
            earlier != later && !old(self).spec_ids().contains(later) ==> exists|e: TypedConcurrencyEvent|
                #[trigger] final(self).spec_events().contains(e) && e.event_id == later && e.primitive
                    == ConcurrencyPrimitive::Unknown && e.provenance.spec_is_empty(),
            final(self).graph_wf(),
            earlier != later ==> forall|x: u64| x != earlier && x != later ==> (old(self).spec_ids().contains(x)
                <==> #[trigger] final(self).spec_ids().contains(x)),
            earlier != later ==> forall|e: TypedConcurrencyEvent| #[trigger] old(self).spec_events().contains(e)
                ==> final(self).spec_events().contains(e),
            earlier != later ==> forall|e: TypedConcurrencyEvent| #[trigger] final(self).spec_events().contains(e)
                ==> old(self).spec_events().contains(e) || ((e.event_id == earlier || e.event_id == later)
                && !old(self).spec_ids().contains(e.event_id) && e.primitive == ConcurrencyPrimitive::Unknown
                && e.provenance.spec_is_empty()),
    {
        if earlier == later {
            proof {
                use_type_invariant(&*self);
            }
            return;
        }
        let ghost mut new_earlier: Option<TypedConcurrencyEvent> = None;
        let ghost mut new_later: Option<TypedConcurrencyEvent> = None;
        if self.get_event(earlier).is_none() {
            let ev = TypedConcurrencyEvent::new(earlier, ConcurrencyPrimitive::Unknown, Provenance::empty());
            proof {
                new_earlier = Some(ev);
            }
            self.add_event(ev);
        }
        let ghost mid = self.spec_events();
        if self.get_event(later).is_none() {
            let ev = TypedConcurrencyEvent::new(later, ConcurrencyPrimitive::Unknown, Provenance::empty());
            proof {
                new_later = Some(ev);
            }
            self.add_event(ev);
            proof {
                if let Some(e1) = new_earlier {
                    assert(mid.contains(e1));
                    assert(self.spec_events().contains(e1));
                }
            }
        }
        proof {
            if let Some(ev) = new_earlier {
                assert(self.spec_events().contains(ev));
            }
            if let Some(ev) = new_later {
                assert(self.spec_events().contains(ev));
            }
        }
        let ghost events_after = self.spec_events();
        let found = self.find_edge(earlier, later);
        proof {
            use_type_invariant(&*self);
        }
        let ghost ids = ids_of(self.events@);
        let ghost old_edges = self.edges@;
        let mut edges: Vec<Edge> = Vec::new();
        std::mem::swap(&mut edges, &mut self.edges);
        match found {
            Some(i) => {
                edges.set(i, (earlier, later, kind));
                proof {
                    let k = pair_index(old_edges, earlier, later);
                    if k != i {
                        if k < i {
                            assert(old_edges[k].0 != old_edges[i as int].0 || old_edges[k].1 != old_edges[i as int].1);
                        } else {
                            assert(old_edges[i as int].0 != old_edges[k].0 || old_edges[i as int].1 != old_edges[k].1);
                        }
                    }
                    assert(edges@ == old_edges.update(i as int, (earlier, later, kind)));
                    assert forall|a: int, b: int| 0 <= a < b < edges@.len() implies (edges@[a].0 != edges@[b].0
                        || edges@[a].1 != edges@[b].1) by {
                        assert(old_edges[a].0 != old_edges[b].0 || old_edges[a].1 != old_edges[b].1);
                    }
                    assert forall|a: int| 0 <= a < edges@.len() implies ids.contains((#[trigger] edges@[a]).0)
                        && ids.contains(edges@[a].1) by {
                        if a != i {
                            assert(edges@[a] == old_edges[a]);
                        }
                    }
                }
            },
            None => {
                edges.push((earlier, later, kind));
                proof {
                    assert forall|a: int, b: int| 0 <= a < b < edges@.len() implies (edges@[a].0 != edges@[b].0
                        || edges@[a].1 != edges@[b].1) by {
                        if b == old_edges.len() {
                            assert(!(old_edges[a].0 == earlier && old_edges[a].1 == later));
                        } else {
                            assert(old_edges[a].0 != old_edges[b].0 || old_edges[a].1 != old_edges[b].1);
                        }
                    }
                    assert forall|a: int| 0 <= a < edges@.len() implies ids.contains((#[trigger] edges@[a]).0)
                        && ids.contains(edges@[a].1) by {
                        if a < old_edges.len() {
                            assert(edges@[a] == old_edges[a]);
                        }
                    }
                }
            },
        }
        self.edges = edges;
        proof {
            use_type_invariant(&*self);
            assert(self.spec_events() == events_after);
            if let Some(ev) = new_earlier {
                assert(self.spec_events().contains(ev));
            }
            if let Some(ev) = new_later {
                assert(self.spec_events().contains(ev));
            }
            let es = self.spec_edges();
            let j = choose|j: int| 0 <= j < es.len() && es[j] == (earlier, later, kind);
            assert(0 <= j < es.len() && #[trigger] es[j].0 == earlier && es[j].1 == later) by {
                match found {
                    Some(i) => {
                        assert(es[i as int] == (earlier, later, kind));
                    },
                    None => {
                        assert(es[es.len() - 1] == (earlier, later, kind));
                    },
                }
            }
            let c = choose|c: int| 0 <= c < es.len() && #[trigger] es[c].0 == earlier && es[c].1 == later;
            if c != j {
                if c < j {
                    assert(es[c].0 != es[j].0 || es[c].1 != es[j].1);
                } else {
                    assert(es[j].0 != es[c].0 || es[j].1 != es[c].1);
                }
            }
        }
    }

    /// Index of the edge recorded for the pair `(a, b)`, if any.
    fn find_edge(&self, a: u64, b: u64) -> (r: Option<usize>)
        ensures
            match r {
                Some(i) => i < self.spec_edges().len() && self.spec_edges()[i as int].0 == a
                    && self.spec_edges()[i as int].1 == b,
                None => !exists|i: int| 0 <= i < self.spec_edges().len() && #[trigger] self.spec_edges()[i].0 == a
                    && self.spec_edges()[i].1 == b,
            },
    {
        let mut i: usize = 0;
        while i < self.edges.len()
            invariant
                0 <= i <= self.edges@.len(),
                forall|j: int| 0 <= j < i ==> !(#[trigger] self.edges@[j].0 == a && self.edges@[j].1 == b),
            decreases self.edges@.len() - i,
        {
            if self.edges[i].0 == a && self.edges[i].1 == b {
                return Some(i);
            }
            i += 1;
        }
        None
    }

    /// Whether `earlier` happens-before `later`: `later` is reachable from
    /// `earlier` through one or more edges of an observed kind. Strict: an
    /// event never happens-before itself.
    pub fn happens_before(&self, earlier: u64, later: u64) -> (b: bool)
        ensures
            b == self.spec_happens_before(earlier, later),
    {
        proof {
            use_type_invariant(self);
        }
        if earlier == later {
            return false;
        }
        let ghost edges = self.edges@;
        let ghost ids = ids_of(self.events@);
        let ghost cand: Seq<u64> = seq![earlier] + ids;
        let mut visited: Vec<u64> = Vec::new();
        let mut frontier: Vec<u64> = Vec::new();
        frontier.push(earlier);
        proof {
            assert(cand[0] == earlier);
            cand.lemma_cardinality_of_set();
        }
        loop
            invariant
                edges == self.edges@,
                ids == ids_of(self.events@),
                cand == seq![earlier] + ids,
                edges_wf(edges, ids),
                earlier != later,
                forall|x: u64| #[trigger] visited@.contains(x) ==> reach0(edges, earlier, x),
                forall|x: u64| #[trigger] frontier@.contains(x) ==> reach0(edges, earlier, x),
                visited@.contains(earlier) || frontier@.contains(earlier),
                forall|x: u64, y: u64| visited@.contains(x) && #[trigger] observed_edge(edges, x, y)
                    ==> visited@.contains(y) || frontier@.contains(y),
                !visited@.contains(later),
                visited@.no_duplicates(),
                forall|x: u64| #[trigger] visited@.contains(x) ==> cand.contains(x),
                forall|x: u64| #[trigger] frontier@.contains(x) ==> cand.contains(x),
                cand.to_set().len() <= cand.len(),
            decreases cand.len() - visited@.len(), frontier@.len(),
        {
            if frontier.len() == 0 {
                proof {
                    let closed = visited@.to_set();
                    assert forall|x: u64, y: u64| closed.contains(x) && #[trigger] observed_edge(edges, x, y)
                        implies closed.contains(y) by {
                        assert(visited@.contains(x));
                    }
                    assert(closed.contains(earlier));
                    lemma_closed_not_reachable(edges, closed, earlier, later);
                }
                return false;
            }
            let ghost fr = frontier@;
            let current = frontier.pop().unwrap();
            proof {
                assert(fr.last() == current);
                assert(fr.contains(current));
                assert(fr =~= frontier@.push(current));
                assert forall|x: u64| #[trigger] frontier@.contains(x) implies fr.contains(x) by {
                    let k = choose|k: int| 0 <= k < frontier@.len() && frontier@[k] == x;
                    assert(fr[k] == x);
                }
            }
            if current == later {
                proof {
                    assert(reach0(edges, earlier, later));
                }
                return true;
            }
            if contains_id(&visited, current) {
                proof {
                    assert forall|x: u64, y: u64| visited@.contains(x) && #[trigger] observed_edge(edges, x, y)
                        implies visited@.contains(y) || frontier@.contains(y) by {
                        if fr.contains(y) && !frontier@.contains(y) {
                            let k = choose|k: int| 0 <= k < fr.len() && fr[k] == y;
                            if k < frontier@.len() {
                                assert(frontier@[k] == y);
                            } else {
                                assert(y == current);
                            }
                        }
                    }
                    if fr.contains(earlier) && !frontier@.contains(earlier) {
                        let k = choose|k: int| 0 <= k < fr.len() && fr[k] == earlier;
                        if k < frontier@.len() {
                            assert(frontier@[k] == earlier);
                        }
                    }
                }
                continue;
            }
            // explore current's observed successors
            let ghost vis0 = visited@;
            let ghost fr0 = frontier@;
            let mut j: usize = 0;
            while j < self.edges.len()
                invariant
                    edges == self.edges@,
                    ids == ids_of(self.events@),
                    edges_wf(edges, ids),
                    cand == seq![earlier] + ids,
                    0 <= j <= edges.len(),
                    visited@ == vis0,
                    forall|x: u64| #[trigger] fr0.contains(x) ==> frontier@.contains(x),
                    forall|x: u64| #[trigger] frontier@.contains(x) ==> reach0(edges, earlier, x),
                    forall|x: u64| #[trigger] frontier@.contains(x) ==> cand.contains(x),
                    reach0(edges, earlier, current),
                    forall|k: int| 0 <= k < j && (#[trigger] edges[k]).0 == current && edges[k].2 != EdgeKind::Unknown
                        ==> frontier@.contains(edges[k].1),
                decreases edges.len() - j,
            {
                let (a, b, k) = self.edges[j];
                if a == current && k.is_observed() {
                    let ghost before = frontier@;
                    frontier.push(b);
                    proof {
                        assert(observed_edge(edges, current, b)) by {
                            assert(edges[j as int].0 == current);
                        }
                        lemma_reach0_step(edges, earlier, current, b);
                        assert(ids.contains(b));
                        let kk = choose|kk: int| 0 <= kk < ids.len() && ids[kk] == b;
                        assert(cand[kk + 1] == b);
                        assert forall|x: u64| #[trigger] frontier@.contains(x) implies before.contains(x) || x == b by {
                            let q = choose|q: int| 0 <= q < frontier@.len() && frontier@[q] == x;
                            if q < before.len() {
                                assert(before[q] == x);
                            }
                        }
                        assert forall|x: u64| #[trigger] before.contains(x) implies frontier@.contains(x) by {
                            let q = choose|q: int| 0 <= q < before.len() && before[q] == x;
                            assert(frontier@[q] == x);
                        }
                        assert(frontier@[frontier@.len() - 1] == b);
                    }
                }
                j += 1;
            }
            let ghost vis_before = visited@;
            visited.push(current);
            proof {
                assert forall|x: u64| #[trigger] visited@.contains(x) implies vis_before.contains(x) || x == current by {
                    let q = choose|q: int| 0 <= q < visited@.len() && visited@[q] == x;
                    if q < vis_before.len() {
                        assert(vis_before[q] == x);
                    }
                }
                assert forall|x: u64| #[trigger] vis_before.contains(x) implies visited@.contains(x) by {
                    let q = choose|q: int| 0 <= q < vis_before.len() && vis_before[q] == x;
                    assert(visited@[q] == x);
                }
                assert(visited@[visited@.len() - 1] == current);
                assert forall|x: u64, y: u64| visited@.contains(x) && #[trigger] observed_edge(edges, x, y)
                    implies visited@.contains(y) || frontier@.contains(y) by {
                    if x == current {
                        let q = choose|q: int| 0 <= q < edges.len() && #[trigger] edges[q].0 == x && edges[q].1 == y
                            && edges[q].2 != EdgeKind::Unknown;
                    } else {
                        assert(vis_before.contains(x));
                        if fr.contains(y) && !fr0.contains(y) {
                            let k = choose|k: int| 0 <= k < fr.len() && fr[k] == y;
                            if k < fr0.len() {
                                assert(fr0[k] == y);
                            } else {
                                assert(y == current);
                            }
                        }
                    }
                }
                if fr.contains(earlier) && !fr0.contains(earlier) {
                    let k = choose|k: int| 0 <= k < fr.len() && fr[k] == earlier;
                    if k < fr0.len() {
                        assert(fr0[k] == earlier);
                    }
                }
                assert(visited@.no_duplicates());
                // size bound: visited is a duplicate-free subset of cand
                visited@.unique_seq_to_set();
                assert(visited@.to_set().subset_of(cand.to_set()));
                vstd::set_lib::lemma_len_subset(visited@.to_set(), cand.to_set());
            }
        }
    }
}

impl HappensBeforeGraph {
    /// The pair `(a, b)` is reported: as concurrent (`cyclic == false`,
    /// neither orders the other) or as a cycle (`cyclic == true`, each
    /// orders the other).
    pub open spec fn pair_selected(&self, a: u64, b: u64, cyclic: bool) -> bool {
        if cyclic {
            self.spec_happens_before(a, b) && self.spec_happens_before(b, a)
        } else {
            !self.spec_happens_before(a, b) && !self.spec_happens_before(b, a)
        }
    }

    /// Selected pairs `(ids[a], ids[b])` for `a < b < end`, in order of `b`.
    pub open spec fn pair_row(&self, a: int, end: int, cyclic: bool) -> Seq<ConcurrentPair>
        decreases end - a,
    {
        if end <= a + 1 {
            Seq::empty()
        } else {
            let prev = self.pair_row(a, end - 1, cyclic);
            let x = self.spec_ids()[a];
            let y = self.spec_ids()[end - 1];
            if self.pair_selected(x, y, cyclic) {
                prev.push(ConcurrentPair { earlier: x, later: y })
            } else {
                prev
            }
        }
    }

    /// Selected pairs whose first index is below `rows`, row by row.
    pub open spec fn pair_rows(&self, rows: int, cyclic: bool) -> Seq<ConcurrentPair>
        decreases rows,
    {
        if rows <= 0 {
            Seq::empty()
        } else {
            self.pair_rows(rows - 1, cyclic) + self.pair_row(rows - 1, self.spec_ids().len() as int, cyclic)
        }
    }

    fn select_pairs(&self, cyclic: bool) -> (r: Vec<ConcurrentPair>)
        ensures
            r@ == self.pair_rows(self.spec_ids().len() as int, cyclic),
    {
        let n = self.events.len();
        assert(self.spec_ids().len() == n);
        let mut result: Vec<ConcurrentPair> = Vec::new();
        let mut i: usize = 0;
        while i < n
            invariant
                n == self.events@.len(),
                n == self.spec_ids().len(),
                0 <= i <= n,
                result@ == self.pair_rows(i as int, cyclic),
            decreases n - i,
        {
            let a = self.events[i].event_id;
            assert(a == self.spec_ids()[i as int]);
            let ghost base = result@;
            let mut j: usize = i + 1;
            proof {
                assert(self.pair_row(i as int, j as int, cyclic) =~= Seq::<ConcurrentPair>::empty());
            }
            while j < n
                invariant
                    n == self.events@.len(),
                    n == self.spec_ids().len(),
                    0 <= i < n,
                    i + 1 <= j <= n,
                    a == self.spec_ids()[i as int],
                    base == self.pair_rows(i as int, cyclic),
                    result@ == base + self.pair_row(i as int, j as int, cyclic),
                decreases n - j,
            {
                let b = self.events[j].event_id;
                assert(b == self.spec_ids()[j as int]);
                let keep = if cyclic {
                    self.happens_before(a, b) && self.happens_before(b, a)
                } else {
                    !self.happens_before(a, b) && !self.happens_before(b, a)
                };
                if keep {
                    result.push(ConcurrentPair { earlier: a, later: b });
                }
                proof {
                    assert(result@ =~= base + self.pair_row(i as int, j + 1, cyclic));
                }
                j += 1;
            }
            proof {
                assert(result@ =~= self.pair_rows(i + 1, cyclic));
            }
            i += 1;
        }
        result
    }

    /// Event pairs with no causal order either way, each reported once as
    /// `(smaller id, larger id)`, ascending. A pair joined only by an
    /// `Unknown` edge counts as concurrent.
    pub fn concurrent_pairs(&self) -> (r: Vec<ConcurrentPair>)
        ensures
            r@ == self.pair_rows(self.spec_ids().len() as int, false),
            self.graph_wf(),
    {
        proof {
            use_type_invariant(self);
        }
        self.select_pairs(false)
    }

    /// Event pairs ordered both ways (a cycle), each reported once as
    /// `(smaller id, larger id)`, ascending.
    pub fn cycles(&self) -> (r: Vec<ConcurrentPair>)
        ensures
            r@ == self.pair_rows(self.spec_ids().len() as int, true),
            self.graph_wf(),
    {
        proof {
            use_type_invariant(self);
        }
        self.select_pairs(true)
    }

    /// The events, ascending by id.
    pub fn events_sorted(&self) -> (r: Vec<&TypedConcurrencyEvent>)
        ensures
            r@.len() == self.spec_events().len(),
            forall|k: int| 0 <= k < r@.len() ==> *r@[k] == self.spec_events()[k],
            self.graph_wf(),
    {
        proof {
            use_type_invariant(self);
        }
        let mut r: Vec<&TypedConcurrencyEvent> = Vec::new();
        let mut i: usize = 0;
        while i < self.events.len()
            invariant
                0 <= i <= self.events@.len(),
                r@.len() == i,
                forall|k: int| 0 <= k < i ==> *r@[k] == self.events@[k],
            decreases self.events@.len() - i,
        {
            r.push(&self.events[i]);
            i += 1;
        }
        r
    }
}

/// `p` with the field that `kind` names cleared (`DropEvent` names none).
pub open spec fn provenance_without(p: Provenance, kind: PerturbationKind) -> Provenance {
    match kind {
        PerturbationKind::DropThreadId => Provenance { thread_id: None, ..p },
        PerturbationKind::DropTimestamp => Provenance { timestamp_ns: None, ..p },
        PerturbationKind::DropFunction => Provenance { function: None, ..p },
        PerturbationKind::DropFile => Provenance { file: None, ..p },
        PerturbationKind::DropLine => Provenance { line: None, ..p },
        PerturbationKind::DropEvent => p,
    }
}

/// `e` with its provenance field cleared when it is the event `id`.
pub open spec fn event_without(e: TypedConcurrencyEvent, id: u64, kind: PerturbationKind) -> TypedConcurrencyEvent {
    if e.event_id == id {
        TypedConcurrencyEvent { provenance: provenance_without(e.provenance, kind), ..e }
    } else {
        e
    }
}

fn clear_provenance_field(p: &mut Provenance, kind: PerturbationKind)
    ensures
        *final(p) == provenance_without(*old(p), kind),
{
    match kind {
        PerturbationKind::DropThreadId => p.thread_id = None,
        PerturbationKind::DropTimestamp => p.timestamp_ns = None,
        PerturbationKind::DropFunction => p.function = None,
        PerturbationKind::DropFile => p.file = None,
        PerturbationKind::DropLine => p.line = None,
        PerturbationKind::DropEvent => {},
    }
}

impl HappensBeforeGraph {
    /// Clear, in the provenance of the event `id` (if present), the field
    /// that `kind` names. Nothing else changes.
    pub(crate) fn drop_provenance_field(&mut self, id: u64, kind: PerturbationKind)
        ensures
            final(self).spec_events() == old(self).spec_events().map_values(
                |e: TypedConcurrencyEvent| event_without(e, id, kind),
            ),
            final(self).spec_edges() == old(self).spec_edges(),
    {
        proof {
            use_type_invariant(&*self);
        }
        let (pos, found) = self.position_of(id);
        if !found {
            proof {
                assert forall|k: int| 0 <= k < self.events@.len() implies self.events@[k].event_id != id by {
                    assert(ids_of(self.events@)[k] == self.events@[k].event_id);
                }
                assert(self.events@ =~= self.events@.map_values(|e: TypedConcurrencyEvent| event_without(e, id, kind)));
            }
            return;
        }
        let ghost old_events = self.events@;
        let ghost old_ids = ids_of(old_events);
        let mut edges: Vec<Edge> = Vec::new();
        std::mem::swap(&mut edges, &mut self.edges);
        let mut events: Vec<TypedConcurrencyEvent> = Vec::new();
        std::mem::swap(&mut events, &mut self.events);
        let mut e = events.remove(pos);
        clear_provenance_field(&mut e.provenance, kind);
        events.insert(pos, e);
        proof {
            assert(old_events[pos as int].event_id == id);
            assert forall|k: int| 0 <= k < old_events.len() && k != pos implies old_events[k].event_id != id by {
                assert(old_ids[k] == old_events[k].event_id);
                if k < pos {
                    assert(old_ids[k] < old_ids[pos as int]);
                } else {
                    assert(old_ids[pos as int] < old_ids[k]);
                }
            }
            assert(events@ =~= old_events.map_values(|e: TypedConcurrencyEvent| event_without(e, id, kind)));
            assert(ids_of(events@) =~= old_ids);
        }
        *self = HappensBeforeGraph { events, edges };
    }

    /// Remove the event `id` (if present) and every edge that touches it.
    pub(crate) fn remove_event(&mut self, id: u64)
        ensures
            forall|e: TypedConcurrencyEvent| #[trigger] final(self).spec_events().contains(e) <==> (old(self).spec_events().contains(e) && e.event_id != id),
            forall|x: u64| #[trigger] final(self).spec_ids().contains(x) <==> (old(self).spec_ids().contains(x) && x
                != id),
            forall|e: Edge| #[trigger] final(self).spec_edges().contains(e) <==> (old(self).spec_edges().contains(e)
                && e.0 != id && e.1 != id),
    {
        proof {
            use_type_invariant(&*self);
        }
        let (pos, found) = self.position_of(id);
        let ghost old_events = self.events@;
        let ghost old_ids = ids_of(old_events);
        let ghost old_edges = self.edges@;
        let mut edges: Vec<Edge> = Vec::new();
        std::mem::swap(&mut edges, &mut self.edges);
        let mut events: Vec<TypedConcurrencyEvent> = Vec::new();
        std::mem::swap(&mut events, &mut self.events);
        if found {
            events.remove(pos);
        }
        let ghost new_ids = ids_of(events@);
        proof {
            if found {
                assert(new_ids =~= old_ids.remove(pos as int));
            } else {
                assert(new_ids =~= old_ids);
            }
            assert forall|x: u64| #[trigger] new_ids.contains(x) <==> (old_ids.contains(x) && x != id) by {
                if found {
                    if new_ids.contains(x) {
                        let k = choose|k: int| 0 <= k < new_ids.len() && new_ids[k] == x;
                        if k < pos {
                            assert(old_ids[k] == x);
                            assert(old_ids[k] < old_ids[pos as int]);
                        } else {
                            assert(old_ids[k + 1] == x);
                            assert(old_ids[pos as int] < old_ids[k + 1]);
                        }
                    }
                    if old_ids.contains(x) && x != id {
                        let k = choose|k: int| 0 <= k < old_ids.len() && old_ids[k] == x;
                        if k < pos {
                            assert(new_ids[k] == x);
                        } else {
                            assert(k != pos);
                            assert(new_ids[k - 1] == x);
                        }
                    }
                }
            }
            assert forall|e: TypedConcurrencyEvent| #[trigger] events@.contains(e) <==> (old_events.contains(e)
                && e.event_id != id) by {
                if found {
                    if events@.contains(e) {
                        let k = choose|k: int| 0 <= k < events@.len() && events@[k] == e;
                        assert(new_ids[k] == e.event_id);
                        assert(new_ids.contains(e.event_id));
                        if k < pos {
                            assert(old_events[k] == e);
                        } else {
                            assert(old_events[k + 1] == e);
                        }
                    }
                    if old_events.contains(e) && e.event_id != id {
                        let k = choose|k: int| 0 <= k < old_events.len() && old_events[k] == e;
                        assert(old_ids[k] == e.event_id);
                        if k < pos {
                            assert(events@[k] == e);
                        } else {
                            assert(k != pos);
                            assert(events@[k - 1] == e);
                        }
                    }
                } else {
                    if old_events.contains(e) {
                        let k = choose|k: int| 0 <= k < old_events.len() && old_events[k] == e;
                        assert(old_ids[k] == e.event_id);
                        assert(old_ids.contains(e.event_id));
                    }
                }
            }
        }
        let mut kept: Vec<Edge> = Vec::new();
        let ghost mut idx: Seq<int> = Seq::empty();
        let mut i: usize = 0;
        while i < edges.len()
            invariant
                edges@ == old_edges,
                edges_wf(old_edges, old_ids),
                strictly_sorted(new_ids),
                forall|x: u64| #[trigger] new_ids.contains(x) <==> (old_ids.contains(x) && x != id),
                0 <= i <= old_edges.len(),
                idx.len() == kept@.len(),
                forall|m: int| 0 <= m < idx.len() ==> 0 <= #[trigger] idx[m] < i && kept@[m] == old_edges[idx[m]],
                forall|m1: int, m2: int| 0 <= m1 < m2 < idx.len() ==> idx[m1] < idx[m2],
                forall|m: int| 0 <= m < kept@.len() ==> (#[trigger] kept@[m]).0 != id && kept@[m].1 != id,
                forall|k: int| 0 <= k < i && (#[trigger] old_edges[k]).0 != id && old_edges[k].1 != id
                    ==> kept@.contains(old_edges[k]),
            decreases old_edges.len() - i,
        {
            let e = edges[i];
            if e.0 != id && e.1 != id {
                let ghost before = kept@;
                kept.push(e);
                proof {
                    idx = idx.push(i as int);
                    assert forall|k: int| 0 <= k < i + 1 && (#[trigger] old_edges[k]).0 != id && old_edges[k].1 != id
                        implies kept@.contains(old_edges[k]) by {
                        if k < i {
                            let m = choose|m: int| 0 <= m < before.len() && before[m] == old_edges[k];
                            assert(kept@[m] == old_edges[k]);
                        } else {
                            assert(kept@[kept@.len() - 1] == old_edges[k]);
                        }
                    }
                }
            }
            i += 1;
        }
        proof {
            assert forall|e: Edge| #[trigger] kept@.contains(e) <==> (old_edges.contains(e) && e.0 != id && e.1 != id) by {
                if kept@.contains(e) {
                    let m = choose|m: int| 0 <= m < kept@.len() && kept@[m] == e;
                    assert(old_edges[idx[m]] == e);
                }
                if old_edges.contains(e) && e.0 != id && e.1 != id {
                    let k = choose|k: int| 0 <= k < old_edges.len() && old_edges[k] == e;
                    assert(old_edges[k].0 != id);
                }
            }
            assert forall|a: int, b: int| 0 <= a < b < kept@.len() implies (kept@[a].0 != kept@[b].0 || kept@[a].1
                != kept@[b].1) by {
                assert(idx[a] < idx[b]);
                assert(old_edges[idx[a]].0 != old_edges[idx[b]].0 || old_edges[idx[a]].1 != old_edges[idx[b]].1);
            }
            assert forall|a: int| 0 <= a < kept@.len() implies (#[trigger] kept@[a]).0 != kept@[a].1 by {
                assert(kept@[a] == old_edges[idx[a]]);
            }
            assert forall|a: int| 0 <= a < kept@.len() implies new_ids.contains((#[trigger] kept@[a]).0)
                && new_ids.contains(kept@[a].1) by {
                assert(kept@[a] == old_edges[idx[a]]);
                assert(old_ids.contains(old_edges[idx[a]].0));
                assert(old_ids.contains(old_edges[idx[a]].1));
            }
        }
        *self = HappensBeforeGraph { events, edges: kept };
    }
}

/// `x` occurs in `v`.
fn contains_id(v: &Vec<u64>, x: u64) -> (b: bool)
    ensures
        b == v@.contains(x),
{
    let mut i: usize = 0;
    while i < v.len()
        invariant
            0 <= i <= v@.len(),
            forall|j: int| 0 <= j < i ==> v@[j] != x,
        decreases v@.len() - i,
    {
        if v[i] == x {
            return true;
        }
        i += 1;
    }
    false
}

} // verus!

verus! {

proof fn lemma_pair_row(g: HappensBeforeGraph, a: int, end: int, cyclic: bool)
    requires
        0 <= a < g.spec_ids().len(),
        end <= g.spec_ids().len(),
    ensures
        forall|p: ConcurrentPair| #[trigger] g.pair_row(a, end, cyclic).contains(p) ==> p.earlier == g.spec_ids()[a]
            && (exists|b: int| a < b < end && #[trigger] g.spec_ids()[b] == p.later) && g.pair_selected(
            p.earlier,
            p.later,
            cyclic,
        ),
        forall|b: int| a < b < end && g.pair_selected(g.spec_ids()[a], #[trigger] g.spec_ids()[b], cyclic)
            ==> g.pair_row(a, end, cyclic).contains(ConcurrentPair { earlier: g.spec_ids()[a], later: g.spec_ids()[b] }),
    decreases end - a,
{
    if end > a + 1 {
        lemma_pair_row(g, a, end - 1, cyclic);
        let prev = g.pair_row(a, end - 1, cyclic);
        let row = g.pair_row(a, end, cyclic);
        let x = g.spec_ids()[a];
        let y = g.spec_ids()[end - 1];
        assert forall|p: ConcurrentPair| #[trigger] row.contains(p) implies p.earlier == x && (exists|b: int|
            a < b < end && #[trigger] g.spec_ids()[b] == p.later) && g.pair_selected(p.earlier, p.later, cyclic) by {
            if prev.contains(p) {
                let b = choose|b: int| a < b < end - 1 && #[trigger] g.spec_ids()[b] == p.later;
                assert(a < b < end && g.spec_ids()[b] == p.later);
            } else {
                let k = choose|k: int| 0 <= k < row.len() && row[k] == p;
                assert(k == prev.len());
                assert(g.spec_ids()[end - 1] == p.later);
            }
        }
        assert forall|b: int| a < b < end && g.pair_selected(x, #[trigger] g.spec_ids()[b], cyclic) implies row.contains(
            ConcurrentPair { earlier: x, later: g.spec_ids()[b] },
        ) by {
            let q = ConcurrentPair { earlier: x, later: g.spec_ids()[b] };
            if b < end - 1 {
                assert(prev.contains(q));
                let k = choose|k: int| 0 <= k < prev.len() && prev[k] == q;
                assert(row[k] == q);
            } else {
                assert(row[row.len() - 1] == q);
            }
        }
    }
}

proof fn lemma_pair_rows(g: HappensBeforeGraph, rows: int, cyclic: bool)
    requires
        0 <= rows <= g.spec_ids().len(),
    ensures
        forall|p: ConcurrentPair| #[trigger] g.pair_rows(rows, cyclic).contains(p) ==> exists|a: int, b: int|
            0 <= a < rows && a < b < g.spec_ids().len() && #[trigger] g.spec_ids()[a] == p.earlier
                && #[trigger] g.spec_ids()[b] == p.later && g.pair_selected(p.earlier, p.later, cyclic),
        forall|a: int, b: int| 0 <= a < rows && a < b < g.spec_ids().len() && g.pair_selected(
            #[trigger] g.spec_ids()[a],
            #[trigger] g.spec_ids()[b],
            cyclic,
        ) ==> g.pair_rows(rows, cyclic).contains(ConcurrentPair { earlier: g.spec_ids()[a], later: g.spec_ids()[b] }),
    decreases rows,
{
    if rows > 0 {
        let n = g.spec_ids().len() as int;
        lemma_pair_rows(g, rows - 1, cyclic);
        lemma_pair_row(g, rows - 1, n, cyclic);
        let prev = g.pair_rows(rows - 1, cyclic);
        let row = g.pair_row(rows - 1, n, cyclic);
        let all = g.pair_rows(rows, cyclic);
        assert(all == prev + row);
        assert forall|p: ConcurrentPair| #[trigger] all.contains(p) implies exists|a: int, b: int|
            0 <= a < rows && a < b < n && #[trigger] g.spec_ids()[a] == p.earlier && #[trigger] g.spec_ids()[b]
                == p.later && g.pair_selected(p.earlier, p.later, cyclic) by {
            let k = choose|k: int| 0 <= k < all.len() && all[k] == p;
            if k < prev.len() {
                assert(prev[k] == p);
                assert(prev.contains(p));
            } else {
                assert(row[k - prev.len()] == p);
                assert(row.contains(p));
                let b = choose|b: int| rows - 1 < b < n && #[trigger] g.spec_ids()[b] == p.later;
                assert(g.spec_ids()[rows - 1] == p.earlier);
            }
        }
        assert forall|a: int, b: int| 0 <= a < rows && a < b < n && g.pair_selected(
            #[trigger] g.spec_ids()[a],
            #[trigger] g.spec_ids()[b],
            cyclic,
        ) implies all.contains(ConcurrentPair { earlier: g.spec_ids()[a], later: g.spec_ids()[b] }) by {
            let q = ConcurrentPair { earlier: g.spec_ids()[a], later: g.spec_ids()[b] };
            if a < rows - 1 {
                assert(prev.contains(q));
                let k = choose|k: int| 0 <= k < prev.len() && prev[k] == q;
                assert(all[k] == q);
            } else {
                assert(row.contains(q));
                let k = choose|k: int| 0 <= k < row.len() && row[k] == q;
                assert(all[prev.len() + k] == q);
            }
        }
    }
}

/// The pairs that `concurrent_pairs` (`cyclic == false`) or `cycles`
/// (`cyclic == true`) report are exactly the pairs of distinct events
/// `x < y` of the graph that are ordered neither way (concurrent) or
/// both ways (cycle). No event is ever paired with itself.
pub proof fn law_reported_pairs(g: HappensBeforeGraph, cyclic: bool, x: u64, y: u64)
    requires
        strictly_sorted(g.spec_ids()),
    ensures
        g.pair_rows(g.spec_ids().len() as int, cyclic).contains(ConcurrentPair { earlier: x, later: y }) <==> (
        g.spec_ids().contains(x) && g.spec_ids().contains(y) && x < y && g.pair_selected(x, y, cyclic)),
{
    let ids = g.spec_ids();
    let n = ids.len() as int;
    lemma_pair_rows(g, n, cyclic);
    let q = ConcurrentPair { earlier: x, later: y };
    if g.pair_rows(n, cyclic).contains(q) {
        let (a, b) = choose|a: int, b: int| 0 <= a < n && a < b < n && #[trigger] ids[a] == q.earlier
            && #[trigger] ids[b] == q.later && g.pair_selected(q.earlier, q.later, cyclic);
        assert(ids[a] < ids[b]);
    }
    if ids.contains(x) && ids.contains(y) && x < y && g.pair_selected(x, y, cyclic) {
        let a = choose|a: int| 0 <= a < n && ids[a] == x;
        let b = choose|b: int| 0 <= b < n && ids[b] == y;
        if b <= a {
            if b < a {
                assert(ids[b] < ids[a]);
            }
        }
        assert(a < b);
        assert(g.pair_selected(ids[a], ids[b], cyclic));
    }
}

/// Happens-before is transitive: `a -> b` and `b -> c` give `a -> c`
/// whenever `a` and `c` differ.
pub proof fn law_happens_before_transitive(g: HappensBeforeGraph, a: u64, b: u64, c: u64)
    requires
        g.spec_happens_before(a, b),
        g.spec_happens_before(b, c),
        a != c,
    ensures
        g.spec_happens_before(a, c),
{
    let edges = g.spec_edges();
    let p1 = choose|path: Seq<u64>| #![trigger is_path(edges, path)]
        path.len() >= 2 && path[0] == a && path.last() == b && is_path(edges, path);
    let p2 = choose|path: Seq<u64>| #![trigger is_path(edges, path)]
        path.len() >= 2 && path[0] == b && path.last() == c && is_path(edges, path);
    let p = p1 + p2.drop_first();
    assert forall|i: int| 0 <= i < p.len() - 1 implies #[trigger] observed_edge(edges, p[i], p[i + 1]) by {
        if i < p1.len() - 1 {
            assert(p[i] == p1[i] && p[i + 1] == p1[i + 1]);
        } else if i == p1.len() - 1 {
            assert(p[i] == p2[0] && p[i + 1] == p2[1]);
        } else {
            let j = i - p1.len() + 1;
            assert(p[i] == p2[j] && p[i + 1] == p2[j + 1]);
        }
    }
    assert(is_path(edges, p));
    assert(p.last() == c);
}

/// After `add_edge(a, b, kind)` with `a != b` and an observed `kind`,
/// `a` happens-before `b`; with an `Unknown` kind the new entry itself
/// orders nothing.
pub proof fn law_add_edge_orders(edges: Seq<Edge>, a: u64, b: u64, kind: EdgeKind)
    requires
        a != b,
        kind != EdgeKind::Unknown,
    ensures
        reachable(HappensBeforeGraph::edges_after_add(edges, a, b, kind), a, b),
{
    let e2 = HappensBeforeGraph::edges_after_add(edges, a, b, kind);
    if has_pair(edges, a, b) {
        let i = pair_index(edges, a, b);
        assert(e2[i] == (a, b, kind));
        assert(e2[i].0 == a && e2[i].1 == b && e2[i].2 != EdgeKind::Unknown);
    } else {
        let i = edges.len() as int;
        assert(e2[i] == (a, b, kind));
        assert(e2[i].0 == a && e2[i].1 == b && e2[i].2 != EdgeKind::Unknown);
    }
    let path = seq![a, b];
    assert(is_path(e2, path));
}

} // verus!
