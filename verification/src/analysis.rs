//! Mutation lens and causal-slice edges over a session's events.

use vstd::prelude::*;
use crate::error::ServiceError;
use crate::trace::{EventData, TraceEvent};

verus! {

/// Input of a mutation-lens request.
#[derive(Debug, Clone, PartialEq, Eq)]
pub struct MutationLensInput {
    pub session_id: String,
    /// Only this variable, when set.
    pub target: Option<String>,
    /// Cap on the transitions returned; 100 when unset.
    pub limit: Option<usize>,
}

/// Input of a causal-slice request.
#[derive(Debug, Clone, PartialEq, Eq)]
pub struct CausalSliceInput {
    pub session_id: String,
    pub sink_event_id: u64,
}

/// Stateless holder of the analysis algorithms.
pub struct ChronosAnalysisService;

/// One observed change of a variable: its value before and after, and the
/// index of the event that wrote the new value.
#[derive(Debug, Clone, PartialEq, Eq)]
pub struct StateTransition {
    pub target: String,
    pub before: Option<String>,
    pub after: String,
    pub index: usize,
}

/// Output of the mutation lens.
#[derive(Debug, Clone, PartialEq, Eq)]
pub struct MutationLensOutput {
    pub session_id: String,
    pub count: usize,
    pub transitions: Vec<StateTransition>,
}

/// Default cap on mutation-lens transitions.
pub const DEFAULT_MUTATION_LIMIT: usize = 100;

/// A transition as plain values: variable, before, after, event index.
pub type TransitionView = (Seq<char>, Seq<char>, Seq<char>, int);

/// The variable write of `e` that the lens looks at, if any: a write of a
/// variable, named `target` when a target is given.
pub open spec fn lens_write(e: TraceEvent, target: Option<Seq<char>>) -> Option<(Seq<char>, Seq<char>)> {
    match e.data {
        EventData::Variable(v) => if target matches Some(t) && v.name@ != t {
            None
        } else {
            Some((v.name@, v.value@))
        },
        _ => None,
    }
}

/// Transitions found in the first `n` events, and the last value written
/// to each variable so far: each write of a variable already written
/// yields one transition from the previous value to the new one.
pub open spec fn lens_scan(events: Seq<TraceEvent>, n: int, target: Option<Seq<char>>) -> (
    Seq<TransitionView>,
    Map<Seq<char>, Seq<char>>,
)
    decreases n,
{
    if n <= 0 {
        (Seq::empty(), Map::empty())
    } else {
        let (ts, last) = lens_scan(events, n - 1, target);
        match lens_write(events[n - 1], target) {
            Some((name, value)) => (
                if last.contains_key(name) {
                    ts.push((name, last[name], value, n - 1))
                } else {
                    ts
                },
                last.insert(name, value),
            ),
            None => (ts, last),
        }
    }
}

pub open spec fn transition_view(t: StateTransition) -> TransitionView {
    (t.target@, match t.before {
        Some(b) => b@,
        None => Seq::empty(),
    }, t.after@, t.index as int)
}

/// The transitions the lens reports: the earliest `limit` (100 when
/// unset) of all transitions found.
pub open spec fn lens_transitions(events: Seq<TraceEvent>, target: Option<String>, limit: Option<usize>) -> Seq<
    TransitionView,
> {
    let tg = match target {
        Some(t) => Some(t@),
        None => None,
    };
    let all = lens_scan(events, events.len() as int, tg).0;
    let cap = match limit {
        Some(l) => l as int,
        None => DEFAULT_MUTATION_LIMIT as int,
    };
    if all.len() > cap {
        all.take(cap)
    } else {
        all
    }
}

/// Look up the last value written to `name`.
fn last_value(pending: &Vec<(String, String)>, name: &String) -> (r: Option<usize>)
    ensures
        r matches Some(k) ==> k < pending@.len() && pending@[k as int].0@ == name@,
        r is None ==> forall|k: int| 0 <= k < pending@.len() ==> (#[trigger] pending@[k]).0@ != name@,
{
    let mut k: usize = 0;
    while k < pending.len()
        invariant
            0 <= k <= pending@.len(),
            forall|j: int| 0 <= j < k ==> (#[trigger] pending@[j]).0@ != name@,
        decreases pending@.len() - k,
    {
        if pending[k].0 == *name {
            return Some(k);
        }
        k += 1;
    }
    None
}

/// The last-value table as a map from names to values.
pub open spec fn pending_map(p: Seq<(String, String)>) -> Map<Seq<char>, Seq<char>> {
    Map::new(
        |n: Seq<char>| exists|k: int| 0 <= k < p.len() && (#[trigger] p[k]).0@ == n,
        |n: Seq<char>| p[choose|k: int| 0 <= k < p.len() && (#[trigger] p[k]).0@ == n].1@,
    )
}

/// Collect variable transitions over `events` (in trace order): every
/// write of a variable (of `target`, when given) that follows an earlier
/// write of the same variable yields a transition from the earlier value,
/// at the index of the later event. At most `limit` transitions (100 when
/// unset) are kept, the earliest ones.
pub fn mutation_transitions(events: &Vec<TraceEvent>, target: &Option<String>, limit: Option<usize>) -> (r: Vec<
    StateTransition,
>)
    ensures
        r@.len() == lens_transitions(events@, *target, limit).len(),
        forall|k: int| 0 <= k < r@.len() ==> transition_view(#[trigger] r@[k]) == lens_transitions(events@, *target, limit)[k],
        forall|k: int| 0 <= k < r@.len() ==> (#[trigger] r@[k]).before is Some,
{
    let ghost tg = match target {
        Some(t) => Some(t@),
        None => None::<Seq<char>>,
    };
    let cap = match limit {
        Some(l) => l,
        None => DEFAULT_MUTATION_LIMIT,
    };
    let mut pending: Vec<(String, String)> = Vec::new();
    let mut transitions: Vec<StateTransition> = Vec::new();
    let mut i: usize = 0;
    while i < events.len()
        invariant
            0 <= i <= events@.len(),
            tg == (match target {
                Some(t) => Some(t@),
                None => None,
            }),
            forall|a: int, b: int| 0 <= a < b < pending@.len() ==> pending@[a].0@ != pending@[b].0@,
            pending_map(pending@) =~= lens_scan(events@, i as int, tg).1,
            transitions@.len() == lens_scan(events@, i as int, tg).0.len(),
            forall|k: int| 0 <= k < transitions@.len() ==> transition_view(#[trigger] transitions@[k])
                == lens_scan(events@, i as int, tg).0[k],
            forall|k: int| 0 <= k < transitions@.len() ==> (#[trigger] transitions@[k]).before is Some,
        decreases events@.len() - i,
    {
        let ghost prev = lens_scan(events@, i as int, tg);
        let ghost old_pending = pending@;
        let ghost old_transitions = transitions@;
        if let EventData::Variable(var) = &events[i].data {
            let matches = match target {
                Some(t) => var.name == *t,
                None => true,
            };
            if matches {
                match last_value(&pending, &var.name) {
                    Some(k) => {
                        let before = pending[k].1.clone();
                        proof {
                            assert(pending_map(old_pending).contains_key(var.name@));
                            let w = choose|w: int| 0 <= w < old_pending.len() && (#[trigger] old_pending[w]).0@ == var.name@;
                            if w != k {
                                if w < k {
                                    assert(old_pending[w].0@ != old_pending[k as int].0@);
                                } else {
                                    assert(old_pending[k as int].0@ != old_pending[w].0@);
                                }
                            }
                            assert(pending_map(old_pending)[var.name@] == before@);
                        }
                        transitions.push(
                            StateTransition { target: var.name.clone(), before: Some(before), after: var.value.clone(), index: i },
                        );
                        pending.set(k, (var.name.clone(), var.value.clone()));
                        proof {
                            assert forall|a: int, b: int| 0 <= a < b < pending@.len() implies pending@[a].0@
                                != pending@[b].0@ by {
                                if a == k {
                                    assert(old_pending[b].0@ != old_pending[k as int].0@);
                                } else if b == k {
                                    assert(old_pending[a].0@ != old_pending[k as int].0@);
                                } else {
                                    assert(old_pending[a].0@ != old_pending[b].0@);
                                }
                            }
                            assert forall|n: Seq<char>| #[trigger] pending_map(pending@).contains_key(n) implies
                                pending_map(pending@)[n] == prev.1.insert(var.name@, var.value@)[n] by {
                                let w = choose|w: int| 0 <= w < pending@.len() && (#[trigger] pending@[w]).0@ == n;
                                if n == var.name@ {
                                    if w != k {
                                        if w < k {
                                            assert(pending@[w].0@ != pending@[k as int].0@);
                                        } else {
                                            assert(pending@[k as int].0@ != pending@[w].0@);
                                        }
                                    }
                                } else {
                                    assert(pending@[w] == old_pending[w]);
                                    assert(pending_map(old_pending).contains_key(n));
                                    let w2 = choose|w2: int| 0 <= w2 < old_pending.len() && (#[trigger] old_pending[w2]).0@ == n;
                                    if w2 != w {
                                        if w2 < w {
                                            assert(old_pending[w2].0@ != old_pending[w].0@);
                                        } else {
                                            assert(old_pending[w].0@ != old_pending[w2].0@);
                                        }
                                    }
                                }
                            }
                            assert forall|n: Seq<char>| #[trigger] prev.1.insert(var.name@, var.value@).contains_key(n)
                                implies pending_map(pending@).contains_key(n) by {
                                if n == var.name@ {
                                    assert(pending@[k as int].0@ == n);
                                } else {
                                    assert(pending_map(old_pending).contains_key(n));
                                    let w = choose|w: int| 0 <= w < old_pending.len() && (#[trigger] old_pending[w]).0@ == n;
                                    assert(pending@[w] == old_pending[w]);
                                }
                            }
                            assert(pending_map(pending@) =~= prev.1.insert(var.name@, var.value@));
                            assert(transition_view(transitions@[old_transitions.len() as int]) == (
                                var.name@,
                                prev.1[var.name@],
                                var.value@,
                                i as int,
                            ));
                        }
                    },
                    None => {
                        pending.push((var.name.clone(), var.value.clone()));
                        proof {
                            assert(!pending_map(old_pending).contains_key(var.name@));
                            assert forall|a: int, b: int| 0 <= a < b < pending@.len() implies pending@[a].0@
                                != pending@[b].0@ by {
                                if b == old_pending.len() {
                                    assert(old_pending[a].0@ != var.name@);
                                } else {
                                    assert(pending@[a] == old_pending[a]);
                                    assert(pending@[b] == old_pending[b]);
                                }
                            }
                            assert forall|n: Seq<char>| #[trigger] pending_map(pending@).contains_key(n) implies
                                pending_map(pending@)[n] == prev.1.insert(var.name@, var.value@)[n] by {
                                let w = choose|w: int| 0 <= w < pending@.len() && (#[trigger] pending@[w]).0@ == n;
                                if n != var.name@ {
                                    assert(w < old_pending.len());
                                    assert(pending@[w] == old_pending[w]);
                                    assert(pending_map(old_pending).contains_key(n));
                                    let w2 = choose|w2: int| 0 <= w2 < old_pending.len() && (#[trigger] old_pending[w2]).0@ == n;
                                    if w2 != w {
                                        if w2 < w {
                                            assert(old_pending[w2].0@ != old_pending[w].0@);
                                        } else {
                                            assert(old_pending[w].0@ != old_pending[w2].0@);
                                        }
                                    }
                                } else {
                                    if w != old_pending.len() {
                                        assert(pending@[w] == old_pending[w]);
                                        assert(pending_map(old_pending).contains_key(n));
                                    }
                                }
                            }
                            assert forall|n: Seq<char>| #[trigger] prev.1.insert(var.name@, var.value@).contains_key(n)
                                implies pending_map(pending@).contains_key(n) by {
                                if n == var.name@ {
                                    assert(pending@[old_pending.len() as int].0@ == n);
                                } else {
                                    assert(pending_map(old_pending).contains_key(n));
                                    let w = choose|w: int| 0 <= w < old_pending.len() && (#[trigger] old_pending[w]).0@ == n;
                                    assert(pending@[w] == old_pending[w]);
                                }
                            }
                            assert(pending_map(pending@) =~= prev.1.insert(var.name@, var.value@));
                        }
                    },
                }
            }
        }
        i += 1;
    }
    if transitions.len() > cap {
        transitions.truncate(cap);
    }
    transitions
}

/// Edges between consecutive events of the same thread, ending at event
/// `n - 1` or earlier: for each event, from the thread's previous event.
pub open spec fn thread_edges_spec(events: Seq<TraceEvent>, n: int) -> (Seq<(u64, u64)>, Map<u64, u64>)
    decreases n,
{
    if n <= 0 {
        (Seq::empty(), Map::empty())
    } else {
        let (es, last) = thread_edges_spec(events, n - 1);
        let e = events[n - 1];
        (
            if last.contains_key(e.thread_id) {
                es.push((last[e.thread_id], e.event_id))
            } else {
                es
            },
            last.insert(e.thread_id, e.event_id),
        )
    }
}

/// The causal edges of a trace: each event is reached from the previous
/// event of its thread, in trace order.
pub fn thread_edges(events: &Vec<TraceEvent>) -> (r: Vec<(u64, u64)>)
    ensures
        r@ == thread_edges_spec(events@, events@.len() as int).0,
{
    let mut last: Vec<(u64, u64)> = Vec::new();
    let mut edges: Vec<(u64, u64)> = Vec::new();
    let mut i: usize = 0;
    while i < events.len()
        invariant
            0 <= i <= events@.len(),
            forall|a: int, b: int| 0 <= a < b < last@.len() ==> last@[a].0 != last@[b].0,
            forall|t: u64| #[trigger] thread_edges_spec(events@, i as int).1.contains_key(t) <==> exists|k: int|
                0 <= k < last@.len() && last@[k].0 == t,
            forall|k: int| 0 <= k < last@.len() ==> thread_edges_spec(events@, i as int).1[(#[trigger] last@[k]).0]
                == last@[k].1,
            edges@ == thread_edges_spec(events@, i as int).0,
        decreases events@.len() - i,
    {
        let t = events[i].thread_id;
        let id = events[i].event_id;
        let ghost prev = thread_edges_spec(events@, i as int);
        let ghost old_last = last@;
        let mut k: usize = 0;
        while k < last.len() && last[k].0 != t
            invariant
                0 <= k <= last@.len(),
                forall|q: int| 0 <= q < k ==> last@[q].0 != t,
            decreases last@.len() - k,
        {
            k += 1;
        }
        if k < last.len() {
            edges.push((last[k].1, id));
            last.set(k, (t, id));
            proof {
                assert(prev.1.contains_key(t));
                assert forall|a: int, b: int| 0 <= a < b < last@.len() implies last@[a].0 != last@[b].0 by {
                    assert(old_last[a].0 != old_last[b].0);
                }
                assert forall|tt: u64| #[trigger] prev.1.insert(t, id).contains_key(tt) <==> exists|q: int|
                    0 <= q < last@.len() && last@[q].0 == tt by {
                    if prev.1.contains_key(tt) {
                        let q = choose|q: int| 0 <= q < old_last.len() && old_last[q].0 == tt;
                        assert(last@[q].0 == tt);
                    }
                    if exists|q: int| 0 <= q < last@.len() && last@[q].0 == tt {
                        let q = choose|q: int| 0 <= q < last@.len() && last@[q].0 == tt;
                        if q != k {
                            assert(old_last[q].0 == tt);
                        }
                    }
                }
                assert forall|q: int| 0 <= q < last@.len() implies prev.1.insert(t, id)[(#[trigger] last@[q]).0]
                    == last@[q].1 by {
                    if q != k {
                        assert(last@[q] == old_last[q]);
                        assert(old_last[q].0 != t);
                    }
                }
            }
        } else {
            last.push((t, id));
            proof {
                assert(!prev.1.contains_key(t));
                assert forall|a: int, b: int| 0 <= a < b < last@.len() implies last@[a].0 != last@[b].0 by {
                    if b < old_last.len() {
                        assert(old_last[a].0 != old_last[b].0);
                    }
                }
                assert forall|tt: u64| #[trigger] prev.1.insert(t, id).contains_key(tt) <==> exists|q: int|
                    0 <= q < last@.len() && last@[q].0 == tt by {
                    if prev.1.contains_key(tt) {
                        let q = choose|q: int| 0 <= q < old_last.len() && old_last[q].0 == tt;
                        assert(last@[q].0 == tt);
                    }
                    if tt == t {
                        assert(last@[old_last.len() as int].0 == tt);
                    }
                    if exists|q: int| 0 <= q < last@.len() && last@[q].0 == tt {
                        let q = choose|q: int| 0 <= q < last@.len() && last@[q].0 == tt;
                        if q < old_last.len() {
                            assert(old_last[q].0 == tt);
                        }
                    }
                }
                assert forall|q: int| 0 <= q < last@.len() implies prev.1.insert(t, id)[(#[trigger] last@[q]).0]
                    == last@[q].1 by {
                    if q < old_last.len() {
                        assert(last@[q] == old_last[q]);
                        assert(old_last[q].0 != t);
                    }
                }
            }
        }
        i += 1;
    }
    edges
}

impl ChronosAnalysisService {
    /// The mutation lens of a session's events: the transitions of
    /// `mutation_transitions`, counted.
    pub fn mutation_lens_of(input: MutationLensInput, events: &Vec<TraceEvent>) -> (r: MutationLensOutput)
        ensures
            r.session_id@ == input.session_id@,
            r.count == r.transitions@.len(),
            r.transitions@.len() == lens_transitions(events@, input.target, input.limit).len(),
            forall|k: int| 0 <= k < r.transitions@.len() ==> transition_view(#[trigger] r.transitions@[k])
                == lens_transitions(events@, input.target, input.limit)[k],
            forall|k: int| 0 <= k < r.transitions@.len() ==> (#[trigger] r.transitions@[k]).before is Some,
    {
        let transitions = mutation_transitions(events, &input.target, input.limit);
        MutationLensOutput { session_id: input.session_id, count: transitions.len(), transitions }
    }

    /// A causal slice needs its sink among the session's events.
    pub fn check_sink(input: &CausalSliceInput, events: &Vec<TraceEvent>) -> (r: Result<(), ServiceError>)
        ensures
            r is Ok <==> exists|k: int| 0 <= k < events@.len() && (#[trigger] events@[k]).event_id == input.sink_event_id,
            r is Err ==> r == Err::<(), ServiceError>(ServiceError::EventNotFound { event_id: input.sink_event_id }),
    {
        let mut k: usize = 0;
        while k < events.len()
            invariant
                0 <= k <= events@.len(),
                forall|q: int| 0 <= q < k ==> (#[trigger] events@[q]).event_id != input.sink_event_id,
            decreases events@.len() - k,
        {
            if events[k].event_id == input.sink_event_id {
                return Ok(());
            }
            k += 1;
        }
        Err(ServiceError::EventNotFound { event_id: input.sink_event_id })
    }
}

} // verus!
