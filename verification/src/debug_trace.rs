//! Call graph of a session: per-thread stack simulation over the function
//! entry and exit events, with call counts, deduplicated caller and callee
//! lists in string order, one edge per caller/callee pair, and the deepest
//! call stack reached during the trace.

use vstd::prelude::*;
use crate::trace::{EventType, TraceEvent};
use vstd::utf8::encode_utf8;

verus! {

/// Byte-wise lexicographic order, as `str`'s `Ord` compares.
pub open spec fn lex_lt(a: Seq<u8>, b: Seq<u8>) -> bool
    decreases a.len(),
{
    if a.len() == 0 {
        b.len() > 0
    } else if b.len() == 0 {
        false
    } else if a[0] < b[0] {
        true
    } else if a[0] > b[0] {
        false
    } else {
        lex_lt(a.drop_first(), b.drop_first())
    }
}

proof fn lemma_lex_irreflexive(a: Seq<u8>)
    ensures
        !lex_lt(a, a),
    decreases a.len(),
{
    if a.len() > 0 {
        lemma_lex_irreflexive(a.drop_first());
    }
}

proof fn lemma_lex_transitive(a: Seq<u8>, b: Seq<u8>, c: Seq<u8>)
    requires
        lex_lt(a, b),
        lex_lt(b, c),
    ensures
        lex_lt(a, c),
    decreases a.len(),
{
    if a.len() > 0 && b.len() > 0 && c.len() > 0 && a[0] == b[0] && b[0] == c[0] {
        lemma_lex_transitive(a.drop_first(), b.drop_first(), c.drop_first());
    }
}

proof fn lemma_lex_total(a: Seq<u8>, b: Seq<u8>)
    ensures
        a == b || lex_lt(a, b) || lex_lt(b, a),
    decreases a.len(),
{
    if a.len() > 0 && b.len() > 0 && a[0] == b[0] {
        lemma_lex_total(a.drop_first(), b.drop_first());
        if a.drop_first() == b.drop_first() {
            assert forall|i: int| 0 <= i < a.len() implies a[i] == b[i] by {
                if i > 0 {
                    assert(a[i] == a.drop_first()[i - 1]);
                    assert(b[i] == b.drop_first()[i - 1]);
                }
            }
            assert(a =~= b);
        }
    } else if a.len() == 0 && b.len() == 0 {
        assert(a =~= b);
    }
}

/// Name order: the byte order of the UTF-8 encodings.
pub open spec fn name_lt(a: Seq<char>, b: Seq<char>) -> bool {
    lex_lt(encode_utf8(a), encode_utf8(b))
}

proof fn lemma_name_total(a: Seq<char>, b: Seq<char>)
    ensures
        a == b || name_lt(a, b) || name_lt(b, a),
{
    lemma_lex_total(encode_utf8(a), encode_utf8(b));
    if encode_utf8(a) == encode_utf8(b) {
        vstd::utf8::encode_utf8_decode_utf8(a);
        vstd::utf8::encode_utf8_decode_utf8(b);
    }
}

/// Views of a list of strings.
pub open spec fn views(v: Seq<String>) -> Seq<Seq<char>> {
    v.map_values(|s: String| s@)
}

/// Strictly ascending in name order (hence without duplicates).
pub open spec fn names_sorted(v: Seq<Seq<char>>) -> bool {
    forall|a: int, b: int| 0 <= a < b < v.len() ==> name_lt(v[a], v[b])
}

/// `a` comes before `b` in byte order.
fn str_less(a: &str, b: &str) -> (r: bool)
    ensures
        r == name_lt(a@, b@),
{
    let x = a.as_bytes();
    let y = b.as_bytes();
    let mut i: usize = 0;
    proof {
        assert(x@.skip(0) =~= x@);
        assert(y@.skip(0) =~= y@);
    }
    while i < x.len() && i < y.len() && x[i] == y[i]
        invariant
            0 <= i <= x@.len(),
            i <= y@.len(),
            lex_lt(x@, y@) == lex_lt(x@.skip(i as int), y@.skip(i as int)),
        decreases x@.len() - i,
    {
        proof {
            let xs = x@.skip(i as int);
            let ys = y@.skip(i as int);
            assert(xs.drop_first() =~= x@.skip(i + 1));
            assert(ys.drop_first() =~= y@.skip(i + 1));
        }
        i += 1;
    }
    proof {
        let xs = x@.skip(i as int);
        let ys = y@.skip(i as int);
        if i < x@.len() && i < y@.len() {
            assert(xs[0] == x@[i as int] && ys[0] == y@[i as int]);
        }
    }
    if i == x.len() {
        i < y.len()
    } else if i == y.len() {
        false
    } else {
        x[i] < y[i]
    }
}

/// Insert `s` into the name-ordered list `v` unless an equal name is
/// already there.
fn insert_name(v: &mut Vec<String>, s: String)
    requires
        names_sorted(views(old(v)@)),
    ensures
        names_sorted(views(final(v)@)),
        forall|x: Seq<char>| #[trigger] views(final(v)@).contains(x) <==> (views(old(v)@).contains(x) || x == s@),
{
    let ghost old_v = views(v@);
    let mut p: usize = 0;
    while p < v.len() && str_less(v[p].as_str(), s.as_str())
        invariant
            0 <= p <= v@.len(),
            views(v@) == old_v,
            names_sorted(old_v),
            forall|k: int| 0 <= k < p ==> name_lt(old_v[k], s@),
        decreases v@.len() - p,
    {
        proof {
            assert(old_v[p as int] == v@[p as int]@);
        }
        p += 1;
    }
    if p < v.len() && v[p] == s {
        proof {
            assert(old_v[p as int] == s@);
            assert forall|x: Seq<char>| #[trigger] views(v@).contains(x) <==> (old_v.contains(x) || x == s@) by {
                if x == s@ {
                    assert(old_v[p as int] == x);
                }
            }
        }
        return;
    }
    proof {
        if p < v@.len() {
            assert(old_v[p as int] == v@[p as int]@);
            assert(!name_lt(old_v[p as int], s@));
            assert(old_v[p as int] != s@);
            lemma_name_total(old_v[p as int], s@);
        }
    }
    let ghost ss = s@;
    v.insert(p, s);
    proof {
        let nv = views(v@);
        assert(nv =~= old_v.insert(p as int, ss));
        assert forall|a: int, b: int| 0 <= a < b < nv.len() implies name_lt(nv[a], nv[b]) by {
            if b < p {
            } else if b == p {
            } else if a < p {
                assert(nv[b] == old_v[b - 1]);
                assert(name_lt(old_v[a], ss));
                if b - 1 > p {
                    assert(name_lt(old_v[p as int], old_v[b - 1]));
                    lemma_lex_transitive(encode_utf8(ss), encode_utf8(old_v[p as int]), encode_utf8(old_v[b - 1]));
                }
                lemma_lex_transitive(encode_utf8(old_v[a]), encode_utf8(ss), encode_utf8(old_v[b - 1]));
            } else if a == p {
                assert(nv[b] == old_v[b - 1]);
                if b - 1 > p {
                    assert(name_lt(old_v[p as int], old_v[b - 1]));
                    lemma_lex_transitive(encode_utf8(ss), encode_utf8(old_v[p as int]), encode_utf8(old_v[b - 1]));
                }
            } else {
                assert(nv[a] == old_v[a - 1]);
                assert(nv[b] == old_v[b - 1]);
            }
        }
        assert forall|x: Seq<char>| #[trigger] nv.contains(x) <==> (old_v.contains(x) || x == ss) by {
            if nv.contains(x) {
                let k = choose|k: int| 0 <= k < nv.len() && nv[k] == x;
                if k < p {
                    assert(old_v[k] == x);
                } else if k > p {
                    assert(old_v[k - 1] == x);
                }
            }
            if old_v.contains(x) {
                let k = choose|k: int| 0 <= k < old_v.len() && old_v[k] == x;
                if k < p {
                    assert(nv[k] == x);
                } else {
                    assert(nv[k + 1] == x);
                }
            }
            if x == ss {
                assert(nv[p as int] == x);
            }
        }
    }
}

/// A function node of a call graph.
#[derive(Debug, Clone, PartialEq, Eq)]
pub struct CallGraphNode {
    pub function: String,
    /// Times the function was entered.
    pub call_count: u64,
    /// Functions that called it, deduplicated, in name order.
    pub callers: Vec<String>,
    /// Functions it called, deduplicated, in name order.
    pub callees: Vec<String>,
}

/// A caller-to-callee edge.
#[derive(Debug, Clone, PartialEq, Eq)]
pub struct CallGraphEdge {
    pub from: String,
    pub to: String,
}

/// Aggregate statistics of a call graph.
#[derive(Debug, Clone, Copy, PartialEq, Eq, Structural)]
pub struct CallGraphStats {
    pub node_count: usize,
    pub edge_count: usize,
    /// Maximum observed call-stack depth.
    pub max_observed_depth: u32,
}

/// A complete call graph.
#[derive(Debug, Clone, PartialEq, Eq)]
pub struct CallGraph {
    pub nodes: Vec<CallGraphNode>,
    pub edges: Vec<CallGraphEdge>,
    pub stats: CallGraphStats,
}

/// Stateless holder of the trace query operations.
pub struct DebugTraceService;

/// What the stack simulation knows after some events: the functions in
/// order of first entry, their entry counts, the caller/callee pairs, and
/// each thread's open stack.
pub struct CgModel {
    pub funcs: Seq<Seq<char>>,
    pub counts: Map<Seq<char>, nat>,
    pub rel: Set<(Seq<char>, Seq<char>)>,
    pub stacks: Map<u64, Seq<Seq<char>>>,
}

/// The function an event names; empty when it names none.
pub open spec fn fname(e: TraceEvent) -> Seq<char> {
    match e.location.function {
        Some(s) => s@,
        None => Seq::empty(),
    }
}

pub open spec fn stack_at(m: CgModel, t: u64) -> Seq<Seq<char>> {
    if m.stacks.contains_key(t) {
        m.stacks[t]
    } else {
        Seq::empty()
    }
}

pub open spec fn count_at(m: CgModel, f: Seq<char>) -> nat {
    if m.counts.contains_key(f) {
        m.counts[f]
    } else {
        0
    }
}

/// An entry of `f` on thread `t`: the call is counted; while the thread's
/// stack is shallower than `max_depth`, the pair (top of stack, `f`) is
/// recorded when the stack is not empty and `f` is pushed.
pub open spec fn cg_entry(m: CgModel, f: Seq<char>, t: u64, max_depth: nat) -> CgModel {
    let st = stack_at(m, t);
    let funcs = if m.counts.contains_key(f) {
        m.funcs
    } else {
        m.funcs.push(f)
    };
    let counts = m.counts.insert(f, count_at(m, f) + 1);
    if st.len() < max_depth {
        CgModel {
            funcs,
            counts,
            rel: if st.len() > 0 {
                m.rel.insert((st.last(), f))
            } else {
                m.rel
            },
            stacks: m.stacks.insert(t, st.push(f)),
        }
    } else {
        CgModel { funcs, counts, rel: m.rel, stacks: m.stacks.insert(t, st) }
    }
}

/// An exit on thread `t` pops its stack (an empty stack stays empty).
pub open spec fn cg_exit(m: CgModel, t: u64) -> CgModel {
    let st = stack_at(m, t);
    CgModel {
        stacks: m.stacks.insert(
            t,
            if st.len() > 0 {
                st.drop_last()
            } else {
                st
            },
        ),
        ..m
    }
}

/// One event of the simulation: events without a function name, and
/// events that are neither entries nor exits, change nothing.
pub open spec fn cg_step(m: CgModel, e: TraceEvent, max_depth: nat) -> CgModel {
    let f = fname(e);
    if f.len() == 0 {
        m
    } else if e.event_type == EventType::FunctionEntry {
        cg_entry(m, f, e.thread_id, max_depth)
    } else if e.event_type == EventType::FunctionExit {
        cg_exit(m, e.thread_id)
    } else {
        m
    }
}

/// The simulation after the first `n` events.
pub open spec fn cg_model(events: Seq<TraceEvent>, n: int, max_depth: nat) -> CgModel
    decreases n,
{
    if n <= 0 {
        CgModel { funcs: Seq::empty(), counts: Map::empty(), rel: Set::empty(), stacks: Map::empty() }
    } else {
        cg_step(cg_model(events, n - 1, max_depth), events[n - 1], max_depth)
    }
}

/// Executable state of the simulation: names in order of first entry,
/// with parallel counts and caller/callee lists, and per-thread stacks of
/// name indices.
struct CgState {
    names: Vec<String>,
    counts: Vec<u64>,
    callers: Vec<Vec<String>>,
    callees: Vec<Vec<String>>,
    threads: Vec<u64>,
    stacks: Vec<Vec<usize>>,
}

impl CgState {
    spec fn wf(&self, m: CgModel, i: nat) -> bool {
        &&& self.names@.len() == m.funcs.len()
        &&& self.counts@.len() == m.funcs.len()
        &&& self.callers@.len() == m.funcs.len()
        &&& self.callees@.len() == m.funcs.len()
        &&& forall|k: int| 0 <= k < m.funcs.len() ==> (#[trigger] self.names@[k])@ == m.funcs[k]
        &&& forall|a: int, b: int| 0 <= a < b < m.funcs.len() ==> m.funcs[a] != m.funcs[b]
        &&& forall|f: Seq<char>| #[trigger] m.counts.contains_key(f) <==> m.funcs.contains(f)
        &&& forall|k: int| 0 <= k < m.funcs.len() ==> #[trigger] self.counts@[k] == m.counts[m.funcs[k]]
            && self.counts@[k] <= i
        &&& forall|k: int| 0 <= k < m.funcs.len() ==> names_sorted(views(#[trigger] self.callers@[k]@))
        &&& forall|k: int, x: Seq<char>| 0 <= k < m.funcs.len() ==> (#[trigger] views(self.callers@[k]@).contains(x)
            <==> m.rel.contains((x, m.funcs[k])))
        &&& forall|k: int| 0 <= k < m.funcs.len() ==> names_sorted(views(#[trigger] self.callees@[k]@))
        &&& forall|k: int, x: Seq<char>| 0 <= k < m.funcs.len() ==> (#[trigger] views(self.callees@[k]@).contains(x)
            <==> m.rel.contains((m.funcs[k], x)))
        &&& forall|p: Seq<char>, c: Seq<char>| #[trigger] m.rel.contains((p, c)) ==> m.funcs.contains(p)
            && m.funcs.contains(c)
        &&& self.threads@.len() == self.stacks@.len()
        &&& forall|a: int, b: int| 0 <= a < b < self.threads@.len() ==> self.threads@[a] != self.threads@[b]
        &&& forall|t: u64| #[trigger] m.stacks.contains_key(t) <==> self.threads@.contains(t)
        &&& forall|j: int, q: int| 0 <= j < self.stacks@.len() && 0 <= q < self.stacks@[j]@.len()
            ==> #[trigger] self.stacks@[j]@[q] < m.funcs.len()
        &&& forall|j: int| 0 <= j < self.stacks@.len() ==> m.stacks[#[trigger] self.threads@[j]]
            == self.stacks@[j]@.map_values(|k: usize| m.funcs[k as int])
    }
}

impl CgState {
    fn find_name(&self, f: &String) -> (r: Option<usize>)
        ensures
            r matches Some(k) ==> k < self.names@.len() && self.names@[k as int]@ == f@,
            r is None ==> forall|k: int| 0 <= k < self.names@.len() ==> (#[trigger] self.names@[k])@ != f@,
    {
        let mut k: usize = 0;
        while k < self.names.len()
            invariant
                0 <= k <= self.names@.len(),
                forall|j: int| 0 <= j < k ==> (#[trigger] self.names@[j])@ != f@,
            decreases self.names@.len() - k,
        {
            if self.names[k] == *f {
                return Some(k);
            }
            k += 1;
        }
        None
    }

    fn find_thread(&self, t: u64) -> (r: Option<usize>)
        ensures
            r matches Some(j) ==> j < self.threads@.len() && self.threads@[j as int] == t,
            r is None ==> !self.threads@.contains(t),
    {
        let mut j: usize = 0;
        while j < self.threads.len()
            invariant
                0 <= j <= self.threads@.len(),
                forall|q: int| 0 <= q < j ==> self.threads@[q] != t,
            decreases self.threads@.len() - j,
        {
            if self.threads[j] == t {
                return Some(j);
            }
            j += 1;
        }
        None
    }

    /// Index of `t`'s stack, opening an empty one for a thread not seen yet.
    fn thread_slot(&mut self, t: u64, Ghost(m): Ghost<CgModel>, Ghost(i): Ghost<nat>) -> (j: usize)
        requires
            old(self).wf(m, i),
        ensures
            final(self).wf(CgModel { stacks: m.stacks.insert(t, stack_at(m, t)), ..m }, i),
            j < final(self).threads@.len(),
            final(self).threads@[j as int] == t,
            final(self).names@ == old(self).names@,
            final(self).counts@ == old(self).counts@,
            final(self).callers@ == old(self).callers@,
            final(self).callees@ == old(self).callees@,
            final(self).stacks@[j as int]@.map_values(|k: usize| m.funcs[k as int]) == stack_at(m, t),
    {
        match self.find_thread(t) {
            Some(j) => {
                proof {
                    assert(self.threads@.contains(t));
                    assert(m.stacks.contains_key(t));
                    assert(m.stacks.insert(t, stack_at(m, t)) =~= m.stacks);
                }
                j
            },
            None => {
                let ghost old_threads = self.threads@;
                let ghost old_stacks = self.stacks@;
                self.threads.push(t);
                self.stacks.push(Vec::new());
                let j = self.threads.len() - 1;
                proof {
                    let m2 = CgModel { stacks: m.stacks.insert(t, stack_at(m, t)), ..m };
                    assert(!m.stacks.contains_key(t));
                    assert(stack_at(m, t) == Seq::<Seq<char>>::empty());
                    assert(self.stacks@[j as int]@.map_values(|k: usize| m.funcs[k as int]) =~= Seq::<Seq<char>>::empty());
                    assert forall|a: int, b: int| 0 <= a < b < self.threads@.len() implies self.threads@[a]
                        != self.threads@[b] by {
                        if b == j {
                            assert(old_threads[a] == self.threads@[a]);
                        }
                    }
                    assert forall|x: u64| #[trigger] m2.stacks.contains_key(x) <==> self.threads@.contains(x) by {
                        if self.threads@.contains(x) && x != t {
                            let q = choose|q: int| 0 <= q < self.threads@.len() && self.threads@[q] == x;
                            assert(old_threads[q] == x);
                        }
                        if m.stacks.contains_key(x) {
                            let q = choose|q: int| 0 <= q < old_threads.len() && old_threads[q] == x;
                            assert(self.threads@[q] == x);
                        }
                        if x == t {
                            assert(self.threads@[j as int] == x);
                        }
                    }
                    assert forall|jj: int, q: int| 0 <= jj < self.stacks@.len() && 0 <= q < self.stacks@[jj]@.len()
                        implies #[trigger] self.stacks@[jj]@[q] < m2.funcs.len() by {
                        assert(jj < old_stacks.len());
                        assert(self.stacks@[jj] == old_stacks[jj]);
                    }
                    assert forall|jj: int| 0 <= jj < self.stacks@.len() implies m2.stacks[#[trigger] self.threads@[jj]]
                        == self.stacks@[jj]@.map_values(|k: usize| m2.funcs[k as int]) by {
                        if jj < old_stacks.len() {
                            assert(self.threads@[jj] == old_threads[jj]);
                            assert(self.stacks@[jj] == old_stacks[jj]);
                            assert(old_threads[jj] != t);
                        }
                    }
                }
                j
            },
        }
    }
}

/// The model with `f` registered as a function (with its count so far).
pub open spec fn with_name(m: CgModel, f: Seq<char>) -> CgModel {
    CgModel {
        funcs: if m.counts.contains_key(f) {
            m.funcs
        } else {
            m.funcs.push(f)
        },
        counts: m.counts.insert(f, count_at(m, f)),
        ..m
    }
}

impl CgState {
    /// Index of the function `fs`, registering it (no calls, no callers,
    /// no callees) when it is new.
    fn name_slot(&mut self, fs: &String, Ghost(m): Ghost<CgModel>, Ghost(i): Ghost<nat>) -> (k: usize)
        requires
            old(self).wf(m, i),
        ensures
            final(self).wf(with_name(m, fs@), i),
            k < final(self).names@.len(),
            with_name(m, fs@).funcs[k as int] == fs@,
            final(self).threads@ == old(self).threads@,
            final(self).stacks@ == old(self).stacks@,
            forall|q: int| 0 <= q < m.funcs.len() ==> with_name(m, fs@).funcs[q] == m.funcs[q],
            with_name(m, fs@).funcs.len() >= m.funcs.len(),
    {
        let ghost f = fs@;
        let ghost m2 = with_name(m, f);
        match self.find_name(fs) {
            Some(k) => {
                proof {
                    assert(m.funcs[k as int] == f);
                    assert(m.funcs.contains(f));
                    assert(m.counts.contains_key(f));
                    assert(m2.counts =~= m.counts);
                    assert(m2.funcs == m.funcs);
                }
                k
            },
            None => {
                let ghost old_names = self.names@;
                let ghost old_counts = self.counts@;
                let ghost old_callers = self.callers@;
                let ghost old_callees = self.callees@;
                proof {
                    assert forall|q: int| 0 <= q < m.funcs.len() implies m.funcs[q] != f by {
                        assert(old_names[q]@ == m.funcs[q]);
                    }
                    assert(!m.funcs.contains(f));
                    assert(!m.counts.contains_key(f));
                }
                self.names.push(fs.clone());
                self.counts.push(0);
                self.callers.push(Vec::new());
                self.callees.push(Vec::new());
                let k = self.names.len() - 1;
                proof {
                    assert(m2.funcs == m.funcs.push(f));
                    assert forall|q: int| 0 <= q < m2.funcs.len() implies (#[trigger] self.names@[q])@ == m2.funcs[q] by {
                        if q < m.funcs.len() {
                            assert(self.names@[q] == old_names[q]);
                        }
                    }
                    assert forall|f2: Seq<char>| #[trigger] m2.counts.contains_key(f2) <==> m2.funcs.contains(f2) by {
                        if m2.funcs.contains(f2) && f2 != f {
                            let q = choose|q: int| 0 <= q < m2.funcs.len() && m2.funcs[q] == f2;
                            assert(m.funcs[q] == f2);
                        }
                        if m.funcs.contains(f2) {
                            let q = choose|q: int| 0 <= q < m.funcs.len() && m.funcs[q] == f2;
                            assert(m2.funcs[q] == f2);
                        }
                        if f2 == f {
                            assert(m2.funcs[m.funcs.len() as int] == f);
                        }
                    }
                    assert forall|q: int| 0 <= q < m2.funcs.len() implies #[trigger] self.counts@[q] == m2.counts[m2.funcs[q]]
                        && self.counts@[q] <= i by {
                        if q < m.funcs.len() {
                            assert(self.counts@[q] == old_counts[q]);
                            assert(m.funcs[q] != f);
                        }
                    }
                    assert(views(self.callers@[k as int]@) =~= Seq::<Seq<char>>::empty());
                    assert(views(self.callees@[k as int]@) =~= Seq::<Seq<char>>::empty());
                    assert forall|q: int| 0 <= q < m2.funcs.len() implies names_sorted(views(#[trigger] self.callers@[q]@)) by {
                        if q < m.funcs.len() {
                            assert(self.callers@[q] == old_callers[q]);
                        }
                    }
                    assert forall|q: int| 0 <= q < m2.funcs.len() implies names_sorted(views(#[trigger] self.callees@[q]@)) by {
                        if q < m.funcs.len() {
                            assert(self.callees@[q] == old_callees[q]);
                        }
                    }
                    assert forall|q: int, x: Seq<char>| 0 <= q < m2.funcs.len() implies (#[trigger] views(
                        self.callers@[q]@,
                    ).contains(x) <==> m2.rel.contains((x, m2.funcs[q]))) by {
                        if q < m.funcs.len() {
                            assert(self.callers@[q] == old_callers[q]);
                        } else {
                            assert(!m.funcs.contains(f));
                        }
                    }
                    assert forall|q: int, x: Seq<char>| 0 <= q < m2.funcs.len() implies (#[trigger] views(
                        self.callees@[q]@,
                    ).contains(x) <==> m2.rel.contains((m2.funcs[q], x))) by {
                        if q < m.funcs.len() {
                            assert(self.callees@[q] == old_callees[q]);
                        } else {
                            assert(!m.funcs.contains(f));
                        }
                    }
                    assert forall|p: Seq<char>, c: Seq<char>| #[trigger] m2.rel.contains((p, c)) implies m2.funcs.contains(p)
                        && m2.funcs.contains(c) by {
                        let qp = choose|q: int| 0 <= q < m.funcs.len() && m.funcs[q] == p;
                        let qc = choose|q: int| 0 <= q < m.funcs.len() && m.funcs[q] == c;
                        assert(m2.funcs[qp] == p);
                        assert(m2.funcs[qc] == c);
                    }
                    assert forall|a: int, b: int| 0 <= a < b < m2.funcs.len() implies m2.funcs[a] != m2.funcs[b] by {
                        if b == m.funcs.len() {
                            assert(m.funcs[a] != f);
                        }
                    }
                    assert forall|j: int| 0 <= j < self.stacks@.len() implies m2.stacks[#[trigger] self.threads@[j]]
                        == self.stacks@[j]@.map_values(|k: usize| m2.funcs[k as int]) by {
                        assert(self.stacks@[j]@.map_values(|k: usize| m2.funcs[k as int]) =~= self.stacks@[j]@.map_values(
                            |k: usize| m.funcs[k as int],
                        ));
                    }
                }
                k
            },
        }
    }
}

impl CgState {
    /// Count one more call of the function at `k`.
    fn bump_count(&mut self, k: usize, Ghost(m): Ghost<CgModel>, Ghost(i): Ghost<nat>)
        requires
            old(self).wf(m, i),
            k < m.funcs.len(),
            i < u64::MAX,
        ensures
            final(self).wf(CgModel { counts: m.counts.insert(m.funcs[k as int], m.counts[m.funcs[k as int]] + 1), ..m }, i + 1),
            final(self).names@ == old(self).names@,
            final(self).threads@ == old(self).threads@,
            final(self).stacks@ == old(self).stacks@,
            final(self).callers@ == old(self).callers@,
            final(self).callees@ == old(self).callees@,
    {
        let ghost old_counts = self.counts@;
        let c = self.counts[k];
        self.counts.set(k, c + 1);
        proof {
            let f = m.funcs[k as int];
            let m2 = CgModel { counts: m.counts.insert(f, m.counts[f] + 1), ..m };
            assert forall|f2: Seq<char>| #[trigger] m2.counts.contains_key(f2) <==> m2.funcs.contains(f2) by {
                if f2 == f {
                    assert(m.funcs.contains(f));
                    assert(m.counts.contains_key(f));
                }
            }
            assert forall|q: int| 0 <= q < m2.funcs.len() implies #[trigger] self.counts@[q] == m2.counts[m2.funcs[q]]
                && self.counts@[q] <= i + 1 by {
                if q != k {
                    assert(self.counts@[q] == old_counts[q]);
                    assert(m.funcs[q] != f);
                }
            }
        }
    }

    /// Record the pair (function at `p`, function at `c`).
    fn add_pair(&mut self, p: usize, c: usize, Ghost(m): Ghost<CgModel>, Ghost(i): Ghost<nat>)
        requires
            old(self).wf(m, i),
            p < m.funcs.len(),
            c < m.funcs.len(),
        ensures
            final(self).wf(CgModel { rel: m.rel.insert((m.funcs[p as int], m.funcs[c as int])), ..m }, i),
            final(self).names@ == old(self).names@,
            final(self).counts@ == old(self).counts@,
            final(self).threads@ == old(self).threads@,
            final(self).stacks@ == old(self).stacks@,
    {
        let ghost pf = m.funcs[p as int];
        let ghost cf = m.funcs[c as int];
        let ghost m2 = CgModel { rel: m.rel.insert((pf, cf)), ..m };
        let ghost old_callers = self.callers@;
        let ghost old_callees = self.callees@;
        let callee_name = self.names[c].clone();
        let mut lst = self.callees.remove(p);
        insert_name(&mut lst, callee_name);
        self.callees.insert(p, lst);
        let caller_name = self.names[p].clone();
        let mut lst2 = self.callers.remove(c);
        insert_name(&mut lst2, caller_name);
        self.callers.insert(c, lst2);
        proof {
            assert(self.names@[p as int]@ == pf);
            assert(self.names@[c as int]@ == cf);
            assert forall|q: int| 0 <= q < m2.funcs.len() implies names_sorted(views(#[trigger] self.callers@[q]@)) by {
                if q != c {
                    assert(self.callers@[q] == old_callers[q]);
                }
            }
            assert forall|q: int| 0 <= q < m2.funcs.len() implies names_sorted(views(#[trigger] self.callees@[q]@)) by {
                if q != p {
                    assert(self.callees@[q] == old_callees[q]);
                }
            }
            assert forall|q: int, x: Seq<char>| 0 <= q < m2.funcs.len() implies (#[trigger] views(
                self.callers@[q]@,
            ).contains(x) <==> m2.rel.contains((x, m2.funcs[q]))) by {
                if q != c {
                    assert(self.callers@[q] == old_callers[q]);
                    assert(m.funcs[q] != cf);
                } else {
                    assert(views(old_callers[q]@).contains(x) <==> m.rel.contains((x, m.funcs[q])));
                }
            }
            assert forall|q: int, x: Seq<char>| 0 <= q < m2.funcs.len() implies (#[trigger] views(
                self.callees@[q]@,
            ).contains(x) <==> m2.rel.contains((m2.funcs[q], x))) by {
                if q != p {
                    assert(self.callees@[q] == old_callees[q]);
                    assert(m.funcs[q] != pf);
                } else {
                    assert(views(old_callees[q]@).contains(x) <==> m.rel.contains((m.funcs[q], x)));
                }
            }
            assert forall|a: Seq<char>, b: Seq<char>| #[trigger] m2.rel.contains((a, b)) implies m2.funcs.contains(a)
                && m2.funcs.contains(b) by {
                if (a, b) == (pf, cf) {
                    assert(m.funcs[p as int] == a);
                    assert(m.funcs[c as int] == b);
                } else {
                    assert(m.rel.contains((a, b)));
                }
            }
        }
    }

    /// Push the function at `k` on the stack at slot `j`.
    fn push_frame(&mut self, j: usize, k: usize, Ghost(m): Ghost<CgModel>, Ghost(i): Ghost<nat>)
        requires
            old(self).wf(m, i),
            j < old(self).threads@.len(),
            k < m.funcs.len(),
        ensures
            final(self).wf(
                CgModel {
                    stacks: m.stacks.insert(
                        old(self).threads@[j as int],
                        m.stacks[old(self).threads@[j as int]].push(m.funcs[k as int]),
                    ),
                    ..m
                },
                i,
            ),
            final(self).names@ == old(self).names@,
            final(self).counts@ == old(self).counts@,
            final(self).threads@ == old(self).threads@,
            final(self).callers@ == old(self).callers@,
            final(self).callees@ == old(self).callees@,
    {
        let ghost t = self.threads@[j as int];
        let ghost old_stacks = self.stacks@;
        let mut stk = self.stacks.remove(j);
        stk.push(k);
        self.stacks.insert(j, stk);
        proof {
            let m2 = CgModel { stacks: m.stacks.insert(t, m.stacks[t].push(m.funcs[k as int])), ..m };
            assert(self.threads@.contains(t));
            assert forall|x: u64| #[trigger] m2.stacks.contains_key(x) <==> self.threads@.contains(x) by {}
            assert forall|jj: int, q: int| 0 <= jj < self.stacks@.len() && 0 <= q < self.stacks@[jj]@.len() implies #[trigger] self.stacks@[jj]@[q]
                < m2.funcs.len() by {
                if jj != j {
                    assert(self.stacks@[jj] == old_stacks[jj]);
                } else if q < old_stacks[jj]@.len() {
                    assert(self.stacks@[jj]@[q] == old_stacks[jj]@[q]);
                }
            }
            assert forall|jj: int| 0 <= jj < self.stacks@.len() implies m2.stacks[#[trigger] self.threads@[jj]]
                == self.stacks@[jj]@.map_values(|kk: usize| m2.funcs[kk as int]) by {
                if jj != j {
                    assert(self.stacks@[jj] == old_stacks[jj]);
                    assert(self.threads@[jj] != t);
                } else {
                    assert(self.stacks@[jj]@ == old_stacks[jj]@.push(k));
                    assert(self.stacks@[jj]@.map_values(|kk: usize| m2.funcs[kk as int]) =~= old_stacks[jj]@.map_values(
                        |kk: usize| m.funcs[kk as int],
                    ).push(m.funcs[k as int]));
                }
            }
        }
    }

    /// Pop the stack at slot `j` when it is not empty.
    fn pop_frame(&mut self, j: usize, Ghost(m): Ghost<CgModel>, Ghost(i): Ghost<nat>)
        requires
            old(self).wf(m, i),
            j < old(self).threads@.len(),
        ensures
            final(self).wf(
                CgModel {
                    stacks: m.stacks.insert(
                        old(self).threads@[j as int],
                        if m.stacks[old(self).threads@[j as int]].len() > 0 {
                            m.stacks[old(self).threads@[j as int]].drop_last()
                        } else {
                            m.stacks[old(self).threads@[j as int]]
                        },
                    ),
                    ..m
                },
                i,
            ),
    {
        let ghost t = self.threads@[j as int];
        let ghost old_stacks = self.stacks@;
        let mut stk = self.stacks.remove(j);
        let ghost before = stk@;
        if stk.len() > 0 {
            stk.pop();
        }
        self.stacks.insert(j, stk);
        proof {
            let st = m.stacks[t];
            let m2 = CgModel { stacks: m.stacks.insert(t, if st.len() > 0 { st.drop_last() } else { st }), ..m };
            assert(self.threads@.contains(t));
            assert(st == before.map_values(|kk: usize| m.funcs[kk as int]));
            assert forall|x: u64| #[trigger] m2.stacks.contains_key(x) <==> self.threads@.contains(x) by {}
            assert forall|jj: int, q: int| 0 <= jj < self.stacks@.len() && 0 <= q < self.stacks@[jj]@.len() implies #[trigger] self.stacks@[jj]@[q]
                < m2.funcs.len() by {
                if jj != j {
                    assert(self.stacks@[jj] == old_stacks[jj]);
                } else {
                    assert(self.stacks@[jj]@[q] == old_stacks[jj]@[q]);
                }
            }
            assert forall|jj: int| 0 <= jj < self.stacks@.len() implies m2.stacks[#[trigger] self.threads@[jj]]
                == self.stacks@[jj]@.map_values(|kk: usize| m2.funcs[kk as int]) by {
                if jj != j {
                    assert(self.stacks@[jj] == old_stacks[jj]);
                    assert(self.threads@[jj] != t);
                } else {
                    if before.len() > 0 {
                        assert(self.stacks@[jj]@ == before.drop_last());
                        assert(self.stacks@[jj]@.map_values(|kk: usize| m2.funcs[kk as int]) =~= st.drop_last());
                    } else {
                        assert(self.stacks@[jj]@ == before);
                    }
                }
            }
        }
    }
}

impl CgState {
    proof fn lemma_wf_later(&self, m: CgModel, i: nat)
        requires
            self.wf(m, i),
        ensures
            self.wf(m, i + 1),
    {
    }

    /// Apply one event of the simulation.
    fn step(&mut self, e: &TraceEvent, max_depth: usize, Ghost(m): Ghost<CgModel>, Ghost(i): Ghost<nat>)
        requires
            old(self).wf(m, i),
            i < u64::MAX,
        ensures
            final(self).wf(cg_step(m, *e, max_depth as nat), i + 1),
    {
        let t = e.thread_id;
        let fs = match &e.location.function {
            Some(s) => s,
            None => {
                proof {
                    self.lemma_wf_later(m, i);
                }
                return;
            },
        };
        if fs.as_str().is_empty() {
            proof {
                self.lemma_wf_later(m, i);
            }
            return;
        }
        let ghost f = fs@;
        match e.event_type {
            EventType::FunctionEntry => {
                let fi = self.name_slot(fs, Ghost(m), Ghost(i));
                let ghost m1 = with_name(m, f);
                let sj = self.thread_slot(t, Ghost(m1), Ghost(i));
                let ghost m2 = CgModel { stacks: m1.stacks.insert(t, stack_at(m1, t)), ..m1 };
                proof {
                    assert(m2.funcs[fi as int] == f);
                }
                self.bump_count(fi, Ghost(m2), Ghost(i));
                let ghost m3 = CgModel { counts: m2.counts.insert(f, m2.counts[f] + 1), ..m2 };
                let ghost st = stack_at(m, t);
                proof {
                    assert(stack_at(m1, t) == st);
                    assert(m3.stacks[t] == st);
                    assert(m3.counts =~= m.counts.insert(f, count_at(m, f) + 1));
                }
                let depth = self.stacks[sj].len();
                if depth < max_depth {
                    let ghost m4 = if depth > 0 {
                        CgModel { rel: m3.rel.insert((st.last(), f)), ..m3 }
                    } else {
                        m3
                    };
                    if depth > 0 {
                        let pi = self.stacks[sj][depth - 1];
                        proof {
                            assert(self.stacks@[sj as int]@.map_values(|k: usize| m1.funcs[k as int]) == st);
                            assert(st.last() == m1.funcs[pi as int]);
                            assert(pi < m3.funcs.len());
                        }
                        self.add_pair(pi, fi, Ghost(m3), Ghost((i + 1) as nat));
                    }
                    proof {
                        assert(self.threads@[sj as int] == t);
                        assert(m4.stacks[t] == st);
                    }
                    self.push_frame(sj, fi, Ghost(m4), Ghost((i + 1) as nat));
                    proof {
                        let m5 = CgModel { stacks: m4.stacks.insert(t, st.push(f)), ..m4 };
                        let target = cg_entry(m, f, t, max_depth as nat);
                        assert(m5.counts =~= target.counts);
                        assert(m5.stacks =~= target.stacks);
                        assert(m5.rel =~= target.rel);
                        assert(m5.funcs == target.funcs);
                        assert(m5 == target);
                    }
                } else {
                    proof {
                        let target = cg_entry(m, f, t, max_depth as nat);
                        assert(m3.counts =~= target.counts);
                        assert(m3.stacks =~= target.stacks);
                        assert(m3.rel =~= target.rel);
                        assert(m3.funcs == target.funcs);
                        assert(m3 == target);
                    }
                }
            },
            EventType::FunctionExit => {
                let sj = self.thread_slot(t, Ghost(m), Ghost(i));
                let ghost m2 = CgModel { stacks: m.stacks.insert(t, stack_at(m, t)), ..m };
                self.pop_frame(sj, Ghost(m2), Ghost(i));
                proof {
                    let st = stack_at(m, t);
                    let m3 = CgModel {
                        stacks: m2.stacks.insert(t, if st.len() > 0 { st.drop_last() } else { st }),
                        ..m2
                    };
                    assert(m3.stacks =~= cg_exit(m, t).stacks);
                    assert(m3 == cg_exit(m, t));
                    self.lemma_wf_later(m3, i);
                }
            },
            _ => {
                proof {
                    self.lemma_wf_later(m, i);
                }
            },
        }
    }
}

/// The edges of a node list: for each node in order, one edge to each of
/// its callees in order.
pub open spec fn edge_views(nodes: Seq<CallGraphNode>) -> Seq<(Seq<char>, Seq<char>)>
    decreases nodes.len(),
{
    if nodes.len() == 0 {
        Seq::empty()
    } else {
        let last = nodes.last();
        edge_views(nodes.drop_last()) + views(last.callees@).map_values(|c: Seq<char>| (last.function@, c))
    }
}

/// The deepest any thread's stack has been over the first `n` events of
/// the simulation: only the stack of an event's own thread changes at that
/// event, so it is enough to look at that stack after each event.
pub open spec fn deepest(events: Seq<TraceEvent>, n: int, max_depth: nat) -> nat
    decreases n,
{
    if n <= 0 {
        0
    } else {
        let prev = deepest(events, n - 1, max_depth);
        let d = stack_at(cg_model(events, n, max_depth), events[n - 1].thread_id).len();
        if d > prev {
            d
        } else {
            prev
        }
    }
}

/// `r` is the maximum stack depth reached during the first `n` events: no
/// thread's stack is ever deeper after any prefix of them, and unless it is
/// zero some thread's stack reaches it after some prefix.
pub open spec fn max_depth_reached(events: Seq<TraceEvent>, n: int, max_depth: nat, r: nat) -> bool {
    &&& forall|k: int, t: u64| 0 <= k <= n ==> #[trigger] stack_at(cg_model(events, k, max_depth), t).len() <= r
    &&& (r == 0 || exists|k: int, t: u64| 0 <= k <= n && #[trigger] stack_at(cg_model(events, k, max_depth), t).len() == r)
}

proof fn lemma_deepest(events: Seq<TraceEvent>, n: int, max_depth: nat)
    requires
        0 <= n <= events.len(),
    ensures
        max_depth_reached(events, n, max_depth, deepest(events, n, max_depth)),
    decreases n,
{
    if n > 0 {
        lemma_deepest(events, n - 1, max_depth);
        let prev = deepest(events, n - 1, max_depth);
        let r = deepest(events, n, max_depth);
        let e = events[n - 1];
        let m0 = cg_model(events, n - 1, max_depth);
        let m1 = cg_model(events, n, max_depth);
        assert(m1 == cg_step(m0, e, max_depth));
        assert forall|t: u64| t != e.thread_id implies #[trigger] stack_at(m1, t) == stack_at(m0, t) by {}
        assert forall|k: int, t: u64| 0 <= k <= n implies #[trigger] stack_at(cg_model(events, k, max_depth), t).len() <= r by {
            if k < n {
                assert(stack_at(cg_model(events, k, max_depth), t).len() <= prev);
            } else if t != e.thread_id {
                assert(stack_at(m1, t) == stack_at(m0, t));
                assert(stack_at(cg_model(events, n - 1, max_depth), t).len() <= prev);
            }
        }
        if r != 0 {
            if r == prev {
                let (k, t) = choose|k: int, t: u64| 0 <= k <= n - 1 && #[trigger] stack_at(cg_model(events, k, max_depth), t).len() == prev;
                assert(0 <= k <= n && stack_at(cg_model(events, k, max_depth), t).len() == r);
            } else {
                assert(stack_at(cg_model(events, n, max_depth), e.thread_id).len() == r);
            }
        }
    }
}

fn copy_names(v: &Vec<String>) -> (r: Vec<String>)
    ensures
        views(r@) == views(v@),
{
    let mut r: Vec<String> = Vec::new();
    let mut i: usize = 0;
    while i < v.len()
        invariant
            0 <= i <= v@.len(),
            r@.len() == i,
            views(r@) == views(v@).subrange(0, i as int),
        decreases v@.len() - i,
    {
        let ghost before = r@;
        let c = v[i].clone();
        assert(c@ == v@[i as int]@);
        r.push(c);
        proof {
            assert(r@ == before.push(c));
            assert forall|q: int| 0 <= q < i + 1 implies views(r@)[q] == views(v@).subrange(0, i + 1)[q] by {
                if q < i {
                    assert(r@[q] == before[q]);
                    assert(views(before)[q] == views(v@).subrange(0, i as int)[q]);
                }
            }
            assert(views(r@) =~= views(v@).subrange(0, i + 1));
        }
        i += 1;
    }
    proof {
        assert(views(v@).subrange(0, v@.len() as int) =~= views(v@));
    }
    r
}

/// Build the call graph of `events` (in trace order) by simulating a
/// call stack per thread: see `cg_step`. Nodes come in order of first
/// entry; each lists its call count and its callers and callees,
/// deduplicated in name order; edges follow the nodes and their callees;
/// the statistics count nodes and edges and give the maximum call-stack
/// depth reached during the simulation (as `u32`).
pub fn build_call_graph(events: &Vec<TraceEvent>, max_depth: usize) -> (g: CallGraph)
    requires
        events@.len() < u64::MAX,
    ensures
        ({
            let m = cg_model(events@, events@.len() as int, max_depth as nat);
            &&& g.nodes@.len() == m.funcs.len()
            &&& forall|a: int, b: int| 0 <= a < b < m.funcs.len() ==> m.funcs[a] != m.funcs[b]
            &&& forall|f: Seq<char>| #[trigger] m.counts.contains_key(f) <==> m.funcs.contains(f)
            &&& forall|k: int| 0 <= k < m.funcs.len() ==> {
                &&& (#[trigger] g.nodes@[k]).function@ == m.funcs[k]
                &&& g.nodes@[k].call_count == m.counts[m.funcs[k]]
                &&& names_sorted(views(g.nodes@[k].callers@))
                &&& names_sorted(views(g.nodes@[k].callees@))
            }
            &&& forall|k: int, x: Seq<char>| 0 <= k < m.funcs.len() ==> (#[trigger] views(
                g.nodes@[k].callers@,
            ).contains(x) <==> m.rel.contains((x, m.funcs[k])))
            &&& forall|k: int, x: Seq<char>| 0 <= k < m.funcs.len() ==> (#[trigger] views(
                g.nodes@[k].callees@,
            ).contains(x) <==> m.rel.contains((m.funcs[k], x)))
            &&& g.edges@.map_values(|e: CallGraphEdge| (e.from@, e.to@)) == edge_views(g.nodes@)
            &&& g.stats.node_count == g.nodes@.len()
            &&& g.stats.edge_count == g.edges@.len()
            &&& g.stats.max_observed_depth == deepest(events@, events@.len() as int, max_depth as nat) as u32
            &&& max_depth_reached(events@, events@.len() as int, max_depth as nat, deepest(events@, events@.len() as int, max_depth as nat))
        }),
{
    let mut st = CgState {
        names: Vec::new(),
        counts: Vec::new(),
        callers: Vec::new(),
        callees: Vec::new(),
        threads: Vec::new(),
        stacks: Vec::new(),
    };
    proof {
        let m0 = cg_model(events@, 0, max_depth as nat);
        assert(st.wf(m0, 0));
    }
    let mut i: usize = 0;
    let mut maxd: usize = 0;
    while i < events.len()
        invariant
            0 <= i <= events@.len(),
            events@.len() < u64::MAX,
            st.wf(cg_model(events@, i as int, max_depth as nat), i as nat),
            maxd == deepest(events@, i as int, max_depth as nat),
        decreases events@.len() - i,
    {
        st.step(&events[i], max_depth, Ghost(cg_model(events@, i as int, max_depth as nat)), Ghost(i as nat));
        proof {
            assert(cg_model(events@, i + 1, max_depth as nat) == cg_step(
                cg_model(events@, i as int, max_depth as nat),
                events@[i as int],
                max_depth as nat,
            ));
        }
        let ghost m1 = cg_model(events@, i + 1, max_depth as nat);
        let t = events[i].thread_id;
        let d: usize = match st.find_thread(t) {
            Some(j) => {
                proof {
                    assert(m1.stacks[st.threads@[j as int]] == st.stacks@[j as int]@.map_values(|k: usize| m1.funcs[k as int]));
                    assert(m1.stacks.contains_key(t));
                }
                st.stacks[j].len()
            },
            None => {
                proof {
                    assert(!m1.stacks.contains_key(t));
                }
                0
            },
        };
        proof {
            assert(d == stack_at(m1, t).len());
        }
        if d > maxd {
            maxd = d;
        }
        i += 1;
    }
    let ghost m = cg_model(events@, events@.len() as int, max_depth as nat);
    let n = st.names.len();
    let mut nodes: Vec<CallGraphNode> = Vec::new();
    let mut edges: Vec<CallGraphEdge> = Vec::new();
    let mut k: usize = 0;
    while k < n
        invariant
            n == st.names@.len(),
            st.wf(m, events@.len() as nat),
            0 <= k <= n,
            nodes@.len() == k,
            forall|q: int| 0 <= q < k ==> {
                &&& (#[trigger] nodes@[q]).function@ == m.funcs[q]
                &&& nodes@[q].call_count == st.counts@[q]
                &&& views(nodes@[q].callers@) == views(st.callers@[q]@)
                &&& views(nodes@[q].callees@) == views(st.callees@[q]@)
            },
            edges@.map_values(|e: CallGraphEdge| (e.from@, e.to@)) == edge_views(nodes@),
        decreases n - k,
    {
        let ghost before_nodes = nodes@;
        let ghost before_edges = edges@.map_values(|e: CallGraphEdge| (e.from@, e.to@));
        let node = CallGraphNode {
            function: st.names[k].clone(),
            call_count: st.counts[k],
            callers: copy_names(&st.callers[k]),
            callees: copy_names(&st.callees[k]),
        };
        let ghost fk = node.function@;
        let ghost cs = views(node.callees@);
        nodes.push(node);
        proof {
            assert(nodes@.drop_last() =~= before_nodes);
            assert(nodes@.last().function@ == fk);
        }
        let callees = &st.callees[k];
        let mut c: usize = 0;
        while c < callees.len()
            invariant
                0 <= c <= callees@.len(),
                views(callees@) == cs,
                edges@.map_values(|e: CallGraphEdge| (e.from@, e.to@)) == before_edges + cs.subrange(0, c as int).map_values(
                    |x: Seq<char>| (fk, x),
                ),
                st.names@[k as int]@ == fk,
                k < st.names@.len(),
            decreases callees@.len() - c,
        {
            let ghost prev = edges@;
            edges.push(CallGraphEdge { from: st.names[k].clone(), to: callees[c].clone() });
            proof {
                assert(cs[c as int] == callees@[c as int]@);
                assert(edges@.map_values(|e: CallGraphEdge| (e.from@, e.to@)) =~= prev.map_values(
                    |e: CallGraphEdge| (e.from@, e.to@),
                ).push((fk, cs[c as int])));
                assert(cs.subrange(0, c + 1).map_values(|x: Seq<char>| (fk, x)) =~= cs.subrange(0, c as int).map_values(
                    |x: Seq<char>| (fk, x),
                ).push((fk, cs[c as int])));
            }
            c += 1;
        }
        proof {
            assert(cs.subrange(0, cs.len() as int) =~= cs);
            assert(edge_views(nodes@) == edge_views(before_nodes) + cs.map_values(|x: Seq<char>| (fk, x)));
        }
        k += 1;
    }
    let depth: u32 = maxd as u32;
    proof {
        lemma_deepest(events@, events@.len() as int, max_depth as nat);
        assert forall|kk: int, x: Seq<char>| 0 <= kk < m.funcs.len() implies (#[trigger] views(
            nodes@[kk].callers@,
        ).contains(x) <==> m.rel.contains((x, m.funcs[kk]))) by {
            assert(views(st.callers@[kk]@).contains(x) <==> m.rel.contains((x, m.funcs[kk])));
        }
        assert forall|kk: int, x: Seq<char>| 0 <= kk < m.funcs.len() implies (#[trigger] views(
            nodes@[kk].callees@,
        ).contains(x) <==> m.rel.contains((m.funcs[kk], x))) by {
            assert(views(st.callees@[kk]@).contains(x) <==> m.rel.contains((m.funcs[kk], x)));
        }
        assert forall|kk: int| 0 <= kk < m.funcs.len() implies names_sorted(views((#[trigger] nodes@[kk]).callers@))
            && names_sorted(views(nodes@[kk].callees@)) by {
            assert(names_sorted(views(st.callers@[kk]@)));
            assert(names_sorted(views(st.callees@[kk]@)));
        }
    }
    let node_count = nodes.len();
    let edge_count = edges.len();
    CallGraph { nodes, edges, stats: CallGraphStats { node_count, edge_count, max_observed_depth: depth } }
}

/// The edges of a call graph whose nodes have distinct names and
/// name-ordered callee lists are deduplicated: no caller/callee pair occurs
/// twice, and a pair occurs exactly when the caller's node lists the callee.
pub proof fn law_call_graph_edges(nodes: Seq<CallGraphNode>)
    requires
        forall|a: int, b: int| 0 <= a < b < nodes.len() ==> nodes[a].function@ != nodes[b].function@,
        forall|k: int| 0 <= k < nodes.len() ==> names_sorted(views(#[trigger] nodes[k].callees@)),
    ensures
        edge_views(nodes).no_duplicates(),
        forall|p: Seq<char>, c: Seq<char>| #[trigger] edge_views(nodes).contains((p, c)) <==> exists|k: int|
            0 <= k < nodes.len() && nodes[k].function@ == p && #[trigger] views(nodes[k].callees@).contains(c),
    decreases nodes.len(),
{
    if nodes.len() > 0 {
        let init = nodes.drop_last();
        let last = nodes.last();
        let n = nodes.len() - 1;
        assert forall|k: int| 0 <= k < init.len() implies names_sorted(views(#[trigger] init[k].callees@)) by {
            assert(init[k] == nodes[k]);
        }
        law_call_graph_edges(init);
        let cs = views(last.callees@);
        let tail = cs.map_values(|c: Seq<char>| (last.function@, c));
        let all = edge_views(nodes);
        assert(all == edge_views(init) + tail);
        assert(names_sorted(cs));
        assert forall|a: int, b: int| 0 <= a < b < cs.len() implies cs[a] != cs[b] by {
            assert(name_lt(cs[a], cs[b]));
            lemma_lex_irreflexive(encode_utf8(cs[a]));
        }
        assert forall|x: (Seq<char>, Seq<char>)| #[trigger] edge_views(init).contains(x) implies x.0 != last.function@ by {
            let k = choose|k: int| 0 <= k < init.len() && init[k].function@ == x.0 && #[trigger] views(
                init[k].callees@,
            ).contains(x.1);
            assert(init[k] == nodes[k]);
        }
        assert forall|a: int, b: int| 0 <= a < b < all.len() implies all[a] != all[b] by {
            let il = edge_views(init).len();
            if b < il {
            } else if a < il {
                assert(edge_views(init).contains(all[a]));
                assert(all[b] == tail[b - il]);
            } else {
                assert(all[a] == tail[a - il]);
                assert(all[b] == tail[b - il]);
            }
        }
        assert forall|p: Seq<char>, c: Seq<char>| #[trigger] all.contains((p, c)) <==> exists|k: int|
            0 <= k < nodes.len() && nodes[k].function@ == p && #[trigger] views(nodes[k].callees@).contains(c) by {
            if all.contains((p, c)) {
                let q = choose|q: int| 0 <= q < all.len() && all[q] == (p, c);
                let il = edge_views(init).len();
                if q < il {
                    assert(edge_views(init).contains((p, c)));
                    let k = choose|k: int| 0 <= k < init.len() && init[k].function@ == p && #[trigger] views(
                        init[k].callees@,
                    ).contains(c);
                    assert(init[k] == nodes[k]);
                } else {
                    assert(tail[q - il] == (p, c));
                    assert(cs[q - il] == c);
                    assert(cs.contains(c));
                    assert(nodes[n] == last);
                }
            }
            if exists|k: int| 0 <= k < nodes.len() && nodes[k].function@ == p && #[trigger] views(nodes[k].callees@).contains(c) {
                let k = choose|k: int| 0 <= k < nodes.len() && nodes[k].function@ == p && #[trigger] views(
                    nodes[k].callees@,
                ).contains(c);
                if k < n {
                    assert(init[k] == nodes[k]);
                    assert(edge_views(init).contains((p, c)));
                    let q = choose|q: int| 0 <= q < edge_views(init).len() && edge_views(init)[q] == (p, c);
                    assert(all[q] == (p, c));
                } else {
                    let q = choose|q: int| 0 <= q < cs.len() && cs[q] == c;
                    assert(tail[q] == (p, c));
                    assert(all[edge_views(init).len() + q] == (p, c));
                }
            }
        }
    }
}

} // verus!
