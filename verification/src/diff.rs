//! Call-count regression audit between two sessions: which functions a
//! target session calls much more (regressions) or much less
//! (improvements) than a baseline, from the two execution summaries.

use vstd::prelude::*;

verus! {

/// Input of a performance regression audit.
#[derive(Debug, Clone, PartialEq, Eq)]
pub struct PerformanceRegressionAuditInput {
    pub baseline_session_id: String,
    pub target_session_id: String,
    /// Functions taken from the top of each summary; 20 when unset.
    pub top_n: Option<usize>,
}

/// Input of a session comparison.
#[derive(Debug, Clone, PartialEq, Eq)]
pub struct CompareSessionsInput {
    pub session_a: String,
    pub session_b: String,
}

/// Stateless holder of the diff and compare algorithms.
pub struct ChronosDiffService;

/// Functions taken from the top of each summary by default.
pub const DEFAULT_AUDIT_TOP_N: usize = 20;

/// A function called in both sessions, with both call counts.
#[derive(Debug, Clone, PartialEq, Eq)]
pub struct CallCountChange {
    pub function: String,
    pub baseline_calls: u64,
    pub target_calls: u64,
}

/// Outcome of the call-count audit.
#[derive(Debug, Clone, PartialEq, Eq)]
pub struct CallCountAudit {
    /// Functions called more than 50% more often, largest increase first.
    pub regressions: Vec<CallCountChange>,
    /// Functions called more than 50% less often, largest decrease first.
    pub improvements: Vec<CallCountChange>,
    /// Distinct functions taken from the two summaries.
    pub functions_analyzed: usize,
    /// Calls of those functions in the baseline.
    pub baseline_total: u128,
    /// Calls of those functions in the target.
    pub target_total: u128,
}

/// How the call count of a function changed.
#[derive(Debug, Clone, Copy, PartialEq, Eq, Structural)]
pub enum CallChange {
    /// Not called in one of the sessions: no ratio to judge.
    NotComparable,
    /// More than 50% more calls.
    Regression,
    /// More than 50% fewer calls.
    Improvement,
    /// Within 50% either way.
    Steady,
}

/// The change from `ca` baseline calls to `cb` target calls: the relative
/// change `(cb - ca) / ca` above one half is a regression, below minus one
/// half an improvement.
pub open spec fn call_change(ca: u64, cb: u64) -> CallChange {
    if ca == 0 || cb == 0 {
        CallChange::NotComparable
    } else if 2 * cb > 3 * ca {
        CallChange::Regression
    } else if 2 * cb < ca {
        CallChange::Improvement
    } else {
        CallChange::Steady
    }
}

/// Classify a change of call count.
pub fn classify_call_change(ca: u64, cb: u64) -> (c: CallChange)
    ensures
        c == call_change(ca, cb),
{
    if ca == 0 || cb == 0 {
        CallChange::NotComparable
    } else if 2 * (cb as u128) > 3 * (ca as u128) {
        CallChange::Regression
    } else if 2 * (cb as u128) < ca as u128 {
        CallChange::Improvement
    } else {
        CallChange::Steady
    }
}

/// The first `n` entries of a summary (all of them when it is shorter).
pub open spec fn top_of(fs: Seq<(String, u64)>, n: nat) -> Seq<(String, u64)> {
    if n < fs.len() {
        fs.subrange(0, n as int)
    } else {
        fs
    }
}

/// Calls of `k` in `fs`: its last entry wins, and an absent function has 0.
pub open spec fn last_count(fs: Seq<(String, u64)>, k: Seq<char>) -> u64
    decreases fs.len(),
{
    if fs.len() == 0 {
        0
    } else if fs.last().0@ == k {
        fs.last().1
    } else {
        last_count(fs.drop_last(), k)
    }
}

/// The distinct names of `fs`, in order of first appearance.
pub open spec fn first_names(fs: Seq<(String, u64)>) -> Seq<Seq<char>>
    decreases fs.len(),
{
    if fs.len() == 0 {
        Seq::empty()
    } else {
        let r = first_names(fs.drop_last());
        if r.contains(fs.last().0@) {
            r
        } else {
            r.push(fs.last().0@)
        }
    }
}

/// The functions an audit looks at: those in the top `n` of either summary.
pub open spec fn audit_names(a: Seq<(String, u64)>, b: Seq<(String, u64)>, n: nat) -> Seq<Seq<char>> {
    first_names(top_of(a, n) + top_of(b, n))
}

/// The names listed in `fs`, in order.
pub open spec fn names_of(fs: Seq<(String, u64)>) -> Seq<Seq<char>> {
    fs.map_values(|e: (String, u64)| e.0@)
}

proof fn lemma_first_names(fs: Seq<(String, u64)>)
    ensures
        first_names(fs).no_duplicates(),
        forall|x: Seq<char>| #[trigger] first_names(fs).contains(x) <==> names_of(fs).contains(x),
    decreases fs.len(),
{
    if fs.len() > 0 {
        let init = fs.drop_last();
        lemma_first_names(init);
        let r = first_names(init);
        let y = fs.last().0@;
        assert(names_of(init) =~= names_of(fs).drop_last());
        assert(names_of(fs).last() == y);
        assert forall|x: Seq<char>| #[trigger] first_names(fs).contains(x) <==> names_of(fs).contains(x) by {
            if names_of(fs).contains(x) && x != y {
                let q = choose|q: int| 0 <= q < names_of(fs).len() && names_of(fs)[q] == x;
                assert(names_of(init)[q] == x);
            }
            if names_of(init).contains(x) {
                let q = choose|q: int| 0 <= q < names_of(init).len() && names_of(init)[q] == x;
                assert(names_of(fs)[q] == x);
            }
            if x == y {
                assert(names_of(fs)[fs.len() - 1] == y);
            }
            if !r.contains(y) {
                assert(first_names(fs) == r.push(y));
                if r.push(y).contains(x) && x != y {
                    let q = choose|q: int| 0 <= q < r.len() + 1 && r.push(y)[q] == x;
                    assert(r[q] == x);
                }
                if r.contains(x) {
                    let q = choose|q: int| 0 <= q < r.len() && r[q] == x;
                    assert(r.push(y)[q] == x);
                }
                if x == y {
                    assert(r.push(y)[r.len() as int] == y);
                }
            }
        }
        if !r.contains(y) {
            assert(first_names(fs) == r.push(y));
            assert forall|i: int, j: int| 0 <= i < j < r.len() + 1 implies r.push(y)[i] != r.push(y)[j] by {
                if j == r.len() {
                    assert(r.push(y)[i] == r[i]);
                }
            }
        }
    }
}

/// The functions an audit looks at are the union of the two summaries'
/// top `n` names, each once: their count is the size of that union.
pub proof fn law_audit_names_are_the_union(a: Seq<(String, u64)>, b: Seq<(String, u64)>, n: nat)
    ensures
        audit_names(a, b, n).no_duplicates(),
        forall|x: Seq<char>| #[trigger] audit_names(a, b, n).contains(x) <==> (names_of(top_of(a, n)).contains(x)
            || names_of(top_of(b, n)).contains(x)),
        audit_names(a, b, n).len() == names_of(top_of(a, n)).to_set().union(names_of(top_of(b, n)).to_set()).len(),
{
    let ta = top_of(a, n);
    let tb = top_of(b, n);
    lemma_first_names(ta + tb);
    assert(names_of(ta + tb) =~= names_of(ta) + names_of(tb));
    let s = audit_names(a, b, n);
    assert forall|x: Seq<char>| #[trigger] s.contains(x) <==> (names_of(ta).contains(x) || names_of(tb).contains(x)) by {
        let c = names_of(ta) + names_of(tb);
        if c.contains(x) {
            let q = choose|q: int| 0 <= q < c.len() && c[q] == x;
            if q < names_of(ta).len() {
                assert(names_of(ta)[q] == x);
            } else {
                assert(names_of(tb)[q - names_of(ta).len()] == x);
            }
        }
        if names_of(ta).contains(x) {
            let q = choose|q: int| 0 <= q < names_of(ta).len() && names_of(ta)[q] == x;
            assert(c[q] == x);
        }
        if names_of(tb).contains(x) {
            let q = choose|q: int| 0 <= q < names_of(tb).len() && names_of(tb)[q] == x;
            assert(c[q + names_of(ta).len()] == x);
        }
    }
    s.unique_seq_to_set();
    assert(s.to_set() =~= names_of(ta).to_set().union(names_of(tb).to_set()));
}

/// Calls of `names` in `fs`.
pub open spec fn total_calls(names: Seq<Seq<char>>, fs: Seq<(String, u64)>) -> nat
    decreases names.len(),
{
    if names.len() == 0 {
        0
    } else {
        total_calls(names.drop_last(), fs) + last_count(fs, names.last()) as nat
    }
}

/// `x` changed by at least the ratio `y` did (target over baseline).
pub open spec fn ratio_ge(x: CallCountChange, y: CallCountChange) -> bool {
    x.target_calls * y.baseline_calls >= y.target_calls * x.baseline_calls
}

/// `rs` holds one entry for each name of `names` whose change is `kind`,
/// with its counts in the two top lists, and nothing else.
pub open spec fn holds_changes(
    rs: Seq<CallCountChange>,
    names: Seq<Seq<char>>,
    ta: Seq<(String, u64)>,
    tb: Seq<(String, u64)>,
    kind: CallChange,
) -> bool {
    &&& forall|i: int, j: int| 0 <= i < j < rs.len() ==> rs[i].function@ != rs[j].function@
    &&& forall|i: int| 0 <= i < rs.len() ==> {
        &&& names.contains((#[trigger] rs[i]).function@)
        &&& rs[i].baseline_calls == last_count(ta, rs[i].function@)
        &&& rs[i].target_calls == last_count(tb, rs[i].function@)
        &&& call_change(rs[i].baseline_calls, rs[i].target_calls) == kind
    }
    &&& forall|k: int| 0 <= k < names.len() && call_change(last_count(ta, names[k]), last_count(tb, names[k])) == kind
        ==> exists|i: int| 0 <= i < rs.len() && (#[trigger] rs[i]).function@ == names[k]
}

/// `s` is ordered by ratio: decreasing when `desc`, increasing otherwise.
pub open spec fn ratio_sorted(s: Seq<CallCountChange>, desc: bool) -> bool {
    forall|i: int, j: int| 0 <= i < j < s.len() ==> if desc {
        ratio_ge(#[trigger] s[i], #[trigger] s[j])
    } else {
        ratio_ge(s[j], s[i])
    }
}

proof fn lemma_ratio_trans(x: CallCountChange, y: CallCountChange, z: CallCountChange)
    requires
        x.baseline_calls > 0,
        y.baseline_calls > 0,
        z.baseline_calls > 0,
        ratio_ge(x, y),
        ratio_ge(y, z),
    ensures
        ratio_ge(x, z),
{
    let (xt, xb, yt, yb, zt, zb) = (
        x.target_calls as int,
        x.baseline_calls as int,
        y.target_calls as int,
        y.baseline_calls as int,
        z.target_calls as int,
        z.baseline_calls as int,
    );
    assert(xt * zb >= zt * xb) by (nonlinear_arith)
        requires
            xb > 0,
            yb > 0,
            zb > 0,
            xt * yb >= yt * xb,
            yt * zb >= zt * yb,
    {
        assert(xt * yb * zb >= yt * xb * zb);
        assert(yt * zb * xb >= zt * yb * xb);
        assert((xt * zb) * yb >= (zt * xb) * yb);
    }
}

fn ratio_ge_exec(x: &CallCountChange, y: &CallCountChange) -> (b: bool)
    ensures
        b == ratio_ge(*x, *y),
{
    let (xt, xb, yt, yb) = (x.target_calls as u128, x.baseline_calls as u128, y.target_calls as u128, y.baseline_calls as u128);
    proof {
        lemma_product_fits(x.target_calls, y.baseline_calls);
        lemma_product_fits(y.target_calls, x.baseline_calls);
    }
    xt * yb >= yt * xb
}

proof fn lemma_product_fits(a: u64, b: u64)
    ensures
        (a as int) * (b as int) <= u128::MAX,
{
    assert((a as int) * (b as int) <= u128::MAX) by (nonlinear_arith)
        requires
            0 <= a <= u64::MAX,
            0 <= b <= u64::MAX,
    {
        assert((a as int) * (b as int) <= (u64::MAX as int) * (u64::MAX as int));
    }
}

/// Insert `x` into the ratio-ordered `v`, after the entries it ties with.
fn insert_by_ratio(v: &mut Vec<CallCountChange>, x: CallCountChange, desc: bool)
    requires
        x.baseline_calls > 0,
        forall|i: int| 0 <= i < old(v)@.len() ==> (#[trigger] old(v)@[i]).baseline_calls > 0,
        ratio_sorted(old(v)@, desc),
    ensures
        exists|p: int| 0 <= p <= old(v)@.len() && final(v)@ == old(v)@.insert(p, x),
        forall|i: int| 0 <= i < final(v)@.len() ==> (#[trigger] final(v)@[i]).baseline_calls > 0,
        ratio_sorted(final(v)@, desc),
{
    let mut p: usize = 0;
    loop
        invariant
            0 <= p <= v@.len(),
            forall|i: int| 0 <= i < p ==> if desc {
                ratio_ge(#[trigger] v@[i], x)
            } else {
                ratio_ge(x, #[trigger] v@[i])
            },
        ensures
            0 <= p <= v@.len(),
            p < v@.len() ==> if desc {
                !ratio_ge(v@[p as int], x)
            } else {
                !ratio_ge(x, v@[p as int])
            },
        decreases v@.len() - p,
    {
        if p >= v.len() {
            break;
        }
        let stays = if desc {
            ratio_ge_exec(&v[p], &x)
        } else {
            ratio_ge_exec(&x, &v[p])
        };
        if !stays {
            break;
        }
        p += 1;
    }
    let ghost before = v@;
    v.insert(p, x);
    proof {
        let after = v@;
        assert forall|i: int, j: int| 0 <= i < j < after.len() implies if desc {
            ratio_ge(#[trigger] after[i], #[trigger] after[j])
        } else {
            ratio_ge(after[j], after[i])
        } by {
            if j < p {
                assert(after[i] == before[i] && after[j] == before[j]);
            } else if j == p {
                assert(after[i] == before[i]);
            } else if i > p {
                assert(after[i] == before[i - 1] && after[j] == before[j - 1]);
            } else if i == p {
                assert(after[j] == before[j - 1]);
                assert(p < before.len());
                if j - 1 == p {
                } else if desc {
                    lemma_ratio_trans(x, before[p as int], before[j - 1]);
                } else {
                    lemma_ratio_trans(before[j - 1], before[p as int], x);
                }
            } else {
                assert(after[i] == before[i] && after[j] == before[j - 1]);
            }
        }
    }
}

/// Calls of `k` in the first `upto` entries of `fs`.
fn last_count_exec(fs: &Vec<(String, u64)>, upto: usize, k: &String) -> (c: u64)
    requires
        upto <= fs@.len(),
    ensures
        c == last_count(fs@.subrange(0, upto as int), k@),
{
    let mut i: usize = upto;
    while i > 0
        invariant
            0 <= i <= upto <= fs@.len(),
            last_count(fs@.subrange(0, upto as int), k@) == last_count(fs@.subrange(0, i as int), k@),
        decreases i,
    {
        assert(fs@.subrange(0, i as int).drop_last() =~= fs@.subrange(0, i - 1));
        if fs[i - 1].0 == *k {
            return fs[i - 1].1;
        }
        i -= 1;
    }
    0
}

/// Views of a list of names.
pub open spec fn views(ns: Seq<String>) -> Seq<Seq<char>> {
    ns.map_values(|s: String| s@)
}

fn names_contain(names: &Vec<String>, k: &String) -> (b: bool)
    ensures
        b == views(names@).contains(k@),
{
    let mut i: usize = 0;
    while i < names.len()
        invariant
            0 <= i <= names@.len(),
            forall|j: int| 0 <= j < i ==> names@[j]@ != k@,
        decreases names@.len() - i,
    {
        if names[i] == *k {
            assert(views(names@)[i as int] == k@);
            return true;
        }
        i += 1;
    }
    proof {
        if views(names@).contains(k@) {
            let j = choose|j: int| 0 <= j < views(names@).len() && views(names@)[j] == k@;
            assert(names@[j]@ == k@);
        }
    }
    false
}

/// Append to `names` the names of the first `upto` entries of `fs` that
/// it does not hold yet.
fn add_names(names: &mut Vec<String>, fs: &Vec<(String, u64)>, upto: usize, prefix: Ghost<Seq<(String, u64)>>)
    requires
        upto <= fs@.len(),
        views(old(names)@) == first_names(prefix@),
    ensures
        views(final(names)@) == first_names(prefix@ + fs@.subrange(0, upto as int)),
{
    let mut i: usize = 0;
    while i < upto
        invariant
            0 <= i <= upto <= fs@.len(),
            views(names@) == first_names(prefix@ + fs@.subrange(0, i as int)),
        decreases upto - i,
    {
        let ghost s = prefix@ + fs@.subrange(0, i as int);
        let ghost s1 = prefix@ + fs@.subrange(0, i + 1);
        assert(s1.drop_last() =~= s);
        assert(s1.last() == fs@[i as int]);
        if !names_contain(names, &fs[i].0) {
            names.push(fs[i].0.clone());
        }
        proof {
            assert(views(names@) =~= first_names(s1));
        }
        i += 1;
    }
}

proof fn lemma_first_names_distinct(fs: Seq<(String, u64)>)
    ensures
        forall|i: int, j: int| 0 <= i < j < first_names(fs).len() ==> first_names(fs)[i] != first_names(fs)[j],
    decreases fs.len(),
{
    if fs.len() > 0 {
        lemma_first_names_distinct(fs.drop_last());
        let r = first_names(fs.drop_last());
        let x = fs.last().0@;
        if !r.contains(x) {
            let rr = r.push(x);
            assert(first_names(fs) == rr);
            assert forall|i: int, j: int| 0 <= i < j < rr.len() implies rr[i] != rr[j] by {
                if j == r.len() {
                    assert(rr[i] == r[i]);
                    if r[i] == x {
                        assert(r.contains(x));
                    }
                } else {
                    assert(rr[i] == r[i] && rr[j] == r[j]);
                }
            }
        }
    }
}

proof fn lemma_holds_step(
    rs: Seq<CallCountChange>,
    rs2: Seq<CallCountChange>,
    names: Seq<Seq<char>>,
    i: int,
    ta: Seq<(String, u64)>,
    tb: Seq<(String, u64)>,
    kind: CallChange,
    x: CallCountChange,
)
    requires
        0 <= i < names.len(),
        forall|a: int, b: int| 0 <= a < b < names.len() ==> names[a] != names[b],
        holds_changes(rs, names.subrange(0, i), ta, tb, kind),
        x.function@ == names[i],
        x.baseline_calls == last_count(ta, names[i]),
        x.target_calls == last_count(tb, names[i]),
        call_change(x.baseline_calls, x.target_calls) == kind ==> exists|p: int| 0 <= p <= rs.len() && rs2 == rs.insert(p, x),
        call_change(x.baseline_calls, x.target_calls) != kind ==> rs2 == rs,
    ensures
        holds_changes(rs2, names.subrange(0, i + 1), ta, tb, kind),
{
    let old_names = names.subrange(0, i);
    let new_names = names.subrange(0, i + 1);
    assert forall|q: int| 0 <= q < rs.len() implies (#[trigger] rs[q]).function@ != names[i] && new_names.contains(
        rs[q].function@,
    ) by {
        let j = choose|j: int| 0 <= j < old_names.len() && old_names[j] == rs[q].function@;
        assert(names[j] == rs[q].function@);
        assert(new_names[j] == names[j]);
    }
    assert(new_names[i] == names[i]);
    if call_change(x.baseline_calls, x.target_calls) == kind {
        let p = choose|p: int| 0 <= p <= rs.len() && rs2 == rs.insert(p, x);
        assert forall|a: int| 0 <= a < rs2.len() implies {
            &&& new_names.contains((#[trigger] rs2[a]).function@)
            &&& rs2[a].baseline_calls == last_count(ta, rs2[a].function@)
            &&& rs2[a].target_calls == last_count(tb, rs2[a].function@)
            &&& call_change(rs2[a].baseline_calls, rs2[a].target_calls) == kind
        } by {
            if a < p {
                assert(rs2[a] == rs[a]);
            } else if a > p {
                assert(rs2[a] == rs[a - 1]);
            }
        }
        assert forall|a: int, b: int| 0 <= a < b < rs2.len() implies rs2[a].function@ != rs2[b].function@ by {
            if b < p {
                assert(rs2[a] == rs[a] && rs2[b] == rs[b]);
            } else if b == p {
                assert(rs2[a] == rs[a]);
            } else if a > p {
                assert(rs2[a] == rs[a - 1] && rs2[b] == rs[b - 1]);
            } else if a == p {
                assert(rs2[b] == rs[b - 1]);
            } else {
                assert(rs2[a] == rs[a] && rs2[b] == rs[b - 1]);
            }
        }
        assert forall|k: int| 0 <= k < new_names.len() && call_change(
            last_count(ta, new_names[k]),
            last_count(tb, new_names[k]),
        ) == kind implies exists|a: int| 0 <= a < rs2.len() && (#[trigger] rs2[a]).function@ == new_names[k] by {
            if k == i {
                assert(rs2[p] == x);
            } else {
                assert(old_names[k] == new_names[k]);
                let a = choose|a: int| 0 <= a < rs.len() && (#[trigger] rs[a]).function@ == old_names[k];
                if a < p {
                    assert(rs2[a] == rs[a]);
                } else {
                    assert(rs2[a + 1] == rs[a]);
                }
            }
        }
    } else {
        assert forall|k: int| 0 <= k < new_names.len() && call_change(
            last_count(ta, new_names[k]),
            last_count(tb, new_names[k]),
        ) == kind implies exists|a: int| 0 <= a < rs2.len() && (#[trigger] rs2[a]).function@ == new_names[k] by {
            assert(k != i);
            assert(old_names[k] == new_names[k]);
        }
    }
}

/// The number of functions an audit takes from the top of each summary.
pub open spec fn audit_top_n(top_n: Option<usize>) -> nat {
    match top_n {
        Some(n) => n as nat,
        None => DEFAULT_AUDIT_TOP_N as nat,
    }
}

proof fn lemma_total_step(names: Seq<Seq<char>>, fs: Seq<(String, u64)>, i: int)
    requires
        0 <= i < names.len(),
    ensures
        total_calls(names.subrange(0, i + 1), fs) == total_calls(names.subrange(0, i), fs) + last_count(fs, names[i]),
{
    assert(names.subrange(0, i + 1).drop_last() =~= names.subrange(0, i));
}

impl ChronosDiffService {
    /// Audit the call counts of two sessions from their execution summaries
    /// (function name and call count, in summary order). The top `top_n`
    /// entries of each (20 when unset) are taken, a later entry for the same
    /// function winning; every function seen in either is analyzed, a
    /// missing one counting zero calls. Functions called in both sessions are
    /// classified by `call_change`: the regressions come largest increase
    /// first, the improvements largest decrease first (ties in the order the
    /// functions were first seen). The totals count the calls of the
    /// analyzed functions in each session.
    pub fn call_count_audit(baseline: &Vec<(String, u64)>, target: &Vec<(String, u64)>, top_n: Option<usize>) -> (r:
        CallCountAudit)
        ensures
            ({
                let n = audit_top_n(top_n);
                let names = audit_names(baseline@, target@, n);
                let ta = top_of(baseline@, n);
                let tb = top_of(target@, n);
                &&& r.functions_analyzed == names.len()
                &&& r.baseline_total == total_calls(names, ta)
                &&& r.target_total == total_calls(names, tb)
                &&& holds_changes(r.regressions@, names, ta, tb, CallChange::Regression)
                &&& ratio_sorted(r.regressions@, true)
                &&& holds_changes(r.improvements@, names, ta, tb, CallChange::Improvement)
                &&& ratio_sorted(r.improvements@, false)
            }),
    {
        let n = match top_n {
            Some(n) => n,
            None => DEFAULT_AUDIT_TOP_N,
        };
        let na = if n < baseline.len() {
            n
        } else {
            baseline.len()
        };
        let nb = if n < target.len() {
            n
        } else {
            target.len()
        };
        let ghost ta = top_of(baseline@, n as nat);
        let ghost tb = top_of(target@, n as nat);
        assert(ta =~= baseline@.subrange(0, na as int));
        assert(tb =~= target@.subrange(0, nb as int));
        let mut names: Vec<String> = Vec::new();
        assert(views(names@) =~= first_names(Seq::empty()));
        add_names(&mut names, baseline, na, Ghost(Seq::empty()));
        assert(Seq::<(String, u64)>::empty() + baseline@.subrange(0, na as int) =~= ta);
        add_names(&mut names, target, nb, Ghost(ta));
        let ghost all = audit_names(baseline@, target@, n as nat);
        proof {
            lemma_first_names_distinct(ta + tb);
        }
        let mut regressions: Vec<CallCountChange> = Vec::new();
        let mut improvements: Vec<CallCountChange> = Vec::new();
        let mut baseline_total: u128 = 0;
        let mut target_total: u128 = 0;
        let mut i: usize = 0;
        while i < names.len()
            invariant
                0 <= i <= names@.len(),
                views(names@) == all,
                all == audit_names(baseline@, target@, n as nat),
                forall|a: int, b: int| 0 <= a < b < all.len() ==> all[a] != all[b],
                ta == baseline@.subrange(0, na as int),
                tb == target@.subrange(0, nb as int),
                na <= baseline@.len(),
                nb <= target@.len(),
                baseline_total == total_calls(all.subrange(0, i as int), ta),
                target_total == total_calls(all.subrange(0, i as int), tb),
                baseline_total <= i * (u64::MAX as int),
                target_total <= i * (u64::MAX as int),
                holds_changes(regressions@, all.subrange(0, i as int), ta, tb, CallChange::Regression),
                ratio_sorted(regressions@, true),
                forall|q: int| 0 <= q < regressions@.len() ==> (#[trigger] regressions@[q]).baseline_calls > 0,
                holds_changes(improvements@, all.subrange(0, i as int), ta, tb, CallChange::Improvement),
                ratio_sorted(improvements@, false),
                forall|q: int| 0 <= q < improvements@.len() ==> (#[trigger] improvements@[q]).baseline_calls > 0,
            decreases names@.len() - i,
        {
            let k = &names[i];
            assert(k@ == all[i as int]);
            let ca = last_count_exec(baseline, na, k);
            let cb = last_count_exec(target, nb, k);
            proof {
                lemma_total_step(all, ta, i as int);
                lemma_total_step(all, tb, i as int);
            }
            baseline_total = baseline_total + ca as u128;
            target_total = target_total + cb as u128;
            let x = CallCountChange { function: k.clone(), baseline_calls: ca, target_calls: cb };
            let ghost reg0 = regressions@;
            let ghost imp0 = improvements@;
            match classify_call_change(ca, cb) {
                CallChange::Regression => insert_by_ratio(&mut regressions, x, true),
                CallChange::Improvement => insert_by_ratio(&mut improvements, x, false),
                _ => {},
            }
            proof {
                lemma_holds_step(reg0, regressions@, all, i as int, ta, tb, CallChange::Regression, x);
                lemma_holds_step(imp0, improvements@, all, i as int, ta, tb, CallChange::Improvement, x);
            }
            i += 1;
        }
        proof {
            assert(all.subrange(0, all.len() as int) =~= all);
        }
        CallCountAudit {
            regressions,
            improvements,
            functions_analyzed: names.len(),
            baseline_total,
            target_total,
        }
    }
}

} // verus!
