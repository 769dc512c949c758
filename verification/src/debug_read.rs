//! State reads over a session's events: the difference between the state
//! at two events, and the memory writes inside an address and time window.

use vstd::prelude::*;
use crate::error::ServiceError;
use crate::text::{hex, hex_prefixed};
use crate::trace::{EventData, TraceEvent, VariableInfo};

verus! {

/// Stateless holder of the state-read operations.
pub struct DebugReadService;

/// General-purpose registers at an event.
#[derive(Debug, Clone, Copy, PartialEq, Eq, Structural)]
pub struct RegisterState {
    pub rax: u64,
    pub rbx: u64,
    pub rcx: u64,
    pub rdx: u64,
    pub rsi: u64,
    pub rdi: u64,
    pub rbp: u64,
    pub rsp: u64,
    pub r8: u64,
    pub r9: u64,
    pub r10: u64,
    pub r11: u64,
    pub r12: u64,
    pub r13: u64,
    pub r14: u64,
    pub r15: u64,
    pub rip: u64,
    pub rflags: u64,
}

/// A variable whose value differs between the two events.
#[derive(Debug, Clone, PartialEq, Eq)]
pub struct VariableChange {
    pub name: String,
    pub before: Option<String>,
    pub after: Option<String>,
}

/// A register whose value differs, both values as `0x`-prefixed hex.
#[derive(Debug, Clone, PartialEq, Eq)]
pub struct RegisterChange {
    pub before: String,
    pub after: String,
}

/// Difference between the state at two events.
#[derive(Debug, Clone, PartialEq, Eq)]
pub struct StateDiffSnapshot {
    pub event_id_a: u64,
    pub event_id_b: u64,
    pub variables_added: Vec<String>,
    pub variables_removed: Vec<String>,
    pub variables_changed: Vec<VariableChange>,
    /// Changed registers, by name, in register order.
    pub registers_changed: Vec<(String, RegisterChange)>,
    pub timestamp_delta_ns: u64,
}

/// Names of the variables, in order.
pub open spec fn var_names(vars: Seq<VariableInfo>) -> Seq<Seq<char>> {
    vars.map_values(|v: VariableInfo| v.name@)
}

/// Value of the first variable named `name`.
pub open spec fn first_value(vars: Seq<VariableInfo>, name: Seq<char>) -> Seq<char>
    decreases vars.len(),
{
    if vars.len() == 0 {
        Seq::empty()
    } else if vars[0].name@ == name {
        vars[0].value@
    } else {
        first_value(vars.drop_first(), name)
    }
}

/// The names of `names` that `other` lacks, each once, in order of first
/// appearance.
pub open spec fn names_missing_from(names: Seq<Seq<char>>, other: Seq<Seq<char>>) -> Seq<Seq<char>>
    decreases names.len(),
{
    if names.len() == 0 {
        Seq::empty()
    } else {
        let r = names_missing_from(names.drop_last(), other);
        let x = names.last();
        if !other.contains(x) && !names.drop_last().contains(x) {
            r.push(x)
        } else {
            r
        }
    }
}

/// The names present at both events whose (first) values differ, each
/// once, in order of first appearance at the first event, with both values.
pub open spec fn changed_vars(a: Seq<VariableInfo>, b: Seq<VariableInfo>) -> Seq<(Seq<char>, Seq<char>, Seq<char>)>
    decreases a.len(),
{
    if a.len() == 0 {
        Seq::empty()
    } else {
        let r = changed_vars(a.drop_last(), b);
        let x = a.last().name@;
        let init = a.drop_last();
        if var_names(b).contains(x) && !var_names(init).contains(x) && first_value(a, x) != first_value(b, x) {
            r.push((x, first_value(a, x), first_value(b, x)))
        } else {
            r
        }
    }
}

pub open spec fn change_view(c: VariableChange) -> (Seq<char>, Seq<char>, Seq<char>) {
    (c.name@, match c.before {
        Some(v) => v@,
        None => Seq::empty(),
    }, match c.after {
        Some(v) => v@,
        None => Seq::empty(),
    })
}

/// Register names, in reporting order.
pub open spec fn register_names() -> Seq<Seq<char>> {
    seq![
        "rax"@, "rbx"@, "rcx"@, "rdx"@, "rsi"@, "rdi"@, "rbp"@, "rsp"@, "r8"@, "r9"@,
        "r10"@, "r11"@, "r12"@, "r13"@, "r14"@, "r15"@, "rip"@, "rflags"@,
    ]
}

/// Register values, in reporting order.
pub open spec fn register_values(r: RegisterState) -> Seq<u64> {
    seq![
        r.rax, r.rbx, r.rcx, r.rdx, r.rsi, r.rdi, r.rbp, r.rsp, r.r8, r.r9, r.r10, r.r11, r.r12, r.r13,
        r.r14, r.r15, r.rip, r.rflags,
    ]
}

/// Registers among the first `k` whose values differ: name, then both
/// values in `0x`-prefixed hex.
pub open spec fn register_changes(a: RegisterState, b: RegisterState, k: int) -> Seq<(Seq<char>, Seq<char>, Seq<char>)>
    decreases k,
{
    if k <= 0 {
        Seq::empty()
    } else {
        let r = register_changes(a, b, k - 1);
        let va = register_values(a)[k - 1];
        let vb = register_values(b)[k - 1];
        if va != vb {
            r.push((register_names()[k - 1], "0x"@ + hex(va as nat), "0x"@ + hex(vb as nat)))
        } else {
            r
        }
    }
}

pub open spec fn register_change_view(c: (String, RegisterChange)) -> (Seq<char>, Seq<char>, Seq<char>) {
    (c.0@, c.1.before@, c.1.after@)
}

fn has_name(vars: &Vec<VariableInfo>, name: &String, end: usize) -> (b: bool)
    requires
        end <= vars@.len(),
    ensures
        b == var_names(vars@.subrange(0, end as int)).contains(name@),
{
    let mut k: usize = 0;
    while k < end
        invariant
            end <= vars@.len(),
            0 <= k <= end,
            forall|q: int| 0 <= q < k ==> vars@[q].name@ != name@,
        decreases end - k,
    {
        if vars[k].name == *name {
            proof {
                assert(var_names(vars@.subrange(0, end as int))[k as int] == name@);
            }
            return true;
        }
        k += 1;
    }
    proof {
        if var_names(vars@.subrange(0, end as int)).contains(name@) {
            let q = choose|q: int| 0 <= q < end && var_names(vars@.subrange(0, end as int))[q] == name@;
            assert(vars@[q].name@ == name@);
        }
    }
    false
}

proof fn lemma_first_value_skip(vars: Seq<VariableInfo>, k: int, name: Seq<char>)
    requires
        0 <= k <= vars.len(),
        forall|q: int| 0 <= q < k ==> vars[q].name@ != name,
    ensures
        first_value(vars, name) == first_value(vars.skip(k), name),
    decreases k,
{
    if k > 0 {
        lemma_first_value_skip(vars.drop_first(), k - 1, name);
        assert(vars.drop_first().skip(k - 1) =~= vars.skip(k));
    } else {
        assert(vars.skip(0) =~= vars);
    }
}

fn value_of(vars: &Vec<VariableInfo>, name: &String) -> (r: String)
    ensures
        r@ == first_value(vars@, name@),
{
    let mut k: usize = 0;
    while k < vars.len()
        invariant
            0 <= k <= vars@.len(),
            forall|q: int| 0 <= q < k ==> vars@[q].name@ != name@,
        decreases vars@.len() - k,
    {
        if vars[k].name == *name {
            proof {
                lemma_first_value_skip(vars@, k as int, name@);
                assert(vars@.skip(k as int)[0] == vars@[k as int]);
            }
            return vars[k].value.clone();
        }
        k += 1;
    }
    proof {
        lemma_first_value_skip(vars@, vars@.len() as int, name@);
        assert(vars@.skip(vars@.len() as int).len() == 0);
    }
    String::new()
}

/// Names of `vars` that `other` lacks, each once, in order of first appearance.
fn missing_names(vars: &Vec<VariableInfo>, other: &Vec<VariableInfo>) -> (r: Vec<String>)
    ensures
        r@.map_values(|s: String| s@) == names_missing_from(var_names(vars@), var_names(other@)),
{
    let mut r: Vec<String> = Vec::new();
    let mut i: usize = 0;
    while i < vars.len()
        invariant
            0 <= i <= vars@.len(),
            r@.map_values(|s: String| s@) == names_missing_from(var_names(vars@.subrange(0, i as int)), var_names(other@)),
        decreases vars@.len() - i,
    {
        let ghost before = r@;
        let name = &vars[i].name;
        let in_other = has_name(other, name, other.len());
        let seen = has_name(vars, name, i);
        proof {
            assert(other@.subrange(0, other@.len() as int) =~= other@);
            let pre = vars@.subrange(0, i + 1);
            assert(var_names(pre).drop_last() =~= var_names(vars@.subrange(0, i as int)));
            assert(var_names(pre).last() == name@);
        }
        if !in_other && !seen {
            r.push(name.clone());
        }
        proof {
            assert(r@.map_values(|s: String| s@) =~= names_missing_from(var_names(vars@.subrange(0, i + 1)), var_names(other@)));
        }
        i += 1;
    }
    proof {
        assert(vars@.subrange(0, vars@.len() as int) =~= vars@);
    }
    r
}

proof fn lemma_first_value_prefix(vars: Seq<VariableInfo>, n: int, name: Seq<char>)
    requires
        0 <= n <= vars.len(),
        var_names(vars.subrange(0, n)).contains(name),
    ensures
        first_value(vars.subrange(0, n), name) == first_value(vars, name),
    decreases n,
{
    if vars[0].name@ != name {
        let q = choose|q: int| 0 <= q < n && var_names(vars.subrange(0, n))[q] == name;
        assert(q > 0);
        assert(vars.subrange(0, n).drop_first() =~= vars.drop_first().subrange(0, n - 1));
        assert(var_names(vars.drop_first().subrange(0, n - 1))[q - 1] == name);
        lemma_first_value_prefix(vars.drop_first(), n - 1, name);
    }
}

proof fn lemma_missing_contains(names: Seq<Seq<char>>, other: Seq<Seq<char>>, x: Seq<char>)
    ensures
        names_missing_from(names, other).contains(x) <==> (names.contains(x) && !other.contains(x)),
    decreases names.len(),
{
    if names.len() > 0 {
        let init = names.drop_last();
        lemma_missing_contains(init, other, x);
        let r = names_missing_from(init, other);
        if names.contains(x) && !init.contains(x) {
            assert(x == names.last()) by {
                let q = choose|q: int| 0 <= q < names.len() && names[q] == x;
                if q < names.len() - 1 {
                    assert(init[q] == x);
                }
            }
        }
        if init.contains(x) {
            let q = choose|q: int| 0 <= q < init.len() && init[q] == x;
            assert(names[q] == x);
        }
        if names_missing_from(names, other).contains(x) && !r.contains(x) {
            assert(names_missing_from(names, other) == r.push(names.last()));
            let q = choose|q: int| 0 <= q < r.len() + 1 && r.push(names.last())[q] == x;
            assert(x == names.last());
            assert(names[names.len() - 1] == x);
        }
        if r.contains(x) && !init.contains(x) {
            assert(false);
        }
        if r.contains(x) {
            let q = choose|q: int| 0 <= q < r.len() && r[q] == x;
            let n2 = names_missing_from(names, other);
            assert(n2 == r || n2 == r.push(names.last()));
            assert(n2[q] == x);
        }
        if names.contains(x) && !other.contains(x) && !init.contains(x) {
            let n2 = names_missing_from(names, other);
            assert(n2 == r.push(x));
            assert(n2[r.len() as int] == x);
        }
    }
}

/// The changed names of `changed_vars` (its first components).
pub open spec fn changed_names(c: Seq<(Seq<char>, Seq<char>, Seq<char>)>) -> Seq<Seq<char>> {
    c.map_values(|t: (Seq<char>, Seq<char>, Seq<char>)| t.0)
}

proof fn lemma_changed_contains(a: Seq<VariableInfo>, b: Seq<VariableInfo>, x: Seq<char>)
    ensures
        changed_names(changed_vars(a, b)).contains(x) <==> (var_names(a).contains(x) && var_names(b).contains(x)
            && first_value(a, x) != first_value(b, x)),
    decreases a.len(),
{
    if a.len() > 0 {
        let init = a.drop_last();
        lemma_changed_contains(init, b, x);
        let r = changed_vars(init, b);
        let y = a.last().name@;
        assert(init =~= a.subrange(0, a.len() - 1));
        assert(var_names(init) =~= var_names(a).drop_last());
        assert(var_names(a).last() == y);
        if var_names(init).contains(x) {
            lemma_first_value_prefix(a, a.len() - 1, x);
            let q = choose|q: int| 0 <= q < var_names(init).len() && var_names(init)[q] == x;
            assert(var_names(a)[q] == x);
        }
        if var_names(a).contains(x) && !var_names(init).contains(x) {
            let q = choose|q: int| 0 <= q < var_names(a).len() && var_names(a)[q] == x;
            if q < a.len() - 1 {
                assert(var_names(init)[q] == x);
            }
            assert(x == y);
        }
        let full = changed_vars(a, b);
        if var_names(b).contains(y) && !var_names(init).contains(y) && first_value(a, y) != first_value(b, y) {
            assert(full == r.push((y, first_value(a, y), first_value(b, y))));
            assert(changed_names(full) =~= changed_names(r).push(y));
        } else {
            assert(full == r);
        }
        if changed_names(full).contains(x) && changed_names(full) != changed_names(r) {
            let q = choose|q: int| 0 <= q < changed_names(full).len() && changed_names(full)[q] == x;
            if q < changed_names(r).len() {
                assert(changed_names(r)[q] == x);
            }
        }
        if changed_names(r).contains(x) {
            let q = choose|q: int| 0 <= q < changed_names(r).len() && changed_names(r)[q] == x;
            assert(changed_names(full)[q] == x);
        }
        if changed_names(full).contains(x) && changed_names(full) != changed_names(r) && !changed_names(r).contains(x) {
            assert(x == y);
        }
        if x == y && var_names(b).contains(y) && !var_names(init).contains(y) && first_value(a, y) != first_value(b, y) {
            assert(changed_names(full)[changed_names(r).len() as int] == y);
        }
    }
}

/// What a state diff reports, as sets of names: the added names are those
/// at the second event only, the removed ones those at the first event
/// only, and the changed ones those at both whose first values differ.
pub proof fn law_state_diff_sets(a: Seq<VariableInfo>, b: Seq<VariableInfo>, x: Seq<char>)
    ensures
        names_missing_from(var_names(b), var_names(a)).contains(x) <==> (var_names(b).contains(x) && !var_names(
            a,
        ).contains(x)),
        names_missing_from(var_names(a), var_names(b)).contains(x) <==> (var_names(a).contains(x) && !var_names(
            b,
        ).contains(x)),
        changed_names(changed_vars(a, b)).contains(x) <==> (var_names(a).contains(x) && var_names(b).contains(x)
            && first_value(a, x) != first_value(b, x)),
{
    lemma_missing_contains(var_names(b), var_names(a), x);
    lemma_missing_contains(var_names(a), var_names(b), x);
    lemma_changed_contains(a, b, x);
}

/// Difference between the state at event `a` and at event `b`: the
/// variables only at `b` (added) and only at `a` (removed), each once in
/// order of first appearance; the variables at both whose first values
/// differ; when both register states are known, the registers that differ,
/// in register order, as `0x` hex; and the time from `a` to `b`
/// (saturating at zero, and zero unless both events are known).
pub fn state_diff(
    event_id_a: u64,
    event_id_b: u64,
    vars_a: &Vec<VariableInfo>,
    vars_b: &Vec<VariableInfo>,
    regs_a: Option<RegisterState>,
    regs_b: Option<RegisterState>,
    ts_a: Option<u64>,
    ts_b: Option<u64>,
) -> (d: StateDiffSnapshot)
    ensures
        d.event_id_a == event_id_a,
        d.event_id_b == event_id_b,
        d.variables_added@.map_values(|s: String| s@) == names_missing_from(var_names(vars_b@), var_names(vars_a@)),
        d.variables_removed@.map_values(|s: String| s@) == names_missing_from(var_names(vars_a@), var_names(vars_b@)),
        d.variables_changed@.map_values(|c: VariableChange| change_view(c)) == changed_vars(vars_a@, vars_b@),
        forall|k: int| 0 <= k < d.variables_changed@.len() ==> (#[trigger] d.variables_changed@[k]).before is Some
            && d.variables_changed@[k].after is Some,
        d.registers_changed@.map_values(|c: (String, RegisterChange)| register_change_view(c)) == (match (
            regs_a,
            regs_b,
        ) {
            (Some(ra), Some(rb)) => register_changes(ra, rb, 18),
            _ => Seq::empty(),
        }),
        d.timestamp_delta_ns == (match (ts_a, ts_b) {
            (Some(x), Some(y)) => if y >= x {
                (y - x) as u64
            } else {
                0u64
            },
            _ => 0u64,
        }),
{
    let variables_added = missing_names(vars_b, vars_a);
    let variables_removed = missing_names(vars_a, vars_b);
    let mut variables_changed: Vec<VariableChange> = Vec::new();
    let mut i: usize = 0;
    while i < vars_a.len()
        invariant
            0 <= i <= vars_a@.len(),
            variables_changed@.map_values(|c: VariableChange| change_view(c)) == changed_vars(
                vars_a@.subrange(0, i as int),
                vars_b@,
            ),
            forall|k: int| 0 <= k < variables_changed@.len() ==> (#[trigger] variables_changed@[k]).before is Some
                && variables_changed@[k].after is Some,
        decreases vars_a@.len() - i,
    {
        let name = &vars_a[i].name;
        let in_b = has_name(vars_b, name, vars_b.len());
        let seen = has_name(vars_a, name, i);
        let ghost pre = vars_a@.subrange(0, i + 1);
        proof {
            assert(vars_b@.subrange(0, vars_b@.len() as int) =~= vars_b@);
            assert(pre.drop_last() =~= vars_a@.subrange(0, i as int));
            assert(pre.last() == vars_a@[i as int]);
            assert(var_names(pre)[i as int] == name@);
            assert(var_names(pre).contains(name@));
            lemma_first_value_prefix(vars_a@, i + 1, name@);
        }
        if in_b && !seen {
            let va = value_of(vars_a, name);
            let vb = value_of(vars_b, name);
            if va != vb {
                variables_changed.push(VariableChange { name: name.clone(), before: Some(va), after: Some(vb) });
            }
        }
        proof {
            assert(variables_changed@.map_values(|c: VariableChange| change_view(c)) =~= changed_vars(pre, vars_b@));
        }
        i += 1;
    }
    proof {
        assert(vars_a@.subrange(0, vars_a@.len() as int) =~= vars_a@);
    }
    let mut registers_changed: Vec<(String, RegisterChange)> = Vec::new();
    match (regs_a, regs_b) {
        (Some(ra), Some(rb)) => {
            let names: [&str; 18] = [
                "rax", "rbx", "rcx", "rdx", "rsi", "rdi", "rbp", "rsp", "r8", "r9", "r10", "r11", "r12", "r13",
                "r14", "r15", "rip", "rflags",
            ];
            let va: [u64; 18] = [
                ra.rax, ra.rbx, ra.rcx, ra.rdx, ra.rsi, ra.rdi, ra.rbp, ra.rsp, ra.r8, ra.r9, ra.r10, ra.r11, ra.r12,
                ra.r13, ra.r14, ra.r15, ra.rip, ra.rflags,
            ];
            let vb: [u64; 18] = [
                rb.rax, rb.rbx, rb.rcx, rb.rdx, rb.rsi, rb.rdi, rb.rbp, rb.rsp, rb.r8, rb.r9, rb.r10, rb.r11, rb.r12,
                rb.r13, rb.r14, rb.r15, rb.rip, rb.rflags,
            ];
            proof {
                assert(names@.map_values(|s: &str| s@) =~= register_names());
                assert(va@ =~= register_values(ra));
                assert(vb@ =~= register_values(rb));
            }
            let mut k: usize = 0;
            while k < 18
                invariant
                    0 <= k <= 18,
                    names@.map_values(|s: &str| s@) == register_names(),
                    va@ == register_values(ra),
                    vb@ == register_values(rb),
                    registers_changed@.map_values(|c: (String, RegisterChange)| register_change_view(c))
                        == register_changes(ra, rb, k as int),
                decreases 18 - k,
            {
                if va[k] != vb[k] {
                    let before = hex_prefixed(va[k]);
                    let after = hex_prefixed(vb[k]);
                    proof {
                        assert(names@.map_values(|s: &str| s@)[k as int] == names@[k as int]@);
                    }
                    registers_changed.push((names[k].to_owned(), RegisterChange { before, after }));
                }
                proof {
                    assert(registers_changed@.map_values(|c: (String, RegisterChange)| register_change_view(c))
                        =~= register_changes(ra, rb, k + 1));
                }
                k += 1;
            }
        },
        _ => {},
    }
    let timestamp_delta_ns = match (ts_a, ts_b) {
        (Some(x), Some(y)) => if y >= x {
            y - x
        } else {
            0
        },
        _ => 0,
    };
    StateDiffSnapshot {
        event_id_a,
        event_id_b,
        variables_added,
        variables_removed,
        variables_changed,
        registers_changed,
        timestamp_delta_ns,
    }
}

/// One memory write inside an analysis window.
#[derive(Debug, Clone, PartialEq, Eq)]
pub struct MemoryAccess {
    /// The address, `0x`-prefixed hex.
    pub address: String,
    pub timestamp_ns: u64,
    /// The bytes written, hex; empty when they were not captured.
    pub data_hex: String,
    pub event_id: u64,
    pub size: u64,
}

/// The memory writes inside an address and time window.
#[derive(Debug, Clone, PartialEq, Eq)]
pub struct MemoryAnalysis {
    pub start_address: String,
    pub end_address: String,
    pub start_ts: u64,
    pub end_ts: u64,
    pub total_writes: u64,
    pub accesses: Vec<MemoryAccess>,
}

/// What `e` contributes to a memory analysis of the window: a memory
/// write inside both the time range and the address range, as (address,
/// time, bytes in hex, event id, size).
pub open spec fn access_of(e: TraceEvent, start_address: u64, end_address: u64, start_ts: u64, end_ts: u64) -> Option<
    (u64, u64, Seq<char>, u64, u64),
> {
    if e.timestamp_ns < start_ts || e.timestamp_ns > end_ts {
        None
    } else {
        match e.data {
            EventData::Memory { address, size, data_hex } => if start_address <= address <= end_address {
                Some(
                    (address, e.timestamp_ns, match data_hex {
                        Some(h) => h@,
                        None => Seq::empty(),
                    }, e.event_id, size),
                )
            } else {
                None
            },
            _ => None,
        }
    }
}

/// The accesses of the first `n` events, in trace order.
pub open spec fn accesses_spec(
    events: Seq<TraceEvent>,
    n: int,
    start_address: u64,
    end_address: u64,
    start_ts: u64,
    end_ts: u64,
) -> Seq<(u64, u64, Seq<char>, u64, u64)>
    decreases n,
{
    if n <= 0 {
        Seq::empty()
    } else {
        let r = accesses_spec(events, n - 1, start_address, end_address, start_ts, end_ts);
        match access_of(events[n - 1], start_address, end_address, start_ts, end_ts) {
            Some(a) => r.push(a),
            None => r,
        }
    }
}

pub open spec fn access_view(a: MemoryAccess) -> (Seq<char>, u64, Seq<char>, u64, u64) {
    (a.address@, a.timestamp_ns, a.data_hex@, a.event_id, a.size)
}

pub open spec fn access_render(a: (u64, u64, Seq<char>, u64, u64)) -> (Seq<char>, u64, Seq<char>, u64, u64) {
    ("0x"@ + hex(a.0 as nat), a.1, a.2, a.3, a.4)
}

impl DebugReadService {
    /// The memory writes of `events` inside `[start_address, end_address]`
    /// and `[start_ts, end_ts]`, in trace order, with their count.
    pub fn analyze_memory_of(
        events: &Vec<TraceEvent>,
        start_address: u64,
        end_address: u64,
        start_ts: u64,
        end_ts: u64,
    ) -> (r: MemoryAnalysis)
        ensures
            r.start_address@ == "0x"@ + hex(start_address as nat),
            r.end_address@ == "0x"@ + hex(end_address as nat),
            r.start_ts == start_ts,
            r.end_ts == end_ts,
            r.accesses@.map_values(|a: MemoryAccess| access_view(a)) == accesses_spec(
                events@,
                events@.len() as int,
                start_address,
                end_address,
                start_ts,
                end_ts,
            ).map_values(|a: (u64, u64, Seq<char>, u64, u64)| access_render(a)),
            r.total_writes == r.accesses@.len(),
    {
        let mut accesses: Vec<MemoryAccess> = Vec::new();
        let mut total_writes: u64 = 0;
        let mut i: usize = 0;
        while i < events.len()
            invariant
                0 <= i <= events@.len(),
                total_writes == accesses@.len(),
                accesses@.len() <= i,
                accesses@.map_values(|a: MemoryAccess| access_view(a)) == accesses_spec(
                    events@,
                    i as int,
                    start_address,
                    end_address,
                    start_ts,
                    end_ts,
                ).map_values(|a: (u64, u64, Seq<char>, u64, u64)| access_render(a)),
            decreases events@.len() - i,
        {
            let e = &events[i];
            let ghost prev = accesses@;
            if e.timestamp_ns >= start_ts && e.timestamp_ns <= end_ts {
                if let EventData::Memory { address, size, data_hex } = &e.data {
                    if *address >= start_address && *address <= end_address {
                        let hexd = match data_hex {
                            Some(h) => h.clone(),
                            None => String::new(),
                        };
                        accesses.push(
                            MemoryAccess {
                                address: hex_prefixed(*address),
                                timestamp_ns: e.timestamp_ns,
                                data_hex: hexd,
                                event_id: e.event_id,
                                size: *size,
                            },
                        );
                        total_writes = total_writes + 1;
                    }
                }
            }
            proof {
                let sp = accesses_spec(events@, i as int, start_address, end_address, start_ts, end_ts);
                let sp1 = accesses_spec(events@, i + 1, start_address, end_address, start_ts, end_ts);
                let render = |a: (u64, u64, Seq<char>, u64, u64)| access_render(a);
                let view = |a: MemoryAccess| access_view(a);
                match access_of(events@[i as int], start_address, end_address, start_ts, end_ts) {
                    Some(a) => {
                        assert(sp1 == sp.push(a));
                        assert(accesses@ == prev.push(accesses@.last()));
                        assert(view(accesses@.last()) == render(a));
                        assert(sp1.map_values(render) =~= sp.map_values(render).push(render(a)));
                        assert(accesses@.map_values(view) =~= prev.map_values(view).push(view(accesses@.last())));
                    },
                    None => {
                        assert(sp1 == sp);
                        assert(accesses@ == prev);
                    },
                }
            }
            i += 1;
        }
        MemoryAnalysis {
            start_address: hex_prefixed(start_address),
            end_address: hex_prefixed(end_address),
            start_ts,
            end_ts,
            total_writes,
            accesses,
        }
    }

    /// The session's events, or `SessionNotFound` when there is no session.
    pub fn session_events<'a>(session_id: &str, events: Option<&'a Vec<TraceEvent>>) -> (r: Result<
        &'a Vec<TraceEvent>,
        ServiceError,
    >)
        ensures
            events matches Some(e) ==> r == Ok::<&Vec<TraceEvent>, ServiceError>(e),
            events is None ==> (r matches Err(ServiceError::SessionNotFound(s)) && s@ == session_id@),
    {
        match events {
            Some(e) => Ok(e),
            None => Err(ServiceError::SessionNotFound(session_id.to_owned())),
        }
    }
}

/// Signals that end a process.
pub open spec fn is_fatal_signal(name: Seq<char>) -> bool {
    name == "SIGSEGV"@ || name == "SIGABRT"@ || name == "SIGBUS"@ || name == "SIGILL"@ || name == "SIGFPE"@
        || name == "SIGKILL"@
}

/// `e` is the delivery of a fatal signal.
pub open spec fn is_crash(e: TraceEvent) -> bool {
    e.event_type == crate::trace::EventType::SignalDelivered && (e.data matches EventData::Signal { signal_name }
        && is_fatal_signal(signal_name@))
}

fn str_eq(s: &str, lit: &str) -> (b: bool)
    ensures
        b == (s@ == lit@),
{
    s.to_owned() == lit.to_owned()
}

/// `r` is the index of the first delivery of a fatal signal in `events`,
/// or `None` when there is none.
pub open spec fn first_crash_outcome(events: Seq<TraceEvent>, r: Option<usize>) -> bool {
    &&& r matches Some(k) ==> k < events.len() && is_crash(events[k as int]) && forall|q: int| 0 <= q < k
        ==> !is_crash(#[trigger] events[q])
    &&& r is None ==> forall|q: int| 0 <= q < events.len() ==> !is_crash(#[trigger] events[q])
}

/// `e` delivers the signal named `name`.
pub open spec fn delivers(e: TraceEvent, name: Seq<char>) -> bool {
    e.event_type == crate::trace::EventType::SignalDelivered && (e.data matches EventData::Signal { signal_name }
        && signal_name@ == name)
}

/// Index of the first delivery of a fatal signal, if any.
pub fn first_crash(events: &Vec<TraceEvent>) -> (r: Option<usize>)
    ensures
        r matches Some(k) ==> k < events@.len() && is_crash(events@[k as int]) && forall|q: int| 0 <= q < k
            ==> !is_crash(#[trigger] events@[q]),
        r is None ==> forall|q: int| 0 <= q < events@.len() ==> !is_crash(#[trigger] events@[q]),
        first_crash_outcome(events@, r),
{
    let mut k: usize = 0;
    while k < events.len()
        invariant
            0 <= k <= events@.len(),
            forall|q: int| 0 <= q < k ==> !is_crash(#[trigger] events@[q]),
        decreases events@.len() - k,
    {
        let e = &events[k];
        if e.event_type == crate::trace::EventType::SignalDelivered {
            if let EventData::Signal { signal_name } = &e.data {
                let n = signal_name.as_str();
                if str_eq(n, "SIGSEGV") || str_eq(n, "SIGABRT") || str_eq(n, "SIGBUS") || str_eq(n, "SIGILL")
                    || str_eq(n, "SIGFPE") || str_eq(n, "SIGKILL") {
                    return Some(k);
                }
            }
        }
        k += 1;
    }
    None
}

/// The crash search finds every fatal signal: a delivery of SIGSEGV,
/// SIGABRT, SIGBUS, SIGILL, SIGFPE or SIGKILL at index `i` means a crash
/// is reported at or before `i`; a reported crash is the delivery of one
/// of those six signals; and a delivery of any other signal is never
/// reported.
pub proof fn law_first_crash_fatal_signals(events: Seq<TraceEvent>, r: Option<usize>, i: int, name: Seq<char>)
    requires
        first_crash_outcome(events, r),
    ensures
        (0 <= i < events.len() && delivers(events[i], name) && (name == "SIGSEGV"@ || name == "SIGABRT"@ || name
            == "SIGBUS"@ || name == "SIGILL"@ || name == "SIGFPE"@ || name == "SIGKILL"@)) ==> (r matches Some(k)
            && k <= i),
        r matches Some(k) ==> exists|n: Seq<char>| #[trigger] delivers(events[k as int], n) && (n == "SIGSEGV"@ || n
            == "SIGABRT"@ || n == "SIGBUS"@ || n == "SIGILL"@ || n == "SIGFPE"@ || n == "SIGKILL"@),
        (r matches Some(k) && delivers(events[k as int], name)) ==> (name == "SIGSEGV"@ || name == "SIGABRT"@
            || name == "SIGBUS"@ || name == "SIGILL"@ || name == "SIGFPE"@ || name == "SIGKILL"@),
{
    if 0 <= i < events.len() && delivers(events[i], name) && (name == "SIGSEGV"@ || name == "SIGABRT"@ || name
        == "SIGBUS"@ || name == "SIGILL"@ || name == "SIGFPE"@ || name == "SIGKILL"@) {
        assert(is_crash(events[i]));
        if let Some(k) = r {
            if k > i {
                assert(!is_crash(events[i]));
            }
        }
    }
    if let Some(k) = r {
        let e = events[k as int];
        assert(is_crash(e));
        if let EventData::Signal { signal_name } = e.data {
            assert(delivers(e, signal_name@));
        }
    }
}

/// One write of an audited address: its position in the trace, its event,
/// its time, and the bytes written as hex (empty when not captured).
#[derive(Debug, Clone, PartialEq, Eq)]
pub struct AuditWrite {
    pub index: usize,
    pub event_id: u64,
    pub timestamp_ns: u64,
    pub data_hex: String,
}

/// `e` writes memory at `address`.
pub open spec fn writes_address(e: TraceEvent, address: u64) -> bool {
    e.data matches EventData::Memory { address: a, .. } && a == address
}

/// The bytes of a memory write as hex; empty when they were not captured.
pub open spec fn written_hex(e: TraceEvent) -> Seq<char> {
    match e.data {
        EventData::Memory { data_hex: Some(h), .. } => h@,
        _ => Seq::empty(),
    }
}

/// The event at `i` comes before the one at `j` in an audit: earlier in
/// time, or at the same time earlier in the trace.
pub open spec fn audit_before(events: Seq<TraceEvent>, i: int, j: int) -> bool {
    events[i].timestamp_ns < events[j].timestamp_ns || (events[i].timestamp_ns == events[j].timestamp_ns && i < j)
}

/// `order` lists trace positions in audit order, each with its time.
pub open spec fn audit_ordered(events: Seq<TraceEvent>, order: Seq<(u64, usize)>) -> bool {
    &&& forall|k: int| 0 <= k < order.len() ==> (#[trigger] order[k]).1 < events.len() && order[k].0
        == events[order[k].1 as int].timestamp_ns
    &&& forall|a: int, b: int| 0 <= a < b < order.len() ==> audit_before(
        events,
        (#[trigger] order[a]).1 as int,
        (#[trigger] order[b]).1 as int,
    )
}

fn write_hex(e: &TraceEvent) -> (h: String)
    ensures
        h@ == written_hex(*e),
{
    match &e.data {
        EventData::Memory { data_hex: Some(h), .. } => h.clone(),
        _ => String::new(),
    }
}

impl DebugReadService {
    /// The writes of `address` in `events`, earliest first (in trace order
    /// among writes at the same time), at most `limit` of them: every write
    /// left out comes after all those kept.
    pub fn audit_writes(events: &Vec<TraceEvent>, address: u64, limit: usize) -> (r: Vec<AuditWrite>)
        ensures
            r@.len() <= limit,
            forall|k: int| 0 <= k < r@.len() ==> {
                let i = (#[trigger] r@[k]).index as int;
                &&& i < events@.len()
                &&& writes_address(events@[i], address)
                &&& r@[k].event_id == events@[i].event_id
                &&& r@[k].timestamp_ns == events@[i].timestamp_ns
                &&& r@[k].data_hex@ == written_hex(events@[i])
            },
            forall|a: int, b: int| 0 <= a < b < r@.len() ==> audit_before(
                events@,
                (#[trigger] r@[a]).index as int,
                (#[trigger] r@[b]).index as int,
            ),
            forall|i: int| 0 <= i < events@.len() && writes_address(#[trigger] events@[i], address) ==> (exists|k: int|
                0 <= k < r@.len() && r@[k].index == i) || (r@.len() == limit && forall|k: int| 0 <= k < r@.len()
                ==> audit_before(events@, r@[k].index as int, i)),
    {
        let mut order: Vec<(u64, usize)> = Vec::new();
        let mut i: usize = 0;
        while i < events.len()
            invariant
                0 <= i <= events@.len(),
                audit_ordered(events@, order@),
                forall|k: int| 0 <= k < order@.len() ==> (#[trigger] order@[k]).1 < i && writes_address(
                    events@[order@[k].1 as int],
                    address,
                ),
                forall|j: int| 0 <= j < i && writes_address(#[trigger] events@[j], address) ==> exists|k: int|
                    0 <= k < order@.len() && order@[k].1 == j,
            decreases events@.len() - i,
        {
            let is_write = match &events[i].data {
                EventData::Memory { address: a, .. } => *a == address,
                _ => false,
            };
            if is_write {
                let ts = events[i].timestamp_ns;
                let mut p: usize = 0;
                while p < order.len() && order[p].0 <= ts
                    invariant
                        0 <= p <= order@.len(),
                        forall|k: int| 0 <= k < p ==> (#[trigger] order@[k]).0 <= ts,
                    decreases order@.len() - p,
                {
                    p += 1;
                }
                let ghost before = order@;
                order.insert(p, (ts, i));
                proof {
                    let after = order@;
                    assert forall|k: int| 0 <= k < after.len() implies (#[trigger] after[k]).1 < events@.len()
                        && after[k].0 == events@[after[k].1 as int].timestamp_ns by {
                        if k < p {
                            assert(after[k] == before[k]);
                        } else if k > p {
                            assert(after[k] == before[k - 1]);
                        }
                    }
                    assert forall|a: int, b: int| 0 <= a < b < after.len() implies audit_before(
                        events@,
                        (#[trigger] after[a]).1 as int,
                        (#[trigger] after[b]).1 as int,
                    ) by {
                        if b < p {
                            assert(after[a] == before[a] && after[b] == before[b]);
                        } else if b == p {
                            assert(after[a] == before[a]);
                        } else if a > p {
                            assert(after[a] == before[a - 1] && after[b] == before[b - 1]);
                        } else if a == p {
                            assert(after[b] == before[b - 1]);
                            assert(before[p as int].0 > ts);
                            if b - 1 > p {
                                assert(audit_before(events@, before[p as int].1 as int, before[b - 1].1 as int));
                            }
                        } else {
                            assert(after[a] == before[a] && after[b] == before[b - 1]);
                        }
                    }
                    assert forall|k: int| 0 <= k < after.len() implies (#[trigger] after[k]).1 < i + 1 && writes_address(
                        events@[after[k].1 as int],
                        address,
                    ) by {
                        if k < p {
                            assert(after[k] == before[k]);
                        } else if k > p {
                            assert(after[k] == before[k - 1]);
                        }
                    }
                    assert forall|j: int| 0 <= j < i + 1 && writes_address(#[trigger] events@[j], address) implies exists|k: int|
                        0 <= k < after.len() && after[k].1 == j by {
                        if j == i {
                            assert(after[p as int].1 == j);
                        } else {
                            let k = choose|k: int| 0 <= k < before.len() && before[k].1 == j;
                            if k < p {
                                assert(after[k] == before[k]);
                            } else {
                                assert(after[k + 1] == before[k]);
                            }
                        }
                    }
                }
            }
            i += 1;
        }
        let n = if limit < order.len() {
            limit
        } else {
            order.len()
        };
        let mut r: Vec<AuditWrite> = Vec::new();
        let mut k: usize = 0;
        while k < n
            invariant
                0 <= k <= n <= order@.len(),
                n <= limit,
                audit_ordered(events@, order@),
                r@.len() == k,
                forall|q: int| 0 <= q < k ==> (#[trigger] r@[q]).index == order@[q].1 && r@[q].event_id
                    == events@[order@[q].1 as int].event_id && r@[q].timestamp_ns == events@[order@[q].1 as int].timestamp_ns
                    && r@[q].data_hex@ == written_hex(events@[order@[q].1 as int]),
            decreases n - k,
        {
            let idx = order[k].1;
            let e = &events[idx];
            let w = AuditWrite { index: idx, event_id: e.event_id, timestamp_ns: e.timestamp_ns, data_hex: write_hex(e) };
            r.push(w);
            k += 1;
        }
        proof {
            assert forall|j: int| 0 <= j < events@.len() && writes_address(#[trigger] events@[j], address) implies (exists|q: int|
                0 <= q < r@.len() && r@[q].index == j) || (r@.len() == limit && forall|q: int| 0 <= q < r@.len()
                ==> audit_before(events@, r@[q].index as int, j)) by {
                let m = choose|m: int| 0 <= m < order@.len() && order@[m].1 == j;
                if m < n {
                    assert(r@[m].index == j);
                } else {
                    assert forall|q: int| 0 <= q < r@.len() implies audit_before(events@, r@[q].index as int, j) by {
                        assert(audit_before(events@, order@[q].1 as int, order@[m].1 as int));
                    }
                }
            }
        }
        r
    }
}

} // verus!
