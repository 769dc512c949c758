//! The parts of the specialized trace diagnostics that do not need a query
//! engine: how many lineage entries are kept, the notes for an empty
//! lineage or a missing crash, and the race triage summary.

use vstd::prelude::*;
use crate::text::{dec, dec_string, push_str};

verus! {

/// Stateless holder of the specialized trace diagnostics.
pub struct DebugTraceSpecializedService;

pub open spec fn no_races_text() -> Seq<char> {
    "No suspicious concurrent accesses found within the threshold"@
}

pub open spec fn races_text(accesses: nat, addresses: nat) -> Seq<char> {
    "Found "@ + dec(accesses) + " suspicious concurrent accesses across "@ + dec(addresses) + " addresses"@
}

pub open spec fn no_variable_writes_text() -> Seq<char> {
    "No causality index or no writes to this variable found"@
}

pub open spec fn no_address_writes_text() -> Seq<char> {
    "No causality index or no writes to this address found"@
}

pub open spec fn no_crash_text() -> Seq<char> {
    "No fatal signal found in the trace"@
}

/// A function as a performance profile lists it.
#[derive(Debug, Clone, PartialEq, Eq)]
pub struct PerfEntry {
    pub name: Option<String>,
    pub total_cycles: u64,
    pub call_count: u64,
}

/// What one saliency score is made of: the function, its share's
/// numerator (cycles from a profile, else calls), its calls, and its cycles
/// when a profile gave them.
#[derive(Debug, Clone, PartialEq, Eq)]
pub struct SaliencyBasis {
    pub function: String,
    pub part: u64,
    pub call_count: u64,
    pub total_cycles: Option<u64>,
}

/// The scores to compute: one basis per reported function, and the total
/// that every share divides by.
#[derive(Debug, Clone, PartialEq, Eq)]
pub struct SaliencyPlan {
    pub entries: Vec<SaliencyBasis>,
    pub total: u64,
}

pub open spec fn cycles_total(es: Seq<PerfEntry>) -> nat
    decreases es.len(),
{
    if es.len() == 0 {
        0
    } else {
        cycles_total(es.drop_last()) + es.last().total_cycles as nat
    }
}

pub open spec fn calls_total(fs: Seq<(String, u64)>) -> nat
    decreases fs.len(),
{
    if fs.len() == 0 {
        0
    } else {
        calls_total(fs.drop_last()) + fs.last().1 as nat
    }
}

pub open spec fn min_len(limit: usize, n: nat) -> nat {
    if (limit as nat) < n { limit as nat } else { n }
}

pub open spec fn perf_name(e: PerfEntry) -> Seq<char> {
    match e.name {
        Some(n) => n@,
        None => "<unknown>"@,
    }
}

proof fn lemma_cycles_total_prefix(es: Seq<PerfEntry>, i: int)
    requires
        0 <= i < es.len(),
    ensures
        cycles_total(es.subrange(0, i + 1)) == cycles_total(es.subrange(0, i)) + es[i].total_cycles,
        cycles_total(es.subrange(0, i + 1)) <= cycles_total(es),
    decreases es.len() - i,
{
    assert(es.subrange(0, i + 1).drop_last() =~= es.subrange(0, i));
    if i + 1 < es.len() {
        lemma_cycles_total_prefix(es, i + 1);
    } else {
        assert(es.subrange(0, i + 1) =~= es);
    }
}

proof fn lemma_calls_total_prefix(fs: Seq<(String, u64)>, i: int)
    requires
        0 <= i < fs.len(),
    ensures
        calls_total(fs.subrange(0, i + 1)) == calls_total(fs.subrange(0, i)) + fs[i].1,
        calls_total(fs.subrange(0, i + 1)) <= calls_total(fs),
    decreases fs.len() - i,
{
    assert(fs.subrange(0, i + 1).drop_last() =~= fs.subrange(0, i));
    if i + 1 < fs.len() {
        lemma_calls_total_prefix(fs, i + 1);
    } else {
        assert(fs.subrange(0, i + 1) =~= fs);
    }
}

fn total_cycles_of(es: &Vec<PerfEntry>) -> (t: u64)
    requires
        cycles_total(es@) <= u64::MAX,
    ensures
        t == cycles_total(es@),
{
    let mut t: u64 = 0;
    let mut i: usize = 0;
    while i < es.len()
        invariant
            0 <= i <= es@.len(),
            cycles_total(es@) <= u64::MAX,
            t == cycles_total(es@.subrange(0, i as int)),
        decreases es@.len() - i,
    {
        proof {
            lemma_cycles_total_prefix(es@, i as int);
        }
        t = t + es[i].total_cycles;
        i += 1;
    }
    assert(es@.subrange(0, es@.len() as int) =~= es@);
    t
}

fn total_calls_of(fs: &Vec<(String, u64)>) -> (t: u64)
    requires
        calls_total(fs@) <= u64::MAX,
    ensures
        t == calls_total(fs@),
{
    let mut t: u64 = 0;
    let mut i: usize = 0;
    while i < fs.len()
        invariant
            0 <= i <= fs@.len(),
            calls_total(fs@) <= u64::MAX,
            t == calls_total(fs@.subrange(0, i as int)),
        decreases fs@.len() - i,
    {
        proof {
            lemma_calls_total_prefix(fs@, i as int);
        }
        t = t + fs[i].1;
        i += 1;
    }
    assert(fs@.subrange(0, fs@.len() as int) =~= fs@);
    t
}

impl DebugTraceSpecializedService {
    /// The triage summary of a race check that found `access_count`
    /// suspicious accesses over `addresses_checked` written addresses.
    pub fn race_summary(access_count: usize, addresses_checked: usize) -> (s: String)
        ensures
            access_count == 0 ==> s@ == no_races_text(),
            access_count > 0 ==> s@ == races_text(access_count as nat, addresses_checked as nat),
    {
        if access_count == 0 {
            return "No suspicious concurrent accesses found within the threshold".to_owned();
        }
        let mut s = "Found ".to_owned();
        let a = dec_string(access_count as u64);
        push_str(&mut s, a.as_str());
        push_str(&mut s, " suspicious concurrent accesses across ");
        let b = dec_string(addresses_checked as u64);
        push_str(&mut s, b.as_str());
        push_str(&mut s, " addresses");
        s
    }

    /// What the saliency scores are computed from. With a performance
    /// profile: its first `limit` functions, by cycles over the profile's
    /// total cycles, a nameless entry reported as `<unknown>`. Without one:
    /// the summary's first `limit` top functions, by calls over their total
    /// calls. The totals are taken over every listed function.
    pub fn saliency_plan(perf: Option<&Vec<PerfEntry>>, top_functions: &Vec<(String, u64)>, limit: usize) -> (r:
        SaliencyPlan)
        requires
            perf matches Some(es) ==> cycles_total(es@) <= u64::MAX,
            perf is None ==> calls_total(top_functions@) <= u64::MAX,
        ensures
            perf matches Some(es) ==> {
                &&& r.total == cycles_total(es@)
                &&& r.entries@.len() == min_len(limit, es@.len())
                &&& forall|i: int| 0 <= i < r.entries@.len() ==> {
                    &&& (#[trigger] r.entries@[i]).function@ == perf_name(es@[i])
                    &&& r.entries@[i].part == es@[i].total_cycles
                    &&& r.entries@[i].call_count == es@[i].call_count
                    &&& r.entries@[i].total_cycles == Some(es@[i].total_cycles)
                }
            },
            perf is None ==> {
                &&& r.total == calls_total(top_functions@)
                &&& r.entries@.len() == min_len(limit, top_functions@.len())
                &&& forall|i: int| 0 <= i < r.entries@.len() ==> {
                    &&& (#[trigger] r.entries@[i]).function@ == top_functions@[i].0@
                    &&& r.entries@[i].part == top_functions@[i].1
                    &&& r.entries@[i].call_count == top_functions@[i].1
                    &&& r.entries@[i].total_cycles is None
                }
            },
    {
        let mut entries: Vec<SaliencyBasis> = Vec::new();
        match perf {
            Some(es) => {
                let total = total_cycles_of(es);
                let mut i: usize = 0;
                while i < es.len() && i < limit
                    invariant
                        0 <= i <= es@.len(),
                        i <= limit,
                        entries@.len() == i,
                        forall|k: int| 0 <= k < i ==> {
                            &&& (#[trigger] entries@[k]).function@ == perf_name(es@[k])
                            &&& entries@[k].part == es@[k].total_cycles
                            &&& entries@[k].call_count == es@[k].call_count
                            &&& entries@[k].total_cycles == Some(es@[k].total_cycles)
                        },
                    decreases es@.len() - i,
                {
                    let e = &es[i];
                    let function = match &e.name {
                        Some(n) => n.clone(),
                        None => {
                            proof {
                                reveal_strlit("<unknown>");
                            }
                            "<unknown>".to_owned()
                        },
                    };
                    entries.push(
                        SaliencyBasis {
                            function,
                            part: e.total_cycles,
                            call_count: e.call_count,
                            total_cycles: Some(e.total_cycles),
                        },
                    );
                    i += 1;
                }
                SaliencyPlan { entries, total }
            },
            None => {
                let total = total_calls_of(top_functions);
                let mut i: usize = 0;
                while i < top_functions.len() && i < limit
                    invariant
                        0 <= i <= top_functions@.len(),
                        i <= limit,
                        entries@.len() == i,
                        forall|k: int| 0 <= k < i ==> {
                            &&& (#[trigger] entries@[k]).function@ == top_functions@[k].0@
                            &&& entries@[k].part == top_functions@[k].1
                            &&& entries@[k].call_count == top_functions@[k].1
                            &&& entries@[k].total_cycles is None
                        },
                    decreases top_functions@.len() - i,
                {
                    let f = &top_functions[i];
                    entries.push(
                        SaliencyBasis { function: f.0.clone(), part: f.1, call_count: f.1, total_cycles: None },
                    );
                    i += 1;
                }
                SaliencyPlan { entries, total }
            },
        }
    }

    /// The first `limit` entries of a lineage, in order.
    pub fn keep_first<T>(entries: Vec<T>, limit: usize) -> (r: Vec<T>)
        ensures
            limit < entries@.len() ==> r@ == entries@.subrange(0, limit as int),
            limit >= entries@.len() ==> r@ == entries@,
    {
        let mut r = entries;
        r.truncate(limit);
        r
    }

    /// The note of a lineage lookup: none when writes were found, and
    /// otherwise what was looked for and not found.
    pub fn lineage_note(found: bool, by_address: bool) -> (n: Option<String>)
        ensures
            found ==> n is None,
            !found && by_address ==> (n matches Some(t) && t@ == no_address_writes_text()),
            !found && !by_address ==> (n matches Some(t) && t@ == no_variable_writes_text()),
    {
        if found {
            None
        } else if by_address {
            Some("No causality index or no writes to this address found".to_owned())
        } else {
            Some("No causality index or no writes to this variable found".to_owned())
        }
    }

    /// The note of a crash search: none when a fatal signal was found.
    pub fn crash_note(found: bool) -> (n: Option<String>)
        ensures
            found ==> n is None,
            !found ==> (n matches Some(t) && t@ == no_crash_text()),
    {
        if found {
            None
        } else {
            Some("No fatal signal found in the trace".to_owned())
        }
    }
}

} // verus!
