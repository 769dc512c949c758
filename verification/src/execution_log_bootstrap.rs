//! Bootstrap of durable execution logs, as a plan: for every identity
//! discovery could name, either the validated handle (available) or the
//! reason it could not be reopened (unavailable). Nothing is published
//! while the plan is built.

use vstd::prelude::*;

verus! {

/// One bootstrap outcome; `L` is the validated log handle.
#[derive(Debug, Clone)]
pub enum BootstrapEntry<L> {
    /// The log reopened: the handle that was validated is the one published.
    Available { session_id: String, dir: String, log: L },
    /// The log did not reopen, and why.
    Unavailable { session_id: String, dir: String, reason: String },
}

/// Everything bootstrap concluded, before anything is published.
#[derive(Debug, Clone)]
pub struct BootstrapPlan<L> {
    pub entries: Vec<BootstrapEntry<L>>,
    /// Directories with segments but no usable manifest.
    pub unmanaged: Vec<String>,
    /// Directories whose manifest could not be read, with the reason.
    pub unreadable: Vec<(String, String)>,
    /// Identities claimed by more than one directory: none is published.
    pub duplicates: Vec<(String, Vec<String>)>,
}

/// The outcome of reopening the log of `session_id` found in `dir`.
pub fn plan_entry<L>(session_id: String, dir: String, reopened: Result<L, String>) -> (e: BootstrapEntry<L>)
    ensures
        match reopened {
            Ok(log) => e matches BootstrapEntry::Available { session_id: s, dir: d, log: l } && s == session_id && d
                == dir && l == log,
            Err(reason) => e matches BootstrapEntry::Unavailable { session_id: s, dir: d, reason: r } && s
                == session_id && d == dir && r == reason,
        },
{
    match reopened {
        Ok(log) => BootstrapEntry::Available { session_id, dir, log },
        Err(reason) => BootstrapEntry::Unavailable { session_id, dir, reason },
    }
}

/// Positions of the entries that are (`want_available`) or are not
/// available, in order.
pub open spec fn entry_positions<L>(entries: Seq<BootstrapEntry<L>>, want_available: bool, n: int) -> Seq<int>
    decreases n,
{
    if n <= 0 {
        Seq::empty()
    } else {
        let r = entry_positions(entries, want_available, n - 1);
        if (entries[n - 1] is Available) == want_available {
            r.push(n - 1)
        } else {
            r
        }
    }
}

impl<L> BootstrapPlan<L> {
    fn select(&self, want_available: bool) -> (r: Vec<&BootstrapEntry<L>>)
        ensures
            r@.len() == entry_positions(self.entries@, want_available, self.entries@.len() as int).len(),
            forall|k: int| 0 <= k < r@.len() ==> *r@[k] == self.entries@[entry_positions(
                self.entries@,
                want_available,
                self.entries@.len() as int,
            )[k]],
    {
        let mut r: Vec<&BootstrapEntry<L>> = Vec::new();
        let mut i: usize = 0;
        while i < self.entries.len()
            invariant
                0 <= i <= self.entries@.len(),
                r@.len() == entry_positions(self.entries@, want_available, i as int).len(),
                forall|k: int| 0 <= k < r@.len() ==> *r@[k] == self.entries@[entry_positions(
                    self.entries@,
                    want_available,
                    i as int,
                )[k]],
            decreases self.entries@.len() - i,
        {
            let e = &self.entries[i];
            let is_available = match e {
                BootstrapEntry::Available { .. } => true,
                BootstrapEntry::Unavailable { .. } => false,
            };
            if is_available == want_available {
                r.push(e);
            }
            i += 1;
        }
        r
    }

    /// The available entries, in plan order.
    pub fn available(&self) -> (r: Vec<&BootstrapEntry<L>>)
        ensures
            r@.len() == entry_positions(self.entries@, true, self.entries@.len() as int).len(),
            forall|k: int| 0 <= k < r@.len() ==> *r@[k] == self.entries@[entry_positions(
                self.entries@,
                true,
                self.entries@.len() as int,
            )[k]],
    {
        self.select(true)
    }

    /// The unavailable entries, in plan order.
    pub fn unavailable(&self) -> (r: Vec<&BootstrapEntry<L>>)
        ensures
            r@.len() == entry_positions(self.entries@, false, self.entries@.len() as int).len(),
            forall|k: int| 0 <= k < r@.len() ==> *r@[k] == self.entries@[entry_positions(
                self.entries@,
                false,
                self.entries@.len() as int,
            )[k]],
    {
        self.select(false)
    }
}

} // verus!
