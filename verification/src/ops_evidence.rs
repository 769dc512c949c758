//! Typed view of the per-profile operations evidence aggregate and the
//! tier rule derived from a profile summary.

use vstd::prelude::*;
use std::collections::BTreeMap;

verus! {

/// Per-check, per-profile status as written to the evidence files.
#[derive(Debug, Clone, Copy, PartialEq, Eq, Structural)]
pub enum EvidenceStatus {
    Pass,
    Warn,
    Fail,
}

/// Per-profile summary entry within the aggregate.
#[derive(Debug, Clone, PartialEq, Eq, Structural)]
pub struct ProfileSummary {
    pub pass: usize,
    pub warn: usize,
    pub fail: usize,
    pub total: usize,
}

/// Tier per profile, derived from the per-profile summary.
#[derive(Debug, Clone, Copy, PartialEq, Eq, Structural)]
pub enum ProfileTier {
    Cert1Stub,
    Cert2Partial,
    Cert3Certified,
    Cert4Production,
}

/// The tier rule: no fail and no warn gives production; no fail with warns
/// gives certified; one or two fails give partial; three or more give stub.
pub open spec fn tier_from_summary_spec(fail: nat, warn: nat) -> ProfileTier {
    if fail == 0 && warn == 0 {
        ProfileTier::Cert4Production
    } else if fail == 0 {
        ProfileTier::Cert3Certified
    } else if fail <= 2 {
        ProfileTier::Cert2Partial
    } else {
        ProfileTier::Cert1Stub
    }
}

/// Compute the tier from a profile summary (same input, same output).
pub fn tier_from_summary(summary: &ProfileSummary) -> (t: ProfileTier)
    ensures
        t == tier_from_summary_spec(summary.fail as nat, summary.warn as nat),
{
    if summary.fail == 0 && summary.warn == 0 {
        ProfileTier::Cert4Production
    } else if summary.fail == 0 {
        ProfileTier::Cert3Certified
    } else if summary.fail <= 2 {
        ProfileTier::Cert2Partial
    } else {
        ProfileTier::Cert1Stub
    }
}

pub open spec fn profile_tier_label_spec(t: ProfileTier) -> Seq<char> {
    match t {
        ProfileTier::Cert1Stub => "cert-1-stub"@,
        ProfileTier::Cert2Partial => "cert-2-partial"@,
        ProfileTier::Cert3Certified => "cert-3-certified"@,
        ProfileTier::Cert4Production => "cert-4-production"@,
    }
}

/// Rank of a tier (higher is better).
pub open spec fn profile_tier_rank(t: ProfileTier) -> nat {
    match t {
        ProfileTier::Cert1Stub => 1,
        ProfileTier::Cert2Partial => 2,
        ProfileTier::Cert3Certified => 3,
        ProfileTier::Cert4Production => 4,
    }
}

impl ProfileTier {
    /// Label used in the serialized aggregate.
    pub fn label(&self) -> (r: &'static str)
        ensures
            r@ == profile_tier_label_spec(*self),
    {
        match self {
            ProfileTier::Cert1Stub => "cert-1-stub",
            ProfileTier::Cert2Partial => "cert-2-partial",
            ProfileTier::Cert3Certified => "cert-3-certified",
            ProfileTier::Cert4Production => "cert-4-production",
        }
    }
}

/// Aggregate report schema.
#[derive(Debug, Clone)]
pub struct OpsAggregateReport {
    pub schema_version: u32,
    /// Check id -> profile -> per-check summary.
    pub per_check: BTreeMap<String, BTreeMap<String, CheckSummary>>,
    /// Profile -> overall summary (counts).
    pub per_profile: BTreeMap<String, ProfileSummary>,
    /// Profile -> overall tier (derived).
    pub tier_per_profile: BTreeMap<String, ProfileTier>,
    /// Source count.
    pub source_count: usize,
    /// Wall-clock timestamp when aggregate was generated.
    pub generated_at_unix_seconds: i64,
}

/// Per-check summary (one profile's status + counts).
#[derive(Debug, Clone, PartialEq, Eq, Structural)]
pub struct CheckSummary {
    pub status: EvidenceStatus,
    pub gaps_count: usize,
    pub evidence_count: usize,
}

/// More failures never give a better tier: the tier rule is monotone
/// (non-increasing) in the failure count, and warnings only matter when
/// there is no failure.
pub proof fn law_tier_monotone_in_failures(fail1: nat, fail2: nat, warn: nat)
    requires
        fail1 <= fail2,
    ensures
        profile_tier_rank(tier_from_summary_spec(fail2, warn)) <= profile_tier_rank(
            tier_from_summary_spec(fail1, warn),
        ),
        fail1 > 0 ==> tier_from_summary_spec(fail1, warn) == tier_from_summary_spec(fail1, 0),
{
}

/// The tier rules of a profile summary, for every summary: no failures and
/// no warnings is production; no failures but some warnings is certified,
/// whatever the number of warnings; one or two failures is partial, and
/// three or more is a stub, whatever the warnings. `tier_from_summary`
/// answers `tier_from_summary_spec` of the summary's counts.
pub proof fn law_tier_rules(s: ProfileSummary, other_warn: usize)
    ensures
        s.fail == 0 && s.warn == 0 ==> tier_from_summary_spec(s.fail as nat, s.warn as nat)
            == ProfileTier::Cert4Production,
        s.fail == 0 && s.warn > 0 ==> tier_from_summary_spec(s.fail as nat, s.warn as nat)
            == ProfileTier::Cert3Certified,
        1 <= s.fail <= 2 ==> tier_from_summary_spec(s.fail as nat, s.warn as nat) == ProfileTier::Cert2Partial,
        s.fail >= 3 ==> tier_from_summary_spec(s.fail as nat, s.warn as nat) == ProfileTier::Cert1Stub,
        s.warn > 0 && other_warn > 0 ==> tier_from_summary_spec(s.fail as nat, s.warn as nat)
            == tier_from_summary_spec(s.fail as nat, other_warn as nat),
{
}

} // verus!
