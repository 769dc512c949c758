use chronos_services::language_capabilities::{CertificationTier, Language};
use chronos_services::language_fixtures::{
    audit_default_matrix_with_all_missing, audit_default_matrix_with_all_present,
    effective_tier, effective_tier_for, expected_fixture_status, FixtureRequirement, FixtureStatus,
};

#[test]
fn cert1_has_no_requirement_regardless_of_fixture() {
    assert_eq!(
        effective_tier(CertificationTier::Cert1Stub, FixtureStatus::Missing),
        (CertificationTier::Cert1Stub, None)
    );
    assert_eq!(
        effective_tier(CertificationTier::Cert1Stub, FixtureStatus::Present),
        (CertificationTier::Cert1Stub, None)
    );
}

#[test]
fn cert2_holds_even_with_missing_fixture() {
    let (tier, reason) = effective_tier(CertificationTier::Cert2Partial, FixtureStatus::Missing);
    assert_eq!(tier, CertificationTier::Cert2Partial);
    assert!(reason.is_none());
}

#[test]
fn cert3_missing_fixture_downgrades_to_cert2_with_reason() {
    let (tier, reason) = effective_tier(CertificationTier::Cert3Certified, FixtureStatus::Missing);
    assert_eq!(tier, CertificationTier::Cert2Partial);
    assert!(reason.is_some());
    assert!(reason.unwrap().contains("cert-3"));
}

#[test]
fn cert3_present_fixture_holds() {
    let (tier, reason) = effective_tier(CertificationTier::Cert3Certified, FixtureStatus::Present);
    assert_eq!(tier, CertificationTier::Cert3Certified);
    assert!(reason.is_none());
}

#[test]
fn cert4_missing_fixture_downgrades_to_cert3() {
    let (tier, reason) = effective_tier(CertificationTier::Cert4Production, FixtureStatus::Missing);
    assert_eq!(tier, CertificationTier::Cert3Certified);
    assert!(reason.is_some());
    assert!(reason.unwrap().contains("cert-4"));
}

#[test]
fn audit_optimistic_zero_downgrades() {
    let report = audit_default_matrix_with_all_present();
    assert_eq!(report.downgrade_count, 0, "all present = zero downgrades");
    assert_eq!(report.audits.len(), 14);
}

#[test]
fn audit_pessimistic_downgrades_all_cert3_and_above() {
    let report = audit_default_matrix_with_all_missing();
    assert_eq!(
        report.downgrade_count, 13,
        "all missing = 13 downgrades (one per declared CERT-3 entry; Unknown is CERT-1 and does not downgrade)"
    );
    for audit in &report.audits {
        if audit.language == "Unknown" {
            assert_eq!(audit.declared_tier, CertificationTier::Cert1Stub);
            assert!(audit.downgrade_reason.is_none());
        } else {
            assert_eq!(audit.declared_tier, CertificationTier::Cert2Partial);
            assert!(audit.downgrade_reason.is_some());
        }
    }
}

#[test]
fn summary_counts_declared_tiers_and_fixture_statuses() {
    let report = audit_default_matrix_with_all_present();
    assert!(report.summary.by_declared_tier.contains_key("CERT-3 (certified)"));
    assert!(report.summary.by_fixture_status.contains_key("Present"));
}

#[test]
fn effective_tier_for_unknown_language_returns_cert1() {
    let (tier, reason) = effective_tier_for(Language::Unknown, FixtureStatus::Missing);
    assert_eq!(tier, CertificationTier::Cert1Stub);
    assert!(reason.is_none());
}

#[test]
fn stale_fixture_downgrades_like_missing() {
    let (tier, reason) = effective_tier(CertificationTier::Cert3Certified, FixtureStatus::Stale);
    assert_eq!(tier, CertificationTier::Cert2Partial);
    assert!(reason.unwrap().contains("stale"));
}

#[test]
fn fixture_requirement_by_tier() {
    assert_eq!(expected_fixture_status(CertificationTier::Cert1Stub), FixtureRequirement::NotRequired);
    assert_eq!(expected_fixture_status(CertificationTier::Cert2Partial), FixtureRequirement::Optional);
    assert_eq!(expected_fixture_status(CertificationTier::Cert4Production), FixtureRequirement::Required);
}

#[test]
fn summary_counts_are_exact() {
    let report = audit_default_matrix_with_all_missing();
    assert_eq!(report.summary.by_declared_tier.get("CERT-3 (certified)"), Some(&13));
    assert_eq!(report.summary.by_declared_tier.get("CERT-1 (stub)"), Some(&1));
    assert_eq!(report.summary.by_fixture_status.get("Missing"), Some(&14));
}

#[test]
fn default_audit_summaries_count_every_row_once() {
    let present = audit_default_matrix_with_all_present();
    assert_eq!(present.summary.by_fixture_status.len(), 1);
    assert_eq!(present.summary.by_fixture_status.get("Present"), Some(&14));
    assert_eq!(present.summary.by_declared_tier.len(), 2);
    assert_eq!(present.summary.by_declared_tier.get("CERT-3 (certified)"), Some(&13));
    let missing = audit_default_matrix_with_all_missing();
    assert_eq!(missing.summary.by_fixture_status.len(), 1);
    assert_eq!(missing.summary.by_declared_tier.get("CERT-1 (stub)"), Some(&1));
}
