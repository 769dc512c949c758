use chronos_services::ops_evidence::{tier_from_summary, ProfileSummary, ProfileTier};

#[test]
fn tier_all_pass_is_cert4() {
    let s = ProfileSummary { pass: 8, warn: 0, fail: 0, total: 8 };
    assert_eq!(tier_from_summary(&s), ProfileTier::Cert4Production);
}

#[test]
fn tier_no_fail_with_warn_is_cert3() {
    let s = ProfileSummary { pass: 6, warn: 2, fail: 0, total: 8 };
    assert_eq!(tier_from_summary(&s), ProfileTier::Cert3Certified);
}

#[test]
fn tier_one_fail_is_cert2() {
    let s = ProfileSummary { pass: 5, warn: 2, fail: 1, total: 8 };
    assert_eq!(tier_from_summary(&s), ProfileTier::Cert2Partial);
}

#[test]
fn tier_two_fail_is_cert2() {
    let s = ProfileSummary { pass: 4, warn: 2, fail: 2, total: 8 };
    assert_eq!(tier_from_summary(&s), ProfileTier::Cert2Partial);
}

#[test]
fn tier_three_fail_is_cert1() {
    let s = ProfileSummary { pass: 3, warn: 2, fail: 3, total: 8 };
    assert_eq!(tier_from_summary(&s), ProfileTier::Cert1Stub);
}

#[test]
fn tier_labels_match_ops2() {
    assert_eq!(ProfileTier::Cert1Stub.label(), "cert-1-stub");
    assert_eq!(ProfileTier::Cert2Partial.label(), "cert-2-partial");
    assert_eq!(ProfileTier::Cert3Certified.label(), "cert-3-certified");
    assert_eq!(ProfileTier::Cert4Production.label(), "cert-4-production");
}

#[test]
fn more_failures_never_raise_the_tier() {
    let rank = |t: ProfileTier| match t {
        ProfileTier::Cert1Stub => 1,
        ProfileTier::Cert2Partial => 2,
        ProfileTier::Cert3Certified => 3,
        ProfileTier::Cert4Production => 4,
    };
    let mut last = 5;
    for fail in 0..6usize {
        let s = ProfileSummary { pass: 2, warn: 1, fail, total: 3 + fail };
        let r = rank(tier_from_summary(&s));
        assert!(r <= last);
        last = r;
    }
}
