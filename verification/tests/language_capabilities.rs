use chronos_services::language_capabilities::{
    default_capability_matrix, tier_for, CertificationTier, Language,
};

#[test]
fn tier_labels_are_distinct() {
    let labels = [
        CertificationTier::Cert1Stub.label(),
        CertificationTier::Cert2Partial.label(),
        CertificationTier::Cert3Certified.label(),
        CertificationTier::Cert4Production.label(),
    ];
    let unique: std::collections::HashSet<_> = labels.iter().collect();
    assert_eq!(unique.len(), 4, "tier labels must be distinct");
}

#[test]
fn default_for_unknown_is_cert1() {
    assert_eq!(
        CertificationTier::default_for_unknown(),
        CertificationTier::Cert1Stub,
        "unknown adapters default to CERT-1 per ADR-0004 + ROADMAP §M11"
    );
}

#[test]
fn matrix_contains_all_advertised_adapters() {
    let matrix = default_capability_matrix();
    let advertised = [
        Language::Rust,
        Language::Python,
        Language::Java,
        Language::JavaScript,
        Language::Go,
        Language::Ebpf,
        Language::WebAssembly,
        Language::Unknown,
    ];
    for lang in advertised {
        assert!(
            matrix.iter().any(|e| e.language == lang),
            "matrix missing entry for {:?}",
            lang
        );
    }
}

fn level(t: CertificationTier) -> u8 {
    match t {
        CertificationTier::Cert1Stub => 1,
        CertificationTier::Cert2Partial => 2,
        CertificationTier::Cert3Certified => 3,
        CertificationTier::Cert4Production => 4,
    }
}

#[test]
fn matrix_adapters_are_cert3_or_higher() {
    for entry in default_capability_matrix() {
        if entry.adapter_crate.is_some() {
            assert!(
                level(entry.tier) >= level(CertificationTier::Cert3Certified),
                "{:?} adapter {} must be CERT-3+",
                entry.language,
                entry.adapter_crate.as_deref().unwrap_or("?")
            );
        }
    }
}

#[test]
fn tier_for_known_languages() {
    assert_eq!(tier_for(Language::Rust), CertificationTier::Cert3Certified);
    assert_eq!(tier_for(Language::Python), CertificationTier::Cert3Certified);
    assert_eq!(tier_for(Language::Go), CertificationTier::Cert3Certified);
}

#[test]
fn tier_for_unknown_default() {
    assert_eq!(tier_for(Language::Unknown), CertificationTier::Cert1Stub);
}

#[test]
fn matrix_has_one_row_per_language_in_declared_order() {
    let matrix = default_capability_matrix();
    assert_eq!(matrix.len(), 14);
    assert_eq!(matrix[0].language, Language::Rust);
    assert_eq!(matrix[13].language, Language::Unknown);
    assert!(matrix[13].adapter_crate.is_none());
    assert_eq!(matrix[13].tier, CertificationTier::Cert1Stub);
}

#[test]
fn tier_label_strings() {
    assert_eq!(CertificationTier::Cert1Stub.label(), "CERT-1 (stub)");
    assert_eq!(CertificationTier::Cert4Production.label(), "CERT-4 (production)");
}
