//! Capability matrix: the certification tier of each language adapter, and
//! the honest default (stub) for anything not listed.

use vstd::prelude::*;

verus! {

/// Languages an adapter can target.
#[derive(Debug, Clone, Copy, PartialEq, Eq, Hash, Structural)]
pub enum Language {
    Rust,
    C,
    Cpp,
    Native,
    Python,
    Java,
    Kotlin,
    Scala,
    CSharp,
    JavaScript,
    WebAssembly,
    Go,
    Ebpf,
    Unknown,
}

/// Certification tier of an adapter.
#[derive(Debug, Clone, Copy, PartialEq, Eq, Structural)]
pub enum CertificationTier {
    /// Compiles but does not execute. Placeholder.
    Cert1Stub,
    /// Executes the happy path against a minimal fixture.
    Cert2Partial,
    /// Happy path + sandbox tests + acceptance pass.
    Cert3Certified,
    /// Certified + perf budget met + security review passed.
    Cert4Production,
}

/// Numeric level of a tier (1 = stub .. 4 = production).
pub open spec fn tier_level(t: CertificationTier) -> nat {
    match t {
        CertificationTier::Cert1Stub => 1,
        CertificationTier::Cert2Partial => 2,
        CertificationTier::Cert3Certified => 3,
        CertificationTier::Cert4Production => 4,
    }
}

pub open spec fn tier_label_spec(t: CertificationTier) -> Seq<char> {
    match t {
        CertificationTier::Cert1Stub => "CERT-1 (stub)"@,
        CertificationTier::Cert2Partial => "CERT-2 (partial)"@,
        CertificationTier::Cert3Certified => "CERT-3 (certified)"@,
        CertificationTier::Cert4Production => "CERT-4 (production)"@,
    }
}

impl CertificationTier {
    /// Human-readable label for diagnostics / docs.
    pub fn label(&self) -> (r: &'static str)
        ensures
            r@ == tier_label_spec(*self),
    {
        match self {
            CertificationTier::Cert1Stub => "CERT-1 (stub)",
            CertificationTier::Cert2Partial => "CERT-2 (partial)",
            CertificationTier::Cert3Certified => "CERT-3 (certified)",
            CertificationTier::Cert4Production => "CERT-4 (production)",
        }
    }

    /// Default tier for adapters not in the capability matrix: stub.
    pub fn default_for_unknown() -> (t: Self)
        ensures
            t == CertificationTier::Cert1Stub,
    {
        CertificationTier::Cert1Stub
    }
}

/// One row of the capability matrix.
#[derive(Debug, Clone)]
pub struct CapabilityMatrixEntry {
    pub language: Language,
    pub tier: CertificationTier,
    /// Crate that owns this adapter.
    pub adapter_crate: Option<String>,
    /// LoC of the adapter crate (informational).
    pub adapter_loc: Option<u32>,
    /// Number of unit tests in the adapter crate (informational).
    pub adapter_unit_tests: Option<u32>,
}

/// Plain model of a matrix row.
pub struct MatrixRow {
    pub language: Language,
    pub tier: CertificationTier,
    pub adapter_crate: Option<Seq<char>>,
    pub adapter_loc: Option<u32>,
    pub adapter_unit_tests: Option<u32>,
}

pub open spec fn row(
    language: Language,
    tier: CertificationTier,
    adapter_crate: Option<Seq<char>>,
    loc: Option<u32>,
    tests: Option<u32>,
) -> MatrixRow {
    MatrixRow { language, tier, adapter_crate, adapter_loc: loc, adapter_unit_tests: tests }
}

pub open spec fn opt_str_view(o: Option<String>) -> Option<Seq<char>> {
    match o {
        Some(s) => Some(s@),
        None => None,
    }
}

/// The plain model of an entry.
pub open spec fn entry_model(e: CapabilityMatrixEntry) -> MatrixRow {
    MatrixRow {
        language: e.language,
        tier: e.tier,
        adapter_crate: opt_str_view(e.adapter_crate),
        adapter_loc: e.adapter_loc,
        adapter_unit_tests: e.adapter_unit_tests,
    }
}

/// The canonical capability matrix, in declared order.
pub open spec fn default_matrix_spec() -> Seq<MatrixRow> {
    let c3 = CertificationTier::Cert3Certified;
    seq![
        row(Language::Rust, c3, Some("chronos-native"@), Some(7086), Some(87)),
        row(Language::C, c3, Some("chronos-native"@), Some(7086), Some(87)),
        row(Language::Cpp, c3, Some("chronos-native"@), Some(7086), Some(87)),
        row(Language::Native, c3, Some("chronos-native"@), Some(7086), Some(87)),
        row(Language::Python, c3, Some("chronos-python"@), Some(1653), Some(27)),
        row(Language::Java, c3, Some("chronos-java"@), Some(2562), Some(44)),
        row(Language::Kotlin, c3, Some("chronos-java"@), Some(2562), Some(44)),
        row(Language::Scala, c3, Some("chronos-java"@), Some(2562), Some(44)),
        row(Language::CSharp, c3, Some("chronos-java"@), Some(2562), Some(44)),
        row(Language::JavaScript, c3, Some("chronos-js"@), Some(1683), Some(12)),
        row(Language::WebAssembly, c3, Some("chronos-browser"@), Some(3133), Some(45)),
        row(Language::Go, c3, Some("chronos-go"@), Some(1703), Some(24)),
        row(Language::Ebpf, c3, Some("chronos-ebpf"@), Some(2034), Some(35)),
        row(Language::Unknown, CertificationTier::Cert1Stub, None, None, None),
    ]
}

/// Build the canonical capability matrix.
pub fn default_capability_matrix() -> (m: Vec<CapabilityMatrixEntry>)
    ensures
        m@.len() == default_matrix_spec().len(),
        forall|i: int| 0 <= i < m@.len() ==> #[trigger] entry_model(m@[i]) == default_matrix_spec()[i],
{
    let c3 = CertificationTier::Cert3Certified;
    let mut m: Vec<CapabilityMatrixEntry> = Vec::new();
    m.push(entry(Language::Rust, c3, Some("chronos-native"), Some(7086), Some(87)));
    m.push(entry(Language::C, c3, Some("chronos-native"), Some(7086), Some(87)));
    m.push(entry(Language::Cpp, c3, Some("chronos-native"), Some(7086), Some(87)));
    m.push(entry(Language::Native, c3, Some("chronos-native"), Some(7086), Some(87)));
    m.push(entry(Language::Python, c3, Some("chronos-python"), Some(1653), Some(27)));
    m.push(entry(Language::Java, c3, Some("chronos-java"), Some(2562), Some(44)));
    m.push(entry(Language::Kotlin, c3, Some("chronos-java"), Some(2562), Some(44)));
    m.push(entry(Language::Scala, c3, Some("chronos-java"), Some(2562), Some(44)));
    m.push(entry(Language::CSharp, c3, Some("chronos-java"), Some(2562), Some(44)));
    m.push(entry(Language::JavaScript, c3, Some("chronos-js"), Some(1683), Some(12)));
    m.push(entry(Language::WebAssembly, c3, Some("chronos-browser"), Some(3133), Some(45)));
    m.push(entry(Language::Go, c3, Some("chronos-go"), Some(1703), Some(24)));
    m.push(entry(Language::Ebpf, c3, Some("chronos-ebpf"), Some(2034), Some(35)));
    m.push(entry(Language::Unknown, CertificationTier::Cert1Stub, None, None, None));
    assert forall|i: int| 0 <= i < m@.len() implies #[trigger] entry_model(m@[i]) == default_matrix_spec()[i] by {
        assert(entry_model(m@[i]) == default_matrix_spec()[i]);
    }
    m
}

/// The tier the canonical matrix declares for `l`: the tier of its first
/// row for `l`, or the stub default when there is none.
pub open spec fn declared_tier_from(rows: Seq<MatrixRow>, l: Language) -> CertificationTier
    decreases rows.len(),
{
    if rows.len() == 0 {
        CertificationTier::Cert1Stub
    } else if rows[0].language == l {
        rows[0].tier
    } else {
        declared_tier_from(rows.drop_first(), l)
    }
}

/// Tier of a language per the canonical matrix.
pub open spec fn tier_for_spec(l: Language) -> CertificationTier {
    declared_tier_from(default_matrix_spec(), l)
}

/// Lookup helper: the certification tier the canonical matrix gives a
/// language (unknown languages default to the stub tier).
pub fn tier_for(language: Language) -> (t: CertificationTier)
    ensures
        t == tier_for_spec(language),
        t == (if language == Language::Unknown {
            CertificationTier::Cert1Stub
        } else {
            CertificationTier::Cert3Certified
        }),
{
    let m = default_capability_matrix();
    let ghost rows = default_matrix_spec();
    let mut i: usize = 0;
    proof {
        reveal_with_fuel(declared_tier_from, 15);
        assert(rows.skip(0) =~= rows);
    }
    while i < m.len()
        invariant
            0 <= i <= m@.len(),
            m@.len() == rows.len(),
            rows == default_matrix_spec(),
            forall|j: int| 0 <= j < m@.len() ==> #[trigger] entry_model(m@[j]) == rows[j],
            declared_tier_from(rows.skip(i as int), language) == declared_tier_from(rows, language),
        decreases m@.len() - i,
    {
        assert(entry_model(m@[i as int]) == rows[i as int]);
        assert(rows.skip(i as int)[0] == rows[i as int]);
        if m[i].language == language {
            return m[i].tier;
        }
        assert(rows.skip(i as int).drop_first() =~= rows.skip(i + 1));
        i += 1;
    }
    assert(rows.skip(i as int).len() == 0);
    CertificationTier::default_for_unknown()
}

/// Build an entry.
fn entry(
    language: Language,
    tier: CertificationTier,
    adapter_crate: Option<&str>,
    loc: Option<u32>,
    unit_tests: Option<u32>,
) -> (e: CapabilityMatrixEntry)
    ensures
        e.language == language,
        e.tier == tier,
        e.adapter_loc == loc,
        e.adapter_unit_tests == unit_tests,
        opt_str_view(e.adapter_crate) == (match adapter_crate {
            Some(s) => Some(s@),
            None => None,
        }),
{
    let krate = match adapter_crate {
        Some(s) => Some(s.to_owned()),
        None => None,
    };
    CapabilityMatrixEntry { language, tier, adapter_crate: krate, adapter_loc: loc, adapter_unit_tests: unit_tests }
}

/// Every row of the canonical matrix that names an adapter crate declares
/// at least the certified tier, and the row without one is the stub.
pub proof fn law_matrix_adapters_certified()
    ensures
        forall|i: int|
            0 <= i < default_matrix_spec().len() ==> (#[trigger] default_matrix_spec()[i]).adapter_crate is Some
                ==> tier_level(default_matrix_spec()[i].tier) >= 3,
        forall|i: int|
            0 <= i < default_matrix_spec().len() ==> (#[trigger] default_matrix_spec()[i]).adapter_crate is None
                ==> default_matrix_spec()[i].tier == CertificationTier::Cert1Stub,
{
}

} // verus!
