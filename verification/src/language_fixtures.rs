//! Fail-closed audit of the capability matrix against per-adapter fixtures:
//! a tier that needs a fixture is downgraded, with a reason, when the
//! fixture is missing or stale.

use vstd::prelude::*;
use std::collections::BTreeMap;
use crate::language_capabilities::{
    default_capability_matrix, tier_for, tier_for_spec, CapabilityMatrixEntry, CertificationTier,
    Language, tier_label_spec, default_matrix_spec, entry_model, tier_level,
};

verus! {

/// Status of a single fixture relative to its expected adapter.
#[derive(Debug, Clone, Copy, PartialEq, Eq, Structural)]
pub enum FixtureStatus {
    /// Fixture present, content readable, captures expected events.
    Present,
    /// Fixture expected for this tier but absent on disk.
    Missing,
    /// Fixture present but stale or unreadable.
    Stale,
}

impl DeepView for FixtureStatus {
    type V = FixtureStatus;

    open spec fn deep_view(&self) -> FixtureStatus {
        *self
    }
}

/// One row in the per-adapter fixture audit.
#[derive(Debug, Clone)]
pub struct AdapterFixtureAudit {
    pub language: String,
    pub declared_tier: CertificationTier,
    pub fixture_status: FixtureStatus,
    /// `Some(reason)` only if the audit downgraded the tier.
    pub downgrade_reason: Option<String>,
}

/// Result of auditing a capability matrix against per-adapter fixtures.
#[derive(Debug, Clone)]
pub struct FixtureAuditReport {
    /// All entries audited, in declared order.
    pub audits: Vec<AdapterFixtureAudit>,
    /// Number of downgrades triggered by this audit.
    pub downgrade_count: usize,
    /// Counts by declared tier label and by fixture status name.
    pub summary: AuditSummary,
}

#[derive(Debug, Clone)]
pub struct AuditSummary {
    pub by_declared_tier: BTreeMap<String, usize>,
    pub by_fixture_status: BTreeMap<String, usize>,
}

/// What fixture is expected for a tier.
#[derive(Debug, Clone, Copy, PartialEq, Eq, Structural)]
pub enum FixtureRequirement {
    /// A fixture is not required for this tier.
    NotRequired,
    /// A fixture is encouraged but its absence does not downgrade.
    Optional,
    /// A fixture must exist; absence triggers a downgrade.
    Required,
}

pub open spec fn expected_fixture_status_spec(tier: CertificationTier) -> FixtureRequirement {
    match tier {
        CertificationTier::Cert1Stub => FixtureRequirement::NotRequired,
        CertificationTier::Cert2Partial => FixtureRequirement::Optional,
        CertificationTier::Cert3Certified => FixtureRequirement::Required,
        CertificationTier::Cert4Production => FixtureRequirement::Required,
    }
}

/// What fixture status is expected for each tier.
pub fn expected_fixture_status(tier: CertificationTier) -> (r: FixtureRequirement)
    ensures
        r == expected_fixture_status_spec(tier),
{
    match tier {
        CertificationTier::Cert1Stub => FixtureRequirement::NotRequired,
        CertificationTier::Cert2Partial => FixtureRequirement::Optional,
        CertificationTier::Cert3Certified => FixtureRequirement::Required,
        CertificationTier::Cert4Production => FixtureRequirement::Required,
    }
}

/// The fail-closed rule: (effective tier, downgrade reason).
pub open spec fn effective_tier_spec(declared: CertificationTier, fixture: FixtureStatus) -> (
    CertificationTier,
    Option<Seq<char>>,
) {
    match (declared, fixture) {
        (CertificationTier::Cert3Certified, FixtureStatus::Missing) => (
            CertificationTier::Cert2Partial,
            Some("missing cert-3 fixture, downgraded to cert-2"@),
        ),
        (CertificationTier::Cert3Certified, FixtureStatus::Stale) => (
            CertificationTier::Cert2Partial,
            Some("stale cert-3 fixture, downgraded to cert-2"@),
        ),
        (CertificationTier::Cert4Production, FixtureStatus::Missing) => (
            CertificationTier::Cert3Certified,
            Some("missing cert-4 fixture evidence, downgraded to cert-3"@),
        ),
        (CertificationTier::Cert4Production, FixtureStatus::Stale) => (
            CertificationTier::Cert3Certified,
            Some("stale cert-4 fixture evidence, downgraded to cert-3"@),
        ),
        _ => (declared, None),
    }
}

pub open spec fn opt_string_view(o: Option<String>) -> Option<Seq<char>> {
    match o {
        Some(s) => Some(s@),
        None => None,
    }
}

/// Decide the effective tier given the declared tier and the observed
/// fixture status. Pure and deterministic.
pub fn effective_tier(declared: CertificationTier, fixture: FixtureStatus) -> (r: (CertificationTier, Option<String>))
    ensures
        r.0 == effective_tier_spec(declared, fixture).0,
        opt_string_view(r.1) == effective_tier_spec(declared, fixture).1,
{
    match (declared, fixture) {
        (CertificationTier::Cert3Certified, FixtureStatus::Missing) => (
            CertificationTier::Cert2Partial,
            Some("missing cert-3 fixture, downgraded to cert-2".to_owned()),
        ),
        (CertificationTier::Cert3Certified, FixtureStatus::Stale) => (
            CertificationTier::Cert2Partial,
            Some("stale cert-3 fixture, downgraded to cert-2".to_owned()),
        ),
        (CertificationTier::Cert4Production, FixtureStatus::Missing) => (
            CertificationTier::Cert3Certified,
            Some("missing cert-4 fixture evidence, downgraded to cert-3".to_owned()),
        ),
        (CertificationTier::Cert4Production, FixtureStatus::Stale) => (
            CertificationTier::Cert3Certified,
            Some("stale cert-4 fixture evidence, downgraded to cert-3".to_owned()),
        ),
        _ => (declared, None),
    }
}

/// Name of a language as its `Debug` rendering.
pub open spec fn language_label_spec(l: Language) -> Seq<char> {
    match l {
        Language::Rust => "Rust"@,
        Language::C => "C"@,
        Language::Cpp => "Cpp"@,
        Language::Native => "Native"@,
        Language::Python => "Python"@,
        Language::Java => "Java"@,
        Language::Kotlin => "Kotlin"@,
        Language::Scala => "Scala"@,
        Language::CSharp => "CSharp"@,
        Language::JavaScript => "JavaScript"@,
        Language::WebAssembly => "WebAssembly"@,
        Language::Go => "Go"@,
        Language::Ebpf => "Ebpf"@,
        Language::Unknown => "Unknown"@,
    }
}

/// Name of a fixture status as its `Debug` rendering.
pub open spec fn fixture_status_label_spec(s: FixtureStatus) -> Seq<char> {
    match s {
        FixtureStatus::Present => "Present"@,
        FixtureStatus::Missing => "Missing"@,
        FixtureStatus::Stale => "Stale"@,
    }
}

fn language_label(lang: &Language) -> (s: String)
    ensures
        s@ == language_label_spec(*lang),
{
    let r: &str = match lang {
        Language::Rust => "Rust",
        Language::C => "C",
        Language::Cpp => "Cpp",
        Language::Native => "Native",
        Language::Python => "Python",
        Language::Java => "Java",
        Language::Kotlin => "Kotlin",
        Language::Scala => "Scala",
        Language::CSharp => "CSharp",
        Language::JavaScript => "JavaScript",
        Language::WebAssembly => "WebAssembly",
        Language::Go => "Go",
        Language::Ebpf => "Ebpf",
        Language::Unknown => "Unknown",
    };
    r.to_owned()
}

fn fixture_status_label(s: FixtureStatus) -> (r: String)
    ensures
        r@ == fixture_status_label_spec(s),
{
    let t: &str = match s {
        FixtureStatus::Present => "Present",
        FixtureStatus::Missing => "Missing",
        FixtureStatus::Stale => "Stale",
    };
    t.to_owned()
}

/// `BTreeMap::get` on a map keyed by `String`. `String`'s `Ord` compares
/// contents, so the entry found is the one whose key has the same
/// characters as `key`; the contract states that over the maps' deep views.
#[verifier::external_body]
fn map_get<'a, V: DeepView>(map: &'a BTreeMap<String, V>, key: &String) -> (r: Option<&'a V>)
    ensures
        r is Some <==> map.deep_view().dom().contains(key@),
        r matches Some(v) ==> v.deep_view() == map.deep_view()[key@],
{
    map.get(key)
}

/// `BTreeMap::insert` on a map keyed by `String`: afterwards the key's
/// characters map to `value` and every other entry is unchanged.
#[verifier::external_body]
fn map_insert<V: DeepView>(map: &mut BTreeMap<String, V>, key: String, value: V)
    ensures
        final(map).deep_view() == old(map).deep_view().insert(key@, value.deep_view()),
{
    map.insert(key, value);
}

/// An empty map keyed by `String`.
fn map_new<V: DeepView>() -> (m: BTreeMap<String, V>)
    ensures
        m.deep_view() == Map::<Seq<char>, V::V>::empty(),
{
    let m: BTreeMap<String, V> = BTreeMap::new();
    proof {
        vstd::std_specs::btree::lemma_btree_map_deepview_dom(m);
        assert(m.deep_view().dom() =~= Set::<Seq<char>>::empty());
        assert(m.deep_view() =~= Map::<Seq<char>, V::V>::empty());
    }
    m
}

/// Occurrence counts of a sequence of labels.
pub open spec fn label_counts(labels: Seq<Seq<char>>) -> Map<Seq<char>, usize>
    decreases labels.len(),
{
    if labels.len() == 0 {
        Map::empty()
    } else {
        let m = label_counts(labels.drop_last());
        let k = labels.last();
        m.insert(k, if m.dom().contains(k) { (m[k] + 1) as usize } else { 1usize })
    }
}

proof fn lemma_label_counts_bounded(labels: Seq<Seq<char>>)
    ensures
        forall|k: Seq<char>| #[trigger] label_counts(labels).dom().contains(k) ==> label_counts(labels)[k] <= labels.len(),
    decreases labels.len(),
{
    if labels.len() > 0 {
        let d = labels.drop_last();
        lemma_label_counts_bounded(d);
        let m = label_counts(d);
        assert forall|k: Seq<char>| #[trigger] label_counts(labels).dom().contains(k) implies label_counts(labels)[k]
            <= labels.len() by {
            if k != labels.last() {
                assert(m.dom().contains(k));
            }
        }
    }
}

/// Add one occurrence of `key` to a count map.
fn bump(map: &mut BTreeMap<String, usize>, key: String, bound: usize)
    requires
        forall|k: Seq<char>| #[trigger] old(map).deep_view().dom().contains(k) ==> old(map).deep_view()[k] < bound,
    ensures
        final(map).deep_view() == old(map).deep_view().insert(
            key@,
            if old(map).deep_view().dom().contains(key@) {
                (old(map).deep_view()[key@] + 1) as usize
            } else {
                1usize
            },
        ),
{
    let current: usize = match map_get(map, &key) {
        Some(c) => *c,
        None => 0,
    };
    let next: usize = current + 1;
    map_insert(map, key, next);
}

/// The audit row the fail-closed rule gives a matrix entry.
pub open spec fn audit_matches(a: AdapterFixtureAudit, e: CapabilityMatrixEntry, status: FixtureStatus) -> bool {
    &&& a.language@ == language_label_spec(e.language)
    &&& a.fixture_status == status
    &&& a.declared_tier == effective_tier_spec(e.tier, status).0
    &&& opt_string_view(a.downgrade_reason) == effective_tier_spec(e.tier, status).1
}

/// Observed fixture status for a language label: the map's entry, else `Missing`.
pub open spec fn observed_status(fixtures: Map<Seq<char>, FixtureStatus>, label: Seq<char>) -> FixtureStatus {
    if fixtures.dom().contains(label) { fixtures[label] } else { FixtureStatus::Missing }
}

/// Number of entries of `matrix` that the audit downgrades.
pub open spec fn downgrades(matrix: Seq<CapabilityMatrixEntry>, fixtures: Map<Seq<char>, FixtureStatus>) -> nat
    decreases matrix.len(),
{
    if matrix.len() == 0 {
        0
    } else {
        let e = matrix.last();
        let s = observed_status(fixtures, language_label_spec(e.language));
        downgrades(matrix.drop_last(), fixtures) + if effective_tier_spec(e.tier, s).1 is Some { 1nat } else { 0nat }
    }
}

pub open spec fn tier_labels_of(matrix: Seq<CapabilityMatrixEntry>) -> Seq<Seq<char>> {
    matrix.map_values(|e: CapabilityMatrixEntry| tier_label_spec(e.tier))
}

pub open spec fn status_labels_of(matrix: Seq<CapabilityMatrixEntry>, fixtures: Map<Seq<char>, FixtureStatus>) -> Seq<Seq<char>> {
    matrix.map_values(|e: CapabilityMatrixEntry| fixture_status_label_spec(observed_status(fixtures, language_label_spec(e.language))))
}

proof fn lemma_downgrades_bounded(matrix: Seq<CapabilityMatrixEntry>, fixtures: Map<Seq<char>, FixtureStatus>)
    ensures
        downgrades(matrix, fixtures) <= matrix.len(),
    decreases matrix.len(),
{
    if matrix.len() > 0 {
        lemma_downgrades_bounded(matrix.drop_last(), fixtures);
    }
}

/// Audit a capability matrix against a per-language fixture map (keyed by
/// the language's name). A language absent from the map counts as `Missing`.
pub fn audit_capability_matrix(
    matrix: &[CapabilityMatrixEntry],
    fixtures: &BTreeMap<String, FixtureStatus>,
) -> (r: FixtureAuditReport)
    ensures
        r.audits@.len() == matrix@.len(),
        forall|i: int|
            0 <= i < matrix@.len() ==> audit_matches(
                #[trigger] r.audits@[i],
                matrix@[i],
                observed_status(fixtures.deep_view(), language_label_spec(matrix@[i].language)),
            ),
        r.downgrade_count == downgrades(matrix@, fixtures.deep_view()),
        r.summary.by_declared_tier.deep_view() == label_counts(tier_labels_of(matrix@)),
        r.summary.by_fixture_status.deep_view() == label_counts(status_labels_of(matrix@, fixtures.deep_view())),
{
    let ghost fx = fixtures.deep_view();
    let mut audits: Vec<AdapterFixtureAudit> = Vec::new();
    let mut downgrade_count: usize = 0;
    let mut by_declared_tier: BTreeMap<String, usize> = map_new();
    let mut by_fixture_status: BTreeMap<String, usize> = map_new();
    let mut i: usize = 0;
    while i < matrix.len()
        invariant
            0 <= i <= matrix@.len(),
            fx == fixtures.deep_view(),
            audits@.len() == i,
            forall|j: int|
                0 <= j < i ==> audit_matches(
                    #[trigger] audits@[j],
                    matrix@[j],
                    observed_status(fx, language_label_spec(matrix@[j].language)),
                ),
            downgrade_count == downgrades(matrix@.subrange(0, i as int), fx),
            by_declared_tier.deep_view() == label_counts(tier_labels_of(matrix@.subrange(0, i as int))),
            by_fixture_status.deep_view() == label_counts(status_labels_of(matrix@.subrange(0, i as int), fx)),
        decreases matrix@.len() - i,
    {
        let ghost pre = matrix@.subrange(0, i as int);
        let ghost post = matrix@.subrange(0, i + 1);
        assert(post.drop_last() =~= pre);
        assert(post.last() == matrix@[i as int]);
        assert(tier_labels_of(post).drop_last() =~= tier_labels_of(pre));
        assert(status_labels_of(post, fx).drop_last() =~= status_labels_of(pre, fx));
        let entry = &matrix[i];
        let lang_label = language_label(&entry.language);
        let fixture_status = match map_get(fixtures, &lang_label) {
            Some(s) => *s,
            None => FixtureStatus::Missing,
        };
        let (effective, reason) = effective_tier(entry.tier, fixture_status);
        proof {
            lemma_downgrades_bounded(pre, fx);
        }
        if reason.is_some() {
            downgrade_count += 1;
        }
        proof {
            lemma_label_counts_bounded(tier_labels_of(pre));
            lemma_label_counts_bounded(status_labels_of(pre, fx));
        }
        bump(&mut by_declared_tier, entry.tier.label().to_owned(), i + 1);
        bump(&mut by_fixture_status, fixture_status_label(fixture_status), i + 1);
        audits.push(
            AdapterFixtureAudit {
                language: lang_label,
                declared_tier: effective,
                fixture_status,
                downgrade_reason: reason,
            },
        );
        i += 1;
    }
    assert(matrix@.subrange(0, matrix@.len() as int) =~= matrix@);
    FixtureAuditReport {
        audits,
        downgrade_count,
        summary: AuditSummary { by_declared_tier, by_fixture_status },
    }
}

/// The fixture map that gives every language of `matrix` the same status.
fn uniform_fixtures(matrix: &[CapabilityMatrixEntry], status: FixtureStatus) -> (m: BTreeMap<String, FixtureStatus>)
    ensures
        forall|i: int| 0 <= i < matrix@.len() ==> #[trigger] m.deep_view().dom().contains(
            language_label_spec(matrix@[i].language),
        ),
        forall|k: Seq<char>| #[trigger] m.deep_view().dom().contains(k) ==> m.deep_view()[k] == status,
{
    let mut m: BTreeMap<String, FixtureStatus> = map_new();
    let mut idx: usize = 0;
    while idx < matrix.len()
        invariant
            0 <= idx <= matrix@.len(),
            forall|k: Seq<char>| #[trigger] m.deep_view().dom().contains(k) ==> m.deep_view()[k] == status,
            forall|j: int| 0 <= j < idx ==> #[trigger] m.deep_view().dom().contains(
                language_label_spec(matrix@[j].language),
            ),
        decreases matrix@.len() - idx,
    {
        let label = language_label(&matrix[idx].language);
        map_insert(&mut m, label, status);
        idx += 1;
    }
    m
}

proof fn lemma_counts_uniform(labels: Seq<Seq<char>>, l: Seq<char>)
    requires
        labels.len() > 0,
        labels.len() <= usize::MAX,
        forall|i: int| 0 <= i < labels.len() ==> #[trigger] labels[i] == l,
    ensures
        label_counts(labels) == map![l => labels.len() as usize],
    decreases labels.len(),
{
    let d = labels.drop_last();
    assert(labels.last() == labels[labels.len() - 1]);
    if d.len() == 0 {
        assert(label_counts(d) == Map::<Seq<char>, usize>::empty());
        assert(label_counts(labels) =~= map![l => labels.len() as usize]);
    } else {
        assert forall|i: int| 0 <= i < d.len() implies #[trigger] d[i] == l by {
            assert(d[i] == labels[i]);
        }
        lemma_counts_uniform(d, l);
        assert(label_counts(labels) =~= map![l => labels.len() as usize]);
    }
}

/// The summaries of an audit of the default matrix under fixtures that
/// give every language the same `status`.
proof fn lemma_default_summaries(matrix: Seq<CapabilityMatrixEntry>, fx: Map<Seq<char>, FixtureStatus>, status: FixtureStatus)
    requires
        matrix.len() == default_matrix_spec().len(),
        forall|i: int| 0 <= i < matrix.len() ==> #[trigger] entry_model(matrix[i]) == default_matrix_spec()[i],
        forall|i: int| 0 <= i < matrix.len() ==> #[trigger] fx.dom().contains(language_label_spec(matrix[i].language)),
        forall|k: Seq<char>| #[trigger] fx.dom().contains(k) ==> fx[k] == status,
    ensures
        label_counts(tier_labels_of(matrix)) == map![
            tier_label_spec(CertificationTier::Cert3Certified) => 13usize,
            tier_label_spec(CertificationTier::Cert1Stub) => 1usize
        ],
        label_counts(status_labels_of(matrix, fx)) == map![fixture_status_label_spec(status) => 14usize],
{
    let sl = status_labels_of(matrix, fx);
    assert forall|i: int| 0 <= i < sl.len() implies #[trigger] sl[i] == fixture_status_label_spec(status) by {
        assert(fx.dom().contains(language_label_spec(matrix[i].language)));
    }
    lemma_counts_uniform(sl, fixture_status_label_spec(status));
    let tl = tier_labels_of(matrix);
    let c3 = tier_label_spec(CertificationTier::Cert3Certified);
    let c1 = tier_label_spec(CertificationTier::Cert1Stub);
    let front = tl.drop_last();
    assert forall|i: int| 0 <= i < front.len() implies #[trigger] front[i] == c3 by {
        assert(entry_model(matrix[i]) == default_matrix_spec()[i]);
        assert(front[i] == tl[i]);
    }
    lemma_counts_uniform(front, c3);
    assert(entry_model(matrix[13]) == default_matrix_spec()[13]);
    assert(tl.last() == c1);
    reveal_strlit("CERT-3 (certified)");
    reveal_strlit("CERT-1 (stub)");
    assert(c3[5] != c1[5]);
    assert(c1 != c3);
    assert(label_counts(tl) =~= map![c3 => 13usize, c1 => 1usize]);
}

/// Audit the default matrix with all fixtures present: no downgrades.
pub fn audit_default_matrix_with_all_present() -> (r: FixtureAuditReport)
    ensures
        r.audits@.len() == default_matrix_spec().len(),
        forall|i: int|
            0 <= i < r.audits@.len() ==> (#[trigger] r.audits@[i]).fixture_status == FixtureStatus::Present
                && r.audits@[i].declared_tier == default_matrix_spec()[i].tier
                && r.audits@[i].downgrade_reason is None
                && r.audits@[i].language@ == language_label_spec(default_matrix_spec()[i].language),
        r.downgrade_count == 0,
        r.summary.by_declared_tier.deep_view() == map![
            tier_label_spec(CertificationTier::Cert3Certified) => 13usize,
            tier_label_spec(CertificationTier::Cert1Stub) => 1usize
        ],
        r.summary.by_fixture_status.deep_view() == map![fixture_status_label_spec(FixtureStatus::Present) => 14usize],
{
    let matrix = default_capability_matrix();
    let fixtures = uniform_fixtures(matrix.as_slice(), FixtureStatus::Present);
    let r = audit_capability_matrix(matrix.as_slice(), &fixtures);
    proof {
        assert forall|i: int| 0 <= i < r.audits@.len() implies
            (#[trigger] r.audits@[i]).fixture_status == FixtureStatus::Present
                && r.audits@[i].declared_tier == default_matrix_spec()[i].tier
                && r.audits@[i].downgrade_reason is None
                && r.audits@[i].language@ == language_label_spec(default_matrix_spec()[i].language) by {
            assert(entry_model(matrix@[i]) == default_matrix_spec()[i]);
            assert(audit_matches(r.audits@[i], matrix@[i], FixtureStatus::Present));
        }
        assert forall|i: int| 0 <= i < matrix@.len() implies #[trigger] fixtures.deep_view().dom().contains(
            language_label_spec(matrix@[i].language),
        ) && fixtures.deep_view()[language_label_spec(matrix@[i].language)] == FixtureStatus::Present by {
            assert(fixtures.deep_view().dom().contains(language_label_spec(matrix@[i].language)));
        }
        lemma_no_downgrades_when_present(matrix@, fixtures.deep_view());
        lemma_default_summaries(matrix@, fixtures.deep_view(), FixtureStatus::Present);
    }
    r
}

proof fn lemma_no_downgrades_when_present(matrix: Seq<CapabilityMatrixEntry>, fx: Map<Seq<char>, FixtureStatus>)
    requires
        forall|i: int| 0 <= i < matrix.len() ==> #[trigger] fx.dom().contains(language_label_spec(matrix[i].language))
            && fx[language_label_spec(matrix[i].language)] == FixtureStatus::Present,
    ensures
        downgrades(matrix, fx) == 0,
    decreases matrix.len(),
{
    if matrix.len() > 0 {
        let d = matrix.drop_last();
        assert forall|i: int| 0 <= i < d.len() implies #[trigger] fx.dom().contains(language_label_spec(d[i].language))
            && fx[language_label_spec(d[i].language)] == FixtureStatus::Present by {
            assert(0 <= i < matrix.len());
            assert(d[i] == matrix[i]);
            assert(fx.dom().contains(language_label_spec(matrix[i].language)));
        }
        lemma_no_downgrades_when_present(d, fx);
        assert(fx.dom().contains(language_label_spec(matrix[matrix.len() - 1].language)));
    }
}

/// Number of entries whose declared tier needs a fixture.
pub open spec fn required_count(matrix: Seq<CapabilityMatrixEntry>) -> nat
    decreases matrix.len(),
{
    if matrix.len() == 0 {
        0
    } else {
        required_count(matrix.drop_last()) + if tier_level(matrix.last().tier) >= 3 { 1nat } else { 0nat }
    }
}

proof fn lemma_missing_downgrades_required(matrix: Seq<CapabilityMatrixEntry>, fx: Map<Seq<char>, FixtureStatus>)
    requires
        forall|i: int| 0 <= i < matrix.len() ==> #[trigger] fx.dom().contains(language_label_spec(matrix[i].language))
            && fx[language_label_spec(matrix[i].language)] == FixtureStatus::Missing,
    ensures
        downgrades(matrix, fx) == required_count(matrix),
    decreases matrix.len(),
{
    if matrix.len() > 0 {
        let d = matrix.drop_last();
        assert forall|i: int| 0 <= i < d.len() implies #[trigger] fx.dom().contains(language_label_spec(d[i].language))
            && fx[language_label_spec(d[i].language)] == FixtureStatus::Missing by {
            assert(0 <= i < matrix.len());
            assert(d[i] == matrix[i]);
            assert(fx.dom().contains(language_label_spec(matrix[i].language)));
        }
        lemma_missing_downgrades_required(d, fx);
        assert(fx.dom().contains(language_label_spec(matrix[matrix.len() - 1].language)));
    }
}

/// Audit the default matrix with all fixtures missing: every entry whose
/// tier needs a fixture is downgraded.
pub fn audit_default_matrix_with_all_missing() -> (r: FixtureAuditReport)
    ensures
        r.audits@.len() == default_matrix_spec().len(),
        forall|i: int|
            0 <= i < r.audits@.len() ==> (#[trigger] r.audits@[i]).fixture_status == FixtureStatus::Missing
                && r.audits@[i].declared_tier == effective_tier_spec(default_matrix_spec()[i].tier, FixtureStatus::Missing).0
                && opt_string_view(r.audits@[i].downgrade_reason) == effective_tier_spec(
                    default_matrix_spec()[i].tier,
                    FixtureStatus::Missing,
                ).1
                && r.audits@[i].language@ == language_label_spec(default_matrix_spec()[i].language),
        r.downgrade_count == 13,
        r.summary.by_declared_tier.deep_view() == map![
            tier_label_spec(CertificationTier::Cert3Certified) => 13usize,
            tier_label_spec(CertificationTier::Cert1Stub) => 1usize
        ],
        r.summary.by_fixture_status.deep_view() == map![fixture_status_label_spec(FixtureStatus::Missing) => 14usize],
{
    let matrix = default_capability_matrix();
    let fixtures = uniform_fixtures(matrix.as_slice(), FixtureStatus::Missing);
    let r = audit_capability_matrix(matrix.as_slice(), &fixtures);
    proof {
        assert forall|i: int| 0 <= i < matrix@.len() implies #[trigger] fixtures.deep_view().dom().contains(
            language_label_spec(matrix@[i].language),
        ) && fixtures.deep_view()[language_label_spec(matrix@[i].language)] == FixtureStatus::Missing by {
            assert(fixtures.deep_view().dom().contains(language_label_spec(matrix@[i].language)));
        }
        lemma_missing_downgrades_required(matrix@, fixtures.deep_view());
        lemma_default_summaries(matrix@, fixtures.deep_view(), FixtureStatus::Missing);
        assert forall|i: int| 0 <= i < r.audits@.len() implies
            (#[trigger] r.audits@[i]).fixture_status == FixtureStatus::Missing
                && r.audits@[i].declared_tier == effective_tier_spec(default_matrix_spec()[i].tier, FixtureStatus::Missing).0
                && opt_string_view(r.audits@[i].downgrade_reason) == effective_tier_spec(
                    default_matrix_spec()[i].tier,
                    FixtureStatus::Missing,
                ).1
                && r.audits@[i].language@ == language_label_spec(default_matrix_spec()[i].language) by {
            assert(entry_model(matrix@[i]) == default_matrix_spec()[i]);
            assert(audit_matches(r.audits@[i], matrix@[i], FixtureStatus::Missing));
        }
        assert forall|i: int| 0 <= i < matrix@.len() implies #[trigger] matrix@[i].tier == default_matrix_spec()[i].tier by {
            assert(entry_model(matrix@[i]) == default_matrix_spec()[i]);
        }
        reveal_with_fuel(required_count, 15);
        assert(matrix@.drop_last().drop_last().drop_last().drop_last().drop_last().drop_last().drop_last()
            .drop_last().drop_last().drop_last().drop_last().drop_last().drop_last().drop_last().len() == 0);
    }
    r
}

/// Effective tier for a language given its fixture status, through the
/// canonical matrix's declared tier.
pub fn effective_tier_for(language: Language, fixture: FixtureStatus) -> (r: (CertificationTier, Option<String>))
    ensures
        r.0 == effective_tier_spec(tier_for_spec(language), fixture).0,
        opt_string_view(r.1) == effective_tier_spec(tier_for_spec(language), fixture).1,
{
    let declared = tier_for(language);
    effective_tier(declared, fixture)
}

/// Fail-closed: the audit never upgrades. The effective tier is never above
/// the declared one, it drops by exactly one level iff a reason is given,
/// and a reason is given exactly when the tier needs a fixture that is
/// not present.
pub proof fn law_audit_never_upgrades(declared: CertificationTier, fixture: FixtureStatus)
    ensures
        tier_level(effective_tier_spec(declared, fixture).0) <= tier_level(declared),
        effective_tier_spec(declared, fixture).1 is Some <==> (expected_fixture_status_spec(declared)
            == FixtureRequirement::Required && fixture != FixtureStatus::Present),
        effective_tier_spec(declared, fixture).1 is Some ==> tier_level(effective_tier_spec(declared, fixture).0) + 1
            == tier_level(declared),
        effective_tier_spec(declared, fixture).1 is None ==> effective_tier_spec(declared, fixture).0 == declared,
{
}

/// Which audits downgrade: exactly those of a certified or production
/// tier whose fixture is not present (missing or stale), by one level; a
/// stub or partial tier, or any tier with its fixture present, keeps its
/// declared tier and gives no reason.
pub proof fn law_audit_downgrades_only_certified_without_fixture(declared: CertificationTier, fixture: FixtureStatus)
    ensures
        effective_tier_spec(declared, fixture).1 is Some <==> (tier_level(declared) >= 3 && fixture
            != FixtureStatus::Present),
        (tier_level(declared) >= 3 && fixture != FixtureStatus::Present) ==> tier_level(
            effective_tier_spec(declared, fixture).0,
        ) + 1 == tier_level(declared),
        !(tier_level(declared) >= 3 && fixture != FixtureStatus::Present) ==> effective_tier_spec(declared, fixture).0
            == declared,
{
}

} // verus!
