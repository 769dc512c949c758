//! Health check contract: component status, aggregate report and the
//! fail-closed reduction of component statuses to one report status.

use vstd::prelude::*;

verus! {

/// Status of a single component or of an aggregate report.
///
/// Severity is monotonic: `Healthy < Degraded < Unhealthy`.
#[derive(Debug, Clone, Copy, PartialEq, Eq, PartialOrd, Ord, Hash, Structural)]
pub enum HealthStatus {
    /// All components responding normally.
    Healthy,
    /// Non-critical component impaired; service functional but monitor.
    Degraded,
    /// Critical component down; service is not functional.
    Unhealthy,
}

/// Numeric severity of a status (the order the derived `Ord` follows).
pub open spec fn severity(s: HealthStatus) -> nat {
    match s {
        HealthStatus::Healthy => 0,
        HealthStatus::Degraded => 1,
        HealthStatus::Unhealthy => 2,
    }
}

pub open spec fn health_label_spec(s: HealthStatus) -> Seq<char> {
    match s {
        HealthStatus::Healthy => "healthy"@,
        HealthStatus::Degraded => "degraded"@,
        HealthStatus::Unhealthy => "unhealthy"@,
    }
}

impl HealthStatus {
    /// Human-readable label (for logs and CLI output).
    pub fn label(self) -> (r: &'static str)
        ensures
            r@ == health_label_spec(self),
    {
        match self {
            HealthStatus::Healthy => "healthy",
            HealthStatus::Degraded => "degraded",
            HealthStatus::Unhealthy => "unhealthy",
        }
    }
}

/// Status of a single named component. `details` is present whenever the
/// status is not `Healthy` for components built with the constructors.
#[derive(Debug, Clone)]
pub struct ComponentHealth {
    /// Component identifier (e.g., `redb_store`, `ebpf_probes`).
    pub name: String,
    /// Component status.
    pub status: HealthStatus,
    /// Explanation, required when `status != Healthy`.
    pub details: Option<String>,
}

impl ComponentHealth {
    /// Construct a healthy component (no details).
    pub fn healthy(name: &str) -> (c: Self)
        ensures
            c.name@ == name@,
            c.status == HealthStatus::Healthy,
            c.details is None,
    {
        ComponentHealth { name: name.to_owned(), status: HealthStatus::Healthy, details: None }
    }

    /// Construct a degraded component with explanation.
    pub fn degraded(name: &str, details: &str) -> (c: Self)
        ensures
            c.name@ == name@,
            c.status == HealthStatus::Degraded,
            c.details matches Some(d) && d@ == details@,
    {
        ComponentHealth {
            name: name.to_owned(),
            status: HealthStatus::Degraded,
            details: Some(details.to_owned()),
        }
    }

    /// Construct an unhealthy component with explanation.
    pub fn unhealthy(name: &str, details: &str) -> (c: Self)
        ensures
            c.name@ == name@,
            c.status == HealthStatus::Unhealthy,
            c.details matches Some(d) && d@ == details@,
    {
        ComponentHealth {
            name: name.to_owned(),
            status: HealthStatus::Unhealthy,
            details: Some(details.to_owned()),
        }
    }
}

/// Aggregate health report: the overall status is the maximum severity
/// across all components.
#[derive(Debug, Clone)]
pub struct HealthReport {
    /// Overall status (max of all components).
    pub status: HealthStatus,
    /// Chronos version (e.g., "0.7.112").
    pub version: String,
    /// Uptime in seconds since process start.
    pub uptime_seconds: u64,
    /// Per-component status (may be empty).
    pub components: Vec<ComponentHealth>,
}

/// `s` is the worst status of `cs`: no component is more severe, and it is
/// the status of some component (or `Healthy` when there is none).
pub open spec fn is_worst_status(cs: Seq<ComponentHealth>, s: HealthStatus) -> bool {
    &&& forall|i: int| 0 <= i < cs.len() ==> severity(#[trigger] cs[i].status) <= severity(s)
    &&& (cs.len() == 0 ==> s == HealthStatus::Healthy)
    &&& (cs.len() > 0 ==> exists|i: int| 0 <= i < cs.len() && #[trigger] cs[i].status == s)
}

impl HealthReport {
    /// Build a report from a list of components; status is the max severity.
    pub fn from_components(version: &str, uptime_seconds: u64, components: Vec<ComponentHealth>) -> (r: Self)
        ensures
            r.version@ == version@,
            r.uptime_seconds == uptime_seconds,
            r.components@ == components@,
            is_worst_status(components@, r.status),
    {
        let status = worst_status(components.as_slice());
        HealthReport { status, version: version.to_owned(), uptime_seconds, components }
    }

    /// The report is healthy iff its overall status is `Healthy`.
    pub fn is_healthy(&self) -> (b: bool)
        ensures
            b == (self.status == HealthStatus::Healthy),
    {
        self.status == HealthStatus::Healthy
    }
}

/// Compute the worst (highest severity) status across components.
/// Any `Unhealthy` component forces `Unhealthy`; no components gives `Healthy`.
pub fn worst_status(components: &[ComponentHealth]) -> (s: HealthStatus)
    ensures
        is_worst_status(components@, s),
{
    let mut worst = HealthStatus::Healthy;
    let mut i: usize = 0;
    while i < components.len()
        invariant
            0 <= i <= components@.len(),
            forall|j: int| 0 <= j < i ==> severity(#[trigger] components@[j].status) <= severity(worst),
            i == 0 ==> worst == HealthStatus::Healthy,
            i > 0 ==> exists|j: int| 0 <= j < i && #[trigger] components@[j].status == worst,
        decreases components@.len() - i,
    {
        let st = components[i].status;
        let more_severe = match (st, worst) {
            (HealthStatus::Unhealthy, HealthStatus::Degraded) => true,
            (HealthStatus::Unhealthy, HealthStatus::Healthy) => true,
            (HealthStatus::Degraded, HealthStatus::Healthy) => true,
            _ => false,
        };
        if more_severe || i == 0 {
            worst = st;
        }
        i += 1;
    }
    worst
}

} // verus!
