use chronos_services::health_check::{worst_status, ComponentHealth, HealthReport, HealthStatus};

#[test]
fn labels_are_distinct() {
    assert_eq!(HealthStatus::Healthy.label(), "healthy");
    assert_eq!(HealthStatus::Degraded.label(), "degraded");
    assert_eq!(HealthStatus::Unhealthy.label(), "unhealthy");
}

#[test]
fn status_ord_is_monotonic_in_severity() {
    assert!(HealthStatus::Healthy < HealthStatus::Degraded);
    assert!(HealthStatus::Degraded < HealthStatus::Unhealthy);
    assert!(HealthStatus::Healthy < HealthStatus::Unhealthy);
}

#[test]
fn component_healthy_has_no_details() {
    let c = ComponentHealth::healthy("redb_store");
    assert_eq!(c.status, HealthStatus::Healthy);
    assert!(c.details.is_none());
}

#[test]
fn component_degraded_requires_details() {
    let c = ComponentHealth::degraded("mcp_server", "high latency");
    assert_eq!(c.status, HealthStatus::Degraded);
    assert_eq!(c.details.as_deref(), Some("high latency"));
}

#[test]
fn component_unhealthy_requires_details() {
    let c = ComponentHealth::unhealthy("ebpf_probes", "no probes attached");
    assert_eq!(c.status, HealthStatus::Unhealthy);
    assert_eq!(c.details.as_deref(), Some("no probes attached"));
}

#[test]
fn worst_status_empty_returns_healthy() {
    assert_eq!(worst_status(&[]), HealthStatus::Healthy);
}

#[test]
fn worst_status_returns_max() {
    let components = vec![ComponentHealth::healthy("a"), ComponentHealth::healthy("b")];
    assert_eq!(worst_status(&components), HealthStatus::Healthy);

    let components = vec![ComponentHealth::healthy("a"), ComponentHealth::degraded("b", "slow")];
    assert_eq!(worst_status(&components), HealthStatus::Degraded);

    let components = vec![
        ComponentHealth::healthy("a"),
        ComponentHealth::degraded("b", "slow"),
        ComponentHealth::unhealthy("c", "down"),
    ];
    assert_eq!(worst_status(&components), HealthStatus::Unhealthy);
}

#[test]
fn report_status_uses_worst_status() {
    let components = vec![ComponentHealth::healthy("a"), ComponentHealth::degraded("b", "slow")];
    let report = HealthReport::from_components("0.7.112", 3600, components);
    assert_eq!(report.status, HealthStatus::Degraded);
    assert!(!report.is_healthy());
}

#[test]
fn report_all_healthy_is_healthy() {
    let components = vec![ComponentHealth::healthy("redb_store"), ComponentHealth::healthy("ebpf_probes")];
    let report = HealthReport::from_components("0.7.112", 0, components);
    assert!(report.is_healthy());
}

#[test]
fn report_keeps_version_uptime_and_components() {
    let components = vec![ComponentHealth::healthy("a"), ComponentHealth::unhealthy("b", "down")];
    let report = HealthReport::from_components("1.2.3", 42, components);
    assert_eq!(report.version, "1.2.3");
    assert_eq!(report.uptime_seconds, 42);
    assert_eq!(report.components.len(), 2);
    assert_eq!(report.components[1].name, "b");
    assert_eq!(report.status, HealthStatus::Unhealthy);
}

