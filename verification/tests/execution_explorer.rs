use chronos_services::execution_explorer::{
    ExecutionExplorerAction, ExecutionExplorerRequest, ExecutionExplorerResult, ExecutionExplorerService,
    Permission, Permissions,
};

#[test]
fn permission_labels_distinct() {
    assert_eq!(Permission::ReadEvents.label(), "read_events");
    assert_eq!(Permission::ReadDebug.label(), "read_debug");
    assert_eq!(Permission::ReadCompare.label(), "read_compare");
}

#[test]
fn permissions_empty_has_no_bits() {
    let p = Permissions::empty();
    assert!(p.is_empty());
    assert!(!p.grants(Permission::ReadEvents));
    assert!(!p.grants(Permission::ReadDebug));
    assert!(!p.grants(Permission::ReadCompare));
}

#[test]
fn permissions_from_slice_preserves_all_bits() {
    let p = Permissions::from_permissions(&[Permission::ReadEvents, Permission::ReadDebug, Permission::ReadCompare]);
    assert!(p.grants(Permission::ReadEvents));
    assert!(p.grants(Permission::ReadDebug));
    assert!(p.grants(Permission::ReadCompare));
}

#[test]
fn permissions_from_single_bit() {
    let p = Permissions::from_permissions(&[Permission::ReadEvents]);
    assert!(p.grants(Permission::ReadEvents));
    assert!(!p.grants(Permission::ReadDebug));
    assert!(!p.grants(Permission::ReadCompare));
}

#[test]
fn deny_by_default_empty_required_passes() {
    let granted = Permissions::empty();
    let required: &[Permission] = &[];
    assert!(Permissions::check_required(granted, required).is_ok());
}

#[test]
fn deny_by_default_empty_granted_with_required_denies() {
    let granted = Permissions::empty();
    let required = &[Permission::ReadEvents];
    let result = Permissions::check_required(granted, required);
    assert!(result.is_err());
    let err = result.unwrap_err();
    assert_eq!(err.missing, Permission::ReadEvents);
    assert_eq!(err.granted_bits, 0);
}

#[test]
fn deny_by_default_wrong_permission_denies() {
    let granted = Permissions::from_permissions(&[Permission::ReadEvents]);
    let required = &[Permission::ReadDebug];
    let result = Permissions::check_required(granted, required);
    assert!(result.is_err());
    assert_eq!(result.unwrap_err().missing, Permission::ReadDebug);
}

#[test]
fn read_events_action_requires_read_events() {
    let req = ExecutionExplorerRequest {
        action: ExecutionExplorerAction::ReadEvents,
        granted_permissions: Permissions::from_permissions(&[Permission::ReadEvents]),
        session_id: None,
        cursor: None,
        limit: None,
    };
    let svc = ExecutionExplorerService::new();
    let result = svc.process(&req).expect("dispatch ok");
    match result {
        ExecutionExplorerResult::Payload(p) => {
            assert!(p.contains("read_events"));
        }
        _ => panic!("expected Payload, got {:?}", result),
    }
}

#[test]
fn read_memory_without_read_debug_is_denied() {
    let req = ExecutionExplorerRequest {
        action: ExecutionExplorerAction::ReadMemory,
        granted_permissions: Permissions::from_permissions(&[Permission::ReadEvents]),
        session_id: Some("session-1".to_string()),
        cursor: None,
        limit: None,
    };
    let svc = ExecutionExplorerService::new();
    let result = svc.process(&req).expect("dispatch ok (denial is Ok)");
    match result {
        ExecutionExplorerResult::Denied(denied) => {
            assert_eq!(denied.missing, Permission::ReadDebug);
        }
        _ => panic!("expected Denied, got {:?}", result),
    }
}

#[test]
fn read_memory_with_read_debug_is_permitted() {
    let req = ExecutionExplorerRequest {
        action: ExecutionExplorerAction::ReadMemory,
        granted_permissions: Permissions::from_permissions(&[Permission::ReadDebug]),
        session_id: Some("session-1".to_string()),
        cursor: None,
        limit: None,
    };
    let svc = ExecutionExplorerService::new();
    let result = svc.process(&req).expect("dispatch ok");
    assert!(matches!(result, ExecutionExplorerResult::Payload(_)));
}

#[test]
fn read_compare_requires_read_compare() {
    let req = ExecutionExplorerRequest {
        action: ExecutionExplorerAction::ReadCompare,
        granted_permissions: Permissions::from_permissions(&[Permission::ReadEvents, Permission::ReadDebug]),
        session_id: None,
        cursor: None,
        limit: None,
    };
    let svc = ExecutionExplorerService::new();
    let result = svc.process(&req).expect("dispatch ok");
    assert!(matches!(result, ExecutionExplorerResult::Denied(_)));
}

#[test]
fn action_required_permissions_table() {
    for action in [
        ExecutionExplorerAction::ReadEvents,
        ExecutionExplorerAction::ReadMemory,
        ExecutionExplorerAction::ReadRegisters,
        ExecutionExplorerAction::EvaluateExpression,
        ExecutionExplorerAction::ReadCompare,
    ] {
        assert!(
            !action.required_permissions().is_empty(),
            "{:?} must require at least one permission (deny-by-default)",
            action
        );
    }
}

#[test]
fn permissions_iter_returns_canonical_order() {
    let p = Permissions::from_permissions(&[Permission::ReadCompare, Permission::ReadEvents, Permission::ReadDebug]);
    let collected: Vec<Permission> = p.iter().collect();
    assert_eq!(collected, vec![Permission::ReadEvents, Permission::ReadDebug, Permission::ReadCompare]);
}

#[test]
fn denial_lists_the_granted_bits_of_a_partial_grant() {
    let granted = Permissions::from_permissions(&[Permission::ReadEvents, Permission::ReadCompare]);
    let err = Permissions::check_required(granted, &[Permission::ReadEvents, Permission::ReadDebug]).unwrap_err();
    assert_eq!(err.missing, Permission::ReadDebug);
    assert_eq!(err.granted_bits, granted.bits());
}

#[test]
fn default_permissions_grant_nothing() {
    let p = Permissions::default();
    assert!(p.is_empty());
    assert_eq!(p.bits(), 0);
}

#[test]
fn stub_payload_names_the_session_and_limit() {
    let req = ExecutionExplorerRequest {
        action: ExecutionExplorerAction::ReadEvents,
        granted_permissions: Permissions::from_permissions(&[Permission::ReadEvents]),
        session_id: Some("session-9".to_string()),
        cursor: Some("c-1".to_string()),
        limit: Some(25),
    };
    let result = ExecutionExplorerService::default().process(&req).expect("dispatch ok");
    match result {
        ExecutionExplorerResult::Payload(p) => {
            assert!(p.contains("session-9"));
            assert!(p.contains("25"));
        }
        other => panic!("expected Payload, got {:?}", other),
    }
}

#[test]
fn payload_renders_the_request_fields() {
    let req = ExecutionExplorerRequest {
        action: ExecutionExplorerAction::ReadEvents,
        granted_permissions: Permissions::from_permissions(&[Permission::ReadEvents]),
        session_id: Some("s-\"1\"".to_string()),
        cursor: None,
        limit: Some(25),
    };
    let result = ExecutionExplorerService::new().process(&req).expect("dispatch ok");
    match result {
        ExecutionExplorerResult::Payload(p) => {
            assert_eq!(p, "stub:action=read_events session_id=Some(\"s-\\\"1\\\"\") cursor=None limit=Some(25)");
            assert_eq!(
                p,
                format!("stub:action={} session_id={:?} cursor={:?} limit={:?}", "read_events", req.session_id, req.cursor, req.limit)
            );
        }
        other => panic!("expected Payload, got {:?}", other),
    }
}
