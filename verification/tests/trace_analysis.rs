use chronos_services::analysis::{
    mutation_transitions, thread_edges, CausalSliceInput, ChronosAnalysisService, MutationLensInput,
};
use chronos_services::debug_read::{first_crash, state_diff, DebugReadService, RegisterState};
use chronos_services::debug_trace::build_call_graph;
use chronos_services::error::ServiceError;
use chronos_services::trace::{EventData, EventType, SourceLocation, TraceEvent, VariableInfo};

fn call(id: u64, ts: u64, thread: u64, t: EventType, func: &str) -> TraceEvent {
    let mut loc = SourceLocation::unknown();
    loc.function = Some(func.to_string());
    TraceEvent::new(id, ts, thread, t, loc, EventData::Empty)
}

fn var(name: &str, value: &str) -> VariableInfo {
    VariableInfo { name: name.into(), value: value.into(), value_type: "i32".into(), address: 0 }
}

fn write(id: u64, thread: u64, name: &str, value: &str) -> TraceEvent {
    TraceEvent::new(id, id * 10, thread, EventType::VariableWrite, SourceLocation::unknown(), EventData::Variable(var(name, value)))
}

fn chain() -> Vec<TraceEvent> {
    vec![
        call(1, 100, 1, EventType::FunctionEntry, "a"),
        call(2, 110, 1, EventType::FunctionEntry, "b"),
        call(3, 120, 1, EventType::FunctionEntry, "c"),
        call(4, 130, 1, EventType::FunctionExit, "c"),
        call(5, 140, 1, EventType::FunctionExit, "b"),
        call(6, 150, 1, EventType::FunctionExit, "a"),
    ]
}

fn regs(rax: u64, rip: u64) -> RegisterState {
    RegisterState {
        rax, rbx: 0, rcx: 0, rdx: 0, rsi: 0, rdi: 0, rbp: 0, rsp: 0, r8: 0, r9: 0, r10: 0, r11: 0, r12: 0,
        r13: 0, r14: 0, r15: 0, rip, rflags: 0,
    }
}

#[test]
fn empty_engine_returns_empty_results() {
    let cg = build_call_graph(&vec![], 10);
    assert_eq!(cg.stats.node_count, 0);
    assert_eq!(cg.stats.edge_count, 0);
}

#[test]
fn deep_call_graph_verifies_caller_relationships() {
    let cg = build_call_graph(&chain(), 10);
    assert_eq!(cg.stats.node_count, 3, "should have 3 function nodes");
    let c_node = cg.nodes.iter().find(|n| n.function == "c").expect("c must be present");
    assert!(c_node.callers.contains(&"b".to_string()), "c should see b as caller");
    assert_eq!(c_node.call_count, 1, "c was entered once");
    let b_node = cg.nodes.iter().find(|n| n.function == "b").expect("b must be present");
    assert!(b_node.callees.contains(&"c".to_string()), "b should have c as callee");
    assert!(cg.edges.iter().any(|e| e.from == "a" && e.to == "b"), "a→b edge must exist");
    assert!(cg.edges.iter().any(|e| e.from == "b" && e.to == "c"), "b→c edge must exist");
}

#[test]
fn call_graph_deduplicates_edges() {
    let mut events = chain();
    events.push(call(7, 160, 1, EventType::FunctionEntry, "a"));
    events.push(call(8, 170, 1, EventType::FunctionEntry, "b"));
    let cg = build_call_graph(&events, 10);
    let a_to_b_count = cg.edges.iter().filter(|e| e.from == "a" && e.to == "b").count();
    assert_eq!(a_to_b_count, 1, "a→b edge should appear exactly once");
    let a_node = cg.nodes.iter().find(|n| n.function == "a").expect("a must be present");
    assert!(a_node.callees.iter().filter(|f| *f == "b").count() <= 1);
    assert_eq!(a_node.call_count, 2);
    assert_eq!(cg.stats.max_observed_depth, 3, "the stack reached a > b > c");
}

#[test]
fn call_graph_reports_the_deepest_stack_reached() {
    let cg = build_call_graph(&chain(), 10);
    assert_eq!(cg.stats.max_observed_depth, 3, "a > b > c was reached, though every call returned");
    let capped = build_call_graph(&chain(), 2);
    assert_eq!(capped.stats.max_observed_depth, 2);
}

#[test]
fn call_graph_depth_cap_stops_deeper_calls_from_linking() {
    let cg = build_call_graph(&chain(), 1);
    assert_eq!(cg.nodes.len(), 3);
    assert!(cg.edges.iter().all(|e| !(e.from == "b" && e.to == "c")));
}

#[test]
fn mutation_lens_emits_transitions_for_consecutive_writes() {
    let events = vec![write(1, 1, "x", "1"), write(2, 1, "x", "2"), write(3, 1, "y", "9"), write(4, 1, "x", "3")];
    let out = ChronosAnalysisService::mutation_lens_of(
        MutationLensInput { session_id: "s".into(), target: None, limit: None },
        &events,
    );
    assert_eq!(out.count, 2);
    assert_eq!(out.transitions[0].target, "x");
    assert_eq!(out.transitions[0].before.as_deref(), Some("1"));
    assert_eq!(out.transitions[0].after, "2");
    assert_eq!(out.transitions[0].index, 1);
    assert_eq!(out.transitions[1].before.as_deref(), Some("2"));
    assert_eq!(out.transitions[1].after, "3");
    assert_eq!(out.transitions[1].index, 3);
}

#[test]
fn mutation_lens_target_filter_isolates_one_variable() {
    let events = vec![write(1, 1, "x", "1"), write(2, 1, "y", "2"), write(3, 1, "x", "3")];
    let t = mutation_transitions(&events, &Some("x".into()), None);
    assert_eq!(t.len(), 1);
    assert_eq!(t[0].target, "x");
}

#[test]
fn mutation_lens_truncates_to_limit() {
    let events: Vec<TraceEvent> = (0..10u64).map(|i| write(i, 1, "x", &format!("v{i}"))).collect();
    let t = mutation_transitions(&events, &None, Some(3));
    assert_eq!(t.len(), 3);
    assert_eq!(t[0].before.as_deref(), Some("v0"));
}

#[test]
fn causal_slice_returns_event_not_found() {
    let events = vec![write(1, 1, "x", "1")];
    let input = CausalSliceInput { session_id: "s".into(), sink_event_id: 999 };
    assert_eq!(
        ChronosAnalysisService::check_sink(&input, &events),
        Err(ServiceError::EventNotFound { event_id: 999 })
    );
    let ok = CausalSliceInput { session_id: "s".into(), sink_event_id: 1 };
    assert!(ChronosAnalysisService::check_sink(&ok, &events).is_ok());
}

#[test]
fn causal_slice_edges_follow_each_thread() {
    let events = vec![write(1, 1, "x", "1"), write(2, 2, "y", "2"), write(3, 1, "x", "3"), write(4, 2, "y", "4")];
    assert_eq!(thread_edges(&events), vec![(1, 3), (2, 4)]);
    assert!(thread_edges(&vec![write(1, 1, "x", "1")]).is_empty());
}

#[test]
fn diff_both_events_missing_returns_zero_delta() {
    let d = state_diff(1, 2, &vec![], &vec![], None, None, None, None);
    assert!(d.variables_added.is_empty());
    assert!(d.variables_removed.is_empty());
    assert!(d.variables_changed.is_empty());
    assert!(d.registers_changed.is_empty());
    assert_eq!(d.timestamp_delta_ns, 0);
}

#[test]
fn state_diff_reports_variables_registers_and_time() {
    let a = vec![var("x", "1"), var("y", "2"), var("gone", "0")];
    let b = vec![var("x", "1"), var("y", "5"), var("new", "7")];
    let d = state_diff(1, 2, &a, &b, Some(regs(1, 0x10)), Some(regs(2, 0x10)), Some(100), Some(250));
    assert_eq!(d.variables_added, vec!["new".to_string()]);
    assert_eq!(d.variables_removed, vec!["gone".to_string()]);
    assert_eq!(d.variables_changed.len(), 1);
    assert_eq!(d.variables_changed[0].name, "y");
    assert_eq!(d.variables_changed[0].before.as_deref(), Some("2"));
    assert_eq!(d.variables_changed[0].after.as_deref(), Some("5"));
    assert_eq!(d.registers_changed.len(), 1);
    assert_eq!(d.registers_changed[0].0, "rax");
    assert_eq!(d.registers_changed[0].1.before, "0x1");
    assert_eq!(d.registers_changed[0].1.after, "0x2");
    assert_eq!(d.timestamp_delta_ns, 150);
    let back = state_diff(2, 1, &b, &a, None, None, Some(250), Some(100));
    assert_eq!(back.timestamp_delta_ns, 0, "the delta saturates at zero");
}

#[test]
fn analyze_memory_keeps_writes_inside_the_window() {
    let mem = |id: u64, ts: u64, addr: u64| {
        TraceEvent::new(
            id,
            ts,
            1,
            EventType::MemoryWrite,
            SourceLocation::unknown(),
            EventData::Memory { address: addr, size: 4, data_hex: Some("deadbeef".into()) },
        )
    };
    let events = vec![mem(1, 10, 0x1000), mem(2, 20, 0x2000), mem(3, 30, 0x1004), mem(4, 99, 0x1008)];
    let r = DebugReadService::analyze_memory_of(&events, 0x1000, 0x1fff, 0, 50);
    assert_eq!(r.total_writes, 2);
    assert_eq!(r.start_address, "0x1000");
    assert_eq!(r.accesses[0].address, "0x1000");
    assert_eq!(r.accesses[1].event_id, 3);
    assert_eq!(r.accesses[1].data_hex, "deadbeef");
}

#[test]
fn find_crash_picks_the_first_fatal_signal() {
    let sig = |id: u64, name: &str| {
        TraceEvent::new(id, id, 1, EventType::SignalDelivered, SourceLocation::unknown(), EventData::Signal {
            signal_name: name.into(),
        })
    };
    let events = vec![sig(1, "SIGUSR1"), write(2, 1, "x", "1"), sig(3, "SIGSEGV"), sig(4, "SIGABRT")];
    assert_eq!(first_crash(&events), Some(2));
    assert_eq!(first_crash(&vec![sig(1, "SIGCHLD")]), None);
}

#[test]
fn session_not_found_is_typed() {
    assert_eq!(
        DebugReadService::session_events("nope", None).unwrap_err(),
        ServiceError::SessionNotFound("nope".into())
    );
    let events = vec![write(1, 1, "x", "1")];
    assert_eq!(DebugReadService::session_events("s", Some(&events)).unwrap().len(), 1);
}

#[test]
fn forensic_audit_orders_writes_by_time_then_trace_position() {
    let mem = |id: u64, ts: u64, addr: u64, hex: Option<&str>| {
        TraceEvent::new(
            id,
            ts,
            1,
            EventType::MemoryWrite,
            SourceLocation::unknown(),
            EventData::Memory { address: addr, size: 1, data_hex: hex.map(|h| h.to_string()) },
        )
    };
    let events = vec![
        mem(1, 30, 0x10, Some("aa")),
        mem(2, 10, 0x10, None),
        mem(3, 20, 0x99, Some("ff")),
        mem(4, 10, 0x10, Some("bb")),
        mem(5, 5, 0x10, Some("cc")),
    ];
    let all = DebugReadService::audit_writes(&events, 0x10, 10);
    let ids: Vec<u64> = all.iter().map(|w| w.event_id).collect();
    assert_eq!(ids, vec![5, 2, 4, 1]);
    assert_eq!(all[1].data_hex, "");
    assert_eq!(all[2].data_hex, "bb");
    assert_eq!(all[0].index, 4);
    let first_two = DebugReadService::audit_writes(&events, 0x10, 2);
    assert_eq!(first_two.iter().map(|w| w.event_id).collect::<Vec<u64>>(), vec![5, 2]);
    assert!(DebugReadService::audit_writes(&events, 0x42, 10).is_empty());
}

#[test]
fn state_diff_keeps_an_empty_earlier_value() {
    let a = vec![var("s", "")];
    let b = vec![var("s", "set")];
    let d = state_diff(1, 2, &a, &b, None, None, None, None);
    assert_eq!(d.variables_changed.len(), 1);
    assert_eq!(d.variables_changed[0].before.as_deref(), Some(""));
    assert_eq!(d.variables_changed[0].after.as_deref(), Some("set"));
    assert_eq!(d.timestamp_delta_ns, 0);
}
