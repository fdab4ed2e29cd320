use peeps::attrs::{attrs_with_created_at, strip_created_at_prefix};
use peeps::clock::{created_at_from_epoch_nanos, created_at_now_ns, PTime};
use peeps::file_ops::{begin_op, build_attrs_json, end_op, rename_label, FileOpOutcome};
use peeps::joinset::{close_joinset, open_joinset};
use peeps::locks::{dump_lock_diagnostics, emit_lock_graph};
use peeps::model::{EdgeKind, Node, NodeKind};
use peeps::net::{connect, finish_net_wait, readable};
use peeps::objects::{edge_kind_str, operation_kind_str, EdgeKind as CausalEdge, OperationKind, PeepsContext};
use peeps::registry::{
    edge, emit_graph, init, proc_key, process_name, register_node, remove_edge,
    remove_edges_from, remove_node, touch_edge, Registry,
};
use peeps::rpc::{attrs_json_with_meta, record_request, record_response_with_meta, RpcEvent};
use peeps::sql_guard::{preview_sql, reject_main_schema_access, reject_multiple_statements};
use peeps::timers::{
    clamp_to_u64, emit_interval_nodes, emit_sleep_nodes, prune_and_register, timer_label_exec,
    DeadlineTimerInfo, IntervalInfo, TimerWait,
};

fn ready_registry() -> Registry {
    let mut reg = Registry::new();
    init(&mut reg, "proc", "key");
    reg
}

fn node(id: &str, kind: NodeKind, attrs: &str) -> Node {
    Node { id: id.to_string(), kind, label: None, attrs_json: attrs.to_string() }
}

#[test]
fn the_first_init_wins() {
    let mut reg = Registry::new();
    assert!(process_name(&reg).is_none());
    init(&mut reg, "a", "ka");
    init(&mut reg, "b", "kb");
    assert_eq!(process_name(&reg).as_deref(), Some("a"));
    assert_eq!(proc_key(&reg).as_deref(), Some("ka"));
}

#[test]
fn edges_are_listed_needs_first() {
    let mut reg = ready_registry();
    edge(&mut reg, "a", "b");
    edge(&mut reg, "a", "c");
    touch_edge(&mut reg, "x", "y");
    remove_edge(&mut reg, "a", "c");
    let g = emit_graph(&reg, 0);
    assert_eq!(g.edges.len(), 2);
    assert_eq!(g.edges[0].kind, EdgeKind::Needs);
    assert_eq!((g.edges[0].src.as_str(), g.edges[0].dst.as_str()), ("a", "b"));
    assert_eq!(g.edges[1].kind, EdgeKind::Touches);
    assert_eq!(g.edges[1].attrs_json, "{}");
    remove_edges_from(&mut reg, "a");
    assert_eq!(emit_graph(&reg, 0).edges.len(), 1);
}

#[test]
fn requests_report_time_since_first_registration() {
    let mut reg = ready_registry();
    register_node(&mut reg, node("r", NodeKind::Request, "{}"), 1_000);
    register_node(&mut reg, node("r", NodeKind::Request, r#"{"a":1}"#), 5_000);
    register_node(&mut reg, node("l", NodeKind::Lock, "{}"), 1_000);
    let g = emit_graph(&reg, 9_000);
    let r = g.nodes.iter().find(|n| n.id == "r").unwrap();
    assert_eq!(r.attrs_json, r#"{"a":1,"elapsed_ns":8000}"#);
    let l = g.nodes.iter().find(|n| n.id == "l").unwrap();
    assert_eq!(l.attrs_json, "{}");
    remove_node(&mut reg, "r");
    assert_eq!(emit_graph(&reg, 9_000).nodes.len(), 1);
}

#[test]
fn no_graph_before_the_process_is_named() {
    let mut reg = Registry::new();
    register_node(&mut reg, node("r", NodeKind::Lock, "{}"), 1);
    let g = emit_graph(&reg, 2);
    assert!(g.nodes.is_empty());
    assert!(g.edges.is_empty());
}

#[test]
fn rpc_requests_link_to_their_parent() {
    let mut reg = ready_registry();
    record_request(
        &mut reg,
        RpcEvent {
            entity_id: "req:1".to_string(),
            name: "get".to_string(),
            attrs_json: "{}".to_string(),
            parent_entity_id: None,
        },
        Some("task:1".to_string()),
        10,
    );
    let g = emit_graph(&reg, 10);
    assert_eq!(g.edges.len(), 2);
    assert_eq!(g.edges[0].src, "task:1");
    assert_eq!(g.edges[0].dst, "req:1");
    assert_eq!(g.nodes[0].label.as_deref(), Some("get"));

    record_response_with_meta(&mut reg, "resp:1", "get", r#"{"k":"v"}"#, Some("resp:1".to_string()), None, 20);
    let g = emit_graph(&reg, 25);
    let resp = g.nodes.iter().find(|n| n.id == "resp:1").unwrap();
    assert_eq!(resp.kind, NodeKind::Response);
    assert_eq!(resp.attrs_json, r#"{"rpc.name":"get","meta":{"k":"v"},"elapsed_ns":5}"#);
    assert_eq!(g.edges.len(), 2);
    assert_eq!(attrs_json_with_meta("a\"b", "{}"), r#"{"rpc.name":"a\"b","meta":{}}"#);
}

#[test]
fn network_waits_exist_while_pending() {
    let mut reg = ready_registry();
    let w = connect(&mut reg, "net:1".to_string(), "10.0.0.1:80", "tcp", Some("task:1"), 5);
    let g = emit_graph(&reg, 5);
    assert_eq!(g.nodes.len(), 1);
    assert_eq!(g.nodes[0].kind, NodeKind::NetConnect);
    assert_eq!(g.nodes[0].label.as_deref(), Some("net_connect: 10.0.0.1:80"));
    assert_eq!(
        g.nodes[0].attrs_json,
        r#"{"net.op":"net_connect","net.endpoint":"10.0.0.1:80","net.transport":"tcp"}"#
    );
    assert_eq!(g.edges.len(), 1);
    finish_net_wait(&mut reg, w, 40, 45);
    let g = emit_graph(&reg, 50);
    assert!(g.nodes.is_empty());
    assert!(g.edges.is_empty());
    let w = readable(&mut reg, "net:2".to_string(), "e", "udp", None, 1);
    assert_eq!(w.op, "net_readable");
    assert!(emit_graph(&reg, 1).edges.is_empty());
}

#[test]
fn file_operations_are_tracked_while_they_run() {
    let mut reg = ready_registry();
    let op = begin_op(&mut reg, "file:1".to_string(), "write", "/tmp/a", Some("task:9"), 3);
    let g = emit_graph(&reg, 3);
    assert_eq!(g.nodes[0].kind, NodeKind::FileOp);
    assert_eq!(g.nodes[0].label.as_deref(), Some("write: /tmp/a"));
    assert_eq!(
        g.nodes[0].attrs_json,
        r#"{"fs.op":"write","resource.path":"/tmp/a","elapsed_ns":0,"result":"in_progress"}"#
    );
    assert_eq!(g.edges[0].kind, EdgeKind::Touches);
    let outcome = FileOpOutcome {
        write_bytes: Some(3),
        read_bytes: None,
        elapsed_ns: 7,
        result: "ok".to_string(),
        error: None,
    };
    end_op(&mut reg, op, &outcome, 10);
    let g = emit_graph(&reg, 10);
    assert!(g.nodes.is_empty() && g.edges.is_empty());
}

#[test]
fn file_attributes_skip_what_is_absent_and_quote_strings() {
    assert_eq!(
        build_attrs_json("write", "/tmp/x\"y", Some(3), None, 5, "ok", None),
        r#"{"fs.op":"write","resource.path":"/tmp/x\"y","write.bytes":3,"elapsed_ns":5,"result":"ok"}"#
    );
    assert_eq!(
        build_attrs_json("read_to_string", "p", None, Some(0), 1, "error", Some("denied")),
        r#"{"fs.op":"read_to_string","resource.path":"p","read.bytes":0,"elapsed_ns":1,"result":"error","error":"denied"}"#
    );
    assert_eq!(rename_label("a", "b"), "a -> b");
}

#[test]
fn join_sets_are_nodes_needed_by_their_creator() {
    let mut reg = ready_registry();
    let j = open_joinset(&mut reg, "joinset:1".to_string(), Some("task:1"), 0);
    let g = emit_graph(&reg, 0);
    assert_eq!(g.nodes[0].kind, NodeKind::JoinSet);
    assert_eq!(g.nodes[0].label.as_deref(), Some("joinset"));
    assert_eq!(g.edges[0].kind, EdgeKind::Needs);
    close_joinset(&mut reg, j);
    assert!(emit_graph(&reg, 0).nodes.is_empty());
}

#[test]
fn pending_timers_hold_one_edge_until_ready() {
    let mut reg = ready_registry();
    let mut w = TimerWait::new("sleep:1".to_string());
    w.on_poll(&mut reg, false, Some("task:1"));
    w.on_poll(&mut reg, false, Some("task:2"));
    assert_eq!(emit_graph(&reg, 0).edges.len(), 1);
    w.on_poll(&mut reg, true, None);
    assert!(emit_graph(&reg, 0).edges.is_empty());
    w.on_drop(&mut reg);
    assert!(emit_graph(&reg, 0).edges.is_empty());
}

#[test]
fn timer_nodes_carry_their_attributes() {
    assert_eq!(timer_label_exec("sleep", 250), "sleep(250ms)");
    assert_eq!(clamp_to_u64(u128::MAX), u64::MAX);
    let mut nodes = Vec::new();
    emit_sleep_nodes(
        &mut nodes,
        &vec![DeadlineTimerInfo {
            name: "sleep(5ms)".to_string(),
            node_id: "s1".to_string(),
            location: "src/a.rs:3".to_string(),
            deadline_ns: 100,
            created_at_ns: 10,
        }],
        30,
    );
    assert_eq!(nodes[0].kind, NodeKind::Sleep);
    assert_eq!(
        nodes[0].attrs_json,
        r#"{"name":"sleep(5ms)","wait.kind":"sleep","deadline_ns":100,"elapsed_ns":20,"meta":{"ctx.location":"src/a.rs:3"}}"#
    );
    emit_interval_nodes(
        &mut nodes,
        &vec![IntervalInfo {
            name: "interval(1ms)".to_string(),
            node_id: "i1".to_string(),
            location: "l".to_string(),
            period_ms: 1,
            tick_count: 4,
            created_at_ns: 50,
        }],
        30,
    );
    assert_eq!(
        nodes[1].attrs_json,
        r#"{"name":"interval(1ms)","wait.kind":"interval","period_ms":1,"tick_count":4,"elapsed_ns":0,"meta":{"ctx.location":"l"}}"#
    );
}

#[test]
fn dead_timers_are_pruned_before_registering() {
    let mut live_timers = vec![1, 2, 3];
    prune_and_register(&mut live_timers, &vec![true, false, true], 4);
    assert_eq!(live_timers, vec![1, 3, 4]);
}

#[test]
fn statement_checks_skip_quotes_and_comments() {
    assert!(reject_multiple_statements("SELECT 1;").is_ok());
    assert!(reject_multiple_statements("SELECT ';x' -- ; y\n").is_ok());
    assert!(reject_multiple_statements("SELECT 1; /* c */").is_ok());
    assert!(reject_multiple_statements("SELECT 1; SELECT 2").is_err());
    assert!(reject_multiple_statements("SELECT \"a;b\"").is_ok());
    let e = reject_main_schema_access("SELECT * FROM main.[edges]").err().unwrap();
    assert_eq!(e.status, 400);
    assert!(reject_main_schema_access("SELECT * FROM nodes").is_ok());
    let long = "a".repeat(200);
    assert_eq!(preview_sql(&long), format!("{}...", "a".repeat(160)));
    assert_eq!(preview_sql("short"), "short");
}

#[test]
fn created_at_prefixes_are_stripped_and_restored() {
    assert_eq!(strip_created_at_prefix(r#" {"created_at":12,"a":1} "#.to_string()), r#"{"a":1}"#);
    assert_eq!(strip_created_at_prefix(r#"{"created_at":-3}"#.to_string()), "{}");
    assert_eq!(strip_created_at_prefix(r#"{"a":1}"#.to_string()), r#"{"a":1}"#);
    assert_eq!(
        attrs_with_created_at(r#"{"a":1}"#.to_string(), 5, None),
        r#"{"created_at":5,"source":"peeps/unknown","a":1}"#
    );
    assert_eq!(
        attrs_with_created_at("not json".to_string(), 5, None),
        r#"{"created_at":5,"source":"peeps/unknown"}"#
    );
}

#[test]
fn clocks_give_plausible_readings() {
    assert!(created_at_now_ns() > 1_500_000_000_000_000_000);
    assert_eq!(created_at_from_epoch_nanos(None), 0);
    assert_eq!(created_at_from_epoch_nanos(Some(42)), 42);
    assert_eq!(PTime::from_elapsed_ms(u128::MAX).0, u64::MAX);
    assert_eq!(PTime::from_elapsed_ms(7).0, 7);
    let anchor = std::time::Instant::now();
    assert!(PTime::now(&anchor).0 < 60_000);
}

#[test]
fn vocabulary_names_and_contexts() {
    assert_eq!(edge_kind_str(CausalEdge::ClosedBy), "closed_by");
    assert_eq!(edge_kind_str(CausalEdge::RpcLink), "rpc_link");
    assert_eq!(operation_kind_str(OperationKind::OncecellWait), "oncecell_wait");
    let cx = PeepsContext::caller("/src/app");
    assert_eq!(cx.manifest_dir(), "/src/app");
    assert_eq!(PeepsContext::new("x").manifest_dir(), "x");
}

#[test]
fn lock_diagnostics_are_empty_without_instrumentation() {
    assert_eq!(dump_lock_diagnostics(), "");
    let g = emit_lock_graph("p", "k");
    assert!(g.nodes.is_empty() && g.edges.is_empty() && g.events.is_none());
}
