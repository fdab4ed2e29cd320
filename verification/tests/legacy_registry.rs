use peeps::clock::created_at_now_ns;
use peeps::legacy_registry::{
    remove_edge, remove_edges_from, remove_edges_to, remove_spawn_edges_to, remove_touch_edge,
    remove_touch_edges_from, remove_touch_edges_to,
};
use peeps::legacy_registry::{
    edge, emit_graph, first_missing_created_at, init, make_node, record_event, register_node,
    remove_node, spawn_edge, take_events, touch_edge, EventBuffer, LegacyRegistry,
    EVENT_BUFFER_CAPACITY,
};
use peeps::model::{EdgeKind, Event, Node, NodeKind};

fn extract_created_at(attrs: &str) -> Option<i64> {
    let key = "\"created_at\":";
    let start = attrs.find(key)? + key.len();
    let rest = &attrs[start..];
    let end = rest
        .find(|c: char| !(c.is_ascii_digit() || c == '-'))
        .unwrap_or(rest.len());
    rest[..end].parse().ok()
}

fn extract_source(attrs: &str) -> Option<String> {
    let key = "\"source\":\"";
    let start = attrs.find(key)? + key.len();
    let rest = &attrs[start..];
    let end = rest.find('"')?;
    Some(rest[..end].to_string())
}

fn stripped_source(attrs: &str) -> Option<String> {
    let stripped = peeps::attrs::strip_created_at_prefix(attrs.to_string());
    extract_source(&stripped)
}

fn all_node_kinds() -> [NodeKind; 23] {
    [
        NodeKind::Future,
        NodeKind::Lock,
        NodeKind::Tx,
        NodeKind::Rx,
        NodeKind::RemoteTx,
        NodeKind::RemoteRx,
        NodeKind::Request,
        NodeKind::Response,
        NodeKind::Connection,
        NodeKind::JoinSet,
        NodeKind::Semaphore,
        NodeKind::OnceCell,
        NodeKind::Command,
        NodeKind::FileOp,
        NodeKind::Notify,
        NodeKind::Sleep,
        NodeKind::Interval,
        NodeKind::Timeout,
        NodeKind::NetConnect,
        NodeKind::NetAccept,
        NodeKind::NetReadable,
        NodeKind::NetWritable,
        NodeKind::Syscall,
    ]
}

fn register(reg: &mut LegacyRegistry, node: Node) {
    let created = extract_created_at(&node.attrs_json);
    let source = stripped_source(&node.attrs_json);
    register_node(reg, node, created, source, created_at_now_ns());
}

#[test]
fn register_node_preserves_first_created_at_for_same_id() {
    let mut reg = LegacyRegistry::new();
    init(&mut reg, "test-process", "test-proc-key");

    register(
        &mut reg,
        Node {
            id: "node:stable".to_string(),
            kind: NodeKind::Command,
            label: Some("first".to_string()),
            attrs_json: r#"{"created_at":111}"#.to_string(),
        },
    );
    register(
        &mut reg,
        Node {
            id: "node:stable".to_string(),
            kind: NodeKind::Command,
            label: Some("second".to_string()),
            attrs_json: r#"{"created_at":999}"#.to_string(),
        },
    );

    let graph = emit_graph(&mut reg);
    let node = graph
        .nodes
        .iter()
        .find(|n| n.id == "node:stable")
        .expect("node should exist");
    assert_eq!(extract_created_at(&node.attrs_json), Some(111));
}

#[test]
fn all_node_kinds_emit_with_created_at() {
    let mut reg = LegacyRegistry::new();
    init(&mut reg, "test-process", "test-proc-key");

    for kind in all_node_kinds() {
        let name = format!("{:?}", kind);
        let node = make_node(
            format!("{name}:test"),
            kind,
            Some(name.clone()),
            "{}".to_string(),
            0,
            None,
            created_at_now_ns(),
        );
        register(&mut reg, node);
    }

    let graph = emit_graph(&mut reg);
    assert_eq!(graph.nodes.len(), all_node_kinds().len());
    for kind in all_node_kinds() {
        let node = graph
            .nodes
            .iter()
            .find(|n| n.kind == kind)
            .unwrap_or_else(|| panic!("missing node kind {:?}", kind));
        assert!(
            extract_created_at(&node.attrs_json).unwrap_or_default() > 0,
            "node kind {:?} missing created_at",
            kind
        );
        assert!(
            !extract_source(&node.attrs_json)
                .unwrap_or_default()
                .trim()
                .is_empty(),
            "node kind {:?} missing source",
            kind
        );
    }
}

#[test]
fn make_node_canonicalises_attributes() {
    let n = make_node(
        "a".to_string(),
        NodeKind::Lock,
        None,
        r#"{"x":1}"#.to_string(),
        42,
        None,
        7,
    );
    assert_eq!(n.attrs_json, r#"{"created_at":42,"source":"peeps/unknown","x":1}"#);
    let n = make_node(
        "b".to_string(),
        NodeKind::Lock,
        None,
        r#"{"source":"src/x.rs:1","x":1}"#.to_string(),
        -5,
        Some("src/x.rs:1".to_string()),
        7,
    );
    assert_eq!(n.attrs_json, r#"{"created_at":7,"source":"src/x.rs:1","x":1}"#);
    let n = make_node("c".to_string(), NodeKind::Lock, None, "  ".to_string(), 3, None, 7);
    assert_eq!(n.attrs_json, r#"{"created_at":3,"source":"peeps/unknown"}"#);
}

#[test]
fn nothing_is_emitted_before_init() {
    let mut reg = LegacyRegistry::new();
    edge(&mut reg, "a", "b");
    let graph = emit_graph(&mut reg);
    assert!(graph.nodes.is_empty());
    assert!(graph.edges.is_empty());
    assert!(graph.events.is_none());
    assert_eq!(graph.process_name, "");
}

#[test]
fn edges_are_emitted_by_kind_and_removed_with_their_node() {
    let mut reg = LegacyRegistry::new();
    init(&mut reg, "p", "k");
    edge(&mut reg, "a", "b");
    edge(&mut reg, "a", "b");
    touch_edge(&mut reg, "a", "c");
    spawn_edge(&mut reg, "c", "b");
    let graph = emit_graph(&mut reg);
    assert_eq!(graph.edges.len(), 3);
    assert_eq!(graph.edges[0].kind, EdgeKind::Needs);
    assert_eq!(graph.edges[1].kind, EdgeKind::Touches);
    assert_eq!(graph.edges[2].kind, EdgeKind::Spawned);
    remove_node(&mut reg, "b");
    let graph = emit_graph(&mut reg);
    assert_eq!(graph.edges.len(), 1);
    assert_eq!(graph.edges[0].dst, "c");
}

#[test]
fn events_are_recorded_once_initialised_and_drained() {
    let mut reg = LegacyRegistry::new();
    record_event(&mut reg, "e", "ignored", "{}".to_string(), "ev0".to_string(), 1, None);
    assert!(take_events(&mut reg).is_none());
    init(&mut reg, "p", "proc-key");
    record_event(
        &mut reg,
        "entity",
        "started",
        "{}".to_string(),
        "ev1".to_string(),
        5,
        Some("parent".to_string()),
    );
    let events = take_events(&mut reg).expect("one event");
    assert_eq!(events.len(), 1);
    assert_eq!(events[0].proc_key, "proc-key");
    assert_eq!(events[0].parent_entity_id.as_deref(), Some("parent"));
    assert!(take_events(&mut reg).is_none());
}

#[test]
fn event_buffer_keeps_latest() {
    let mut b = EventBuffer::new();
    for i in 0..(EVENT_BUFFER_CAPACITY as u64 + 10) {
        b.record(Event {
            id: format!("e{i}"),
            ts_ns: i,
            proc_key: String::new(),
            entity_id: String::new(),
            name: String::new(),
            parent_entity_id: None,
            attrs_json: String::new(),
        });
    }
    assert_eq!(b.len(), EVENT_BUFFER_CAPACITY);
    let all = b.take().expect("events");
    assert_eq!(all.len(), EVENT_BUFFER_CAPACITY);
    assert_eq!(all[0].ts_ns, 10);
    assert_eq!(all[EVENT_BUFFER_CAPACITY - 1].ts_ns, EVENT_BUFFER_CAPACITY as u64 + 9);
    assert!(b.take().is_none());
}

#[test]
fn first_missing_created_at_names_the_first_bad_node() {
    assert_eq!(first_missing_created_at(&vec![Some(1), Some(2)]), None);
    assert_eq!(first_missing_created_at(&vec![Some(1), None, Some(0)]), Some(1));
    assert_eq!(first_missing_created_at(&vec![Some(0)]), Some(0));
}

#[test]
fn a_spawn_stays_until_its_target_or_an_end_is_removed() {
    let spawns = |reg: &mut LegacyRegistry| -> Vec<(String, String)> {
        emit_graph(reg)
            .edges
            .into_iter()
            .filter(|e| e.kind == EdgeKind::Spawned)
            .map(|e| (e.src, e.dst))
            .collect()
    };
    let mut reg = LegacyRegistry::new();
    init(&mut reg, "p", "k");
    spawn_edge(&mut reg, "parent", "child");
    edge(&mut reg, "parent", "child");
    touch_edge(&mut reg, "parent", "child");
    remove_edge(&mut reg, "parent", "child");
    remove_edges_from(&mut reg, "parent");
    remove_edges_to(&mut reg, "child");
    remove_touch_edge(&mut reg, "parent", "child");
    remove_touch_edges_from(&mut reg, "parent");
    remove_touch_edges_to(&mut reg, "child");
    remove_spawn_edges_to(&mut reg, "other");
    remove_node(&mut reg, "unrelated");
    assert_eq!(spawns(&mut reg), vec![("parent".to_string(), "child".to_string())]);
    remove_spawn_edges_to(&mut reg, "child");
    assert!(spawns(&mut reg).is_empty());
}

#[test]
fn every_registered_edge_is_emitted() {
    let mut reg = LegacyRegistry::new();
    init(&mut reg, "p", "k");
    edge(&mut reg, "a", "b");
    edge(&mut reg, "c", "d");
    touch_edge(&mut reg, "a", "c");
    spawn_edge(&mut reg, "x", "y");
    spawn_edge(&mut reg, "x", "z");
    let graph = emit_graph(&mut reg);
    let mut listed: Vec<(String, String, EdgeKind)> =
        graph.edges.into_iter().map(|e| (e.src, e.dst, e.kind)).collect();
    listed.sort_by(|a, b| (a.0.clone(), a.1.clone()).cmp(&(b.0.clone(), b.1.clone())));
    let e = |a: &str, b: &str, k: EdgeKind| (a.to_string(), b.to_string(), k);
    assert_eq!(
        listed,
        vec![
            e("a", "b", EdgeKind::Needs),
            e("a", "c", EdgeKind::Touches),
            e("c", "d", EdgeKind::Needs),
            e("x", "y", EdgeKind::Spawned),
            e("x", "z", EdgeKind::Spawned),
        ]
    );
}
