use peeps::dump::RequestParentRef;
use peeps::wait_edges::{
    build_wait_edges, ConnectionInfo, CreatedChannelInfo, DumpInfo, FuturePollInfo,
    FutureResourceInfo, FutureResumeInfo, FutureSpawnInfo, FutureWaitInfo, FutureWakeInfo,
    InFlightInfo, LockAcquireKind, LockHolderInfo, LockInfo, LockSnapshot, LockWaiterInfo, MethodName,
    MpscInfo, OnceCellInfo, RoamChannelInfo, SemaphoreInfo, SessionInfo, SyncInfo, TaskInfo, WaitEdge,
    WakeInfo,
};
use peeps::wait_nodes::WaitGraph;
use peeps::tasks::TaskState;
use peeps::waitgraph::{EdgeConfidence, EdgeKind, NodeId, NodeKind, ResourceRef, RpcDirection, SecsBits};

fn empty_dump(pid: u32, name: &str) -> DumpInfo {
    DumpInfo {
        pid,
        process_name: name.to_string(),
        tasks: vec![],
        wake_edges: vec![],
        future_wake_edges: vec![],
        future_waits: vec![],
        locks: None,
        sync: None,
        roam: None,
        future_spawn_edges: vec![],
        future_poll_edges: vec![],
        future_resume_edges: vec![],
        future_resource_edges: vec![],
        request_parents: vec![],
    }
}

fn plain_task(id: u64) -> TaskInfo {
    TaskInfo {
        id,
        name: format!("t{}", id),
        state: TaskState::Pending,
        age_secs: SecsBits(1.0f64.to_bits()),
        parent_task_id: None,
    }
}

fn empty_sync() -> SyncInfo {
    SyncInfo {
        mpsc_channels: vec![],
        oneshot_channels: vec![],
        watch_channels: vec![],
        semaphores: vec![],
        once_cells: vec![],
    }
}

fn request(
    method: &str,
    request_id: u64,
    direction: RpcDirection,
    slow: bool,
    task_id: Option<u64>,
) -> InFlightInfo {
    InFlightInfo {
        request_id,
        elapsed_secs: SecsBits(if slow { 6.0f64 } else { 1.0f64 }.to_bits()),
        method_id: 0,
        method_name: Some(method.to_string()),
        task_id,
        direction,
    }
}

fn connection(name: &str, in_flight: Vec<InFlightInfo>) -> ConnectionInfo {
    ConnectionInfo { name: name.to_string(), in_flight }
}

fn session(connections: Vec<ConnectionInfo>) -> SessionInfo {
    SessionInfo { connections, method_names: vec![], channels: vec![] }
}

fn lock(name: &str, holders: Vec<(u64, f64)>, waiters: Vec<(u64, f64)>) -> LockInfo {
    LockInfo {
        name: name.to_string(),
        acquires: 100,
        releases: 99,
        holders: holders
            .into_iter()
            .map(|(t, held)| LockHolderInfo {
                task_id: Some(t),
                kind: LockAcquireKind::Mutex,
                held_secs: SecsBits(held.to_bits()),
            })
            .collect(),
        waiters: waiters
            .into_iter()
            .map(|(t, wait)| LockWaiterInfo { task_id: Some(t), waiting_secs: SecsBits(wait.to_bits()) })
            .collect(),
    }
}

fn has_node(nodes: &[(NodeId, NodeKind)], id: &NodeId) -> bool {
    nodes.iter().any(|(n, _)| n == id)
}

fn kind_of<'a>(nodes: &'a [(NodeId, NodeKind)], id: &NodeId) -> &'a NodeKind {
    &nodes.iter().find(|(n, _)| n == id).unwrap().1
}

fn of_kind(edges: &[WaitEdge], kind: EdgeKind) -> Vec<&WaitEdge> {
    edges.iter().filter(|e| e.kind == kind).collect()
}

fn task_node(pid: u32, task_id: u64) -> NodeId {
    NodeId::Task { pid, task_id }
}

fn future_node(pid: u32, future_id: u64) -> NodeId {
    NodeId::Future { pid, future_id }
}

fn request_node(pid: u32, connection: &str, request_id: u64) -> NodeId {
    NodeId::RpcRequest { pid, connection: connection.to_string(), request_id }
}

#[test]
fn empty_dump_produces_process_node() {
    let graph = WaitGraph::build(&vec![empty_dump(1, "myapp")]);
    assert_eq!(graph.nodes.len(), 1);
    assert_eq!(graph.nodes[0].0, NodeId::Process { pid: 1 });
    assert_eq!(graph.nodes[0].1, NodeKind::Process { name: "myapp".to_string(), pid: 1 });
    assert!(graph.edges.is_empty());
}

#[test]
fn multiple_dumps_merge() {
    let graph = WaitGraph::build(&vec![empty_dump(1, "frontend"), empty_dump(2, "backend")]);
    assert_eq!(graph.nodes.len(), 2);
    assert!(has_node(&graph.nodes, &NodeId::Process { pid: 1 }));
    assert!(has_node(&graph.nodes, &NodeId::Process { pid: 2 }));
}

#[test]
fn once_cell_creates_node() {
    let mut dump = empty_dump(1, "cell-app");
    let mut sync = empty_sync();
    sync.once_cells = vec![OnceCellInfo { name: "config".to_string() }];
    dump.sync = Some(sync);
    let graph = WaitGraph::build(&vec![dump]);
    assert_eq!(graph.nodes.len(), 2);
    assert!(has_node(&graph.nodes, &NodeId::OnceCell { pid: 1, name: "config".to_string() }));
}

#[test]
fn tasks_with_parent_produce_spawn_edges() {
    let mut dump = empty_dump(1, "app");
    dump.tasks = vec![plain_task(1), TaskInfo { parent_task_id: Some(1), ..plain_task(2) }];
    let WaitGraph { nodes, edges } = WaitGraph::build(&vec![dump]);
    assert_eq!(nodes.len(), 3);
    assert_eq!(edges.len(), 1);
    assert_eq!(edges[0].kind, EdgeKind::TaskSpawnedTask);
    assert_eq!(edges[0].from, task_node(1, 1));
    assert_eq!(edges[0].to, task_node(1, 2));
}

#[test]
fn lock_contention_produces_wait_and_ownership_edges() {
    let mut dump = empty_dump(1, "app");
    dump.tasks = vec![plain_task(10), plain_task(20)];
    // held for 2.0 s, waited for 0.5 s
    dump.locks = Some(LockSnapshot { locks: vec![lock("db_pool", vec![(10, 2.0)], vec![(20, 0.5)])] });
    let WaitGraph { nodes, edges } = WaitGraph::build(&vec![dump]);
    assert_eq!(nodes.len(), 4);
    let owns = of_kind(&edges, EdgeKind::ResourceOwnedByTask);
    assert_eq!(owns.len(), 1);
    assert_eq!(owns[0].from, NodeId::Lock { pid: 1, name: "db_pool".to_string() });
    assert_eq!(owns[0].to, task_node(1, 10));
    let waits = of_kind(&edges, EdgeKind::TaskWaitsOnResource);
    assert_eq!(waits.len(), 1);
    assert_eq!(waits[0].from, task_node(1, 20));
    assert_eq!(waits[0].to, NodeId::Lock { pid: 1, name: "db_pool".to_string() });
}

#[test]
fn future_wait_produces_edges() {
    let mut dump = empty_dump(1, "app");
    dump.tasks = vec![plain_task(5)];
    dump.future_waits = vec![FutureWaitInfo {
        future_id: 42,
        resource: "timeout".to_string(),
        task_id: 5,
        pending_count: 3,
        ready_count: 0,
        created_by_task_id: Some(5),
    }];
    let WaitGraph { nodes, edges } = WaitGraph::build(&vec![dump]);
    assert_eq!(nodes.len(), 3);
    assert_eq!(edges.len(), 2);
    let wait = edges.iter().find(|e| e.kind == EdgeKind::TaskWaitsOnResource).unwrap();
    assert_eq!(wait.meta.severity_hint, 2);
    assert_eq!(wait.meta.count, 3);
}

#[test]
fn rpc_in_flight_produces_edges() {
    let mut dump = empty_dump(1, "app");
    dump.tasks = vec![plain_task(7)];
    // in flight for 6.0 s
    dump.roam = Some(session(vec![connection(
        "conn-1",
        vec![request("get_user", 99, RpcDirection::Outgoing, true, Some(7))],
    )]));
    let edges = build_wait_edges(&vec![dump]);
    let rpc = of_kind(&edges, EdgeKind::RpcClientToRequest);
    assert_eq!(rpc.len(), 1);
    assert_eq!(rpc[0].meta.severity_hint, 3);
    assert_eq!(rpc[0].from, task_node(1, 7));
    assert_eq!(rpc[0].to, request_node(1, "conn-1", 99));
}

fn cross_process_fixture() -> Vec<DumpInfo> {
    let mut dump_a = empty_dump(100, "process-A");
    dump_a.tasks = vec![plain_task(1), plain_task(3)];
    dump_a.roam = Some(session(vec![
        connection(
            "conn-to-B",
            vec![request("do_work", 300, RpcDirection::Outgoing, true, Some(1))],
        ),
        connection(
            "conn-from-B",
            vec![request("callback", 400, RpcDirection::Incoming, true, Some(3))],
        ),
    ]));
    // held for 10.0 s, waited for 8.0 s
    dump_a.locks = Some(LockSnapshot { locks: vec![lock("shared-state", vec![(1, 10.0)], vec![(3, 8.0)])] });
    let mut dump_b = empty_dump(200, "process-B");
    dump_b.tasks = vec![plain_task(2)];
    dump_b.roam = Some(session(vec![
        connection(
            "conn-from-A",
            vec![request("do_work", 300, RpcDirection::Incoming, true, Some(2))],
        ),
        connection(
            "conn-to-A",
            vec![request("callback", 400, RpcDirection::Outgoing, true, Some(2))],
        ),
    ]));
    vec![dump_a, dump_b]
}

#[test]
fn fixture_cross_process_normalization() {
    let WaitGraph { nodes, edges } = WaitGraph::build(&cross_process_fixture());
    assert_eq!(nodes.len(), 10);
    assert_eq!(edges.len(), 8);
    assert_eq!(of_kind(&edges, EdgeKind::RpcClientToRequest).len(), 2);
    assert_eq!(of_kind(&edges, EdgeKind::RpcRequestToServerTask).len(), 2);
    let lock_wait = edges.iter().find(|e| e.kind == EdgeKind::TaskWaitsOnResource).unwrap();
    assert_eq!(lock_wait.from, task_node(100, 3));
    assert_eq!(lock_wait.meta.severity_hint, 3);
    let lock_own = edges.iter().find(|e| e.kind == EdgeKind::ResourceOwnedByTask).unwrap();
    assert_eq!(lock_own.to, task_node(100, 1));
    assert_eq!(lock_own.meta.severity_hint, 3);
}

#[test]
fn cross_process_stitches_follow_request_key_order() {
    let edges = build_wait_edges(&cross_process_fixture());
    let stitches = of_kind(&edges, EdgeKind::RpcCrossProcessStitch);
    assert_eq!(stitches.len(), 2);
    // Request nodes are visited by (pid, connection, id): A's "conn-from-B"
    // comes before A's "conn-to-B", so the callback stitch is found first.
    assert_eq!(stitches[0].from, request_node(200, "conn-to-A", 400));
    assert_eq!(stitches[0].to, request_node(100, "conn-from-B", 400));
    assert_eq!(stitches[1].from, request_node(100, "conn-to-B", 300));
    assert_eq!(stitches[1].to, request_node(200, "conn-from-A", 300));
    for s in &stitches {
        assert_eq!(s.meta.confidence, EdgeConfidence::Derived);
        assert_eq!(s.meta.severity_hint, 3);
    }
}

#[test]
fn stitching_uses_the_session_method_names() {
    let mut dump_a = empty_dump(1, "a");
    dump_a.roam = Some(SessionInfo {
        connections: vec![connection(
            "out",
            vec![InFlightInfo {
                request_id: 5,
                elapsed_secs: SecsBits(0),
                method_id: 9,
                method_name: None,
                task_id: None,
                direction: RpcDirection::Outgoing,
            }],
        )],
        method_names: vec![MethodName { method_id: 9, name: "ping".to_string() }],
        channels: vec![],
    });
    let mut dump_b = empty_dump(2, "b");
    dump_b.roam = Some(session(vec![connection(
        "in",
        vec![request("ping", 5, RpcDirection::Incoming, false, None)],
    )]));
    let edges = build_wait_edges(&vec![dump_a, dump_b]);
    assert_eq!(edges.len(), 1);
    assert_eq!(edges[0].kind, EdgeKind::RpcCrossProcessStitch);
    assert_eq!(edges[0].from, request_node(1, "out", 5));
    assert_eq!(edges[0].to, request_node(2, "in", 5));
    assert_eq!(edges[0].meta.severity_hint, 1);
}

#[test]
fn different_methods_are_not_stitched() {
    let mut dump_a = empty_dump(1, "a");
    dump_a.roam = Some(session(vec![connection(
        "out",
        vec![request("ping", 5, RpcDirection::Outgoing, false, None)],
    )]));
    let mut dump_b = empty_dump(2, "b");
    dump_b.roam = Some(session(vec![connection(
        "in",
        vec![request("pong", 5, RpcDirection::Incoming, false, None)],
    )]));
    assert!(build_wait_edges(&vec![dump_a, dump_b]).is_empty());
}

#[test]
fn a_repeated_request_is_stitched_once_with_its_last_report() {
    let mut dump_a = empty_dump(1, "a");
    dump_a.roam = Some(session(vec![
        connection("out", vec![request("ping", 5, RpcDirection::Outgoing, false, None)]),
        connection("out", vec![request("ping", 5, RpcDirection::Outgoing, true, None)]),
    ]));
    let mut dump_b = empty_dump(2, "b");
    dump_b.roam = Some(session(vec![connection(
        "in",
        vec![request("ping", 5, RpcDirection::Incoming, false, None)],
    )]));
    let edges = build_wait_edges(&vec![dump_a, dump_b]);
    assert_eq!(edges.len(), 1);
    assert_eq!(edges[0].meta.severity_hint, 3);
}

#[test]
fn mpsc_with_blocked_senders_produces_wait_edge() {
    let mut dump = empty_dump(1, "channel-app");
    dump.tasks = vec![plain_task(5)];
    let mut sync = empty_sync();
    sync.mpsc_channels = vec![MpscInfo {
        name: "work-queue".to_string(),
        bounded: true,
        capacity: Some(10),
        sent: 1000,
        received: 990,
        creator_task_id: Some(5),
        send_waiters: 3,
    }];
    dump.sync = Some(sync);
    let WaitGraph { nodes, edges } = WaitGraph::build(&vec![dump]);
    assert_eq!(nodes.len(), 3);
    assert_eq!(of_kind(&edges, EdgeKind::ResourceOwnedByTask).len(), 1);
    let waits = of_kind(&edges, EdgeKind::TaskWaitsOnResource);
    assert_eq!(waits.len(), 1);
    assert_eq!(waits[0].meta.count, 3);
    assert_eq!(waits[0].meta.severity_hint, 2);
}

#[test]
fn wake_edges_produce_graph_edges() {
    let mut dump = empty_dump(1, "wake-app");
    dump.tasks = vec![plain_task(1), plain_task(2)];
    dump.wake_edges = vec![WakeInfo { source_task_id: Some(1), target_task_id: 2, wake_count: 42 }];
    let WaitGraph { nodes, edges } = WaitGraph::build(&vec![dump]);
    assert_eq!(nodes.len(), 3);
    let wakes = of_kind(&edges, EdgeKind::TaskWakesFuture);
    assert_eq!(wakes.len(), 1);
    assert_eq!(wakes[0].meta.count, 42);
}

#[test]
fn future_wake_edges_produce_graph_edges() {
    let mut dump = empty_dump(1, "fut-wake-app");
    dump.tasks = vec![plain_task(1), plain_task(2)];
    dump.future_wake_edges = vec![FutureWakeInfo {
        future_id: 99,
        future_resource: "notify".to_string(),
        source_task_id: Some(1),
        target_task_id: Some(2),
        wake_count: 10,
    }];
    let WaitGraph { nodes, edges } = WaitGraph::build(&vec![dump]);
    assert_eq!(nodes.len(), 4);
    assert_eq!(of_kind(&edges, EdgeKind::TaskWakesFuture).len(), 1);
    let resumes = of_kind(&edges, EdgeKind::FutureResumesTask);
    assert_eq!(resumes.len(), 1);
    assert_eq!(resumes[0].to, task_node(1, 2));
}

#[test]
fn oneshot_channel_produces_ownership_edge() {
    let mut dump = empty_dump(1, "oneshot-app");
    dump.tasks = vec![plain_task(7)];
    let mut sync = empty_sync();
    sync.oneshot_channels =
        vec![CreatedChannelInfo { name: "response-ch".to_string(), changes: 0, creator_task_id: Some(7) }];
    dump.sync = Some(sync);
    let WaitGraph { nodes, edges } = WaitGraph::build(&vec![dump]);
    assert_eq!(nodes.len(), 3);
    let owns = of_kind(&edges, EdgeKind::ResourceOwnedByTask);
    assert_eq!(owns.len(), 1);
    assert_eq!(owns[0].from, NodeId::OneshotChannel { pid: 1, name: "response-ch".to_string() });
}

#[test]
fn semaphore_with_waiters_produces_edges() {
    let mut dump = empty_dump(1, "sem-app");
    dump.tasks = vec![plain_task(10), plain_task(20), plain_task(30)];
    let mut sync = empty_sync();
    // oldest wait 15.0 s earns severity 2
    sync.semaphores = vec![SemaphoreInfo {
        name: "pool-limit".to_string(),
        permits_total: 4,
        permits_available: 0,
        waiters: 2,
        oldest_wait_secs: SecsBits(15.0f64.to_bits()),
        creator_task_id: Some(10),
        top_waiter_task_ids: vec![20, 30],
    }];
    dump.sync = Some(sync);
    let WaitGraph { nodes, edges } = WaitGraph::build(&vec![dump]);
    assert_eq!(nodes.len(), 5);
    assert!(has_node(&nodes, &NodeId::Semaphore { pid: 1, name: "pool-limit".to_string() }));
    let owns = of_kind(&edges, EdgeKind::ResourceOwnedByTask);
    assert_eq!(owns.len(), 1);
    assert_eq!(owns[0].from, NodeId::Semaphore { pid: 1, name: "pool-limit".to_string() });
    assert_eq!(owns[0].to, task_node(1, 10));
    let waits = of_kind(&edges, EdgeKind::TaskWaitsOnResource);
    assert_eq!(waits.len(), 2);
    for w in &waits {
        assert_eq!(w.meta.severity_hint, 2);
    }
}

#[test]
fn semaphore_no_waiters_no_wait_edges() {
    let mut dump = empty_dump(1, "sem-app");
    dump.tasks = vec![plain_task(10)];
    let mut sync = empty_sync();
    sync.semaphores = vec![SemaphoreInfo {
        name: "idle-sem".to_string(),
        permits_total: 4,
        permits_available: 4,
        waiters: 0,
        oldest_wait_secs: SecsBits(0),
        creator_task_id: Some(10),
        top_waiter_task_ids: vec![],
    }];
    dump.sync = Some(sync);
    let WaitGraph { nodes, edges } = WaitGraph::build(&vec![dump]);
    assert_eq!(nodes.len(), 3);
    assert!(of_kind(&edges, EdgeKind::TaskWaitsOnResource).is_empty());
    assert_eq!(of_kind(&edges, EdgeKind::ResourceOwnedByTask).len(), 1);
}

#[test]
fn roam_channel_produces_node_and_wait_edge() {
    let mut dump = empty_dump(1, "roam-ch-app");
    dump.tasks = vec![plain_task(8)];
    // age 15.0 s earns severity 2
    dump.roam = Some(SessionInfo {
        connections: vec![],
        method_names: vec![],
        channels: vec![RoamChannelInfo {
            channel_id: 42,
            name: "conn-1".to_string(),
            queue_depth: None,
            closed: false,
            task_id: Some(8),
            age_secs: SecsBits(15.0f64.to_bits()),
        }],
    });
    let WaitGraph { nodes, edges } = WaitGraph::build(&vec![dump]);
    assert_eq!(nodes.len(), 3);
    assert!(has_node(&nodes, &NodeId::RoamChannel { pid: 1, channel_id: 42 }));
    let waits = of_kind(&edges, EdgeKind::TaskWaitsOnResource);
    assert_eq!(waits.len(), 1);
    assert_eq!(waits[0].from, task_node(1, 8));
    assert_eq!(waits[0].to, NodeId::RoamChannel { pid: 1, channel_id: 42 });
    assert_eq!(waits[0].meta.severity_hint, 2);
}

#[test]
fn closed_roam_channel_no_wait_edge() {
    let mut dump = empty_dump(1, "app");
    dump.tasks = vec![plain_task(1)];
    dump.roam = Some(SessionInfo {
        connections: vec![],
        method_names: vec![],
        channels: vec![RoamChannelInfo {
            channel_id: 10,
            name: "c".to_string(),
            queue_depth: None,
            closed: true,
            task_id: Some(1),
            age_secs: SecsBits(5.0f64.to_bits()),
        }],
    });
    let WaitGraph { nodes, edges } = WaitGraph::build(&vec![dump]);
    assert!(has_node(&nodes, &NodeId::RoamChannel { pid: 1, channel_id: 10 }));
    assert!(of_kind(&edges, EdgeKind::TaskWaitsOnResource).is_empty());
}

#[test]
fn future_spawn_edge_creates_future_to_future() {
    let mut dump = empty_dump(1, "app");
    dump.future_spawn_edges = vec![FutureSpawnInfo {
        parent_future_id: 10,
        parent_resource: "join_all".to_string(),
        child_future_id: 20,
        child_resource: "rpc.call".to_string(),
    }];
    let WaitGraph { nodes, edges } = WaitGraph::build(&vec![dump]);
    assert_eq!(nodes.len(), 3);
    let spawns = of_kind(&edges, EdgeKind::FutureSpawnedFuture);
    assert_eq!(spawns.len(), 1);
    assert_eq!(spawns[0].from, future_node(1, 10));
    assert_eq!(spawns[0].to, future_node(1, 20));
    assert_eq!(spawns[0].meta.confidence, EdgeConfidence::Explicit);
}

#[test]
fn future_spawn_self_cycle_skipped() {
    let mut dump = empty_dump(1, "app");
    dump.future_spawn_edges = vec![FutureSpawnInfo {
        parent_future_id: 10,
        parent_resource: "join_all".to_string(),
        child_future_id: 10,
        child_resource: "rpc.call".to_string(),
    }];
    assert!(build_wait_edges(&vec![dump]).is_empty());
}

#[test]
fn future_poll_edge_creates_task_to_future_with_severity() {
    let mut dump = empty_dump(1, "app");
    dump.tasks = vec![plain_task(1)];
    // total poll time 6.0 s earns severity 2
    dump.future_poll_edges =
        vec![FuturePollInfo { task_id: 1, future_id: 42, future_resource: "timer".to_string(), poll_count: 100, total_poll_secs: SecsBits(6.0f64.to_bits()) }];
    let WaitGraph { nodes, edges } = WaitGraph::build(&vec![dump]);
    assert_eq!(nodes.len(), 3);
    let polls = of_kind(&edges, EdgeKind::TaskPollsFuture);
    assert_eq!(polls.len(), 1);
    assert_eq!(polls[0].from, task_node(1, 1));
    assert_eq!(polls[0].to, future_node(1, 42));
    assert_eq!(polls[0].meta.severity_hint, 2);
    assert_eq!(polls[0].meta.count, 100);
    assert_eq!(polls[0].meta.confidence, EdgeConfidence::Explicit);
}

#[test]
fn future_resume_edge_creates_future_to_task_explicit() {
    let mut dump = empty_dump(1, "app");
    dump.tasks = vec![plain_task(2)];
    dump.future_resume_edges =
        vec![FutureResumeInfo { future_id: 50, future_resource: "notify".to_string(), target_task_id: 2, resume_count: 5 }];
    let edges = build_wait_edges(&vec![dump]);
    let resumes = of_kind(&edges, EdgeKind::FutureResumesTask);
    assert_eq!(resumes.len(), 1);
    assert_eq!(resumes[0].from, future_node(1, 50));
    assert_eq!(resumes[0].to, task_node(1, 2));
    assert_eq!(resumes[0].meta.confidence, EdgeConfidence::Explicit);
    assert_eq!(resumes[0].meta.count, 5);
}

fn resource_dump(future_id: u64, resource: ResourceRef, wait_count: u64, total_wait: f64) -> DumpInfo {
    let mut dump = empty_dump(1, "app");
    dump.future_resource_edges =
        vec![FutureResourceInfo {
            future_id,
            resource,
            fallback_label: "resource".to_string(),
            wait_count,
            total_wait_secs: SecsBits(total_wait.to_bits()),
        }];
    dump
}

#[test]
fn future_resource_edge_maps_lock_to_correct_node() {
    // total wait 2.0 s earns severity 1
    let dump = resource_dump(60, ResourceRef::Lock { name: "db_pool".to_string() }, 10, 2.0);
    let edges = build_wait_edges(&vec![dump]);
    let res = of_kind(&edges, EdgeKind::FutureWaitsOnResource);
    assert_eq!(res.len(), 1);
    assert_eq!(res[0].to, NodeId::Lock { pid: 1, name: "db_pool".to_string() });
    assert_eq!(res[0].meta.severity_hint, 1);
}

#[test]
fn future_resource_edge_maps_mpsc_to_correct_node() {
    let dump = resource_dump(61, ResourceRef::Mpsc { name: "work-queue".to_string() }, 5, 0.5);
    let edges = build_wait_edges(&vec![dump]);
    let res = of_kind(&edges, EdgeKind::FutureWaitsOnResource);
    assert_eq!(res.len(), 1);
    assert_eq!(res[0].to, NodeId::MpscChannel { pid: 1, name: "work-queue".to_string() });
}

#[test]
fn future_resource_edge_maps_roam_channel() {
    // total wait 12.0 s earns severity 3
    let dump = resource_dump(62, ResourceRef::RoamChannel { channel_id: 42 }, 3, 12.0);
    let edges = build_wait_edges(&vec![dump]);
    let res = of_kind(&edges, EdgeKind::FutureWaitsOnResource);
    assert_eq!(res.len(), 1);
    assert_eq!(res[0].to, NodeId::RoamChannel { pid: 1, channel_id: 42 });
    assert_eq!(res[0].meta.severity_hint, 3);
}

#[test]
fn future_resource_edge_maps_semaphore() {
    let dump = resource_dump(63, ResourceRef::Semaphore { name: "pool".to_string() }, 1, 0.1);
    let edges = build_wait_edges(&vec![dump]);
    let res = of_kind(&edges, EdgeKind::FutureWaitsOnResource);
    assert_eq!(res.len(), 1);
    assert_eq!(res[0].to, NodeId::Semaphore { pid: 1, name: "pool".to_string() });
    assert_eq!(res[0].meta.severity_hint, 0);
}

fn parent_link(
    child: (&str, &str, u64),
    parent: (&str, &str, u64),
) -> RequestParentRef {
    RequestParentRef {
        child_process: child.0.to_string(),
        child_connection: child.1.to_string(),
        child_request_id: child.2,
        parent_process: parent.0.to_string(),
        parent_connection: parent.1.to_string(),
        parent_request_id: parent.2,
    }
}

#[test]
fn request_parent_creates_cross_process_stitch() {
    let mut dump_a = empty_dump(100, "frontend");
    dump_a.roam = Some(session(vec![connection(
        "conn-a",
        vec![request("get", 1, RpcDirection::Outgoing, false, Some(1))],
    )]));
    dump_a.tasks = vec![plain_task(1)];
    dump_a.request_parents = vec![parent_link(("backend", "conn-b", 2), ("frontend", "conn-a", 1))];
    let mut dump_b = empty_dump(200, "backend");
    dump_b.roam = Some(session(vec![connection(
        "conn-b",
        vec![request("get", 2, RpcDirection::Incoming, false, Some(2))],
    )]));
    dump_b.tasks = vec![plain_task(2)];
    let edges = build_wait_edges(&vec![dump_a, dump_b]);
    let parents: Vec<_> = edges
        .iter()
        .filter(|e| {
            e.kind == EdgeKind::RpcCrossProcessStitch
                && e.meta.confidence == EdgeConfidence::Explicit
        })
        .collect();
    assert_eq!(parents.len(), 1);
    assert_eq!(parents[0].from, request_node(200, "conn-b", 2));
    assert_eq!(parents[0].to, request_node(100, "conn-a", 1));
}

#[test]
fn request_parent_same_process_uses_rpc_request_parent() {
    let mut dump = empty_dump(1, "app");
    dump.roam = Some(session(vec![connection(
        "conn",
        vec![
            request("a", 1, RpcDirection::Incoming, false, Some(1)),
            request("b", 2, RpcDirection::Incoming, false, Some(2)),
        ],
    )]));
    dump.tasks = vec![plain_task(1), plain_task(2)];
    dump.request_parents = vec![parent_link(("app", "conn", 2), ("app", "conn", 1))];
    let edges = build_wait_edges(&vec![dump]);
    let parents = of_kind(&edges, EdgeKind::RpcRequestParent);
    assert_eq!(parents.len(), 1);
    assert_eq!(parents[0].meta.confidence, EdgeConfidence::Explicit);
}

#[test]
fn a_parent_link_with_an_unknown_end_is_dropped() {
    let mut dump = empty_dump(1, "app");
    dump.roam = Some(session(vec![connection(
        "conn",
        vec![request("a", 1, RpcDirection::Incoming, false, Some(1))],
    )]));
    dump.request_parents = vec![parent_link(("app", "conn", 7), ("app", "conn", 1))];
    let edges = build_wait_edges(&vec![dump]);
    assert!(of_kind(&edges, EdgeKind::RpcRequestParent).is_empty());
}

#[test]
fn future_poll_no_self_cycle_from_same_ids() {
    let mut dump = empty_dump(1, "app");
    dump.tasks = vec![plain_task(1)];
    dump.future_poll_edges =
        vec![FuturePollInfo { task_id: 1, future_id: 99, future_resource: "timer".to_string(), poll_count: 10, total_poll_secs: SecsBits(0.5f64.to_bits()) }];
    let edges = build_wait_edges(&vec![dump]);
    for edge in &edges {
        assert_ne!(edge.from, edge.to);
    }
}

#[test]
fn existing_edges_are_derived() {
    let mut dump = empty_dump(1, "app");
    dump.tasks = vec![plain_task(1), TaskInfo { parent_task_id: Some(1), ..plain_task(2) }];
    let edges = build_wait_edges(&vec![dump]);
    let spawns = of_kind(&edges, EdgeKind::TaskSpawnedTask);
    assert_eq!(spawns.len(), 1);
    assert_eq!(spawns[0].meta.confidence, EdgeConfidence::Derived);
}

#[test]
fn read_holders_are_harmless_and_writers_escalate() {
    let mut dump = empty_dump(3, "app");
    dump.locks = Some(LockSnapshot { locks: vec![LockInfo {
        name: "rw".to_string(),
        acquires: 3,
        releases: 1,
        holders: vec![
            LockHolderInfo { task_id: Some(1), kind: LockAcquireKind::Read, held_secs: SecsBits(2.0f64.to_bits()) },
            LockHolderInfo { task_id: Some(2), kind: LockAcquireKind::Write, held_secs: SecsBits(0.5f64.to_bits()) },
            LockHolderInfo { task_id: None, kind: LockAcquireKind::Write, held_secs: SecsBits(2.0f64.to_bits()) },
        ],
        waiters: vec![],
    }] });
    let edges = build_wait_edges(&vec![dump]);
    assert_eq!(edges.len(), 2);
    assert_eq!(edges[0].meta.severity_hint, 0);
    assert_eq!(edges[1].meta.severity_hint, 1);
}

#[test]
fn sections_come_in_dump_order() {
    let mut dump = empty_dump(1, "app");
    dump.future_resume_edges =
        vec![FutureResumeInfo { future_id: 50, future_resource: "notify".to_string(), target_task_id: 2, resume_count: 1 }];
    dump.tasks = vec![TaskInfo { parent_task_id: Some(1), ..plain_task(2) }];
    let mut sync = empty_sync();
    sync.watch_channels =
        vec![CreatedChannelInfo { name: "cfg".to_string(), changes: 0, creator_task_id: Some(1) }];
    dump.sync = Some(sync);
    let edges = build_wait_edges(&vec![dump]);
    let kinds: Vec<EdgeKind> = edges.iter().map(|e| e.kind).collect();
    assert_eq!(
        kinds,
        vec![EdgeKind::TaskSpawnedTask, EdgeKind::ResourceOwnedByTask, EdgeKind::FutureResumesTask]
    );
    assert_eq!(edges[1].from, NodeId::WatchChannel { pid: 1, name: "cfg".to_string() });
}

#[test]
fn nodes_come_in_key_order_once_each() {
    let mut dump = empty_dump(4, "app");
    dump.tasks = vec![plain_task(9), plain_task(2), plain_task(9)];
    dump.future_poll_edges =
        vec![FuturePollInfo { task_id: 2, future_id: 7, future_resource: "timer".to_string(), poll_count: 1, total_poll_secs: SecsBits(0) }];
    dump.future_resume_edges =
        vec![FutureResumeInfo { future_id: 7, future_resource: "notify".to_string(), target_task_id: 9, resume_count: 1 }];
    dump.future_resource_edges = vec![FutureResourceInfo {
        future_id: 7,
        fallback_label: "Lock { name: \"b\" }".to_string(),
        resource: ResourceRef::Lock { name: "b".to_string() },
        wait_count: 1,
        total_wait_secs: SecsBits(0),
    }];
    dump.locks = Some(LockSnapshot { locks: vec![lock("a", vec![], vec![]), lock("b", vec![], vec![])] });
    let graph = WaitGraph::build(&vec![dump]);
    assert_eq!(
        graph.nodes.iter().map(|(n, _)| n.clone()).collect::<Vec<_>>(),
        vec![
            task_node(4, 2),
            task_node(4, 9),
            future_node(4, 7),
            NodeId::Lock { pid: 4, name: "a".to_string() },
            NodeId::Lock { pid: 4, name: "b".to_string() },
            NodeId::Process { pid: 4 },
        ]
    );
    // The lock resource's node keeps the kind its lock section gave it; the
    // future keeps the kind of the first write that named it.
    assert_eq!(
        *kind_of(&graph.nodes, &NodeId::Lock { pid: 4, name: "b".to_string() }),
        NodeKind::Lock { name: "b".to_string(), acquires: 100, releases: 99 }
    );
    assert_eq!(*kind_of(&graph.nodes, &future_node(4, 7)), NodeKind::Future { resource: "timer".to_string() });
    assert_eq!(
        *kind_of(&graph.nodes, &task_node(4, 9)),
        NodeKind::Task { name: "t9".to_string(), state: TaskState::Pending, age_secs: SecsBits(1.0f64.to_bits()) }
    );
}

#[test]
fn node_kinds_carry_the_snapshot_data() {
    let mut dump = empty_dump(1, "sem-app");
    let mut sync = empty_sync();
    sync.semaphores = vec![SemaphoreInfo {
        name: "pool".to_string(),
        permits_total: 4,
        permits_available: 1,
        waiters: 2,
        oldest_wait_secs: SecsBits(2.5f64.to_bits()),
        creator_task_id: None,
        top_waiter_task_ids: vec![],
    }];
    sync.mpsc_channels = vec![MpscInfo {
        name: "q".to_string(),
        bounded: false,
        capacity: None,
        sent: 3,
        received: 5,
        creator_task_id: None,
        send_waiters: 0,
    }];
    dump.sync = Some(sync);
    dump.future_resource_edges = vec![FutureResourceInfo {
        future_id: 1,
        resource: ResourceRef::Mpsc { name: "gone".to_string() },
        fallback_label: "Mpsc { name: \"gone\" }".to_string(),
        wait_count: 1,
        total_wait_secs: SecsBits(0),
    }];
    let graph = WaitGraph::build(&vec![dump]);
    assert_eq!(
        *kind_of(&graph.nodes, &NodeId::Semaphore { pid: 1, name: "pool".to_string() }),
        NodeKind::Semaphore {
            name: "pool".to_string(),
            permits_total: 4,
            permits_available: 1,
            waiters: 2,
            oldest_wait_secs: SecsBits(2.5f64.to_bits()),
        }
    );
    assert_eq!(
        *kind_of(&graph.nodes, &NodeId::MpscChannel { pid: 1, name: "q".to_string() }),
        NodeKind::MpscChannel { name: "q".to_string(), bounded: false, capacity: None, pending: 0 }
    );
    assert_eq!(
        *kind_of(&graph.nodes, &NodeId::MpscChannel { pid: 1, name: "gone".to_string() }),
        NodeKind::Unknown { label: "Mpsc { name: \"gone\" }".to_string() }
    );
}

fn pid_of(n: &NodeId) -> u32 {
    match n {
        NodeId::Task { pid, .. }
        | NodeId::Future { pid, .. }
        | NodeId::Lock { pid, .. }
        | NodeId::MpscChannel { pid, .. }
        | NodeId::OneshotChannel { pid, .. }
        | NodeId::WatchChannel { pid, .. }
        | NodeId::OnceCell { pid, .. }
        | NodeId::Semaphore { pid, .. }
        | NodeId::RoamChannel { pid, .. }
        | NodeId::Socket { pid, .. }
        | NodeId::Unknown { pid, .. }
        | NodeId::RpcRequest { pid, .. }
        | NodeId::Process { pid } => *pid,
    }
}

#[test]
fn only_stitches_cross_processes() {
    let edges = build_wait_edges(&cross_process_fixture());
    for e in &edges {
        if e.kind == EdgeKind::RpcCrossProcessStitch {
            assert_ne!(pid_of(&e.from), pid_of(&e.to));
        } else {
            assert_eq!(pid_of(&e.from), pid_of(&e.to));
        }
    }
}

#[test]
fn semaphore_contention_produces_wait_edges() {
    let mut dump = empty_dump(1, "sem-app");
    dump.tasks = vec![plain_task(1), plain_task(2), plain_task(3)];
    let mut sync = empty_sync();
    // oldest wait 12.0 s earns severity 2
    sync.semaphores = vec![SemaphoreInfo {
        name: "pool-limit".to_string(),
        permits_total: 4,
        permits_available: 0,
        waiters: 2,
        oldest_wait_secs: SecsBits(12.0f64.to_bits()),
        creator_task_id: Some(1),
        top_waiter_task_ids: vec![2, 3],
    }];
    dump.sync = Some(sync);
    let WaitGraph { nodes, edges } = WaitGraph::build(&vec![dump]);
    assert_eq!(nodes.len(), 5);
    let owns = of_kind(&edges, EdgeKind::ResourceOwnedByTask);
    assert_eq!(owns.len(), 1);
    assert_eq!(owns[0].from, NodeId::Semaphore { pid: 1, name: "pool-limit".to_string() });
    assert_eq!(owns[0].to, task_node(1, 1));
    let waits = of_kind(&edges, EdgeKind::TaskWaitsOnResource);
    assert_eq!(waits.len(), 2);
    for w in &waits {
        assert_eq!(w.to, NodeId::Semaphore { pid: 1, name: "pool-limit".to_string() });
        assert_eq!(w.meta.severity_hint, 2);
    }
}

fn has_edge(edges: &[&WaitEdge], from: &NodeId, to: &NodeId) -> bool {
    edges.iter().any(|e| e.from == *from && e.to == *to)
}

#[test]
fn fixture_true_deadlock_normalization() {
    let mut dump = empty_dump(1, "deadlock-app");
    dump.tasks = vec![plain_task(1), plain_task(2)];
    // held 5.0 s, waited 4.0 s: both over a second
    dump.locks = Some(LockSnapshot {
        locks: vec![
            lock("lock-X", vec![(1, 5.0)], vec![(2, 4.0)]),
            lock("lock-Y", vec![(2, 5.0)], vec![(1, 4.0)]),
        ],
    });
    let WaitGraph { nodes, edges } = WaitGraph::build(&vec![dump]);
    assert_eq!(nodes.len(), 5);
    assert_eq!(edges.len(), 4);
    let waits = of_kind(&edges, EdgeKind::TaskWaitsOnResource);
    let owns = of_kind(&edges, EdgeKind::ResourceOwnedByTask);
    assert_eq!(waits.len(), 2);
    assert_eq!(owns.len(), 2);
    let lock_x = NodeId::Lock { pid: 1, name: "lock-X".to_string() };
    let lock_y = NodeId::Lock { pid: 1, name: "lock-Y".to_string() };
    assert!(has_edge(&waits, &task_node(1, 1), &lock_y));
    assert!(has_edge(&waits, &task_node(1, 2), &lock_x));
    assert!(has_edge(&owns, &lock_x, &task_node(1, 1)));
    assert!(has_edge(&owns, &lock_y, &task_node(1, 2)));
}

#[test]
fn fixture_long_wait_no_cycle_normalization() {
    let mut dump = empty_dump(2, "slow-rpc-app");
    dump.tasks = vec![plain_task(3)];
    // in flight for 30.0 s
    dump.roam = Some(session(vec![connection(
        "conn-slow",
        vec![request("heavy_query", 200, RpcDirection::Outgoing, true, Some(3))],
    )]));
    let WaitGraph { nodes, edges } = WaitGraph::build(&vec![dump]);
    assert_eq!(nodes.len(), 3);
    let rpc = of_kind(&edges, EdgeKind::RpcClientToRequest);
    assert_eq!(rpc.len(), 1);
    assert_eq!(rpc[0].meta.severity_hint, 3);
    assert!(of_kind(&edges, EdgeKind::TaskWaitsOnResource).is_empty());
}

#[test]
fn fixture_bursty_transient_normalization() {
    let mut dump = empty_dump(3, "bursty-app");
    dump.tasks = vec![plain_task(10), plain_task(11), plain_task(12)];
    // held 1 ms, waited 2 ms and 1 ms: none over a second
    dump.locks = Some(LockSnapshot {
        locks: vec![lock("hot-mutex", vec![(10, 0.001)], vec![(11, 0.002), (12, 0.001)])],
    });
    let WaitGraph { nodes, edges } = WaitGraph::build(&vec![dump]);
    assert_eq!(nodes.len(), 5);
    assert_eq!(edges.len(), 3);
    let owns = of_kind(&edges, EdgeKind::ResourceOwnedByTask);
    assert_eq!(owns[0].meta.severity_hint, 1);
    for w in of_kind(&edges, EdgeKind::TaskWaitsOnResource) {
        assert_eq!(w.meta.severity_hint, 1);
    }
}

fn severity_of_first_wait(dump: DumpInfo) -> u8 {
    let graph = WaitGraph::build(&vec![dump]);
    let wait = graph.edges.iter().find(|e| e.kind == EdgeKind::TaskWaitsOnResource).unwrap();
    wait.meta.severity_hint
}

fn one_waiter_semaphore(task_age: f64, oldest_wait: f64) -> DumpInfo {
    let mut dump = empty_dump(1, "app");
    dump.tasks = vec![TaskInfo { age_secs: SecsBits(task_age.to_bits()), ..plain_task(1) }];
    let mut sync = empty_sync();
    sync.semaphores = vec![SemaphoreInfo {
        name: "sem".to_string(),
        permits_total: 1,
        permits_available: 0,
        waiters: 1,
        oldest_wait_secs: SecsBits(oldest_wait.to_bits()),
        creator_task_id: None,
        top_waiter_task_ids: vec![1],
    }];
    dump.sync = Some(sync);
    dump
}

#[test]
fn semaphore_severity_scales_with_oldest_wait() {
    assert_eq!(severity_of_first_wait(one_waiter_semaphore(1.0, 0.5)), 0);
    assert_eq!(severity_of_first_wait(one_waiter_semaphore(1.0, 5.0)), 1);
    assert_eq!(severity_of_first_wait(one_waiter_semaphore(1.0, 15.0)), 2);
    assert_eq!(severity_of_first_wait(one_waiter_semaphore(1.0, 45.0)), 3);
}

#[test]
fn semaphore_severity_matches_spec_thresholds() {
    assert_eq!(severity_of_first_wait(one_waiter_semaphore(30.0, 0.5)), 0);
    assert_eq!(severity_of_first_wait(one_waiter_semaphore(30.0, 5.0)), 1);
    assert_eq!(severity_of_first_wait(one_waiter_semaphore(30.0, 20.0)), 2);
    assert_eq!(severity_of_first_wait(one_waiter_semaphore(30.0, 45.0)), 3);
}

fn one_channel(age: f64) -> DumpInfo {
    let mut dump = empty_dump(1, "app");
    dump.tasks = vec![TaskInfo { age_secs: SecsBits(age.to_bits()), ..plain_task(1) }];
    dump.roam = Some(SessionInfo {
        connections: vec![],
        method_names: vec![],
        channels: vec![RoamChannelInfo {
            channel_id: 1,
            name: "c".to_string(),
            queue_depth: None,
            closed: false,
            task_id: Some(1),
            age_secs: SecsBits(age.to_bits()),
        }],
    });
    dump
}

#[test]
fn roam_channel_severity_scales_with_age() {
    assert_eq!(severity_of_first_wait(one_channel(0.5)), 0);
    assert_eq!(severity_of_first_wait(one_channel(5.0)), 1);
    assert_eq!(severity_of_first_wait(one_channel(20.0)), 2);
    assert_eq!(severity_of_first_wait(one_channel(45.0)), 3);
}

#[test]
fn severity_thresholds_are_strict() {
    // exactly on a threshold does not reach it
    assert_eq!(severity_of_first_wait(one_channel(1.0)), 0);
    assert_eq!(severity_of_first_wait(one_channel(10.0)), 1);
    assert_eq!(severity_of_first_wait(one_channel(30.0)), 2);
    assert_eq!(severity_of_first_wait(one_channel(30.000001)), 3);
}

#[test]
fn odd_durations_earn_no_severity_or_the_most() {
    assert_eq!(severity_of_first_wait(one_channel(-45.0)), 0);
    assert_eq!(severity_of_first_wait(one_channel(-0.0)), 0);
    assert_eq!(severity_of_first_wait(one_channel(f64::NAN)), 0);
    assert_eq!(severity_of_first_wait(one_channel(f64::INFINITY)), 3);
}

#[test]
fn lock_waits_over_a_second_are_severe() {
    let mut dump = empty_dump(1, "app");
    dump.locks = Some(LockSnapshot { locks: vec![lock("m", vec![(1, 1.0)], vec![(2, 1.5), (3, 1.0)])] });
    let edges = build_wait_edges(&vec![dump]);
    let sev: Vec<u8> = edges.iter().map(|e| e.meta.severity_hint).collect();
    assert_eq!(sev, vec![1, 3, 1]);
}

#[test]
fn poll_and_wait_totals_use_the_shorter_thresholds() {
    let mut dump = empty_dump(1, "app");
    dump.future_poll_edges = vec![
        FuturePollInfo { task_id: 1, future_id: 2, future_resource: "a".to_string(), poll_count: 1, total_poll_secs: SecsBits(5.5f64.to_bits()) },
        FuturePollInfo { task_id: 1, future_id: 3, future_resource: "b".to_string(), poll_count: 1, total_poll_secs: SecsBits(10.5f64.to_bits()) },
    ];
    dump.future_resource_edges = vec![FutureResourceInfo {
        future_id: 2,
        resource: ResourceRef::Lock { name: "l".to_string() },
        fallback_label: "l".to_string(),
        wait_count: 1,
        total_wait_secs: SecsBits(5.0f64.to_bits()),
    }];
    let edges = build_wait_edges(&vec![dump]);
    let sev: Vec<u8> = edges.iter().map(|e| e.meta.severity_hint).collect();
    assert_eq!(sev, vec![2, 3, 1]);
}

#[test]
fn requests_in_flight_over_five_seconds_are_severe() {
    let mut dump = empty_dump(1, "app");
    let mut quick = request("a", 1, RpcDirection::Outgoing, false, Some(1));
    quick.elapsed_secs = SecsBits(5.0f64.to_bits());
    let mut slow = request("b", 2, RpcDirection::Outgoing, false, Some(1));
    slow.elapsed_secs = SecsBits(5.25f64.to_bits());
    dump.roam = Some(session(vec![connection("c", vec![quick, slow])]));
    let edges = build_wait_edges(&vec![dump]);
    let sev: Vec<u8> = edges.iter().map(|e| e.meta.severity_hint).collect();
    assert_eq!(sev, vec![1, 3]);
}
