use peeps::dump::{
    dump_edges, dump_nodes, future_node_id, process_node_id, request_node_id, task_node_id, FutureWaitRef,
    RequestParentRef, RequestRef,
};

#[test]
fn node_ids_name_process_and_pid() {
    assert_eq!(process_node_id("svc", 12), "process:svc:12");
    assert_eq!(task_node_id("svc", 12, 3), "task:svc:12:3");
    assert_eq!(future_node_id("svc", 12, 4), "future:svc:12:4");
    assert_eq!(request_node_id("svc", 12, "conn", 5), "request:svc:12:conn:5");
}

#[test]
fn dump_edges_follow_the_dump() {
    let tasks = vec![1u64, 2];
    let waits = vec![FutureWaitRef { future_id: 9, task_id: 1 }];
    let requests = vec![
        RequestRef { connection: "c".to_string(), request_id: 5, task_id: Some(2) },
        RequestRef { connection: "c".to_string(), request_id: 6, task_id: None },
    ];
    let parents = vec![
        RequestParentRef {
            child_process: "svc".to_string(),
            child_connection: "c".to_string(),
            child_request_id: 6,
            parent_process: "up".to_string(),
            parent_connection: "d".to_string(),
            parent_request_id: 1,
        },
        RequestParentRef {
            child_process: "svc".to_string(),
            child_connection: "c".to_string(),
            child_request_id: 7,
            parent_process: "up".to_string(),
            parent_connection: "d".to_string(),
            parent_request_id: 2,
        },
    ];
    let edges = dump_edges("svc", 12, &tasks, &waits, &requests, &parents);
    let rows: Vec<(String, String, String)> = edges
        .into_iter()
        .map(|e| (e.src_id, e.dst_id, e.kind))
        .collect();
    let r = |a: &str, b: &str, k: &str| (a.to_string(), b.to_string(), k.to_string());
    assert_eq!(
        rows,
        vec![
            r("task:svc:12:1", "process:svc:12", "task_in_process"),
            r("task:svc:12:2", "process:svc:12", "task_in_process"),
            r("task:svc:12:1", "future:svc:12:9", "task_awaits_future"),
            r("request:svc:12:c:5", "task:svc:12:2", "request_handled_by_task"),
            r("request:svc:12:c:6", "request:up:12:d:1", "request_parent"),
        ]
    );
}

#[test]
fn dump_nodes_list_process_tasks_futures_and_requests() {
    let tasks = vec![1u64, 2];
    let waits = vec![FutureWaitRef { future_id: 9, task_id: 1 }];
    let requests =
        vec![RequestRef { connection: "c".to_string(), request_id: 5, task_id: Some(2) }];
    let rows: Vec<(String, String, String)> = dump_nodes("svc", 12, &tasks, &waits, &requests)
        .into_iter()
        .map(|n| (n.id, n.kind, n.process))
        .collect();
    let r = |a: &str, k: &str| (a.to_string(), k.to_string(), "svc".to_string());
    assert_eq!(
        rows,
        vec![
            r("process:svc:12", "process"),
            r("task:svc:12:1", "task"),
            r("task:svc:12:2", "task"),
            r("future:svc:12:9", "future"),
            r("request:svc:12:c:5", "request"),
        ]
    );
}
