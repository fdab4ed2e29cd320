use peeps::waitgraph::{
    resource_ref_to_node_id, stitch_cross_process_rpc, EdgeConfidence, EdgeMeta, NodeId,
    ResourceRef, RpcDirection, RpcRequestInfo, RpcStitch, SnapshotSource,
};

fn info(pid: u32, id: u64, method: Option<&str>, dir: RpcDirection, slow: bool) -> RpcRequestInfo {
    RpcRequestInfo {
        pid,
        request_id: id,
        method_name: method.map(|m| m.to_string()),
        direction: dir,
        slow,
    }
}

#[test]
fn outgoing_requests_are_stitched_to_incoming_ones_elsewhere() {
    let infos = vec![
        info(1, 10, Some("get"), RpcDirection::Outgoing, true),
        info(2, 10, Some("get"), RpcDirection::Incoming, false),
        info(1, 11, Some("put"), RpcDirection::Incoming, false),
        info(3, 11, Some("put"), RpcDirection::Outgoing, false),
        info(1, 10, Some("get"), RpcDirection::Incoming, false),
        info(4, 10, Some("other"), RpcDirection::Incoming, false),
        info(5, 10, Some("get"), RpcDirection::Outgoing, false),
    ];
    let r = stitch_cross_process_rpc(&infos);
    assert_eq!(
        r,
        vec![
            RpcStitch { from: 0, to: 1, severity: 3 },
            RpcStitch { from: 6, to: 1, severity: 1 },
            RpcStitch { from: 3, to: 2, severity: 1 },
            RpcStitch { from: 6, to: 4, severity: 1 },
        ]
    );
}

#[test]
fn same_direction_or_same_process_is_never_stitched() {
    let infos = vec![
        info(1, 1, None, RpcDirection::Outgoing, false),
        info(2, 1, None, RpcDirection::Outgoing, false),
        info(1, 1, None, RpcDirection::Incoming, false),
    ];
    let r = stitch_cross_process_rpc(&infos);
    assert_eq!(r, vec![RpcStitch { from: 1, to: 2, severity: 1 }]);
    assert!(stitch_cross_process_rpc(&vec![]).is_empty());
}

#[test]
fn resources_map_to_their_nodes() {
    assert_eq!(
        resource_ref_to_node_id(3, &ResourceRef::Lock { name: "state".to_string() }),
        NodeId::Lock { pid: 3, name: "state".to_string() }
    );
    assert_eq!(
        resource_ref_to_node_id(3, &ResourceRef::Mpsc { name: "jobs".to_string() }),
        NodeId::MpscChannel { pid: 3, name: "jobs".to_string() }
    );
    assert_eq!(
        resource_ref_to_node_id(3, &ResourceRef::RoamChannel { channel_id: 8 }),
        NodeId::RoamChannel { pid: 3, channel_id: 8 }
    );
    assert_eq!(
        resource_ref_to_node_id(3, &ResourceRef::Semaphore { name: "s".to_string() }),
        NodeId::Semaphore { pid: 3, name: "s".to_string() }
    );
    assert_eq!(
        resource_ref_to_node_id(4, &ResourceRef::Socket { fd: 9, label: None, peer: None }),
        NodeId::Socket { pid: 4, fd: 9 }
    );
    assert_eq!(
        resource_ref_to_node_id(4, &ResourceRef::Unknown { label: "?".to_string() }),
        NodeId::Unknown { pid: 4, label: "?".to_string() }
    );
}

#[test]
fn edge_metadata_records_its_confidence() {
    let m = EdgeMeta::derived(SnapshotSource::Roam, 1, 3);
    assert_eq!(m.confidence, EdgeConfidence::Derived);
    assert_eq!(m.source_snapshot, SnapshotSource::Roam);
    assert_eq!(m.count, 1);
    assert_eq!(m.severity_hint, 3);
    assert!(m.first_seen_age_ns.is_none() && m.sample_count.is_none());
    assert_eq!(EdgeMeta::explicit(SnapshotSource::Locks, 2, 0).confidence, EdgeConfidence::Explicit);
    assert_eq!(
        EdgeMeta::heuristic(SnapshotSource::Tasks, 2, 0).confidence,
        EdgeConfidence::Heuristic
    );
}
