//! The nodes of the wait graph: every process, task, future, resource and
//! RPC request that a dump mentions, once each, in the graph's key order.
//!
//! Each node carries its kind with what the snapshot tells of it; ages and
//! waits measured in seconds are kept as the bit patterns of their `f64`.
//! Some sections replace a kind already there, others only fill an empty
//! slot; the table is the result of these writes in order.

use vstd::prelude::*;
use crate::text::{
    chars_eq, chars_lt, chars_of, lemma_seq_lt_irreflexive, lemma_seq_lt_total,
    lemma_seq_lt_transitive, seq_lt,
};
use crate::wait_edges::{
    all_dump_edges, all_wait_counts_fit, build_wait_edges, concat_map, future_node,
    lemma_concat_map_step, lock_node, parent_edges, request_node, rpc_candidates, stitch_edges,
    task_node, ConnectionInfo, CreatedChannelInfo, DumpInfo, FuturePollInfo, FutureResourceInfo,
    FutureResumeInfo, FutureSpawnInfo, FutureWaitInfo, FutureWakeInfo, InFlightInfo, LockInfo,
    MethodName, MpscInfo, OnceCellInfo, RoamChannelInfo, RpcNode, SemaphoreInfo, SessionInfo,
    SyncInfo, TaskInfo, WaitEdge, resolve_method_name, resolved_method,
};
use crate::model::copy_opt;
use crate::rpc_order::node_order;
use crate::waitgraph::{resource_node, resource_ref_to_node_id, NodeId, NodeKind, ResourceRef};

verus! {

/// A node id as the graph orders it: variant, process, name, number. The
/// variant comes first, as the derived order of the id compares it first,
/// and each variant's fields come in this order.
pub open spec fn node_key(n: NodeId) -> (int, u32, Seq<char>, u64) {
    match n {
        NodeId::Task { pid, task_id } => (0, pid, seq![], task_id),
        NodeId::Future { pid, future_id } => (1, pid, seq![], future_id),
        NodeId::Lock { pid, name } => (2, pid, name@, 0),
        NodeId::MpscChannel { pid, name } => (3, pid, name@, 0),
        NodeId::OneshotChannel { pid, name } => (4, pid, name@, 0),
        NodeId::WatchChannel { pid, name } => (5, pid, name@, 0),
        NodeId::OnceCell { pid, name } => (6, pid, name@, 0),
        NodeId::Semaphore { pid, name } => (7, pid, name@, 0),
        NodeId::RoamChannel { pid, channel_id } => (8, pid, seq![], channel_id),
        NodeId::Socket { pid, fd } => (9, pid, seq![], fd),
        NodeId::Unknown { pid, label } => (10, pid, label@, 0),
        NodeId::RpcRequest { pid, connection, request_id } => (11, pid, connection@, request_id),
        NodeId::Process { pid } => (12, pid, seq![], 0),
    }
}

/// Lexicographic order on node keys.
pub open spec fn key_lt(a: (int, u32, Seq<char>, u64), b: (int, u32, Seq<char>, u64)) -> bool {
    a.0 < b.0 || (a.0 == b.0 && (a.1 < b.1 || (a.1 == b.1 && (seq_lt(a.2, b.2) || (a.2 == b.2
        && a.3 < b.3)))))
}

/// `a` comes before `b` in the graph's node order.
pub open spec fn node_lt(a: NodeId, b: NodeId) -> bool {
    key_lt(node_key(a), node_key(b))
}

/// The ids are in strictly increasing node order, so none repeats.
pub open spec fn sorted_nodes(s: Seq<NodeId>) -> bool {
    forall|i: int, j: int| 0 <= i < j < s.len() ==> node_lt(#[trigger] s[i], #[trigger] s[j])
}

/// The keys of the ids.
pub open spec fn node_keys(s: Seq<NodeId>) -> Set<(int, u32, Seq<char>, u64)> {
    Set::new(|k: (int, u32, Seq<char>, u64)| exists|i: int| 0 <= i < s.len() && node_key(s[i]) == k)
}

/// The node order is a strict total order on keys.
pub proof fn lemma_node_order(a: NodeId, b: NodeId, c: NodeId)
    ensures
        !node_lt(a, a),
        node_lt(a, b) && node_lt(b, c) ==> node_lt(a, c),
        node_key(a) != node_key(b) ==> node_lt(a, b) || node_lt(b, a),
        node_lt(a, b) ==> node_key(a) != node_key(b) && !node_lt(b, a),
{
    let (ka, kb, kc) = (node_key(a), node_key(b), node_key(c));
    lemma_seq_lt_irreflexive(ka.2);
    lemma_seq_lt_irreflexive(kb.2);
    if ka.2 != kb.2 {
        lemma_seq_lt_total(ka.2, kb.2);
    }
    if seq_lt(ka.2, kb.2) && seq_lt(kb.2, kc.2) {
        lemma_seq_lt_transitive(ka.2, kb.2, kc.2);
    }
    if seq_lt(ka.2, kb.2) && seq_lt(kb.2, ka.2) {
        lemma_seq_lt_transitive(ka.2, kb.2, ka.2);
    }
    if ka.0 == kb.0 && ka.1 == kb.1 && ka.2 == kb.2 && ka.3 == kb.3 {
        assert(ka == kb);
    }
}

proof fn lemma_keys_insert(s: Seq<NodeId>, p: int, x: NodeId)
    requires
        0 <= p <= s.len(),
    ensures
        node_keys(s.insert(p, x)) == node_keys(s).insert(node_key(x)),
{
    let t = s.insert(p, x);
    assert forall|k| node_keys(t).contains(k) implies node_keys(s).insert(node_key(x)).contains(
        k,
    ) by {
        let i = choose|i: int| 0 <= i < t.len() && node_key(t[i]) == k;
        if i < p {
            assert(node_key(s[i]) == k);
        } else if i > p {
            assert(node_key(s[i - 1]) == k);
        }
    }
    assert forall|k| node_keys(s).insert(node_key(x)).contains(k) implies node_keys(t).contains(
        k,
    ) by {
        if k == node_key(x) {
            assert(node_key(t[p]) == k);
        } else {
            let i = choose|i: int| 0 <= i < s.len() && node_key(s[i]) == k;
            if i < p {
                assert(node_key(t[i]) == k);
            } else {
                assert(node_key(t[i + 1]) == k);
            }
        }
    }
    assert(node_keys(t) =~= node_keys(s).insert(node_key(x)));
}

fn node_rank(n: &NodeId) -> (r: u8)
    ensures
        r == node_key(*n).0,
{
    match n {
        NodeId::Task { .. } => 0,
        NodeId::Future { .. } => 1,
        NodeId::Lock { .. } => 2,
        NodeId::MpscChannel { .. } => 3,
        NodeId::OneshotChannel { .. } => 4,
        NodeId::WatchChannel { .. } => 5,
        NodeId::OnceCell { .. } => 6,
        NodeId::Semaphore { .. } => 7,
        NodeId::RoamChannel { .. } => 8,
        NodeId::Socket { .. } => 9,
        NodeId::Unknown { .. } => 10,
        NodeId::RpcRequest { .. } => 11,
        NodeId::Process { .. } => 12,
    }
}

fn node_pid(n: &NodeId) -> (r: u32)
    ensures
        r == node_key(*n).1,
{
    match n {
        NodeId::Task { pid, .. } => *pid,
        NodeId::Future { pid, .. } => *pid,
        NodeId::Lock { pid, .. } => *pid,
        NodeId::MpscChannel { pid, .. } => *pid,
        NodeId::OneshotChannel { pid, .. } => *pid,
        NodeId::WatchChannel { pid, .. } => *pid,
        NodeId::OnceCell { pid, .. } => *pid,
        NodeId::Semaphore { pid, .. } => *pid,
        NodeId::RoamChannel { pid, .. } => *pid,
        NodeId::Socket { pid, .. } => *pid,
        NodeId::Unknown { pid, .. } => *pid,
        NodeId::RpcRequest { pid, .. } => *pid,
        NodeId::Process { pid } => *pid,
    }
}

fn node_text(n: &NodeId) -> (v: Vec<char>)
    ensures
        v@ == node_key(*n).2,
{
    match n {
        NodeId::Lock { name, .. } => chars_of(name.as_str()),
        NodeId::MpscChannel { name, .. } => chars_of(name.as_str()),
        NodeId::OneshotChannel { name, .. } => chars_of(name.as_str()),
        NodeId::WatchChannel { name, .. } => chars_of(name.as_str()),
        NodeId::OnceCell { name, .. } => chars_of(name.as_str()),
        NodeId::Semaphore { name, .. } => chars_of(name.as_str()),
        NodeId::Unknown { label, .. } => chars_of(label.as_str()),
        NodeId::RpcRequest { connection, .. } => chars_of(connection.as_str()),
        _ => {
            let v: Vec<char> = Vec::new();
            assert(v@ =~= seq![]);
            v
        },
    }
}

fn node_number(n: &NodeId) -> (r: u64)
    ensures
        r == node_key(*n).3,
{
    match n {
        NodeId::Task { task_id, .. } => *task_id,
        NodeId::Future { future_id, .. } => *future_id,
        NodeId::RoamChannel { channel_id, .. } => *channel_id,
        NodeId::Socket { fd, .. } => *fd,
        NodeId::RpcRequest { request_id, .. } => *request_id,
        _ => 0,
    }
}

/// How two node ids compare: `-1`, `0` or `1` as `a` comes before, has the
/// same key as, or comes after `b`.
fn compare_nodes(a: &NodeId, b: &NodeId) -> (r: i8)
    ensures
        r == compare_nodes_spec(*a, *b),
{
    proof {
        lemma_node_order(*a, *b, *a);
        lemma_node_order(*b, *a, *b);
    }
    let (ra, rb) = (node_rank(a), node_rank(b));
    if ra != rb {
        return if ra < rb {
            -1
        } else {
            1
        };
    }
    let (pa, pb) = (node_pid(a), node_pid(b));
    if pa != pb {
        return if pa < pb {
            -1
        } else {
            1
        };
    }
    let (ta, tb) = (node_text(a), node_text(b));
    if !chars_eq(&ta, &tb) {
        return if chars_lt(&ta, &tb) {
            -1
        } else {
            1
        };
    }
    let (na, nb) = (node_number(a), node_number(b));
    if na < nb {
        -1
    } else if na == nb {
        0
    } else {
        1
    }
}

/// The node ids of table entries.
pub open spec fn entry_ids(v: Seq<(NodeId, NodeKind)>) -> Seq<NodeId> {
    v.map_values(|e: (NodeId, NodeKind)| e.0)
}

/// One write to the node table: the id, its kind, and whether it replaces
/// a kind already there (else it only fills an empty slot).
pub type NodeOp = (NodeId, NodeKind, bool);

/// The table after one write.
pub open spec fn apply_op(m: Map<(int, u32, Seq<char>, u64), NodeKind>, op: NodeOp) -> Map<
    (int, u32, Seq<char>, u64),
    NodeKind,
> {
    if op.2 || !m.dom().contains(node_key(op.0)) {
        m.insert(node_key(op.0), op.1)
    } else {
        m
    }
}

/// The table after the writes, in order, from an empty one.
pub open spec fn node_table(ops: Seq<NodeOp>) -> Map<(int, u32, Seq<char>, u64), NodeKind>
    decreases ops.len(),
{
    if ops.len() == 0 {
        Map::empty()
    } else {
        apply_op(node_table(ops.drop_last()), ops.last())
    }
}

/// `v` lists the table `m`: one entry per key, in key order, each with its
/// kind.
pub open spec fn table_is(v: Seq<(NodeId, NodeKind)>, m: Map<(int, u32, Seq<char>, u64), NodeKind>) -> bool {
    &&& sorted_nodes(entry_ids(v))
    &&& node_keys(entry_ids(v)) == m.dom()
    &&& forall|i: int| 0 <= i < v.len() ==> m[node_key(#[trigger] v[i].0)] == v[i].1
}

fn upsert(
    out: &mut Vec<(NodeId, NodeKind)>,
    id: NodeId,
    kind: NodeKind,
    replace: bool,
    Ghost(m): Ghost<Map<(int, u32, Seq<char>, u64), NodeKind>>,
)
    requires
        table_is(old(out)@, m),
    ensures
        table_is(final(out)@, apply_op(m, (id, kind, replace))),
{
    let ghost before = out@;
    let ghost ids = entry_ids(before);
    let ghost k = node_key(id);
    let mut p: usize = 0;
    let mut c: i8 = 1;
    while p < out.len()
        invariant
            p <= out.len(),
            out@ == before,
            ids == entry_ids(before),
            forall|j: int| 0 <= j < p ==> node_lt(#[trigger] ids[j], id),
        ensures
            p < out.len() ==> c == compare_nodes_spec(ids[p as int], id) && c != -1,
        decreases out.len() - p,
    {
        c = compare_nodes(&out[p].0, &id);
        if c != -1 {
            break;
        }
        p = p + 1;
    }
    proof {
        if p < ids.len() {
            lemma_node_order(ids[p as int], id, id);
        }
        assert forall|i: int, j: int| 0 <= i < j < ids.len() implies node_key(#[trigger] ids[i])
            != node_key(#[trigger] ids[j]) by {
            lemma_node_order(ids[i], ids[j], ids[j]);
        }
    }
    if p < out.len() && c == 0 {
        assert(m.dom().contains(k)) by {
            assert(node_key(ids[p as int]) == k);
        }
        if replace {
            let ghost m2 = m.insert(k, kind);
            out.set(p, (id, kind));
            proof {
                let ids2 = entry_ids(out@);
                assert(ids2 =~= ids.update(p as int, id));
                assert forall|i: int, j: int| 0 <= i < j < ids2.len() implies node_lt(
                    #[trigger] ids2[i],
                    #[trigger] ids2[j],
                ) by {
                    assert(node_lt(ids[i], ids[j]));
                }
                assert(node_keys(ids2) =~= node_keys(ids)) by {
                    assert forall|q| node_keys(ids2).contains(q) implies node_keys(ids).contains(
                        q,
                    ) by {
                        let i = choose|i: int| 0 <= i < ids2.len() && node_key(ids2[i]) == q;
                        assert(node_key(ids[i]) == q);
                    }
                    assert forall|q| node_keys(ids).contains(q) implies node_keys(ids2).contains(
                        q,
                    ) by {
                        let i = choose|i: int| 0 <= i < ids.len() && node_key(ids[i]) == q;
                        assert(node_key(ids2[i]) == q);
                    }
                }
                assert(m2.dom() =~= m.dom());
                assert forall|i: int| 0 <= i < out@.len() implies m2[node_key(
                    #[trigger] out@[i].0,
                )] == out@[i].1 by {
                    if i != p {
                        assert(node_key(ids[i]) != node_key(ids[p as int]));
                        assert(out@[i] == before[i]);
                    }
                }
            }
        }
        return;
    }
    proof {
        assert(!m.dom().contains(k)) by {
            if m.dom().contains(k) {
                let i = choose|i: int| 0 <= i < ids.len() && node_key(ids[i]) == k;
                if i < p {
                    assert(node_lt(ids[i], id));
                    lemma_node_order(ids[i], id, id);
                } else {
                    if i > p {
                        assert(node_lt(ids[p as int], ids[i]));
                        lemma_node_order(id, ids[p as int], ids[i]);
                    }
                    lemma_node_order(id, ids[i], ids[i]);
                }
            }
        }
    }
    out.insert(p, (id, kind));
    proof {
        let ids2 = entry_ids(out@);
        assert(ids2 =~= ids.insert(p as int, id));
        lemma_keys_insert(ids, p as int, id);
        assert forall|i: int, j: int| 0 <= i < j < ids2.len() implies node_lt(
            #[trigger] ids2[i],
            #[trigger] ids2[j],
        ) by {
            if j < p {
                assert(node_lt(ids[i], ids[j]));
            } else if j == p {
            } else if i < p {
                if j - 1 > p {
                    assert(node_lt(ids[p as int], ids[j - 1]));
                    lemma_node_order(id, ids[p as int], ids[j - 1]);
                }
                lemma_node_order(ids[i], id, ids[j - 1]);
            } else if i == p {
                if j - 1 > p {
                    assert(node_lt(ids[p as int], ids[j - 1]));
                    lemma_node_order(id, ids[p as int], ids[j - 1]);
                }
            } else {
                assert(node_lt(ids[i - 1], ids[j - 1]));
            }
        }
        let m2 = m.insert(k, kind);
        assert forall|i: int| 0 <= i < out@.len() implies m2[node_key(#[trigger] out@[i].0)]
            == out@[i].1 by {
            if i < p {
                assert(out@[i] == before[i]);
                assert(node_key(ids[i]) != k);
            } else if i > p {
                assert(out@[i] == before[i - 1]);
                assert(node_key(ids[i - 1]) != k) by {
                    if i - 1 > p {
                        assert(node_lt(ids[p as int], ids[i - 1]));
                        lemma_node_order(id, ids[p as int], ids[i - 1]);
                    }
                    lemma_node_order(id, ids[i - 1], ids[i - 1]);
                }
            }
        }
    }
}

fn upsert_op(
    out: &mut Vec<(NodeId, NodeKind)>,
    id: NodeId,
    kind: NodeKind,
    replace: bool,
    Ghost(done): Ghost<Seq<NodeOp>>,
)
    requires
        table_is(old(out)@, node_table(done)),
    ensures
        table_is(final(out)@, node_table(done.push((id, kind, replace)))),
{
    proof {
        assert(done.push((id, kind, replace)).drop_last() =~= done);
    }
    upsert(out, id, kind, replace, Ghost(node_table(done)));
}

/// The comparison `compare_nodes` computes.
pub open spec fn compare_nodes_spec(a: NodeId, b: NodeId) -> i8 {
    if node_lt(a, b) {
        -1i8
    } else if node_key(a) == node_key(b) {
        0i8
    } else {
        1i8
    }
}

// ── The writes each section makes ────────────────────────────────

/// `sent - received`, or zero when more was received.
pub open spec fn pending_of(sent: u64, received: u64) -> u64 {
    if sent >= received {
        (sent - received) as u64
    } else {
        0
    }
}

/// The kind a resource's node gets when no node stands for it yet: a socket
/// or an unknown resource as itself, any other resource as unknown under
/// `fallback`.
pub open spec fn resource_kind(r: ResourceRef, fallback: String) -> NodeKind {
    match r {
        ResourceRef::Socket { fd, label, peer } => NodeKind::Socket { fd, label, peer },
        ResourceRef::Unknown { label } => NodeKind::Unknown { label },
        _ => NodeKind::Unknown { label: fallback },
    }
}

/// A task's node, with its name, state and age.
pub open spec fn task_op(pid: u32) -> spec_fn(TaskInfo) -> Seq<NodeOp> {
    |t: TaskInfo|
        seq![
            (
                task_node(pid, t.id),
                NodeKind::Task { name: t.name, state: t.state, age_secs: t.age_secs },
                true,
            ),
        ]
}

/// A woken future's node, unless one is there.
pub open spec fn woken_future_op(pid: u32) -> spec_fn(FutureWakeInfo) -> Seq<NodeOp> {
    |w: FutureWakeInfo|
        seq![(future_node(pid, w.future_id), NodeKind::Future { resource: w.future_resource }, false)]
}

/// A waited-on future's node, unless one is there.
pub open spec fn waited_future_op(pid: u32) -> spec_fn(FutureWaitInfo) -> Seq<NodeOp> {
    |w: FutureWaitInfo|
        seq![(future_node(pid, w.future_id), NodeKind::Future { resource: w.resource }, false)]
}

/// A lock's node, with its counts.
pub open spec fn lock_op(pid: u32) -> spec_fn(LockInfo) -> Seq<NodeOp> {
    |l: LockInfo|
        seq![
            (
                lock_node(pid, l.name),
                NodeKind::Lock { name: l.name, acquires: l.acquires, releases: l.releases },
                true,
            ),
        ]
}

/// An mpsc channel's node, with what is pending in it.
pub open spec fn mpsc_op(pid: u32) -> spec_fn(MpscInfo) -> Seq<NodeOp> {
    |c: MpscInfo|
        seq![
            (
                NodeId::MpscChannel { pid, name: c.name },
                NodeKind::MpscChannel {
                    name: c.name,
                    bounded: c.bounded,
                    capacity: c.capacity,
                    pending: pending_of(c.sent, c.received),
                },
                true,
            ),
        ]
}

/// An mpsc channel's node counts as pending what was sent and not yet
/// received: its pending count plus the received count is the sent count,
/// and it is zero when more was received than sent. The node is the
/// channel's own, named by it, with its boundedness and capacity.
pub proof fn lemma_mpsc_pending_is_unreceived(pid: u32, c: MpscInfo)
    ensures
        mpsc_op(pid)(c).len() == 1,
        mpsc_op(pid)(c)[0].0 == (NodeId::MpscChannel { pid, name: c.name }),
        mpsc_op(pid)(c)[0].1 matches NodeKind::MpscChannel { name, bounded, capacity, pending } && {
            &&& name == c.name
            &&& bounded == c.bounded
            &&& capacity == c.capacity
            &&& c.sent >= c.received ==> pending + c.received == c.sent
            &&& c.sent < c.received ==> pending == 0
        },
{
}

/// A oneshot channel's node.
pub open spec fn oneshot_op(pid: u32) -> spec_fn(CreatedChannelInfo) -> Seq<NodeOp> {
    |c: CreatedChannelInfo|
        seq![(NodeId::OneshotChannel { pid, name: c.name }, NodeKind::OneshotChannel { name: c.name }, true)]
}

/// A watch channel's node, with its change count.
pub open spec fn watch_op(pid: u32) -> spec_fn(CreatedChannelInfo) -> Seq<NodeOp> {
    |c: CreatedChannelInfo|
        seq![
            (
                NodeId::WatchChannel { pid, name: c.name },
                NodeKind::WatchChannel { name: c.name, changes: c.changes },
                true,
            ),
        ]
}

/// A semaphore's node, with its permits, waiters and oldest wait.
pub open spec fn semaphore_op(pid: u32) -> spec_fn(SemaphoreInfo) -> Seq<NodeOp> {
    |c: SemaphoreInfo|
        seq![
            (
                NodeId::Semaphore { pid, name: c.name },
                NodeKind::Semaphore {
                    name: c.name,
                    permits_total: c.permits_total,
                    permits_available: c.permits_available,
                    waiters: c.waiters,
                    oldest_wait_secs: c.oldest_wait_secs,
                },
                true,
            ),
        ]
}

/// A once-cell's node.
pub open spec fn once_cell_op(pid: u32) -> spec_fn(OnceCellInfo) -> Seq<NodeOp> {
    |c: OnceCellInfo| seq![(NodeId::OnceCell { pid, name: c.name }, NodeKind::OnceCell { name: c.name }, true)]
}

/// The node of a request in flight on `connection`, with its resolved method.
pub open spec fn request_op(pid: u32, connection: String, names: Seq<MethodName>) -> spec_fn(
    InFlightInfo,
) -> Seq<NodeOp> {
    |r: InFlightInfo|
        seq![
            (
                request_node(pid, connection, r.request_id),
                NodeKind::RpcRequest {
                    method_name: resolved_method(r.method_name, r.method_id, names),
                    direction: r.direction,
                    elapsed_secs: r.elapsed_secs,
                },
                true,
            ),
        ]
}

/// The nodes of the requests in flight on a connection.
pub open spec fn connection_op(pid: u32, names: Seq<MethodName>) -> spec_fn(ConnectionInfo) -> Seq<
    NodeOp,
> {
    |c: ConnectionInfo| concat_map(c.in_flight@, request_op(pid, c.name, names))
}

/// An RPC channel's node.
pub open spec fn channel_op(pid: u32) -> spec_fn(RoamChannelInfo) -> Seq<NodeOp> {
    |c: RoamChannelInfo|
        seq![
            (
                NodeId::RoamChannel { pid, channel_id: c.channel_id },
                NodeKind::RoamChannel { name: c.name, queue_depth: c.queue_depth, closed: c.closed },
                true,
            ),
        ]
}

/// The parent and child futures of a spawn, unless there; a future that
/// names itself as its parent writes nothing.
pub open spec fn spawn_op(pid: u32) -> spec_fn(FutureSpawnInfo) -> Seq<NodeOp> {
    |e: FutureSpawnInfo|
        if e.parent_future_id == e.child_future_id {
            seq![]
        } else {
            seq![
                (future_node(pid, e.parent_future_id), NodeKind::Future { resource: e.parent_resource }, false),
                (future_node(pid, e.child_future_id), NodeKind::Future { resource: e.child_resource }, false),
            ]
        }
}

/// A polled future's node, unless there.
pub open spec fn polled_future_op(pid: u32) -> spec_fn(FuturePollInfo) -> Seq<NodeOp> {
    |e: FuturePollInfo|
        seq![(future_node(pid, e.future_id), NodeKind::Future { resource: e.future_resource }, false)]
}

/// A resuming future's node, unless there.
pub open spec fn resuming_future_op(pid: u32) -> spec_fn(FutureResumeInfo) -> Seq<NodeOp> {
    |e: FutureResumeInfo|
        seq![(future_node(pid, e.future_id), NodeKind::Future { resource: e.future_resource }, false)]
}

/// A waited-on resource's node, unless there.
pub open spec fn resource_op(pid: u32) -> spec_fn(FutureResourceInfo) -> Seq<NodeOp> {
    |e: FutureResourceInfo|
        seq![(resource_node(pid, e.resource), resource_kind(e.resource, e.fallback_label), false)]
}

/// The writes of a process's synchronisation primitives.
pub open spec fn sync_ops(pid: u32, y: SyncInfo) -> Seq<NodeOp> {
    concat_map(y.mpsc_channels@, mpsc_op(pid)) + concat_map(y.oneshot_channels@, oneshot_op(pid))
        + concat_map(y.watch_channels@, watch_op(pid)) + concat_map(y.semaphores@, semaphore_op(pid))
        + concat_map(y.once_cells@, once_cell_op(pid))
}

/// The writes of an RPC session: its requests, then its channels.
pub open spec fn session_ops(pid: u32, r: SessionInfo) -> Seq<NodeOp> {
    concat_map(r.connections@, connection_op(pid, r.method_names@)) + concat_map(
        r.channels@,
        channel_op(pid),
    )
}

/// The process's node with its name and pid.
pub open spec fn process_op(d: DumpInfo) -> NodeOp {
    (NodeId::Process { pid: d.pid }, NodeKind::Process { name: d.process_name, pid: d.pid }, true)
}

/// The process, then its tasks and the futures it wakes and waits on.
pub open spec fn task_section_ops(d: DumpInfo) -> Seq<NodeOp> {
    seq![process_op(d)] + concat_map(d.tasks@, task_op(d.pid)) + concat_map(
        d.future_wake_edges@,
        woken_future_op(d.pid),
    ) + concat_map(d.future_waits@, waited_future_op(d.pid))
}

/// The writes of a dump's locks.
pub open spec fn lock_section_ops(d: DumpInfo) -> Seq<NodeOp> {
    match d.locks {
        Some(l) => concat_map(l.locks@, lock_op(d.pid)),
        None => seq![],
    }
}

/// The writes of a dump's synchronisation primitives.
pub open spec fn sync_section_ops(d: DumpInfo) -> Seq<NodeOp> {
    match d.sync {
        Some(y) => sync_ops(d.pid, y),
        None => seq![],
    }
}

/// The writes of a dump's RPC session.
pub open spec fn session_section_ops(d: DumpInfo) -> Seq<NodeOp> {
    match d.roam {
        Some(r) => session_ops(d.pid, r),
        None => seq![],
    }
}

/// The writes of a dump's locks, synchronisation primitives and session.
pub open spec fn resource_section_ops(d: DumpInfo) -> Seq<NodeOp> {
    lock_section_ops(d) + sync_section_ops(d) + session_section_ops(d)
}

/// The writes of the instrumented future sections.
pub open spec fn future_section_ops(d: DumpInfo) -> Seq<NodeOp> {
    concat_map(d.future_spawn_edges@, spawn_op(d.pid)) + concat_map(
        d.future_poll_edges@,
        polled_future_op(d.pid),
    ) + concat_map(d.future_resume_edges@, resuming_future_op(d.pid)) + concat_map(
        d.future_resource_edges@,
        resource_op(d.pid),
    )
}

/// The node writes of a dump, section by section.
pub open spec fn dump_ops(d: DumpInfo) -> Seq<NodeOp> {
    task_section_ops(d) + resource_section_ops(d) + future_section_ops(d)
}

/// The node writes of a dump.
pub open spec fn dump_op_item() -> spec_fn(DumpInfo) -> Seq<NodeOp> {
    |d: DumpInfo| dump_ops(d)
}

/// The node writes of every dump, in order.
pub open spec fn node_ops(dumps: Seq<DumpInfo>) -> Seq<NodeOp> {
    concat_map(dumps, dump_op_item())
}

fn push_task_nodes(
    out: &mut Vec<(NodeId, NodeKind)>,
    pid: u32,
    items: &Vec<TaskInfo>,
    Ghost(done): Ghost<Seq<NodeOp>>,
)
    requires
        table_is(old(out)@, node_table(done)),
    ensures
        table_is(final(out)@, node_table(done + concat_map(items@, task_op(pid)))),
{
    let mut i: usize = 0;
    assert(done + concat_map(items@.subrange(0, 0), task_op(pid)) =~= done);
    while i < items.len()
        invariant
            i <= items.len(),
            table_is(out@, node_table(done + concat_map(items@.subrange(0, i as int), task_op(pid)))),
        decreases items.len() - i,
    {
        proof {
            lemma_concat_map_step(items@, task_op(pid), i as int);
        }
        let ghost d = done + concat_map(items@.subrange(0, i as int), task_op(pid));
        let e = &items[i];
        let id = NodeId::Task { pid, task_id: e.id };
        let kind = NodeKind::Task { name: e.name.clone(), state: e.state, age_secs: e.age_secs };
        let ghost op = (id, kind, true);
        assert(task_op(pid)(items@[i as int]) == seq![op]);
        upsert_op(out, id, kind, true, Ghost(d));
        assert(d.push(op) =~= done + concat_map(items@.subrange(0, i + 1), task_op(pid)));
        i = i + 1;
    }
    assert(items@.subrange(0, i as int) =~= items@);
}

fn push_woken_futures(
    out: &mut Vec<(NodeId, NodeKind)>,
    pid: u32,
    items: &Vec<FutureWakeInfo>,
    Ghost(done): Ghost<Seq<NodeOp>>,
)
    requires
        table_is(old(out)@, node_table(done)),
    ensures
        table_is(final(out)@, node_table(done + concat_map(items@, woken_future_op(pid)))),
{
    let mut i: usize = 0;
    assert(done + concat_map(items@.subrange(0, 0), woken_future_op(pid)) =~= done);
    while i < items.len()
        invariant
            i <= items.len(),
            table_is(out@, node_table(done + concat_map(items@.subrange(0, i as int), woken_future_op(pid)))),
        decreases items.len() - i,
    {
        proof {
            lemma_concat_map_step(items@, woken_future_op(pid), i as int);
        }
        let ghost d = done + concat_map(items@.subrange(0, i as int), woken_future_op(pid));
        let e = &items[i];
        let id = NodeId::Future { pid, future_id: e.future_id };
        let kind = NodeKind::Future { resource: e.future_resource.clone() };
        let ghost op = (id, kind, false);
        assert(woken_future_op(pid)(items@[i as int]) == seq![op]);
        upsert_op(out, id, kind, false, Ghost(d));
        assert(d.push(op) =~= done + concat_map(items@.subrange(0, i + 1), woken_future_op(pid)));
        i = i + 1;
    }
    assert(items@.subrange(0, i as int) =~= items@);
}

fn push_waited_futures(
    out: &mut Vec<(NodeId, NodeKind)>,
    pid: u32,
    items: &Vec<FutureWaitInfo>,
    Ghost(done): Ghost<Seq<NodeOp>>,
)
    requires
        table_is(old(out)@, node_table(done)),
    ensures
        table_is(final(out)@, node_table(done + concat_map(items@, waited_future_op(pid)))),
{
    let mut i: usize = 0;
    assert(done + concat_map(items@.subrange(0, 0), waited_future_op(pid)) =~= done);
    while i < items.len()
        invariant
            i <= items.len(),
            table_is(out@, node_table(done + concat_map(items@.subrange(0, i as int), waited_future_op(pid)))),
        decreases items.len() - i,
    {
        proof {
            lemma_concat_map_step(items@, waited_future_op(pid), i as int);
        }
        let ghost d = done + concat_map(items@.subrange(0, i as int), waited_future_op(pid));
        let e = &items[i];
        let id = NodeId::Future { pid, future_id: e.future_id };
        let kind = NodeKind::Future { resource: e.resource.clone() };
        let ghost op = (id, kind, false);
        assert(waited_future_op(pid)(items@[i as int]) == seq![op]);
        upsert_op(out, id, kind, false, Ghost(d));
        assert(d.push(op) =~= done + concat_map(items@.subrange(0, i + 1), waited_future_op(pid)));
        i = i + 1;
    }
    assert(items@.subrange(0, i as int) =~= items@);
}

fn push_lock_nodes(
    out: &mut Vec<(NodeId, NodeKind)>,
    pid: u32,
    items: &Vec<LockInfo>,
    Ghost(done): Ghost<Seq<NodeOp>>,
)
    requires
        table_is(old(out)@, node_table(done)),
    ensures
        table_is(final(out)@, node_table(done + concat_map(items@, lock_op(pid)))),
{
    let mut i: usize = 0;
    assert(done + concat_map(items@.subrange(0, 0), lock_op(pid)) =~= done);
    while i < items.len()
        invariant
            i <= items.len(),
            table_is(out@, node_table(done + concat_map(items@.subrange(0, i as int), lock_op(pid)))),
        decreases items.len() - i,
    {
        proof {
            lemma_concat_map_step(items@, lock_op(pid), i as int);
        }
        let ghost d = done + concat_map(items@.subrange(0, i as int), lock_op(pid));
        let e = &items[i];
        let id = NodeId::Lock { pid, name: e.name.clone() };
        let kind = NodeKind::Lock { name: e.name.clone(), acquires: e.acquires, releases: e.releases };
        let ghost op = (id, kind, true);
        assert(lock_op(pid)(items@[i as int]) == seq![op]);
        upsert_op(out, id, kind, true, Ghost(d));
        assert(d.push(op) =~= done + concat_map(items@.subrange(0, i + 1), lock_op(pid)));
        i = i + 1;
    }
    assert(items@.subrange(0, i as int) =~= items@);
}

fn push_mpsc_nodes(
    out: &mut Vec<(NodeId, NodeKind)>,
    pid: u32,
    items: &Vec<MpscInfo>,
    Ghost(done): Ghost<Seq<NodeOp>>,
)
    requires
        table_is(old(out)@, node_table(done)),
    ensures
        table_is(final(out)@, node_table(done + concat_map(items@, mpsc_op(pid)))),
{
    let mut i: usize = 0;
    assert(done + concat_map(items@.subrange(0, 0), mpsc_op(pid)) =~= done);
    while i < items.len()
        invariant
            i <= items.len(),
            table_is(out@, node_table(done + concat_map(items@.subrange(0, i as int), mpsc_op(pid)))),
        decreases items.len() - i,
    {
        proof {
            lemma_concat_map_step(items@, mpsc_op(pid), i as int);
        }
        let ghost d = done + concat_map(items@.subrange(0, i as int), mpsc_op(pid));
        let e = &items[i];
        let id = NodeId::MpscChannel { pid, name: e.name.clone() };
        let kind = NodeKind::MpscChannel { name: e.name.clone(), bounded: e.bounded, capacity: e.capacity, pending: if e.sent >= e.received { e.sent - e.received } else { 0 } };
        let ghost op = (id, kind, true);
        assert(mpsc_op(pid)(items@[i as int]) == seq![op]);
        upsert_op(out, id, kind, true, Ghost(d));
        assert(d.push(op) =~= done + concat_map(items@.subrange(0, i + 1), mpsc_op(pid)));
        i = i + 1;
    }
    assert(items@.subrange(0, i as int) =~= items@);
}

fn push_oneshot_nodes(
    out: &mut Vec<(NodeId, NodeKind)>,
    pid: u32,
    items: &Vec<CreatedChannelInfo>,
    Ghost(done): Ghost<Seq<NodeOp>>,
)
    requires
        table_is(old(out)@, node_table(done)),
    ensures
        table_is(final(out)@, node_table(done + concat_map(items@, oneshot_op(pid)))),
{
    let mut i: usize = 0;
    assert(done + concat_map(items@.subrange(0, 0), oneshot_op(pid)) =~= done);
    while i < items.len()
        invariant
            i <= items.len(),
            table_is(out@, node_table(done + concat_map(items@.subrange(0, i as int), oneshot_op(pid)))),
        decreases items.len() - i,
    {
        proof {
            lemma_concat_map_step(items@, oneshot_op(pid), i as int);
        }
        let ghost d = done + concat_map(items@.subrange(0, i as int), oneshot_op(pid));
        let e = &items[i];
        let id = NodeId::OneshotChannel { pid, name: e.name.clone() };
        let kind = NodeKind::OneshotChannel { name: e.name.clone() };
        let ghost op = (id, kind, true);
        assert(oneshot_op(pid)(items@[i as int]) == seq![op]);
        upsert_op(out, id, kind, true, Ghost(d));
        assert(d.push(op) =~= done + concat_map(items@.subrange(0, i + 1), oneshot_op(pid)));
        i = i + 1;
    }
    assert(items@.subrange(0, i as int) =~= items@);
}

fn push_watch_nodes(
    out: &mut Vec<(NodeId, NodeKind)>,
    pid: u32,
    items: &Vec<CreatedChannelInfo>,
    Ghost(done): Ghost<Seq<NodeOp>>,
)
    requires
        table_is(old(out)@, node_table(done)),
    ensures
        table_is(final(out)@, node_table(done + concat_map(items@, watch_op(pid)))),
{
    let mut i: usize = 0;
    assert(done + concat_map(items@.subrange(0, 0), watch_op(pid)) =~= done);
    while i < items.len()
        invariant
            i <= items.len(),
            table_is(out@, node_table(done + concat_map(items@.subrange(0, i as int), watch_op(pid)))),
        decreases items.len() - i,
    {
        proof {
            lemma_concat_map_step(items@, watch_op(pid), i as int);
        }
        let ghost d = done + concat_map(items@.subrange(0, i as int), watch_op(pid));
        let e = &items[i];
        let id = NodeId::WatchChannel { pid, name: e.name.clone() };
        let kind = NodeKind::WatchChannel { name: e.name.clone(), changes: e.changes };
        let ghost op = (id, kind, true);
        assert(watch_op(pid)(items@[i as int]) == seq![op]);
        upsert_op(out, id, kind, true, Ghost(d));
        assert(d.push(op) =~= done + concat_map(items@.subrange(0, i + 1), watch_op(pid)));
        i = i + 1;
    }
    assert(items@.subrange(0, i as int) =~= items@);
}

fn push_semaphore_nodes(
    out: &mut Vec<(NodeId, NodeKind)>,
    pid: u32,
    items: &Vec<SemaphoreInfo>,
    Ghost(done): Ghost<Seq<NodeOp>>,
)
    requires
        table_is(old(out)@, node_table(done)),
    ensures
        table_is(final(out)@, node_table(done + concat_map(items@, semaphore_op(pid)))),
{
    let mut i: usize = 0;
    assert(done + concat_map(items@.subrange(0, 0), semaphore_op(pid)) =~= done);
    while i < items.len()
        invariant
            i <= items.len(),
            table_is(out@, node_table(done + concat_map(items@.subrange(0, i as int), semaphore_op(pid)))),
        decreases items.len() - i,
    {
        proof {
            lemma_concat_map_step(items@, semaphore_op(pid), i as int);
        }
        let ghost d = done + concat_map(items@.subrange(0, i as int), semaphore_op(pid));
        let e = &items[i];
        let id = NodeId::Semaphore { pid, name: e.name.clone() };
        let kind = NodeKind::Semaphore { name: e.name.clone(), permits_total: e.permits_total, permits_available: e.permits_available, waiters: e.waiters, oldest_wait_secs: e.oldest_wait_secs };
        let ghost op = (id, kind, true);
        assert(semaphore_op(pid)(items@[i as int]) == seq![op]);
        upsert_op(out, id, kind, true, Ghost(d));
        assert(d.push(op) =~= done + concat_map(items@.subrange(0, i + 1), semaphore_op(pid)));
        i = i + 1;
    }
    assert(items@.subrange(0, i as int) =~= items@);
}

fn push_once_cell_nodes(
    out: &mut Vec<(NodeId, NodeKind)>,
    pid: u32,
    items: &Vec<OnceCellInfo>,
    Ghost(done): Ghost<Seq<NodeOp>>,
)
    requires
        table_is(old(out)@, node_table(done)),
    ensures
        table_is(final(out)@, node_table(done + concat_map(items@, once_cell_op(pid)))),
{
    let mut i: usize = 0;
    assert(done + concat_map(items@.subrange(0, 0), once_cell_op(pid)) =~= done);
    while i < items.len()
        invariant
            i <= items.len(),
            table_is(out@, node_table(done + concat_map(items@.subrange(0, i as int), once_cell_op(pid)))),
        decreases items.len() - i,
    {
        proof {
            lemma_concat_map_step(items@, once_cell_op(pid), i as int);
        }
        let ghost d = done + concat_map(items@.subrange(0, i as int), once_cell_op(pid));
        let e = &items[i];
        let id = NodeId::OnceCell { pid, name: e.name.clone() };
        let kind = NodeKind::OnceCell { name: e.name.clone() };
        let ghost op = (id, kind, true);
        assert(once_cell_op(pid)(items@[i as int]) == seq![op]);
        upsert_op(out, id, kind, true, Ghost(d));
        assert(d.push(op) =~= done + concat_map(items@.subrange(0, i + 1), once_cell_op(pid)));
        i = i + 1;
    }
    assert(items@.subrange(0, i as int) =~= items@);
}

fn push_channel_nodes(
    out: &mut Vec<(NodeId, NodeKind)>,
    pid: u32,
    items: &Vec<RoamChannelInfo>,
    Ghost(done): Ghost<Seq<NodeOp>>,
)
    requires
        table_is(old(out)@, node_table(done)),
    ensures
        table_is(final(out)@, node_table(done + concat_map(items@, channel_op(pid)))),
{
    let mut i: usize = 0;
    assert(done + concat_map(items@.subrange(0, 0), channel_op(pid)) =~= done);
    while i < items.len()
        invariant
            i <= items.len(),
            table_is(out@, node_table(done + concat_map(items@.subrange(0, i as int), channel_op(pid)))),
        decreases items.len() - i,
    {
        proof {
            lemma_concat_map_step(items@, channel_op(pid), i as int);
        }
        let ghost d = done + concat_map(items@.subrange(0, i as int), channel_op(pid));
        let e = &items[i];
        let id = NodeId::RoamChannel { pid, channel_id: e.channel_id };
        let kind = NodeKind::RoamChannel { name: e.name.clone(), queue_depth: e.queue_depth, closed: e.closed };
        let ghost op = (id, kind, true);
        assert(channel_op(pid)(items@[i as int]) == seq![op]);
        upsert_op(out, id, kind, true, Ghost(d));
        assert(d.push(op) =~= done + concat_map(items@.subrange(0, i + 1), channel_op(pid)));
        i = i + 1;
    }
    assert(items@.subrange(0, i as int) =~= items@);
}

fn push_polled_futures(
    out: &mut Vec<(NodeId, NodeKind)>,
    pid: u32,
    items: &Vec<FuturePollInfo>,
    Ghost(done): Ghost<Seq<NodeOp>>,
)
    requires
        table_is(old(out)@, node_table(done)),
    ensures
        table_is(final(out)@, node_table(done + concat_map(items@, polled_future_op(pid)))),
{
    let mut i: usize = 0;
    assert(done + concat_map(items@.subrange(0, 0), polled_future_op(pid)) =~= done);
    while i < items.len()
        invariant
            i <= items.len(),
            table_is(out@, node_table(done + concat_map(items@.subrange(0, i as int), polled_future_op(pid)))),
        decreases items.len() - i,
    {
        proof {
            lemma_concat_map_step(items@, polled_future_op(pid), i as int);
        }
        let ghost d = done + concat_map(items@.subrange(0, i as int), polled_future_op(pid));
        let e = &items[i];
        let id = NodeId::Future { pid, future_id: e.future_id };
        let kind = NodeKind::Future { resource: e.future_resource.clone() };
        let ghost op = (id, kind, false);
        assert(polled_future_op(pid)(items@[i as int]) == seq![op]);
        upsert_op(out, id, kind, false, Ghost(d));
        assert(d.push(op) =~= done + concat_map(items@.subrange(0, i + 1), polled_future_op(pid)));
        i = i + 1;
    }
    assert(items@.subrange(0, i as int) =~= items@);
}

fn push_resuming_futures(
    out: &mut Vec<(NodeId, NodeKind)>,
    pid: u32,
    items: &Vec<FutureResumeInfo>,
    Ghost(done): Ghost<Seq<NodeOp>>,
)
    requires
        table_is(old(out)@, node_table(done)),
    ensures
        table_is(final(out)@, node_table(done + concat_map(items@, resuming_future_op(pid)))),
{
    let mut i: usize = 0;
    assert(done + concat_map(items@.subrange(0, 0), resuming_future_op(pid)) =~= done);
    while i < items.len()
        invariant
            i <= items.len(),
            table_is(out@, node_table(done + concat_map(items@.subrange(0, i as int), resuming_future_op(pid)))),
        decreases items.len() - i,
    {
        proof {
            lemma_concat_map_step(items@, resuming_future_op(pid), i as int);
        }
        let ghost d = done + concat_map(items@.subrange(0, i as int), resuming_future_op(pid));
        let e = &items[i];
        let id = NodeId::Future { pid, future_id: e.future_id };
        let kind = NodeKind::Future { resource: e.future_resource.clone() };
        let ghost op = (id, kind, false);
        assert(resuming_future_op(pid)(items@[i as int]) == seq![op]);
        upsert_op(out, id, kind, false, Ghost(d));
        assert(d.push(op) =~= done + concat_map(items@.subrange(0, i + 1), resuming_future_op(pid)));
        i = i + 1;
    }
    assert(items@.subrange(0, i as int) =~= items@);
}

fn push_resource_nodes(
    out: &mut Vec<(NodeId, NodeKind)>,
    pid: u32,
    items: &Vec<FutureResourceInfo>,
    Ghost(done): Ghost<Seq<NodeOp>>,
)
    requires
        table_is(old(out)@, node_table(done)),
    ensures
        table_is(final(out)@, node_table(done + concat_map(items@, resource_op(pid)))),
{
    let mut i: usize = 0;
    assert(done + concat_map(items@.subrange(0, 0), resource_op(pid)) =~= done);
    while i < items.len()
        invariant
            i <= items.len(),
            table_is(out@, node_table(done + concat_map(items@.subrange(0, i as int), resource_op(pid)))),
        decreases items.len() - i,
    {
        proof {
            lemma_concat_map_step(items@, resource_op(pid), i as int);
        }
        let ghost d = done + concat_map(items@.subrange(0, i as int), resource_op(pid));
        let e = &items[i];
        let id = resource_ref_to_node_id(pid, &e.resource);
        let kind = resource_kind_of(&e.resource, &e.fallback_label);
        let ghost op = (id, kind, false);
        assert(resource_op(pid)(items@[i as int]) == seq![op]);
        upsert_op(out, id, kind, false, Ghost(d));
        assert(d.push(op) =~= done + concat_map(items@.subrange(0, i + 1), resource_op(pid)));
        i = i + 1;
    }
    assert(items@.subrange(0, i as int) =~= items@);
}

fn push_request_nodes(
    out: &mut Vec<(NodeId, NodeKind)>,
    pid: u32,
    items: &Vec<InFlightInfo>,
    connection: &String,
    names: &Vec<MethodName>,
    Ghost(done): Ghost<Seq<NodeOp>>,
)
    requires
        table_is(old(out)@, node_table(done)),
    ensures
        table_is(final(out)@, node_table(done + concat_map(items@, request_op(pid, *connection, names@)))),
{
    let mut i: usize = 0;
    assert(done + concat_map(items@.subrange(0, 0), request_op(pid, *connection, names@)) =~= done);
    while i < items.len()
        invariant
            i <= items.len(),
            table_is(out@, node_table(done + concat_map(items@.subrange(0, i as int), request_op(pid, *connection, names@)))),
        decreases items.len() - i,
    {
        proof {
            lemma_concat_map_step(items@, request_op(pid, *connection, names@), i as int);
        }
        let ghost d = done + concat_map(items@.subrange(0, i as int), request_op(pid, *connection, names@));
        let e = &items[i];
        let id = NodeId::RpcRequest { pid, connection: connection.clone(), request_id: e.request_id };
        let kind = NodeKind::RpcRequest { method_name: resolve_method_name(&e.method_name, e.method_id, names), direction: e.direction, elapsed_secs: e.elapsed_secs };
        let ghost op = (id, kind, true);
        assert(request_op(pid, *connection, names@)(items@[i as int]) == seq![op]);
        upsert_op(out, id, kind, true, Ghost(d));
        assert(d.push(op) =~= done + concat_map(items@.subrange(0, i + 1), request_op(pid, *connection, names@)));
        i = i + 1;
    }
    assert(items@.subrange(0, i as int) =~= items@);
}

fn resource_kind_of(r: &ResourceRef, fallback: &String) -> (k: NodeKind)
    ensures
        k == resource_kind(*r, *fallback),
{
    match r {
        ResourceRef::Socket { fd, label, peer } => NodeKind::Socket {
            fd: *fd,
            label: copy_opt(label),
            peer: copy_opt(peer),
        },
        ResourceRef::Unknown { label } => NodeKind::Unknown { label: label.clone() },
        _ => NodeKind::Unknown { label: fallback.clone() },
    }
}

fn push_spawn_nodes(
    out: &mut Vec<(NodeId, NodeKind)>,
    pid: u32,
    items: &Vec<FutureSpawnInfo>,
    Ghost(done): Ghost<Seq<NodeOp>>,
)
    requires
        table_is(old(out)@, node_table(done)),
    ensures
        table_is(final(out)@, node_table(done + concat_map(items@, spawn_op(pid)))),
{
    let mut i: usize = 0;
    assert(done + concat_map(items@.subrange(0, 0), spawn_op(pid)) =~= done);
    while i < items.len()
        invariant
            i <= items.len(),
            table_is(out@, node_table(done + concat_map(items@.subrange(0, i as int), spawn_op(pid)))),
        decreases items.len() - i,
    {
        proof {
            lemma_concat_map_step(items@, spawn_op(pid), i as int);
        }
        let ghost d = done + concat_map(items@.subrange(0, i as int), spawn_op(pid));
        let e = &items[i];
        if e.parent_future_id != e.child_future_id {
            let id1 = NodeId::Future { pid, future_id: e.parent_future_id };
            let k1 = NodeKind::Future { resource: e.parent_resource.clone() };
            let ghost op1 = (id1, k1, false);
            upsert_op(out, id1, k1, false, Ghost(d));
            let id2 = NodeId::Future { pid, future_id: e.child_future_id };
            let k2 = NodeKind::Future { resource: e.child_resource.clone() };
            let ghost op2 = (id2, k2, false);
            upsert_op(out, id2, k2, false, Ghost(d.push(op1)));
            assert(spawn_op(pid)(items@[i as int]) == seq![op1, op2]);
            assert(d.push(op1).push(op2) =~= done + concat_map(items@.subrange(0, i + 1), spawn_op(pid)));
        } else {
            assert(d =~= done + concat_map(items@.subrange(0, i + 1), spawn_op(pid)));
        }
        i = i + 1;
    }
    assert(items@.subrange(0, i as int) =~= items@);
}

fn push_session_nodes(
    out: &mut Vec<(NodeId, NodeKind)>,
    pid: u32,
    session: &SessionInfo,
    Ghost(done): Ghost<Seq<NodeOp>>,
)
    requires
        table_is(old(out)@, node_table(done)),
    ensures
        table_is(final(out)@, node_table(done + session_ops(pid, *session))),
{
    let ghost f = connection_op(pid, session.method_names@);
    let mut i: usize = 0;
    assert(done + concat_map(session.connections@.subrange(0, 0), f) =~= done);
    while i < session.connections.len()
        invariant
            i <= session.connections.len(),
            f == connection_op(pid, session.method_names@),
            table_is(out@, node_table(done + concat_map(session.connections@.subrange(0, i as int), f))),
        decreases session.connections.len() - i,
    {
        proof {
            lemma_concat_map_step(session.connections@, f, i as int);
        }
        let ghost d = done + concat_map(session.connections@.subrange(0, i as int), f);
        let conn = &session.connections[i];
        push_request_nodes(out, pid, &conn.in_flight, &conn.name, &session.method_names, Ghost(d));
        assert(d + concat_map(conn.in_flight@, request_op(pid, conn.name, session.method_names@))
            =~= done + concat_map(session.connections@.subrange(0, i + 1), f));
        i = i + 1;
    }
    assert(session.connections@.subrange(0, i as int) =~= session.connections@);
    let ghost d2 = done + concat_map(session.connections@, f);
    push_channel_nodes(out, pid, &session.channels, Ghost(d2));
    assert(d2 + concat_map(session.channels@, channel_op(pid)) =~= done + session_ops(pid, *session));
}

fn push_sync_nodes(
    out: &mut Vec<(NodeId, NodeKind)>,
    pid: u32,
    sync: &SyncInfo,
    Ghost(done): Ghost<Seq<NodeOp>>,
)
    requires
        table_is(old(out)@, node_table(done)),
    ensures
        table_is(final(out)@, node_table(done + sync_ops(pid, *sync))),
{
    let ghost d1 = done + concat_map(sync.mpsc_channels@, mpsc_op(pid));
    push_mpsc_nodes(out, pid, &sync.mpsc_channels, Ghost(done));
    let ghost d2 = d1 + concat_map(sync.oneshot_channels@, oneshot_op(pid));
    push_oneshot_nodes(out, pid, &sync.oneshot_channels, Ghost(d1));
    let ghost d3 = d2 + concat_map(sync.watch_channels@, watch_op(pid));
    push_watch_nodes(out, pid, &sync.watch_channels, Ghost(d2));
    let ghost d4 = d3 + concat_map(sync.semaphores@, semaphore_op(pid));
    push_semaphore_nodes(out, pid, &sync.semaphores, Ghost(d3));
    push_once_cell_nodes(out, pid, &sync.once_cells, Ghost(d4));
    assert(d4 + concat_map(sync.once_cells@, once_cell_op(pid)) =~= done + sync_ops(pid, *sync));
}

fn push_task_section_nodes(
    out: &mut Vec<(NodeId, NodeKind)>,
    dump: &DumpInfo,
    Ghost(done): Ghost<Seq<NodeOp>>,
)
    requires
        table_is(old(out)@, node_table(done)),
    ensures
        table_is(final(out)@, node_table(done + task_section_ops(*dump))),
{
    let pid = dump.pid;
    let id = NodeId::Process { pid };
    let kind = NodeKind::Process { name: dump.process_name.clone(), pid };
    upsert_op(out, id, kind, true, Ghost(done));
    let ghost d1 = done.push(process_op(*dump));
    let ghost d2 = d1 + concat_map(dump.tasks@, task_op(pid));
    push_task_nodes(out, pid, &dump.tasks, Ghost(d1));
    let ghost d3 = d2 + concat_map(dump.future_wake_edges@, woken_future_op(pid));
    push_woken_futures(out, pid, &dump.future_wake_edges, Ghost(d2));
    push_waited_futures(out, pid, &dump.future_waits, Ghost(d3));
    assert(d3 + concat_map(dump.future_waits@, waited_future_op(pid)) =~= done + task_section_ops(
        *dump,
    ));
}

fn push_resource_section_nodes(
    out: &mut Vec<(NodeId, NodeKind)>,
    dump: &DumpInfo,
    Ghost(done): Ghost<Seq<NodeOp>>,
)
    requires
        table_is(old(out)@, node_table(done)),
    ensures
        table_is(final(out)@, node_table(done + resource_section_ops(*dump))),
{
    let pid = dump.pid;
    let ghost locks = lock_section_ops(*dump);
    let ghost sync = sync_section_ops(*dump);
    let ghost roam = session_section_ops(*dump);
    if let Some(l) = &dump.locks {
        push_lock_nodes(out, pid, &l.locks, Ghost(done));
    } else {
        assert(done + locks =~= done);
    }
    if let Some(y) = &dump.sync {
        push_sync_nodes(out, pid, y, Ghost(done + locks));
    } else {
        assert(done + locks + sync =~= done + locks);
    }
    if let Some(r) = &dump.roam {
        push_session_nodes(out, pid, r, Ghost(done + locks + sync));
    } else {
        assert(done + locks + sync + roam =~= done + locks + sync);
    }
    assert(done + locks + sync + roam =~= done + resource_section_ops(*dump));
}

fn push_future_section_nodes(
    out: &mut Vec<(NodeId, NodeKind)>,
    dump: &DumpInfo,
    Ghost(done): Ghost<Seq<NodeOp>>,
)
    requires
        table_is(old(out)@, node_table(done)),
    ensures
        table_is(final(out)@, node_table(done + future_section_ops(*dump))),
{
    let pid = dump.pid;
    let ghost d1 = done + concat_map(dump.future_spawn_edges@, spawn_op(pid));
    push_spawn_nodes(out, pid, &dump.future_spawn_edges, Ghost(done));
    let ghost d2 = d1 + concat_map(dump.future_poll_edges@, polled_future_op(pid));
    push_polled_futures(out, pid, &dump.future_poll_edges, Ghost(d1));
    let ghost d3 = d2 + concat_map(dump.future_resume_edges@, resuming_future_op(pid));
    push_resuming_futures(out, pid, &dump.future_resume_edges, Ghost(d2));
    push_resource_nodes(out, pid, &dump.future_resource_edges, Ghost(d3));
    assert(d3 + concat_map(dump.future_resource_edges@, resource_op(pid)) =~= done
        + future_section_ops(*dump));
}

/// The node table of the dumps: every node they name, once, in key order,
/// each with the kind of the last write that set it (a write that only
/// fills an empty slot leaves a kind already there).
pub fn build_node_table(dumps: &Vec<DumpInfo>) -> (r: Vec<(NodeId, NodeKind)>)
    ensures
        table_is(r@, node_table(node_ops(dumps@))),
{
    let mut out: Vec<(NodeId, NodeKind)> = Vec::new();
    assert(node_keys(entry_ids(out@)) =~= Map::<(int, u32, Seq<char>, u64), NodeKind>::empty().dom());
    let mut i: usize = 0;
    assert(concat_map(dumps@.subrange(0, 0), dump_op_item()) =~= Seq::<NodeOp>::empty());
    while i < dumps.len()
        invariant
            i <= dumps.len(),
            table_is(out@, node_table(concat_map(dumps@.subrange(0, i as int), dump_op_item()))),
        decreases dumps.len() - i,
    {
        proof {
            lemma_concat_map_step(dumps@, dump_op_item(), i as int);
        }
        let ghost d = concat_map(dumps@.subrange(0, i as int), dump_op_item());
        let dump = &dumps[i];
        push_task_section_nodes(&mut out, dump, Ghost(d));
        let ghost d1 = d + task_section_ops(*dump);
        push_resource_section_nodes(&mut out, dump, Ghost(d1));
        let ghost d2 = d1 + resource_section_ops(*dump);
        push_future_section_nodes(&mut out, dump, Ghost(d2));
        assert(d2 + future_section_ops(*dump) =~= d + dump_ops(*dump));
        i = i + 1;
    }
    assert(dumps@.subrange(0, i as int) =~= dumps@);
    out
}

// ── The whole graph ──────────────────────────────────────────────

/// A wait graph: its nodes in key order with their kinds, and its edges.
pub struct WaitGraph {
    pub nodes: Vec<(NodeId, NodeKind)>,
    pub edges: Vec<WaitEdge>,
}

impl WaitGraph {
    /// Builds a wait graph from one or more process dumps: the nodes every
    /// dump names, once each, in key order, with their kinds; the edges of
    /// each dump in turn, then the stitches between the processes' RPC
    /// requests, then the parent links between requests.
    pub fn build(dumps: &Vec<DumpInfo>) -> (g: WaitGraph)
        requires
            all_wait_counts_fit(dumps@),
        ensures
            table_is(g.nodes@, node_table(node_ops(dumps@))),
            exists|rpc: Seq<RpcNode>|
                node_order(rpc_candidates(dumps@), rpc) && g.edges@ == all_dump_edges(dumps@)
                    + stitch_edges(rpc) + parent_edges(dumps@),
    {
        let nodes = build_node_table(dumps);
        let edges = build_wait_edges(dumps);
        WaitGraph { nodes, edges }
    }
}

// ── Laws ─────────────────────────────────────────────────────────

proof fn lemma_concat_map_contains<T, U>(items: Seq<T>, f: spec_fn(T) -> Seq<U>, i: int, j: int)
    requires
        0 <= i < items.len(),
        0 <= j < f(items[i]).len(),
    ensures
        exists|k: int|
            0 <= k < concat_map(items, f).len() && concat_map(items, f)[k] == f(items[i])[j],
    decreases items.len(),
{
    let rest = items.drop_last();
    let whole = concat_map(items, f);
    if i == items.len() - 1 {
        let k = concat_map(rest, f).len() + j;
        assert(whole[k] == f(items[i])[j]);
    } else {
        assert(rest[i] == items[i]);
        lemma_concat_map_contains(rest, f, i, j);
        let k = choose|k: int|
            0 <= k < concat_map(rest, f).len() && concat_map(rest, f)[k] == f(rest[i])[j];
        assert(whole[k] == f(items[i])[j]);
    }
}

proof fn lemma_table_dom(ops: Seq<NodeOp>)
    ensures
        forall|k: (int, u32, Seq<char>, u64)|
            #![trigger node_table(ops).dom().contains(k)]
            node_table(ops).dom().contains(k) <==> exists|i: int|
                0 <= i < ops.len() && node_key(#[trigger] ops[i].0) == k,
    decreases ops.len(),
{
    if ops.len() > 0 {
        let rest = ops.drop_last();
        let o = ops.last();
        let m = node_table(rest);
        lemma_table_dom(rest);
        assert(node_table(ops) == apply_op(m, o));
        assert(node_table(ops).dom() =~= m.dom().insert(node_key(o.0)));
        assert forall|k: (int, u32, Seq<char>, u64)| node_table(ops).dom().contains(k) implies exists|i: int|
            0 <= i < ops.len() && node_key(#[trigger] ops[i].0) == k by {
            if k == node_key(o.0) {
                assert(node_key(ops[ops.len() - 1].0) == k);
            } else {
                assert(m.dom().contains(k));
                let i = choose|i: int| 0 <= i < rest.len() && node_key(#[trigger] rest[i].0) == k;
                assert(ops[i] == rest[i]);
            }
        }
        assert forall|k: (int, u32, Seq<char>, u64)| (exists|i: int|
            0 <= i < ops.len() && node_key(#[trigger] ops[i].0) == k) implies node_table(ops).dom().contains(k) by {
            let i = choose|i: int| 0 <= i < ops.len() && node_key(#[trigger] ops[i].0) == k;
            if i < rest.len() {
                assert(rest[i] == ops[i]);
                assert(node_key(rest[i].0) == k);
                assert(m.dom().contains(k));
            }
        }
    }
}

/// Law: every dump's process has a node in the graph, whatever else the
/// dump holds.
pub proof fn lemma_every_process_has_a_node(dumps: Seq<DumpInfo>, i: int)
    requires
        0 <= i < dumps.len(),
    ensures
        node_table(node_ops(dumps)).dom().contains(node_key(NodeId::Process { pid: dumps[i].pid })),
{
    let d = dumps[i];
    assert(dump_op_item()(d)[0] == process_op(d));
    lemma_concat_map_contains(dumps, dump_op_item(), i, 0);
    let all = node_ops(dumps);
    let k = choose|k: int| 0 <= k < all.len() && all[k] == dump_op_item()(d)[0];
    lemma_table_dom(all);
    assert(node_key(all[k].0) == node_key(NodeId::Process { pid: d.pid }));
}

/// Law: the graph holds one node per key: no two of its node ids share a
/// key, and it holds as many nodes as there are distinct keys.
pub proof fn lemma_one_node_per_key(nodes: Seq<NodeId>)
    requires
        sorted_nodes(nodes),
    ensures
        forall|i: int, j: int|
            0 <= i < j < nodes.len() ==> node_key(#[trigger] nodes[i]) != node_key(
                #[trigger] nodes[j],
            ),
        node_keys(nodes).len() == nodes.len(),
    decreases nodes.len(),
{
    assert forall|i: int, j: int| 0 <= i < j < nodes.len() implies node_key(
        #[trigger] nodes[i],
    ) != node_key(#[trigger] nodes[j]) by {
        lemma_node_order(nodes[i], nodes[j], nodes[j]);
    }
    if nodes.len() == 0 {
        assert(node_keys(nodes) =~= Set::empty());
    } else {
        let rest = nodes.drop_last();
        assert(sorted_nodes(rest)) by {
            assert forall|i: int, j: int| 0 <= i < j < rest.len() implies node_lt(
                #[trigger] rest[i],
                #[trigger] rest[j],
            ) by {
                assert(node_lt(nodes[i], nodes[j]));
            }
        }
        lemma_one_node_per_key(rest);
        let x = nodes.last();
        assert(rest.insert(rest.len() as int, x) =~= nodes);
        lemma_keys_insert(rest, rest.len() as int, x);
        assert(!node_keys(rest).contains(node_key(x))) by {
            if node_keys(rest).contains(node_key(x)) {
                let i = choose|i: int| 0 <= i < rest.len() && node_key(rest[i]) == node_key(x);
                assert(node_key(nodes[i]) != node_key(nodes[nodes.len() - 1]));
            }
        }
        lemma_keys_finite(rest);
    }
}

proof fn lemma_keys_finite(s: Seq<NodeId>)
    ensures
        node_keys(s).finite(),
    decreases s.len(),
{
    if s.len() == 0 {
        assert(node_keys(s) =~= Set::empty());
    } else {
        let rest = s.drop_last();
        lemma_keys_finite(rest);
        assert(rest.insert(rest.len() as int, s.last()) =~= s);
        lemma_keys_insert(rest, rest.len() as int, s.last());
    }
}

} // verus!
