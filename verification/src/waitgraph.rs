//! The wait graph's vocabulary (node identities, edge kinds, where an edge
//! came from) and the rules that need no clock: which resource a wait names,
//! and which RPC requests in different processes are the two ends of one call.

use vstd::prelude::*;
use crate::model::opt_view;
use crate::tasks::TaskState;

verus! {

broadcast use vstd::string::group_string_axioms;

/// Stable identifier for a graph node across snapshots.
#[derive(Debug, Clone, PartialEq, Eq, PartialOrd, Ord, Hash)]
pub enum NodeId {
    /// A tokio task within a process.
    Task { pid: u32, task_id: u64 },
    /// An instrumented future within a process.
    Future { pid: u32, future_id: u64 },
    /// A named lock within a process.
    Lock { pid: u32, name: String },
    /// An mpsc channel within a process.
    MpscChannel { pid: u32, name: String },
    /// A oneshot channel within a process.
    OneshotChannel { pid: u32, name: String },
    /// A watch channel within a process.
    WatchChannel { pid: u32, name: String },
    /// A OnceCell within a process.
    OnceCell { pid: u32, name: String },
    /// A semaphore within a process.
    Semaphore { pid: u32, name: String },
    /// A roam channel within a process.
    RoamChannel { pid: u32, channel_id: u64 },
    /// A socket within a process.
    Socket { pid: u32, fd: u64 },
    /// An unknown/opaque resource within a process.
    Unknown { pid: u32, label: String },
    /// An RPC request (connection + request id, scoped to process).
    RpcRequest { pid: u32, connection: String, request_id: u64 },
    /// A whole process.
    Process { pid: u32 },
}

/// The nature of a blocking/dependency relationship.
#[derive(Debug, Clone, Copy, PartialEq, Eq, Structural)]
pub enum EdgeKind {
    /// A task is waiting on a resource (lock, channel, future, RPC response).
    TaskWaitsOnResource,
    /// A resource is currently owned/held by a task.
    ResourceOwnedByTask,
    /// A task wakes a future (or another task through a future).
    TaskWakesFuture,
    /// A future, once ready, resumes a task.
    FutureResumesTask,
    /// A task is the client side of an outgoing RPC request.
    RpcClientToRequest,
    /// An incoming RPC request is being handled by a server-side task.
    RpcRequestToServerTask,
    /// Parent-child spawn relationship between tasks.
    TaskSpawnedTask,
    /// An outgoing request in one process linked to the matching incoming
    /// request in another.
    RpcCrossProcessStitch,
    /// A future spawned/composed another future.
    FutureSpawnedFuture,
    /// A task polls a future (ownership over time).
    TaskPollsFuture,
    /// A future waits on a structured resource.
    FutureWaitsOnResource,
    /// Same-process explicit request parent relationship.
    RpcRequestParent,
}

/// Whether an edge was emitted by instrumentation or inferred.
#[derive(Debug, Clone, Copy, PartialEq, Eq, Structural)]
pub enum EdgeConfidence {
    /// Emitted directly by instrumentation.
    Explicit,
    /// Computed or inferred from other data.
    Derived,
    /// Guess-level correlation (e.g. temporal proximity).
    Heuristic,
}

/// Which snapshot source an edge was derived from.
#[derive(Debug, Clone, Copy, PartialEq, Eq, Structural)]
pub enum SnapshotSource {
    Tasks,
    WakeEdges,
    FutureWakeEdges,
    FutureWaits,
    Locks,
    Sync,
    Roam,
    FutureSpawnEdges,
    FuturePollEdges,
    FutureResumeEdges,
    FutureResourceEdges,
    RequestParents,
}

/// Metadata attached to every edge. How long ago the edge was first seen is
/// kept in nanoseconds.
pub struct EdgeMeta {
    pub source_snapshot: SnapshotSource,
    pub count: u64,
    pub severity_hint: u8,
    pub confidence: EdgeConfidence,
    pub first_seen_age_ns: Option<u64>,
    pub sample_count: Option<u64>,
}

/// `m` records an edge from `source`, seen `count` times, with the given
/// severity and confidence, and nothing about its age or samples.
pub open spec fn fresh_meta(
    m: EdgeMeta,
    source: SnapshotSource,
    count: u64,
    severity_hint: u8,
    confidence: EdgeConfidence,
) -> bool {
    &&& m.source_snapshot == source
    &&& m.count == count
    &&& m.severity_hint == severity_hint
    &&& m.confidence == confidence
    &&& m.first_seen_age_ns is None
    &&& m.sample_count is None
}

impl EdgeMeta {
    /// Metadata for an edge computed or inferred from existing data.
    pub fn derived(source: SnapshotSource, count: u64, severity_hint: u8) -> (m: EdgeMeta)
        ensures
            fresh_meta(m, source, count, severity_hint, EdgeConfidence::Derived),
    {
        EdgeMeta {
            source_snapshot: source,
            count,
            severity_hint,
            confidence: EdgeConfidence::Derived,
            first_seen_age_ns: None,
            sample_count: None,
        }
    }

    /// Metadata for an edge emitted by instrumentation.
    pub fn explicit(source: SnapshotSource, count: u64, severity_hint: u8) -> (m: EdgeMeta)
        ensures
            fresh_meta(m, source, count, severity_hint, EdgeConfidence::Explicit),
    {
        EdgeMeta {
            source_snapshot: source,
            count,
            severity_hint,
            confidence: EdgeConfidence::Explicit,
            first_seen_age_ns: None,
            sample_count: None,
        }
    }

    /// Metadata for a guess-level correlation.
    pub fn heuristic(source: SnapshotSource, count: u64, severity_hint: u8) -> (m: EdgeMeta)
        ensures
            fresh_meta(m, source, count, severity_hint, EdgeConfidence::Heuristic),
    {
        EdgeMeta {
            source_snapshot: source,
            count,
            severity_hint,
            confidence: EdgeConfidence::Heuristic,
            first_seen_age_ns: None,
            sample_count: None,
        }
    }
}

// ── Node kinds ───────────────────────────────────────────────────

/// A duration in seconds, kept as the bit pattern of the `f64` the snapshot
/// measured it as.
#[derive(Debug, Clone, Copy, PartialEq, Eq, Structural)]
pub struct SecsBits(pub u64);

/// The bit pattern of 1.0, one second.
pub const ONE_SECOND_BITS: u64 = 0x3FF0_0000_0000_0000;

/// The bit pattern of 5.0, five seconds.
pub const FIVE_SECONDS_BITS: u64 = 0x4014_0000_0000_0000;

/// The bit pattern of 10.0, ten seconds.
pub const TEN_SECONDS_BITS: u64 = 0x4024_0000_0000_0000;

/// The bit pattern of 30.0, thirty seconds.
pub const THIRTY_SECONDS_BITS: u64 = 0x403E_0000_0000_0000;

/// The bit pattern of positive infinity. Every pattern above it with the sign
/// bit clear is a NaN; every pattern with the sign bit set is negative.
pub const INFINITY_BITS: u64 = 0x7FF0_0000_0000_0000;

/// Whether duration `d` is longer than `limit`, the bit pattern of a positive
/// finite number of seconds. IEEE 754 orders the non-negative doubles,
/// infinity included, as their bit patterns, and a negative duration or a NaN
/// compares greater than no limit.
pub open spec fn longer_than(d: SecsBits, limit: u64) -> bool {
    d.0 <= INFINITY_BITS && d.0 > limit
}

impl SecsBits {
    /// Whether this duration is longer than `limit` (see `longer_than`).
    pub fn is_longer_than(&self, limit: u64) -> (r: bool)
        ensures
            r == longer_than(*self, limit),
    {
        self.0 <= INFINITY_BITS && self.0 > limit
    }
}

/// The severity of an age or an oldest wait: 3, 2 or 1 once it is longer
/// than thirty, ten or one seconds, else 0.
pub open spec fn age_severity(d: SecsBits) -> u8 {
    if longer_than(d, THIRTY_SECONDS_BITS) {
        3
    } else if longer_than(d, TEN_SECONDS_BITS) {
        2
    } else if longer_than(d, ONE_SECOND_BITS) {
        1
    } else {
        0
    }
}

/// The severity of an age or an oldest wait (see `age_severity`).
pub fn age_severity_of(d: SecsBits) -> (r: u8)
    ensures
        r == age_severity(d),
{
    if d.is_longer_than(THIRTY_SECONDS_BITS) {
        3
    } else if d.is_longer_than(TEN_SECONDS_BITS) {
        2
    } else if d.is_longer_than(ONE_SECOND_BITS) {
        1
    } else {
        0
    }
}

/// The severity of a total poll or wait time: 3, 2 or 1 once it is longer
/// than ten, five or one seconds, else 0.
pub open spec fn total_severity(d: SecsBits) -> u8 {
    if longer_than(d, TEN_SECONDS_BITS) {
        3
    } else if longer_than(d, FIVE_SECONDS_BITS) {
        2
    } else if longer_than(d, ONE_SECOND_BITS) {
        1
    } else {
        0
    }
}

/// The severity of a total poll or wait time (see `total_severity`).
pub fn total_severity_of(d: SecsBits) -> (r: u8)
    ensures
        r == total_severity(d),
{
    if d.is_longer_than(TEN_SECONDS_BITS) {
        3
    } else if d.is_longer_than(FIVE_SECONDS_BITS) {
        2
    } else if d.is_longer_than(ONE_SECOND_BITS) {
        1
    } else {
        0
    }
}

/// What a node of the wait graph stands for, with what the snapshot tells
/// of it.
#[derive(Debug, PartialEq)]
pub enum NodeKind {
    Task { name: String, state: TaskState, age_secs: SecsBits },
    Future { resource: String },
    Lock { name: String, acquires: u64, releases: u64 },
    MpscChannel { name: String, bounded: bool, capacity: Option<u64>, pending: u64 },
    OneshotChannel { name: String },
    WatchChannel { name: String, changes: u64 },
    OnceCell { name: String },
    Semaphore {
        name: String,
        permits_total: u64,
        permits_available: u64,
        waiters: u64,
        oldest_wait_secs: SecsBits,
    },
    RoamChannel { name: String, queue_depth: Option<u64>, closed: bool },
    Socket { fd: u64, label: Option<String>, peer: Option<String> },
    Unknown { label: String },
    RpcRequest { method_name: Option<String>, direction: RpcDirection, elapsed_secs: SecsBits },
    Process { name: String, pid: u32 },
}

// ── Resources ────────────────────────────────────────────────────

/// The resource a wait refers to, by what identifies it.
pub enum ResourceRef {
    Lock { name: String },
    Mpsc { name: String },
    Oneshot { name: String },
    Watch { name: String },
    Semaphore { name: String },
    OnceCell { name: String },
    RoamChannel { channel_id: u64 },
    Socket { fd: u64, label: Option<String>, peer: Option<String> },
    Unknown { label: String },
}

/// The node of `resource` in process `pid`: the node of the same kind,
/// carrying the same name, channel id, descriptor or label.
pub open spec fn resource_node(pid: u32, resource: ResourceRef) -> NodeId {
    match resource {
        ResourceRef::Lock { name } => NodeId::Lock { pid, name },
        ResourceRef::Mpsc { name } => NodeId::MpscChannel { pid, name },
        ResourceRef::Oneshot { name } => NodeId::OneshotChannel { pid, name },
        ResourceRef::Watch { name } => NodeId::WatchChannel { pid, name },
        ResourceRef::Semaphore { name } => NodeId::Semaphore { pid, name },
        ResourceRef::OnceCell { name } => NodeId::OnceCell { pid, name },
        ResourceRef::RoamChannel { channel_id } => NodeId::RoamChannel { pid, channel_id },
        ResourceRef::Socket { fd, .. } => NodeId::Socket { pid, fd },
        ResourceRef::Unknown { label } => NodeId::Unknown { pid, label },
    }
}

/// The node that stands for `resource` in process `pid`.
pub fn resource_ref_to_node_id(pid: u32, resource: &ResourceRef) -> (n: NodeId)
    ensures
        n == resource_node(pid, *resource),
{
    match resource {
        ResourceRef::Lock { name } => NodeId::Lock { pid, name: name.clone() },
        ResourceRef::Mpsc { name } => NodeId::MpscChannel { pid, name: name.clone() },
        ResourceRef::Oneshot { name } => NodeId::OneshotChannel { pid, name: name.clone() },
        ResourceRef::Watch { name } => NodeId::WatchChannel { pid, name: name.clone() },
        ResourceRef::Semaphore { name } => NodeId::Semaphore { pid, name: name.clone() },
        ResourceRef::OnceCell { name } => NodeId::OnceCell { pid, name: name.clone() },
        ResourceRef::RoamChannel { channel_id } => NodeId::RoamChannel {
            pid,
            channel_id: *channel_id,
        },
        ResourceRef::Socket { fd, .. } => NodeId::Socket { pid, fd: *fd },
        ResourceRef::Unknown { label } => NodeId::Unknown { pid, label: label.clone() },
    }
}

// ── Cross-process RPC stitching ──────────────────────────────────

/// Which way an RPC request travels, seen from its process.
#[derive(Debug, Clone, Copy, PartialEq, Eq, Structural)]
pub enum RpcDirection {
    Incoming,
    Outgoing,
}

/// An RPC request node, with what the stitching compares. `slow` says the
/// request has been in flight for more than five seconds.
pub struct RpcRequestInfo {
    pub pid: u32,
    pub request_id: u64,
    pub method_name: Option<String>,
    pub direction: RpcDirection,
    pub slow: bool,
}

/// An edge from the outgoing request at index `from` to the incoming request
/// at index `to`, with its severity.
#[derive(Debug, Clone, Copy, PartialEq, Eq, Structural)]
pub struct RpcStitch {
    pub from: usize,
    pub to: usize,
    pub severity: u8,
}

/// The severity of a stitch: 3 when the outgoing request is slow, else 1.
pub open spec fn stitch_severity(outgoing: RpcRequestInfo) -> u8 {
    if outgoing.slow {
        3
    } else {
        1
    }
}

/// The stitch between requests `i` and `j`, if they are two ends of one
/// call: different processes, the same request id and method, one outgoing
/// and one incoming. The edge runs from the outgoing end.
pub open spec fn stitch_between(infos: Seq<RpcRequestInfo>, i: int, j: int) -> Option<RpcStitch> {
    let a = infos[i];
    let b = infos[j];
    if a.pid == b.pid || a.request_id != b.request_id || opt_view(a.method_name) != opt_view(
        b.method_name,
    ) {
        None
    } else if a.direction == RpcDirection::Outgoing && b.direction == RpcDirection::Incoming {
        Some(RpcStitch { from: i as usize, to: j as usize, severity: stitch_severity(a) })
    } else if a.direction == RpcDirection::Incoming && b.direction == RpcDirection::Outgoing {
        Some(RpcStitch { from: j as usize, to: i as usize, severity: stitch_severity(b) })
    } else {
        None
    }
}

/// The stitches of request `i` with the requests after it and before `j`,
/// in order.
pub open spec fn stitches_of_row(infos: Seq<RpcRequestInfo>, i: int, j: int) -> Seq<RpcStitch>
    decreases j - i,
{
    if j <= i + 1 {
        seq![]
    } else {
        stitches_of_row(infos, i, j - 1) + match stitch_between(infos, i, j - 1) {
            Some(s) => seq![s],
            None => seq![],
        }
    }
}

/// The stitches of the requests before `i` with every request after them,
/// pair by pair in order.
pub open spec fn stitches_before(infos: Seq<RpcRequestInfo>, i: int) -> Seq<RpcStitch>
    decreases i,
{
    if i <= 0 {
        seq![]
    } else {
        stitches_before(infos, i - 1) + stitches_of_row(infos, i - 1, infos.len() as int)
    }
}

/// Every stitch joins an outgoing request to an incoming one in another
/// process, with the same request id and method.
pub open spec fn joins_call(infos: Seq<RpcRequestInfo>, s: RpcStitch) -> bool {
    &&& s.from < infos.len()
    &&& s.to < infos.len()
    &&& infos[s.from as int].direction == RpcDirection::Outgoing
    &&& infos[s.to as int].direction == RpcDirection::Incoming
    &&& infos[s.from as int].pid != infos[s.to as int].pid
    &&& infos[s.from as int].request_id == infos[s.to as int].request_id
    &&& opt_view(infos[s.from as int].method_name) == opt_view(infos[s.to as int].method_name)
    &&& s.severity == stitch_severity(infos[s.from as int])
}

proof fn lemma_row_joins_calls(infos: Seq<RpcRequestInfo>, i: int, j: int)
    requires
        0 <= i < infos.len(),
        j <= infos.len(),
        infos.len() <= usize::MAX,
    ensures
        forall|k: int|
            0 <= k < stitches_of_row(infos, i, j).len() ==> joins_call(
                infos,
                #[trigger] stitches_of_row(infos, i, j)[k],
            ),
    decreases j - i,
{
    if j > i + 1 {
        lemma_row_joins_calls(infos, i, j - 1);
        let prev = stitches_of_row(infos, i, j - 1);
        let tail = match stitch_between(infos, i, j - 1) {
            Some(s) => seq![s],
            None => seq![],
        };
        assert forall|k: int| 0 <= k < (prev + tail).len() implies joins_call(
            infos,
            #[trigger] (prev + tail)[k],
        ) by {
            if k >= prev.len() {
                assert((prev + tail)[k] == tail[k - prev.len()]);
            } else {
                assert((prev + tail)[k] == prev[k]);
            }
        }
    }
}

/// Law: every edge the stitching produces runs from an outgoing request to
/// the incoming request it matches in another process.
pub proof fn lemma_stitches_join_calls(infos: Seq<RpcRequestInfo>, i: int)
    requires
        0 <= i <= infos.len(),
        infos.len() <= usize::MAX,
    ensures
        forall|k: int|
            0 <= k < stitches_before(infos, i).len() ==> joins_call(
                infos,
                #[trigger] stitches_before(infos, i)[k],
            ),
    decreases i,
{
    if i > 0 {
        lemma_stitches_join_calls(infos, i - 1);
        lemma_row_joins_calls(infos, i - 1, infos.len() as int);
        let a = stitches_before(infos, i - 1);
        let b = stitches_of_row(infos, i - 1, infos.len() as int);
        assert forall|k: int| 0 <= k < (a + b).len() implies joins_call(
            infos,
            #[trigger] (a + b)[k],
        ) by {
            if k >= a.len() {
                assert((a + b)[k] == b[k - a.len()]);
            } else {
                assert((a + b)[k] == a[k]);
            }
        }
    }
}

/// Whether two optional method names are the same.
fn same_method(a: &Option<String>, b: &Option<String>) -> (r: bool)
    ensures
        r == (opt_view(*a) == opt_view(*b)),
{
    match (a, b) {
        (Some(x), Some(y)) => *x == *y,
        (None, None) => true,
        _ => false,
    }
}

/// The stitch between requests `i` and `j`, if any.
fn stitch_pair(infos: &Vec<RpcRequestInfo>, i: usize, j: usize) -> (r: Option<RpcStitch>)
    requires
        i < infos.len(),
        j < infos.len(),
    ensures
        r == stitch_between(infos@, i as int, j as int),
{
    let a = &infos[i];
    let b = &infos[j];
    if a.pid == b.pid || a.request_id != b.request_id || !same_method(
        &a.method_name,
        &b.method_name,
    ) {
        return None;
    }
    match (a.direction, b.direction) {
        (RpcDirection::Outgoing, RpcDirection::Incoming) => Some(
            RpcStitch {
                from: i,
                to: j,
                severity: if a.slow {
                    3
                } else {
                    1
                },
            },
        ),
        (RpcDirection::Incoming, RpcDirection::Outgoing) => Some(
            RpcStitch {
                from: j,
                to: i,
                severity: if b.slow {
                    3
                } else {
                    1
                },
            },
        ),
        _ => None,
    }
}

/// Links outgoing RPC requests to the matching incoming requests in other
/// processes: every pair of requests, taken in order, with different
/// processes, the same request id and method and opposite directions, yields
/// one edge from the outgoing end, of severity 3 when that end is slow.
pub fn stitch_cross_process_rpc(infos: &Vec<RpcRequestInfo>) -> (r: Vec<RpcStitch>)
    ensures
        r@ == stitches_before(infos@, infos.len() as int),
{
    let n = infos.len();
    let mut out: Vec<RpcStitch> = Vec::new();
    let mut i: usize = 0;
    while i < n
        invariant
            i <= n == infos.len(),
            out@ == stitches_before(infos@, i as int),
        decreases n - i,
    {
        let ghost base = out@;
        let mut j: usize = i + 1;
        assert(stitches_of_row(infos@, i as int, j as int) =~= seq![]);
        while j < n
            invariant
                i < j <= n == infos.len(),
                out@ == base + stitches_of_row(infos@, i as int, j as int),
            decreases n - j,
        {
            let s = stitch_pair(infos, i, j);
            let ghost before = out@;
            match s {
                Some(e) => {
                    out.push(e);
                },
                None => {},
            }
            assert(stitches_of_row(infos@, i as int, j + 1) == stitches_of_row(
                infos@,
                i as int,
                j as int,
            ) + match stitch_between(infos@, i as int, j as int) {
                Some(s) => seq![s],
                None => seq![],
            });
            assert(out@ =~= base + stitches_of_row(infos@, i as int, j + 1));
            j = j + 1;
        }
        assert(stitches_before(infos@, i + 1) == stitches_before(infos@, i as int)
            + stitches_of_row(infos@, i as int, n as int));
        i = i + 1;
    }
    out
}

} // verus!
