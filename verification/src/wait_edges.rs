//! How a process dump becomes wait-graph edges: which tasks, futures and
//! resources each snapshot section links, in which direction, and with what
//! metadata.
//!
//! Durations are measured in seconds as floating point by the snapshot and
//! held here as their bit patterns; severities compare them with fixed
//! thresholds (see `longer_than`).

use vstd::prelude::*;
use crate::dump::RequestParentRef;
use crate::model::copy_opt;
use crate::rpc_order::{node_order, order_rpc_nodes};
use crate::waitgraph::{
    joins_call, lemma_stitches_join_calls, resource_node, resource_ref_to_node_id,
    stitch_cross_process_rpc, stitches_before, EdgeConfidence, EdgeKind, EdgeMeta, NodeId,
    ResourceRef, RpcDirection, RpcRequestInfo, RpcStitch, SecsBits, SnapshotSource,
    age_severity, age_severity_of, longer_than, total_severity, total_severity_of,
    FIVE_SECONDS_BITS, ONE_SECOND_BITS,
};
use crate::tasks::TaskState;

verus! {

broadcast use vstd::string::group_string_axioms;

/// A directed edge in the wait graph.
pub struct WaitEdge {
    pub from: NodeId,
    pub to: NodeId,
    pub kind: EdgeKind,
    pub meta: EdgeMeta,
}

/// The edge `from -> to` with fresh metadata of the given confidence.
pub open spec fn edge_with(
    from: NodeId,
    to: NodeId,
    kind: EdgeKind,
    source: SnapshotSource,
    count: u64,
    severity: u8,
    confidence: EdgeConfidence,
) -> WaitEdge {
    WaitEdge {
        from,
        to,
        kind,
        meta: EdgeMeta {
            source_snapshot: source,
            count,
            severity_hint: severity,
            confidence,
            first_seen_age_ns: None,
            sample_count: None,
        },
    }
}

/// A derived edge (computed from the snapshot).
pub open spec fn derived_edge(
    from: NodeId,
    to: NodeId,
    kind: EdgeKind,
    source: SnapshotSource,
    count: u64,
    severity: u8,
) -> WaitEdge {
    edge_with(from, to, kind, source, count, severity, EdgeConfidence::Derived)
}

/// An explicit edge (emitted by instrumentation).
pub open spec fn explicit_edge(
    from: NodeId,
    to: NodeId,
    kind: EdgeKind,
    source: SnapshotSource,
    count: u64,
    severity: u8,
) -> WaitEdge {
    edge_with(from, to, kind, source, count, severity, EdgeConfidence::Explicit)
}

/// The node of task `task_id` in process `pid`.
pub open spec fn task_node(pid: u32, task_id: u64) -> NodeId {
    NodeId::Task { pid, task_id }
}

/// The node of future `future_id` in process `pid`.
pub open spec fn future_node(pid: u32, future_id: u64) -> NodeId {
    NodeId::Future { pid, future_id }
}

/// The edges of each item in turn.
pub open spec fn edges_of<T>(items: Seq<T>, f: spec_fn(T) -> Seq<WaitEdge>) -> Seq<WaitEdge>
    decreases items.len(),
{
    if items.len() == 0 {
        seq![]
    } else {
        edges_of(items.drop_last(), f) + f(items.last())
    }
}

proof fn lemma_edges_step<T>(items: Seq<T>, f: spec_fn(T) -> Seq<WaitEdge>, i: int)
    requires
        0 <= i < items.len(),
    ensures
        edges_of(items.subrange(0, i + 1), f) == edges_of(items.subrange(0, i), f) + f(items[i]),
{
    assert(items.subrange(0, i + 1).drop_last() =~= items.subrange(0, i));
}

fn push_edge(
    edges: &mut Vec<WaitEdge>,
    from: NodeId,
    to: NodeId,
    kind: EdgeKind,
    meta: EdgeMeta,
)
    ensures
        final(edges)@ == old(edges)@.push(WaitEdge { from, to, kind, meta }),
{
    edges.push(WaitEdge { from, to, kind, meta });
}

fn task_id_node(pid: u32, task_id: u64) -> (n: NodeId)
    ensures
        n == task_node(pid, task_id),
{
    NodeId::Task { pid, task_id }
}

fn future_id_node(pid: u32, future_id: u64) -> (n: NodeId)
    ensures
        n == future_node(pid, future_id),
{
    NodeId::Future { pid, future_id }
}

// ── Tasks and wakes ──────────────────────────────────────────────

/// A task, and the task that spawned it, if known.
pub struct TaskInfo {
    pub id: u64,
    pub name: String,
    pub state: TaskState,
    pub age_secs: SecsBits,
    pub parent_task_id: Option<u64>,
}

/// A spawned task is linked from its parent.
pub open spec fn spawn_item(pid: u32) -> spec_fn(TaskInfo) -> Seq<WaitEdge> {
    |t: TaskInfo|
        match t.parent_task_id {
            Some(p) => seq![
                derived_edge(
                    task_node(pid, p),
                    task_node(pid, t.id),
                    EdgeKind::TaskSpawnedTask,
                    SnapshotSource::Tasks,
                    1,
                    0,
                ),
            ],
            None => seq![],
        }
}

/// Adds a spawn edge from each task's parent to the task.
pub fn ingest_tasks(edges: &mut Vec<WaitEdge>, pid: u32, tasks: &Vec<TaskInfo>)
    ensures
        final(edges)@ == old(edges)@ + edges_of(tasks@, spawn_item(pid)),
{
    let ghost base = edges@;
    let mut i: usize = 0;
    while i < tasks.len()
        invariant
            i <= tasks.len(),
            edges@ == base + edges_of(tasks@.subrange(0, i as int), spawn_item(pid)),
        decreases tasks.len() - i,
    {
        proof {
            lemma_edges_step(tasks@, spawn_item(pid), i as int);
        }
        let ghost before = edges@;
        let t = &tasks[i];
        if let Some(p) = t.parent_task_id {
            push_edge(
                edges,
                task_id_node(pid, p),
                task_id_node(pid, t.id),
                EdgeKind::TaskSpawnedTask,
                EdgeMeta::derived(SnapshotSource::Tasks, 1, 0),
            );
        }
        assert(edges@ =~= before + spawn_item(pid)(tasks@[i as int]));
        i = i + 1;
        assert(edges@ =~= base + edges_of(tasks@.subrange(0, i as int), spawn_item(pid)));
    }
    assert(tasks@.subrange(0, i as int) =~= tasks@);
}

/// A task waking another task.
pub struct WakeInfo {
    pub source_task_id: Option<u64>,
    pub target_task_id: u64,
    pub wake_count: u64,
}

/// A wake with a known source links the source to the woken task.
pub open spec fn wake_item(pid: u32) -> spec_fn(WakeInfo) -> Seq<WaitEdge> {
    |w: WakeInfo|
        match w.source_task_id {
            Some(s) => seq![
                derived_edge(
                    task_node(pid, s),
                    task_node(pid, w.target_task_id),
                    EdgeKind::TaskWakesFuture,
                    SnapshotSource::WakeEdges,
                    w.wake_count,
                    0,
                ),
            ],
            None => seq![],
        }
}

/// Adds an edge from each known waker to the task it woke.
pub fn ingest_wake_edges(edges: &mut Vec<WaitEdge>, pid: u32, wakes: &Vec<WakeInfo>)
    ensures
        final(edges)@ == old(edges)@ + edges_of(wakes@, wake_item(pid)),
{
    let ghost base = edges@;
    let mut i: usize = 0;
    while i < wakes.len()
        invariant
            i <= wakes.len(),
            edges@ == base + edges_of(wakes@.subrange(0, i as int), wake_item(pid)),
        decreases wakes.len() - i,
    {
        proof {
            lemma_edges_step(wakes@, wake_item(pid), i as int);
        }
        let ghost before = edges@;
        let w = &wakes[i];
        if let Some(s) = w.source_task_id {
            push_edge(
                edges,
                task_id_node(pid, s),
                task_id_node(pid, w.target_task_id),
                EdgeKind::TaskWakesFuture,
                EdgeMeta::derived(SnapshotSource::WakeEdges, w.wake_count, 0),
            );
        }
        assert(edges@ =~= before + wake_item(pid)(wakes@[i as int]));
        i = i + 1;
        assert(edges@ =~= base + edges_of(wakes@.subrange(0, i as int), wake_item(pid)));
    }
    assert(wakes@.subrange(0, i as int) =~= wakes@);
}

/// `e` is a wake edge of process `pid` running from the waker of `w` to the
/// task `w` woke, counting `w`'s wakes.
pub open spec fn runs_waker_to_woken(e: WaitEdge, pid: u32, w: WakeInfo) -> bool {
    &&& w.source_task_id is Some
    &&& e.kind == EdgeKind::TaskWakesFuture
    &&& e.from == NodeId::Task { pid, task_id: w.source_task_id->0 }
    &&& e.to == NodeId::Task { pid, task_id: w.target_task_id }
    &&& e.meta.count == w.wake_count
}

/// The wake edges of a process run from the waking task to the woken one:
/// every wake with a known source yields an edge from that source's task to
/// its target's task with its count, and every edge is such an edge of some
/// wake.
pub proof fn lemma_wake_edges_run_from_waker(pid: u32, wakes: Seq<WakeInfo>)
    ensures
        forall|k: int|
            0 <= k < wakes.len() && (#[trigger] wakes[k]).source_task_id is Some ==> exists|j: int|
                #![trigger edges_of(wakes, wake_item(pid))[j]]
                0 <= j < edges_of(wakes, wake_item(pid)).len() && runs_waker_to_woken(
                    edges_of(wakes, wake_item(pid))[j],
                    pid,
                    wakes[k],
                ),
        forall|j: int|
            0 <= j < edges_of(wakes, wake_item(pid)).len() ==> exists|k: int|
                #![trigger wakes[k]]
                0 <= k < wakes.len() && runs_waker_to_woken(
                    #[trigger] edges_of(wakes, wake_item(pid))[j],
                    pid,
                    wakes[k],
                ),
    decreases wakes.len(),
{
    let e = edges_of(wakes, wake_item(pid));
    if wakes.len() > 0 {
        let rest = wakes.drop_last();
        let last = wakes.last();
        lemma_wake_edges_run_from_waker(pid, rest);
        let r = edges_of(rest, wake_item(pid));
        let l = wake_item(pid)(last);
        assert(e == r + l);
        assert forall|k: int|
            0 <= k < wakes.len() && (#[trigger] wakes[k]).source_task_id is Some implies exists|j: int|
                #![trigger e[j]]
                0 <= j < e.len() && runs_waker_to_woken(e[j], pid, wakes[k]) by {
            if k < rest.len() {
                assert(wakes[k] == rest[k]);
                let j = choose|j: int|
                    #![trigger r[j]]
                    0 <= j < r.len() && runs_waker_to_woken(r[j], pid, rest[k]);
                assert(e[j] == r[j]);
            } else {
                assert(l.len() == 1);
                assert(e[r.len() as int] == l[0]);
                assert(runs_waker_to_woken(e[r.len() as int], pid, wakes[k]));
            }
        }
        assert forall|j: int| 0 <= j < e.len() implies exists|k: int|
            #![trigger wakes[k]]
            0 <= k < wakes.len() && runs_waker_to_woken(#[trigger] e[j], pid, wakes[k]) by {
            if j < r.len() {
                assert(e[j] == r[j]);
                let k = choose|k: int|
                    #![trigger rest[k]]
                    0 <= k < rest.len() && runs_waker_to_woken(r[j], pid, rest[k]);
                assert(rest[k] == wakes[k]);
            } else {
                assert(e[j] == l[j - r.len()]);
                assert(last.source_task_id is Some);
                assert(wakes[wakes.len() - 1] == last);
                assert(runs_waker_to_woken(e[j], pid, wakes[wakes.len() - 1]));
            }
        }
    }
}

/// A future woken by one task and resuming another.
pub struct FutureWakeInfo {
    pub future_id: u64,
    pub future_resource: String,
    pub source_task_id: Option<u64>,
    pub target_task_id: Option<u64>,
    pub wake_count: u64,
}

/// The waker wakes the future, and the future resumes its target.
pub open spec fn future_wake_item(pid: u32) -> spec_fn(FutureWakeInfo) -> Seq<WaitEdge> {
    |w: FutureWakeInfo|
        match w.source_task_id {
            Some(s) => seq![
                derived_edge(
                    task_node(pid, s),
                    future_node(pid, w.future_id),
                    EdgeKind::TaskWakesFuture,
                    SnapshotSource::FutureWakeEdges,
                    w.wake_count,
                    0,
                ),
            ],
            None => seq![],
        } + match w.target_task_id {
            Some(t) => seq![
                derived_edge(
                    future_node(pid, w.future_id),
                    task_node(pid, t),
                    EdgeKind::FutureResumesTask,
                    SnapshotSource::FutureWakeEdges,
                    w.wake_count,
                    0,
                ),
            ],
            None => seq![],
        }
}

/// Adds the wake and resume edges of each future wake.
pub fn ingest_future_wake_edges(edges: &mut Vec<WaitEdge>, pid: u32, wakes: &Vec<FutureWakeInfo>)
    ensures
        final(edges)@ == old(edges)@ + edges_of(wakes@, future_wake_item(pid)),
{
    let ghost base = edges@;
    let mut i: usize = 0;
    while i < wakes.len()
        invariant
            i <= wakes.len(),
            edges@ == base + edges_of(wakes@.subrange(0, i as int), future_wake_item(pid)),
        decreases wakes.len() - i,
    {
        proof {
            lemma_edges_step(wakes@, future_wake_item(pid), i as int);
        }
        let ghost before = edges@;
        let w = &wakes[i];
        if let Some(s) = w.source_task_id {
            push_edge(
                edges,
                task_id_node(pid, s),
                future_id_node(pid, w.future_id),
                EdgeKind::TaskWakesFuture,
                EdgeMeta::derived(SnapshotSource::FutureWakeEdges, w.wake_count, 0),
            );
        }
        if let Some(t) = w.target_task_id {
            push_edge(
                edges,
                future_id_node(pid, w.future_id),
                task_id_node(pid, t),
                EdgeKind::FutureResumesTask,
                EdgeMeta::derived(SnapshotSource::FutureWakeEdges, w.wake_count, 0),
            );
        }
        assert(edges@ =~= before + future_wake_item(pid)(wakes@[i as int]));
        i = i + 1;
        assert(edges@ =~= base + edges_of(wakes@.subrange(0, i as int), future_wake_item(pid)));
    }
    assert(wakes@.subrange(0, i as int) =~= wakes@);
}

// ── Futures waited on ────────────────────────────────────────────

/// A task waiting on a future, and how often the future was pending or ready.
pub struct FutureWaitInfo {
    pub future_id: u64,
    pub resource: String,
    pub task_id: u64,
    pub pending_count: u64,
    pub ready_count: u64,
    pub created_by_task_id: Option<u64>,
}

/// A future that was pending but never ready is suspicious.
pub open spec fn wait_severity(w: FutureWaitInfo) -> u8 {
    if w.pending_count > 0 && w.ready_count == 0 {
        2
    } else {
        0
    }
}

/// The task waits on the future, counted by its polls; the future belongs to
/// the task that created it, if known.
pub open spec fn future_wait_item(pid: u32) -> spec_fn(FutureWaitInfo) -> Seq<WaitEdge> {
    |w: FutureWaitInfo|
        seq![
            derived_edge(
                task_node(pid, w.task_id),
                future_node(pid, w.future_id),
                EdgeKind::TaskWaitsOnResource,
                SnapshotSource::FutureWaits,
                (w.pending_count + w.ready_count) as u64,
                wait_severity(w),
            ),
        ] + match w.created_by_task_id {
            Some(c) => seq![
                derived_edge(
                    future_node(pid, w.future_id),
                    task_node(pid, c),
                    EdgeKind::ResourceOwnedByTask,
                    SnapshotSource::FutureWaits,
                    1,
                    0,
                ),
            ],
            None => seq![],
        }
}

/// Adds the wait and ownership edges of each future wait. The poll counts of
/// each wait must add up within `u64`.
pub fn ingest_future_waits(edges: &mut Vec<WaitEdge>, pid: u32, waits: &Vec<FutureWaitInfo>)
    requires
        forall|k: int|
            0 <= k < waits.len() ==> (#[trigger] waits[k]).pending_count + waits[k].ready_count
                <= u64::MAX,
    ensures
        final(edges)@ == old(edges)@ + edges_of(waits@, future_wait_item(pid)),
{
    let ghost base = edges@;
    let mut i: usize = 0;
    while i < waits.len()
        invariant
            i <= waits.len(),
            forall|k: int|
                0 <= k < waits.len() ==> (#[trigger] waits[k]).pending_count + waits[k].ready_count
                    <= u64::MAX,
            edges@ == base + edges_of(waits@.subrange(0, i as int), future_wait_item(pid)),
        decreases waits.len() - i,
    {
        proof {
            lemma_edges_step(waits@, future_wait_item(pid), i as int);
        }
        let ghost before = edges@;
        let w = &waits[i];
        let severity: u8 = if w.pending_count > 0 && w.ready_count == 0 {
            2
        } else {
            0
        };
        push_edge(
            edges,
            task_id_node(pid, w.task_id),
            future_id_node(pid, w.future_id),
            EdgeKind::TaskWaitsOnResource,
            EdgeMeta::derived(SnapshotSource::FutureWaits, w.pending_count + w.ready_count, severity),
        );
        if let Some(c) = w.created_by_task_id {
            push_edge(
                edges,
                future_id_node(pid, w.future_id),
                task_id_node(pid, c),
                EdgeKind::ResourceOwnedByTask,
                EdgeMeta::derived(SnapshotSource::FutureWaits, 1, 0),
            );
        }
        assert(edges@ =~= before + future_wait_item(pid)(waits@[i as int]));
        i = i + 1;
        assert(edges@ =~= base + edges_of(waits@.subrange(0, i as int), future_wait_item(pid)));
    }
    assert(waits@.subrange(0, i as int) =~= waits@);
}

// ── Locks ────────────────────────────────────────────────────────

/// How a lock is held or wanted.
#[derive(Clone, Copy, Debug, PartialEq, Eq, Structural)]
pub enum LockAcquireKind {
    Read,
    Write,
    Mutex,
}

/// A holder of a lock, and how long it has held it.
pub struct LockHolderInfo {
    pub task_id: Option<u64>,
    pub kind: LockAcquireKind,
    pub held_secs: SecsBits,
}

/// A task waiting for a lock, and how long it has waited.
pub struct LockWaiterInfo {
    pub task_id: Option<u64>,
    pub waiting_secs: SecsBits,
}

/// A lock with its holders and waiters.
pub struct LockInfo {
    pub name: String,
    pub acquires: u64,
    pub releases: u64,
    pub holders: Vec<LockHolderInfo>,
    pub waiters: Vec<LockWaiterInfo>,
}

/// The node of the lock `name` in process `pid`.
pub open spec fn lock_node(pid: u32, name: String) -> NodeId {
    NodeId::Lock { pid, name }
}

/// A shared hold is harmless; an exclusive one is severe once it lasts over
/// a second.
pub open spec fn holder_severity(h: LockHolderInfo) -> u8 {
    match h.kind {
        LockAcquireKind::Read => 0,
        _ => if longer_than(h.held_secs, ONE_SECOND_BITS) {
            3
        } else {
            1
        },
    }
}

/// The lock is owned by each holder whose task is known.
pub open spec fn holder_item(pid: u32, name: String) -> spec_fn(LockHolderInfo) -> Seq<WaitEdge> {
    |h: LockHolderInfo|
        match h.task_id {
            Some(t) => seq![
                derived_edge(
                    lock_node(pid, name),
                    task_node(pid, t),
                    EdgeKind::ResourceOwnedByTask,
                    SnapshotSource::Locks,
                    1,
                    holder_severity(h),
                ),
            ],
            None => seq![],
        }
}

/// Each waiter whose task is known waits on the lock.
pub open spec fn waiter_item(pid: u32, name: String) -> spec_fn(LockWaiterInfo) -> Seq<WaitEdge> {
    |w: LockWaiterInfo|
        match w.task_id {
            Some(t) => seq![
                derived_edge(
                    task_node(pid, t),
                    lock_node(pid, name),
                    EdgeKind::TaskWaitsOnResource,
                    SnapshotSource::Locks,
                    1,
                    if longer_than(w.waiting_secs, ONE_SECOND_BITS) {
                        3u8
                    } else {
                        1u8
                    },
                ),
            ],
            None => seq![],
        }
}

/// The edges of one lock: its holders, then its waiters.
pub open spec fn lock_item(pid: u32) -> spec_fn(LockInfo) -> Seq<WaitEdge> {
    |l: LockInfo|
        edges_of(l.holders@, holder_item(pid, l.name)) + edges_of(l.waiters@, waiter_item(pid, l.name))
}

/// Adds the ownership edges of a lock's holders, then the wait edges of its
/// waiters.
pub fn ingest_single_lock(edges: &mut Vec<WaitEdge>, pid: u32, lock: &LockInfo)
    ensures
        final(edges)@ == old(edges)@ + lock_item(pid)(*lock),
{
    let ghost base = edges@;
    let mut i: usize = 0;
    while i < lock.holders.len()
        invariant
            i <= lock.holders.len(),
            edges@ == base + edges_of(lock.holders@.subrange(0, i as int), holder_item(pid, lock.name)),
        decreases lock.holders.len() - i,
    {
        proof {
            lemma_edges_step(lock.holders@, holder_item(pid, lock.name), i as int);
        }
        let ghost before = edges@;
        let h = &lock.holders[i];
        if let Some(t) = h.task_id {
            let severity: u8 = match h.kind {
                LockAcquireKind::Read => 0,
                _ => if h.held_secs.is_longer_than(ONE_SECOND_BITS) {
                    3
                } else {
                    1
                },
            };
            push_edge(
                edges,
                NodeId::Lock { pid, name: lock.name.clone() },
                task_id_node(pid, t),
                EdgeKind::ResourceOwnedByTask,
                EdgeMeta::derived(SnapshotSource::Locks, 1, severity),
            );
        }
        assert(edges@ =~= before + holder_item(pid, lock.name)(lock.holders@[i as int]));
        i = i + 1;
        assert(edges@ =~= base + edges_of(
            lock.holders@.subrange(0, i as int),
            holder_item(pid, lock.name),
        ));
    }
    assert(lock.holders@.subrange(0, i as int) =~= lock.holders@);
    let ghost mid = edges@;
    let mut i: usize = 0;
    while i < lock.waiters.len()
        invariant
            i <= lock.waiters.len(),
            edges@ == mid + edges_of(lock.waiters@.subrange(0, i as int), waiter_item(pid, lock.name)),
        decreases lock.waiters.len() - i,
    {
        proof {
            lemma_edges_step(lock.waiters@, waiter_item(pid, lock.name), i as int);
        }
        let ghost before = edges@;
        let w = &lock.waiters[i];
        if let Some(t) = w.task_id {
            let severity: u8 = if w.waiting_secs.is_longer_than(ONE_SECOND_BITS) {
                3
            } else {
                1
            };
            push_edge(
                edges,
                task_id_node(pid, t),
                NodeId::Lock { pid, name: lock.name.clone() },
                EdgeKind::TaskWaitsOnResource,
                EdgeMeta::derived(SnapshotSource::Locks, 1, severity),
            );
        }
        assert(edges@ =~= before + waiter_item(pid, lock.name)(lock.waiters@[i as int]));
        i = i + 1;
        assert(edges@ =~= mid + edges_of(
            lock.waiters@.subrange(0, i as int),
            waiter_item(pid, lock.name),
        ));
    }
    assert(lock.waiters@.subrange(0, i as int) =~= lock.waiters@);
    assert(edges@ =~= base + lock_item(pid)(*lock));
}

/// The locks a process tracks.
pub struct LockSnapshot {
    pub locks: Vec<LockInfo>,
}

/// Adds the edges of every lock in turn.
pub fn ingest_locks(edges: &mut Vec<WaitEdge>, pid: u32, lock_snap: &LockSnapshot)
    ensures
        final(edges)@ == old(edges)@ + edges_of(lock_snap.locks@, lock_item(pid)),
{
    let locks = &lock_snap.locks;
    let ghost base = edges@;
    let mut i: usize = 0;
    while i < locks.len()
        invariant
            i <= locks.len(),
            edges@ == base + edges_of(locks@.subrange(0, i as int), lock_item(pid)),
        decreases locks.len() - i,
    {
        proof {
            lemma_edges_step(locks@, lock_item(pid), i as int);
        }
        let ghost before = edges@;
        ingest_single_lock(edges, pid, &locks[i]);
        i = i + 1;
        assert(edges@ =~= base + edges_of(locks@.subrange(0, i as int), lock_item(pid)));
    }
    assert(locks@.subrange(0, i as int) =~= locks@);
}

// ── Synchronisation primitives ───────────────────────────────────

/// An mpsc channel: its creator, if known, and how many senders are blocked.
pub struct MpscInfo {
    pub name: String,
    pub bounded: bool,
    pub capacity: Option<u64>,
    pub sent: u64,
    pub received: u64,
    pub creator_task_id: Option<u64>,
    pub send_waiters: u64,
}

/// The channel belongs to its creator; with blocked senders, the creator
/// waits on it.
pub open spec fn mpsc_item(pid: u32) -> spec_fn(MpscInfo) -> Seq<WaitEdge> {
    |c: MpscInfo|
        match c.creator_task_id {
            Some(t) => seq![
                derived_edge(
                    NodeId::MpscChannel { pid, name: c.name },
                    task_node(pid, t),
                    EdgeKind::ResourceOwnedByTask,
                    SnapshotSource::Sync,
                    1,
                    0,
                ),
            ] + if c.send_waiters > 0 {
                seq![
                    derived_edge(
                        task_node(pid, t),
                        NodeId::MpscChannel { pid, name: c.name },
                        EdgeKind::TaskWaitsOnResource,
                        SnapshotSource::Sync,
                        c.send_waiters,
                        2,
                    ),
                ]
            } else {
                seq![]
            },
            None => seq![],
        }
}

/// A oneshot or watch channel and its creator, if known.
pub struct CreatedChannelInfo {
    pub name: String,
    /// How often the value changed (watch channels).
    pub changes: u64,
    pub creator_task_id: Option<u64>,
}

/// A oneshot channel belongs to its creator.
pub open spec fn oneshot_item(pid: u32) -> spec_fn(CreatedChannelInfo) -> Seq<WaitEdge> {
    |c: CreatedChannelInfo|
        match c.creator_task_id {
            Some(t) => seq![
                derived_edge(
                    NodeId::OneshotChannel { pid, name: c.name },
                    task_node(pid, t),
                    EdgeKind::ResourceOwnedByTask,
                    SnapshotSource::Sync,
                    1,
                    0,
                ),
            ],
            None => seq![],
        }
}

/// A watch channel belongs to its creator.
pub open spec fn watch_item(pid: u32) -> spec_fn(CreatedChannelInfo) -> Seq<WaitEdge> {
    |c: CreatedChannelInfo|
        match c.creator_task_id {
            Some(t) => seq![
                derived_edge(
                    NodeId::WatchChannel { pid, name: c.name },
                    task_node(pid, t),
                    EdgeKind::ResourceOwnedByTask,
                    SnapshotSource::Sync,
                    1,
                    0,
                ),
            ],
            None => seq![],
        }
}

/// A semaphore, its creator, its longest-waiting tasks, and how long the
/// oldest of its waiters has waited.
pub struct SemaphoreInfo {
    pub name: String,
    pub permits_total: u64,
    pub permits_available: u64,
    pub waiters: u64,
    pub oldest_wait_secs: SecsBits,
    pub creator_task_id: Option<u64>,
    pub top_waiter_task_ids: Vec<u64>,
}

/// Each waiting task waits on the semaphore.
pub open spec fn semaphore_waiter_item(pid: u32, name: String, severity: u8) -> spec_fn(u64) -> Seq<
    WaitEdge,
> {
    |t: u64|
        seq![
            derived_edge(
                task_node(pid, t),
                NodeId::Semaphore { pid, name },
                EdgeKind::TaskWaitsOnResource,
                SnapshotSource::Sync,
                1,
                severity,
            ),
        ]
}

/// The semaphore belongs to its creator, and each of its waiters waits on it.
pub open spec fn semaphore_item(pid: u32) -> spec_fn(SemaphoreInfo) -> Seq<WaitEdge> {
    |s: SemaphoreInfo|
        match s.creator_task_id {
            Some(t) => seq![
                derived_edge(
                    NodeId::Semaphore { pid, name: s.name },
                    task_node(pid, t),
                    EdgeKind::ResourceOwnedByTask,
                    SnapshotSource::Sync,
                    1,
                    0,
                ),
            ],
            None => seq![],
        } + edges_of(
            s.top_waiter_task_ids@,
            semaphore_waiter_item(pid, s.name, age_severity(s.oldest_wait_secs)),
        )
}

/// A once-cell; it yields a node but no edge.
pub struct OnceCellInfo {
    pub name: String,
}

/// The synchronisation primitives of a process.
pub struct SyncInfo {
    pub mpsc_channels: Vec<MpscInfo>,
    pub oneshot_channels: Vec<CreatedChannelInfo>,
    pub watch_channels: Vec<CreatedChannelInfo>,
    pub semaphores: Vec<SemaphoreInfo>,
    pub once_cells: Vec<OnceCellInfo>,
}

/// The edges of the synchronisation primitives: mpsc, oneshot and watch
/// channels, then semaphores.
pub open spec fn sync_edges(pid: u32, sync: SyncInfo) -> Seq<WaitEdge> {
    edges_of(sync.mpsc_channels@, mpsc_item(pid)) + edges_of(
        sync.oneshot_channels@,
        oneshot_item(pid),
    ) + edges_of(sync.watch_channels@, watch_item(pid)) + edges_of(
        sync.semaphores@,
        semaphore_item(pid),
    )
}

fn ingest_mpsc_channels(edges: &mut Vec<WaitEdge>, pid: u32, chans: &Vec<MpscInfo>)
    ensures
        final(edges)@ == old(edges)@ + edges_of(chans@, mpsc_item(pid)),
{
    let ghost base = edges@;
    let mut i: usize = 0;
    while i < chans.len()
        invariant
            i <= chans.len(),
            edges@ == base + edges_of(chans@.subrange(0, i as int), mpsc_item(pid)),
        decreases chans.len() - i,
    {
        proof {
            lemma_edges_step(chans@, mpsc_item(pid), i as int);
        }
        let ghost before = edges@;
        let c = &chans[i];
        if let Some(t) = c.creator_task_id {
            push_edge(
                edges,
                NodeId::MpscChannel { pid, name: c.name.clone() },
                task_id_node(pid, t),
                EdgeKind::ResourceOwnedByTask,
                EdgeMeta::derived(SnapshotSource::Sync, 1, 0),
            );
            if c.send_waiters > 0 {
                push_edge(
                    edges,
                    task_id_node(pid, t),
                    NodeId::MpscChannel { pid, name: c.name.clone() },
                    EdgeKind::TaskWaitsOnResource,
                    EdgeMeta::derived(SnapshotSource::Sync, c.send_waiters, 2),
                );
            }
        }
        assert(edges@ =~= before + mpsc_item(pid)(chans@[i as int]));
        i = i + 1;
        assert(edges@ =~= base + edges_of(chans@.subrange(0, i as int), mpsc_item(pid)));
    }
    assert(chans@.subrange(0, i as int) =~= chans@);
}

fn ingest_created_channels(
    edges: &mut Vec<WaitEdge>,
    pid: u32,
    chans: &Vec<CreatedChannelInfo>,
    watch: bool,
)
    ensures
        final(edges)@ == old(edges)@ + edges_of(
            chans@,
            if watch {
                watch_item(pid)
            } else {
                oneshot_item(pid)
            },
        ),
{
    let ghost f = if watch {
        watch_item(pid)
    } else {
        oneshot_item(pid)
    };
    let ghost base = edges@;
    let mut i: usize = 0;
    while i < chans.len()
        invariant
            i <= chans.len(),
            f == (if watch {
                watch_item(pid)
            } else {
                oneshot_item(pid)
            }),
            edges@ == base + edges_of(chans@.subrange(0, i as int), f),
        decreases chans.len() - i,
    {
        proof {
            lemma_edges_step(chans@, f, i as int);
        }
        let ghost before = edges@;
        let c = &chans[i];
        if let Some(t) = c.creator_task_id {
            let node = if watch {
                NodeId::WatchChannel { pid, name: c.name.clone() }
            } else {
                NodeId::OneshotChannel { pid, name: c.name.clone() }
            };
            push_edge(
                edges,
                node,
                task_id_node(pid, t),
                EdgeKind::ResourceOwnedByTask,
                EdgeMeta::derived(SnapshotSource::Sync, 1, 0),
            );
        }
        assert(edges@ =~= before + f(chans@[i as int]));
        i = i + 1;
        assert(edges@ =~= base + edges_of(chans@.subrange(0, i as int), f));
    }
    assert(chans@.subrange(0, i as int) =~= chans@);
}

/// Adds the ownership edge of a semaphore, then a wait edge for each of its
/// top waiters.
pub fn ingest_semaphore(edges: &mut Vec<WaitEdge>, pid: u32, sem: &SemaphoreInfo)
    ensures
        final(edges)@ == old(edges)@ + semaphore_item(pid)(*sem),
{
    let ghost base = edges@;
    if let Some(t) = sem.creator_task_id {
        push_edge(
            edges,
            NodeId::Semaphore { pid, name: sem.name.clone() },
            task_id_node(pid, t),
            EdgeKind::ResourceOwnedByTask,
            EdgeMeta::derived(SnapshotSource::Sync, 1, 0),
        );
    }
    let ghost mid = edges@;
    let severity = age_severity_of(sem.oldest_wait_secs);
    let ghost f = semaphore_waiter_item(pid, sem.name, age_severity(sem.oldest_wait_secs));
    let mut i: usize = 0;
    while i < sem.top_waiter_task_ids.len()
        invariant
            i <= sem.top_waiter_task_ids.len(),
            severity == age_severity(sem.oldest_wait_secs),
            f == semaphore_waiter_item(pid, sem.name, age_severity(sem.oldest_wait_secs)),
            edges@ == mid + edges_of(sem.top_waiter_task_ids@.subrange(0, i as int), f),
        decreases sem.top_waiter_task_ids.len() - i,
    {
        proof {
            lemma_edges_step(sem.top_waiter_task_ids@, f, i as int);
        }
        let ghost before = edges@;
        push_edge(
            edges,
            task_id_node(pid, sem.top_waiter_task_ids[i]),
            NodeId::Semaphore { pid, name: sem.name.clone() },
            EdgeKind::TaskWaitsOnResource,
            EdgeMeta::derived(SnapshotSource::Sync, 1, severity),
        );
        assert(edges@ =~= before + f(sem.top_waiter_task_ids@[i as int]));
        i = i + 1;
        assert(edges@ =~= mid + edges_of(sem.top_waiter_task_ids@.subrange(0, i as int), f));
    }
    assert(sem.top_waiter_task_ids@.subrange(0, i as int) =~= sem.top_waiter_task_ids@);
    assert(edges@ =~= base + semaphore_item(pid)(*sem));
}

fn ingest_semaphores(edges: &mut Vec<WaitEdge>, pid: u32, sems: &Vec<SemaphoreInfo>)
    ensures
        final(edges)@ == old(edges)@ + edges_of(sems@, semaphore_item(pid)),
{
    let ghost base = edges@;
    let mut i: usize = 0;
    while i < sems.len()
        invariant
            i <= sems.len(),
            edges@ == base + edges_of(sems@.subrange(0, i as int), semaphore_item(pid)),
        decreases sems.len() - i,
    {
        proof {
            lemma_edges_step(sems@, semaphore_item(pid), i as int);
        }
        ingest_semaphore(edges, pid, &sems[i]);
        i = i + 1;
        assert(edges@ =~= base + edges_of(sems@.subrange(0, i as int), semaphore_item(pid)));
    }
    assert(sems@.subrange(0, i as int) =~= sems@);
}

/// Adds the edges of a process's synchronisation primitives.
pub fn ingest_sync(edges: &mut Vec<WaitEdge>, pid: u32, sync: &SyncInfo)
    ensures
        final(edges)@ == old(edges)@ + sync_edges(pid, *sync),
{
    let ghost base = edges@;
    ingest_mpsc_channels(edges, pid, &sync.mpsc_channels);
    ingest_created_channels(edges, pid, &sync.oneshot_channels, false);
    ingest_created_channels(edges, pid, &sync.watch_channels, true);
    ingest_semaphores(edges, pid, &sync.semaphores);
    assert(edges@ =~= base + sync_edges(pid, *sync));
}


// ── RPC sessions ─────────────────────────────────────────────────

/// An RPC request in flight on a connection: how long it has been in
/// flight, its method, and the task awaiting or serving it, if known.
pub struct InFlightInfo {
    pub request_id: u64,
    pub elapsed_secs: SecsBits,
    pub method_id: u64,
    pub method_name: Option<String>,
    pub task_id: Option<u64>,
    pub direction: RpcDirection,
}

/// A connection and the requests in flight on it.
pub struct ConnectionInfo {
    pub name: String,
    pub in_flight: Vec<InFlightInfo>,
}

/// An RPC channel: whether it is closed, the task using it, if known, and
/// its age.
pub struct RoamChannelInfo {
    pub channel_id: u64,
    pub name: String,
    pub queue_depth: Option<u64>,
    pub closed: bool,
    pub task_id: Option<u64>,
    pub age_secs: SecsBits,
}

/// The name of a method, by its id.
pub struct MethodName {
    pub method_id: u64,
    pub name: String,
}

/// An RPC session: its connections, the method names it knows, and its
/// channels.
pub struct SessionInfo {
    pub connections: Vec<ConnectionInfo>,
    pub method_names: Vec<MethodName>,
    pub channels: Vec<RoamChannelInfo>,
}

/// The node of request `request_id` on `connection` in process `pid`.
pub open spec fn request_node(pid: u32, connection: String, request_id: u64) -> NodeId {
    NodeId::RpcRequest { pid, connection, request_id }
}

/// A request in flight for more than five seconds is severe.
pub open spec fn request_severity(r: InFlightInfo) -> u8 {
    if longer_than(r.elapsed_secs, FIVE_SECONDS_BITS) {
        3
    } else {
        1
    }
}

/// A client task waits on its outgoing request; an incoming request is
/// handled by its server task.
pub open spec fn request_item(pid: u32, connection: String) -> spec_fn(InFlightInfo) -> Seq<
    WaitEdge,
> {
    |r: InFlightInfo|
        match r.task_id {
            Some(t) => match r.direction {
                RpcDirection::Outgoing => seq![
                    derived_edge(
                        task_node(pid, t),
                        request_node(pid, connection, r.request_id),
                        EdgeKind::RpcClientToRequest,
                        SnapshotSource::Roam,
                        1,
                        request_severity(r),
                    ),
                ],
                RpcDirection::Incoming => seq![
                    derived_edge(
                        request_node(pid, connection, r.request_id),
                        task_node(pid, t),
                        EdgeKind::RpcRequestToServerTask,
                        SnapshotSource::Roam,
                        1,
                        request_severity(r),
                    ),
                ],
            },
            None => seq![],
        }
}

/// The edges of the requests in flight on a connection.
pub open spec fn connection_item(pid: u32) -> spec_fn(ConnectionInfo) -> Seq<WaitEdge> {
    |c: ConnectionInfo| edges_of(c.in_flight@, request_item(pid, c.name))
}

/// The task of an open channel waits on it.
pub open spec fn roam_channel_item(pid: u32) -> spec_fn(RoamChannelInfo) -> Seq<WaitEdge> {
    |ch: RoamChannelInfo|
        if ch.closed {
            seq![]
        } else {
            match ch.task_id {
                Some(t) => seq![
                    derived_edge(
                        task_node(pid, t),
                        NodeId::RoamChannel { pid, channel_id: ch.channel_id },
                        EdgeKind::TaskWaitsOnResource,
                        SnapshotSource::Roam,
                        1,
                        age_severity(ch.age_secs),
                    ),
                ],
                None => seq![],
            }
        }
}

/// The edges of a session: its connections' requests, then its channels.
pub open spec fn roam_edges(pid: u32, s: SessionInfo) -> Seq<WaitEdge> {
    edges_of(s.connections@, connection_item(pid)) + edges_of(s.channels@, roam_channel_item(pid))
}

/// The first name given for method `id`.
pub open spec fn method_name_lookup(names: Seq<MethodName>, id: u64) -> Option<String>
    decreases names.len(),
{
    if names.len() == 0 {
        None
    } else if names[0].method_id == id {
        Some(names[0].name)
    } else {
        method_name_lookup(names.drop_first(), id)
    }
}

/// The request's own method name, else the session's name for its method id.
pub open spec fn resolved_method(
    method_name: Option<String>,
    method_id: u64,
    names: Seq<MethodName>,
) -> Option<String> {
    match method_name {
        Some(n) => Some(n),
        None => method_name_lookup(names, method_id),
    }
}

/// The method name of a request: its own, if it has one, else the one the
/// session knows for its method id.
pub fn resolve_method_name(
    method_name: &Option<String>,
    method_id: u64,
    names: &Vec<MethodName>,
) -> (r: Option<String>)
    ensures
        r == resolved_method(*method_name, method_id, names@),
{
    if let Some(n) = method_name {
        return Some(n.clone());
    }
    let mut i: usize = 0;
    assert(names@.subrange(0, names.len() as int) =~= names@);
    while i < names.len()
        invariant
            i <= names.len(),
            method_name.is_none(),
            method_name_lookup(names@, method_id) == method_name_lookup(
                names@.subrange(i as int, names.len() as int),
                method_id,
            ),
        decreases names.len() - i,
    {
        assert(names@.subrange(i as int, names.len() as int).drop_first() =~= names@.subrange(
            i + 1,
            names.len() as int,
        ));
        if names[i].method_id == method_id {
            assert(names@.subrange(i as int, names.len() as int)[0] == names@[i as int]);
            return Some(names[i].name.clone());
        }
        i = i + 1;
    }
    None
}

/// Adds the edges of the requests in flight on a connection.
pub fn ingest_connection(edges: &mut Vec<WaitEdge>, pid: u32, conn: &ConnectionInfo)
    ensures
        final(edges)@ == old(edges)@ + connection_item(pid)(*conn),
{
    let ghost base = edges@;
    let ghost f = request_item(pid, conn.name);
    let mut i: usize = 0;
    while i < conn.in_flight.len()
        invariant
            i <= conn.in_flight.len(),
            f == request_item(pid, conn.name),
            edges@ == base + edges_of(conn.in_flight@.subrange(0, i as int), f),
        decreases conn.in_flight.len() - i,
    {
        proof {
            lemma_edges_step(conn.in_flight@, f, i as int);
        }
        let ghost before = edges@;
        let r = &conn.in_flight[i];
        if let Some(t) = r.task_id {
            let severity: u8 = if r.elapsed_secs.is_longer_than(FIVE_SECONDS_BITS) {
                3
            } else {
                1
            };
            let req = NodeId::RpcRequest {
                pid,
                connection: conn.name.clone(),
                request_id: r.request_id,
            };
            match r.direction {
                RpcDirection::Outgoing => {
                    push_edge(
                        edges,
                        task_id_node(pid, t),
                        req,
                        EdgeKind::RpcClientToRequest,
                        EdgeMeta::derived(SnapshotSource::Roam, 1, severity),
                    );
                },
                RpcDirection::Incoming => {
                    push_edge(
                        edges,
                        req,
                        task_id_node(pid, t),
                        EdgeKind::RpcRequestToServerTask,
                        EdgeMeta::derived(SnapshotSource::Roam, 1, severity),
                    );
                },
            }
        }
        assert(edges@ =~= before + f(conn.in_flight@[i as int]));
        i = i + 1;
        assert(edges@ =~= base + edges_of(conn.in_flight@.subrange(0, i as int), f));
    }
    assert(conn.in_flight@.subrange(0, i as int) =~= conn.in_flight@);
}

/// Adds the wait edge of an open RPC channel's task.
pub fn ingest_roam_channel(edges: &mut Vec<WaitEdge>, pid: u32, ch: &RoamChannelInfo)
    ensures
        final(edges)@ == old(edges)@ + roam_channel_item(pid)(*ch),
{
    let ghost base = edges@;
    if !ch.closed {
        if let Some(t) = ch.task_id {
            push_edge(
                edges,
                task_id_node(pid, t),
                NodeId::RoamChannel { pid, channel_id: ch.channel_id },
                EdgeKind::TaskWaitsOnResource,
                EdgeMeta::derived(SnapshotSource::Roam, 1, age_severity_of(ch.age_secs)),
            );
        }
    }
    assert(edges@ =~= base + roam_channel_item(pid)(*ch));
}

/// Adds the edges of a session's connections, then of its channels.
pub fn ingest_roam(edges: &mut Vec<WaitEdge>, pid: u32, session: &SessionInfo)
    ensures
        final(edges)@ == old(edges)@ + roam_edges(pid, *session),
{
    let ghost base = edges@;
    let mut i: usize = 0;
    while i < session.connections.len()
        invariant
            i <= session.connections.len(),
            edges@ == base + edges_of(session.connections@.subrange(0, i as int), connection_item(pid)),
        decreases session.connections.len() - i,
    {
        proof {
            lemma_edges_step(session.connections@, connection_item(pid), i as int);
        }
        ingest_connection(edges, pid, &session.connections[i]);
        i = i + 1;
        assert(edges@ =~= base + edges_of(
            session.connections@.subrange(0, i as int),
            connection_item(pid),
        ));
    }
    assert(session.connections@.subrange(0, i as int) =~= session.connections@);
    let ghost mid = edges@;
    let mut j: usize = 0;
    while j < session.channels.len()
        invariant
            j <= session.channels.len(),
            edges@ == mid + edges_of(session.channels@.subrange(0, j as int), roam_channel_item(pid)),
        decreases session.channels.len() - j,
    {
        proof {
            lemma_edges_step(session.channels@, roam_channel_item(pid), j as int);
        }
        ingest_roam_channel(edges, pid, &session.channels[j]);
        j = j + 1;
        assert(edges@ =~= mid + edges_of(
            session.channels@.subrange(0, j as int),
            roam_channel_item(pid),
        ));
    }
    assert(session.channels@.subrange(0, j as int) =~= session.channels@);
    assert(edges@ =~= base + roam_edges(pid, *session));
}

// ── Instrumented future edges ────────────────────────────────────

/// A future spawning another future.
pub struct FutureSpawnInfo {
    pub parent_future_id: u64,
    pub parent_resource: String,
    pub child_future_id: u64,
    pub child_resource: String,
}

/// A parent future is linked to each future it spawned; a future that names
/// itself as its parent yields nothing.
pub open spec fn future_spawn_item(pid: u32) -> spec_fn(FutureSpawnInfo) -> Seq<WaitEdge> {
    |e: FutureSpawnInfo|
        if e.parent_future_id == e.child_future_id {
            seq![]
        } else {
            seq![
                explicit_edge(
                    future_node(pid, e.parent_future_id),
                    future_node(pid, e.child_future_id),
                    EdgeKind::FutureSpawnedFuture,
                    SnapshotSource::FutureSpawnEdges,
                    1,
                    0,
                ),
            ]
        }
}

/// Adds an edge from each parent future to the future it spawned, skipping
/// a future that names itself as its parent.
pub fn ingest_future_spawn_edges(edges: &mut Vec<WaitEdge>, pid: u32, spawns: &Vec<FutureSpawnInfo>)
    ensures
        final(edges)@ == old(edges)@ + edges_of(spawns@, future_spawn_item(pid)),
{
    let ghost base = edges@;
    let mut i: usize = 0;
    while i < spawns.len()
        invariant
            i <= spawns.len(),
            edges@ == base + edges_of(spawns@.subrange(0, i as int), future_spawn_item(pid)),
        decreases spawns.len() - i,
    {
        proof {
            lemma_edges_step(spawns@, future_spawn_item(pid), i as int);
        }
        let ghost before = edges@;
        let e = &spawns[i];
        if e.parent_future_id != e.child_future_id {
            push_edge(
                edges,
                future_id_node(pid, e.parent_future_id),
                future_id_node(pid, e.child_future_id),
                EdgeKind::FutureSpawnedFuture,
                EdgeMeta::explicit(SnapshotSource::FutureSpawnEdges, 1, 0),
            );
        }
        assert(edges@ =~= before + future_spawn_item(pid)(spawns@[i as int]));
        i = i + 1;
        assert(edges@ =~= base + edges_of(spawns@.subrange(0, i as int), future_spawn_item(pid)));
    }
    assert(spawns@.subrange(0, i as int) =~= spawns@);
}

/// A task polling a future: how often, and for how long in all.
pub struct FuturePollInfo {
    pub task_id: u64,
    pub future_id: u64,
    pub future_resource: String,
    pub poll_count: u64,
    pub total_poll_secs: SecsBits,
}

/// The task polls the future.
pub open spec fn future_poll_item(pid: u32) -> spec_fn(FuturePollInfo) -> Seq<WaitEdge> {
    |e: FuturePollInfo|
        seq![
            explicit_edge(
                task_node(pid, e.task_id),
                future_node(pid, e.future_id),
                EdgeKind::TaskPollsFuture,
                SnapshotSource::FuturePollEdges,
                e.poll_count,
                total_severity(e.total_poll_secs),
            ),
        ]
}

/// Adds an edge from each polling task to the future it polls.
pub fn ingest_future_poll_edges(edges: &mut Vec<WaitEdge>, pid: u32, polls: &Vec<FuturePollInfo>)
    ensures
        final(edges)@ == old(edges)@ + edges_of(polls@, future_poll_item(pid)),
{
    let ghost base = edges@;
    let mut i: usize = 0;
    while i < polls.len()
        invariant
            i <= polls.len(),
            edges@ == base + edges_of(polls@.subrange(0, i as int), future_poll_item(pid)),
        decreases polls.len() - i,
    {
        proof {
            lemma_edges_step(polls@, future_poll_item(pid), i as int);
        }
        let ghost before = edges@;
        let e = &polls[i];
        push_edge(
            edges,
            task_id_node(pid, e.task_id),
            future_id_node(pid, e.future_id),
            EdgeKind::TaskPollsFuture,
            EdgeMeta::explicit(
                SnapshotSource::FuturePollEdges,
                e.poll_count,
                total_severity_of(e.total_poll_secs),
            ),
        );
        assert(edges@ =~= before + future_poll_item(pid)(polls@[i as int]));
        i = i + 1;
        assert(edges@ =~= base + edges_of(polls@.subrange(0, i as int), future_poll_item(pid)));
    }
    assert(polls@.subrange(0, i as int) =~= polls@);
}

/// A future resuming a task, and how often.
pub struct FutureResumeInfo {
    pub future_id: u64,
    pub future_resource: String,
    pub target_task_id: u64,
    pub resume_count: u64,
}

/// The future resumes the task.
pub open spec fn future_resume_item(pid: u32) -> spec_fn(FutureResumeInfo) -> Seq<WaitEdge> {
    |e: FutureResumeInfo|
        seq![
            explicit_edge(
                future_node(pid, e.future_id),
                task_node(pid, e.target_task_id),
                EdgeKind::FutureResumesTask,
                SnapshotSource::FutureResumeEdges,
                e.resume_count,
                0,
            ),
        ]
}

/// Adds an edge from each resuming future to the task it resumes.
pub fn ingest_future_resume_edges(
    edges: &mut Vec<WaitEdge>,
    pid: u32,
    resumes: &Vec<FutureResumeInfo>,
)
    ensures
        final(edges)@ == old(edges)@ + edges_of(resumes@, future_resume_item(pid)),
{
    let ghost base = edges@;
    let mut i: usize = 0;
    while i < resumes.len()
        invariant
            i <= resumes.len(),
            edges@ == base + edges_of(resumes@.subrange(0, i as int), future_resume_item(pid)),
        decreases resumes.len() - i,
    {
        proof {
            lemma_edges_step(resumes@, future_resume_item(pid), i as int);
        }
        let ghost before = edges@;
        let e = &resumes[i];
        push_edge(
            edges,
            future_id_node(pid, e.future_id),
            task_id_node(pid, e.target_task_id),
            EdgeKind::FutureResumesTask,
            EdgeMeta::explicit(SnapshotSource::FutureResumeEdges, e.resume_count, 0),
        );
        assert(edges@ =~= before + future_resume_item(pid)(resumes@[i as int]));
        i = i + 1;
        assert(edges@ =~= base + edges_of(resumes@.subrange(0, i as int), future_resume_item(pid)));
    }
    assert(resumes@.subrange(0, i as int) =~= resumes@);
}

/// A future waiting on a resource: how often, and for how long in all.
pub struct FutureResourceInfo {
    pub future_id: u64,
    pub resource: ResourceRef,
    /// The label a node for a resource of no node of its own is given when
    /// no node stands for it yet: the snapshot's description of the resource.
    pub fallback_label: String,
    pub wait_count: u64,
    pub total_wait_secs: SecsBits,
}

/// The future waits on the resource's node.
pub open spec fn future_resource_item(pid: u32) -> spec_fn(FutureResourceInfo) -> Seq<WaitEdge> {
    |e: FutureResourceInfo|
        seq![
            explicit_edge(
                future_node(pid, e.future_id),
                resource_node(pid, e.resource),
                EdgeKind::FutureWaitsOnResource,
                SnapshotSource::FutureResourceEdges,
                e.wait_count,
                total_severity(e.total_wait_secs),
            ),
        ]
}

/// Adds an edge from each waiting future to the node of its resource.
pub fn ingest_future_resource_edges(
    edges: &mut Vec<WaitEdge>,
    pid: u32,
    waits: &Vec<FutureResourceInfo>,
)
    ensures
        final(edges)@ == old(edges)@ + edges_of(waits@, future_resource_item(pid)),
{
    let ghost base = edges@;
    let mut i: usize = 0;
    while i < waits.len()
        invariant
            i <= waits.len(),
            edges@ == base + edges_of(waits@.subrange(0, i as int), future_resource_item(pid)),
        decreases waits.len() - i,
    {
        proof {
            lemma_edges_step(waits@, future_resource_item(pid), i as int);
        }
        let ghost before = edges@;
        let e = &waits[i];
        push_edge(
            edges,
            future_id_node(pid, e.future_id),
            resource_ref_to_node_id(pid, &e.resource),
            EdgeKind::FutureWaitsOnResource,
            EdgeMeta::explicit(
                SnapshotSource::FutureResourceEdges,
                e.wait_count,
                total_severity_of(e.total_wait_secs),
            ),
        );
        assert(edges@ =~= before + future_resource_item(pid)(waits@[i as int]));
        i = i + 1;
        assert(edges@ =~= base + edges_of(waits@.subrange(0, i as int), future_resource_item(pid)));
    }
    assert(waits@.subrange(0, i as int) =~= waits@);
}

// ── Process dumps ────────────────────────────────────────────────

/// What a process dump holds that the wait graph links.
pub struct DumpInfo {
    pub pid: u32,
    pub process_name: String,
    pub tasks: Vec<TaskInfo>,
    pub wake_edges: Vec<WakeInfo>,
    pub future_wake_edges: Vec<FutureWakeInfo>,
    pub future_waits: Vec<FutureWaitInfo>,
    pub locks: Option<LockSnapshot>,
    pub sync: Option<SyncInfo>,
    pub roam: Option<SessionInfo>,
    pub future_spawn_edges: Vec<FutureSpawnInfo>,
    pub future_poll_edges: Vec<FuturePollInfo>,
    pub future_resume_edges: Vec<FutureResumeInfo>,
    pub future_resource_edges: Vec<FutureResourceInfo>,
    pub request_parents: Vec<RequestParentRef>,
}

/// The poll counts of each future wait of the dump add up within `u64`.
pub open spec fn wait_counts_fit(d: DumpInfo) -> bool {
    forall|k: int|
        0 <= k < d.future_waits.len() ==> (#[trigger] d.future_waits[k]).pending_count
            + d.future_waits[k].ready_count <= u64::MAX
}

/// The edges of a dump's task sections: spawns, wakes, future wakes and
/// future waits.
pub open spec fn task_section_edges(d: DumpInfo) -> Seq<WaitEdge> {
    edges_of(d.tasks@, spawn_item(d.pid)) + edges_of(d.wake_edges@, wake_item(d.pid)) + edges_of(
        d.future_wake_edges@,
        future_wake_item(d.pid),
    ) + edges_of(d.future_waits@, future_wait_item(d.pid))
}

/// The edges of a dump's optional sections: locks, synchronisation
/// primitives and the RPC session.
pub open spec fn resource_section_edges(d: DumpInfo) -> Seq<WaitEdge> {
    let locks = match d.locks {
        Some(l) => edges_of(l.locks@, lock_item(d.pid)),
        None => seq![],
    };
    let sync = match d.sync {
        Some(y) => sync_edges(d.pid, y),
        None => seq![],
    };
    let roam = match d.roam {
        Some(r) => roam_edges(d.pid, r),
        None => seq![],
    };
    locks + sync + roam
}

/// The edges of a dump's instrumented future sections: spawns, polls,
/// resumes and resource waits.
pub open spec fn future_section_edges(d: DumpInfo) -> Seq<WaitEdge> {
    edges_of(d.future_spawn_edges@, future_spawn_item(d.pid)) + edges_of(
        d.future_poll_edges@,
        future_poll_item(d.pid),
    ) + edges_of(d.future_resume_edges@, future_resume_item(d.pid)) + edges_of(
        d.future_resource_edges@,
        future_resource_item(d.pid),
    )
}

/// The edges of one dump, section by section in a fixed order: tasks,
/// wakes, future wakes, future waits, locks, synchronisation primitives, the
/// RPC session, then the instrumented future spawns, polls, resumes and
/// resource waits.
pub open spec fn dump_edges(d: DumpInfo) -> Seq<WaitEdge> {
    task_section_edges(d) + resource_section_edges(d) + future_section_edges(d)
}

fn ingest_task_sections(edges: &mut Vec<WaitEdge>, dump: &DumpInfo)
    requires
        wait_counts_fit(*dump),
    ensures
        final(edges)@ == old(edges)@ + task_section_edges(*dump),
{
    let ghost base = edges@;
    ingest_tasks(edges, dump.pid, &dump.tasks);
    ingest_wake_edges(edges, dump.pid, &dump.wake_edges);
    ingest_future_wake_edges(edges, dump.pid, &dump.future_wake_edges);
    ingest_future_waits(edges, dump.pid, &dump.future_waits);
    assert(edges@ =~= base + task_section_edges(*dump));
}

fn ingest_resource_sections(edges: &mut Vec<WaitEdge>, dump: &DumpInfo)
    ensures
        final(edges)@ == old(edges)@ + resource_section_edges(*dump),
{
    let ghost base = edges@;
    if let Some(locks) = &dump.locks {
        ingest_locks(edges, dump.pid, locks);
    }
    let ghost after_locks = edges@;
    if let Some(sync) = &dump.sync {
        ingest_sync(edges, dump.pid, sync);
    }
    let ghost after_sync = edges@;
    if let Some(roam) = &dump.roam {
        ingest_roam(edges, dump.pid, roam);
    }
    assert(edges@ =~= base + resource_section_edges(*dump));
}

fn ingest_future_sections(edges: &mut Vec<WaitEdge>, dump: &DumpInfo)
    ensures
        final(edges)@ == old(edges)@ + future_section_edges(*dump),
{
    let ghost base = edges@;
    ingest_future_spawn_edges(edges, dump.pid, &dump.future_spawn_edges);
    ingest_future_poll_edges(edges, dump.pid, &dump.future_poll_edges);
    ingest_future_resume_edges(edges, dump.pid, &dump.future_resume_edges);
    ingest_future_resource_edges(edges, dump.pid, &dump.future_resource_edges);
    assert(edges@ =~= base + future_section_edges(*dump));
}

/// Adds the edges of one dump, section by section.
pub fn ingest_dump(edges: &mut Vec<WaitEdge>, dump: &DumpInfo)
    requires
        wait_counts_fit(*dump),
    ensures
        final(edges)@ == old(edges)@ + dump_edges(*dump),
{
    let ghost base = edges@;
    ingest_task_sections(edges, dump);
    ingest_resource_sections(edges, dump);
    ingest_future_sections(edges, dump);
    assert(edges@ =~= base + dump_edges(*dump));
}

// ── Request parents ──────────────────────────────────────────────

/// The items of each element in turn.
pub open spec fn concat_map<T, U>(items: Seq<T>, f: spec_fn(T) -> Seq<U>) -> Seq<U>
    decreases items.len(),
{
    if items.len() == 0 {
        seq![]
    } else {
        concat_map(items.drop_last(), f) + f(items.last())
    }
}

pub(crate) proof fn lemma_concat_map_step<T, U>(items: Seq<T>, f: spec_fn(T) -> Seq<U>, i: int)
    requires
        0 <= i < items.len(),
    ensures
        concat_map(items.subrange(0, i + 1), f) == concat_map(items.subrange(0, i), f) + f(
            items[i],
        ),
{
    assert(items.subrange(0, i + 1).drop_last() =~= items.subrange(0, i));
}

/// An in-flight request as the parent links name it: by process name,
/// connection and request id, with the pid of the process that reported it.
pub struct RequestEntry {
    pub process: String,
    pub connection: String,
    pub request_id: u64,
    pub pid: u32,
}

/// The entry of one in-flight request on `connection`.
pub open spec fn entry_item(process: String, pid: u32, connection: String) -> spec_fn(
    InFlightInfo,
) -> Seq<RequestEntry> {
    |r: InFlightInfo| seq![RequestEntry { process, connection, request_id: r.request_id, pid }]
}

/// The entries of the requests in flight on a connection.
pub open spec fn connection_entries(process: String, pid: u32) -> spec_fn(ConnectionInfo) -> Seq<
    RequestEntry,
> {
    |c: ConnectionInfo| concat_map(c.in_flight@, entry_item(process, pid, c.name))
}

/// The entries of one dump's session, connection by connection.
pub open spec fn dump_entries(d: DumpInfo) -> Seq<RequestEntry> {
    match d.roam {
        Some(s) => concat_map(s.connections@, connection_entries(d.process_name, d.pid)),
        None => seq![],
    }
}

/// The entries of a dump.
pub open spec fn dump_entry_item() -> spec_fn(DumpInfo) -> Seq<RequestEntry> {
    |d: DumpInfo| dump_entries(d)
}

/// The entries of every dump, in order.
pub open spec fn request_entries(dumps: Seq<DumpInfo>) -> Seq<RequestEntry> {
    concat_map(dumps, dump_entry_item())
}

/// The last entry for a request: a later report of the same request
/// replaces an earlier one.
pub open spec fn last_entry(
    entries: Seq<RequestEntry>,
    process: Seq<char>,
    connection: Seq<char>,
    request_id: u64,
) -> Option<RequestEntry>
    decreases entries.len(),
{
    if entries.len() == 0 {
        None
    } else if entries.last().process@ == process && entries.last().connection@ == connection
        && entries.last().request_id == request_id {
        Some(entries.last())
    } else {
        last_entry(entries.drop_last(), process, connection, request_id)
    }
}

/// The node of the request an entry reports.
pub open spec fn entry_node(e: RequestEntry) -> NodeId {
    request_node(e.pid, e.connection, e.request_id)
}

/// A request is linked to its parent when both are known: across processes
/// the link is a stitch, within one process a parent link.
pub open spec fn parent_item(entries: Seq<RequestEntry>) -> spec_fn(RequestParentRef) -> Seq<
    WaitEdge,
> {
    |rp: RequestParentRef|
        match (
            last_entry(entries, rp.child_process@, rp.child_connection@, rp.child_request_id),
            last_entry(entries, rp.parent_process@, rp.parent_connection@, rp.parent_request_id),
        ) {
            (Some(c), Some(p)) => seq![
                explicit_edge(
                    entry_node(c),
                    entry_node(p),
                    if c.pid != p.pid {
                        EdgeKind::RpcCrossProcessStitch
                    } else {
                        EdgeKind::RpcRequestParent
                    },
                    SnapshotSource::RequestParents,
                    1,
                    0,
                ),
            ],
            _ => seq![],
        }
}

/// The parent links a dump reports, resolved against `entries`.
pub open spec fn dump_parent_item(entries: Seq<RequestEntry>) -> spec_fn(DumpInfo) -> Seq<WaitEdge> {
    |d: DumpInfo| edges_of(d.request_parents@, parent_item(entries))
}

/// The parent links of every dump, in order, resolved against all dumps.
pub open spec fn parent_edges(dumps: Seq<DumpInfo>) -> Seq<WaitEdge> {
    concat_map(dumps, dump_parent_item(request_entries(dumps)))
}

fn push_session_entries(entries: &mut Vec<RequestEntry>, dump: &DumpInfo)
    ensures
        final(entries)@ == old(entries)@ + dump_entries(*dump),
{
    let ghost base = entries@;
    if let Some(session) = &dump.roam {
        let ghost fc = connection_entries(dump.process_name, dump.pid);
        let mut i: usize = 0;
        while i < session.connections.len()
            invariant
                i <= session.connections.len(),
                fc == connection_entries(dump.process_name, dump.pid),
                entries@ == base + concat_map(session.connections@.subrange(0, i as int), fc),
            decreases session.connections.len() - i,
        {
            proof {
                lemma_concat_map_step(session.connections@, fc, i as int);
            }
            let conn = &session.connections[i];
            let ghost fr = entry_item(dump.process_name, dump.pid, conn.name);
            let ghost mid = entries@;
            let mut j: usize = 0;
            while j < conn.in_flight.len()
                invariant
                    j <= conn.in_flight.len(),
                    fr == entry_item(dump.process_name, dump.pid, conn.name),
                    entries@ == mid + concat_map(conn.in_flight@.subrange(0, j as int), fr),
                decreases conn.in_flight.len() - j,
            {
                proof {
                    lemma_concat_map_step(conn.in_flight@, fr, j as int);
                }
                let ghost before = entries@;
                entries.push(
                    RequestEntry {
                        process: dump.process_name.clone(),
                        connection: conn.name.clone(),
                        request_id: conn.in_flight[j].request_id,
                        pid: dump.pid,
                    },
                );
                assert(entries@ =~= before + fr(conn.in_flight@[j as int]));
                j = j + 1;
                assert(entries@ =~= mid + concat_map(conn.in_flight@.subrange(0, j as int), fr));
            }
            assert(conn.in_flight@.subrange(0, j as int) =~= conn.in_flight@);
            i = i + 1;
            assert(entries@ =~= base + concat_map(session.connections@.subrange(0, i as int), fc));
        }
        assert(session.connections@.subrange(0, i as int) =~= session.connections@);
    }
    assert(entries@ =~= base + dump_entries(*dump));
}

/// Every in-flight request of every dump, as the parent links name them.
pub fn collect_request_entries(dumps: &Vec<DumpInfo>) -> (r: Vec<RequestEntry>)
    ensures
        r@ == request_entries(dumps@),
{
    let mut entries: Vec<RequestEntry> = Vec::new();
    let mut i: usize = 0;
    while i < dumps.len()
        invariant
            i <= dumps.len(),
            entries@ == concat_map(dumps@.subrange(0, i as int), dump_entry_item()),
        decreases dumps.len() - i,
    {
        proof {
            lemma_concat_map_step(dumps@, dump_entry_item(), i as int);
        }
        push_session_entries(&mut entries, &dumps[i]);
        i = i + 1;
    }
    assert(dumps@.subrange(0, i as int) =~= dumps@);
    entries
}

/// The index of the last entry for a request, if there is one.
pub fn find_request(
    entries: &Vec<RequestEntry>,
    process: &String,
    connection: &String,
    request_id: u64,
) -> (r: Option<usize>)
    ensures
        match r {
            Some(k) => k < entries.len() && last_entry(
                entries@,
                process@,
                connection@,
                request_id,
            ) == Some(entries@[k as int]),
            None => last_entry(entries@, process@, connection@, request_id).is_none(),
        },
{
    let mut found: Option<usize> = None;
    let mut i: usize = 0;
    while i < entries.len()
        invariant
            i <= entries.len(),
            match found {
                Some(k) => k < i && last_entry(
                    entries@.subrange(0, i as int),
                    process@,
                    connection@,
                    request_id,
                ) == Some(entries@[k as int]),
                None => last_entry(
                    entries@.subrange(0, i as int),
                    process@,
                    connection@,
                    request_id,
                ).is_none(),
            },
        decreases entries.len() - i,
    {
        let e = &entries[i];
        assert(entries@.subrange(0, i + 1).drop_last() =~= entries@.subrange(0, i as int));
        if e.process == *process && e.connection == *connection && e.request_id == request_id {
            found = Some(i);
        }
        i = i + 1;
    }
    assert(entries@.subrange(0, i as int) =~= entries@);
    found
}

fn entry_request_node(e: &RequestEntry) -> (n: NodeId)
    ensures
        n == entry_node(*e),
{
    NodeId::RpcRequest { pid: e.pid, connection: e.connection.clone(), request_id: e.request_id }
}

/// Adds the parent link of each request whose request and parent are both
/// among `entries`.
pub fn ingest_request_parents_of(
    edges: &mut Vec<WaitEdge>,
    entries: &Vec<RequestEntry>,
    parents: &Vec<RequestParentRef>,
)
    ensures
        final(edges)@ == old(edges)@ + edges_of(parents@, parent_item(entries@)),
{
    let ghost base = edges@;
    let ghost f = parent_item(entries@);
    let mut i: usize = 0;
    while i < parents.len()
        invariant
            i <= parents.len(),
            f == parent_item(entries@),
            edges@ == base + edges_of(parents@.subrange(0, i as int), f),
        decreases parents.len() - i,
    {
        proof {
            lemma_edges_step(parents@, f, i as int);
        }
        let ghost before = edges@;
        let rp = &parents[i];
        let child = find_request(entries, &rp.child_process, &rp.child_connection, rp.child_request_id);
        let parent = find_request(
            entries,
            &rp.parent_process,
            &rp.parent_connection,
            rp.parent_request_id,
        );
        if let (Some(c), Some(p)) = (child, parent) {
            let ce = &entries[c];
            let pe = &entries[p];
            let kind = if ce.pid != pe.pid {
                EdgeKind::RpcCrossProcessStitch
            } else {
                EdgeKind::RpcRequestParent
            };
            push_edge(
                edges,
                entry_request_node(ce),
                entry_request_node(pe),
                kind,
                EdgeMeta::explicit(SnapshotSource::RequestParents, 1, 0),
            );
        }
        assert(edges@ =~= before + f(parents@[i as int]));
        i = i + 1;
        assert(edges@ =~= base + edges_of(parents@.subrange(0, i as int), f));
    }
    assert(parents@.subrange(0, i as int) =~= parents@);
}

/// Links each in-flight request to its parent request, as the dumps report
/// them: both ends are looked up among the requests of all dumps, a later
/// report of a request replacing an earlier one; a link with an end not
/// found is dropped.
pub fn ingest_request_parents(edges: &mut Vec<WaitEdge>, dumps: &Vec<DumpInfo>)
    ensures
        final(edges)@ == old(edges)@ + parent_edges(dumps@),
{
    let entries = collect_request_entries(dumps);
    let ghost base = edges@;
    let ghost f = dump_parent_item(entries@);
    let mut i: usize = 0;
    while i < dumps.len()
        invariant
            i <= dumps.len(),
            entries@ == request_entries(dumps@),
            f == dump_parent_item(entries@),
            edges@ == base + concat_map(dumps@.subrange(0, i as int), f),
        decreases dumps.len() - i,
    {
        proof {
            lemma_concat_map_step(dumps@, f, i as int);
        }
        ingest_request_parents_of(edges, &entries, &dumps[i].request_parents);
        i = i + 1;
    }
    assert(dumps@.subrange(0, i as int) =~= dumps@);
}

// ── RPC request nodes and cross-process stitches ────────────────

/// An RPC request node: its connection, and what the stitching compares.
pub struct RpcNode {
    pub connection: String,
    pub info: RpcRequestInfo,
}

/// The graph node of an RPC request node.
pub open spec fn rpc_node_id(n: RpcNode) -> NodeId {
    request_node(n.info.pid, n.connection, n.info.request_id)
}

/// What the stitching compares, node by node.
pub open spec fn infos_of(nodes: Seq<RpcNode>) -> Seq<RpcRequestInfo> {
    nodes.map_values(|n: RpcNode| n.info)
}

/// The edge of a stitch between two of the nodes.
pub open spec fn stitch_edge(nodes: Seq<RpcNode>, s: RpcStitch) -> WaitEdge {
    derived_edge(
        rpc_node_id(nodes[s.from as int]),
        rpc_node_id(nodes[s.to as int]),
        EdgeKind::RpcCrossProcessStitch,
        SnapshotSource::Roam,
        1,
        s.severity,
    )
}

/// The stitch edges between the nodes, pair by pair in order.
pub open spec fn stitch_edges(nodes: Seq<RpcNode>) -> Seq<WaitEdge> {
    stitches_before(infos_of(nodes), nodes.len() as int).map_values(
        |s: RpcStitch| stitch_edge(nodes, s),
    )
}

pub(crate) fn copy_info(i: &RpcRequestInfo) -> (r: RpcRequestInfo)
    ensures
        r == *i,
{
    RpcRequestInfo {
        pid: i.pid,
        request_id: i.request_id,
        method_name: copy_opt(&i.method_name),
        direction: i.direction,
        slow: i.slow,
    }
}

fn rpc_node_of(n: &RpcNode) -> (r: NodeId)
    ensures
        r == rpc_node_id(*n),
{
    NodeId::RpcRequest {
        pid: n.info.pid,
        connection: n.connection.clone(),
        request_id: n.info.request_id,
    }
}

/// Adds an edge from each outgoing RPC request to the matching incoming
/// request in another process: same request id and method, taken pair by
/// pair in the order of `nodes`.
pub fn ingest_rpc_stitches(edges: &mut Vec<WaitEdge>, nodes: &Vec<RpcNode>)
    ensures
        final(edges)@ == old(edges)@ + stitch_edges(nodes@),
{
    let mut infos: Vec<RpcRequestInfo> = Vec::new();
    let mut i: usize = 0;
    while i < nodes.len()
        invariant
            i <= nodes.len(),
            infos@ == infos_of(nodes@.subrange(0, i as int)),
        decreases nodes.len() - i,
    {
        infos.push(copy_info(&nodes[i].info));
        i = i + 1;
        assert(infos@ =~= infos_of(nodes@.subrange(0, i as int)));
    }
    assert(nodes@.subrange(0, i as int) =~= nodes@);
    let stitches = stitch_cross_process_rpc(&infos);
    proof {
        lemma_stitches_join_calls(infos@, infos.len() as int);
    }
    let ghost all = stitches_before(infos@, infos.len() as int);
    let ghost base = edges@;
    let mut j: usize = 0;
    while j < stitches.len()
        invariant
            j <= stitches.len(),
            infos@ == infos_of(nodes@),
            infos.len() == nodes.len(),
            stitches@ == all,
            all == stitches_before(infos@, infos.len() as int),
            forall|k: int| 0 <= k < all.len() ==> joins_call(infos@, #[trigger] all[k]),
            edges@ == base + all.subrange(0, j as int).map_values(
                |s: RpcStitch| stitch_edge(nodes@, s),
            ),
        decreases stitches.len() - j,
    {
        let st = stitches[j];
        assert(joins_call(infos@, all[j as int]));
        push_edge(
            edges,
            rpc_node_of(&nodes[st.from]),
            rpc_node_of(&nodes[st.to]),
            EdgeKind::RpcCrossProcessStitch,
            EdgeMeta::derived(SnapshotSource::Roam, 1, st.severity),
        );
        j = j + 1;
        assert(edges@ =~= base + all.subrange(0, j as int).map_values(
            |s: RpcStitch| stitch_edge(nodes@, s),
        ));
    }
    assert(all.subrange(0, j as int) =~= all);
}

/// The RPC node of one in-flight request on `connection`, its method name
/// resolved against the session's names.
pub open spec fn candidate_item(pid: u32, names: Seq<MethodName>, connection: String) -> spec_fn(
    InFlightInfo,
) -> Seq<RpcNode> {
    |r: InFlightInfo|
        seq![
            RpcNode {
                connection,
                info: RpcRequestInfo {
                    pid,
                    request_id: r.request_id,
                    method_name: resolved_method(r.method_name, r.method_id, names),
                    direction: r.direction,
                    slow: longer_than(r.elapsed_secs, FIVE_SECONDS_BITS),
                },
            },
        ]
}

/// The RPC nodes of the requests in flight on a connection.
pub open spec fn connection_candidates(pid: u32, names: Seq<MethodName>) -> spec_fn(
    ConnectionInfo,
) -> Seq<RpcNode> {
    |c: ConnectionInfo| concat_map(c.in_flight@, candidate_item(pid, names, c.name))
}

/// The RPC nodes a dump reports, connection by connection.
pub open spec fn dump_candidates(d: DumpInfo) -> Seq<RpcNode> {
    match d.roam {
        Some(s) => concat_map(s.connections@, connection_candidates(d.pid, s.method_names@)),
        None => seq![],
    }
}

/// The RPC nodes of a dump.
pub open spec fn dump_candidate_item() -> spec_fn(DumpInfo) -> Seq<RpcNode> {
    |d: DumpInfo| dump_candidates(d)
}

/// The RPC nodes of every dump, in the order they are reported.
pub open spec fn rpc_candidates(dumps: Seq<DumpInfo>) -> Seq<RpcNode> {
    concat_map(dumps, dump_candidate_item())
}

fn push_dump_candidates(out: &mut Vec<RpcNode>, dump: &DumpInfo)
    ensures
        final(out)@ == old(out)@ + dump_candidates(*dump),
{
    let ghost base = out@;
    if let Some(session) = &dump.roam {
        let ghost fc = connection_candidates(dump.pid, session.method_names@);
        let mut i: usize = 0;
        while i < session.connections.len()
            invariant
                i <= session.connections.len(),
                fc == connection_candidates(dump.pid, session.method_names@),
                out@ == base + concat_map(session.connections@.subrange(0, i as int), fc),
            decreases session.connections.len() - i,
        {
            proof {
                lemma_concat_map_step(session.connections@, fc, i as int);
            }
            let conn = &session.connections[i];
            let ghost fr = candidate_item(dump.pid, session.method_names@, conn.name);
            let ghost mid = out@;
            let mut j: usize = 0;
            while j < conn.in_flight.len()
                invariant
                    j <= conn.in_flight.len(),
                    fr == candidate_item(dump.pid, session.method_names@, conn.name),
                    out@ == mid + concat_map(conn.in_flight@.subrange(0, j as int), fr),
                decreases conn.in_flight.len() - j,
            {
                proof {
                    lemma_concat_map_step(conn.in_flight@, fr, j as int);
                }
                let ghost before = out@;
                let r = &conn.in_flight[j];
                let method_name = resolve_method_name(&r.method_name, r.method_id, &session.method_names);
                out.push(
                    RpcNode {
                        connection: conn.name.clone(),
                        info: RpcRequestInfo {
                            pid: dump.pid,
                            request_id: r.request_id,
                            method_name,
                            direction: r.direction,
                            slow: r.elapsed_secs.is_longer_than(FIVE_SECONDS_BITS),
                        },
                    },
                );
                assert(out@ =~= before + fr(conn.in_flight@[j as int]));
                j = j + 1;
                assert(out@ =~= mid + concat_map(conn.in_flight@.subrange(0, j as int), fr));
            }
            assert(conn.in_flight@.subrange(0, j as int) =~= conn.in_flight@);
            i = i + 1;
            assert(out@ =~= base + concat_map(session.connections@.subrange(0, i as int), fc));
        }
        assert(session.connections@.subrange(0, i as int) =~= session.connections@);
    }
    assert(out@ =~= base + dump_candidates(*dump));
}

/// The RPC request nodes of every dump, in the order they are reported,
/// each with its method name resolved.
pub fn collect_rpc_nodes(dumps: &Vec<DumpInfo>) -> (r: Vec<RpcNode>)
    ensures
        r@ == rpc_candidates(dumps@),
{
    let mut out: Vec<RpcNode> = Vec::new();
    let mut i: usize = 0;
    while i < dumps.len()
        invariant
            i <= dumps.len(),
            out@ == concat_map(dumps@.subrange(0, i as int), dump_candidate_item()),
        decreases dumps.len() - i,
    {
        proof {
            lemma_concat_map_step(dumps@, dump_candidate_item(), i as int);
        }
        push_dump_candidates(&mut out, &dumps[i]);
        i = i + 1;
    }
    assert(dumps@.subrange(0, i as int) =~= dumps@);
    out
}

// ── The whole graph ──────────────────────────────────────────────

/// The edges of a dump.
pub open spec fn dump_edge_item() -> spec_fn(DumpInfo) -> Seq<WaitEdge> {
    |d: DumpInfo| dump_edges(d)
}

/// The edges of every dump, in order.
pub open spec fn all_dump_edges(dumps: Seq<DumpInfo>) -> Seq<WaitEdge> {
    concat_map(dumps, dump_edge_item())
}

/// Every dump's poll counts fit.
pub open spec fn all_wait_counts_fit(dumps: Seq<DumpInfo>) -> bool {
    forall|k: int| 0 <= k < dumps.len() ==> wait_counts_fit(#[trigger] dumps[k])
}

/// The edges of a wait graph built from several process dumps: each dump's
/// edges in turn, then the stitches between outgoing and incoming RPC
/// requests of different processes, visiting the request nodes in key order
/// (one per request, the last report standing), then the parent links
/// between requests.
pub fn build_wait_edges(dumps: &Vec<DumpInfo>) -> (r: Vec<WaitEdge>)
    requires
        all_wait_counts_fit(dumps@),
    ensures
        exists|nodes: Seq<RpcNode>|
            node_order(rpc_candidates(dumps@), nodes) && r@ == all_dump_edges(dumps@)
                + stitch_edges(nodes) + parent_edges(dumps@),
{
    let mut edges: Vec<WaitEdge> = Vec::new();
    let mut i: usize = 0;
    while i < dumps.len()
        invariant
            i <= dumps.len(),
            all_wait_counts_fit(dumps@),
            edges@ == concat_map(dumps@.subrange(0, i as int), dump_edge_item()),
        decreases dumps.len() - i,
    {
        proof {
            lemma_concat_map_step(dumps@, dump_edge_item(), i as int);
        }
        assert(wait_counts_fit(dumps@[i as int]));
        ingest_dump(&mut edges, &dumps[i]);
        i = i + 1;
    }
    assert(dumps@.subrange(0, i as int) =~= dumps@);
    let ghost after_dumps = edges@;
    let cands = collect_rpc_nodes(dumps);
    let nodes = order_rpc_nodes(&cands);
    ingest_rpc_stitches(&mut edges, &nodes);
    let ghost after_stitches = edges@;
    ingest_request_parents(&mut edges, dumps);
    assert(edges@ == all_dump_edges(dumps@) + stitch_edges(nodes@) + parent_edges(dumps@));
    edges
}

// ── Laws ─────────────────────────────────────────────────────────

/// The process a node belongs to.
pub open spec fn node_pid(n: NodeId) -> u32 {
    match n {
        NodeId::Task { pid, .. } => pid,
        NodeId::Future { pid, .. } => pid,
        NodeId::Lock { pid, .. } => pid,
        NodeId::MpscChannel { pid, .. } => pid,
        NodeId::OneshotChannel { pid, .. } => pid,
        NodeId::WatchChannel { pid, .. } => pid,
        NodeId::OnceCell { pid, .. } => pid,
        NodeId::Semaphore { pid, .. } => pid,
        NodeId::RoamChannel { pid, .. } => pid,
        NodeId::Socket { pid, .. } => pid,
        NodeId::Unknown { pid, .. } => pid,
        NodeId::RpcRequest { pid, .. } => pid,
        NodeId::Process { pid } => pid,
    }
}

/// Every edge of `s` has property `p`.
pub open spec fn all_edges(s: Seq<WaitEdge>, p: spec_fn(WaitEdge) -> bool) -> bool {
    forall|k: int| 0 <= k < s.len() ==> #[trigger] p(s[k])
}

/// Both ends of the edge lie in process `pid`.
pub open spec fn within(pid: u32) -> spec_fn(WaitEdge) -> bool {
    |e: WaitEdge| node_pid(e.from) == pid && node_pid(e.to) == pid
}

/// The edge has confidence `c`.
pub open spec fn has_confidence(c: EdgeConfidence) -> spec_fn(WaitEdge) -> bool {
    |e: WaitEdge| e.meta.confidence == c
}

proof fn lemma_all_concat(a: Seq<WaitEdge>, b: Seq<WaitEdge>, p: spec_fn(WaitEdge) -> bool)
    requires
        all_edges(a, p),
        all_edges(b, p),
    ensures
        all_edges(a + b, p),
{
    assert forall|k: int| 0 <= k < (a + b).len() implies #[trigger] p((a + b)[k]) by {
        if k < a.len() {
            assert((a + b)[k] == a[k]);
        } else {
            assert((a + b)[k] == b[k - a.len()]);
        }
    }
}

proof fn lemma_edges_of_all<T>(items: Seq<T>, f: spec_fn(T) -> Seq<WaitEdge>, p: spec_fn(WaitEdge) -> bool)
    requires
        forall|i: int| 0 <= i < items.len() ==> all_edges(#[trigger] f(items[i]), p),
    ensures
        all_edges(edges_of(items, f), p),
    decreases items.len(),
{
    if items.len() > 0 {
        let rest = items.drop_last();
        assert forall|i: int| 0 <= i < rest.len() implies all_edges(#[trigger] f(rest[i]), p) by {
            assert(rest[i] == items[i]);
        }
        lemma_edges_of_all(rest, f, p);
        assert(all_edges(f(items[items.len() - 1]), p));
        lemma_all_concat(edges_of(rest, f), f(items.last()), p);
    }
}

proof fn lemma_lock_within(pid: u32, locks: Seq<LockInfo>)
    ensures
        all_edges(edges_of(locks, lock_item(pid)), within(pid)),
        all_edges(edges_of(locks, lock_item(pid)), has_confidence(EdgeConfidence::Derived)),
{
    assert forall|i: int| 0 <= i < locks.len() implies all_edges(
        #[trigger] lock_item(pid)(locks[i]),
        within(pid),
    ) && all_edges(lock_item(pid)(locks[i]), has_confidence(EdgeConfidence::Derived)) by {
        let l = locks[i];
        lemma_edges_of_all(l.holders@, holder_item(pid, l.name), within(pid));
        lemma_edges_of_all(l.waiters@, waiter_item(pid, l.name), within(pid));
        lemma_all_concat(
            edges_of(l.holders@, holder_item(pid, l.name)),
            edges_of(l.waiters@, waiter_item(pid, l.name)),
            within(pid),
        );
        lemma_edges_of_all(
            l.holders@,
            holder_item(pid, l.name),
            has_confidence(EdgeConfidence::Derived),
        );
        lemma_edges_of_all(
            l.waiters@,
            waiter_item(pid, l.name),
            has_confidence(EdgeConfidence::Derived),
        );
        lemma_all_concat(
            edges_of(l.holders@, holder_item(pid, l.name)),
            edges_of(l.waiters@, waiter_item(pid, l.name)),
            has_confidence(EdgeConfidence::Derived),
        );
    }
    lemma_edges_of_all(locks, lock_item(pid), within(pid));
    lemma_edges_of_all(locks, lock_item(pid), has_confidence(EdgeConfidence::Derived));
}

proof fn lemma_sync_within(pid: u32, y: SyncInfo, p: spec_fn(WaitEdge) -> bool)
    requires
        p == within(pid) || p == has_confidence(EdgeConfidence::Derived),
    ensures
        all_edges(sync_edges(pid, y), p),
{
    lemma_edges_of_all(y.mpsc_channels@, mpsc_item(pid), p);
    lemma_edges_of_all(y.oneshot_channels@, oneshot_item(pid), p);
    lemma_edges_of_all(y.watch_channels@, watch_item(pid), p);
    assert forall|i: int| 0 <= i < y.semaphores@.len() implies all_edges(
        #[trigger] semaphore_item(pid)(y.semaphores@[i]),
        p,
    ) by {
        let s = y.semaphores@[i];
        let own = match s.creator_task_id {
            Some(t) => seq![
                derived_edge(
                    NodeId::Semaphore { pid, name: s.name },
                    task_node(pid, t),
                    EdgeKind::ResourceOwnedByTask,
                    SnapshotSource::Sync,
                    1,
                    0,
                ),
            ],
            None => seq![],
        };
        let f = semaphore_waiter_item(pid, s.name, age_severity(s.oldest_wait_secs));
        lemma_edges_of_all(s.top_waiter_task_ids@, f, p);
        lemma_all_concat(own, edges_of(s.top_waiter_task_ids@, f), p);
    }
    lemma_edges_of_all(y.semaphores@, semaphore_item(pid), p);
    lemma_all_concat(
        edges_of(y.mpsc_channels@, mpsc_item(pid)),
        edges_of(y.oneshot_channels@, oneshot_item(pid)),
        p,
    );
    lemma_all_concat(
        edges_of(y.mpsc_channels@, mpsc_item(pid)) + edges_of(y.oneshot_channels@, oneshot_item(pid)),
        edges_of(y.watch_channels@, watch_item(pid)),
        p,
    );
    lemma_all_concat(
        edges_of(y.mpsc_channels@, mpsc_item(pid)) + edges_of(y.oneshot_channels@, oneshot_item(pid))
            + edges_of(y.watch_channels@, watch_item(pid)),
        edges_of(y.semaphores@, semaphore_item(pid)),
        p,
    );
}

proof fn lemma_roam_within(pid: u32, r: SessionInfo, p: spec_fn(WaitEdge) -> bool)
    requires
        p == within(pid) || p == has_confidence(EdgeConfidence::Derived),
    ensures
        all_edges(roam_edges(pid, r), p),
{
    assert forall|i: int| 0 <= i < r.connections@.len() implies all_edges(
        #[trigger] connection_item(pid)(r.connections@[i]),
        p,
    ) by {
        let c = r.connections@[i];
        lemma_edges_of_all(c.in_flight@, request_item(pid, c.name), p);
    }
    lemma_edges_of_all(r.connections@, connection_item(pid), p);
    lemma_edges_of_all(r.channels@, roam_channel_item(pid), p);
    lemma_all_concat(
        edges_of(r.connections@, connection_item(pid)),
        edges_of(r.channels@, roam_channel_item(pid)),
        p,
    );
}

proof fn lemma_task_sections(d: DumpInfo, p: spec_fn(WaitEdge) -> bool)
    requires
        p == within(d.pid) || p == has_confidence(EdgeConfidence::Derived),
    ensures
        all_edges(task_section_edges(d), p),
{
    let pid = d.pid;
    lemma_edges_of_all(d.tasks@, spawn_item(pid), p);
    lemma_edges_of_all(d.wake_edges@, wake_item(pid), p);
    lemma_edges_of_all(d.future_wake_edges@, future_wake_item(pid), p);
    lemma_edges_of_all(d.future_waits@, future_wait_item(pid), p);
    let a = edges_of(d.tasks@, spawn_item(pid));
    let b = edges_of(d.wake_edges@, wake_item(pid));
    let c = edges_of(d.future_wake_edges@, future_wake_item(pid));
    let w = edges_of(d.future_waits@, future_wait_item(pid));
    lemma_all_concat(a, b, p);
    lemma_all_concat(a + b, c, p);
    lemma_all_concat(a + b + c, w, p);
}

proof fn lemma_resource_sections(d: DumpInfo, p: spec_fn(WaitEdge) -> bool)
    requires
        p == within(d.pid) || p == has_confidence(EdgeConfidence::Derived),
    ensures
        all_edges(resource_section_edges(d), p),
{
    let pid = d.pid;
    let locks = match d.locks {
        Some(l) => edges_of(l.locks@, lock_item(pid)),
        None => seq![],
    };
    let sync = match d.sync {
        Some(y) => sync_edges(pid, y),
        None => seq![],
    };
    let roam = match d.roam {
        Some(r) => roam_edges(pid, r),
        None => seq![],
    };
    if let Some(l) = d.locks {
        lemma_lock_within(pid, l.locks@);
    }
    if let Some(y) = d.sync {
        lemma_sync_within(pid, y, p);
    }
    if let Some(r) = d.roam {
        lemma_roam_within(pid, r, p);
    }
    lemma_all_concat(locks, sync, p);
    lemma_all_concat(locks + sync, roam, p);
}

proof fn lemma_future_sections(d: DumpInfo, p: spec_fn(WaitEdge) -> bool)
    requires
        p == within(d.pid) || p == has_confidence(EdgeConfidence::Explicit),
    ensures
        all_edges(future_section_edges(d), p),
{
    let pid = d.pid;
    lemma_edges_of_all(d.future_spawn_edges@, future_spawn_item(pid), p);
    lemma_edges_of_all(d.future_poll_edges@, future_poll_item(pid), p);
    lemma_edges_of_all(d.future_resume_edges@, future_resume_item(pid), p);
    assert forall|i: int| 0 <= i < d.future_resource_edges@.len() implies all_edges(
        #[trigger] future_resource_item(pid)(d.future_resource_edges@[i]),
        p,
    ) by {
        let e = d.future_resource_edges@[i];
        assert(node_pid(resource_node(pid, e.resource)) == pid);
    }
    lemma_edges_of_all(d.future_resource_edges@, future_resource_item(pid), p);
    let a = edges_of(d.future_spawn_edges@, future_spawn_item(pid));
    let b = edges_of(d.future_poll_edges@, future_poll_item(pid));
    let c = edges_of(d.future_resume_edges@, future_resume_item(pid));
    let w = edges_of(d.future_resource_edges@, future_resource_item(pid));
    lemma_all_concat(a, b, p);
    lemma_all_concat(a + b, c, p);
    lemma_all_concat(a + b + c, w, p);
}

/// Law: the edges a dump yields by itself join nodes of that dump's own
/// process; only the stitches and the parent links between requests cross
/// processes.
pub proof fn lemma_dump_edges_within_process(d: DumpInfo)
    ensures
        all_edges(dump_edges(d), within(d.pid)),
{
    lemma_task_sections(d, within(d.pid));
    lemma_resource_sections(d, within(d.pid));
    lemma_future_sections(d, within(d.pid));
    lemma_all_concat(task_section_edges(d), resource_section_edges(d), within(d.pid));
    lemma_all_concat(
        task_section_edges(d) + resource_section_edges(d),
        future_section_edges(d),
        within(d.pid),
    );
}

/// Law: edges read off the snapshot sections are derived; the edges the
/// instrumentation reported about futures are explicit.
pub proof fn lemma_dump_edge_confidence(d: DumpInfo)
    ensures
        all_edges(task_section_edges(d), has_confidence(EdgeConfidence::Derived)),
        all_edges(resource_section_edges(d), has_confidence(EdgeConfidence::Derived)),
        all_edges(future_section_edges(d), has_confidence(EdgeConfidence::Explicit)),
{
    lemma_task_sections(d, has_confidence(EdgeConfidence::Derived));
    lemma_resource_sections(d, has_confidence(EdgeConfidence::Derived));
    lemma_future_sections(d, has_confidence(EdgeConfidence::Explicit));
}

/// No edge loops back to its own node.
pub open spec fn not_a_loop() -> spec_fn(WaitEdge) -> bool {
    |e: WaitEdge| e.from != e.to
}

/// Law: a future spawn edge never loops back to the same future.
pub proof fn lemma_spawn_edges_no_self_loop(pid: u32, spawns: Seq<FutureSpawnInfo>)
    ensures
        all_edges(edges_of(spawns, future_spawn_item(pid)), not_a_loop()),
{
    lemma_edges_of_all(spawns, future_spawn_item(pid), not_a_loop());
}

/// The edge stitches two request nodes of different processes.
pub open spec fn crosses_processes() -> spec_fn(WaitEdge) -> bool {
    |e: WaitEdge|
        e.kind == EdgeKind::RpcCrossProcessStitch && e.from is RpcRequest && e.to is RpcRequest
            && node_pid(e.from) != node_pid(e.to)
}

/// Law: every stitch edge joins two RPC request nodes of different
/// processes, from the outgoing end to the incoming end.
pub proof fn lemma_stitch_edges_cross_processes(nodes: Seq<RpcNode>)
    requires
        nodes.len() <= usize::MAX,
    ensures
        all_edges(stitch_edges(nodes), crosses_processes()),
        forall|k: int|
            0 <= k < stitches_before(infos_of(nodes), nodes.len() as int).len() ==> {
                let s = #[trigger] stitches_before(infos_of(nodes), nodes.len() as int)[k];
                nodes[s.from as int].info.direction == RpcDirection::Outgoing
                    && nodes[s.to as int].info.direction == RpcDirection::Incoming
            },
{
    let infos = infos_of(nodes);
    lemma_stitches_join_calls(infos, nodes.len() as int);
    let all = stitches_before(infos, nodes.len() as int);
    assert forall|k: int| 0 <= k < stitch_edges(nodes).len() implies #[trigger] crosses_processes()(
        stitch_edges(nodes)[k],
    ) by {
        assert(joins_call(infos, all[k]));
    }
}

} // verus!
