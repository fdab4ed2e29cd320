//! The graph rows stored for one process dump: the identifiers of its nodes
//! and the edges between them.
//!
//! Node attributes carry measured durations and are written by the caller;
//! this module decides which rows exist and what they connect.

use vstd::prelude::*;
use crate::text::{chars_of, decimal, extend_chars, extend_str, push_decimal, string_of};

verus! {

broadcast use vstd::string::group_string_axioms;

/// The identifier of a process's node.
pub open spec fn process_id_text(process: Seq<char>, pid: nat) -> Seq<char> {
    "process:"@ + process + ":"@ + decimal(pid)
}

/// The identifier of a node of kind `prefix` (`task:` or `future:`) in a
/// process.
pub open spec fn scoped_id_text(prefix: Seq<char>, process: Seq<char>, pid: nat, id: nat) -> Seq<
    char,
> {
    prefix + process + ":"@ + decimal(pid) + ":"@ + decimal(id)
}

/// The identifier of an in-flight request's node.
pub open spec fn request_id_text(
    process: Seq<char>,
    pid: nat,
    connection: Seq<char>,
    request_id: nat,
) -> Seq<char> {
    "request:"@ + process + ":"@ + decimal(pid) + ":"@ + connection + ":"@ + decimal(request_id)
}

/// The identifier of a process's node.
pub fn process_node_id(process: &str, pid: u32) -> (r: String)
    ensures
        r@ == process_id_text(process@, pid as nat),
{
    let mut m = chars_of("process:");
    extend_str(&mut m, process);
    extend_str(&mut m, ":");
    push_decimal(&mut m, pid as u64);
    assert(m@ =~= process_id_text(process@, pid as nat));
    string_of(&m)
}

fn scoped_node_id(prefix: &str, process: &str, pid: u32, id: u64) -> (r: String)
    ensures
        r@ == scoped_id_text(prefix@, process@, pid as nat, id as nat),
{
    let mut m = chars_of(prefix);
    extend_str(&mut m, process);
    extend_str(&mut m, ":");
    push_decimal(&mut m, pid as u64);
    extend_str(&mut m, ":");
    push_decimal(&mut m, id);
    assert(m@ =~= scoped_id_text(prefix@, process@, pid as nat, id as nat));
    string_of(&m)
}

/// The identifier of a task's node.
pub fn task_node_id(process: &str, pid: u32, task_id: u64) -> (r: String)
    ensures
        r@ == scoped_id_text("task:"@, process@, pid as nat, task_id as nat),
{
    scoped_node_id("task:", process, pid, task_id)
}

/// The identifier of a future's node.
pub fn future_node_id(process: &str, pid: u32, future_id: u64) -> (r: String)
    ensures
        r@ == scoped_id_text("future:"@, process@, pid as nat, future_id as nat),
{
    scoped_node_id("future:", process, pid, future_id)
}

/// The identifier of an in-flight request's node.
pub fn request_node_id(process: &str, pid: u32, connection: &str, request_id: u64) -> (r: String)
    ensures
        r@ == request_id_text(process@, pid as nat, connection@, request_id as nat),
{
    let mut m = chars_of("request:");
    extend_str(&mut m, process);
    extend_str(&mut m, ":");
    push_decimal(&mut m, pid as u64);
    extend_str(&mut m, ":");
    extend_str(&mut m, connection);
    extend_str(&mut m, ":");
    push_decimal(&mut m, request_id);
    assert(m@ =~= request_id_text(process@, pid as nat, connection@, request_id as nat));
    string_of(&m)
}

/// A future a task is waiting on.
pub struct FutureWaitRef {
    pub future_id: u64,
    pub task_id: u64,
}

/// An in-flight request on a connection, and the task handling it, if known.
pub struct RequestRef {
    pub connection: String,
    pub request_id: u64,
    pub task_id: Option<u64>,
}

/// A request's parent request, each named by process, connection and id.
pub struct RequestParentRef {
    pub child_process: String,
    pub child_connection: String,
    pub child_request_id: u64,
    pub parent_process: String,
    pub parent_connection: String,
    pub parent_request_id: u64,
}

/// An edge row: source, destination and kind.
pub struct DumpEdge {
    pub src_id: String,
    pub dst_id: String,
    pub kind: String,
}

/// An edge row as character sequences.
pub type EdgeText = (Seq<char>, Seq<char>, Seq<char>);

/// The edge rows as character sequences.
pub open spec fn edges_text(v: Seq<DumpEdge>) -> Seq<EdgeText> {
    v.map_values(|e: DumpEdge| (e.src_id@, e.dst_id@, e.kind@))
}

/// Each task belongs to its process.
pub open spec fn task_edges(process: Seq<char>, pid: nat, tasks: Seq<u64>) -> Seq<EdgeText> {
    tasks.map_values(
        |t: u64|
            (
                scoped_id_text("task:"@, process, pid, t as nat),
                process_id_text(process, pid),
                "task_in_process"@,
            ),
    )
}

/// Each waiting task awaits its future.
pub open spec fn wait_edges(process: Seq<char>, pid: nat, waits: Seq<FutureWaitRef>) -> Seq<
    EdgeText,
> {
    waits.map_values(
        |w: FutureWaitRef|
            (
                scoped_id_text("task:"@, process, pid, w.task_id as nat),
                scoped_id_text("future:"@, process, pid, w.future_id as nat),
                "task_awaits_future"@,
            ),
    )
}

/// Each in-flight request whose task is known is handled by that task.
pub open spec fn handler_edges(process: Seq<char>, pid: nat, requests: Seq<RequestRef>) -> Seq<
    EdgeText,
>
    decreases requests.len(),
{
    if requests.len() == 0 {
        seq![]
    } else {
        let r = requests.last();
        handler_edges(process, pid, requests.drop_last()) + match r.task_id {
            Some(t) => seq![
                (
                    request_id_text(process, pid, r.connection@, r.request_id as nat),
                    scoped_id_text("task:"@, process, pid, t as nat),
                    "request_handled_by_task"@,
                ),
            ],
            None => seq![],
        }
    }
}

/// The identifiers of the in-flight requests.
pub open spec fn request_ids(process: Seq<char>, pid: nat, requests: Seq<RequestRef>) -> Seq<
    Seq<char>,
> {
    requests.map_values(
        |r: RequestRef| request_id_text(process, pid, r.connection@, r.request_id as nat),
    )
}

/// Each parent link whose child is an in-flight request of this dump links
/// the child to its parent.
pub open spec fn parent_edges(
    pid: nat,
    known: Seq<Seq<char>>,
    parents: Seq<RequestParentRef>,
) -> Seq<EdgeText>
    decreases parents.len(),
{
    if parents.len() == 0 {
        seq![]
    } else {
        let p = parents.last();
        let child = request_id_text(
            p.child_process@,
            pid,
            p.child_connection@,
            p.child_request_id as nat,
        );
        let parent = request_id_text(
            p.parent_process@,
            pid,
            p.parent_connection@,
            p.parent_request_id as nat,
        );
        parent_edges(pid, known, parents.drop_last()) + if known.contains(child) {
            seq![(child, parent, "request_parent"@)]
        } else {
            seq![]
        }
    }
}

/// Whether `ids` holds `id`.
fn contains_id(ids: &Vec<String>, id: &String) -> (r: bool)
    ensures
        r == ids@.map_values(|s: String| s@).contains(id@),
{
    let ghost v = ids@.map_values(|s: String| s@);
    let mut i: usize = 0;
    while i < ids.len()
        invariant
            i <= ids.len(),
            v == ids@.map_values(|s: String| s@),
            forall|k: int| 0 <= k < i ==> ids@[k]@ != id@,
        decreases ids.len() - i,
    {
        if ids[i] == *id {
            assert(v[i as int] == id@);
            return true;
        }
        i = i + 1;
    }
    assert forall|k: int| 0 <= k < v.len() implies v[k] != id@ by {
        assert(v[k] == ids@[k]@);
    }
    false
}

fn push_edge(out: &mut Vec<DumpEdge>, src: String, dst: String, kind: &str)
    ensures
        edges_text(final(out)@) == edges_text(old(out)@).push((src@, dst@, kind@)),
{
    let ghost before = out@;
    out.push(DumpEdge { src_id: src, dst_id: dst, kind: kind.to_owned() });
    assert(edges_text(out@) =~= edges_text(before).push((src@, dst@, kind@)));
}

/// The edge rows of one process dump, in the order they are written: every
/// task in its process, every waiting task to its future, every in-flight
/// request to the task handling it, and every parent link whose child is an
/// in-flight request of the dump.
pub fn dump_edges(
    process: &str,
    pid: u32,
    tasks: &Vec<u64>,
    waits: &Vec<FutureWaitRef>,
    requests: &Vec<RequestRef>,
    parents: &Vec<RequestParentRef>,
) -> (r: Vec<DumpEdge>)
    ensures
        edges_text(r@) == task_edges(process@, pid as nat, tasks@) + wait_edges(
            process@,
            pid as nat,
            waits@,
        ) + handler_edges(process@, pid as nat, requests@) + parent_edges(
            pid as nat,
            request_ids(process@, pid as nat, requests@),
            parents@,
        ),
{
    let ghost p = process@;
    let ghost n = pid as nat;
    let mut out: Vec<DumpEdge> = Vec::new();
    let process_id = process_node_id(process, pid);
    let mut i: usize = 0;
    while i < tasks.len()
        invariant
            i <= tasks.len(),
            process_id@ == process_id_text(p, n),
            p == process@,
            n == pid as nat,
            edges_text(out@) == task_edges(p, n, tasks@.subrange(0, i as int)),
        decreases tasks.len() - i,
    {
        let t = task_node_id(process, pid, tasks[i]);
        push_edge(&mut out, t, process_id.clone(), "task_in_process");
        i = i + 1;
        assert(edges_text(out@) =~= task_edges(p, n, tasks@.subrange(0, i as int)));
    }
    assert(tasks@.subrange(0, i as int) =~= tasks@);
    let ghost base1 = edges_text(out@);
    let mut i: usize = 0;
    while i < waits.len()
        invariant
            i <= waits.len(),
            p == process@,
            n == pid as nat,
            edges_text(out@) == base1 + wait_edges(p, n, waits@.subrange(0, i as int)),
        decreases waits.len() - i,
    {
        let t = task_node_id(process, pid, waits[i].task_id);
        let f = future_node_id(process, pid, waits[i].future_id);
        push_edge(&mut out, t, f, "task_awaits_future");
        i = i + 1;
        assert(edges_text(out@) =~= base1 + wait_edges(p, n, waits@.subrange(0, i as int)));
    }
    assert(waits@.subrange(0, i as int) =~= waits@);
    let ghost base2 = edges_text(out@);
    let mut ids: Vec<String> = Vec::new();
    let mut i: usize = 0;
    while i < requests.len()
        invariant
            i <= requests.len(),
            p == process@,
            n == pid as nat,
            edges_text(out@) == base2 + handler_edges(p, n, requests@.subrange(0, i as int)),
            ids@.map_values(|s: String| s@) == request_ids(p, n, requests@.subrange(0, i as int)),
        decreases requests.len() - i,
    {
        let ghost sub = requests@.subrange(0, i + 1);
        assert(sub.drop_last() =~= requests@.subrange(0, i as int));
        let r = &requests[i];
        let rid = request_node_id(process, pid, r.connection.as_str(), r.request_id);
        let ghost before_ids = ids@;
        let rc = rid.clone();
        ids.push(rc);
        assert(sub[i as int] == requests@[i as int]);
        assert(request_ids(p, n, sub) =~= request_ids(p, n, requests@.subrange(0, i as int)).push(
            rid@,
        ));
        assert(ids@.map_values(|s: String| s@) =~= before_ids.map_values(|s: String| s@).push(
            rid@,
        ));
        match r.task_id {
            Some(t) => {
                let tid = task_node_id(process, pid, t);
                push_edge(&mut out, rid, tid, "request_handled_by_task");
            },
            None => {},
        }
        i = i + 1;
        assert(edges_text(out@) =~= base2 + handler_edges(p, n, requests@.subrange(0, i as int)));
    }
    assert(requests@.subrange(0, i as int) =~= requests@);
    let ghost known = request_ids(p, n, requests@);
    let ghost base3 = edges_text(out@);
    let mut i: usize = 0;
    while i < parents.len()
        invariant
            i <= parents.len(),
            n == pid as nat,
            ids@.map_values(|s: String| s@) == known,
            edges_text(out@) == base3 + parent_edges(n, known, parents@.subrange(0, i as int)),
        decreases parents.len() - i,
    {
        let ghost sub = parents@.subrange(0, i + 1);
        assert(sub.drop_last() =~= parents@.subrange(0, i as int));
        let q = &parents[i];
        let child = request_node_id(
            q.child_process.as_str(),
            pid,
            q.child_connection.as_str(),
            q.child_request_id,
        );
        let parent = request_node_id(
            q.parent_process.as_str(),
            pid,
            q.parent_connection.as_str(),
            q.parent_request_id,
        );
        if contains_id(&ids, &child) {
            push_edge(&mut out, child, parent, "request_parent");
        }
        i = i + 1;
        assert(edges_text(out@) =~= base3 + parent_edges(n, known, parents@.subrange(0, i as int)));
    }
    assert(parents@.subrange(0, i as int) =~= parents@);
    out
}

/// A node row: identifier, kind, and the process it belongs to.
pub struct DumpNode {
    pub id: String,
    pub kind: String,
    pub process: String,
}

/// A node row as character sequences.
pub type NodeText = (Seq<char>, Seq<char>, Seq<char>);

/// The node rows as character sequences.
pub open spec fn nodes_text(v: Seq<DumpNode>) -> Seq<NodeText> {
    v.map_values(|n: DumpNode| (n.id@, n.kind@, n.process@))
}

/// The node rows of one process dump, in the order they are written: the
/// process, each task, the future of each wait, and each in-flight request.
pub open spec fn dump_node_rows(
    process: Seq<char>,
    pid: nat,
    tasks: Seq<u64>,
    waits: Seq<FutureWaitRef>,
    requests: Seq<RequestRef>,
) -> Seq<NodeText> {
    seq![(process_id_text(process, pid), "process"@, process)] + tasks.map_values(
        |t: u64| (scoped_id_text("task:"@, process, pid, t as nat), "task"@, process),
    ) + waits.map_values(
        |w: FutureWaitRef|
            (scoped_id_text("future:"@, process, pid, w.future_id as nat), "future"@, process),
    ) + requests.map_values(
        |r: RequestRef|
            (request_id_text(process, pid, r.connection@, r.request_id as nat), "request"@, process),
    )
}

fn push_node(out: &mut Vec<DumpNode>, id: String, kind: &str, process: &str)
    ensures
        nodes_text(final(out)@) == nodes_text(old(out)@).push((id@, kind@, process@)),
{
    let ghost before = out@;
    out.push(DumpNode { id, kind: kind.to_owned(), process: process.to_owned() });
    assert(nodes_text(out@) =~= nodes_text(before).push((id@, kind@, process@)));
}

/// The node rows of one process dump: its process node, a node per task, a
/// future node per wait, and a request node per in-flight request. Their
/// attributes hold measured durations and are written by the caller.
pub fn dump_nodes(
    process: &str,
    pid: u32,
    tasks: &Vec<u64>,
    waits: &Vec<FutureWaitRef>,
    requests: &Vec<RequestRef>,
) -> (r: Vec<DumpNode>)
    ensures
        nodes_text(r@) == dump_node_rows(process@, pid as nat, tasks@, waits@, requests@),
{
    let ghost p = process@;
    let ghost n = pid as nat;
    let mut out: Vec<DumpNode> = Vec::new();
    push_node(&mut out, process_node_id(process, pid), "process", process);
    let ghost head = nodes_text(out@);
    let ghost ft = |t: u64| (scoped_id_text("task:"@, p, n, t as nat), "task"@, p);
    let mut i: usize = 0;
    while i < tasks.len()
        invariant
            i <= tasks.len(),
            p == process@,
            n == pid as nat,
            ft == (|t: u64| (scoped_id_text("task:"@, p, n, t as nat), "task"@, p)),
            nodes_text(out@) == head + tasks@.subrange(0, i as int).map_values(ft),
        decreases tasks.len() - i,
    {
        push_node(&mut out, task_node_id(process, pid, tasks[i]), "task", process);
        i = i + 1;
        assert(nodes_text(out@) =~= head + tasks@.subrange(0, i as int).map_values(ft));
    }
    assert(tasks@.subrange(0, i as int) =~= tasks@);
    let ghost base1 = nodes_text(out@);
    let ghost fw = |w: FutureWaitRef|
        (scoped_id_text("future:"@, p, n, w.future_id as nat), "future"@, p);
    let mut i: usize = 0;
    while i < waits.len()
        invariant
            i <= waits.len(),
            p == process@,
            n == pid as nat,
            fw == (|w: FutureWaitRef|
                (scoped_id_text("future:"@, p, n, w.future_id as nat), "future"@, p)),
            nodes_text(out@) == base1 + waits@.subrange(0, i as int).map_values(fw),
        decreases waits.len() - i,
    {
        push_node(&mut out, future_node_id(process, pid, waits[i].future_id), "future", process);
        i = i + 1;
        assert(nodes_text(out@) =~= base1 + waits@.subrange(0, i as int).map_values(fw));
    }
    assert(waits@.subrange(0, i as int) =~= waits@);
    let ghost base2 = nodes_text(out@);
    let ghost fr = |r: RequestRef|
        (request_id_text(p, n, r.connection@, r.request_id as nat), "request"@, p);
    let mut i: usize = 0;
    while i < requests.len()
        invariant
            i <= requests.len(),
            p == process@,
            n == pid as nat,
            fr == (|r: RequestRef|
                (request_id_text(p, n, r.connection@, r.request_id as nat), "request"@, p)),
            nodes_text(out@) == base2 + requests@.subrange(0, i as int).map_values(fr),
        decreases requests.len() - i,
    {
        let r = &requests[i];
        push_node(
            &mut out,
            request_node_id(process, pid, r.connection.as_str(), r.request_id),
            "request",
            process,
        );
        i = i + 1;
        assert(nodes_text(out@) =~= base2 + requests@.subrange(0, i as int).map_values(fr));
    }
    assert(requests@.subrange(0, i as int) =~= requests@);
    assert(nodes_text(out@) =~= dump_node_rows(p, n, tasks@, waits@, requests@));
    out
}

} // verus!
