//! Network readiness waits (connect, accept, readable, writable) as graph
//! nodes that exist while the wait is pending.
//!
//! A wait is split around the awaited operation: `connect` (and the others)
//! registers the node and the caller's `needs` edge to it; `finish_net_wait`
//! records the elapsed time and removes the node.

use vstd::prelude::*;
use crate::edge_set::EdgeView;
use crate::json::{json_quoted, push_number_member, push_string_member};
use crate::model::{Node, NodeKind, NodeView, opt_view};
use crate::registry::{Registry, edge, register_node, remove_node};
use crate::text::{chars_of, decimal, extend_str, string_of};

verus! {

broadcast use vstd::string::group_string_axioms;

/// A pending network wait.
pub struct NetWait {
    pub node_id: String,
    pub kind: NodeKind,
    pub op: String,
    pub endpoint: String,
    pub transport: String,
}

/// The attributes while the wait is pending.
pub open spec fn net_begin_attrs(op: Seq<char>, endpoint: Seq<char>, transport: Seq<char>) -> Seq<
    char,
> {
    "{"@ + "\"net.op\":"@ + json_quoted(op) + ",\"net.endpoint\":"@ + json_quoted(endpoint)
        + ",\"net.transport\":"@ + json_quoted(transport) + "}"@
}

/// The attributes once the wait is over.
pub open spec fn net_end_attrs(
    op: Seq<char>,
    endpoint: Seq<char>,
    transport: Seq<char>,
    elapsed_ns: u64,
) -> Seq<char> {
    "{"@ + "\"net.op\":"@ + json_quoted(op) + ",\"net.endpoint\":"@ + json_quoted(endpoint)
        + ",\"net.transport\":"@ + json_quoted(transport) + ",\"elapsed_ns\":"@ + decimal(
        elapsed_ns as nat,
    ) + "}"@
}

/// The node's label, `<op>: <endpoint>`.
pub open spec fn net_label(op: Seq<char>, endpoint: Seq<char>) -> Seq<char> {
    op + ": "@ + endpoint
}

fn net_attrs(op: &str, endpoint: &str, transport: &str, elapsed_ns: Option<u64>) -> (r: String)
    ensures
        elapsed_ns is None ==> r@ == net_begin_attrs(op@, endpoint@, transport@),
        elapsed_ns matches Some(n) ==> r@ == net_end_attrs(op@, endpoint@, transport@, n),
{
    let mut out = chars_of("{");
    push_string_member(&mut out, "\"net.op\":", op);
    push_string_member(&mut out, ",\"net.endpoint\":", endpoint);
    push_string_member(&mut out, ",\"net.transport\":", transport);
    if let Some(n) = elapsed_ns {
        push_number_member(&mut out, ",\"elapsed_ns\":", n);
    }
    extend_str(&mut out, "}");
    proof {
        if let Some(n) = elapsed_ns {
            assert(out@ =~= net_end_attrs(op@, endpoint@, transport@, n));
        } else {
            assert(out@ =~= net_begin_attrs(op@, endpoint@, transport@));
        }
    }
    string_of(&out)
}

fn net_label_exec(op: &str, endpoint: &str) -> (r: String)
    ensures
        r@ == net_label(op@, endpoint@),
{
    let mut out = chars_of(op);
    extend_str(&mut out, ": ");
    extend_str(&mut out, endpoint);
    string_of(&out)
}

/// What beginning a wait does: the node is registered with the pending
/// attributes, and the top of the caller's stack, if any, needs it.
pub open spec fn began(before: Registry, after: Registry, w: NetWait, stack_top: Option<Seq<char>>, now_ns: u64) -> bool {
    let node = NodeView {
        id: w.node_id@,
        kind: w.kind,
        label: Some(net_label(w.op@, w.endpoint@)),
        attrs: net_begin_attrs(w.op@, w.endpoint@, w.transport@),
    };
    &&& after.nodes() == before.nodes().insert(
        w.node_id@,
        (
            node,
            if before.nodes().contains_key(w.node_id@) {
                before.nodes()[w.node_id@].1
            } else {
                now_ns
            },
        ),
    )
    &&& after.touches() == before.touches()
    &&& after.process() == before.process()
    &&& after.needs() == match stack_top {
        Some(src) => before.needs().insert((src, w.node_id@)),
        None => before.needs(),
    }
}

fn net_wait(
    reg: &mut Registry,
    node_id: String,
    endpoint: &str,
    transport: &str,
    kind: NodeKind,
    op: &str,
    stack_top: Option<&str>,
    now_ns: u64,
) -> (w: NetWait)
    ensures
        w.node_id@ == node_id@ && w.kind == kind && w.op@ == op@ && w.endpoint@ == endpoint@
            && w.transport@ == transport@,
        began(*old(reg), *final(reg), w, match stack_top {
            Some(s) => Some(s@),
            None => None,
        }, now_ns),
{
    let label = net_label_exec(op, endpoint);
    let attrs_json = net_attrs(op, endpoint, transport, None);
    register_node(reg, Node { id: node_id.clone(), kind, label: Some(label), attrs_json }, now_ns);
    if let Some(src) = stack_top {
        edge(reg, src, node_id.as_str());
    }
    NetWait {
        node_id,
        kind,
        op: op.to_owned(),
        endpoint: endpoint.to_owned(),
        transport: transport.to_owned(),
    }
}

/// Begins a connect wait: node `node_id` of kind `NetConnect`, needed by the
/// top of the caller's stack.
pub fn connect(
    reg: &mut Registry,
    node_id: String,
    endpoint: &str,
    transport: &str,
    stack_top: Option<&str>,
    now_ns: u64,
) -> (w: NetWait)
    ensures
        w.node_id@ == node_id@ && w.kind == NodeKind::NetConnect && w.op@ == "net_connect"@
            && w.endpoint@ == endpoint@ && w.transport@ == transport@,
        began(*old(reg), *final(reg), w, match stack_top {
            Some(s) => Some(s@),
            None => None,
        }, now_ns),
{
    net_wait(reg, node_id, endpoint, transport, NodeKind::NetConnect, "net_connect", stack_top, now_ns)
}

/// Begins an accept wait: node `node_id` of kind `NetAccept`, needed by the
/// top of the caller's stack.
pub fn accept(
    reg: &mut Registry,
    node_id: String,
    endpoint: &str,
    transport: &str,
    stack_top: Option<&str>,
    now_ns: u64,
) -> (w: NetWait)
    ensures
        w.node_id@ == node_id@ && w.kind == NodeKind::NetAccept && w.op@ == "net_accept"@
            && w.endpoint@ == endpoint@ && w.transport@ == transport@,
        began(*old(reg), *final(reg), w, match stack_top {
            Some(s) => Some(s@),
            None => None,
        }, now_ns),
{
    net_wait(reg, node_id, endpoint, transport, NodeKind::NetAccept, "net_accept", stack_top, now_ns)
}

/// Begins a readable wait: node `node_id` of kind `NetReadable`, needed by
/// the top of the caller's stack.
pub fn readable(
    reg: &mut Registry,
    node_id: String,
    endpoint: &str,
    transport: &str,
    stack_top: Option<&str>,
    now_ns: u64,
) -> (w: NetWait)
    ensures
        w.node_id@ == node_id@ && w.kind == NodeKind::NetReadable && w.op@ == "net_readable"@
            && w.endpoint@ == endpoint@ && w.transport@ == transport@,
        began(*old(reg), *final(reg), w, match stack_top {
            Some(s) => Some(s@),
            None => None,
        }, now_ns),
{
    net_wait(
        reg,
        node_id,
        endpoint,
        transport,
        NodeKind::NetReadable,
        "net_readable",
        stack_top,
        now_ns,
    )
}

/// Begins a writable wait: node `node_id` of kind `NetWritable`, needed by
/// the top of the caller's stack.
pub fn writable(
    reg: &mut Registry,
    node_id: String,
    endpoint: &str,
    transport: &str,
    stack_top: Option<&str>,
    now_ns: u64,
) -> (w: NetWait)
    ensures
        w.node_id@ == node_id@ && w.kind == NodeKind::NetWritable && w.op@ == "net_writable"@
            && w.endpoint@ == endpoint@ && w.transport@ == transport@,
        began(*old(reg), *final(reg), w, match stack_top {
            Some(s) => Some(s@),
            None => None,
        }, now_ns),
{
    net_wait(
        reg,
        node_id,
        endpoint,
        transport,
        NodeKind::NetWritable,
        "net_writable",
        stack_top,
        now_ns,
    )
}

/// Ends a wait after `elapsed_ns`: the node's final attributes are
/// registered, then the node and every edge at it are removed.
pub fn finish_net_wait(reg: &mut Registry, wait: NetWait, elapsed_ns: u64, now_ns: u64)
    ensures
        final(reg).nodes() == old(reg).nodes().remove(wait.node_id@),
        final(reg).needs() == old(reg).needs().filter(
            |e: EdgeView| e.0 != wait.node_id@ && e.1 != wait.node_id@,
        ),
        final(reg).touches() == old(reg).touches().filter(
            |e: EdgeView| e.0 != wait.node_id@ && e.1 != wait.node_id@,
        ),
        final(reg).process() == old(reg).process(),
{
    let label = net_label_exec(wait.op.as_str(), wait.endpoint.as_str());
    let attrs_json = net_attrs(
        wait.op.as_str(),
        wait.endpoint.as_str(),
        wait.transport.as_str(),
        Some(elapsed_ns),
    );
    let id = wait.node_id.clone();
    register_node(reg, Node { id: wait.node_id, kind: wait.kind, label: Some(label), attrs_json }, now_ns);
    remove_node(reg, id.as_str());
    assert(final(reg).nodes() =~= old(reg).nodes().remove(id@));
}

} // verus!
