//! Request and response entity nodes of RPC calls, linked to the entity that
//! issued them.

use vstd::prelude::*;
use crate::edge_set::EdgeView;
use crate::json::{json_quoted, push_string_member};
use crate::model::{Node, NodeKind, NodeView, opt_view};
use crate::registry::{Registry, edge, register_node, touch_edge};
use crate::text::{chars_of, extend_str, string_of};

verus! {

broadcast use vstd::string::group_string_axioms;

/// A request or response to record.
pub struct RpcEvent {
    pub entity_id: String,
    pub name: String,
    pub attrs_json: String,
    pub parent_entity_id: Option<String>,
}

/// The entity the recorded node is linked from: the explicit parent, else
/// the top of the caller's stack, unless that is the node itself.
pub open spec fn rpc_parent(
    entity_id: Seq<char>,
    parent: Option<Seq<char>>,
    stack_top: Option<Seq<char>>,
) -> Option<Seq<char>> {
    let p = match parent {
        Some(p) => Some(p),
        None => stack_top,
    };
    match p {
        Some(p) => if p != entity_id {
            Some(p)
        } else {
            None
        },
        None => None,
    }
}

/// The registry after recording a node of kind `kind` for `event`.
pub open spec fn recorded(
    before: Registry,
    after: Registry,
    id: Seq<char>,
    node: NodeView,
    parent: Option<Seq<char>>,
    now_ns: u64,
) -> bool {
    &&& after.nodes() == before.nodes().insert(
        id,
        (
            node,
            if before.nodes().contains_key(id) {
                before.nodes()[id].1
            } else {
                now_ns
            },
        ),
    )
    &&& after.process() == before.process()
    &&& match parent {
        Some(p) => {
            &&& after.needs() == before.needs().insert((p, id))
            &&& after.touches() == before.touches().insert((p, id))
        },
        None => {
            &&& after.needs() == before.needs()
            &&& after.touches() == before.touches()
        },
    }
}

fn record(reg: &mut Registry, event: RpcEvent, kind: NodeKind, stack_top: Option<String>, now_ns: u64)
    ensures
        recorded(
            *old(reg),
            *final(reg),
            event.entity_id@,
            NodeView {
                id: event.entity_id@,
                kind: kind,
                label: Some(event.name@),
                attrs: event.attrs_json@,
            },
            rpc_parent(event.entity_id@, opt_view(event.parent_entity_id), opt_view(stack_top)),
            now_ns,
        ),
{
    let RpcEvent { entity_id, name, attrs_json, parent_entity_id } = event;
    let node = Node { id: entity_id.clone(), kind, label: Some(name), attrs_json };
    register_node(reg, node, now_ns);
    let parent = match parent_entity_id {
        Some(p) => Some(p),
        None => stack_top,
    };
    if let Some(parent_id) = parent {
        if parent_id != entity_id {
            edge(reg, parent_id.as_str(), entity_id.as_str());
            touch_edge(reg, parent_id.as_str(), entity_id.as_str());
        }
    }
}

/// Records or updates a request node and links it from its parent (the
/// explicit one, else `stack_top`, the top of the caller's stack). The node
/// stays until it is removed.
pub fn record_request(reg: &mut Registry, event: RpcEvent, stack_top: Option<String>, now_ns: u64)
    ensures
        recorded(
            *old(reg),
            *final(reg),
            event.entity_id@,
            NodeView {
                id: event.entity_id@,
                kind: NodeKind::Request,
                label: Some(event.name@),
                attrs: event.attrs_json@,
            },
            rpc_parent(event.entity_id@, opt_view(event.parent_entity_id), opt_view(stack_top)),
            now_ns,
        ),
{
    record(reg, event, NodeKind::Request, stack_top, now_ns)
}

/// Records or updates a response node and links it from its parent (the
/// explicit one, else `stack_top`, the top of the caller's stack). The node
/// stays until it is removed.
pub fn record_response(reg: &mut Registry, event: RpcEvent, stack_top: Option<String>, now_ns: u64)
    ensures
        recorded(
            *old(reg),
            *final(reg),
            event.entity_id@,
            NodeView {
                id: event.entity_id@,
                kind: NodeKind::Response,
                label: Some(event.name@),
                attrs: event.attrs_json@,
            },
            rpc_parent(event.entity_id@, opt_view(event.parent_entity_id), opt_view(stack_top)),
            now_ns,
        ),
{
    record(reg, event, NodeKind::Response, stack_top, now_ns)
}

/// `{"rpc.name":<name>,"meta":<meta>}`.
pub open spec fn attrs_with_meta(name: Seq<char>, meta_json: Seq<char>) -> Seq<char> {
    "{"@ + "\"rpc.name\":"@ + json_quoted(name) + ",\"meta\":"@ + meta_json + "}"@
}

/// The attributes of an RPC node built from its name and its metadata
/// object, given as JSON text.
pub fn attrs_json_with_meta(name: &str, meta_json: &str) -> (r: String)
    ensures
        r@ == attrs_with_meta(name@, meta_json@),
{
    let mut out = chars_of("{");
    push_string_member(&mut out, "\"rpc.name\":", name);
    extend_str(&mut out, ",\"meta\":");
    extend_str(&mut out, meta_json);
    extend_str(&mut out, "}");
    assert(out@ =~= attrs_with_meta(name@, meta_json@));
    string_of(&out)
}

/// Records a request whose attributes are `{"rpc.name":..,"meta":..}`;
/// `meta_json` is the metadata object as JSON text.
pub fn record_request_with_meta(
    reg: &mut Registry,
    entity_id: &str,
    name: &str,
    meta_json: &str,
    parent_entity_id: Option<String>,
    stack_top: Option<String>,
    now_ns: u64,
)
    ensures
        recorded(
            *old(reg),
            *final(reg),
            entity_id@,
            NodeView {
                id: entity_id@,
                kind: NodeKind::Request,
                label: Some(name@),
                attrs: attrs_with_meta(name@, meta_json@),
            },
            rpc_parent(entity_id@, opt_view(parent_entity_id), opt_view(stack_top)),
            now_ns,
        ),
{
    let attrs_json = attrs_json_with_meta(name, meta_json);
    record_request(
        reg,
        RpcEvent { entity_id: entity_id.to_owned(), name: name.to_owned(), attrs_json, parent_entity_id },
        stack_top,
        now_ns,
    )
}

/// Records a response whose attributes are `{"rpc.name":..,"meta":..}`;
/// `meta_json` is the metadata object as JSON text.
pub fn record_response_with_meta(
    reg: &mut Registry,
    entity_id: &str,
    name: &str,
    meta_json: &str,
    parent_entity_id: Option<String>,
    stack_top: Option<String>,
    now_ns: u64,
)
    ensures
        recorded(
            *old(reg),
            *final(reg),
            entity_id@,
            NodeView {
                id: entity_id@,
                kind: NodeKind::Response,
                label: Some(name@),
                attrs: attrs_with_meta(name@, meta_json@),
            },
            rpc_parent(entity_id@, opt_view(parent_entity_id), opt_view(stack_top)),
            now_ns,
        ),
{
    let attrs_json = attrs_json_with_meta(name, meta_json);
    record_response(
        reg,
        RpcEvent { entity_id: entity_id.to_owned(), name: name.to_owned(), attrs_json, parent_entity_id },
        stack_top,
        now_ns,
    )
}

} // verus!
