//! A join set as a graph node: registered when the set is made, needed by the
//! task that made it, and removed when the set is dropped.

use vstd::prelude::*;
use crate::edge_set::EdgeView;
use crate::model::{Node, NodeKind, NodeView};
use crate::registry::{Registry, edge, register_node, remove_node};

verus! {

broadcast use vstd::string::group_string_axioms;

/// The node that stands for a join set.
pub struct JoinSetNode {
    pub node_id: String,
}

/// Registers the join set's node `node_id` (kind `JoinSet`, label `joinset`,
/// no attributes); the top of the caller's stack, if any, needs it.
pub fn open_joinset(reg: &mut Registry, node_id: String, stack_top: Option<&str>, now_ns: u64) -> (j:
    JoinSetNode)
    ensures
        j.node_id@ == node_id@,
        final(reg).nodes() == old(reg).nodes().insert(
            node_id@,
            (
                NodeView {
                    id: node_id@,
                    kind: NodeKind::JoinSet,
                    label: Some("joinset"@),
                    attrs: "{}"@,
                },
                if old(reg).nodes().contains_key(node_id@) {
                    old(reg).nodes()[node_id@].1
                } else {
                    now_ns
                },
            ),
        ),
        final(reg).needs() == match stack_top {
            Some(src) => old(reg).needs().insert((src@, node_id@)),
            None => old(reg).needs(),
        },
        final(reg).touches() == old(reg).touches(),
        final(reg).process() == old(reg).process(),
{
    register_node(
        reg,
        Node {
            id: node_id.clone(),
            kind: NodeKind::JoinSet,
            label: Some("joinset".to_owned()),
            attrs_json: "{}".to_owned(),
        },
        now_ns,
    );
    if let Some(src) = stack_top {
        edge(reg, src, node_id.as_str());
    }
    JoinSetNode { node_id }
}

/// Removes the join set's node and every edge at it.
pub fn close_joinset(reg: &mut Registry, j: JoinSetNode)
    ensures
        final(reg).nodes() == old(reg).nodes().remove(j.node_id@),
        final(reg).needs() == old(reg).needs().filter(
            |e: EdgeView| e.0 != j.node_id@ && e.1 != j.node_id@,
        ),
        final(reg).touches() == old(reg).touches().filter(
            |e: EdgeView| e.0 != j.node_id@ && e.1 != j.node_id@,
        ),
        final(reg).process() == old(reg).process(),
{
    remove_node(reg, j.node_id.as_str());
}

} // verus!
