//! File operations as graph nodes that exist while the operation runs: the
//! node is registered when it starts, touched by the caller, and removed once
//! its outcome is recorded.

use vstd::prelude::*;
use crate::edge_set::EdgeView;
use crate::json::{json_quoted, push_number_member, push_string_member};
use crate::model::{Node, NodeKind, NodeView};
use crate::registry::{Registry, register_node, remove_node, touch_edge};
use crate::text::{chars_of, decimal, extend_str, string_of};

verus! {

broadcast use vstd::string::group_string_axioms;

/// How a file operation ended.
pub struct FileOpOutcome {
    /// Bytes written, for a write.
    pub write_bytes: Option<u64>,
    /// Bytes read, for a read.
    pub read_bytes: Option<u64>,
    pub elapsed_ns: u64,
    /// `ok`, `error`, or the answer of an existence check.
    pub result: String,
    pub error: Option<String>,
}

/// A running file operation.
pub struct FileOp {
    pub node_id: String,
    pub op: String,
    pub path: String,
}

/// `"<key>":<n>` when `n` is present, else nothing.
pub open spec fn opt_number_member(key_colon: Seq<char>, n: Option<u64>) -> Seq<char> {
    match n {
        Some(v) => key_colon + decimal(v as nat),
        None => seq![],
    }
}

/// The attributes of a file operation node, members in this order: the
/// operation, the path, the bytes written and read when known, the elapsed
/// time, the result, and the error when there is one.
pub open spec fn file_op_attrs(
    op: Seq<char>,
    path: Seq<char>,
    write_bytes: Option<u64>,
    read_bytes: Option<u64>,
    elapsed_ns: u64,
    result: Seq<char>,
    error: Option<Seq<char>>,
) -> Seq<char> {
    "{"@ + "\"fs.op\":"@ + json_quoted(op) + ",\"resource.path\":"@ + json_quoted(path)
        + opt_number_member(",\"write.bytes\":"@, write_bytes) + opt_number_member(
        ",\"read.bytes\":"@,
        read_bytes,
    ) + ",\"elapsed_ns\":"@ + decimal(elapsed_ns as nat) + ",\"result\":"@ + json_quoted(result)
        + match error {
        Some(e) => ",\"error\":"@ + json_quoted(e),
        None => seq![],
    } + "}"@
}

/// The attributes of a file operation node.
pub fn build_attrs_json(
    op: &str,
    path: &str,
    write_bytes: Option<u64>,
    read_bytes: Option<u64>,
    elapsed_ns: u64,
    result: &str,
    error: Option<&str>,
) -> (r: String)
    ensures
        r@ == file_op_attrs(op@, path@, write_bytes, read_bytes, elapsed_ns, result@, match error {
            Some(e) => Some(e@),
            None => None,
        }),
{
    let mut out = chars_of("{");
    push_string_member(&mut out, "\"fs.op\":", op);
    push_string_member(&mut out, ",\"resource.path\":", path);
    let ghost a = out@;
    if let Some(w) = write_bytes {
        push_number_member(&mut out, ",\"write.bytes\":", w);
    }
    assert(out@ =~= a + opt_number_member(",\"write.bytes\":"@, write_bytes));
    let ghost b = out@;
    if let Some(rb) = read_bytes {
        push_number_member(&mut out, ",\"read.bytes\":", rb);
    }
    assert(out@ =~= b + opt_number_member(",\"read.bytes\":"@, read_bytes));
    push_number_member(&mut out, ",\"elapsed_ns\":", elapsed_ns);
    push_string_member(&mut out, ",\"result\":", result);
    let ghost c = out@;
    if let Some(e) = error {
        push_string_member(&mut out, ",\"error\":", e);
    }
    extend_str(&mut out, "}");
    assert(out@ =~= file_op_attrs(op@, path@, write_bytes, read_bytes, elapsed_ns, result@, match error {
        Some(e) => Some(e@),
        None => None,
    }));
    string_of(&out)
}

/// The node's label, `<op>: <path>`.
pub open spec fn file_op_label(op: Seq<char>, path: Seq<char>) -> Seq<char> {
    op + ": "@ + path
}

fn file_op_label_exec(op: &str, path: &str) -> (r: String)
    ensures
        r@ == file_op_label(op@, path@),
{
    let mut out = chars_of(op);
    extend_str(&mut out, ": ");
    extend_str(&mut out, path);
    string_of(&out)
}

/// The path shown for a rename: `<from> -> <to>`.
pub fn rename_label(from: &str, to: &str) -> (r: String)
    ensures
        r@ == from@ + " -> "@ + to@,
{
    let mut out = chars_of(from);
    extend_str(&mut out, " -> ");
    extend_str(&mut out, to);
    string_of(&out)
}

/// The pending attributes: no byte counts, no time elapsed, `in_progress`.
pub open spec fn in_progress_attrs(op: Seq<char>, path: Seq<char>) -> Seq<char> {
    file_op_attrs(op, path, None, None, 0, "in_progress"@, None)
}

/// Begins a file operation: node `node_id` of kind `FileOp` is registered
/// with the pending attributes, and the top of the caller's stack, if any,
/// touches it.
pub fn begin_op(
    reg: &mut Registry,
    node_id: String,
    op: &str,
    path: &str,
    stack_top: Option<&str>,
    now_ns: u64,
) -> (f: FileOp)
    ensures
        f.node_id@ == node_id@ && f.op@ == op@ && f.path@ == path@,
        final(reg).nodes() == old(reg).nodes().insert(
            node_id@,
            (
                NodeView {
                    id: node_id@,
                    kind: NodeKind::FileOp,
                    label: Some(file_op_label(op@, path@)),
                    attrs: in_progress_attrs(op@, path@),
                },
                if old(reg).nodes().contains_key(node_id@) {
                    old(reg).nodes()[node_id@].1
                } else {
                    now_ns
                },
            ),
        ),
        final(reg).touches() == match stack_top {
            Some(src) => old(reg).touches().insert((src@, node_id@)),
            None => old(reg).touches(),
        },
        final(reg).needs() == old(reg).needs(),
        final(reg).process() == old(reg).process(),
{
    let label = file_op_label_exec(op, path);
    let attrs_json = build_attrs_json(op, path, None, None, 0, "in_progress", None);
    register_node(
        reg,
        Node { id: node_id.clone(), kind: NodeKind::FileOp, label: Some(label), attrs_json },
        now_ns,
    );
    if let Some(src) = stack_top {
        touch_edge(reg, src, node_id.as_str());
    }
    FileOp { node_id, op: op.to_owned(), path: path.to_owned() }
}

/// Ends a file operation: its final attributes are registered, then the node
/// and every edge at it are removed.
pub fn end_op(reg: &mut Registry, f: FileOp, outcome: &FileOpOutcome, now_ns: u64)
    ensures
        final(reg).nodes() == old(reg).nodes().remove(f.node_id@),
        final(reg).needs() == old(reg).needs().filter(
            |e: EdgeView| e.0 != f.node_id@ && e.1 != f.node_id@,
        ),
        final(reg).touches() == old(reg).touches().filter(
            |e: EdgeView| e.0 != f.node_id@ && e.1 != f.node_id@,
        ),
        final(reg).process() == old(reg).process(),
{
    let label = file_op_label_exec(f.op.as_str(), f.path.as_str());
    let error = match &outcome.error {
        Some(e) => Some(e.as_str()),
        None => None,
    };
    let attrs_json = build_attrs_json(
        f.op.as_str(),
        f.path.as_str(),
        outcome.write_bytes,
        outcome.read_bytes,
        outcome.elapsed_ns,
        outcome.result.as_str(),
        error,
    );
    let id = f.node_id.clone();
    register_node(
        reg,
        Node { id: f.node_id, kind: NodeKind::FileOp, label: Some(label), attrs_json },
        now_ns,
    );
    remove_node(reg, id.as_str());
    assert(final(reg).nodes() =~= old(reg).nodes().remove(id@));
}

} // verus!
