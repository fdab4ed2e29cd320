//! The graph snapshot vocabulary: nodes, edges, events and their kinds.

use vstd::prelude::*;

verus! {

/// What kind of runtime resource a node stands for.
#[derive(Clone, Copy, Debug, PartialEq, Eq, Structural)]
pub enum NodeKind {
    Future,
    Lock,
    Tx,
    Rx,
    RemoteTx,
    RemoteRx,
    Request,
    Response,
    Connection,
    JoinSet,
    Semaphore,
    OnceCell,
    Command,
    FileOp,
    Notify,
    Sleep,
    Interval,
    Timeout,
    NetConnect,
    NetAccept,
    NetReadable,
    NetWritable,
    Syscall,
}

/// The relationship an edge records.
#[derive(Clone, Copy, Debug, PartialEq, Eq, Structural)]
pub enum EdgeKind {
    /// `src` is waiting on `dst`.
    Needs,
    /// `src` has interacted with `dst` at least once.
    Touches,
    /// `src` spawned `dst`.
    Spawned,
    /// `dst` closed or cancelled `src`.
    ClosedBy,
}

/// A graph node.
pub struct Node {
    pub id: String,
    pub kind: NodeKind,
    pub label: Option<String>,
    pub attrs_json: String,
}

/// A graph edge.
pub struct Edge {
    pub src: String,
    pub dst: String,
    pub kind: EdgeKind,
    pub attrs_json: String,
}

/// A point-in-time occurrence on an entity.
pub struct Event {
    pub id: String,
    pub ts_ns: u64,
    pub proc_key: String,
    pub entity_id: String,
    pub name: String,
    pub parent_entity_id: Option<String>,
    pub attrs_json: String,
}

/// Everything one process reports at one moment.
pub struct GraphSnapshot {
    pub process_name: String,
    pub proc_key: String,
    pub nodes: Vec<Node>,
    pub edges: Vec<Edge>,
    pub events: Option<Vec<Event>>,
}

/// A node as character sequences.
pub struct NodeView {
    pub id: Seq<char>,
    pub kind: NodeKind,
    pub label: Option<Seq<char>>,
    pub attrs: Seq<char>,
}

/// The view of an optional string.
pub open spec fn opt_view(o: Option<String>) -> Option<Seq<char>> {
    match o {
        Some(s) => Some(s@),
        None => None,
    }
}

impl View for Node {
    type V = NodeView;

    open spec fn view(&self) -> NodeView {
        NodeView { id: self.id@, kind: self.kind, label: opt_view(self.label), attrs: self.attrs_json@ }
    }
}

/// An edge as character sequences.
pub struct EdgeRecord {
    pub src: Seq<char>,
    pub dst: Seq<char>,
    pub kind: EdgeKind,
    pub attrs: Seq<char>,
}

impl View for Edge {
    type V = EdgeRecord;

    open spec fn view(&self) -> EdgeRecord {
        EdgeRecord { src: self.src@, dst: self.dst@, kind: self.kind, attrs: self.attrs_json@ }
    }
}

/// A copy of an optional string.
pub fn copy_opt(o: &Option<String>) -> (r: Option<String>)
    ensures
        r == *o,
        opt_view(r) == opt_view(*o),
{
    match o {
        Some(s) => Some(s.clone()),
        None => None,
    }
}

impl Node {
    /// A copy of the node.
    pub fn copy(&self) -> (r: Node)
        ensures
            r@ == self@,
    {
        Node {
            id: self.id.clone(),
            kind: self.kind,
            label: copy_opt(&self.label),
            attrs_json: self.attrs_json.clone(),
        }
    }
}

impl Event {
    /// A copy of the event.
    pub fn copy(&self) -> (r: Event)
        ensures
            r == *self,
    {
        Event {
            id: self.id.clone(),
            ts_ns: self.ts_ns,
            proc_key: self.proc_key.clone(),
            entity_id: self.entity_id.clone(),
            name: self.name.clone(),
            parent_entity_id: match &self.parent_entity_id {
                Some(p) => Some(p.clone()),
                None => None,
            },
            attrs_json: self.attrs_json.clone(),
        }
    }
}

impl GraphSnapshot {
    /// The snapshot of a process that has not been named: everything empty.
    pub fn empty() -> (g: GraphSnapshot)
        ensures
            g.process_name@.len() == 0,
            g.proc_key@.len() == 0,
            g.nodes@.len() == 0,
            g.edges@.len() == 0,
            g.events is None,
    {
        GraphSnapshot {
            process_name: String::new(),
            proc_key: String::new(),
            nodes: Vec::new(),
            edges: Vec::new(),
            events: None,
        }
    }
}

} // verus!
