//! The diagnostics registry of a process: canonical `needs` edges, `touches`
//! edges and externally registered nodes, and the snapshot built from them.
//!
//! The registry is a value; the process keeps one behind a lock and passes it
//! to these functions. Instants are nanoseconds on the process's monotonic
//! clock.

use vstd::prelude::*;
use crate::attrs::{inject_elapsed_ns, inject_elapsed_ns_spec};
use crate::edge_set::{EdgeSet, EdgeView, pair_view};
use crate::model::{Edge, EdgeKind, EdgeRecord, GraphSnapshot, Node, NodeKind, NodeView};
use crate::node_table::NodeTable;

verus! {

broadcast use vstd::string::group_string_axioms;

/// Name and key of the process, set once.
pub struct ProcessInfo {
    pub name: String,
    pub proc_key: String,
}

/// The registry of one process.
pub struct Registry {
    process: Option<ProcessInfo>,
    edges: EdgeSet,
    touch_edges: EdgeSet,
    nodes: NodeTable<u64>,
}

impl Registry {
    /// Name and key of the process, once initialised.
    pub closed spec fn process(&self) -> Option<(Seq<char>, Seq<char>)> {
        match self.process {
            Some(p) => Some((p.name@, p.proc_key@)),
            None => None,
        }
    }

    /// The `needs` edges.
    pub closed spec fn needs(&self) -> Set<EdgeView> {
        self.edges@
    }

    /// The `touches` edges.
    pub closed spec fn touches(&self) -> Set<EdgeView> {
        self.touch_edges@
    }

    /// The registered nodes with the instant each id was first registered.
    pub closed spec fn nodes(&self) -> Map<Seq<char>, (NodeView, u64)> {
        self.nodes@
    }

    /// An empty registry, not yet initialised.
    pub fn new() -> (r: Registry)
        ensures
            r.process() is None,
            r.needs() == Set::<EdgeView>::empty(),
            r.touches() == Set::<EdgeView>::empty(),
            r.nodes() == Map::<Seq<char>, (NodeView, u64)>::empty(),
    {
        Registry { process: None, edges: EdgeSet::new(), touch_edges: EdgeSet::new(), nodes: NodeTable::new() }
    }
}

// ── Initialisation and accessors ─────────────────────────────────

/// Sets the process name and key; only the first call has an effect.
pub fn init(reg: &mut Registry, process_name: &str, proc_key: &str)
    ensures
        final(reg).process() == (if old(reg).process() is None {
            Some((process_name@, proc_key@))
        } else {
            old(reg).process()
        }),
        final(reg).needs() == old(reg).needs(),
        final(reg).touches() == old(reg).touches(),
        final(reg).nodes() == old(reg).nodes(),
{
    if reg.process.is_none() {
        reg.process = Some(ProcessInfo { name: process_name.to_owned(), proc_key: proc_key.to_owned() });
    }
}

/// The process name, once initialised.
pub fn process_name(reg: &Registry) -> (r: Option<String>)
    ensures
        r matches Some(n) ==> reg.process() matches Some(p) && n@ == p.0,
        r is None <==> reg.process() is None,
{
    match &reg.process {
        Some(p) => Some(p.name.clone()),
        None => None,
    }
}

/// The process key, once initialised.
pub fn proc_key(reg: &Registry) -> (r: Option<String>)
    ensures
        r matches Some(k) ==> reg.process() matches Some(p) && k@ == p.1,
        r is None <==> reg.process() is None,
{
    match &reg.process {
        Some(p) => Some(p.proc_key.clone()),
        None => None,
    }
}

// ── needs edges ──────────────────────────────────────────────────

/// Records that `src` is waiting on `dst`.
pub fn edge(reg: &mut Registry, src: &str, dst: &str)
    ensures
        final(reg).needs() == old(reg).needs().insert((src@, dst@)),
        final(reg).touches() == old(reg).touches(),
        final(reg).nodes() == old(reg).nodes(),
        final(reg).process() == old(reg).process(),
{
    reg.edges.insert(src, dst);
}

/// Forgets that `src` is waiting on `dst`.
pub fn remove_edge(reg: &mut Registry, src: &str, dst: &str)
    ensures
        final(reg).needs() == old(reg).needs().remove((src@, dst@)),
        final(reg).touches() == old(reg).touches(),
        final(reg).nodes() == old(reg).nodes(),
        final(reg).process() == old(reg).process(),
{
    reg.edges.remove(src, dst);
}

/// Forgets every wait of `src`.
pub fn remove_edges_from(reg: &mut Registry, src: &str)
    ensures
        final(reg).needs() == old(reg).needs().filter(|e: EdgeView| e.0 != src@),
        final(reg).touches() == old(reg).touches(),
        final(reg).nodes() == old(reg).nodes(),
        final(reg).process() == old(reg).process(),
{
    reg.edges.remove_from(src);
}

/// Forgets every wait on `dst`.
pub fn remove_edges_to(reg: &mut Registry, dst: &str)
    ensures
        final(reg).needs() == old(reg).needs().filter(|e: EdgeView| e.1 != dst@),
        final(reg).touches() == old(reg).touches(),
        final(reg).nodes() == old(reg).nodes(),
        final(reg).process() == old(reg).process(),
{
    reg.edges.remove_to(dst);
}

// ── touches edges ────────────────────────────────────────────────

/// Records that `src` has interacted with `dst`.
pub fn touch_edge(reg: &mut Registry, src: &str, dst: &str)
    ensures
        final(reg).touches() == old(reg).touches().insert((src@, dst@)),
        final(reg).needs() == old(reg).needs(),
        final(reg).nodes() == old(reg).nodes(),
        final(reg).process() == old(reg).process(),
{
    reg.touch_edges.insert(src, dst);
}

/// Forgets the interaction of `src` with `dst`.
pub fn remove_touch_edge(reg: &mut Registry, src: &str, dst: &str)
    ensures
        final(reg).touches() == old(reg).touches().remove((src@, dst@)),
        final(reg).needs() == old(reg).needs(),
        final(reg).nodes() == old(reg).nodes(),
        final(reg).process() == old(reg).process(),
{
    reg.touch_edges.remove(src, dst);
}

/// Forgets every interaction of `src`.
pub fn remove_touch_edges_from(reg: &mut Registry, src: &str)
    ensures
        final(reg).touches() == old(reg).touches().filter(|e: EdgeView| e.0 != src@),
        final(reg).needs() == old(reg).needs(),
        final(reg).nodes() == old(reg).nodes(),
        final(reg).process() == old(reg).process(),
{
    reg.touch_edges.remove_from(src);
}

/// Forgets every interaction with `dst`.
pub fn remove_touch_edges_to(reg: &mut Registry, dst: &str)
    ensures
        final(reg).touches() == old(reg).touches().filter(|e: EdgeView| e.1 != dst@),
        final(reg).needs() == old(reg).needs(),
        final(reg).nodes() == old(reg).nodes(),
        final(reg).process() == old(reg).process(),
{
    reg.touch_edges.remove_to(dst);
}

// ── nodes ────────────────────────────────────────────────────────

/// Registers `node`, or replaces the node with its id while keeping the
/// instant at which that id was first registered.
pub fn register_node(reg: &mut Registry, node: Node, now_ns: u64)
    ensures
        final(reg).nodes() == old(reg).nodes().insert(
            node.id@,
            (
                node@,
                if old(reg).nodes().contains_key(node.id@) {
                    old(reg).nodes()[node.id@].1
                } else {
                    now_ns
                },
            ),
        ),
        final(reg).needs() == old(reg).needs(),
        final(reg).touches() == old(reg).touches(),
        final(reg).process() == old(reg).process(),
{
    match reg.nodes.find(&node.id) {
        Some(i) => reg.nodes.replace_at(i, node),
        None => reg.nodes.push_new(node, now_ns),
    }
}

/// Removes the node with id `id` and every edge that starts or ends at it.
pub fn remove_node(reg: &mut Registry, id: &str)
    ensures
        final(reg).nodes() == old(reg).nodes().remove(id@),
        final(reg).needs() == old(reg).needs().filter(|e: EdgeView| e.0 != id@ && e.1 != id@),
        final(reg).touches() == old(reg).touches().filter(|e: EdgeView| e.0 != id@ && e.1 != id@),
        final(reg).process() == old(reg).process(),
{
    reg.nodes.remove(id);
    reg.edges.remove_touching(id);
    reg.touch_edges.remove_touching(id);
}

// ── Snapshot ─────────────────────────────────────────────────────

/// The node as it appears in a snapshot taken at `now_ns`: requests and
/// responses carry the time elapsed since they were first registered.
pub open spec fn emitted_node(n: NodeView, registered_at: u64, now_ns: u64) -> NodeView {
    if n.kind == NodeKind::Request || n.kind == NodeKind::Response {
        NodeView {
            attrs: inject_elapsed_ns_spec(
                n.attrs,
                if now_ns >= registered_at {
                    (now_ns - registered_at) as u64
                } else {
                    0
                },
            ),
            ..n
        }
    } else {
        n
    }
}

/// The edge of kind `kind` between the endpoints of `e`, with no attributes.
pub open spec fn plain_edge(e: EdgeView, kind: EdgeKind) -> EdgeRecord {
    EdgeRecord { src: e.0, dst: e.1, kind: kind, attrs: "{}"@ }
}

/// Every edge of `set` appears among `edges[lo..hi]` as a plain edge of
/// kind `kind`.
pub open spec fn lists_every_edge(
    edges: Seq<Edge>,
    lo: int,
    hi: int,
    set: Set<EdgeView>,
    kind: EdgeKind,
) -> bool {
    forall|e: EdgeView|
        #![trigger set.contains(e)]
        set.contains(e) ==> exists|i: int| lo <= i < hi && #[trigger] edges[i]@ == plain_edge(e, kind)
}

pub(crate) proof fn lemma_segment_lists_every_edge(
    edges: Seq<Edge>,
    lo: int,
    listed: Seq<EdgeView>,
    set: Set<EdgeView>,
    kind: EdgeKind,
)
    requires
        0 <= lo,
        lo + listed.len() <= edges.len(),
        listed.to_set() == set,
        forall|j: int| 0 <= j < listed.len() ==> #[trigger] edges[lo + j]@ == plain_edge(listed[j], kind),
    ensures
        lists_every_edge(edges, lo, lo + listed.len(), set, kind),
{
    assert forall|e: EdgeView| set.contains(e) implies exists|i: int|
        lo <= i < lo + listed.len() && #[trigger] edges[i]@ == plain_edge(e, kind) by {
        assert(listed.to_set().contains(e));
        assert(listed.contains(e));
        let j = choose|j: int| 0 <= j < listed.len() && listed[j] == e;
        assert(edges[lo + j]@ == plain_edge(listed[j], kind));
    }
}

pub(crate) fn push_plain_edges(out: &mut Vec<Edge>, set: &EdgeSet, kind: EdgeKind)
    ensures
        final(out)@.len() == old(out)@.len() + set@.len(),
        forall|i: int| 0 <= i < old(out)@.len() ==> #[trigger] final(out)@[i] == old(out)@[i],
        forall|i: int|
            0 <= i < set@.len() ==> #[trigger] final(out)@[old(out)@.len() + i]@ == plain_edge(
                set.listed()[i],
                kind,
            ),
        set.listed().to_set() == set@,
        set.listed().no_duplicates(),
        set.listed().len() == set@.len(),
{
    let pairs = set.to_vec();
    proof {
        set.listed().unique_seq_to_set();
    }
    let ghost n0 = out@.len();
    let mut i: usize = 0;
    while i < pairs.len()
        invariant
            i <= pairs.len(),
            pairs@.map_values(|p: (String, String)| pair_view(p)) == set.listed(),
            out@.len() == n0 + i,
            n0 == old(out)@.len(),
            forall|j: int| 0 <= j < n0 ==> #[trigger] out@[j] == old(out)@[j],
            forall|j: int|
                0 <= j < i ==> #[trigger] out@[n0 + j]@ == plain_edge(set.listed()[j], kind),
        decreases pairs.len() - i,
    {
        let attrs = String::from_str("{}");
        assert(pair_view(pairs@[i as int]) == set.listed()[i as int]);
        out.push(Edge { src: pairs[i].0.clone(), dst: pairs[i].1.clone(), kind, attrs_json: attrs });
        i = i + 1;
    }
}

/// The snapshot of the registry at `now_ns`: nothing until the process is
/// initialised; then its registered nodes (requests and responses with their
/// elapsed time), its `needs` edges followed by its `touches` edges.
pub fn emit_graph(reg: &Registry, now_ns: u64) -> (g: GraphSnapshot)
    ensures
        reg.process() is None ==> g.process_name@.len() == 0 && g.proc_key@.len() == 0
            && g.nodes@.len() == 0 && g.edges@.len() == 0,
        g.events is None,
        reg.process() matches Some(p) ==> {
            &&& g.process_name@ == p.0
            &&& g.proc_key@ == p.1
            &&& g.nodes@.map_values(|n: Node| n@.id).to_set() == reg.nodes().dom()
            &&& g.nodes@.len() == reg.nodes().len()
            &&& forall|i: int|
                0 <= i < g.nodes@.len() ==> reg.nodes().contains_key(#[trigger] g.nodes@[i].id@)
                    && g.nodes@[i]@ == emitted_node(
                    reg.nodes()[g.nodes@[i].id@].0,
                    reg.nodes()[g.nodes@[i].id@].1,
                    now_ns,
                )
            &&& g.edges@.len() == reg.needs().len() + reg.touches().len()
            &&& forall|i: int| 0 <= i < reg.needs().len() ==> (#[trigger] g.edges@[i]).kind == EdgeKind::Needs
                && reg.needs().contains((g.edges@[i].src@, g.edges@[i].dst@))
                && g.edges@[i].attrs_json@ == "{}"@
            &&& forall|i: int|
                reg.needs().len() <= i < g.edges@.len() ==> (#[trigger] g.edges@[i]).kind
                    == EdgeKind::Touches && reg.touches().contains(
                    (g.edges@[i].src@, g.edges@[i].dst@),
                ) && g.edges@[i].attrs_json@ == "{}"@
            &&& lists_every_edge(g.edges@, 0, reg.needs().len() as int, reg.needs(), EdgeKind::Needs)
            &&& lists_every_edge(
                g.edges@,
                reg.needs().len() as int,
                g.edges@.len() as int,
                reg.touches(),
                EdgeKind::Touches,
            )
        },
{
    let info = match &reg.process {
        Some(p) => p,
        None => {
            return GraphSnapshot::empty();
        },
    };
    let mut edges: Vec<Edge> = Vec::new();
    push_plain_edges(&mut edges, &reg.edges, EdgeKind::Needs);
    let ghost n1 = edges@.len();
    let ghost e1 = edges@;
    push_plain_edges(&mut edges, &reg.touch_edges, EdgeKind::Touches);
    proof {
        assert forall|j: int| 0 <= j < reg.edges.listed().len() implies #[trigger] edges@[0 + j]@
            == plain_edge(reg.edges.listed()[j], EdgeKind::Needs) by {
            assert(e1[0 + j]@ == plain_edge(reg.edges.listed()[j], EdgeKind::Needs));
            assert(edges@[j] == e1[j]);
        }
        lemma_segment_lists_every_edge(edges@, 0, reg.edges.listed(), reg.needs(), EdgeKind::Needs);
        lemma_segment_lists_every_edge(
            edges@,
            n1 as int,
            reg.touch_edges.listed(),
            reg.touches(),
            EdgeKind::Touches,
        );
        assert forall|i: int| 0 <= i < reg.needs().len() implies (#[trigger] edges@[i]).kind
            == EdgeKind::Needs && reg.needs().contains((edges@[i].src@, edges@[i].dst@))
            && edges@[i].attrs_json@ == "{}"@ by {
            assert(edges@[0 + i]@ == plain_edge(reg.edges.listed()[i], EdgeKind::Needs));
            assert(reg.edges.listed().contains(reg.edges.listed()[i]));
        }
        assert forall|i: int| n1 <= i < edges@.len() implies (#[trigger] edges@[i]).kind
            == EdgeKind::Touches && reg.touches().contains((edges@[i].src@, edges@[i].dst@))
            && edges@[i].attrs_json@ == "{}"@ by {
            let j = i - n1;
            assert(edges@[n1 + j]@ == plain_edge(reg.touch_edges.listed()[j], EdgeKind::Touches));
            assert(reg.touch_edges.listed().contains(reg.touch_edges.listed()[j]));
        }
    }
    let mut nodes: Vec<Node> = Vec::new();
    let count = reg.nodes.len();
    let ghost ids = reg.nodes.listed().map_values(|e: (NodeView, u64)| e.0.id);
    let mut i: usize = 0;
    while i < count
        invariant
            i <= count,
            count == reg.nodes.listed().len(),
            nodes@.len() == i,
            forall|j: int| 0 <= j < i ==> #[trigger] nodes@[j]@.id == ids[j],
            ids == reg.nodes.listed().map_values(|e: (NodeView, u64)| e.0.id),
            forall|j: int|
                0 <= j < i ==> reg.nodes().contains_key(#[trigger] nodes@[j].id@) && nodes@[j]@
                    == emitted_node(
                    reg.nodes()[nodes@[j].id@].0,
                    reg.nodes()[nodes@[j].id@].1,
                    now_ns,
                ),
        decreases count - i,
    {
        let mut node = reg.nodes.node_at(i);
        let registered_at = reg.nodes.stamp_at(i);
        if node.kind == NodeKind::Request || node.kind == NodeKind::Response {
            let elapsed: u64 = if now_ns >= registered_at {
                now_ns - registered_at
            } else {
                0
            };
            node.attrs_json = inject_elapsed_ns(node.attrs_json.as_str(), elapsed);
        }
        nodes.push(node);
        i = i + 1;
    }
    proof {
        assert(nodes@.map_values(|n: Node| n@.id) =~= reg.nodes.listed().map_values(
            |e: (NodeView, u64)| e.0.id,
        ));
    }
    GraphSnapshot {
        process_name: info.name.clone(),
        proc_key: info.proc_key.clone(),
        nodes,
        edges,
        events: None,
    }
}

} // verus!
