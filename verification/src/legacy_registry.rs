//! The legacy registry: `needs`, `touches` and `spawned` edges, nodes whose
//! attributes always begin with their creation time, and a bounded buffer of
//! events drained by each snapshot.
//!
//! Parsed JSON members (`created_at`, `source`) and readings of the clock are
//! handed in by the caller.

use std::collections::VecDeque;
use vstd::prelude::*;
use crate::attrs::{
    attrs_with_created_at, attrs_with_created_at_spec, strip_created_at_prefix,
    strip_created_at_prefix_spec, strip_slice_ok,
};
use crate::edge_set::{EdgeSet, EdgeView, pair_view};
use crate::model::{
    Edge, EdgeKind, EdgeRecord, Event, GraphSnapshot, Node, NodeKind, NodeView, copy_opt, opt_view,
};
use crate::node_table::NodeTable;
use crate::registry::{
    lemma_segment_lists_every_edge, lists_every_edge, plain_edge, push_plain_edges,
};

verus! {

broadcast use vstd::string::group_string_axioms;

/// The number of events the buffer retains.
pub const EVENT_BUFFER_CAPACITY: usize = 4096;

// ── Event buffer ─────────────────────────────────────────────────

/// The events after one more is recorded: when the buffer is full the oldest
/// is dropped first.
pub open spec fn record_into(s: Seq<Event>, e: Event) -> Seq<Event> {
    if s.len() >= EVENT_BUFFER_CAPACITY {
        s.drop_first().push(e)
    } else {
        s.push(e)
    }
}

/// The buffer after recording each of `all`, in order, into an empty buffer.
pub open spec fn record_all(all: Seq<Event>) -> Seq<Event>
    decreases all.len(),
{
    if all.len() == 0 {
        Seq::empty()
    } else {
        record_into(record_all(all.drop_last()), all.last())
    }
}

/// A bounded FIFO of events: at most `EVENT_BUFFER_CAPACITY`, oldest first.
pub struct EventBuffer {
    events: VecDeque<Event>,
}

impl EventBuffer {
    #[verifier::type_invariant]
    spec fn bounded(&self) -> bool {
        self.events.len() <= EVENT_BUFFER_CAPACITY
    }
}

impl View for EventBuffer {
    type V = Seq<Event>;

    closed spec fn view(&self) -> Seq<Event> {
        self.events@
    }
}

impl EventBuffer {
    /// An empty buffer.
    pub fn new() -> (b: EventBuffer)
        ensures
            b@ == Seq::<Event>::empty(),
    {
        EventBuffer { events: VecDeque::new() }
    }

    /// The buffer never holds more than its capacity.
    pub fn len(&self) -> (n: usize)
        ensures
            n == self@.len(),
            n <= EVENT_BUFFER_CAPACITY,
    {
        proof {
            use_type_invariant(self);
        }
        self.events.len()
    }

    /// Appends `e`, evicting the oldest event when the buffer is full.
    pub fn record(&mut self, e: Event)
        ensures
            final(self)@ == record_into(old(self)@, e),
            final(self)@.len() <= EVENT_BUFFER_CAPACITY,
    {
        proof {
            use_type_invariant(&*self);
        }
        let mut events: VecDeque<Event> = VecDeque::new();
        std::mem::swap(&mut events, &mut self.events);
        if events.len() == EVENT_BUFFER_CAPACITY {
            let _ = events.pop_front();
            assert(events@ =~= old(self)@.drop_first());
        }
        events.push_back(e);
        self.events = events;
    }

    /// Removes and returns every event, oldest first; `None` when there is none.
    pub fn take(&mut self) -> (r: Option<Vec<Event>>)
        ensures
            old(self)@.len() == 0 ==> r is None,
            old(self)@.len() > 0 ==> (r matches Some(v) && v@ == old(self)@),
            final(self)@ == Seq::<Event>::empty(),
    {
        if self.events.len() == 0 {
            return None;
        }
        let mut drained: VecDeque<Event> = VecDeque::new();
        std::mem::swap(&mut drained, &mut self.events);
        let ghost all = drained@;
        let mut events: Vec<Event> = Vec::new();
        while drained.len() > 0
            invariant
                events@ + drained@ == all,
            decreases drained@.len(),
        {
            let ghost before = drained@;
            match drained.pop_front() {
                Some(e) => {
                    events.push(e);
                    assert(events@ + drained@ =~= all);
                },
                None => {},
            }
        }
        assert(events@ =~= all);
        Some(events)
    }
}

/// Law: whatever was recorded, the buffer holds at most its capacity, and it
/// holds exactly the most recent events, oldest first.
pub proof fn lemma_event_buffer_keeps_latest(all: Seq<Event>)
    ensures
        record_all(all).len() <= EVENT_BUFFER_CAPACITY,
        record_all(all) == all.subrange(
            if all.len() > EVENT_BUFFER_CAPACITY {
                all.len() - EVENT_BUFFER_CAPACITY
            } else {
                0
            },
            all.len() as int,
        ),
    decreases all.len(),
{
    if all.len() > 0 {
        let prev = all.drop_last();
        lemma_event_buffer_keeps_latest(prev);
        let n = all.len() as int;
        let c = EVENT_BUFFER_CAPACITY as int;
        let lo_prev = if n - 1 > c { n - 1 - c } else { 0 };
        let lo = if n > c { n - c } else { 0 };
        let r = record_all(prev);
        assert(r == prev.subrange(lo_prev, n - 1));
        if r.len() >= c {
            assert(r.drop_first().push(all.last()) =~= all.subrange(lo, n));
        } else {
            assert(r.push(all.last()) =~= all.subrange(lo, n));
        }
    } else {
        assert(all.subrange(0, 0) =~= Seq::<Event>::empty());
    }
}

// ── Registry ─────────────────────────────────────────────────────

/// Name and key of the process, set once.
pub struct LegacyProcessInfo {
    pub name: String,
    pub proc_key: String,
}

/// The legacy registry of one process.
pub struct LegacyRegistry {
    process: Option<LegacyProcessInfo>,
    edges: EdgeSet,
    touch_edges: EdgeSet,
    spawned_edges: EdgeSet,
    nodes: NodeTable<i64>,
    events: EventBuffer,
}

impl LegacyRegistry {
    /// Name and key of the process, once initialised.
    pub closed spec fn process(&self) -> Option<(Seq<char>, Seq<char>)> {
        match self.process {
            Some(p) => Some((p.name@, p.proc_key@)),
            None => None,
        }
    }

    /// The `needs` edges.
    pub closed spec fn needs(&self) -> Set<EdgeView> {
        self.edges@
    }

    /// The `touches` edges.
    pub closed spec fn touches(&self) -> Set<EdgeView> {
        self.touch_edges@
    }

    /// The `spawned` edges.
    pub closed spec fn spawned(&self) -> Set<EdgeView> {
        self.spawned_edges@
    }

    /// The registered nodes with the creation time each id was first given.
    pub closed spec fn nodes(&self) -> Map<Seq<char>, (NodeView, i64)> {
        self.nodes@
    }

    /// The buffered events, oldest first.
    pub closed spec fn events(&self) -> Seq<Event> {
        self.events@
    }

    /// An empty registry, not yet initialised.
    pub fn new() -> (r: LegacyRegistry)
        ensures
            r.process() is None,
            r.needs() == Set::<EdgeView>::empty(),
            r.touches() == Set::<EdgeView>::empty(),
            r.spawned() == Set::<EdgeView>::empty(),
            r.nodes() == Map::<Seq<char>, (NodeView, i64)>::empty(),
            r.events() == Seq::<Event>::empty(),
    {
        LegacyRegistry {
            process: None,
            edges: EdgeSet::new(),
            touch_edges: EdgeSet::new(),
            spawned_edges: EdgeSet::new(),
            nodes: NodeTable::new(),
            events: EventBuffer::new(),
        }
    }
}

/// Everything but the edges, nodes and events is unchanged.
pub open spec fn same_except_edges(a: &LegacyRegistry, b: &LegacyRegistry) -> bool {
    &&& a.process() == b.process()
    &&& a.nodes() == b.nodes()
    &&& a.events() == b.events()
}

/// Sets the process name and key; only the first call has an effect.
pub fn init(reg: &mut LegacyRegistry, process_name: &str, proc_key: &str)
    ensures
        final(reg).process() == (if old(reg).process() is None {
            Some((process_name@, proc_key@))
        } else {
            old(reg).process()
        }),
        final(reg).needs() == old(reg).needs(),
        final(reg).touches() == old(reg).touches(),
        final(reg).spawned() == old(reg).spawned(),
        final(reg).nodes() == old(reg).nodes(),
        final(reg).events() == old(reg).events(),
{
    if reg.process.is_none() {
        reg.process = Some(
            LegacyProcessInfo { name: owned(process_name), proc_key: owned(proc_key) },
        );
    }
}

fn owned(s: &str) -> (r: String)
    ensures
        r@ == s@,
{
    s.to_owned()
}

// ── Edges ────────────────────────────────────────────────────────

/// Records that `src` is waiting on `dst`.
pub fn edge(reg: &mut LegacyRegistry, src: &str, dst: &str)
    ensures
        final(reg).needs() == old(reg).needs().insert((src@, dst@)),
        final(reg).touches() == old(reg).touches(),
        final(reg).spawned() == old(reg).spawned(),
        same_except_edges(&*final(reg), &*old(reg)),
{
    reg.edges.insert(src, dst);
}

/// Forgets that `src` is waiting on `dst`.
pub fn remove_edge(reg: &mut LegacyRegistry, src: &str, dst: &str)
    ensures
        final(reg).needs() == old(reg).needs().remove((src@, dst@)),
        final(reg).touches() == old(reg).touches(),
        final(reg).spawned() == old(reg).spawned(),
        same_except_edges(&*final(reg), &*old(reg)),
{
    reg.edges.remove(src, dst);
}

/// Forgets every wait of `src`.
pub fn remove_edges_from(reg: &mut LegacyRegistry, src: &str)
    ensures
        final(reg).needs() == old(reg).needs().filter(|e: EdgeView| e.0 != src@),
        final(reg).touches() == old(reg).touches(),
        final(reg).spawned() == old(reg).spawned(),
        same_except_edges(&*final(reg), &*old(reg)),
{
    reg.edges.remove_from(src);
}

/// Forgets every wait on `dst`.
pub fn remove_edges_to(reg: &mut LegacyRegistry, dst: &str)
    ensures
        final(reg).needs() == old(reg).needs().filter(|e: EdgeView| e.1 != dst@),
        final(reg).touches() == old(reg).touches(),
        final(reg).spawned() == old(reg).spawned(),
        same_except_edges(&*final(reg), &*old(reg)),
{
    reg.edges.remove_to(dst);
}

/// Records that `src` has interacted with `dst`.
pub fn touch_edge(reg: &mut LegacyRegistry, src: &str, dst: &str)
    ensures
        final(reg).touches() == old(reg).touches().insert((src@, dst@)),
        final(reg).needs() == old(reg).needs(),
        final(reg).spawned() == old(reg).spawned(),
        same_except_edges(&*final(reg), &*old(reg)),
{
    reg.touch_edges.insert(src, dst);
}

/// Forgets the interaction of `src` with `dst`.
pub fn remove_touch_edge(reg: &mut LegacyRegistry, src: &str, dst: &str)
    ensures
        final(reg).touches() == old(reg).touches().remove((src@, dst@)),
        final(reg).needs() == old(reg).needs(),
        final(reg).spawned() == old(reg).spawned(),
        same_except_edges(&*final(reg), &*old(reg)),
{
    reg.touch_edges.remove(src, dst);
}

/// Forgets every interaction of `src`.
pub fn remove_touch_edges_from(reg: &mut LegacyRegistry, src: &str)
    ensures
        final(reg).touches() == old(reg).touches().filter(|e: EdgeView| e.0 != src@),
        final(reg).needs() == old(reg).needs(),
        final(reg).spawned() == old(reg).spawned(),
        same_except_edges(&*final(reg), &*old(reg)),
{
    reg.touch_edges.remove_from(src);
}

/// Forgets every interaction with `dst`.
pub fn remove_touch_edges_to(reg: &mut LegacyRegistry, dst: &str)
    ensures
        final(reg).touches() == old(reg).touches().filter(|e: EdgeView| e.1 != dst@),
        final(reg).needs() == old(reg).needs(),
        final(reg).spawned() == old(reg).spawned(),
        same_except_edges(&*final(reg), &*old(reg)),
{
    reg.touch_edges.remove_to(dst);
}

// ── How operations change the spawned edges ──────────────────────

/// A change to the spawned edges, as `(what, a, b)`: `1` adds the spawn
/// `(a, b)`, `2` forgets every spawn of `b`, `3` forgets every spawn with
/// `a` at either end, anything else changes nothing.
pub type SpawnChange = (int, Seq<char>, Seq<char>);

/// The change `spawn_edge(src, dst)` makes.
pub open spec fn spawn_change(src: Seq<char>, dst: Seq<char>) -> SpawnChange {
    (1, src, dst)
}

/// The change `remove_spawn_edges_to(dst)` makes.
pub open spec fn remove_spawns_to_change(dst: Seq<char>) -> SpawnChange {
    (2, seq![], dst)
}

/// The change `remove_node(id)` makes.
pub open spec fn remove_node_change(id: Seq<char>) -> SpawnChange {
    (3, id, seq![])
}

/// The change every other operation makes: none.
pub open spec fn no_spawn_change() -> SpawnChange {
    (0, seq![], seq![])
}

/// The spawned edges after a change.
pub open spec fn spawned_after(s: Set<EdgeView>, c: SpawnChange) -> Set<EdgeView> {
    if c.0 == 1 {
        s.insert((c.1, c.2))
    } else if c.0 == 2 {
        s.filter(|e: EdgeView| e.1 != c.2)
    } else if c.0 == 3 {
        s.filter(|e: EdgeView| e.0 != c.1 && e.1 != c.1)
    } else {
        s
    }
}

/// The spawned edges after the changes, in order.
pub open spec fn spawned_after_all(s: Set<EdgeView>, cs: Seq<SpawnChange>) -> Set<EdgeView>
    decreases cs.len(),
{
    if cs.len() == 0 {
        s
    } else {
        spawned_after(spawned_after_all(s, cs.drop_last()), cs.last())
    }
}

/// The change forgets the spawn `e`.
pub open spec fn drops_spawn(c: SpawnChange, e: EdgeView) -> bool {
    (c.0 == 2 && c.2 == e.1) || (c.0 == 3 && (c.1 == e.0 || c.1 == e.1))
}

/// Law: a recorded spawn stays until a `remove_spawn_edges_to` of its
/// target or a `remove_node` of either end; every other operation (the
/// `needs` and `touches` edits among them) leaves it, as each operation's
/// contract states its change to the spawned edges as one of these.
pub proof fn lemma_spawn_stays(s: Set<EdgeView>, cs: Seq<SpawnChange>, e: EdgeView)
    requires
        s.contains(e),
        forall|k: int| 0 <= k < cs.len() ==> !drops_spawn(#[trigger] cs[k], e),
    ensures
        spawned_after_all(s, cs).contains(e),
    decreases cs.len(),
{
    if cs.len() > 0 {
        let rest = cs.drop_last();
        assert forall|k: int| 0 <= k < rest.len() implies !drops_spawn(#[trigger] rest[k], e) by {
            assert(rest[k] == cs[k]);
        }
        lemma_spawn_stays(s, rest, e);
        assert(!drops_spawn(cs[cs.len() - 1], e));
    }
}

/// Records that `src` spawned `dst`.
pub fn spawn_edge(reg: &mut LegacyRegistry, src: &str, dst: &str)
    ensures
        final(reg).spawned() == old(reg).spawned().insert((src@, dst@)),
        final(reg).spawned() == spawned_after(old(reg).spawned(), spawn_change(src@, dst@)),
        final(reg).needs() == old(reg).needs(),
        final(reg).touches() == old(reg).touches(),
        same_except_edges(&*final(reg), &*old(reg)),
{
    reg.spawned_edges.insert(src, dst);
}

/// Forgets every spawn of `dst`.
pub fn remove_spawn_edges_to(reg: &mut LegacyRegistry, dst: &str)
    ensures
        final(reg).spawned() == old(reg).spawned().filter(|e: EdgeView| e.1 != dst@),
        final(reg).spawned() == spawned_after(old(reg).spawned(), remove_spawns_to_change(dst@)),
        final(reg).needs() == old(reg).needs(),
        final(reg).touches() == old(reg).touches(),
        same_except_edges(&*final(reg), &*old(reg)),
{
    reg.spawned_edges.remove_to(dst);
}

// ── Nodes ────────────────────────────────────────────────────────

/// The creation time a node is given: its own when positive, else `now_ns`.
pub open spec fn canonical_created_at(created_at: i64, now_ns: i64) -> i64 {
    if created_at > 0 {
        created_at
    } else {
        now_ns
    }
}

/// The node `make_node` builds.
pub open spec fn made_node(
    id: Seq<char>,
    kind: NodeKind,
    label: Option<Seq<char>>,
    attrs: Seq<char>,
    created_at: i64,
    source: Option<Seq<char>>,
    now_ns: i64,
) -> NodeView {
    NodeView {
        id: id,
        kind: kind,
        label: label,
        attrs: attrs_with_created_at_spec(attrs, canonical_created_at(created_at, now_ns), source),
    }
}

/// A node whose attributes begin with its creation time (`created_at` when
/// positive, else `now_ns`) and name a source. `source` is the `source`
/// member parsed from `attrs_json`.
pub fn make_node(
    id: String,
    kind: NodeKind,
    label: Option<String>,
    attrs_json: String,
    created_at: i64,
    source: Option<String>,
    now_ns: i64,
) -> (n: Node)
    ensures
        n@ == made_node(id@, kind, opt_view(label), attrs_json@, created_at, opt_view(source), now_ns),
{
    let canonical = if created_at > 0 {
        created_at
    } else {
        now_ns
    };
    let attrs = attrs_with_created_at(attrs_json, canonical, source);
    Node { id, kind, label, attrs_json: attrs }
}

/// The nodes after `register_node`: the attributes are stripped of their
/// `created_at` prefix and re-canonicalised with the creation time of the
/// id's first registration, or for a new id with the parsed `created_at`
/// (else `now_ns`), which is also what is kept for the id.
pub open spec fn registered(
    nodes: Map<Seq<char>, (NodeView, i64)>,
    node: NodeView,
    incoming_created_at: Option<i64>,
    source: Option<Seq<char>>,
    now_ns: i64,
) -> Map<Seq<char>, (NodeView, i64)> {
    let raw = strip_created_at_prefix_spec(node.attrs);
    let stamp = if nodes.contains_key(node.id) {
        nodes[node.id].1
    } else {
        match incoming_created_at {
            Some(c) => c,
            None => now_ns,
        }
    };
    nodes.insert(
        node.id,
        (made_node(node.id, node.kind, node.label, raw, stamp, source, now_ns), stamp),
    )
}

/// Registers `node`, keeping the creation time of the id's first
/// registration. `incoming_created_at` is the `created_at` member parsed from
/// `node.attrs_json`; `source` is the `source` member parsed from the same
/// attributes with their `created_at` prefix stripped; `now_ns` reads the
/// wall clock.
pub fn register_node(
    reg: &mut LegacyRegistry,
    node: Node,
    incoming_created_at: Option<i64>,
    source: Option<String>,
    now_ns: i64,
)
    requires
        strip_slice_ok(node.attrs_json@),
    ensures
        final(reg).nodes() == registered(
            old(reg).nodes(),
            node@,
            incoming_created_at,
            opt_view(source),
            now_ns,
        ),
        final(reg).needs() == old(reg).needs(),
        final(reg).touches() == old(reg).touches(),
        final(reg).spawned() == old(reg).spawned(),
        final(reg).process() == old(reg).process(),
        final(reg).events() == old(reg).events(),
{
    let ghost nv = node@;
    let Node { id, kind, label, attrs_json } = node;
    let raw = strip_created_at_prefix(attrs_json);
    match reg.nodes.find(&id) {
        Some(i) => {
            let stamp = reg.nodes.stamp_at(i);
            let made = make_node(id, kind, label, raw, stamp, source, now_ns);
            reg.nodes.replace_at(i, made);
        },
        None => {
            let stamp = match incoming_created_at {
                Some(c) => c,
                None => now_ns,
            };
            let made = make_node(id, kind, label, raw, stamp, source, now_ns);
            reg.nodes.push_new(made, stamp);
        },
    }
}

/// Law: registering the same id twice keeps the creation time of the first
/// registration, both as the kept stamp and in the node's attributes.
pub proof fn lemma_register_preserves_first_created_at(
    nodes: Map<Seq<char>, (NodeView, i64)>,
    first: NodeView,
    first_created_at: Option<i64>,
    first_source: Option<Seq<char>>,
    first_now: i64,
    second: NodeView,
    second_created_at: Option<i64>,
    second_source: Option<Seq<char>>,
    second_now: i64,
)
    requires
        !nodes.contains_key(first.id),
        second.id == first.id,
    ensures
        ({
            let after_first = registered(nodes, first, first_created_at, first_source, first_now);
            let after_second = registered(
                after_first,
                second,
                second_created_at,
                second_source,
                second_now,
            );
            let stamp = match first_created_at {
                Some(c) => c,
                None => first_now,
            };
            &&& after_second[first.id].1 == stamp
            &&& after_second[first.id].0 == made_node(
                second.id,
                second.kind,
                second.label,
                strip_created_at_prefix_spec(second.attrs),
                stamp,
                second_source,
                second_now,
            )
        }),
{
}

/// Removes the node with id `id` and every edge that starts or ends at it.
pub fn remove_node(reg: &mut LegacyRegistry, id: &str)
    ensures
        final(reg).nodes() == old(reg).nodes().remove(id@),
        final(reg).needs() == old(reg).needs().filter(|e: EdgeView| e.0 != id@ && e.1 != id@),
        final(reg).touches() == old(reg).touches().filter(|e: EdgeView| e.0 != id@ && e.1 != id@),
        final(reg).spawned() == old(reg).spawned().filter(|e: EdgeView| e.0 != id@ && e.1 != id@),
        final(reg).spawned() == spawned_after(old(reg).spawned(), remove_node_change(id@)),
        final(reg).process() == old(reg).process(),
        final(reg).events() == old(reg).events(),
{
    reg.nodes.remove(id);
    reg.edges.remove_touching(id);
    reg.touch_edges.remove_touching(id);
    reg.spawned_edges.remove_touching(id);
}

// ── Events ───────────────────────────────────────────────────────

/// Records an event on `entity_id` once the process is initialised. The
/// event's id, timestamp and parent entity (the top of the caller's stack)
/// are provided by the caller.
pub fn record_event(
    reg: &mut LegacyRegistry,
    entity_id: &str,
    name: &str,
    attrs_json: String,
    event_id: String,
    ts_ns: u64,
    parent_entity_id: Option<String>,
)
    ensures
        old(reg).process() is None ==> final(reg).events() == old(reg).events(),
        old(reg).process() matches Some(p) ==> final(reg).events().len() > 0 && final(reg).events()
            == record_into(old(reg).events(), final(reg).events().last()) && ({
            let e = final(reg).events().last();
            &&& e.id@ == event_id@
            &&& e.ts_ns == ts_ns
            &&& e.proc_key@ == p.1
            &&& e.entity_id@ == entity_id@
            &&& e.name@ == name@
            &&& opt_view(e.parent_entity_id) == opt_view(parent_entity_id)
            &&& e.attrs_json@ == attrs_json@
        }),
        final(reg).events().len() <= EVENT_BUFFER_CAPACITY,
        final(reg).process() == old(reg).process(),
        final(reg).nodes() == old(reg).nodes(),
        final(reg).needs() == old(reg).needs(),
        final(reg).touches() == old(reg).touches(),
        final(reg).spawned() == old(reg).spawned(),
{
    let _ = reg.events.len();
    let proc_key = match &reg.process {
        Some(info) => info.proc_key.clone(),
        None => {
            return;
        },
    };
    let event = Event {
        id: event_id,
        ts_ns,
        proc_key,
        entity_id: entity_id.to_owned(),
        name: name.to_owned(),
        parent_entity_id,
        attrs_json,
    };
    reg.events.record(event);
}

/// Removes and returns the buffered events, oldest first; `None` when there
/// is none.
pub fn take_events(reg: &mut LegacyRegistry) -> (r: Option<Vec<Event>>)
    ensures
        old(reg).events().len() == 0 ==> r is None,
        old(reg).events().len() > 0 ==> (r matches Some(v) && v@ == old(reg).events()),
        final(reg).events() == Seq::<Event>::empty(),
        final(reg).process() == old(reg).process(),
        final(reg).nodes() == old(reg).nodes(),
        final(reg).needs() == old(reg).needs(),
        final(reg).touches() == old(reg).touches(),
        final(reg).spawned() == old(reg).spawned(),
{
    reg.events.take()
}

// ── Snapshot ─────────────────────────────────────────────────────

/// The snapshot of the registry: nothing until the process is initialised;
/// then its nodes, its `needs`, `touches` and `spawned` edges (in that order)
/// and the buffered events, which it drains.
pub fn emit_graph(reg: &mut LegacyRegistry) -> (g: GraphSnapshot)
    ensures
        old(reg).process() is None ==> g.process_name@.len() == 0 && g.proc_key@.len() == 0
            && g.nodes@.len() == 0 && g.edges@.len() == 0 && g.events is None && final(reg).events()
            == old(reg).events(),
        old(reg).process() matches Some(p) ==> {
            let n1 = old(reg).needs().len() as int;
            let n2 = n1 + old(reg).touches().len();
            &&& g.process_name@ == p.0
            &&& g.proc_key@ == p.1
            &&& g.nodes@.map_values(|n: Node| n@.id).to_set() == old(reg).nodes().dom()
            &&& g.nodes@.len() == old(reg).nodes().len()
            &&& forall|i: int|
                0 <= i < g.nodes@.len() ==> old(reg).nodes().contains_key(#[trigger] g.nodes@[i].id@)
                    && g.nodes@[i]@ == old(reg).nodes()[g.nodes@[i].id@].0
            &&& g.edges@.len() == n2 + old(reg).spawned().len()
            &&& forall|i: int|
                0 <= i < n1 ==> (#[trigger] g.edges@[i]).kind == EdgeKind::Needs && old(
                    reg,
                ).needs().contains((g.edges@[i].src@, g.edges@[i].dst@))
            &&& forall|i: int|
                n1 <= i < n2 ==> (#[trigger] g.edges@[i]).kind == EdgeKind::Touches && old(
                    reg,
                ).touches().contains((g.edges@[i].src@, g.edges@[i].dst@))
            &&& forall|i: int|
                n2 <= i < g.edges@.len() ==> (#[trigger] g.edges@[i]).kind == EdgeKind::Spawned
                    && old(reg).spawned().contains((g.edges@[i].src@, g.edges@[i].dst@))
            &&& forall|i: int| 0 <= i < g.edges@.len() ==> (#[trigger] g.edges@[i]).attrs_json@ == "{}"@
            &&& lists_every_edge(g.edges@, 0, n1, old(reg).needs(), EdgeKind::Needs)
            &&& lists_every_edge(g.edges@, n1, n2, old(reg).touches(), EdgeKind::Touches)
            &&& lists_every_edge(
                g.edges@,
                n2,
                g.edges@.len() as int,
                old(reg).spawned(),
                EdgeKind::Spawned,
            )
            &&& old(reg).events().len() == 0 ==> g.events is None
            &&& old(reg).events().len() > 0 ==> (g.events matches Some(v) && v@ == old(reg).events())
            &&& final(reg).events() == Seq::<Event>::empty()
        },
        final(reg).process() == old(reg).process(),
        final(reg).nodes() == old(reg).nodes(),
        final(reg).needs() == old(reg).needs(),
        final(reg).touches() == old(reg).touches(),
        final(reg).spawned() == old(reg).spawned(),
{
    let (name, key) = match &reg.process {
        Some(p) => (p.name.clone(), p.proc_key.clone()),
        None => {
            return GraphSnapshot::empty();
        },
    };
    let mut edges: Vec<Edge> = Vec::new();
    push_plain_edges(&mut edges, &reg.edges, EdgeKind::Needs);
    let ghost n1 = edges@.len();
    let ghost e1 = edges@;
    push_plain_edges(&mut edges, &reg.touch_edges, EdgeKind::Touches);
    let ghost n2 = edges@.len();
    let ghost e2 = edges@;
    push_plain_edges(&mut edges, &reg.spawned_edges, EdgeKind::Spawned);
    proof {
        assert forall|j: int| 0 <= j < reg.edges.listed().len() implies #[trigger] edges@[0 + j]@
            == plain_edge(reg.edges.listed()[j], EdgeKind::Needs) by {
            assert(e1[0 + j]@ == plain_edge(reg.edges.listed()[j], EdgeKind::Needs));
            assert(e2[j] == e1[j]);
            assert(edges@[j] == e2[j]);
        }
        assert forall|j: int| 0 <= j < reg.touch_edges.listed().len() implies #[trigger] edges@[n1
            + j]@ == plain_edge(reg.touch_edges.listed()[j], EdgeKind::Touches) by {
            assert(e2[n1 + j]@ == plain_edge(reg.touch_edges.listed()[j], EdgeKind::Touches));
            assert(edges@[n1 + j] == e2[n1 + j]);
        }
        lemma_segment_lists_every_edge(edges@, 0, reg.edges.listed(), reg.needs(), EdgeKind::Needs);
        lemma_segment_lists_every_edge(
            edges@,
            n1 as int,
            reg.touch_edges.listed(),
            reg.touches(),
            EdgeKind::Touches,
        );
        lemma_segment_lists_every_edge(
            edges@,
            n2 as int,
            reg.spawned_edges.listed(),
            reg.spawned(),
            EdgeKind::Spawned,
        );
        assert forall|i: int| 0 <= i < n1 implies (#[trigger] edges@[i]).kind == EdgeKind::Needs
            && reg.needs().contains((edges@[i].src@, edges@[i].dst@)) && edges@[i].attrs_json@
            == "{}"@ by {
            assert(edges@[0 + i]@ == plain_edge(reg.edges.listed()[i], EdgeKind::Needs));
            assert(reg.edges.listed().contains(reg.edges.listed()[i]));
        }
        assert forall|i: int| n1 <= i < n2 implies (#[trigger] edges@[i]).kind == EdgeKind::Touches
            && reg.touches().contains((edges@[i].src@, edges@[i].dst@)) && edges@[i].attrs_json@
            == "{}"@ by {
            let j = i - n1;
            assert(edges@[n1 + j]@ == plain_edge(reg.touch_edges.listed()[j], EdgeKind::Touches));
            assert(reg.touch_edges.listed().contains(reg.touch_edges.listed()[j]));
        }
        assert forall|i: int| n2 <= i < edges@.len() implies (#[trigger] edges@[i]).kind
            == EdgeKind::Spawned && reg.spawned().contains((edges@[i].src@, edges@[i].dst@))
            && edges@[i].attrs_json@ == "{}"@ by {
            let j = i - n2;
            assert(edges@[n2 + j]@ == plain_edge(reg.spawned_edges.listed()[j], EdgeKind::Spawned));
            assert(reg.spawned_edges.listed().contains(reg.spawned_edges.listed()[j]));
        }
    }
    let mut nodes: Vec<Node> = Vec::new();
    let count = reg.nodes.len();
    let ghost ids = reg.nodes.listed().map_values(|e: (NodeView, i64)| e.0.id);
    let mut i: usize = 0;
    while i < count
        invariant
            i <= count,
            count == reg.nodes.listed().len(),
            nodes@.len() == i,
            ids == reg.nodes.listed().map_values(|e: (NodeView, i64)| e.0.id),
            forall|j: int| 0 <= j < i ==> #[trigger] nodes@[j]@.id == ids[j],
            forall|j: int|
                0 <= j < i ==> reg.nodes().contains_key(#[trigger] nodes@[j].id@) && nodes@[j]@
                    == reg.nodes()[nodes@[j].id@].0,
        decreases count - i,
    {
        let node = reg.nodes.node_at(i);
        nodes.push(node);
        i = i + 1;
    }
    proof {
        assert(nodes@.map_values(|n: Node| n@.id) =~= ids);
    }
    let events = reg.events.take();
    GraphSnapshot { process_name: name, proc_key: key, nodes, edges, events }
}

/// The number of nodes of kind `kind`.
pub open spec fn nodes_of_kind(nodes: Seq<Node>, kind: NodeKind) -> nat {
    nodes.filter(|n: Node| n.kind == kind).len()
}

/// The number of edges of kind `kind`.
pub open spec fn edges_of_kind(edges: Seq<Edge>, kind: EdgeKind) -> nat {
    edges.filter(|e: Edge| e.kind == kind).len()
}

/// Counts the nodes of kind `kind` (the per-kind tallies of a snapshot).
pub fn count_nodes_of_kind(nodes: &Vec<Node>, kind: NodeKind) -> (n: usize)
    ensures
        n == nodes_of_kind(nodes@, kind),
{
    let mut n: usize = 0;
    let mut i: usize = 0;
    while i < nodes.len()
        invariant
            i <= nodes.len(),
            n == nodes_of_kind(nodes@.subrange(0, i as int), kind),
            n <= i,
        decreases nodes.len() - i,
    {
        proof {
            assert(nodes@.subrange(0, i + 1) =~= nodes@.subrange(0, i as int).push(nodes@[i as int]));
            nodes@.subrange(0, i as int).lemma_filter_push(nodes@[i as int], |x: Node| x.kind == kind);
        }
        if nodes[i].kind == kind {
            n = n + 1;
        }
        i = i + 1;
    }
    assert(nodes@.subrange(0, i as int) =~= nodes@);
    n
}

/// Counts the edges of kind `kind`.
pub fn count_edges_of_kind(edges: &Vec<Edge>, kind: EdgeKind) -> (n: usize)
    ensures
        n == edges_of_kind(edges@, kind),
{
    let mut n: usize = 0;
    let mut i: usize = 0;
    while i < edges.len()
        invariant
            i <= edges.len(),
            n == edges_of_kind(edges@.subrange(0, i as int), kind),
            n <= i,
        decreases edges.len() - i,
    {
        proof {
            assert(edges@.subrange(0, i + 1) =~= edges@.subrange(0, i as int).push(edges@[i as int]));
            edges@.subrange(0, i as int).lemma_filter_push(edges@[i as int], |x: Edge| x.kind == kind);
        }
        if edges[i].kind == kind {
            n = n + 1;
        }
        i = i + 1;
    }
    assert(edges@.subrange(0, i as int) =~= edges@);
    n
}

/// Whether a parsed `created_at` satisfies the snapshot invariant.
pub open spec fn has_canonical_created_at(parsed: Option<i64>) -> bool {
    parsed matches Some(c) && c > 0
}

/// The first node whose parsed `created_at` is missing or not positive; every
/// emitted node must carry one. `parsed[i]` is the `created_at` member parsed
/// from the attributes of node `i`.
pub fn first_missing_created_at(parsed: &Vec<Option<i64>>) -> (r: Option<usize>)
    ensures
        r matches Some(i) ==> i < parsed.len() && !has_canonical_created_at(parsed@[i as int])
            && forall|j: int| 0 <= j < i ==> has_canonical_created_at(parsed@[j]),
        r is None ==> forall|j: int| 0 <= j < parsed.len() ==> has_canonical_created_at(parsed@[j]),
{
    let mut i: usize = 0;
    while i < parsed.len()
        invariant
            i <= parsed.len(),
            forall|j: int| 0 <= j < i ==> has_canonical_created_at(parsed@[j]),
        decreases parsed.len() - i,
    {
        match parsed[i] {
            Some(c) => {
                if c <= 0 {
                    return Some(i);
                }
            },
            None => {
                return Some(i);
            },
        }
        i = i + 1;
    }
    None
}

} // verus!
