//! Sleeps, intervals and timeouts as graph nodes: labels, the `needs` edge
//! a pending timer holds from the future that awaits it, and the registries
//! of live timers.

use vstd::prelude::*;
use crate::edge_set::EdgeView;
use crate::json::{json_quoted, push_number_member, push_string_member};
use crate::model::{Node, NodeKind, NodeView, opt_view};
use crate::registry::{Registry, edge, remove_edge};
use crate::text::{chars_of, decimal, extend_str, push_decimal, string_of};

verus! {

broadcast use vstd::string::group_string_axioms;

// ── Labels and clamped durations ─────────────────────────────────

/// A duration in nanoseconds or milliseconds, clamped to `u64`.
pub open spec fn clamp_u64(x: u128) -> u64 {
    if x > u64::MAX as u128 {
        u64::MAX
    } else {
        x as u64
    }
}

/// Clamps a `u128` duration to `u64`.
pub fn clamp_to_u64(x: u128) -> (r: u64)
    ensures
        r == clamp_u64(x),
{
    if x > u64::MAX as u128 {
        u64::MAX
    } else {
        x as u64
    }
}

/// `<kind>(<ms>ms)`, the label of a timer node.
pub open spec fn timer_label(kind: Seq<char>, ms: u64) -> Seq<char> {
    kind + "("@ + decimal(ms as nat) + "ms)"@
}

/// The label of a timer of kind `kind` (`sleep`, `interval`, `timeout`)
/// lasting `ms` milliseconds.
pub fn timer_label_exec(kind: &str, ms: u64) -> (r: String)
    ensures
        r@ == timer_label(kind@, ms),
{
    let mut out = chars_of(kind);
    extend_str(&mut out, "(");
    push_decimal(&mut out, ms);
    extend_str(&mut out, "ms)");
    string_of(&out)
}

// ── The edge a pending sleep or timeout holds ────────────────────

/// The wait state of a sleep or timeout future: its node, and the entity
/// whose `needs` edge to the node it holds.
pub struct TimerWait {
    pub node_id: String,
    pub edge_src: Option<String>,
    pub pending: bool,
}

impl TimerWait {
    /// A timer that has not been polled.
    pub fn new(node_id: String) -> (w: TimerWait)
        ensures
            w.node_id@ == node_id@,
            w.edge_src is None,
            !w.pending,
    {
        TimerWait { node_id, edge_src: None, pending: false }
    }

    /// Handles one poll. When the timer is ready, the held edge, if any, is
    /// removed. The first time it is pending, the top of the polling task's
    /// stack, if any, is recorded as needing the timer.
    pub fn on_poll(&mut self, reg: &mut Registry, ready: bool, stack_top: Option<&str>)
        ensures
            final(self).node_id == old(self).node_id,
            final(reg).touches() == old(reg).touches(),
            final(reg).nodes() == old(reg).nodes(),
            final(reg).process() == old(reg).process(),
            ready ==> final(self).edge_src is None && final(self).pending == old(self).pending
                && final(reg).needs() == match opt_view(old(self).edge_src) {
                Some(src) => old(reg).needs().remove((src, old(self).node_id@)),
                None => old(reg).needs(),
            },
            !ready && old(self).pending ==> *final(self) == *old(self) && final(reg).needs() == old(
                reg,
            ).needs(),
            !ready && !old(self).pending ==> final(self).pending && match stack_top {
                Some(top) => final(reg).needs() == old(reg).needs().insert(
                    (top@, old(self).node_id@),
                ) && opt_view(final(self).edge_src) == Some(top@),
                None => final(reg).needs() == old(reg).needs() && opt_view(final(self).edge_src)
                    == opt_view(old(self).edge_src),
            },
    {
        if ready {
            if let Some(src) = self.edge_src.take() {
                remove_edge(reg, src.as_str(), self.node_id.as_str());
            }
        } else if !self.pending {
            self.pending = true;
            if let Some(top) = stack_top {
                edge(reg, top, self.node_id.as_str());
                self.edge_src = Some(top.to_owned());
            }
        }
    }

    /// Handles the timer being dropped: the held edge, if any, is removed.
    pub fn on_drop(&self, reg: &mut Registry)
        ensures
            final(reg).needs() == match opt_view(self.edge_src) {
                Some(src) => old(reg).needs().remove((src, self.node_id@)),
                None => old(reg).needs(),
            },
            final(reg).touches() == old(reg).touches(),
            final(reg).nodes() == old(reg).nodes(),
            final(reg).process() == old(reg).process(),
    {
        if let Some(src) = &self.edge_src {
            remove_edge(reg, src.as_str(), self.node_id.as_str());
        }
    }
}

/// Law: a timer polled pending (recording that `top` needs it) and then
/// ready leaves the `needs` edges as they were, less its own edge.
pub proof fn lemma_pending_then_ready_restores(needs: Set<EdgeView>, top: Seq<char>, node: Seq<char>)
    ensures
        needs.insert((top, node)).remove((top, node)) == needs.remove((top, node)),
{
    assert(needs.insert((top, node)).remove((top, node)) =~= needs.remove((top, node)));
}

// ── Interval ticks ───────────────────────────────────────────────

/// Starts waiting for a tick: the top of the caller's stack, if any, needs
/// the interval's node; returns the entity whose edge must be removed.
pub fn begin_tick(reg: &mut Registry, node_id: &str, stack_top: Option<&str>) -> (src: Option<String>)
    ensures
        opt_view(src) == match stack_top {
            Some(t) => Some(t@),
            None => None,
        },
        final(reg).needs() == match stack_top {
            Some(t) => old(reg).needs().insert((t@, node_id@)),
            None => old(reg).needs(),
        },
        final(reg).touches() == old(reg).touches(),
        final(reg).nodes() == old(reg).nodes(),
        final(reg).process() == old(reg).process(),
{
    match stack_top {
        Some(top) => {
            edge(reg, top, node_id);
            Some(top.to_owned())
        },
        None => None,
    }
}

/// Finishes a tick: the edge taken by `begin_tick` is removed and the tick
/// count grows by one (wrapping, as an atomic counter does).
pub fn end_tick(reg: &mut Registry, node_id: &str, edge_src: Option<String>, tick_count: &mut u64)
    ensures
        final(reg).needs() == match opt_view(edge_src) {
            Some(s) => old(reg).needs().remove((s, node_id@)),
            None => old(reg).needs(),
        },
        *final(tick_count) == (if *old(tick_count) == u64::MAX {
            0
        } else {
            (*old(tick_count) + 1) as u64
        }),
        final(reg).touches() == old(reg).touches(),
        final(reg).nodes() == old(reg).nodes(),
        final(reg).process() == old(reg).process(),
{
    if let Some(src) = edge_src {
        remove_edge(reg, src.as_str(), node_id);
    }
    *tick_count = tick_count.wrapping_add(1);
}

// ── Registries of live timers ────────────────────────────────────

/// Drops the entries whose timer is gone (`live[i]` tells whether entry `i`
/// is still alive), then registers `info`.
pub fn prune_and_register<T>(reg: &mut Vec<T>, live: &Vec<bool>, info: T)
    requires
        live.len() == old(reg).len(),
    ensures
        final(reg)@ == filter_by_prefix(old(reg)@, live@, old(reg)@.len() as int).push(info),
{
    let mut kept: Vec<T> = Vec::new();
    let mut rest: Vec<T> = Vec::new();
    std::mem::swap(&mut rest, reg);
    let ghost all = rest@;
    let n = rest.len();
    let mut i: usize = 0;
    while i < n
        invariant
            i <= n,
            n == all.len(),
            live.len() == n,
            rest@ == all.subrange(i as int, n as int),
            kept@ == filter_by_prefix(all, live@, i as int),
        decreases n - i,
    {
        let item = rest.remove(0);
        assert(item == all[i as int]);
        if live[i] {
            kept.push(item);
        }
        i = i + 1;
        assert(rest@ =~= all.subrange(i as int, n as int));
    }
    kept.push(info);
    *reg = kept;
}

/// The entries among the first `i` whose `live` flag is set, in order.
pub open spec fn filter_by_prefix<T>(s: Seq<T>, live: Seq<bool>, i: int) -> Seq<T>
    decreases i,
{
    if i <= 0 {
        Seq::empty()
    } else if live[i - 1] {
        filter_by_prefix(s, live, i - 1).push(s[i - 1])
    } else {
        filter_by_prefix(s, live, i - 1)
    }
}

// ── Timer nodes in a snapshot ────────────────────────────────────

/// A registered sleep or timeout.
pub struct DeadlineTimerInfo {
    pub name: String,
    pub node_id: String,
    pub location: String,
    pub deadline_ns: u64,
    pub created_at_ns: u64,
}

/// A registered interval.
pub struct IntervalInfo {
    pub name: String,
    pub node_id: String,
    pub location: String,
    pub period_ms: u64,
    pub tick_count: u64,
    pub created_at_ns: u64,
}

/// Nanoseconds from `from` to `now`, zero if `now` is earlier.
pub open spec fn elapsed_since(from: u64, now: u64) -> u64 {
    if now >= from {
        (now - from) as u64
    } else {
        0
    }
}

/// `"meta":{"ctx.location":<location>}}` closing a timer's attributes.
pub open spec fn timer_meta_tail(location: Seq<char>) -> Seq<char> {
    ",\"meta\":"@ + "{"@ + "\"ctx.location\":"@ + json_quoted(location) + "}"@ + "}"@
}

/// The attributes of a sleep or timeout node.
pub open spec fn deadline_timer_attrs(
    name: Seq<char>,
    wait_kind: Seq<char>,
    deadline_ns: u64,
    elapsed_ns: u64,
    location: Seq<char>,
) -> Seq<char> {
    "{"@ + "\"name\":"@ + json_quoted(name) + ",\"wait.kind\":"@ + json_quoted(wait_kind)
        + ",\"deadline_ns\":"@ + decimal(deadline_ns as nat) + ",\"elapsed_ns\":"@ + decimal(
        elapsed_ns as nat,
    ) + timer_meta_tail(location)
}

/// The attributes of an interval node.
pub open spec fn interval_attrs(
    name: Seq<char>,
    period_ms: u64,
    tick_count: u64,
    elapsed_ns: u64,
    location: Seq<char>,
) -> Seq<char> {
    "{"@ + "\"name\":"@ + json_quoted(name) + ",\"wait.kind\":"@ + json_quoted("interval"@)
        + ",\"period_ms\":"@ + decimal(period_ms as nat) + ",\"tick_count\":"@ + decimal(
        tick_count as nat,
    ) + ",\"elapsed_ns\":"@ + decimal(elapsed_ns as nat) + timer_meta_tail(location)
}

fn push_meta_tail(out: &mut Vec<char>, location: &str)
    ensures
        final(out)@ == old(out)@ + timer_meta_tail(location@),
{
    extend_str(out, ",\"meta\":");
    extend_str(out, "{");
    push_string_member(out, "\"ctx.location\":", location);
    extend_str(out, "}");
    extend_str(out, "}");
    assert(out@ =~= old(out)@ + timer_meta_tail(location@));
}

fn deadline_timer_attrs_exec(info: &DeadlineTimerInfo, wait_kind: &str, now_ns: u64) -> (r: String)
    ensures
        r@ == deadline_timer_attrs(
            info.name@,
            wait_kind@,
            info.deadline_ns,
            elapsed_since(info.created_at_ns, now_ns),
            info.location@,
        ),
{
    let elapsed = if now_ns >= info.created_at_ns {
        now_ns - info.created_at_ns
    } else {
        0
    };
    let mut out = chars_of("{");
    push_string_member(&mut out, "\"name\":", info.name.as_str());
    push_string_member(&mut out, ",\"wait.kind\":", wait_kind);
    push_number_member(&mut out, ",\"deadline_ns\":", info.deadline_ns);
    push_number_member(&mut out, ",\"elapsed_ns\":", elapsed);
    push_meta_tail(&mut out, info.location.as_str());
    assert(out@ =~= deadline_timer_attrs(
        info.name@,
        wait_kind@,
        info.deadline_ns,
        elapsed_since(info.created_at_ns, now_ns),
        info.location@,
    ));
    string_of(&out)
}

/// The node a sleep or timeout shows in a snapshot taken at `now_ns`.
pub open spec fn deadline_timer_node(
    info: DeadlineTimerInfo,
    kind: NodeKind,
    wait_kind: Seq<char>,
    now_ns: u64,
) -> NodeView {
    NodeView {
        id: info.node_id@,
        kind: kind,
        label: Some(info.name@),
        attrs: deadline_timer_attrs(
            info.name@,
            wait_kind,
            info.deadline_ns,
            elapsed_since(info.created_at_ns, now_ns),
            info.location@,
        ),
    }
}

fn emit_deadline_timers(
    nodes: &mut Vec<Node>,
    infos: &Vec<DeadlineTimerInfo>,
    kind: NodeKind,
    wait_kind: &str,
    now_ns: u64,
)
    ensures
        final(nodes)@.len() == old(nodes)@.len() + infos@.len(),
        forall|i: int| 0 <= i < old(nodes)@.len() ==> #[trigger] final(nodes)@[i] == old(nodes)@[i],
        forall|i: int|
            0 <= i < infos@.len() ==> #[trigger] final(nodes)@[old(nodes)@.len() + i]@
                == deadline_timer_node(infos@[i], kind, wait_kind@, now_ns),
{
    let ghost n0 = nodes@.len();
    let mut i: usize = 0;
    while i < infos.len()
        invariant
            i <= infos.len(),
            nodes@.len() == n0 + i,
            n0 == old(nodes)@.len(),
            forall|j: int| 0 <= j < n0 ==> #[trigger] nodes@[j] == old(nodes)@[j],
            forall|j: int|
                0 <= j < i ==> #[trigger] nodes@[n0 + j]@ == deadline_timer_node(
                    infos@[j],
                    kind,
                    wait_kind@,
                    now_ns,
                ),
        decreases infos.len() - i,
    {
        let info = &infos[i];
        let attrs_json = deadline_timer_attrs_exec(info, wait_kind, now_ns);
        nodes.push(
            Node { id: info.node_id.clone(), kind, label: Some(info.name.clone()), attrs_json },
        );
        i = i + 1;
    }
}

/// Appends a `Sleep` node for each live sleep.
pub fn emit_sleep_nodes(nodes: &mut Vec<Node>, sleeps: &Vec<DeadlineTimerInfo>, now_ns: u64)
    ensures
        final(nodes)@.len() == old(nodes)@.len() + sleeps@.len(),
        forall|i: int| 0 <= i < old(nodes)@.len() ==> #[trigger] final(nodes)@[i] == old(nodes)@[i],
        forall|i: int|
            0 <= i < sleeps@.len() ==> #[trigger] final(nodes)@[old(nodes)@.len() + i]@
                == deadline_timer_node(sleeps@[i], NodeKind::Sleep, "sleep"@, now_ns),
{
    emit_deadline_timers(nodes, sleeps, NodeKind::Sleep, "sleep", now_ns)
}

/// Appends a `Timeout` node for each live timeout.
pub fn emit_timeout_nodes(nodes: &mut Vec<Node>, timeouts: &Vec<DeadlineTimerInfo>, now_ns: u64)
    ensures
        final(nodes)@.len() == old(nodes)@.len() + timeouts@.len(),
        forall|i: int| 0 <= i < old(nodes)@.len() ==> #[trigger] final(nodes)@[i] == old(nodes)@[i],
        forall|i: int|
            0 <= i < timeouts@.len() ==> #[trigger] final(nodes)@[old(nodes)@.len() + i]@
                == deadline_timer_node(timeouts@[i], NodeKind::Timeout, "timeout"@, now_ns),
{
    emit_deadline_timers(nodes, timeouts, NodeKind::Timeout, "timeout", now_ns)
}

/// The node an interval shows in a snapshot taken at `now_ns`.
pub open spec fn interval_node(info: IntervalInfo, now_ns: u64) -> NodeView {
    NodeView {
        id: info.node_id@,
        kind: NodeKind::Interval,
        label: Some(info.name@),
        attrs: interval_attrs(
            info.name@,
            info.period_ms,
            info.tick_count,
            elapsed_since(info.created_at_ns, now_ns),
            info.location@,
        ),
    }
}

/// Appends an `Interval` node for each live interval.
pub fn emit_interval_nodes(nodes: &mut Vec<Node>, intervals: &Vec<IntervalInfo>, now_ns: u64)
    ensures
        final(nodes)@.len() == old(nodes)@.len() + intervals@.len(),
        forall|i: int| 0 <= i < old(nodes)@.len() ==> #[trigger] final(nodes)@[i] == old(nodes)@[i],
        forall|i: int|
            0 <= i < intervals@.len() ==> #[trigger] final(nodes)@[old(nodes)@.len() + i]@
                == interval_node(intervals@[i], now_ns),
{
    let ghost n0 = nodes@.len();
    let mut i: usize = 0;
    while i < intervals.len()
        invariant
            i <= intervals.len(),
            nodes@.len() == n0 + i,
            n0 == old(nodes)@.len(),
            forall|j: int| 0 <= j < n0 ==> #[trigger] nodes@[j] == old(nodes)@[j],
            forall|j: int|
                0 <= j < i ==> #[trigger] nodes@[n0 + j]@ == interval_node(intervals@[j], now_ns),
        decreases intervals.len() - i,
    {
        let info = &intervals[i];
        let elapsed = if now_ns >= info.created_at_ns {
            now_ns - info.created_at_ns
        } else {
            0
        };
        let mut out = chars_of("{");
        push_string_member(&mut out, "\"name\":", info.name.as_str());
        push_string_member(&mut out, ",\"wait.kind\":", "interval");
        push_number_member(&mut out, ",\"period_ms\":", info.period_ms);
        push_number_member(&mut out, ",\"tick_count\":", info.tick_count);
        push_number_member(&mut out, ",\"elapsed_ns\":", elapsed);
        push_meta_tail(&mut out, info.location.as_str());
        assert(out@ =~= interval_attrs(
            info.name@,
            info.period_ms,
            info.tick_count,
            elapsed_since(info.created_at_ns, now_ns),
            info.location@,
        ));
        let attrs_json = string_of(&out);
        nodes.push(
            Node {
                id: info.node_id.clone(),
                kind: NodeKind::Interval,
                label: Some(info.name.clone()),
                attrs_json,
            },
        );
        i = i + 1;
    }
}

} // verus!
