//! Task tracking: what is known of each spawned task, the most recent polls
//! it went through, and which tasks the registry keeps.
//!
//! Instants are nanoseconds on one monotonic clock, read by the caller.

use vstd::prelude::*;

verus! {

/// How many poll events a task keeps.
pub const MAX_POLL_EVENTS: usize = 16;

/// How long a completed task stays in the registry, in nanoseconds (30 s).
pub const COMPLETED_RETENTION_NS: u64 = 30_000_000_000;

/// Task state.
#[derive(Debug, Clone, Copy, PartialEq, Eq, Structural)]
pub enum TaskState {
    /// Task is pending (not currently polling).
    Pending,
    /// Task is currently being polled.
    Polling,
    /// Task has completed.
    Completed,
}

/// Poll result.
#[derive(Debug, Clone, Copy, PartialEq, Eq, Structural)]
pub enum PollResult {
    /// Poll returned Pending.
    Pending,
    /// Poll returned Ready.
    Ready,
}

/// One poll of a task.
pub struct PollRecord {
    /// When the poll started.
    pub started_at_ns: u64,
    /// How long the poll took; `None` while it runs.
    pub duration_ns: Option<u64>,
    /// What the poll returned (`Pending` until it ends).
    pub result: PollResult,
    /// Backtrace captured at the poll site.
    pub backtrace: Option<String>,
}

/// What is known of one spawned task.
pub struct TaskRecord {
    pub id: u64,
    pub name: String,
    pub spawned_at_ns: u64,
    pub spawn_backtrace: String,
    pub state: TaskState,
    /// The most recent polls, in the order they were recorded.
    pub poll_events: Vec<PollRecord>,
}

/// A poll as (start, duration, result).
pub open spec fn poll_view(p: PollRecord) -> (u64, Option<u64>, PollResult) {
    (p.started_at_ns, p.duration_ns, p.result)
}

/// The polls of a task as (start, duration, result).
pub open spec fn polls_view(v: Seq<PollRecord>) -> Seq<(u64, Option<u64>, PollResult)> {
    v.map_values(|p: PollRecord| poll_view(p))
}

/// The state a task is in after a poll that returned `result`.
pub open spec fn state_after(result: PollResult) -> TaskState {
    match result {
        PollResult::Ready => TaskState::Completed,
        PollResult::Pending => TaskState::Pending,
    }
}

/// `polls` with a new poll starting at `now`, keeping the most recent
/// `MAX_POLL_EVENTS`.
pub open spec fn with_poll_started(
    polls: Seq<(u64, Option<u64>, PollResult)>,
    now: u64,
) -> Seq<(u64, Option<u64>, PollResult)> {
    let kept = if polls.len() >= MAX_POLL_EVENTS {
        polls.drop_first()
    } else {
        polls
    };
    kept.push((now, None, PollResult::Pending))
}

/// `polls` with its last poll ended at `now` with `result`.
pub open spec fn with_poll_ended(
    polls: Seq<(u64, Option<u64>, PollResult)>,
    now: u64,
    result: PollResult,
) -> Seq<(u64, Option<u64>, PollResult)> {
    if polls.len() == 0 {
        polls
    } else {
        let last = polls.last();
        polls.update(
            polls.len() - 1,
            (last.0, Some(if now >= last.0 {
                (now - last.0) as u64
            } else {
                0u64
            }), result),
        )
    }
}

impl TaskRecord {
    /// A task spawned at `now_ns`, pending and not yet polled.
    pub fn new(id: u64, name: String, now_ns: u64, spawn_backtrace: String) -> (t: TaskRecord)
        ensures
            t.id == id,
            t.name@ == name@,
            t.spawned_at_ns == now_ns,
            t.spawn_backtrace@ == spawn_backtrace@,
            t.state == TaskState::Pending,
            t.poll_events@.len() == 0,
    {
        TaskRecord {
            id,
            name,
            spawned_at_ns: now_ns,
            spawn_backtrace,
            state: TaskState::Pending,
            poll_events: Vec::new(),
        }
    }

    /// Records that a poll starts at `now_ns`: the task is polling, and the
    /// poll is added after dropping the oldest one when `MAX_POLL_EVENTS`
    /// are kept.
    pub fn record_poll_start(&mut self, now_ns: u64, backtrace: Option<String>)
        ensures
            final(self).state == TaskState::Polling,
            polls_view(final(self).poll_events@) == with_poll_started(
                polls_view(old(self).poll_events@),
                now_ns,
            ),
            final(self).poll_events@ == (if old(self).poll_events@.len() >= MAX_POLL_EVENTS {
                old(self).poll_events@.drop_first()
            } else {
                old(self).poll_events@
            }).push(
                PollRecord {
                    started_at_ns: now_ns,
                    duration_ns: None,
                    result: PollResult::Pending,
                    backtrace,
                },
            ),
            final(self).id == old(self).id,
            final(self).name == old(self).name,
            final(self).spawned_at_ns == old(self).spawned_at_ns,
            final(self).spawn_backtrace == old(self).spawn_backtrace,
    {
        self.state = TaskState::Polling;
        let ghost before = polls_view(self.poll_events@);
        if self.poll_events.len() >= MAX_POLL_EVENTS {
            self.poll_events.remove(0);
            assert(polls_view(self.poll_events@) =~= before.drop_first());
            assert(self.poll_events@ =~= old(self).poll_events@.drop_first());
        }
        let ghost kept = polls_view(self.poll_events@);
        self.poll_events.push(
            PollRecord { started_at_ns: now_ns, duration_ns: None, result: PollResult::Pending, backtrace },
        );
        assert(polls_view(self.poll_events@) =~= kept.push((now_ns, None, PollResult::Pending)));
    }

    /// Records that the current poll ended at `now_ns` with `result`: the
    /// last poll gets its duration (zero if the clock reads earlier than its
    /// start) and result, and the task is completed or pending again.
    pub fn record_poll_end(&mut self, now_ns: u64, result: PollResult)
        ensures
            final(self).state == state_after(result),
            polls_view(final(self).poll_events@) == with_poll_ended(
                polls_view(old(self).poll_events@),
                now_ns,
                result,
            ),
            old(self).poll_events@.len() == 0 ==> final(self).poll_events@ == old(self).poll_events@,
            old(self).poll_events@.len() > 0 ==> final(self).poll_events@ == old(
                self,
            ).poll_events@.update(
                old(self).poll_events@.len() - 1,
                PollRecord {
                    started_at_ns: old(self).poll_events@.last().started_at_ns,
                    duration_ns: with_poll_ended(
                        polls_view(old(self).poll_events@),
                        now_ns,
                        result,
                    ).last().1,
                    result,
                    backtrace: old(self).poll_events@.last().backtrace,
                },
            ),
            final(self).id == old(self).id,
            final(self).name == old(self).name,
            final(self).spawned_at_ns == old(self).spawned_at_ns,
            final(self).spawn_backtrace == old(self).spawn_backtrace,
    {
        let ghost before = polls_view(self.poll_events@);
        let n = self.poll_events.len();
        if n > 0 {
            let started = self.poll_events[n - 1].started_at_ns;
            let elapsed = if now_ns >= started {
                now_ns - started
            } else {
                0
            };
            let mut events: Vec<PollRecord> = Vec::new();
            std::mem::swap(&mut events, &mut self.poll_events);
            let last = events.pop().unwrap();
            events.push(
                PollRecord {
                    started_at_ns: last.started_at_ns,
                    duration_ns: Some(elapsed),
                    result,
                    backtrace: last.backtrace,
                },
            );
            self.poll_events = events;
            assert(polls_view(self.poll_events@) =~= with_poll_ended(before, now_ns, result));
            assert(self.poll_events@ =~= old(self).poll_events@.update(
                n - 1,
                PollRecord {
                    started_at_ns: last.started_at_ns,
                    duration_ns: Some(elapsed),
                    result,
                    backtrace: last.backtrace,
                },
            ));
        }
        self.state = match result {
            PollResult::Ready => TaskState::Completed,
            PollResult::Pending => TaskState::Pending,
        };
    }
}

/// Whether a task stays in the registry at `now_ns`: unless it completed and
/// was spawned at least `COMPLETED_RETENTION_NS` before.
pub open spec fn is_retained(state: TaskState, spawned_at_ns: u64, now_ns: u64) -> bool {
    state != TaskState::Completed || spawned_at_ns + COMPLETED_RETENTION_NS > now_ns
}

/// A task never keeps more than `MAX_POLL_EVENTS` polls, and the poll just
/// started is its last.
pub proof fn lemma_poll_events_bounded(polls: Seq<(u64, Option<u64>, PollResult)>, now: u64)
    requires
        polls.len() <= MAX_POLL_EVENTS,
    ensures
        with_poll_started(polls, now).len() <= MAX_POLL_EVENTS,
        with_poll_started(polls, now).last() == (now, None::<u64>, PollResult::Pending),
{
}

/// A poll that starts and then ends is recorded with its start, the time it
/// took, and its result, after the polls kept before it.
pub proof fn lemma_poll_round_trip(
    polls: Seq<(u64, Option<u64>, PollResult)>,
    start: u64,
    end: u64,
    result: PollResult,
)
    requires
        polls.len() <= MAX_POLL_EVENTS,
        start <= end,
    ensures
        with_poll_ended(with_poll_started(polls, start), end, result).last() == (
            start,
            Some((end - start) as u64),
            result,
        ),
        with_poll_ended(with_poll_started(polls, start), end, result).drop_last() == (if polls.len()
            >= MAX_POLL_EVENTS {
            polls.drop_first()
        } else {
            polls
        }),
{
    let started = with_poll_started(polls, start);
    let ended = with_poll_ended(started, end, result);
    assert(ended.drop_last() =~= started.drop_last());
}

/// After a cleanup every task left is retained, and a second cleanup at the
/// same instant changes nothing.
pub proof fn lemma_cleanup_idempotent(tasks: Seq<(u64, TaskState, u64)>, now_ns: u64)
    ensures
        forall|k: int|
            0 <= k < tasks.filter(stays(now_ns)).len() ==> is_retained(
                (#[trigger] tasks.filter(stays(now_ns))[k]).1,
                tasks.filter(stays(now_ns))[k].2,
                now_ns,
            ),
        tasks.filter(stays(now_ns)).filter(stays(now_ns)) == tasks.filter(stays(now_ns)),
    decreases tasks.len(),
{
    reveal(Seq::filter);
    let f = tasks.filter(stays(now_ns));
    assert forall|k: int| 0 <= k < f.len() implies is_retained(
        (#[trigger] f[k]).1,
        f[k].2,
        now_ns,
    ) by {
        tasks.lemma_filter_pred(stays(now_ns), k);
    }
    if tasks.len() > 0 {
        lemma_cleanup_idempotent(tasks.drop_last(), now_ns);
        let g = tasks.drop_last().filter(stays(now_ns));
        if stays(now_ns)(tasks.last()) {
            assert(f == g.push(tasks.last()));
            assert(f.drop_last() =~= g);
        } else {
            assert(f == g);
        }
    } else {
        assert(f =~= tasks);
    }
}

/// Whether the task stays in the registry at `now_ns`.
pub fn retained(t: &TaskRecord, now_ns: u64) -> (r: bool)
    ensures
        r == is_retained(t.state, t.spawned_at_ns, now_ns),
{
    t.state != TaskState::Completed || t.spawned_at_ns >= now_ns || now_ns - t.spawned_at_ns
        < COMPLETED_RETENTION_NS
}

/// The registry of tracked tasks; absent until tracking is initialised.
pub struct TaskRegistry {
    pub tasks: Option<Vec<TaskRecord>>,
}

/// A task as (id, state, spawn instant).
pub open spec fn task_view(t: TaskRecord) -> (u64, TaskState, u64) {
    (t.id, t.state, t.spawned_at_ns)
}

/// The registered tasks as (id, state, spawn instant).
pub open spec fn tasks_view(v: Seq<TaskRecord>) -> Seq<(u64, TaskState, u64)> {
    v.map_values(|t: TaskRecord| task_view(t))
}

/// Whether a task seen as (id, state, spawn instant) stays at `now_ns`.
pub open spec fn stays(now_ns: u64) -> spec_fn((u64, TaskState, u64)) -> bool {
    |t: (u64, TaskState, u64)| is_retained(t.1, t.2, now_ns)
}

/// Whether a task record stays at `now_ns`.
pub open spec fn record_stays(now_ns: u64) -> spec_fn(TaskRecord) -> bool {
    |t: TaskRecord| is_retained(t.state, t.spawned_at_ns, now_ns)
}

impl TaskRegistry {
    /// A registry before tracking is initialised.
    pub fn new() -> (r: TaskRegistry)
        ensures
            r.tasks is None,
    {
        TaskRegistry { tasks: None }
    }
}

/// Initialises task tracking: the registry becomes empty, dropping whatever
/// it held.
pub fn init_task_tracking(reg: &mut TaskRegistry)
    ensures
        final(reg).tasks matches Some(v) && v@.len() == 0,
{
    reg.tasks = Some(Vec::new());
}

/// Adds a spawned task to the registry, when tracking is initialised.
pub fn register_task(reg: &mut TaskRegistry, task: TaskRecord)
    ensures
        match old(reg).tasks {
            Some(v) => final(reg).tasks matches Some(w) && w@ == v@.push(task) && tasks_view(w@)
                == tasks_view(v@).push(task_view(task)),
            None => final(reg).tasks is None,
        },
{
    let mut tasks: Option<Vec<TaskRecord>> = None;
    std::mem::swap(&mut tasks, &mut reg.tasks);
    match tasks {
        Some(mut v) => {
            let ghost before = v@;
            v.push(task);
            assert(tasks_view(v@) =~= tasks_view(before).push(task_view(task)));
            reg.tasks = Some(v);
        },
        None => {},
    }
}

/// The position of the first task with id `id`, if registered.
#[verifier::loop_isolation(false)]
pub fn find_task(reg: &TaskRegistry, id: u64) -> (r: Option<usize>)
    ensures
        match reg.tasks {
            Some(v) => match r {
                Some(k) => k < v.len() && v[k as int].id == id && forall|j: int|
                    0 <= j < k ==> v[j].id != id,
                None => forall|j: int| 0 <= j < v.len() ==> v[j].id != id,
            },
            None => r is None,
        },
{
    match &reg.tasks {
        Some(v) => {
            let mut k: usize = 0;
            while k < v.len()
                invariant
                    k <= v.len(),
                    forall|j: int| 0 <= j < k ==> v[j].id != id,
                decreases v.len() - k,
            {
                if v[k].id == id {
                    return Some(k);
                }
                k = k + 1;
            }
            None
        },
        None => None,
    }
}

/// Removes the completed tasks spawned at least `COMPLETED_RETENTION_NS`
/// before `now_ns`, keeping the others, untouched and in order.
pub fn cleanup_completed_tasks(reg: &mut TaskRegistry, now_ns: u64)
    ensures
        match old(reg).tasks {
            Some(v) => final(reg).tasks matches Some(w) && w@ == v@.filter(record_stays(now_ns))
                && tasks_view(w@) == tasks_view(v@).filter(stays(now_ns)),
            None => final(reg).tasks is None,
        },
{
    let mut tasks: Option<Vec<TaskRecord>> = None;
    std::mem::swap(&mut tasks, &mut reg.tasks);
    match tasks {
        Some(mut v) => {
            let ghost all = tasks_view(v@);
            let ghost recs = v@;
            let mut kept: Vec<TaskRecord> = Vec::new();
            let n = v.len();
            let mut i: usize = 0;
            while i < n
                invariant
                    i <= n,
                    n == all.len(),
                    v.len() == n - i,
                    tasks_view(v@) == all.subrange(i as int, n as int),
                    tasks_view(kept@) == all.subrange(0, i as int).filter(stays(now_ns)),
                    recs.len() == n,
                    v@ == recs.subrange(i as int, n as int),
                    kept@ == recs.subrange(0, i as int).filter(record_stays(now_ns)),
                    all == tasks_view(recs),
                decreases n - i,
            {
                proof {
                    reveal(Seq::filter);
                }
                let ghost sub = all.subrange(0, i + 1);
                assert(sub.drop_last() =~= all.subrange(0, i as int));
                let ghost rsub = recs.subrange(0, i + 1);
                assert(rsub.drop_last() =~= recs.subrange(0, i as int));
                let ghost rest = v@;
                assert(tasks_view(rest)[0] == task_view(rest[0]));
                let t = v.remove(0);
                assert(sub.last() == task_view(t));
                assert(rsub.last() == t);
                let ghost before = kept@;
                if retained(&t, now_ns) {
                    kept.push(t);
                    assert(tasks_view(kept@) =~= tasks_view(before).push(sub.last()));
                    assert(kept@ =~= before.push(rsub.last()));
                }
                assert(v@ =~= rest.drop_first());
                assert(tasks_view(v@) =~= tasks_view(rest).drop_first());
                i = i + 1;
                assert(tasks_view(v@) =~= all.subrange(i as int, n as int));
                assert(v@ =~= recs.subrange(i as int, n as int));
            }
            assert(all.subrange(0, n as int) =~= all);
            assert(recs.subrange(0, n as int) =~= recs);
            reg.tasks = Some(kept);
        },
        None => {},
    }
}

/// What a snapshot shows of a task: its age and each poll's start measured
/// from its spawn, in nanoseconds.
pub struct TaskSnapshot {
    pub id: u64,
    pub name: String,
    pub state: TaskState,
    pub age_ns: u64,
    pub spawn_backtrace: String,
    /// The most recent polls, most recent first.
    pub poll_events: Vec<PollSnapshot>,
}

/// A poll as a snapshot shows it.
pub struct PollSnapshot {
    /// When the poll started, measured from the task's spawn.
    pub started_after_spawn_ns: u64,
    pub duration_ns: Option<u64>,
    pub result: PollResult,
    pub backtrace: Option<String>,
}

/// `later - earlier`, or zero when `later` is earlier.
pub open spec fn since(earlier: u64, later: u64) -> u64 {
    if later >= earlier {
        (later - earlier) as u64
    } else {
        0
    }
}

/// `p` shows poll `e` of a task spawned at `spawned_at_ns`.
pub open spec fn is_poll_snapshot_of(p: PollSnapshot, e: PollRecord, spawned_at_ns: u64) -> bool {
    &&& p.started_after_spawn_ns == since(spawned_at_ns, e.started_at_ns)
    &&& p.duration_ns == e.duration_ns
    &&& p.result == e.result
    &&& p.backtrace == e.backtrace
}

/// `s` is the snapshot of task `t` at `now_ns`: its id, name, state and
/// spawn backtrace, its age, and its polls most recent first.
pub open spec fn is_snapshot_of(s: TaskSnapshot, t: TaskRecord, now_ns: u64) -> bool {
    &&& s.id == t.id
    &&& s.name@ == t.name@
    &&& s.state == t.state
    &&& s.age_ns == since(t.spawned_at_ns, now_ns)
    &&& s.spawn_backtrace@ == t.spawn_backtrace@
    &&& s.poll_events.len() == t.poll_events.len()
    &&& forall|k: int|
        0 <= k < s.poll_events.len() ==> is_poll_snapshot_of(
            #[trigger] s.poll_events[k],
            t.poll_events[t.poll_events.len() - 1 - k],
            t.spawned_at_ns,
        )
}

/// The snapshot of task `t` at `now_ns`. Its polls are listed most recent
/// first.
pub fn task_snapshot(t: &TaskRecord, now_ns: u64) -> (s: TaskSnapshot)
    ensures
        is_snapshot_of(s, *t, now_ns),
        s.id == t.id,
        s.name@ == t.name@,
        s.state == t.state,
        s.age_ns == since(t.spawned_at_ns, now_ns),
        s.spawn_backtrace@ == t.spawn_backtrace@,
        s.poll_events.len() == t.poll_events.len(),
        forall|k: int|
            0 <= k < s.poll_events.len() ==> {
                let p = #[trigger] s.poll_events[k];
                let e = t.poll_events[t.poll_events.len() - 1 - k];
                &&& p.started_after_spawn_ns == since(t.spawned_at_ns, e.started_at_ns)
                &&& p.duration_ns == e.duration_ns
                &&& p.result == e.result
                &&& p.backtrace == e.backtrace
            },
{
    let n = t.poll_events.len();
    let mut polls: Vec<PollSnapshot> = Vec::new();
    let mut k: usize = 0;
    while k < n
        invariant
            n == t.poll_events.len(),
            k <= n,
            polls.len() == k,
            forall|j: int|
                0 <= j < k ==> {
                    let p = #[trigger] polls[j];
                    let e = t.poll_events[n - 1 - j];
                    &&& p.started_after_spawn_ns == since(t.spawned_at_ns, e.started_at_ns)
                    &&& p.duration_ns == e.duration_ns
                    &&& p.result == e.result
                    &&& p.backtrace == e.backtrace
                },
        decreases n - k,
    {
        let e = &t.poll_events[n - 1 - k];
        let started = if e.started_at_ns >= t.spawned_at_ns {
            e.started_at_ns - t.spawned_at_ns
        } else {
            0
        };
        let bt = match &e.backtrace {
            Some(b) => Some(b.clone()),
            None => None,
        };
        polls.push(
            PollSnapshot {
                started_after_spawn_ns: started,
                duration_ns: e.duration_ns,
                result: e.result,
                backtrace: bt,
            },
        );
        k = k + 1;
    }
    TaskSnapshot {
        id: t.id,
        name: t.name.clone(),
        state: t.state,
        age_ns: if now_ns >= t.spawned_at_ns {
            now_ns - t.spawned_at_ns
        } else {
            0
        },
        spawn_backtrace: t.spawn_backtrace.clone(),
        poll_events: polls,
    }
}

/// Snapshots of the registered tasks that are retained at `now_ns`, in
/// registration order; none when tracking is not initialised.
pub fn snapshot_all_tasks(reg: &TaskRegistry, now_ns: u64) -> (r: Vec<TaskSnapshot>)
    ensures
        match reg.tasks {
            Some(v) => {
                let kept = v@.filter(record_stays(now_ns));
                &&& r@.len() == kept.len()
                &&& forall|k: int|
                    0 <= k < r@.len() ==> is_snapshot_of(#[trigger] r@[k], kept[k], now_ns)
            },
            None => r@.len() == 0,
        },
{
    match &reg.tasks {
        Some(v) => {
            let ghost recs = v@;
            let mut out: Vec<TaskSnapshot> = Vec::new();
            let mut i: usize = 0;
            while i < v.len()
                invariant
                    i <= v.len(),
                    recs == v@,
                    out@.len() == recs.subrange(0, i as int).filter(record_stays(now_ns)).len(),
                    forall|k: int|
                        0 <= k < out@.len() ==> is_snapshot_of(
                            #[trigger] out@[k],
                            recs.subrange(0, i as int).filter(record_stays(now_ns))[k],
                            now_ns,
                        ),
                decreases v.len() - i,
            {
                proof {
                    reveal(Seq::filter);
                }
                let ghost sub = recs.subrange(0, i + 1);
                let ghost prev = recs.subrange(0, i as int).filter(record_stays(now_ns));
                assert(sub.drop_last() =~= recs.subrange(0, i as int));
                assert(sub.last() == v@[i as int]);
                let ghost before = out@;
                if retained(&v[i], now_ns) {
                    let s = task_snapshot(&v[i], now_ns);
                    out.push(s);
                    assert(sub.filter(record_stays(now_ns)) == prev.push(sub.last()));
                    assert forall|k: int| 0 <= k < out@.len() implies is_snapshot_of(
                        #[trigger] out@[k],
                        sub.filter(record_stays(now_ns))[k],
                        now_ns,
                    ) by {
                        if k < prev.len() {
                            assert(out@[k] == before[k]);
                        }
                    }
                } else {
                    assert(sub.filter(record_stays(now_ns)) == prev);
                }
                i = i + 1;
            }
            assert(recs.subrange(0, i as int) =~= recs);
            out
        },
        None => Vec::new(),
    }
}

} // verus!
