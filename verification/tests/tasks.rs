use peeps::tasks::{
    cleanup_completed_tasks, find_task, init_task_tracking, register_task, snapshot_all_tasks,
    task_snapshot, PollResult, TaskRecord, TaskRegistry, TaskState, COMPLETED_RETENTION_NS,
    MAX_POLL_EVENTS,
};

fn task(id: u64, spawned: u64) -> TaskRecord {
    TaskRecord::new(id, format!("t{id}"), spawned, "bt".to_string())
}

#[test]
fn polls_update_state_and_durations() {
    let mut t = task(1, 100);
    assert_eq!(t.state, TaskState::Pending);
    t.record_poll_start(150, Some("poll-bt".to_string()));
    assert_eq!(t.state, TaskState::Polling);
    t.record_poll_end(175, PollResult::Pending);
    assert_eq!(t.state, TaskState::Pending);
    assert_eq!(t.poll_events.len(), 1);
    assert_eq!(t.poll_events[0].duration_ns, Some(25));
    assert_eq!(t.poll_events[0].result, PollResult::Pending);
    t.record_poll_start(200, None);
    t.record_poll_end(190, PollResult::Ready);
    assert_eq!(t.state, TaskState::Completed);
    assert_eq!(t.poll_events[1].duration_ns, Some(0));
    assert_eq!(t.poll_events[1].result, PollResult::Ready);
}

#[test]
fn only_the_latest_polls_are_kept() {
    let mut t = task(1, 0);
    for i in 0..40u64 {
        t.record_poll_start(i * 10, None);
        t.record_poll_end(i * 10 + 1, PollResult::Pending);
    }
    assert_eq!(t.poll_events.len(), MAX_POLL_EVENTS);
    assert_eq!(t.poll_events[0].started_at_ns, 240);
    assert_eq!(t.poll_events[MAX_POLL_EVENTS - 1].started_at_ns, 390);
}

#[test]
fn registry_tracks_tasks_once_initialised() {
    let mut reg = TaskRegistry::new();
    register_task(&mut reg, task(1, 0));
    assert!(reg.tasks.is_none());
    assert!(snapshot_all_tasks(&reg, 5).is_empty());
    init_task_tracking(&mut reg);
    register_task(&mut reg, task(1, 0));
    register_task(&mut reg, task(2, 0));
    assert_eq!(find_task(&reg, 2), Some(1));
    assert_eq!(find_task(&reg, 3), None);
}

#[test]
fn completed_tasks_are_dropped_after_the_retention() {
    let mut reg = TaskRegistry::new();
    init_task_tracking(&mut reg);
    let mut done_old = task(1, 0);
    done_old.record_poll_start(1, None);
    done_old.record_poll_end(2, PollResult::Ready);
    let mut done_new = task(2, COMPLETED_RETENTION_NS);
    done_new.record_poll_start(COMPLETED_RETENTION_NS + 1, None);
    done_new.record_poll_end(COMPLETED_RETENTION_NS + 2, PollResult::Ready);
    register_task(&mut reg, done_old);
    register_task(&mut reg, task(3, 0));
    register_task(&mut reg, done_new);
    let now = COMPLETED_RETENTION_NS + 10;
    let snaps = snapshot_all_tasks(&reg, now);
    let ids: Vec<u64> = snaps.iter().map(|s| s.id).collect();
    assert_eq!(ids, vec![3, 2]);
    cleanup_completed_tasks(&mut reg, now);
    let left: Vec<u64> = reg.tasks.as_ref().unwrap().iter().map(|t| t.id).collect();
    assert_eq!(left, vec![3, 2]);
    cleanup_completed_tasks(&mut reg, now);
    assert_eq!(reg.tasks.as_ref().unwrap().len(), 2);
}

#[test]
fn a_snapshot_measures_from_the_spawn() {
    let mut t = task(5, 1_000);
    t.record_poll_start(1_500, None);
    let s = task_snapshot(&t, 4_000);
    assert_eq!(s.id, 5);
    assert_eq!(s.name, "t5");
    assert_eq!(s.age_ns, 3_000);
    assert_eq!(s.state, TaskState::Polling);
    assert_eq!(s.poll_events[0].started_after_spawn_ns, 500);
    assert_eq!(s.poll_events[0].duration_ns, None);
    assert_eq!(task_snapshot(&t, 10).age_ns, 0);
}

#[test]
fn a_snapshot_lists_the_most_recent_poll_first() {
    let mut t = task(6, 100);
    t.record_poll_start(200, None);
    t.record_poll_end(210, PollResult::Pending);
    t.record_poll_start(300, None);
    let s = task_snapshot(&t, 400);
    assert_eq!(s.poll_events.len(), 2);
    assert_eq!(s.poll_events[0].started_after_spawn_ns, 200);
    assert_eq!(s.poll_events[0].duration_ns, None);
    assert_eq!(s.poll_events[1].started_after_spawn_ns, 100);
    assert_eq!(s.poll_events[1].duration_ns, Some(10));
}

#[test]
fn snapshots_of_all_tasks_carry_every_field() {
    let mut reg = TaskRegistry::new();
    init_task_tracking(&mut reg);
    let mut a = task(1, 1_000);
    a.record_poll_start(1_100, Some("p1".to_string()));
    a.record_poll_end(1_150, PollResult::Pending);
    a.record_poll_start(1_300, None);
    register_task(&mut reg, a);
    register_task(&mut reg, task(2, 2_000));
    let stored = reg.tasks.as_ref().unwrap();
    assert_eq!(stored[0].name, "t1");
    assert_eq!(stored[0].poll_events.len(), 2);
    let snaps = snapshot_all_tasks(&reg, 5_000);
    assert_eq!(snaps.len(), 2);
    assert_eq!(snaps[0].id, 1);
    assert_eq!(snaps[0].name, "t1");
    assert_eq!(snaps[0].age_ns, 4_000);
    assert_eq!(snaps[0].spawn_backtrace, "bt");
    assert_eq!(snaps[0].state, TaskState::Polling);
    assert_eq!(snaps[0].poll_events.len(), 2);
    assert_eq!(snaps[0].poll_events[0].started_after_spawn_ns, 300);
    assert_eq!(snaps[0].poll_events[0].duration_ns, None);
    assert_eq!(snaps[0].poll_events[1].started_after_spawn_ns, 100);
    assert_eq!(snaps[0].poll_events[1].duration_ns, Some(50));
    assert_eq!(snaps[0].poll_events[1].backtrace, Some("p1".to_string()));
    assert_eq!(snaps[1].name, "t2");
    assert_eq!(snaps[1].age_ns, 3_000);
}
