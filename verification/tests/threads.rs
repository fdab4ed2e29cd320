use peeps::threads::{
    deregister_thread, extract_top_frame, register_thread, register_thread_guard,
    release_thread_guard, sampled_threads, summarize_thread_samples, ThreadRegistry,
};

#[test]
fn top_frame_skips_machinery_and_locations() {
    let bt = "   0: std::backtrace::Backtrace::force_capture\n             at /rustc/library/std/src/backtrace.rs:10\n   1: peeps_threads::sigprof_handler\n   2: myapp::worker::run\n             at src/worker.rs:10\n";
    assert_eq!(extract_top_frame(bt).as_deref(), Some("myapp::worker::run"));
}

#[test]
fn top_frame_of_noise_only_is_none() {
    assert_eq!(extract_top_frame("stack backtrace:\n  0: <unknown>\n"), None);
    assert_eq!(extract_top_frame(""), None);
    assert_eq!(extract_top_frame("\n\n   \n"), None);
}

#[test]
fn top_frame_handles_crlf_and_prefixes() {
    assert_eq!(extract_top_frame("5: foo::bar\r\n").as_deref(), Some("foo::bar"));
    assert_eq!(extract_top_frame("abc: def").as_deref(), Some("abc: def"));
    assert_eq!(extract_top_frame(": lone").as_deref(), Some("lone"));
    assert_eq!(extract_top_frame("12: <unknown>\n3: real::frame").as_deref(), Some("real::frame"));
    assert_eq!(extract_top_frame("12:  \n").as_deref(), Some("12:"));
}

#[test]
fn registry_registers_and_deregisters_threads() {
    let mut reg = ThreadRegistry::new();
    register_thread(&mut reg, 7, "main");
    let guard = register_thread_guard(&mut reg, 9, "worker");
    register_thread(&mut reg, 7, "main-again");
    let (ids, names) = sampled_threads(&reg);
    assert_eq!(ids, vec![7, 9, 7]);
    assert_eq!(names, vec!["main", "worker", "main-again"]);
    deregister_thread(&mut reg, 7);
    let (ids, _) = sampled_threads(&reg);
    assert_eq!(ids, vec![9]);
    release_thread_guard(&mut reg, guard);
    assert!(reg.entries.is_empty());
}

#[test]
fn at_most_max_threads_are_sampled() {
    let mut reg = ThreadRegistry::new();
    for i in 0..300u64 {
        register_thread(&mut reg, i, "t");
    }
    let (ids, names) = sampled_threads(&reg);
    assert_eq!(ids.len(), peeps::threads::MAX_THREADS);
    assert_eq!(names.len(), peeps::threads::MAX_THREADS);
    assert_eq!(ids[255], 255);
}

#[test]
fn samples_are_summarised_per_thread() {
    let bt1 = "0: app::loop_forever\n".to_string();
    let bt2 = "0: app::other\n".to_string();
    let names = vec!["a".to_string(), "b".to_string()];
    let sweeps = vec![
        vec![Some(bt1.clone()), None],
        vec![Some(bt1.clone()), None],
        vec![Some(bt2.clone()), None],
        vec![Some(bt1.clone()), None],
    ];
    let out = summarize_thread_samples(&names, &sweeps);
    assert_eq!(out.len(), 2);
    let a = &out[0];
    assert_eq!(a.name, "a");
    assert_eq!(a.samples, 4);
    assert_eq!(a.responded, 4);
    assert_eq!(a.same_location_count, 1);
    assert_eq!(a.dominant_frame.as_deref(), Some("app::loop_forever"));
    assert_eq!(a.backtrace.as_deref(), Some(bt1.as_str()));
    let b = &out[1];
    assert_eq!(b.responded, 0);
    assert_eq!(b.same_location_count, 0);
    assert!(b.backtrace.is_none());
    assert!(b.dominant_frame.is_none());
}

#[test]
fn unanswered_samples_do_not_break_a_repeat() {
    let bt = "0: app::stuck\n".to_string();
    let names = vec!["t".to_string()];
    let sweeps = vec![vec![Some(bt.clone())], vec![None], vec![Some(bt.clone())]];
    let out = summarize_thread_samples(&names, &sweeps);
    assert_eq!(out[0].responded, 2);
    assert_eq!(out[0].same_location_count, 1);
    let noise = "0: <unknown>\n".to_string();
    let sweeps = vec![vec![Some(noise.clone())], vec![Some(noise)]];
    let out = summarize_thread_samples(&names, &sweeps);
    assert_eq!(out[0].responded, 2);
    assert_eq!(out[0].same_location_count, 0);
    assert!(out[0].dominant_frame.is_none());
}

#[test]
fn a_sweep_signals_everyone_but_the_collector() {
    let ids = vec![7u64, 3, 9, 3];
    let plan = peeps::threads::plan_sweep(&ids, 3);
    assert_eq!(plan.self_slot, Some(1));
    assert_eq!(plan.targets, vec![7, 9]);
    assert_eq!(plan.expected, 3);
    let plan = peeps::threads::plan_sweep(&ids, 5);
    assert_eq!(plan.self_slot, None);
    assert_eq!(plan.targets, ids);
    assert_eq!(plan.expected, 4);
    assert!(!peeps::threads::sweep_finished(2, 3, 10, 20));
    assert!(peeps::threads::sweep_finished(3, 3, 10, 20));
    assert!(peeps::threads::sweep_finished(0, 3, 20, 20));
}
