use peeps::sql_guard::BAD_REQUEST;
use peeps::web_api::{
    admit_query_error, admit_row, authorize, check_sql_request, combine_command_output,
    debug_result_response, truncate_command_output,
    connections_response, convert_params, debug_result_id, debug_result_url,
    finish_process_debug, normalize_debug_request, process_debug_step, run_debug_command_text,
    scoped_view_statements, snapshot_progress, tally_snapshot, ConnectedProcessInfo, DebugStep,
    InFlightSnapshot, JsonParam, ProcessDebugRequest, RowBudget, RowDecision, SqlAccess, SqlParam,
    INTERNAL_SERVER_ERROR, MAX_RESPONSE_BYTES, MAX_ROWS, NOT_FOUND,
};

fn s(x: &str) -> String {
    x.to_string()
}

#[test]
fn snapshot_statuses_are_tallied() {
    let rows = vec![
        (s("responded"), 3usize),
        (s("timeout"), 1),
        (s("error"), 2),
        (s("other"), 10),
        (s("responded"), 1),
    ];
    let r = tally_snapshot(9, 123, 7, &rows);
    assert_eq!(r.snapshot_id, 9);
    assert_eq!(r.captured_at_ns, 123);
    assert_eq!(r.requested, 7);
    assert_eq!(r.responded, 4);
    assert_eq!(r.timed_out, 1);
    assert_eq!(r.error, 2);
}

#[test]
fn progress_lists_answered_and_pending_processes() {
    let inactive = snapshot_progress(&None);
    assert!(!inactive.active);
    assert_eq!(inactive.snapshot_id, None);
    assert_eq!(inactive.requested, 0);
    assert!(inactive.responded_processes.is_empty());

    let f = InFlightSnapshot {
        snapshot_id: 4,
        requested: vec![s("a"), s("b"), s("c")],
        pending: vec![s("b")],
    };
    let r = snapshot_progress(&Some(f));
    assert!(r.active);
    assert_eq!(r.snapshot_id, Some(4));
    assert_eq!(r.requested, 3);
    assert_eq!(r.responded, 2);
    assert_eq!(r.pending, 1);
    assert_eq!(r.responded_processes, vec![s("a"), s("c")]);
    assert_eq!(r.pending_processes, vec![s("b")]);
}

fn conn(key: &str, name: &str) -> ConnectedProcessInfo {
    ConnectedProcessInfo { proc_key: s(key), process_name: s(name) }
}

#[test]
fn connections_are_sorted_named_and_deduplicated() {
    let conns = vec![conn("k3", "zeta"), conn("k1", ""), conn("k2", "alpha"), conn("k2", "alpha")];
    let r = connections_response(&conns, false);
    assert_eq!(r.connected_processes, 4);
    assert!(r.can_take_snapshot);
    let listed: Vec<(String, String)> = r
        .processes
        .iter()
        .map(|p| (p.process_name.clone(), p.proc_key.clone()))
        .collect();
    assert_eq!(
        listed,
        vec![(s("alpha"), s("k2")), (s("k1"), s("k1")), (s("zeta"), s("k3"))]
    );
}

#[test]
fn no_snapshot_while_one_is_in_flight_or_nobody_is_connected() {
    assert!(!connections_response(&vec![conn("k", "n")], true).can_take_snapshot);
    let r = connections_response(&vec![], false);
    assert!(!r.can_take_snapshot);
    assert!(r.processes.is_empty());
}

#[test]
fn listing_orders_by_code_point() {
    let conns = vec![conn("b", "é"), conn("a", "z"), conn("c", "Z")];
    let r = connections_response(&conns, false);
    let names: Vec<&str> = r.processes.iter().map(|p| p.process_name.as_str()).collect();
    assert_eq!(names, vec!["Z", "z", "é"]);
}

#[test]
fn debug_requests_are_normalised() {
    let req = ProcessDebugRequest {
        snapshot_id: 1,
        proc_key: s("  key-1 "),
        action: s(" SaMple "),
        run: true,
    };
    let (action, key) = normalize_debug_request(&req).ok().expect("valid");
    assert_eq!(action, "sample");
    assert_eq!(key, "key-1");

    let req = ProcessDebugRequest { snapshot_id: 1, proc_key: s("k"), action: s("  "), run: false };
    let e = normalize_debug_request(&req).err().expect("missing action");
    assert_eq!(e.status, BAD_REQUEST);
    assert_eq!(e.message, "missing action");

    let req = ProcessDebugRequest { snapshot_id: 1, proc_key: s(" "), action: s("x"), run: false };
    let e = normalize_debug_request(&req).err().expect("missing key");
    assert_eq!(e.message, "missing proc_key");
}

#[test]
fn debug_command_text_names_the_command() {
    assert_eq!(run_debug_command_text("sample", 42), "sample 42 1");
    assert_eq!(run_debug_command_text("spindump", -3), "sudo -n spindump -3");
    assert_eq!(run_debug_command_text("other", 1), "other");
}

fn row(pid: Option<i64>) -> Option<(String, Option<i64>, String)> {
    Some((s("proc"), pid, s("key")))
}

#[test]
fn debug_steps_follow_the_platform_and_the_request() {
    let e = process_debug_step(1, "sample", None, true, true).err().expect("not found");
    assert_eq!(e.status, NOT_FOUND);
    assert_eq!(e.message, "process not found in snapshot");

    match process_debug_step(1, "sample", row(None), true, true) {
        Ok(DebugStep::Respond(r)) => {
            assert_eq!(r.status, "missing_pid");
            assert_eq!(r.command, "pid unavailable for this process");
            assert_eq!(r.pid, None);
        }
        _ => panic!("expected a response"),
    }

    match process_debug_step(1, "sample", row(Some(5)), true, false) {
        Ok(DebugStep::Respond(r)) => {
            assert_eq!(r.status, "unsupported");
            assert_eq!(r.status_message.as_deref(), Some("sample is available on macOS only"));
            assert_eq!(r.command, "sample 5 1");
        }
        _ => panic!("expected a response"),
    }

    match process_debug_step(1, "spindump", row(Some(5)), false, true) {
        Ok(DebugStep::Respond(r)) => {
            assert_eq!(r.status, "prepared");
            assert_eq!(
                r.status_message.as_deref(),
                Some("spindump command prepared, not executed")
            );
        }
        _ => panic!("expected a response"),
    }

    match process_debug_step(2, "spindump", row(Some(5)), true, true) {
        Ok(DebugStep::Run(d)) => {
            assert_eq!(d.binary, "sudo");
            assert_eq!(d.args, vec![s("-n"), s("spindump"), s("5")]);
            let done = finish_process_debug(d, Ok((s("out"), 0)));
            assert_eq!(done.status, "executed");
            assert_eq!(done.command_output.as_deref(), Some("out"));
            assert_eq!(done.command_exit_code, Some(0));
            assert_eq!(done.snapshot_id, 2);
        }
        _ => panic!("expected a run"),
    }

    match process_debug_step(2, "sample", row(Some(5)), true, true) {
        Ok(DebugStep::Run(d)) => {
            assert_eq!(d.binary, "sample");
            assert_eq!(d.args, vec![s("5"), s("1")]);
            let failed = finish_process_debug(d, Ok((s(""), 2)));
            assert_eq!(failed.status, "execution_failed");
        }
        _ => panic!("expected a run"),
    }

    let e = process_debug_step(1, "bogus", row(Some(5)), true, true).err().expect("unsupported");
    assert_eq!(e.status, BAD_REQUEST);
    assert_eq!(e.message, "unsupported action: bogus");
}

#[test]
fn a_command_that_does_not_start_is_an_execution_error() {
    match process_debug_step(1, "sample", row(Some(5)), true, true) {
        Ok(DebugStep::Run(d)) => {
            let r = finish_process_debug(d, Err(s("no such binary")));
            assert_eq!(r.status, "execution_error");
            assert_eq!(r.status_message.as_deref(), Some("no such binary"));
            assert!(r.command_output.is_none());
            assert!(r.result_url.is_none());
        }
        _ => panic!("expected a run"),
    }
}

#[test]
fn command_output_is_combined_and_capped() {
    assert_eq!(combine_command_output("out", "err"), "out\nerr");
    assert_eq!(combine_command_output("", "err"), "err");
    assert_eq!(combine_command_output("out", ""), "out");
    let long = "x".repeat(70_000);
    assert_eq!(truncate_command_output(long).len(), 65_536);
    assert_eq!(truncate_command_output("short".to_string()), "short");
}

#[test]
fn kept_debug_results_are_found_or_not() {
    assert_eq!(debug_result_response(Some("text".to_string())).ok().as_deref(), Some("text"));
    let e = debug_result_response(None).err().expect("missing");
    assert_eq!(e.status, NOT_FOUND);
    assert_eq!(e.message, "process debug result not found");
}

#[test]
fn debug_results_are_named_and_addressed() {
    let id = debug_result_id(1_700_000_000_123, 7);
    assert_eq!(id, "process-debug-result-1700000000123-7");
    assert_eq!(
        debug_result_url(&id),
        "/api/process-debug-result/process-debug-result-1700000000123-7"
    );
}

#[test]
fn sql_requests_are_checked_before_preparing() {
    assert_eq!(check_sql_request("  SELECT 1;  ").ok().as_deref(), Some("SELECT 1;"));
    let e = check_sql_request("   ").err().expect("empty");
    assert_eq!(e.message, "empty SQL");
    let e = check_sql_request("SELECT 1; SELECT 2").err().expect("two statements");
    assert_eq!(e.message, "multiple statements not allowed");
    let e = check_sql_request("select * from MAIN.nodes").err().expect("main access");
    assert_eq!(e.message, "direct access to main.nodes is not allowed; use nodes instead");
}

#[test]
fn rows_are_capped_by_count_and_bytes() {
    let mut b = RowBudget::new();
    assert!(matches!(admit_row(&mut b, 10), RowDecision::Keep));
    assert_eq!(b.rows, 1);
    assert!(!b.truncated);
    assert!(matches!(admit_row(&mut b, MAX_RESPONSE_BYTES), RowDecision::Stop));
    assert!(b.truncated);
    assert_eq!(b.rows, 1);

    let mut b = RowBudget { rows: MAX_ROWS, total_bytes: 0, truncated: false };
    assert!(matches!(admit_row(&mut b, 1), RowDecision::Stop));
    assert!(b.truncated);
    assert_eq!(b.total_bytes, 0);
}

#[test]
fn query_errors_end_or_fail_the_answer() {
    let mut b = RowBudget::new();
    assert!(admit_query_error(&mut b, true, "interrupted").is_ok());
    assert!(b.truncated);
    let mut b = RowBudget::new();
    let e = admit_query_error(&mut b, false, "disk I/O error").err().expect("error");
    assert_eq!(e.status, INTERNAL_SERVER_ERROR);
    assert_eq!(e.message, "query error: disk I/O error");
}

#[test]
fn params_are_converted_or_refused() {
    let ok = convert_params(&vec![
        JsonParam::Null,
        JsonParam::Bool(true),
        JsonParam::Bool(false),
        JsonParam::Number { as_i64: Some(-4), as_f64_bits: Some((-4.0f64).to_bits()) },
        JsonParam::Number { as_i64: None, as_f64_bits: Some(1.5f64.to_bits()) },
        JsonParam::Text(s("t")),
    ])
    .ok()
    .expect("bindable");
    assert!(matches!(ok[0], SqlParam::Null));
    assert!(matches!(ok[1], SqlParam::Integer(1)));
    assert!(matches!(ok[2], SqlParam::Integer(0)));
    assert!(matches!(ok[3], SqlParam::Integer(-4)));
    match &ok[4] {
        SqlParam::Real(bits) => assert_eq!(f64::from_bits(*bits), 1.5),
        _ => panic!("expected a real"),
    }
    assert!(matches!(&ok[5], SqlParam::Text(t) if t == "t"));

    let e = convert_params(&vec![JsonParam::Null, JsonParam::Composite]).err().expect("refused");
    assert_eq!(e.status, BAD_REQUEST);
    assert_eq!(e.message, "param 2: unsupported type (object/array)");
    let e = convert_params(&vec![JsonParam::Number { as_i64: None, as_f64_bits: None }])
        .err()
        .expect("refused");
    assert_eq!(e.message, "param 1: unsupported number");
}

#[test]
fn scoped_views_select_one_snapshot() {
    let v = scoped_view_statements(12);
    assert_eq!(v.len(), 3);
    assert_eq!(
        v[0],
        "CREATE TEMP VIEW [nodes] AS SELECT id, kind, process, proc_key, attrs_json FROM main.[nodes] WHERE snapshot_id = 12"
    );
    assert_eq!(
        v[2],
        "CREATE TEMP VIEW [snapshot_processes] AS SELECT process, pid, proc_key, status, recv_at_ns, error_text FROM main.[snapshot_processes] WHERE snapshot_id = 12"
    );
}

#[test]
fn the_authorizer_denies_schema_reads_and_writes() {
    assert!(authorize(SqlAccess::Read, "nodes"));
    assert!(!authorize(SqlAccess::Read, "sqlite_master"));
    assert!(!authorize(SqlAccess::Read, "sqlite_temp_master"));
    assert!(authorize(SqlAccess::Select, ""));
    assert!(authorize(SqlAccess::Function, ""));
    assert!(authorize(SqlAccess::Recursive, ""));
    assert!(!authorize(SqlAccess::Other, "nodes"));
}
