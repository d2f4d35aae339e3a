use rsync_tui::app::App;
use rsync_tui::run::{finish_run, record_stderr_line, record_stdout_line, start_run, RunOutcome};

#[test]
fn test_start_run_builds_command_and_marks_running() {
    let mut app = App::new();
    app.source = "/a".to_string();
    app.destination = "/b".to_string();
    let args = start_run(&mut app, false);

    assert_eq!(args[0], "rsync");
    assert_eq!(args[args.len() - 2], "/a");
    assert_eq!(args[args.len() - 1], "/b");
    assert!(app.running);
    assert_eq!(app.progress_percentage, "0");
    assert_eq!(app.logs.len(), 1);
    assert!(app.logs[0].starts_with("Running: rsync"));
}

#[test]
fn test_dry_run_request_keeps_stored_options() {
    let mut app = App::new();
    assert!(!app.options.dry_run);
    let args = start_run(&mut app, true);

    // the effective request carries the flag, the stored set does not
    assert!(args.contains(&"-n".to_string()));
    assert!(!app.options.dry_run);
}

#[test]
fn test_normal_run_overrides_stored_dry_run() {
    let mut app = App::new();
    app.options.dry_run = true;
    let args = start_run(&mut app, false);

    // the invocation kind's value wins over the stored flag
    assert!(!args.contains(&"-n".to_string()));
    assert!(app.options.dry_run);
}

#[test]
fn test_run_request_touches_no_other_flag() {
    let mut app = App::new();
    app.options.progress = false;
    let args = start_run(&mut app, true);

    assert!(args.contains(&"-n".to_string()));
    assert!(!args.contains(&"--progress".to_string()));
    assert!(!app.options.progress);
}

#[test]
fn test_stdout_line_with_progress_updates_gauge() {
    let mut app = App::new();
    record_stdout_line(&mut app, "  72%  5.1MB/s  0:00:10".to_string());
    assert_eq!(app.progress_percentage.parse::<f64>().unwrap(), 72.0);
    assert_eq!(app.transfer_info, "5.1MB/s 0:00:10");
    assert_eq!(app.progress_output, vec!["  72%  5.1MB/s  0:00:10"]);
    assert_eq!(app.logs, vec!["  72%  5.1MB/s  0:00:10"]);
}

#[test]
fn test_stdout_line_without_progress_still_logged() {
    let mut app = App::new();
    record_stdout_line(&mut app, "building file list".to_string());
    assert_eq!(app.progress_percentage, "0");
    assert_eq!(app.progress_output, vec!["building file list"]);
    assert_eq!(app.logs, vec!["building file list"]);
}

#[test]
fn test_stderr_line_tagged() {
    let mut app = App::new();
    record_stderr_line(&mut app, "permission denied".to_string());
    assert_eq!(app.progress_output, vec!["[ERR] permission denied"]);
    assert_eq!(app.logs, vec!["[ERR] permission denied"]);
}

#[test]
fn test_finish_success_forces_full_gauge() {
    let mut app = App::new();
    app.running = true;
    finish_run(&mut app, RunOutcome::Exited { success: true, code: Some(0) });
    assert!(!app.running);
    assert_eq!(app.progress_percentage.parse::<f64>().unwrap(), 100.0);
    assert_eq!(app.logs, vec!["Sync completed successfully"]);
}

#[test]
fn test_finish_failure_logs_exit_code() {
    let mut app = App::new();
    app.running = true;
    finish_run(&mut app, RunOutcome::Exited { success: false, code: Some(23) });
    assert!(!app.running);
    assert_eq!(app.progress_percentage, "0");
    assert_eq!(app.logs, vec!["Sync failed with exit code: Some(23)"]);
}

#[test]
fn test_finish_failure_negative_code() {
    let mut app = App::new();
    finish_run(&mut app, RunOutcome::Exited { success: false, code: Some(-3) });
    assert_eq!(app.logs, vec!["Sync failed with exit code: Some(-3)"]);
}

#[test]
fn test_finish_failure_without_code() {
    let mut app = App::new();
    finish_run(&mut app, RunOutcome::Exited { success: false, code: None });
    assert_eq!(app.logs, vec!["Sync failed with exit code: None"]);
}

#[test]
fn test_finish_wait_failure() {
    let mut app = App::new();
    app.running = true;
    finish_run(&mut app, RunOutcome::WaitFailed("interrupted".to_string()));
    assert!(!app.running);
    assert_eq!(app.logs, vec!["Failed to wait for rsync: interrupted"]);
}

#[test]
fn test_finish_spawn_failure() {
    let mut app = App::new();
    app.running = true;
    finish_run(&mut app, RunOutcome::SpawnFailed("No such file or directory".to_string()));
    assert!(!app.running);
    assert_eq!(app.logs, vec!["Failed to execute rsync: No such file or directory"]);
}

#[test]
fn test_simulated_run_end_to_end() {
    // a child that emits three lines, the second carrying the marker
    let mut app = App::new();
    app.source = "/data".to_string();
    app.destination = "host:/backup".to_string();
    start_run(&mut app, false);
    assert!(app.running);

    let lines = [
        "sending incremental file list",
        "  72%  5.1MB/s  0:00:10",
        "somefile.txt",
    ];
    for line in lines.iter() {
        record_stdout_line(&mut app, line.to_string());
    }

    assert_eq!(app.progress_percentage.parse::<f64>().unwrap(), 72.0);
    assert_eq!(app.transfer_info, "5.1MB/s 0:00:10");

    finish_run(&mut app, RunOutcome::Exited { success: true, code: Some(0) });
    assert!(!app.running);
    for line in lines.iter() {
        assert!(app.logs.contains(&line.to_string()));
    }
    assert!(app.logs.contains(&"Sync completed successfully".to_string()));
    assert_eq!(app.progress_percentage.parse::<f64>().unwrap(), 100.0);
}
