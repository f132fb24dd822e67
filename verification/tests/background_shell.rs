use phi_kernel_tools::background_shell::{
    format_status, BackgroundTaskRegistry, BackgroundTaskStatus, ShellTaskEntry, TaskCancelTool,
    TaskOutputTool,
};
use std::time::Duration;
use tokio_util::sync::CancellationToken;

fn setup(max_tasks: usize) -> (BackgroundTaskRegistry, CancellationToken) {
    (BackgroundTaskRegistry::new(max_tasks), CancellationToken::new())
}

#[test]
fn register_returns_bg_id() {
    let (mut reg, token) = setup(4);
    let id = reg.register("echo hi", None, token, None).unwrap();
    assert!(id.starts_with("bg_"), "id should start with bg_: {id}");
    assert_eq!(id.len(), 11, "bg_ + 8 hex chars = 11");
    assert!(id[3..].chars().all(|c| c.is_ascii_hexdigit() && !c.is_ascii_uppercase()));
}

#[test]
fn register_records_command_and_dir() {
    let (mut reg, token) = setup(4);
    let id = reg.register("ls -la", Some("/tmp"), token, None).unwrap();
    let snap = reg.snapshot(&id).unwrap();
    assert_eq!(snap.command, "ls -la");
    assert_eq!(snap.working_dir.as_deref(), Some("/tmp"));
    assert_eq!(snap.status, BackgroundTaskStatus::Running);
}

#[test]
fn register_respects_max_tasks() {
    let (mut reg, _token) = setup(2);
    reg.register("cmd1", None, CancellationToken::new(), None).unwrap();
    reg.register("cmd2", None, CancellationToken::new(), None).unwrap();
    let err = reg.register("cmd3", None, CancellationToken::new(), None).unwrap_err();
    assert!(err.contains("too many"));
}

#[test]
fn register_allows_new_after_terminal() {
    let (mut reg, _) = setup(2);
    let id1 = reg.register("cmd1", None, CancellationToken::new(), None).unwrap();
    reg.register("cmd2", None, CancellationToken::new(), None).unwrap();
    reg.finish(&id1, Some(0));
    reg.register("cmd3", None, CancellationToken::new(), None).unwrap();
}

#[test]
fn finish_sets_done_and_exit_code() {
    let (mut reg, token) = setup(4);
    let id = reg.register("cmd", None, token, None).unwrap();
    reg.finish(&id, Some(42));
    let snap = reg.snapshot(&id).unwrap();
    assert_eq!(snap.status, BackgroundTaskStatus::Done);
    assert_eq!(snap.exit_code, Some(42));
    assert!(snap.finished_at.is_some());
}

#[test]
fn terminal_state_protection() {
    let (mut reg, token) = setup(4);
    let id = reg.register("cmd", None, token, None).unwrap();
    reg.finish(&id, Some(0));
    reg.set_error(&id, "boom".into());
    let snap = reg.snapshot(&id).unwrap();
    assert_eq!(snap.status, BackgroundTaskStatus::Done);
}

#[test]
fn snapshot_all_gc_removes_old_entries() {
    let (mut reg, token) = setup(4);
    let id = reg.register("cmd", None, token, None).unwrap();
    reg.finish(&id, Some(0));
    let snaps = reg.snapshot_all(Duration::from_secs(60));
    assert_eq!(snaps.len(), 1);
    std::hint::black_box(&snaps);
    let snaps = reg.snapshot_all(Duration::ZERO);
    assert_eq!(snaps.len(), 0);
}

#[test]
fn running_task_survives_zero_ttl_gc() {
    let (mut reg, token) = setup(4);
    reg.register("cmd", None, token, None).unwrap();
    assert_eq!(reg.snapshot_all(Duration::ZERO).len(), 1);
}

#[test]
fn output_is_appended_to_running_task() {
    let (mut reg, token) = setup(4);
    let id = reg.register("cmd", None, token, Some(77)).unwrap();
    reg.append_output(&id, Some("out1"), None);
    reg.append_output(&id, Some("out2"), Some("err1"));
    let snap = reg.snapshot(&id).unwrap();
    assert_eq!(snap.stdout, "out1\nout2\n");
    assert_eq!(snap.stderr, "err1\n");
    assert_eq!(reg.running_pgids(), vec![Some(77)]);
}

#[test]
fn entry_buffer_keeps_head_and_tail_when_large() {
    let mut e = ShellTaskEntry::new("bg_1".into(), "cmd".into(), None, None);
    let line = "x".repeat(1000);
    for _ in 0..100 {
        e.append_stdout(&line);
    }
    assert!(e.stdout.contains("...[truncated]...\n"));
    assert!(e.stdout.chars().count() <= 8192 + 18 + 24576);
    assert!(e.stdout.starts_with("xxx"));
}

#[test]
fn cancel_only_running_tasks() {
    let (mut reg, token) = setup(4);
    let id = reg.register("cmd", None, token.clone(), None).unwrap();
    assert!(reg.cancel(&id));
    assert!(token.is_cancelled());
    assert_eq!(reg.snapshot(&id).unwrap().status, BackgroundTaskStatus::Cancelled);
    assert!(!reg.cancel(&id));
    assert!(!reg.cancel("bg_missing"));
}

#[test]
fn shutdown_cancels_and_clears() {
    let (mut reg, token) = setup(4);
    reg.register("cmd", None, token.clone(), None).unwrap();
    reg.shutdown();
    assert!(token.is_cancelled());
    assert!(reg.snapshot_all(Duration::from_secs(60)).is_empty());
}

#[test]
fn task_cancel_replies() {
    let (mut reg, token) = setup(4);
    let tool = TaskCancelTool::new();
    assert_eq!(tool.respond(&mut reg, ""), "[Error]: No task_id provided.");
    assert_eq!(tool.respond(&mut reg, "bg_x"), "Task bg_x not found.");
    let id = reg.register("cmd", None, token, None).unwrap();
    assert_eq!(tool.respond(&mut reg, &id), format!("Task {id} cancelled."));
    assert_eq!(
        tool.respond(&mut reg, &id),
        format!("Task {id} already finished with status: Cancelled.")
    );
}

#[test]
fn task_cancel_reports_error_status_debug_form() {
    let (mut reg, token) = setup(4);
    let id = reg.register("cmd", None, token, None).unwrap();
    reg.set_error(&id, "spawn \"failed\"".into());
    let tool = TaskCancelTool::new();
    assert_eq!(
        tool.respond(&mut reg, &id),
        format!("Task {id} already finished with status: Error(\"spawn \\\"failed\\\"\").")
    );
}

#[test]
fn status_report_fields_follow_status() {
    let (mut reg, token) = setup(4);
    let id = reg.register("cmd", None, token, None).unwrap();
    let running = format_status(&reg.snapshot(&id).unwrap(), 5);
    assert_eq!(running.status, "running");
    assert!(running.partial);
    assert_eq!(running.exit_code, None);
    reg.finish(&id, Some(3));
    let done = format_status(&reg.snapshot(&id).unwrap(), 9);
    assert_eq!(done.status, "done");
    assert!(!done.partial);
    assert_eq!(done.exit_code, Some(Some(3)));
    assert_eq!(done.elapsed_ms, 9);
}

#[test]
fn task_output_tool_messages() {
    let tool = TaskOutputTool::new();
    assert_eq!(tool.name(), "task_output");
    assert_eq!(tool.missing_task_id(), "[Error]: No task_id provided.");
    assert!(tool.not_found_message("bg_1").starts_with("Task bg_1 not found."));
}

#[test]
fn finishing_a_finished_task_changes_nothing() {
    let (mut reg, token) = setup(4);
    let id = reg.register("cmd", None, token, None).unwrap();
    reg.finish(&id, Some(1));
    let before = reg.snapshot(&id).unwrap();
    reg.finish(&id, Some(7));
    let after = reg.snapshot(&id).unwrap();
    assert_eq!(after.status, BackgroundTaskStatus::Done);
    assert_eq!(after.exit_code, Some(1));
    assert_eq!(after.finished_at, before.finished_at);
}

#[test]
fn finishing_a_cancelled_task_keeps_it_cancelled() {
    let (mut reg, token) = setup(4);
    let id = reg.register("cmd", None, token, None).unwrap();
    assert!(reg.cancel(&id));
    reg.finish(&id, Some(0));
    let snap = reg.snapshot(&id).unwrap();
    assert_eq!(snap.status, BackgroundTaskStatus::Cancelled);
    assert_eq!(snap.exit_code, None);
}

#[test]
fn shutdown_cancels_only_running_tasks() {
    let (mut reg, _) = setup(4);
    let done_token = CancellationToken::new();
    let live_token = CancellationToken::new();
    let done = reg.register("a", None, done_token.clone(), None).unwrap();
    let live = reg.register("b", None, live_token.clone(), None).unwrap();
    reg.finish(&done, Some(0));
    let cancelled = reg.shutdown();
    assert_eq!(cancelled, vec![live]);
    assert!(live_token.is_cancelled());
    assert!(!done_token.is_cancelled());
}
