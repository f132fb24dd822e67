use phi_kernel_tools::multi_agent::close_agent::{close_gate, close_output, close_warnings};
use phi_kernel_tools::multi_agent::followup_task::followup_output;
use phi_kernel_tools::multi_agent::list_agents::{list_item, task_excerpt, AgentInfo};
use phi_kernel_tools::multi_agent::send_message::send_output;
use phi_kernel_tools::multi_agent::spawn_agent::{
    child_system_prompt, fork_choice, spawn_output, CHILD_SYSTEM_PROMPT, DESCRIPTION,
};
use phi_kernel_tools::multi_agent::wait_agent::default_timeout_ms;

#[test]
fn pending_reports_warn_that_delivery_survives_close() {
    let w = close_warnings("done", 2);
    assert_eq!(w.len(), 1, "{w:?}");
    assert!(w[0].contains("2 report(s)"));
    assert!(w[0].contains("WILL still arrive"));
    assert!(w[0].contains("does not revoke"));
}

#[test]
fn queued_task_warns_that_it_is_dropped() {
    let w = close_warnings("queued", 0);
    assert_eq!(w.len(), 1, "{w:?}");
    assert!(w[0].contains("queued task"));
    assert!(w[0].contains("never run"));
}

#[test]
fn running_with_no_pending_gets_no_warning() {
    assert!(close_warnings("running", 0).is_empty());
    assert!(close_warnings("done", 0).is_empty());
}

#[test]
fn queued_and_pending_warn_together() {
    let w = close_warnings("queued", 1);
    assert_eq!(w.len(), 2, "{w:?}");
}

fn agent(status: &str, tool_calls: usize, task: Option<&str>) -> AgentInfo {
    AgentInfo {
        agent_path: "root/a".to_string(),
        status: status.to_string(),
        tool_calls,
        last_activity_secs: Some(3),
        task: task.map(|t| t.to_string()),
        pending_results: 0,
    }
}

#[test]
fn close_gate_refuses_running_agent_without_force() {
    let refused = close_gate(&Some(agent("running", 7, None)), false).unwrap();
    assert!(!refused.closed);
    assert_eq!(refused.previous_status, "running");
    assert_eq!(
        refused.message,
        "agent still running (7 tool calls). Set force=true to close anyway \u{2014} its partial work is lost."
    );
    assert!(close_gate(&Some(agent("running", 7, None)), true).is_none());
    assert!(close_gate(&Some(agent("done", 7, None)), false).is_none());
    assert!(close_gate(&None, false).is_none());
}

#[test]
fn close_of_unknown_agent_reports_unknown_status() {
    let out = close_output(Err("no such agent".to_string()), &vec![], None);
    assert!(!out.closed);
    assert_eq!(out.previous_status, "unknown");
    assert_eq!(out.message, "no such agent");
}

#[test]
fn close_output_appends_warnings() {
    let w = close_warnings("queued", 0);
    let out = close_output(Ok((true, "queued".to_string(), "closed".to_string())), &w, None);
    assert!(out.closed);
    assert_eq!(out.previous_status, "queued");
    assert_eq!(out.message, format!("closed {}", w[0]));
}

#[test]
fn excerpt_truncates_long_first_line_with_ellipsis() {
    let task = "分析 /Users/kangzengchen/source/buka/demo/codex 工程的完整结构和核心设计，重点关注架构";
    let out = task_excerpt(task);
    assert!(out.ends_with('…'));
    assert_eq!(out.chars().count(), 61);
    assert!(!out.contains('\n'));
}

#[test]
fn excerpt_keeps_short_task_verbatim_without_ellipsis() {
    assert_eq!(task_excerpt("短任务"), "短任务");
}

#[test]
fn excerpt_uses_first_line_only() {
    let out = task_excerpt("第一行\n第二行不该出现");
    assert_eq!(out, "第一行");
}

#[test]
fn excerpt_of_empty_task_is_empty() {
    assert_eq!(task_excerpt(""), "");
}

#[test]
fn list_item_carries_facts_and_excerpt() {
    let item = list_item(&agent("running", 2, Some("first\nsecond")));
    assert_eq!(item.agent_path, "root/a");
    assert_eq!(item.status, "running");
    assert_eq!(item.tool_calls, 2);
    assert_eq!(item.last_activity_secs, Some(3));
    assert_eq!(item.task.as_deref(), Some("first"));
}

#[test]
fn child_prompt_states_autonomy_and_deliverable() {
    assert!(CHILD_SYSTEM_PROMPT.contains("Work autonomously"));
    assert!(CHILD_SYSTEM_PROMPT.contains("final message is your deliverable"));
}

#[test]
fn child_prompt_carries_path_discipline() {
    assert!(CHILD_SYSTEM_PROMPT.contains("relative paths in tool calls resolve against"));
    assert!(CHILD_SYSTEM_PROMPT.contains("use it verbatim in tool calls"));
    assert!(CHILD_SYSTEM_PROMPT
        .contains("re-verify your location and paths before drawing conclusions"));
    assert!(!CHILD_SYSTEM_PROMPT.contains("project") && !CHILD_SYSTEM_PROMPT.contains("target"));
}

#[test]
fn description_demands_self_contained_task() {
    assert!(DESCRIPTION.contains("COMPLETE and self-contained"));
    assert!(DESCRIPTION.contains("NO context"));
    assert!(!DESCRIPTION.contains("one\nsentence") && !DESCRIPTION.contains("one sentence"));
}

#[test]
fn child_prompt_names_working_directory() {
    let p = child_system_prompt("/work/dir");
    assert!(p.starts_with(CHILD_SYSTEM_PROMPT));
    assert!(p.ends_with("\n\nWorking directory: /work/dir"));
}

#[test]
fn fork_choice_prefers_the_asked_history() {
    assert_eq!(fork_choice(Some("all".into()), Some("none".into())), Some("all".to_string()));
    assert_eq!(fork_choice(None, Some("3".into())), Some("3".to_string()));
    assert_eq!(fork_choice(None, None), None);
}

#[test]
fn spawn_output_reports_path_or_error() {
    let ok = spawn_output(Ok("root/helper".to_string()));
    assert_eq!(ok.agent_path, "root/helper");
    assert_eq!(ok.message, "Agent spawned successfully");
    let err = spawn_output(Err("max agents reached".to_string()));
    assert!(err.agent_path.is_empty());
    assert_eq!(err.message, "Failed to spawn agent: max agents reached");
}

#[test]
fn send_and_followup_replies() {
    assert!(send_output(Ok(true)).delivered);
    assert!(!send_output(Ok(false)).delivered);
    assert!(!send_output(Err("gone".into())).delivered);
    let f = followup_output("root/w".into(), Ok(true));
    assert!(f.accepted);
    assert_eq!(f.agent_path, "root/w");
    let g = followup_output("root/w".into(), Err("gone".into()));
    assert!(!g.accepted);
    assert_eq!(g.agent_path, "error: gone");
}

#[test]
fn wait_defaults_to_two_minutes() {
    assert_eq!(default_timeout_ms(), 120_000);
}
