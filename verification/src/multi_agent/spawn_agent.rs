//! `spawn_agent`: the static role prompt of every sub-agent and the reply
//! of a spawn.

use vstd::prelude::*;
use crate::text::{chars_of, push_str, string_of};

verus! {

/// System prompt of every spawned sub-agent; the working directory is
/// appended per spawn.
pub const CHILD_SYSTEM_PROMPT: &'static str = "You are a focused sub-agent spawned to handle exactly one task. The task is the first message you receive. Work autonomously \u{2014} there is no one to ask mid-task: use the available tools to gather what you need, then deliver. Your final message is your deliverable: make it complete, structured, and self-contained, with concrete evidence (file paths, line references, measurements) for every claim. State limitations explicitly instead of guessing.\n\nPath discipline: relative paths in tool calls resolve against your working directory (stated below). When the task specifies an absolute path, use it verbatim in tool calls. When what you observe contradicts what the task describes, re-verify your location and paths before drawing conclusions.";

/// Description of the `spawn_agent` tool.
pub const DESCRIPTION: &'static str = "Spawn an independent sub-agent to handle a task.\nSub-agents start with NO context of this conversation and see\nnothing but `task` \u{2014} it must be COMPLETE and self-contained:\nthe goal, the full paths of anything to analyze, the scope,\nand what the final report should cover (e.g. \"Analyze\n/Users/me/demo/codex: map the module structure, then explain\nthe agent loop, tool system, and error-handling patterns;\nreport with file paths and line references\").\nGive it a short unique name (task_name).\nOmit `model` unless the user explicitly asked for a different one.";

/// Arguments of `spawn_agent`.
pub struct SpawnAgentArgs {
    /// Unique name of the sub-agent (used in its path).
    pub task_name: String,
    /// The complete, self-contained task.
    pub task: String,
    /// History to fork: `none`, `all`, or the last N turns.
    pub fork_turns: Option<String>,
    /// Model override.
    pub model: Option<String>,
}

/// Reply of `spawn_agent`.
pub struct SpawnAgentOutput {
    pub agent_path: String,
    pub message: String,
}

/// The system prompt of a sub-agent working in `working_dir`.
pub fn child_system_prompt(working_dir: &str) -> (s: String)
    ensures
        s@ == CHILD_SYSTEM_PROMPT@ + "\n\nWorking directory: "@ + working_dir@,
{
    let mut s = String::new();
    push_str(&mut s, CHILD_SYSTEM_PROMPT);
    push_str(&mut s, "\n\nWorking directory: ");
    push_str(&mut s, working_dir);
    s
}

/// The history to fork: the one asked for, else the configured default.
pub fn fork_choice(asked: Option<String>, configured: Option<String>) -> (r: Option<String>)
    ensures
        r == (match asked {
            Some(a) => Some(a),
            None => configured,
        }),
{
    match asked {
        Some(a) => Some(a),
        None => configured,
    }
}

/// The reply of a spawn: the new agent's path, or the error.
pub fn spawn_output(result: Result<String, String>) -> (o: SpawnAgentOutput)
    ensures
        match result {
            Ok(p) => o.agent_path == p && o.message@ == "Agent spawned successfully"@,
            Err(e) => o.agent_path@.len() == 0 && o.message@ == "Failed to spawn agent: "@ + e@,
        },
{
    match result {
        Ok(p) => SpawnAgentOutput { agent_path: p, message: string_of(&chars_of("Agent spawned successfully")) },
        Err(e) => {
            let mut m = String::new();
            push_str(&mut m, "Failed to spawn agent: ");
            push_str(&mut m, e.as_str());
            SpawnAgentOutput { agent_path: String::new(), message: m }
        },
    }
}

} // verus!
