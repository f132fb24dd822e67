//! `followup_task`: the older form of `send_message` with a task.

use vstd::prelude::*;
use crate::text::push_str;

verus! {

/// Arguments of `followup_task`.
pub struct FollowupTaskArgs {
    pub agent_path: String,
    pub task: String,
}

/// Reply of `followup_task`.
pub struct FollowupTaskOutput {
    pub accepted: bool,
    pub agent_path: String,
}

/// The reply for the runtime's answer to the task sent to `agent_path`;
/// an error is reported in `agent_path` as `error: ...`.
pub fn followup_output(agent_path: String, result: Result<bool, String>) -> (o: FollowupTaskOutput)
    ensures
        match result {
            Ok(b) => o.accepted == b && o.agent_path == agent_path,
            Err(e) => !o.accepted && o.agent_path@ == "error: "@ + e@,
        },
{
    match result {
        Ok(b) => FollowupTaskOutput { accepted: b, agent_path },
        Err(e) => {
            let mut p = String::new();
            push_str(&mut p, "error: ");
            push_str(&mut p, e.as_str());
            FollowupTaskOutput { accepted: false, agent_path: p }
        },
    }
}

} // verus!
