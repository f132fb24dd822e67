//! `send_message`: a message queued as context or handed over as a task.

use vstd::prelude::*;

verus! {

/// Arguments of `send_message`.
pub struct SendMessageArgs {
    pub agent_path: String,
    pub message: String,
    /// Hand the message over as a task the child runs.
    pub trigger: bool,
}

/// Reply of `send_message`.
pub struct SendMessageOutput {
    pub delivered: bool,
}

/// The reply for the runtime's answer: delivered only on an `Ok(true)`.
pub fn send_output(result: Result<bool, String>) -> (o: SendMessageOutput)
    ensures
        o.delivered == (result matches Ok(b) && b),
{
    SendMessageOutput {
        delivered: match result {
            Ok(b) => b,
            Err(_) => false,
        },
    }
}

} // verus!
