//! `wait_agent`: waiting for a sub-agent's result.

use vstd::prelude::*;

verus! {

/// Arguments of `wait_agent`.
pub struct WaitAgentArgs {
    /// The agent to wait for; any when absent.
    pub agent_path: Option<String>,
    /// Longest wait in milliseconds.
    pub timeout_ms: u64,
}

/// Reply of `wait_agent`.
pub struct WaitAgentOutput {
    pub status: String,
    pub result: Option<String>,
    pub agent_path: Option<String>,
    pub has_more: bool,
    /// Tools the child was denied.
    pub denied_tools: Vec<String>,
}

/// The wait when none is given: two minutes.
pub fn default_timeout_ms() -> (t: u64)
    ensures
        t == 120_000,
{
    120_000
}

} // verus!
