//! `close_agent`: a running agent is closed only with `force`, and the
//! reply warns of what closing does and does not do.

use vstd::prelude::*;
use crate::multi_agent::list_agents::AgentInfo;
use crate::text::{chars_eq, chars_of, dec, push_char, push_dec, push_str, string_of, string_views};

verus! {

/// Arguments of `close_agent`.
pub struct CloseAgentArgs {
    /// Agent path to close, e.g. `root/searcher`.
    pub agent_path: String,
    /// Required to close a running agent.
    pub force: bool,
}

/// Reply of `close_agent`.
pub struct CloseAgentOutput {
    pub closed: bool,
    pub previous_status: String,
    pub message: String,
}

pub open spec fn pending_warning(n: nat) -> Seq<char> {
    "warning: this agent has "@ + dec(n)
        + " report(s) not yet delivered to you \u{2014} they stay in the batch and WILL still arrive; closing does not revoke them."@
}

pub open spec fn queued_warning() -> Seq<char> {
    "warning: this agent has a queued task that is dropped now and will never run."@
}

/// The warnings before closing an agent in `status` with `pending_results`
/// undelivered reports.
pub open spec fn warnings_for(status: Seq<char>, pending_results: nat) -> Seq<Seq<char>> {
    let a = if pending_results > 0 {
        seq![pending_warning(pending_results)]
    } else {
        Seq::empty()
    };
    if status == "queued"@ {
        a.push(queued_warning())
    } else {
        a
    }
}

/// One warning per condition: undelivered reports first, then a queued
/// task; none for an agent with neither.
pub proof fn one_warning_per_condition(status: Seq<char>, pending_results: nat)
    ensures
        warnings_for(status, pending_results).len() == (if pending_results > 0 { 1int } else { 0int })
            + (if status == "queued"@ { 1int } else { 0int }),
        pending_results > 0 ==> warnings_for(status, pending_results)[0] == pending_warning(pending_results),
        status == "queued"@ ==> warnings_for(status, pending_results).last() == queued_warning(),
{
}


/// The warnings before closing an agent in `status` with `pending_results`
/// undelivered reports.
pub fn close_warnings(status: &str, pending_results: usize) -> (w: Vec<String>)
    ensures
        string_views(w@) == warnings_for(status@, pending_results as nat),
{
    let mut w: Vec<String> = Vec::new();
    if pending_results > 0 {
        let mut s = String::new();
        push_str(&mut s, "warning: this agent has ");
        push_dec(&mut s, pending_results as u64);
        push_str(&mut s, " report(s) not yet delivered to you \u{2014} they stay in the batch and WILL still arrive; closing does not revoke them.");
        w.push(s);
    }
    let ghost before = string_views(w@);
    if chars_eq(&chars_of(status), &chars_of("queued")) {
        w.push(string_of(&chars_of("warning: this agent has a queued task that is dropped now and will never run.")));
        assert(string_views(w@) =~= before.push(queued_warning()));
    }
    assert(string_views(w@) =~= warnings_for(status@, pending_results as nat));
    w
}

/// The refusal to close the agent `pre` (as listed before closing) without
/// `force` while it runs.
pub fn close_gate(pre: &Option<AgentInfo>, force: bool) -> (r: Option<CloseAgentOutput>)
    ensures
        match pre {
            Some(a) => if a.status@ == "running"@ && !force {
                r matches Some(o) && !o.closed && o.previous_status@ == "running"@
                    && o.message@ == "agent still running ("@ + dec(a.tool_calls as nat)
                    + " tool calls). Set force=true to close anyway \u{2014} its partial work is lost."@
            } else {
                r is None
            },
            None => r is None,
        },
{
    match pre {
        Some(a) => {
            if chars_eq(&chars_of(a.status.as_str()), &chars_of("running")) && !force {
                let mut m = String::new();
                push_str(&mut m, "agent still running (");
                push_dec(&mut m, a.tool_calls as u64);
                push_str(&mut m, " tool calls). Set force=true to close anyway \u{2014} its partial work is lost.");
                return Some(
                    CloseAgentOutput {
                        closed: false,
                        previous_status: string_of(&chars_of("running")),
                        message: m,
                    },
                );
            }
            None
        },
        None => None,
    }
}

/// `message` followed by each warning after a space.
pub open spec fn with_warnings(message: Seq<char>, w: Seq<Seq<char>>) -> Seq<char>
    decreases w.len(),
{
    if w.len() == 0 {
        message
    } else {
        with_warnings(message, w.drop_last()) + " "@ + w.last()
    }
}

/// The reply once the runtime answered the close: its result
/// `(closed, previous status, message)` with the warnings appended, or its
/// error with the status listed before (`unknown` if the agent was not
/// listed).
pub fn close_output(result: Result<(bool, String, String), String>, warnings: &Vec<String>, pre_status: Option<String>) -> (o: CloseAgentOutput)
    ensures
        match result {
            Ok((closed, prev, msg)) => o.closed == closed && o.previous_status == prev && o.message@
                == with_warnings(msg@, string_views(warnings@)),
            Err(e) => !o.closed && o.message == e && match pre_status {
                Some(s) => o.previous_status == s,
                None => o.previous_status@ == "unknown"@,
            },
        },
{
    match result {
        Ok((closed, prev, msg)) => {
            let mut message = msg;
            let ghost m0 = message@;
            let mut i: usize = 0;
            while i < warnings.len()
                invariant
                    i <= warnings@.len(),
                    message@ == with_warnings(m0, string_views(warnings@).take(i as int)),
                decreases warnings@.len() - i,
            {
                assert(string_views(warnings@).take(i + 1).drop_last() =~= string_views(warnings@).take(i as int));
                push_char(&mut message, ' ');
                push_str(&mut message, warnings[i].as_str());
                i = i + 1;
                proof {
                    reveal_strlit(" ");
                }
                assert(message@ =~= with_warnings(m0, string_views(warnings@).take(i as int)));
            }
            assert(string_views(warnings@).take(i as int) =~= string_views(warnings@));
            CloseAgentOutput { closed, previous_status: prev, message }
        },
        Err(e) => CloseAgentOutput {
            closed: false,
            previous_status: match pre_status {
                Some(s) => s,
                None => string_of(&chars_of("unknown")),
            },
            message: e,
        },
    }
}

} // verus!
