//! `list_agents`: what each sub-agent does, with a short task excerpt.

use vstd::prelude::*;
use crate::text::{
    chars_of, lemma_next_newline, lines_of, lines_view, next_newline, push_char, push_chars, split_lines,
    string_of,
};

verus! {

/// Characters of a task shown in a listing.
pub const TASK_EXCERPT_CHARS: usize = 60;

/// The facts the runtime reports of one sub-agent.
pub struct AgentInfo {
    pub agent_path: String,
    pub status: String,
    pub tool_calls: usize,
    pub last_activity_secs: Option<u64>,
    pub task: Option<String>,
    /// Reports of the agent not yet delivered to the parent.
    pub pending_results: usize,
}

/// Arguments of `list_agents` (none).
pub struct ListAgentsArgs {}

/// One listed sub-agent.
pub struct ListAgentItem {
    pub agent_path: String,
    pub status: String,
    pub tool_calls: usize,
    pub last_activity_secs: Option<u64>,
    pub task: Option<String>,
}

/// The first line of `task`, cut to `TASK_EXCERPT_CHARS` characters with
/// `…` after a cut.
pub open spec fn excerpt_text(task: Seq<char>) -> Seq<char> {
    let first = if lines_of(task).len() > 0 {
        lines_of(task)[0]
    } else {
        Seq::empty()
    };
    if first.len() > TASK_EXCERPT_CHARS {
        first.take(TASK_EXCERPT_CHARS as int).push('\u{2026}')
    } else {
        first
    }
}

/// A task excerpt is one line of at most `TASK_EXCERPT_CHARS` characters and
/// the ellipsis.
pub proof fn excerpt_is_one_short_line(task: Seq<char>)
    ensures
        excerpt_text(task).len() <= TASK_EXCERPT_CHARS + 1,
        forall|i: int| 0 <= i < excerpt_text(task).len() ==> #[trigger] excerpt_text(task)[i] != '\n',
{
    if task.len() > 0 {
        lemma_next_newline(task, 0);
        let e = next_newline(task, 0);
        let first = lines_of(task)[0];
        assert(forall|k: int| 0 <= k < first.len() ==> #[trigger] first[k] == task[k]);
    }
}

/// The first line of `task`, cut to `TASK_EXCERPT_CHARS` characters.
pub fn task_excerpt(task: &str) -> (r: String)
    ensures
        r@ == excerpt_text(task@),
{
    let lines = split_lines(&chars_of(task));
    if lines.len() == 0 {
        return String::new();
    }
    assert(lines_view(lines@)[0] == lines@[0]@);
    let first = &lines[0];
    let mut s = String::new();
    if first.len() > TASK_EXCERPT_CHARS {
        push_chars(&mut s, &first.as_slice()[0..TASK_EXCERPT_CHARS]);
        push_char(&mut s, '\u{2026}');
        assert(first@.subrange(0, TASK_EXCERPT_CHARS as int) =~= first@.take(TASK_EXCERPT_CHARS as int));
    } else {
        push_chars(&mut s, first.as_slice());
    }
    s
}

fn clone_opt(o: &Option<String>) -> (r: Option<String>)
    ensures
        r == *o,
{
    match o {
        Some(s) => Some(s.clone()),
        None => None,
    }
}

/// The listing entry of an agent: its facts with the task excerpt.
pub fn list_item(a: &AgentInfo) -> (r: ListAgentItem)
    ensures
        r.agent_path == a.agent_path,
        r.status == a.status,
        r.tool_calls == a.tool_calls,
        r.last_activity_secs == a.last_activity_secs,
        match a.task {
            Some(t) => r.task matches Some(e) && e@ == excerpt_text(t@),
            None => r.task is None,
        },
{
    ListAgentItem {
        agent_path: a.agent_path.clone(),
        status: a.status.clone(),
        tool_calls: a.tool_calls,
        last_activity_secs: a.last_activity_secs,
        task: match &a.task {
            Some(t) => Some(task_excerpt(t.as_str())),
            None => None,
        },
    }
}

} // verus!
