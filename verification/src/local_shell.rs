//! Local shell command execution: the decisions of a command run (collecting
//! streamed output, reacting to a timeout or a cancellation) and the shaping
//! of its result to the output budget. Spawning, streaming and killing the
//! process are the caller's part.

use vstd::prelude::*;
use crate::text::{
    chars_of, dec, dec_signed, push_char, push_chars, push_dec, push_dec_signed, push_str,
    string_of, trim_chars, trim_seq,
};

verus! {

/// Local shell command execution tool; commands run through `sh -c`.
pub struct LocalShellTool {
    pub timeout_ms: u64,
}

impl LocalShellTool {
    pub fn new(timeout_ms: u64) -> (r: Self)
        ensures
            r.timeout_ms == timeout_ms,
    {
        LocalShellTool { timeout_ms }
    }

    pub fn name(&self) -> (s: &'static str)
        ensures
            s@ == "execute_command"@,
    {
        "execute_command"
    }

    pub fn description(&self) -> (s: &'static str)
        ensures
            s@ == "Execute a shell command locally. Use for file operations, code compilation, Git operations, system info queries, etc. For commands that may produce large output, consider limiting lines (e.g. journalctl -n 50, grep ... | head -n 30)."@,
    {
        "Execute a shell command locally. Use for file operations, code compilation, Git operations, system info queries, etc. For commands that may produce large output, consider limiting lines (e.g. journalctl -n 50, grep ... | head -n 30)."
    }
}

/// `"(empty)"` for empty output.
pub open spec fn or_empty(s: Seq<char>) -> Seq<char> {
    if s.len() == 0 {
        "(empty)"@
    } else {
        s
    }
}

pub open spec fn streams_text(command: Seq<char>, so: Seq<char>, se: Seq<char>) -> Seq<char> {
    "\ncommand: "@ + command + "\nstdout:\n"@ + or_empty(so) + "\nstderr:\n"@ + or_empty(se)
}

/// A timed-out command is reported by the timeout line first, whatever its
/// exit code, followed by the command and both trimmed streams.
pub proof fn timeout_is_reported_first(
    command: Seq<char>,
    stdout: Seq<char>,
    stderr: Seq<char>,
    exit_code: Option<i32>,
)
    ensures
        ({
            let r = result_text(command, stdout, stderr, exit_code, true);
            &&& r.take(19) == "[Command Timed Out]"@
            &&& r.skip(19) == streams_text(command, trim_seq(stdout), trim_seq(stderr))
            &&& r == result_text(command, stdout, stderr, None, true)
        }),
{
    reveal_strlit("[Command Timed Out]");
    let r = result_text(command, stdout, stderr, exit_code, true);
    assert(r.take(19) =~= "[Command Timed Out]"@);
    assert(r.skip(19) =~= streams_text(command, trim_seq(stdout), trim_seq(stderr)));
}

/// A command that failed, timed out or was terminated is reported by its
/// status line and then, in this order, the command, its trimmed standard
/// output and its trimmed standard error, an empty stream shown as
/// `(empty)`; the stdout section holds what the command wrote to stdout and
/// the stderr section what it wrote to stderr.
pub proof fn unsuccessful_report_sections(
    command: Seq<char>,
    stdout: Seq<char>,
    stderr: Seq<char>,
    exit_code: Option<i32>,
    timed_out: bool,
)
    requires
        timed_out || exit_code != Some(0i32),
    ensures
        ({
            let out = trim_seq(stdout);
            let err = trim_seq(stderr);
            let status = if timed_out {
                "[Command Timed Out]"@
            } else {
                match exit_code {
                    Some(code) => "[Command Failed (exit code: "@ + dec_signed(code as int) + ")]"@,
                    None => "[Command Terminated]"@,
                }
            };
            result_text(command, stdout, stderr, exit_code, timed_out) == status + "\ncommand: "@ + command
                + "\nstdout:\n"@ + (if out.len() == 0 { "(empty)"@ } else { out }) + "\nstderr:\n"@ + (if err.len()
                == 0 {
                "(empty)"@
            } else {
                err
            })
        }),
{
}

/// A successful command is reported by its trimmed output alone: stdout
/// only, stderr only, both with stdout first, or a fixed line when both are
/// empty.
pub proof fn success_report_sections(command: Seq<char>, stdout: Seq<char>, stderr: Seq<char>)
    ensures
        ({
            let out = trim_seq(stdout);
            let err = trim_seq(stderr);
            let r = result_text(command, stdout, stderr, Some(0i32), false);
            &&& (out.len() == 0 && err.len() == 0 ==> r == "Command executed successfully with no output."@)
            &&& (out.len() > 0 && err.len() == 0 ==> r == out)
            &&& (out.len() == 0 && err.len() > 0 ==> r == "stderr:\n"@ + err)
            &&& (out.len() > 0 && err.len() > 0 ==> r == "stdout:\n"@ + out + "\n\nstderr:\n"@ + err)
        }),
{
}

/// The report of a finished command, from its trimmed output streams.
pub open spec fn result_text(
    command: Seq<char>,
    stdout: Seq<char>,
    stderr: Seq<char>,
    exit_code: Option<i32>,
    timed_out: bool,
) -> Seq<char> {
    let so = trim_seq(stdout);
    let se = trim_seq(stderr);
    if timed_out {
        "[Command Timed Out]"@ + streams_text(command, so, se)
    } else {
        match exit_code {
            Some(code) => if code == 0 {
                if so.len() == 0 && se.len() == 0 {
                    "Command executed successfully with no output."@
                } else if se.len() == 0 {
                    so
                } else if so.len() == 0 {
                    "stderr:\n"@ + se
                } else {
                    "stdout:\n"@ + so + "\n\nstderr:\n"@ + se
                }
            } else {
                "[Command Failed (exit code: "@ + dec_signed(code as int) + ")]"@ + streams_text(
                    command,
                    so,
                    se,
                )
            },
            None => "[Command Terminated]"@ + streams_text(command, so, se),
        }
    }
}

pub open spec fn truncation_marker() -> Seq<char> {
    "...[output truncated]"@
}

/// The marker on lines of its own, as it stands between head and tail.
pub open spec fn truncation_notice() -> Seq<char> {
    "\n"@ + truncation_marker() + "\n"@
}

/// `s` cut to `max_chars` characters where needed: the first third of the
/// room that the notice leaves, the notice, and the last two thirds; a budget
/// too small for the whole notice gets as much of the notice as fits.
pub open spec fn truncated(s: Seq<char>, max_chars: Option<usize>) -> Seq<char> {
    match max_chars {
        None => s,
        Some(max) => if s.len() <= max {
            s
        } else if max < 23 {
            truncation_notice().take(max as int)
        } else {
            let available = max - 23;
            let head = available / 3;
            let tail = available - head;
            s.take(head) + truncation_notice() + s.skip(s.len() - tail)
        },
    }
}

/// Output within the budget is kept whole; longer output is cut to exactly
/// the budget, keeping a third of the room that the notice leaves for its
/// head and the rest for its tail.
pub proof fn truncation_fits_budget(s: Seq<char>, max: usize)
    ensures
        s.len() <= max ==> truncated(s, Some(max)) == s,
        s.len() > max ==> truncated(s, Some(max)).len() == max,
        s.len() > max >= 23 ==> {
            let t = truncated(s, Some(max));
            let head = ((max - 23) / 3) as int;
            &&& t.take(head) == s.take(head)
            &&& t.skip(max - (max - 23 - head)) == s.skip(s.len() - (max - 23 - head))
        },
{
    reveal_strlit("...[output truncated]");
    reveal_strlit("\n");
    assert(truncation_notice().len() == 23);
    if s.len() > max && max >= 23 {
        let t = truncated(s, Some(max));
        let head = ((max - 23) / 3) as int;
        let tail = max - 23 - head;
        assert(t.take(head) =~= s.take(head));
        assert(t.skip(max - tail) =~= s.skip(s.len() - tail));
    }
}

fn push_or_empty(out: &mut String, s: &[char])
    ensures
        final(out)@ == old(out)@ + or_empty(s@),
{
    if s.len() == 0 {
        push_str(out, "(empty)");
    } else {
        push_chars(out, s);
    }
}

fn push_streams(out: &mut String, command: &str, so: &[char], se: &[char])
    ensures
        final(out)@ == old(out)@ + streams_text(command@, so@, se@),
{
    push_str(out, "\ncommand: ");
    push_str(out, command);
    push_str(out, "\nstdout:\n");
    push_or_empty(out, so);
    push_str(out, "\nstderr:\n");
    push_or_empty(out, se);
    assert(final(out)@ =~= old(out)@ + streams_text(command@, so@, se@));
}

/// The report of a finished command.
pub fn format_result(
    command: &str,
    stdout: &str,
    stderr: &str,
    exit_code: Option<i32>,
    timed_out: bool,
) -> (r: String)
    ensures
        r@ == result_text(command@, stdout@, stderr@, exit_code, timed_out),
{
    let so = trim_chars(&chars_of(stdout));
    let se = trim_chars(&chars_of(stderr));
    let mut out = String::new();
    if timed_out {
        push_str(&mut out, "[Command Timed Out]");
        push_streams(&mut out, command, &so, &se);
        return out;
    }
    match exit_code {
        Some(code) => {
            if code == 0 {
                if so.len() == 0 && se.len() == 0 {
                    push_str(&mut out, "Command executed successfully with no output.");
                } else if se.len() == 0 {
                    push_chars(&mut out, &so);
                } else if so.len() == 0 {
                    push_str(&mut out, "stderr:\n");
                    push_chars(&mut out, &se);
                } else {
                    push_str(&mut out, "stdout:\n");
                    push_chars(&mut out, &so);
                    push_str(&mut out, "\n\nstderr:\n");
                    push_chars(&mut out, &se);
                }
            } else {
                push_str(&mut out, "[Command Failed (exit code: ");
                push_dec_signed(&mut out, code as i64);
                push_str(&mut out, ")]");
                push_streams(&mut out, command, &so, &se);
            }
        },
        None => {
            push_str(&mut out, "[Command Terminated]");
            push_streams(&mut out, command, &so, &se);
        },
    }
    out
}

/// `s` cut to the output budget `max_chars`, keeping its head and its tail.
pub fn truncate_output(s: &str, max_chars: Option<usize>) -> (r: String)
    ensures
        r@ == truncated(s@, max_chars),
        max_chars matches Some(max) ==> r@.len() <= max,
{
    proof {
        reveal_strlit("\n...[output truncated]\n");
        reveal_strlit("...[output truncated]");
        reveal_strlit("\n");
        assert("\n...[output truncated]\n"@ =~= truncation_notice());
    }
    let c = chars_of(s);
    match max_chars {
        None => string_of(&c),
        Some(max) => {
            if c.len() <= max {
                return string_of(&c);
            }
            if max < 23 {
                let notice = chars_of("\n...[output truncated]\n");
                let part = crate::text::copy_range(&notice, 0, max);
                assert(part@ =~= truncation_notice().take(max as int));
                return string_of(&part);
            }
            let available: usize = max - 23;
            let head = available / 3;
            let tail = available - head;
            let mut out = String::new();
            push_chars(&mut out, &c[0..head]);
            push_str(&mut out, "\n...[output truncated]\n");
            let rest = crate::text::copy_range(&c, c.len() - tail, c.len());
            push_chars(&mut out, &rest);
            assert(c@.subrange(0, head as int) =~= c@.take(head as int));
            assert(rest@ =~= c@.skip(c@.len() - tail));
            out
        },
    }
}

/// An event of a running command.
pub enum ShellEvent {
    /// A line read from standard output.
    Stdout(String),
    /// A line read from standard error.
    Stderr(String),
    /// Both output streams closed: the process exited.
    Drained,
    /// The timeout elapsed.
    TimedOut,
    /// The call was cancelled.
    Cancelled,
}

/// What the runner does next.
pub enum ShellAction {
    /// Keep waiting for events.
    Continue,
    /// Reap the process for its exit code, then ask for the summary.
    Reap,
    /// Kill the process group and reply with the text.
    KillAndReply(String),
}

/// The collected output of one command run.
pub struct ShellRun {
    pub command: String,
    pub timeout_ms: u64,
    pub stdout: String,
    pub stderr: String,
}

impl ShellRun {
    pub fn new(command: String, timeout_ms: u64) -> (r: Self)
        ensures
            r.command == command,
            r.timeout_ms == timeout_ms,
            r.stdout@.len() == 0,
            r.stderr@.len() == 0,
    {
        ShellRun { command, timeout_ms, stdout: String::new(), stderr: String::new() }
    }

    /// Reacts to one event: lines are collected with their newline; a timeout
    /// or a cancellation ends the run with its reply; closed streams call for
    /// the exit code.
    pub fn on_event(&mut self, event: ShellEvent) -> (a: ShellAction)
        ensures
            final(self).command == old(self).command,
            final(self).timeout_ms == old(self).timeout_ms,
            match event {
                ShellEvent::Stdout(line) => a is Continue && final(self).stdout@ == old(
                    self,
                ).stdout@ + line@ + seq!['\n'] && final(self).stderr == old(self).stderr,
                ShellEvent::Stderr(line) => a is Continue && final(self).stderr@ == old(
                    self,
                ).stderr@ + line@ + seq!['\n'] && final(self).stdout == old(self).stdout,
                ShellEvent::Drained => a is Reap && *final(self) == *old(self),
                ShellEvent::TimedOut => *final(self) == *old(self) && (a matches ShellAction::KillAndReply(t)
                    && t@ == "[Command Timed Out after "@ + dec(old(self).timeout_ms as nat)
                    + "ms]\ncommand: "@ + old(self).command@),
                ShellEvent::Cancelled => *final(self) == *old(self) && (a matches ShellAction::KillAndReply(t)
                    && t@ == "[Command Terminated]\ncommand: "@ + old(self).command@),
            },
    {
        match event {
            ShellEvent::Stdout(line) => {
                push_str(&mut self.stdout, line.as_str());
                push_char(&mut self.stdout, '\n');
                ShellAction::Continue
            },
            ShellEvent::Stderr(line) => {
                push_str(&mut self.stderr, line.as_str());
                push_char(&mut self.stderr, '\n');
                ShellAction::Continue
            },
            ShellEvent::Drained => ShellAction::Reap,
            ShellEvent::TimedOut => {
                let mut t = String::new();
                push_str(&mut t, "[Command Timed Out after ");
                push_dec(&mut t, self.timeout_ms);
                push_str(&mut t, "ms]\ncommand: ");
                push_str(&mut t, self.command.as_str());
                ShellAction::KillAndReply(t)
            },
            ShellEvent::Cancelled => {
                let mut t = String::new();
                push_str(&mut t, "[Command Terminated]\ncommand: ");
                push_str(&mut t, self.command.as_str());
                ShellAction::KillAndReply(t)
            },
        }
    }

    /// The reply once the process was reaped with `exit_code`, cut to the
    /// output budget.
    pub fn summary(&self, exit_code: Option<i32>, max_output_chars: Option<usize>) -> (r: String)
        ensures
            r@ == truncated(
                result_text(self.command@, self.stdout@, self.stderr@, exit_code, false),
                max_output_chars,
            ),
    {
        let s = format_result(
            self.command.as_str(),
            self.stdout.as_str(),
            self.stderr.as_str(),
            exit_code,
            false,
        );
        truncate_output(s.as_str(), max_output_chars)
    }
}

/// The command argument, trimmed, or the reply for a missing one.
pub fn command_arg(raw: Option<&str>) -> (r: Result<String, String>)
    ensures
        match r {
            Ok(c) => c@ == trim_seq(raw.unwrap_or("")@) && c@.len() > 0 && raw is Some,
            Err(e) => e@ == "[Error]: No command provided."@ && (raw is None || trim_seq(
                raw.unwrap()@,
            ).len() == 0),
        },
{
    match raw {
        None => Err(string_of(&chars_of("[Error]: No command provided."))),
        Some(s) => {
            let t = trim_chars(&chars_of(s));
            if t.len() == 0 {
                Err(string_of(&chars_of("[Error]: No command provided.")))
            } else {
                Ok(string_of(&t))
            }
        },
    }
}

} // verus!
