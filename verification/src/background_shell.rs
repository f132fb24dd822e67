//! Background shell tasks: shell-specific entries on the generic task
//! registry, with bounded output buffers (head and tail kept), and the
//! replies of the `task_output` and `task_cancel` tools.

use vstd::prelude::*;
use std::time::{Duration, Instant};
use tokio_util::sync::CancellationToken;
use uuid::Uuid;
use crate::clock::duration_nanos_of;
use crate::task_registry::registry::{
    ages_fit, expired_by_age, gc_tasks, has_task, is_running, running_in, snapshot_of, task_index, without_task, TaskRegistry,
};
use crate::task_registry::snapshot::Snapshot;
use crate::task_registry::traits::{TaskEntry, TaskStatus};
use crate::text::{
    byte_len, chars_of, copy_range, debug_quoted, dec, lemma_chars_le_bytes, push_char, push_chars,
    push_dec, push_str, quoted_debug, string_of,
};

verus! {

// ── Status and entry ────────────────────────────────────────────────────────

/// Status of a background task; every status but `Running` is terminal.
#[derive(Debug, PartialEq)]
pub enum BackgroundTaskStatus {
    Running,
    Done,
    TimedOut,
    Cancelled,
    Error(String),
}

impl Clone for BackgroundTaskStatus {
    fn clone(&self) -> (r: Self)
        ensures
            r == *self,
    {
        match self {
            BackgroundTaskStatus::Running => BackgroundTaskStatus::Running,
            BackgroundTaskStatus::Done => BackgroundTaskStatus::Done,
            BackgroundTaskStatus::TimedOut => BackgroundTaskStatus::TimedOut,
            BackgroundTaskStatus::Cancelled => BackgroundTaskStatus::Cancelled,
            BackgroundTaskStatus::Error(e) => BackgroundTaskStatus::Error(e.clone()),
        }
    }
}

impl TaskStatus for BackgroundTaskStatus {
    open spec fn terminal(&self) -> bool {
        !(self is Running)
    }

    open spec fn wake_worthy(&self) -> bool {
        self is Done || self is TimedOut || self is Error
    }

    fn is_terminal(&self) -> (b: bool) {
        match self {
            BackgroundTaskStatus::Running => false,
            _ => true,
        }
    }

    fn is_wake_worthy(&self) -> (b: bool) {
        match self {
            BackgroundTaskStatus::Done => true,
            BackgroundTaskStatus::TimedOut => true,
            BackgroundTaskStatus::Error(_) => true,
            _ => false,
        }
    }
}

/// Characters kept from the start of an overlong buffer.
pub const HEAD_LIMIT: usize = 8192;

/// Characters kept from the end of an overlong buffer.
pub const TAIL_LIMIT: usize = 24576;

/// `s` bounded to its first `HEAD_LIMIT` and last `TAIL_LIMIT` characters,
/// with a marker between them when anything was cut.
pub open spec fn bounded(s: Seq<char>) -> Seq<char> {
    if s.len() <= HEAD_LIMIT + TAIL_LIMIT {
        s
    } else {
        s.take(HEAD_LIMIT as int) + "...[truncated]...\n"@ + s.skip(s.len() - TAIL_LIMIT)
    }
}

/// A bounded buffer holds at most its head, the truncation marker and its
/// tail; a buffer within the limits is kept whole, and a longer one keeps its
/// first `HEAD_LIMIT` and last `TAIL_LIMIT` characters.
pub proof fn bounded_buffer_size(s: Seq<char>)
    ensures
        bounded(s).len() <= HEAD_LIMIT + 18 + TAIL_LIMIT,
        s.len() <= HEAD_LIMIT + TAIL_LIMIT ==> bounded(s) == s,
        s.len() > HEAD_LIMIT + TAIL_LIMIT ==> bounded(s).take(HEAD_LIMIT as int) == s.take(
            HEAD_LIMIT as int,
        ) && bounded(s).skip(bounded(s).len() - TAIL_LIMIT) == s.skip(s.len() - TAIL_LIMIT),
{
    reveal_strlit("...[truncated]...\n");
    if s.len() > HEAD_LIMIT + TAIL_LIMIT {
        let b = bounded(s);
        assert(b.take(HEAD_LIMIT as int) =~= s.take(HEAD_LIMIT as int));
        assert(b.skip(b.len() - TAIL_LIMIT) =~= s.skip(s.len() - TAIL_LIMIT));
    }
}

/// A background shell task.
#[derive(Debug)]
pub struct ShellTaskEntry {
    /// Task identifier (`bg_` and eight hexadecimal digits).
    pub id: String,
    /// The shell command.
    pub command: String,
    /// The working directory.
    pub working_dir: Option<String>,
    /// The current status.
    pub status: BackgroundTaskStatus,
    /// Standard output, bounded to its head and tail.
    pub stdout: String,
    /// Standard error, bounded to its head and tail.
    pub stderr: String,
    /// Exit code, once known.
    pub exit_code: Option<i32>,
    /// Process-group id of the spawned child.
    pub child_pgid: Option<u32>,
}

fn clone_opt_string(s: &Option<String>) -> (r: Option<String>)
    ensures
        r == *s,
{
    match s {
        Some(x) => Some(x.clone()),
        None => None,
    }
}

impl Clone for ShellTaskEntry {
    fn clone(&self) -> (r: Self)
        ensures
            r == *self,
    {
        ShellTaskEntry {
            id: self.id.clone(),
            command: self.command.clone(),
            working_dir: clone_opt_string(&self.working_dir),
            status: self.status.clone(),
            stdout: self.stdout.clone(),
            stderr: self.stderr.clone(),
            exit_code: self.exit_code,
            child_pgid: self.child_pgid,
        }
    }
}

impl TaskEntry for ShellTaskEntry {
    type Status = BackgroundTaskStatus;

    open spec fn task_id(&self) -> Seq<char> {
        self.id@
    }

    open spec fn task_status(&self) -> BackgroundTaskStatus {
        self.status
    }

    open spec fn with_status(&self, status: BackgroundTaskStatus) -> ShellTaskEntry {
        ShellTaskEntry { status, ..*self }
    }

    fn id(&self) -> (r: &str) {
        self.id.as_str()
    }

    fn status(&self) -> (r: &BackgroundTaskStatus) {
        &self.status
    }

    fn set_status(&mut self, status: BackgroundTaskStatus) {
        self.status = status;
    }
}

impl ShellTaskEntry {
    /// A running task with empty output.
    pub fn new(id: String, command: String, working_dir: Option<String>, pgid: Option<u32>) -> (r:
        Self)
        ensures
            r.id == id,
            r.command == command,
            r.working_dir == working_dir,
            r.status is Running,
            r.stdout@.len() == 0,
            r.stderr@.len() == 0,
            r.exit_code is None,
            r.child_pgid == pgid,
    {
        ShellTaskEntry {
            id,
            command,
            working_dir,
            status: BackgroundTaskStatus::Running,
            stdout: String::new(),
            stderr: String::new(),
            exit_code: None,
            child_pgid: pgid,
        }
    }

    /// `buf` bounded to its head and tail characters.
    fn bound_buffer(buf: &mut String)
        ensures
            final(buf)@ == bounded(old(buf)@),
    {
        let bytes = buf.as_str().as_bytes().len();
        proof {
            lemma_chars_le_bytes(buf@);
        }
        if bytes <= HEAD_LIMIT + TAIL_LIMIT {
            return;
        }
        let c = chars_of(buf.as_str());
        if c.len() <= HEAD_LIMIT + TAIL_LIMIT {
            return;
        }
        let mut out = String::new();
        push_chars(&mut out, &c[0..HEAD_LIMIT]);
        push_str(&mut out, "...[truncated]...\n");
        let tail = copy_range(&c, c.len() - TAIL_LIMIT, c.len());
        push_chars(&mut out, &tail);
        assert(c@.subrange(0, HEAD_LIMIT as int) =~= c@.take(HEAD_LIMIT as int));
        assert(tail@ =~= c@.skip(c@.len() - TAIL_LIMIT));
        *buf = out;
    }

    /// Appends a line of standard output, keeping the buffer bounded.
    pub fn append_stdout(&mut self, line: &str)
        ensures
            final(self).stdout@ == bounded(old(self).stdout@ + line@ + seq!['\n']),
            final(self).stderr == old(self).stderr,
            final(self).id == old(self).id,
            final(self).command == old(self).command,
            final(self).working_dir == old(self).working_dir,
            final(self).status == old(self).status,
            final(self).exit_code == old(self).exit_code,
            final(self).child_pgid == old(self).child_pgid,
    {
        push_str(&mut self.stdout, line);
        push_char(&mut self.stdout, '\n');
        Self::bound_buffer(&mut self.stdout);
    }

    /// Appends a line of standard error, keeping the buffer bounded.
    pub fn append_stderr(&mut self, line: &str)
        ensures
            final(self).stderr@ == bounded(old(self).stderr@ + line@ + seq!['\n']),
            final(self).stdout == old(self).stdout,
            final(self).id == old(self).id,
            final(self).command == old(self).command,
            final(self).working_dir == old(self).working_dir,
            final(self).status == old(self).status,
            final(self).exit_code == old(self).exit_code,
            final(self).child_pgid == old(self).child_pgid,
    {
        push_str(&mut self.stderr, line);
        push_char(&mut self.stderr, '\n');
        Self::bound_buffer(&mut self.stderr);
    }

    /// Sets the exit code; the status is unchanged.
    pub fn set_exit_code(&mut self, exit_code: Option<i32>)
        ensures
            *final(self) == (ShellTaskEntry { exit_code, ..*old(self) }),
    {
        self.exit_code = exit_code;
    }

    /// Sets the process-group id.
    pub fn set_pgid(&mut self, pgid: Option<u32>)
        ensures
            *final(self) == (ShellTaskEntry { child_pgid: pgid, ..*old(self) }),
    {
        self.child_pgid = pgid;
    }

    /// The process-group id.
    pub fn child_pgid(&self) -> (r: Option<u32>)
        ensures
            r == self.child_pgid,
    {
        self.child_pgid
    }
}

// ── Snapshots ───────────────────────────────────────────────────────────────

/// A copy of a background task's state.
#[derive(Debug)]
pub struct BackgroundTaskSnapshot {
    pub id: String,
    pub command: String,
    pub working_dir: Option<String>,
    pub status: BackgroundTaskStatus,
    pub started_at: Instant,
    pub finished_at: Option<Instant>,
    pub stdout: String,
    pub stderr: String,
    pub exit_code: Option<i32>,
}

/// `snap` shows the task `slot` of the generic registry.
pub open spec fn shows_task(snap: BackgroundTaskSnapshot, id: Seq<char>, entry: ShellTaskEntry, created_at: Instant, finished_at: Option<Instant>) -> bool {
    &&& snap.id@ == id
    &&& snap.command == entry.command
    &&& snap.working_dir == entry.working_dir
    &&& snap.status == entry.status
    &&& snap.started_at == created_at
    &&& snap.finished_at == finished_at
    &&& snap.stdout == entry.stdout
    &&& snap.stderr == entry.stderr
    &&& snap.exit_code == entry.exit_code
}

impl BackgroundTaskSnapshot {
    /// The shell view of a generic snapshot.
    pub fn from_generic(snap: &Snapshot<ShellTaskEntry>) -> (r: Self)
        ensures
            shows_task(r, snap.id@, snap.entry, snap.created_at, snap.finished_at),
    {
        BackgroundTaskSnapshot {
            id: snap.id.clone(),
            command: snap.entry.command.clone(),
            working_dir: clone_opt_string(&snap.entry.working_dir),
            status: snap.entry.status.clone(),
            started_at: snap.created_at,
            finished_at: snap.finished_at,
            stdout: snap.entry.stdout.clone(),
            stderr: snap.entry.stderr.clone(),
            exit_code: snap.entry.exit_code,
        }
    }
}

// ── Registry ────────────────────────────────────────────────────────────────

/// Lowercase hexadecimal digit.
pub open spec fn is_lower_hex(c: char) -> bool {
    ('0' <= c && c <= '9') || ('a' <= c && c <= 'f')
}

/// A fresh random UUID (version 4) in its simple form
/// (`Uuid::new_v4().simple().to_string()`): 32 lowercase hexadecimal digits.
#[verifier::external_body]
fn random_uuid_simple() -> (s: String)
    ensures
        s@.len() == 32,
        forall|i: int| 0 <= i < 32 ==> is_lower_hex(#[trigger] s@[i]),
{
    Uuid::new_v4().simple().to_string()
}

/// A task has a finishing instant exactly when its status is terminal.
pub open spec fn finish_tracks_status(s: Seq<crate::task_registry::registry::Slot<ShellTaskEntry>>) -> bool {
    forall|i: int| 0 <= i < s.len() ==> ((#[trigger] s[i]).entry.status is Running <==> s[i].finished_at is None)
}

/// Replacing one task by one that is unfinished if running keeps running
/// tasks unfinished.
proof fn lemma_unfinished_update(
    s: Seq<crate::task_registry::registry::Slot<ShellTaskEntry>>,
    i: int,
    x: crate::task_registry::registry::Slot<ShellTaskEntry>,
)
    requires
        finish_tracks_status(s),
        0 <= i < s.len(),
        x.entry.status is Running <==> x.finished_at is None,
    ensures
        finish_tracks_status(s.update(i, x)),
{
    assert forall|k: int| 0 <= k < s.update(i, x).len() implies ((#[trigger] s.update(i, x)[k]).entry.status is Running <==> s.update(i, x)[k].finished_at is None) by {
        if k != i {
            assert(s.update(i, x)[k] == s[k]);
        }
    }
}

/// Tasks taken from a sequence whose running tasks are unfinished keep
/// that property.
proof fn lemma_unfinished_subset(
    s: Seq<crate::task_registry::registry::Slot<ShellTaskEntry>>,
    t: Seq<crate::task_registry::registry::Slot<ShellTaskEntry>>,
)
    requires
        finish_tracks_status(s),
        forall|j: int| 0 <= j < t.len() ==> s.contains(#[trigger] t[j]),
    ensures
        finish_tracks_status(t),
{
    assert forall|j: int| 0 <= j < t.len() implies ((#[trigger] t[j]).entry.status is Running <==> t[j].finished_at is None) by {
        assert(s.contains(t[j]));
        let k = choose|k: int| 0 <= k < s.len() && s[k] == t[j];
        assert(s[k] == t[j]);
    }
}

/// Shell tasks on the generic registry.
pub struct BackgroundTaskRegistry {
    inner: TaskRegistry<ShellTaskEntry>,
}

impl BackgroundTaskRegistry {
    /// A task has a finishing instant exactly when its status is terminal.
    #[verifier::type_invariant]
    spec fn tracks_finish(self) -> bool {
        finish_tracks_status(self.inner.tasks())
    }

    /// The registry of shell tasks.
    pub closed spec fn tasks(&self) -> Seq<crate::task_registry::registry::Slot<ShellTaskEntry>> {
        self.inner.tasks()
    }

    /// The limit on running tasks.
    pub closed spec fn limit(&self) -> nat {
        self.inner.limit()
    }

    /// An empty registry allowing `max_tasks` running tasks.
    pub fn new(max_tasks: usize) -> (r: Self)
        ensures
            finish_tracks_status(r.tasks()),
            r.tasks().len() == 0,
            r.limit() == max_tasks,
    {
        BackgroundTaskRegistry { inner: TaskRegistry::new(max_tasks) }
    }

    /// Registers a running task for `command` under a fresh identifier
    /// `bg_` and eight lowercase hexadecimal digits.
    pub fn register(
        &mut self,
        command: &str,
        working_dir: Option<&str>,
        cancel_token: CancellationToken,
        pgid: Option<u32>,
    ) -> (r: Result<String, String>)
        ensures
            finish_tracks_status(final(self).tasks()),
            crate::task_registry::registry::ids_distinct(final(self).tasks()),
            final(self).limit() == old(self).limit(),
            running_in(old(self).tasks()) >= old(self).limit() ==> (r matches Err(e) && e@
                == "too many background tasks"@ && final(self).tasks() == old(self).tasks()),
            running_in(old(self).tasks()) < old(self).limit() ==> {
                &&& r matches Ok(id)
                &&& id@.len() == 11
                &&& id@.take(3) == "bg_"@
                &&& forall|i: int| 3 <= i < 11 ==> is_lower_hex(#[trigger] id@[i])
                &&& final(self).tasks().len() > 0
                &&& has_task(final(self).tasks(), id@)
                &&& task_index(final(self).tasks(), id@) == final(self).tasks().len() - 1
                &&& final(self).tasks().last().id@ == id@
                &&& final(self).tasks().last().entry.command@ == command@
                &&& final(self).tasks().last().entry.status is Running
                &&& final(self).tasks().last().entry.child_pgid == pgid
                &&& final(self).tasks().last().entry.id@ == id@
                &&& match working_dir {
                    Some(d) => final(self).tasks().last().entry.working_dir matches Some(w) && w@ == d@,
                    None => final(self).tasks().last().entry.working_dir is None,
                }
                &&& final(self).tasks().last().entry.stdout@.len() == 0
                &&& final(self).tasks().last().entry.stderr@.len() == 0
                &&& final(self).tasks().last().entry.exit_code is None
                &&& final(self).tasks().last().cancel_token == cancel_token
                &&& final(self).tasks().last().finished_at is None
                &&& !final(self).tasks().last().cancel_requested
                &&& final(self).tasks().drop_last() == without_task(old(self).tasks(), id@)
                &&& running_in(final(self).tasks()) <= final(self).limit()
            },
    {
        proof {
            use_type_invariant(&*self);
        }
        let mut inner: TaskRegistry<ShellTaskEntry> = TaskRegistry::new(0);
        std::mem::swap(&mut inner, &mut self.inner);
        let u = random_uuid_simple();
        let uc = chars_of(u.as_str());
        let mut id = String::new();
        push_str(&mut id, "bg_");
        push_chars(&mut id, &uc[0..8]);
        proof {
            reveal_strlit("bg_");
            assert(id@.take(3) =~= "bg_"@);
            assert forall|i: int| 3 <= i < 11 implies is_lower_hex(#[trigger] id@[i]) by {
                assert(id@[i] == u@[i - 3]);
            }
        }
        let wd = match working_dir {
            Some(d) => Some(string_of(&chars_of(d))),
            None => None,
        };
        let entry = ShellTaskEntry::new(id.clone(), string_of(&chars_of(command)), wd, pgid);
        let res = inner.register(entry, cancel_token);
        proof {
            if res is Ok && finish_tracks_status(old(self).tasks()) {
                let t = inner.tasks();
                let w = t.drop_last();
                assert(w == without_task(old(self).tasks(), id@));
                if has_task(old(self).tasks(), id@) {
                    let k = task_index(old(self).tasks(), id@);
                    assert forall|j: int| 0 <= j < w.len() implies old(self).tasks().contains(#[trigger] w[j]) by {
                        let j2 = if j < k { j } else { j + 1 };
                        assert(w[j] == old(self).tasks()[j2]);
                    }
                } else {
                    assert forall|j: int| 0 <= j < w.len() implies old(self).tasks().contains(#[trigger] w[j]) by {
                        assert(w[j] == old(self).tasks()[j]);
                    }
                }
                lemma_unfinished_subset(old(self).tasks(), w);
                assert forall|j: int| 0 <= j < t.len() implies ((#[trigger] t[j]).entry.status is Running <==> t[j].finished_at is None) by {
                    if j < w.len() {
                        assert(t[j] == w[j]);
                    }
                }
            }
        }
        self.inner = inner;
        match res {
            Ok(_) => Ok(id),
            Err(_) => Err(string_of(&chars_of("too many background tasks"))),
        }
    }

    /// Appends output lines to task `id`'s buffers; nothing for an unknown
    /// identifier.
    pub fn append_output(&mut self, id: &str, stdout_line: Option<&str>, stderr_line: Option<&str>)
        ensures
            finish_tracks_status(final(self).tasks()),
            final(self).limit() == old(self).limit(),
            !has_task(old(self).tasks(), id@) ==> final(self).tasks() == old(self).tasks(),
            has_task(old(self).tasks(), id@) ==> {
                let i = task_index(old(self).tasks(), id@);
                let before = old(self).tasks()[i];
                let after = final(self).tasks()[i];
                let out = match stdout_line {
                    Some(l) => bounded(before.entry.stdout@ + l@ + seq!['\n']),
                    None => before.entry.stdout@,
                };
                let err = match stderr_line {
                    Some(l) => bounded(before.entry.stderr@ + l@ + seq!['\n']),
                    None => before.entry.stderr@,
                };
                &&& final(self).tasks() == old(self).tasks().update(i, after)
                &&& after.entry.stdout@ == out
                &&& after.entry.stderr@ == err
                &&& after.entry == (ShellTaskEntry { stdout: after.entry.stdout, stderr: after.entry.stderr, ..before.entry })
                &&& after == (crate::task_registry::registry::Slot { entry: after.entry, ..before })
            },
    {
        proof {
            use_type_invariant(&*self);
        }
        let mut inner: TaskRegistry<ShellTaskEntry> = TaskRegistry::new(0);
        std::mem::swap(&mut inner, &mut self.inner);
        let f = |e: ShellTaskEntry| -> (r: (ShellTaskEntry, ()))
            ensures
                r.0.stdout@ == match stdout_line {
                    Some(l) => bounded(e.stdout@ + l@ + seq!['\n']),
                    None => e.stdout@,
                },
                r.0.stderr@ == match stderr_line {
                    Some(l) => bounded(e.stderr@ + l@ + seq!['\n']),
                    None => e.stderr@,
                },
                r.0 == (ShellTaskEntry { stdout: r.0.stdout, stderr: r.0.stderr, ..e }),
            {
                let mut e = e;
                match stdout_line {
                    Some(l) => e.append_stdout(l),
                    None => {},
                }
                match stderr_line {
                    Some(l) => e.append_stderr(l),
                    None => {},
                }
                (e, ())
            };
        inner.with_entry_mut(id, f);
        self.inner = inner;
    }

    /// Sets task `id`'s process-group id.
    pub fn set_pgid(&mut self, id: &str, pgid: Option<u32>)
        ensures
            finish_tracks_status(final(self).tasks()),
            final(self).limit() == old(self).limit(),
            !has_task(old(self).tasks(), id@) ==> final(self).tasks() == old(self).tasks(),
            has_task(old(self).tasks(), id@) ==> {
                let i = task_index(old(self).tasks(), id@);
                let before = old(self).tasks()[i];
                final(self).tasks() == old(self).tasks().update(
                    i,
                    crate::task_registry::registry::Slot { entry: ShellTaskEntry { child_pgid: pgid, ..before.entry }, ..before },
                )
            },
    {
        proof {
            use_type_invariant(&*self);
        }
        let mut inner: TaskRegistry<ShellTaskEntry> = TaskRegistry::new(0);
        std::mem::swap(&mut inner, &mut self.inner);
        let f = |e: ShellTaskEntry| -> (r: (ShellTaskEntry, ()))
            ensures
                r.0 == (ShellTaskEntry { child_pgid: pgid, ..e }),
            {
                let mut e = e;
                e.set_pgid(pgid);
                (e, ())
            };
        inner.with_entry_mut(id, f);
        self.inner = inner;
    }

    /// Records the exit code and moves task `id` to `Done`; a task already in
    /// a terminal status is left as it is.
    pub fn finish(&mut self, id: &str, exit_code: Option<i32>)
        ensures
            finish_tracks_status(final(self).tasks()),
            final(self).limit() == old(self).limit(),
            !has_task(old(self).tasks(), id@) ==> final(self).tasks() == old(self).tasks(),
            has_task(old(self).tasks(), id@) ==> {
                let i = task_index(old(self).tasks(), id@);
                let before = old(self).tasks()[i];
                let after = final(self).tasks()[i];
                if !(before.entry.status is Running) {
                    final(self).tasks() == old(self).tasks()
                } else {
                    &&& final(self).tasks() == old(self).tasks().update(i, after)
                    &&& after.entry == (ShellTaskEntry {
                        exit_code: exit_code,
                        status: BackgroundTaskStatus::Done,
                        ..before.entry
                    })
                    &&& after.finished_at is Some
                    &&& after.id == before.id
                    &&& after.cancel_token == before.cancel_token
                    &&& after.created_at == before.created_at
                    &&& after.cancel_requested == before.cancel_requested
                }
            },
    {
        proof {
            use_type_invariant(&*self);
        }
        let mut inner: TaskRegistry<ShellTaskEntry> = TaskRegistry::new(0);
        std::mem::swap(&mut inner, &mut self.inner);
        let check = |e: &ShellTaskEntry| -> (b: bool)
            ensures
                b == (e.status is Running),
            { !e.status.is_terminal() };
        let running = inner.with_entry(id, check);
        if running != Some(true) {
            self.inner = inner;
            return;
        }
        let f = |e: ShellTaskEntry| -> (r: (ShellTaskEntry, ()))
            ensures
                r.0 == (ShellTaskEntry { exit_code: exit_code, ..e }),
            {
                let mut e = e;
                e.set_exit_code(exit_code);
                (e, ())
            };
        inner.with_entry_mut(id, f);
        proof {
            if has_task(old(self).tasks(), id@) {
                let i = task_index(old(self).tasks(), id@);
                assert(inner.tasks()[i].id@ == id@);
                assert(has_task(inner.tasks(), id@));
                lemma_index_stable(old(self).tasks(), inner.tasks(), id@, i);
            } else {
                assert(inner.tasks() == old(self).tasks());
            }
        }
        inner.update_status(id, BackgroundTaskStatus::Done);
        self.inner = inner;
    }

    /// Sets task `id`'s status, unless it is already terminal.
    pub fn update_status(&mut self, id: &str, status: BackgroundTaskStatus)
        ensures
            finish_tracks_status(final(self).tasks()),
            final(self).limit() == old(self).limit(),
            !has_task(old(self).tasks(), id@) ==> final(self).tasks() == old(self).tasks(),
            has_task(old(self).tasks(), id@) ==> {
                let i = task_index(old(self).tasks(), id@);
                let before = old(self).tasks()[i];
                let after = final(self).tasks()[i];
                if !(before.entry.status is Running) {
                    final(self).tasks() == old(self).tasks()
                } else {
                    &&& final(self).tasks() == old(self).tasks().update(i, after)
                    &&& after.entry == (ShellTaskEntry { status: status, ..before.entry })
                    &&& after.id == before.id
                    &&& after.cancel_token == before.cancel_token
                    &&& after.created_at == before.created_at
                    &&& after.cancel_requested == before.cancel_requested
                    &&& (!(status is Running) ==> after.finished_at is Some)
                    &&& (status is Running ==> after.finished_at == before.finished_at)
                }
            },
    {
        proof {
            use_type_invariant(&*self);
        }
        let mut inner: TaskRegistry<ShellTaskEntry> = TaskRegistry::new(0);
        std::mem::swap(&mut inner, &mut self.inner);
        inner.update_status(id, status);
        self.inner = inner;
    }

    /// Sets task `id` to `Error(error)`, unless it is already terminal.
    pub fn set_error(&mut self, id: &str, error: String)
        ensures
            finish_tracks_status(final(self).tasks()),
            final(self).limit() == old(self).limit(),
            !has_task(old(self).tasks(), id@) ==> final(self).tasks() == old(self).tasks(),
            has_task(old(self).tasks(), id@) ==> {
                let i = task_index(old(self).tasks(), id@);
                let before = old(self).tasks()[i];
                let after = final(self).tasks()[i];
                if !(before.entry.status is Running) {
                    final(self).tasks() == old(self).tasks()
                } else {
                    &&& final(self).tasks() == old(self).tasks().update(i, after)
                    &&& after.entry == (ShellTaskEntry { status: BackgroundTaskStatus::Error(error), ..before.entry })
                    &&& after.id == before.id
                    &&& after.cancel_token == before.cancel_token
                    &&& after.created_at == before.created_at
                    &&& after.cancel_requested == before.cancel_requested
                    &&& after.finished_at is Some
                }
            },
    {
        proof {
            use_type_invariant(&*self);
        }
        self.update_status(id, BackgroundTaskStatus::Error(error));
    }

    /// A copy of task `id`, if it is registered.
    pub fn snapshot(&self, id: &str) -> (r: Option<BackgroundTaskSnapshot>)
        ensures
            crate::task_registry::registry::ids_distinct(self.tasks()),
            finish_tracks_status(self.tasks()),
            !has_task(self.tasks(), id@) ==> r is None,
            has_task(self.tasks(), id@) ==> (r matches Some(snap) && {
                let slot = self.tasks()[task_index(self.tasks(), id@)];
                shows_task(snap, slot.id@, slot.entry, slot.created_at, slot.finished_at)
            }),
    {
        proof {
            use_type_invariant(self);
        }
        match self.inner.snapshot(id) {
            Some(snap) => Some(BackgroundTaskSnapshot::from_generic(&snap)),
            None => None,
        }
    }

    /// Copies of all tasks after garbage-collecting those that finished at
    /// least `gc_ttl` ago; running tasks are never collected. The ages are
    /// read from the clock: a finished task is kept exactly when the age read
    /// for it is below `gc_ttl`.
    pub fn snapshot_all(&mut self, gc_ttl: Duration) -> (r: Vec<BackgroundTaskSnapshot>)
        ensures
            finish_tracks_status(final(self).tasks()),
            forall|i: int|
                0 <= i < old(self).tasks().len() && (#[trigger] old(self).tasks()[i]).entry.status is Running
                    ==> final(self).tasks().contains(old(self).tasks()[i]),
            final(self).limit() == old(self).limit(),
            exists|ages: Seq<Option<u128>>| {
                &&& ages_fit(old(self).tasks(), ages)
                &&& final(self).tasks() == gc_tasks(
                    old(self).tasks(),
                    expired_by_age(ages, duration_nanos_of(gc_ttl)),
                )
                &&& forall|i: int|
                    0 <= i < old(self).tasks().len() ==> (final(self).tasks().contains(
                        #[trigger] old(self).tasks()[i],
                    ) <==> (old(self).tasks()[i].finished_at is None || ages[i]->0 < duration_nanos_of(gc_ttl)))
            },
            r@.len() == final(self).tasks().len(),
            forall|i: int|
                0 <= i < r@.len() ==> {
                    let slot = #[trigger] final(self).tasks()[i];
                    shows_task(r@[i], slot.id@, slot.entry, slot.created_at, slot.finished_at)
                },
    {
        proof {
            use_type_invariant(&*self);
        }
        let mut inner: TaskRegistry<ShellTaskEntry> = TaskRegistry::new(0);
        std::mem::swap(&mut inner, &mut self.inner);
        let snaps = inner.snapshot_all(gc_ttl);
        let ghost kept = inner.tasks();
        proof {
            let ages = choose|ages: Seq<Option<u128>>| {
                &&& ages_fit(old(self).inner.tasks(), ages)
                &&& inner.tasks() == gc_tasks(
                    old(self).inner.tasks(),
                    expired_by_age(ages, duration_nanos_of(gc_ttl)),
                )
                &&& forall|i: int|
                    0 <= i < old(self).inner.tasks().len() ==> (inner.tasks().contains(
                        #[trigger] old(self).inner.tasks()[i],
                    ) <==> (old(self).inner.tasks()[i].finished_at is None || ages[i]->0 < duration_nanos_of(gc_ttl)))
            };
            let e = expired_by_age(ages, duration_nanos_of(gc_ttl));
            assert(inner.tasks() == gc_tasks(old(self).tasks(), e));
            crate::task_registry::registry::lemma_gc_tasks(old(self).tasks(), e);
            if finish_tracks_status(old(self).tasks()) {
                lemma_unfinished_subset(old(self).tasks(), inner.tasks());
            }
        }
        let mut r: Vec<BackgroundTaskSnapshot> = Vec::new();
        let mut i: usize = 0;
        while i < snaps.len()
            invariant
                inner.limit() == old(self).limit(),
                inner.tasks() == kept,
                i <= snaps@.len(),
                snaps@.len() == inner.tasks().len(),
                forall|k: int| 0 <= k < snaps@.len() ==> snapshot_of(#[trigger] snaps@[k], inner.tasks()[k]),
                r@.len() == i,
                forall|k: int|
                    0 <= k < i ==> {
                        let slot = #[trigger] inner.tasks()[k];
                        shows_task(r@[k], slot.id@, slot.entry, slot.created_at, slot.finished_at)
                    },
            decreases snaps@.len() - i,
        {
            assert(snapshot_of(snaps@[i as int], inner.tasks()[i as int]));
            r.push(BackgroundTaskSnapshot::from_generic(&snaps[i]));
            i = i + 1;
        }
        self.inner = inner;
        r
    }

    /// Cancels task `id` if it is running: triggers its cancel token and sets
    /// its status to `Cancelled`. `true` exactly then.
    pub fn cancel(&mut self, id: &str) -> (b: bool)
        ensures
            finish_tracks_status(final(self).tasks()),
            final(self).limit() == old(self).limit(),
            b == (has_task(old(self).tasks(), id@) && is_running(
                old(self).tasks()[task_index(old(self).tasks(), id@)],
            )),
            !b ==> final(self).tasks() == old(self).tasks(),
            b ==> {
                let i = task_index(old(self).tasks(), id@);
                let after = final(self).tasks()[i];
                let before = old(self).tasks()[i];
                &&& final(self).tasks().len() == old(self).tasks().len()
                &&& forall|k: int| 0 <= k < old(self).tasks().len() && k != i ==> final(self).tasks()[k] == old(self).tasks()[k]
                &&& after.entry == (ShellTaskEntry { status: BackgroundTaskStatus::Cancelled, ..before.entry })
                &&& after.id == before.id
                &&& after.cancel_token == before.cancel_token
                &&& after.created_at == before.created_at
                &&& after.cancel_requested
                &&& after.finished_at is Some
            },
    {
        proof {
            use_type_invariant(&*self);
        }
        let mut inner: TaskRegistry<ShellTaskEntry> = TaskRegistry::new(0);
        std::mem::swap(&mut inner, &mut self.inner);
        let cancelled = inner.cancel(id);
        if cancelled {
            proof {
                let i = task_index(old(self).tasks(), id@);
                assert(inner.tasks()[i].id@ == id@);
                lemma_index_stable(old(self).tasks(), inner.tasks(), id@, i);
            }
            inner.update_status(id, BackgroundTaskStatus::Cancelled);
        }
        self.inner = inner;
        cancelled
    }

    /// The process-group ids of the running tasks, in order, for killing
    /// their process groups.
    pub fn running_pgids(&self) -> (r: Vec<Option<u32>>)
        ensures
            r@ == running_pgids_of(self.tasks()),
    {
        let mut r: Vec<Option<u32>> = Vec::new();
        let n = self.inner.task_count();
        let mut i: usize = 0;
        while i < n
            invariant
                n == self.inner.tasks().len(),
                i <= n,
                r@ == running_pgids_of(self.inner.tasks().take(i as int)),
            decreases n - i,
        {
            let slot = self.inner.task_at(i);
            assert(self.inner.tasks().take(i + 1).drop_last() =~= self.inner.tasks().take(i as int));
            if !slot.entry.status.is_terminal() {
                r.push(slot.entry.child_pgid);
            }
            i = i + 1;
        }
        assert(self.inner.tasks().take(n as int) =~= self.inner.tasks());
        r
    }

    /// Cancels every running task and removes all tasks; gives the
    /// identifiers of the tasks whose cancel tokens it triggered, in order.
    pub fn shutdown(&mut self) -> (cancelled: Vec<String>)
        ensures
            finish_tracks_status(final(self).tasks()),
            final(self).limit() == old(self).limit(),
            final(self).tasks().len() == 0,
            crate::text::string_views(cancelled@) == crate::task_registry::registry::running_ids(
                old(self).tasks(),
            ),
    {
        proof {
            use_type_invariant(&*self);
        }
        let mut inner: TaskRegistry<ShellTaskEntry> = TaskRegistry::new(0);
        std::mem::swap(&mut inner, &mut self.inner);
        let cancelled = inner.shutdown();
        self.inner = inner;
        cancelled
    }
}

/// The process-group ids of the running tasks of `s`, in order.
pub open spec fn running_pgids_of(s: Seq<crate::task_registry::registry::Slot<ShellTaskEntry>>) -> Seq<Option<u32>>
    decreases s.len(),
{
    if s.len() == 0 {
        Seq::empty()
    } else if is_running(s.last()) {
        running_pgids_of(s.drop_last()).push(s.last().entry.child_pgid)
    } else {
        running_pgids_of(s.drop_last())
    }
}

/// Identifier `id` names the same task at index `i` after an update that
/// kept the identifiers.
proof fn lemma_index_stable(
    a: Seq<crate::task_registry::registry::Slot<ShellTaskEntry>>,
    b: Seq<crate::task_registry::registry::Slot<ShellTaskEntry>>,
    id: Seq<char>,
    i: int,
)
    requires
        has_task(a, id),
        i == task_index(a, id),
        a.len() == b.len(),
        0 <= i < b.len(),
        b[i].id@ == id,
        forall|k: int| 0 <= k < a.len() && k != i ==> a[k].id@ == b[k].id@,
        forall|x: int, y: int| #![trigger a[x], a[y]] 0 <= x < y < a.len() ==> a[x].id@ != a[y].id@,
    ensures
        has_task(b, id),
        task_index(b, id) == i,
{
    let j = task_index(b, id);
    assert(0 <= j < b.len() && b[j].id@ == id);
    if j != i {
        assert(a[j].id@ == id);
        assert(a[i].id@ == id);
        if j < i {
            assert(a[j].id@ != a[i].id@);
        } else {
            assert(a[i].id@ != a[j].id@);
        }
    }
}

// ── Tool replies ────────────────────────────────────────────────────────────

/// The fields of a `task_output` report; which ones are present depends on
/// the status.
pub struct StatusReport {
    /// `running`, `done`, `timed_out`, `cancelled` or `error`.
    pub status: String,
    pub elapsed_ms: u128,
    /// Present, possibly holding no code, for `done`, `timed_out` and
    /// `cancelled`.
    pub exit_code: Option<Option<i32>>,
    /// The message of an `error`.
    pub error: Option<String>,
    /// The streams are partial (reported as `partial_stdout` and
    /// `partial_stderr`) while the task runs.
    pub partial: bool,
    pub stdout: String,
    pub stderr: String,
}

pub open spec fn status_label(s: BackgroundTaskStatus) -> Seq<char> {
    match s {
        BackgroundTaskStatus::Running => "running"@,
        BackgroundTaskStatus::Done => "done"@,
        BackgroundTaskStatus::TimedOut => "timed_out"@,
        BackgroundTaskStatus::Cancelled => "cancelled"@,
        BackgroundTaskStatus::Error(_) => "error"@,
    }
}

/// The report of `snap`, `elapsed_ms` after its start.
pub fn format_status(snap: &BackgroundTaskSnapshot, elapsed_ms: u128) -> (r: StatusReport)
    ensures
        r.status@ == status_label(snap.status),
        r.elapsed_ms == elapsed_ms,
        r.stdout == snap.stdout,
        r.stderr == snap.stderr,
        r.partial == (snap.status is Running),
        r.exit_code == (match snap.status {
            BackgroundTaskStatus::Running => None,
            BackgroundTaskStatus::Error(_) => None,
            _ => Some(snap.exit_code),
        }),
        r.error == (match snap.status {
            BackgroundTaskStatus::Error(e) => Some(e),
            _ => None,
        }),
{
    let (label, exit_code, error): (&str, Option<Option<i32>>, Option<String>) = match &snap.status {
        BackgroundTaskStatus::Running => ("running", None, None),
        BackgroundTaskStatus::Done => ("done", Some(snap.exit_code), None),
        BackgroundTaskStatus::TimedOut => ("timed_out", Some(snap.exit_code), None),
        BackgroundTaskStatus::Cancelled => ("cancelled", Some(snap.exit_code), None),
        BackgroundTaskStatus::Error(e) => ("error", None, Some(e.clone())),
    };
    StatusReport {
        status: string_of(&chars_of(label)),
        elapsed_ms,
        exit_code,
        error,
        partial: snap.status.is_terminal() == false,
        stdout: snap.stdout.clone(),
        stderr: snap.stderr.clone(),
    }
}

/// std's `Debug` form of a status.
pub open spec fn status_debug(s: BackgroundTaskStatus) -> Seq<char> {
    match s {
        BackgroundTaskStatus::Running => "Running"@,
        BackgroundTaskStatus::Done => "Done"@,
        BackgroundTaskStatus::TimedOut => "TimedOut"@,
        BackgroundTaskStatus::Cancelled => "Cancelled"@,
        BackgroundTaskStatus::Error(e) => "Error("@ + debug_quoted(e@) + ")"@,
    }
}

fn push_status_debug(out: &mut String, s: &BackgroundTaskStatus)
    ensures
        final(out)@ == old(out)@ + status_debug(*s),
{
    match s {
        BackgroundTaskStatus::Running => push_str(out, "Running"),
        BackgroundTaskStatus::Done => push_str(out, "Done"),
        BackgroundTaskStatus::TimedOut => push_str(out, "TimedOut"),
        BackgroundTaskStatus::Cancelled => push_str(out, "Cancelled"),
        BackgroundTaskStatus::Error(e) => {
            push_str(out, "Error(");
            let q = quoted_debug(e.as_str());
            push_str(out, q.as_str());
            push_str(out, ")");
            assert(final(out)@ =~= old(out)@ + status_debug(*s));
        },
    }
}

pub open spec fn no_task_id_msg() -> Seq<char> {
    "[Error]: No task_id provided."@
}

/// `task_output`: query or wait for a background task's result.
pub struct TaskOutputTool {}

impl TaskOutputTool {
    pub fn new() -> Self {
        TaskOutputTool {  }
    }

    pub fn name(&self) -> (s: &'static str)
        ensures
            s@ == "task_output"@,
    {
        "task_output"
    }

    pub fn description(&self) -> (s: &'static str)
        ensures
            s@ == "Check or wait for a background task's result. Use `wait: true` to block until completion."@,
    {
        "Check or wait for a background task's result. Use `wait: true` to block until completion."
    }

    /// The tool's own timeout, above the longest wait.
    pub fn timeout_ms(&self) -> (t: Option<u64>)
        ensures
            t == Some(310_000u64),
    {
        Some(310_000)
    }

    /// The wait timeout: 120000 ms unless given, kept within 1000..=300000.
    pub fn wait_timeout_ms(raw: Option<u64>) -> (t: u64)
        ensures
            t == (match raw {
                None => 120_000,
                Some(v) => if v < 1_000 {
                    1_000
                } else if v > 300_000 {
                    300_000
                } else {
                    v
                },
            }),
    {
        match raw {
            None => 120_000,
            Some(v) => if v < 1_000 {
                1_000
            } else if v > 300_000 {
                300_000
            } else {
                v
            },
        }
    }

    /// The reply for an empty `task_id`.
    pub fn missing_task_id(&self) -> (s: String)
        ensures
            s@ == no_task_id_msg(),
    {
        string_of(&chars_of("[Error]: No task_id provided."))
    }

    /// The message for a task that is not (or no longer) registered.
    pub fn not_found_message(&self, task_id: &str) -> (s: String)
        ensures
            s@ == "Task "@ + task_id@
                + " not found. It may have been cleaned up after 5 minutes of completion."@,
    {
        let mut s = String::new();
        push_str(&mut s, "Task ");
        push_str(&mut s, task_id);
        push_str(&mut s, " not found. It may have been cleaned up after 5 minutes of completion.");
        s
    }
}

/// `task_cancel`: terminate a running background task.
pub struct TaskCancelTool {}

/// The reply of `task_cancel` for `task_id` against `tasks`.
pub open spec fn cancel_reply(tasks: Seq<crate::task_registry::registry::Slot<ShellTaskEntry>>, task_id: Seq<char>) -> Seq<char> {
    if task_id.len() == 0 {
        no_task_id_msg()
    } else if !has_task(tasks, task_id) {
        "Task "@ + task_id + " not found."@
    } else {
        let status = tasks[task_index(tasks, task_id)].entry.status;
        if !(status is Running) {
            "Task "@ + task_id + " already finished with status: "@ + status_debug(status) + "."@
        } else {
            "Task "@ + task_id + " cancelled."@
        }
    }
}

impl TaskCancelTool {
    pub fn new() -> Self {
        TaskCancelTool {  }
    }

    pub fn name(&self) -> (s: &'static str)
        ensures
            s@ == "task_cancel"@,
    {
        "task_cancel"
    }

    pub fn description(&self) -> (s: &'static str)
        ensures
            s@ == "Terminate a running background task by task_id."@,
    {
        "Terminate a running background task by task_id."
    }

    /// Cancels task `task_id` in `registry` if it runs, and gives the reply.
    pub fn respond(&self, registry: &mut BackgroundTaskRegistry, task_id: &str) -> (r: String)
        ensures
            finish_tracks_status(final(registry).tasks()),
            r@ == cancel_reply(old(registry).tasks(), task_id@),
            final(registry).limit() == old(registry).limit(),
            !(task_id@.len() > 0 && has_task(old(registry).tasks(), task_id@) && is_running(
                old(registry).tasks()[task_index(old(registry).tasks(), task_id@)],
            )) ==> final(registry).tasks() == old(registry).tasks(),
            (task_id@.len() > 0 && has_task(old(registry).tasks(), task_id@) && is_running(
                old(registry).tasks()[task_index(old(registry).tasks(), task_id@)],
            )) ==> {
                let i = task_index(old(registry).tasks(), task_id@);
                let before = old(registry).tasks()[i];
                let after = final(registry).tasks()[i];
                &&& final(registry).tasks().len() == old(registry).tasks().len()
                &&& forall|k: int| 0 <= k < old(registry).tasks().len() && k != i ==> final(registry).tasks()[k] == old(registry).tasks()[k]
                &&& after.entry == (ShellTaskEntry { status: BackgroundTaskStatus::Cancelled, ..before.entry })
                &&& after.id == before.id
                &&& after.cancel_requested
                &&& after.finished_at is Some
            },
    {
        proof {
            use_type_invariant(&*registry);
        }
        if chars_of(task_id).len() == 0 {
            return string_of(&chars_of("[Error]: No task_id provided."));
        }
        let mut s = String::new();
        match registry.snapshot(task_id) {
            None => {
                push_str(&mut s, "Task ");
                push_str(&mut s, task_id);
                push_str(&mut s, " not found.");
                s
            },
            Some(snap) => {
                if snap.status.is_terminal() {
                    push_str(&mut s, "Task ");
                    push_str(&mut s, task_id);
                    push_str(&mut s, " already finished with status: ");
                    push_status_debug(&mut s, &snap.status);
                    push_str(&mut s, ".");
                    s
                } else {
                    registry.cancel(task_id);
                    push_str(&mut s, "Task ");
                    push_str(&mut s, task_id);
                    push_str(&mut s, " cancelled.");
                    s
                }
            },
        }
    }
}

} // verus!
