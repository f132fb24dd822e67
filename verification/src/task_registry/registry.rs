//! The registry: registration under a limit on running tasks, status updates
//! with terminal-state protection, cancellation, garbage collection of
//! finished tasks, and shutdown.

use vstd::prelude::*;
use std::time::{Duration, Instant};
use tokio_util::sync::CancellationToken;
use crate::clock::{duration_nanos, duration_nanos_of, elapsed_since, instant_now};
use crate::task_registry::snapshot::Snapshot;
use crate::task_registry::traits::{TaskEntry, TaskStatus};
use crate::text::{chars_of, push_str, string_of};

verus! {

/// `tokio_util::sync::CancellationToken`, carried through as an opaque value.
#[verifier::external_type_specification]
#[verifier::external_body]
pub struct ExCancellationToken(CancellationToken);

/// Triggers `token` (`CancellationToken::cancel`).
#[verifier::external_body]
fn trigger_cancel(token: &CancellationToken) {
    token.cancel();
}

/// Whether `token` was triggered (`CancellationToken::is_cancelled`). Any
/// clone of the token may trigger it, so nothing is stated of the answer.
#[verifier::external_body]
fn token_is_cancelled(token: &CancellationToken) -> bool {
    token.is_cancelled()
}

/// Registration failure.
#[derive(Debug)]
pub enum RegisterError {
    /// Too many tasks are running.
    LimitExceeded,
}

impl RegisterError {
    /// The message of the error.
    pub fn to_string(&self) -> (s: String)
        ensures
            s@ == "too many tasks running"@,
    {
        let mut s = String::new();
        push_str(&mut s, "too many tasks running");
        s
    }
}

/// A registered task with its lifecycle data.
pub struct Slot<E> {
    /// The key under which the task was registered.
    pub id: String,
    pub entry: E,
    pub cancel_token: CancellationToken,
    pub created_at: Instant,
    /// Set when the registry moved the task to a terminal status.
    pub finished_at: Option<Instant>,
    /// Set when the registry triggered the cancel token.
    pub cancel_requested: bool,
}

/// No two tasks share an identifier.
pub open spec fn ids_distinct<E>(s: Seq<Slot<E>>) -> bool {
    forall|i: int, j: int| #![trigger s[i], s[j]] 0 <= i < j < s.len() ==> s[i].id@ != s[j].id@
}

/// Some task has identifier `id`.
pub open spec fn has_task<E>(s: Seq<Slot<E>>, id: Seq<char>) -> bool {
    exists|i: int| 0 <= i < s.len() && #[trigger] s[i].id@ == id
}

/// The index of the task with identifier `id` (meaningful when `has_task`).
pub open spec fn task_index<E>(s: Seq<Slot<E>>, id: Seq<char>) -> int {
    choose|i: int| 0 <= i < s.len() && #[trigger] s[i].id@ == id
}

/// The task counts as running: its status is not terminal.
pub open spec fn is_running<E: TaskEntry>(slot: Slot<E>) -> bool {
    !slot.entry.task_status().terminal()
}

/// The identifiers of the running tasks, in order.
pub open spec fn running_ids<E: TaskEntry>(s: Seq<Slot<E>>) -> Seq<Seq<char>>
    decreases s.len(),
{
    if s.len() == 0 {
        Seq::empty()
    } else if is_running(s.last()) {
        running_ids(s.drop_last()).push(s.last().id@)
    } else {
        running_ids(s.drop_last())
    }
}

/// The number of running tasks.
pub open spec fn running_in<E: TaskEntry>(s: Seq<Slot<E>>) -> nat
    decreases s.len(),
{
    if s.len() == 0 {
        0
    } else {
        running_in(s.drop_last()) + if is_running(s.last()) {
            1nat
        } else {
            0nat
        }
    }
}

/// The tasks without the one whose identifier is `id`.
pub open spec fn without_task<E>(s: Seq<Slot<E>>, id: Seq<char>) -> Seq<Slot<E>> {
    if has_task(s, id) {
        s.remove(task_index(s, id))
    } else {
        s
    }
}

/// The tasks kept by garbage collection: those not marked `expired`, and
/// every task that has not finished.
pub open spec fn gc_tasks<E>(s: Seq<Slot<E>>, expired: Seq<bool>) -> Seq<Slot<E>>
    decreases s.len(),
{
    if s.len() == 0 {
        s
    } else {
        let rest = gc_tasks(s.drop_last(), expired.take(s.len() - 1));
        if expired[s.len() - 1] && s.last().finished_at is Some {
            rest
        } else {
            rest.push(s.last())
        }
    }
}

/// Which tasks garbage collection removes, given each task's age in
/// nanoseconds (`None` for a task that has not finished): those whose age
/// has reached `ttl_nanos`.
pub open spec fn expired_by_age(ages: Seq<Option<u128>>, ttl_nanos: u128) -> Seq<bool> {
    Seq::new(ages.len(), |i: int| ages[i] matches Some(age) && age >= ttl_nanos)
}

/// `ages` gives an age to exactly the tasks of `s` that have finished.
pub open spec fn ages_fit<E>(s: Seq<Slot<E>>, ages: Seq<Option<u128>>) -> bool {
    &&& ages.len() == s.len()
    &&& forall|i: int| 0 <= i < s.len() ==> ((#[trigger] ages[i]) is Some <==> s[i].finished_at is Some)
}

/// The garbage-collection decision: for each task, whether its age (in
/// nanoseconds, `None` for a task that has not finished) has reached
/// `ttl_nanos`.
pub fn expired_by_ages(ages: &Vec<Option<u128>>, ttl_nanos: u128) -> (r: Vec<bool>)
    ensures
        r@ == expired_by_age(ages@, ttl_nanos),
{
    let mut r: Vec<bool> = Vec::new();
    let mut i: usize = 0;
    while i < ages.len()
        invariant
            i <= ages@.len(),
            r@ == expired_by_age(ages@, ttl_nanos).take(i as int),
        decreases ages@.len() - i,
    {
        let e = match ages[i] {
            Some(age) => age >= ttl_nanos,
            None => false,
        };
        r.push(e);
        i = i + 1;
        assert(r@ =~= expired_by_age(ages@, ttl_nanos).take(i as int));
    }
    assert(expired_by_age(ages@, ttl_nanos).take(i as int) =~= expired_by_age(ages@, ttl_nanos));
    r
}

/// Garbage collection keeps a task exactly when it has not finished or is
/// not marked expired.
pub proof fn gc_keeps_exactly_the_unexpired<E>(s: Seq<Slot<E>>, expired: Seq<bool>, i: int)
    requires
        ids_distinct(s),
        expired.len() == s.len(),
        0 <= i < s.len(),
    ensures
        gc_tasks(s, expired).contains(s[i]) <==> !(expired[i] && s[i].finished_at is Some),
    decreases s.len(),
{
    let n = s.len();
    let d = s.drop_last();
    let e = expired.take(n - 1);
    let rest = gc_tasks(d, e);
    assert(ids_distinct(d)) by {
        assert forall|x: int, y: int| #![auto] 0 <= x < y < d.len() implies d[x].id@ != d[y].id@ by {
            assert(s[x].id@ != s[y].id@);
        }
    }
    lemma_gc_tasks(d, e);
    if i < n - 1 {
        gc_keeps_exactly_the_unexpired(d, e, i);
        assert(d[i] == s[i]);
        assert(s[i].id@ != s[n - 1].id@);
        if !(expired[n - 1] && s.last().finished_at is Some) {
            let g = rest.push(s.last());
            if rest.contains(s[i]) {
                let k = choose|k: int| 0 <= k < rest.len() && rest[k] == s[i];
                assert(g[k] == s[i]);
            }
            if g.contains(s[i]) {
                let k = choose|k: int| 0 <= k < g.len() && g[k] == s[i];
                if k < rest.len() {
                    assert(rest[k] == s[i]);
                }
            }
        }
    } else {
        if expired[n - 1] && s.last().finished_at is Some {
            if rest.contains(s[i]) {
                let k = choose|k: int| 0 <= k < rest.len() && rest[k] == s[i];
                assert(d.contains(rest[k]));
                let m = choose|m: int| 0 <= m < d.len() && d[m] == rest[k];
                assert(s[m].id@ != s[n - 1].id@);
            }
        } else {
            assert(rest.push(s.last())[rest.len() as int] == s[i]);
        }
    }
}

/// Garbage collection by age keeps a task exactly when it has not finished
/// or its age is below the time-to-live.
pub proof fn gc_keeps_exactly_the_young<E>(s: Seq<Slot<E>>, ages: Seq<Option<u128>>, ttl_nanos: u128)
    requires
        ids_distinct(s),
        ages_fit(s, ages),
    ensures
        forall|i: int|
            0 <= i < s.len() ==> (gc_tasks(s, expired_by_age(ages, ttl_nanos)).contains(#[trigger] s[i]) <==> (
            s[i].finished_at is None || ages[i]->0 < ttl_nanos)),
{
    assert forall|i: int| 0 <= i < s.len() implies (gc_tasks(s, expired_by_age(ages, ttl_nanos)).contains(
        #[trigger] s[i],
    ) <==> (s[i].finished_at is None || ages[i]->0 < ttl_nanos)) by {
        gc_keeps_exactly_the_unexpired(s, expired_by_age(ages, ttl_nanos), i);
        assert(ages[i] is Some <==> s[i].finished_at is Some);
    }
}

/// `snap` is a copy of `slot`.
pub open spec fn snapshot_of<E: TaskEntry + Clone>(snap: Snapshot<E>, slot: Slot<E>) -> bool {
    &&& snap.id@ == slot.id@
    &&& cloned(slot.entry, snap.entry)
    &&& snap.created_at == slot.created_at
    &&& snap.finished_at == slot.finished_at
}

/// Removing a task removes its contribution to the running count.
pub proof fn lemma_running_remove<E: TaskEntry>(s: Seq<Slot<E>>, i: int)
    requires
        0 <= i < s.len(),
    ensures
        running_in(s.remove(i)) + (if is_running(s[i]) {
            1int
        } else {
            0int
        }) == running_in(s),
    decreases s.len(),
{
    if i < s.len() - 1 {
        lemma_running_remove(s.drop_last(), i);
        assert(s.remove(i).drop_last() =~= s.drop_last().remove(i));
        assert(s.remove(i).last() == s.last());
    } else {
        assert(s.remove(i) =~= s.drop_last());
    }
}

/// Replacing a task changes the running count by the difference.
pub proof fn lemma_running_update<E: TaskEntry>(s: Seq<Slot<E>>, i: int, x: Slot<E>)
    requires
        0 <= i < s.len(),
    ensures
        running_in(s.update(i, x)) + (if is_running(s[i]) {
            1int
        } else {
            0int
        }) == running_in(s) + (if is_running(x) {
            1int
        } else {
            0int
        }),
    decreases s.len(),
{
    if i < s.len() - 1 {
        lemma_running_update(s.drop_last(), i, x);
        assert(s.update(i, x).drop_last() =~= s.drop_last().update(i, x));
    } else {
        assert(s.update(i, x).drop_last() =~= s.drop_last());
    }
}

/// A running task that reaches a terminal status frees one place under the
/// limit.
pub proof fn finishing_frees_a_place<E: TaskEntry>(s: Seq<Slot<E>>, i: int, after: Slot<E>)
    requires
        0 <= i < s.len(),
        is_running(s[i]),
        after.entry.task_status().terminal(),
    ensures
        running_in(s.update(i, after)) + 1 == running_in(s),
{
    lemma_running_update(s, i, after);
}

/// After a registration the task is found under its identifier, as the last
/// task, and identifiers stay distinct.
pub proof fn registered_task_is_found<E>(s: Seq<Slot<E>>, slot: Slot<E>)
    requires
        ids_distinct(s),
    ensures
        ({
            let t = without_task(s, slot.id@).push(slot);
            &&& ids_distinct(t)
            &&& has_task(t, slot.id@)
            &&& task_index(t, slot.id@) == t.len() - 1
        }),
{
    let id = slot.id@;
    let w = without_task(s, id);
    let t = w.push(slot);
    if has_task(s, id) {
        let k = task_index(s, id);
        assert forall|a: int, b: int| #![trigger w[a], w[b]] 0 <= a < b < w.len() implies w[a].id@ != w[b].id@ by {
            let a2 = if a < k { a } else { a + 1 };
            let b2 = if b < k { b } else { b + 1 };
            assert(w[a] == s[a2] && w[b] == s[b2]);
            assert(s[a2].id@ != s[b2].id@);
        }
        assert forall|a: int| 0 <= a < w.len() implies #[trigger] w[a].id@ != id by {
            let a2 = if a < k { a } else { a + 1 };
            assert(w[a] == s[a2]);
            if s[a2].id@ == id {
                if a2 < k {
                    assert(s[a2].id@ != s[k].id@);
                } else {
                    assert(s[k].id@ != s[a2].id@);
                }
            }
        }
    } else {
        assert forall|a: int| 0 <= a < w.len() implies #[trigger] w[a].id@ != id by {}
    }
    assert forall|a: int, b: int| #![trigger t[a], t[b]] 0 <= a < b < t.len() implies t[a].id@ != t[b].id@ by {
        if b == t.len() - 1 {
            assert(t[a] == w[a]);
        } else {
            assert(t[a] == w[a] && t[b] == w[b]);
        }
    }
    assert(t[t.len() - 1].id@ == id);
    assert(has_task(t, id));
    let j = task_index(t, id);
    if j != t.len() - 1 {
        assert(t[j] == w[j]);
    }
}

/// Garbage collection keeps every task that has not finished, and distinct
/// identifiers stay distinct.
pub proof fn lemma_gc_tasks<E>(s: Seq<Slot<E>>, expired: Seq<bool>)
    requires
        expired.len() == s.len(),
    ensures
        forall|i: int|
            0 <= i < s.len() && s[i].finished_at is None ==> gc_tasks(s, expired).contains(
                #[trigger] s[i],
            ),
        forall|j: int| 0 <= j < gc_tasks(s, expired).len() ==> s.contains(#[trigger] gc_tasks(s, expired)[j]),
    decreases s.len(),
{
    if s.len() > 0 {
        let e = expired.take(s.len() - 1);
        lemma_gc_tasks(s.drop_last(), e);
        let rest = gc_tasks(s.drop_last(), e);
        assert forall|i: int| 0 <= i < s.len() && s[i].finished_at is None implies gc_tasks(
            s,
            expired,
        ).contains(#[trigger] s[i]) by {
            if i < s.len() - 1 {
                assert(s.drop_last()[i] == s[i]);
                let k = choose|k: int| 0 <= k < rest.len() && rest[k] == s[i];
                if !(expired[s.len() - 1] && s.last().finished_at is Some) {
                    assert(gc_tasks(s, expired)[k] == s[i]);
                }
            } else {
                assert(gc_tasks(s, expired)[rest.len() as int] == s[i]);
            }
        }
        assert forall|j: int| 0 <= j < gc_tasks(s, expired).len() implies s.contains(
            #[trigger] gc_tasks(s, expired)[j],
        ) by {
            if j < rest.len() {
                assert(gc_tasks(s, expired)[j] == rest[j]);
                assert(s.drop_last().contains(rest[j]));
                let k = choose|k: int| 0 <= k < s.drop_last().len() && s.drop_last()[k] == rest[j];
                assert(s[k] == rest[j]);
            } else {
                assert(s[s.len() - 1] == gc_tasks(s, expired)[j]);
            }
        }
    }
}

/// Generic task registry: tasks keyed by identifier, each with a cancel
/// token and its registration and finishing instants.
pub struct TaskRegistry<E: TaskEntry> {
    slots: Vec<Slot<E>>,
    max_tasks: usize,
}

impl<E: TaskEntry> TaskRegistry<E> {
    #[verifier::type_invariant]
    spec fn well_formed(self) -> bool {
        ids_distinct(self.slots@)
    }

    /// The registered tasks.
    pub closed spec fn tasks(&self) -> Seq<Slot<E>> {
        self.slots@
    }

    /// The limit on running tasks.
    pub closed spec fn limit(&self) -> nat {
        self.max_tasks as nat
    }

    /// An empty registry that allows `max_tasks` running tasks.
    pub fn new(max_tasks: usize) -> (r: Self)
        ensures
            r.tasks().len() == 0,
            r.limit() == max_tasks,
    {
        TaskRegistry { slots: Vec::new(), max_tasks }
    }

    /// The number of registered tasks.
    pub fn task_count(&self) -> (n: usize)
        ensures
            n == self.tasks().len(),
    {
        self.slots.len()
    }

    /// The task at index `i`.
    pub fn task_at(&self, i: usize) -> (r: &Slot<E>)
        requires
            i < self.tasks().len(),
        ensures
            *r == self.tasks()[i as int],
    {
        &self.slots[i]
    }

    /// The index of the task registered as `id`.
    fn position(&self, id: &str) -> (r: Option<usize>)
        ensures
            match r {
                Some(i) => i < self.tasks().len() && i == task_index(self.tasks(), id@) && has_task(
                    self.tasks(),
                    id@,
                ),
                None => !has_task(self.tasks(), id@),
            },
    {
        proof {
            use_type_invariant(self);
        }
        let key = string_of(&chars_of(id));
        let mut i: usize = 0;
        while i < self.slots.len()
            invariant
                i <= self.slots@.len(),
                key@ == id@,
                ids_distinct(self.slots@),
                forall|k: int| 0 <= k < i ==> self.slots@[k].id@ != id@,
            decreases self.slots@.len() - i,
        {
            if self.slots[i].id == key {
                proof {
                    let j = task_index(self.slots@, id@);
                    assert(self.slots@[i as int].id@ == id@);
                    assert(0 <= j < self.slots@.len() && self.slots@[j].id@ == id@);
                    if j != i {
                        if j < i {
                            assert(self.slots@[j].id@ != self.slots@[i as int].id@);
                        } else {
                            assert(self.slots@[i as int].id@ != self.slots@[j].id@);
                        }
                    }
                }
                return Some(i);
            }
            i = i + 1;
        }
        None
    }

    /// Registers `entry` under its identifier, unless the running tasks have
    /// reached the limit. A task already registered under the identifier is
    /// replaced.
    pub fn register(&mut self, entry: E, cancel_token: CancellationToken) -> (r: Result<
        String,
        RegisterError,
    >)
        ensures
            final(self).limit() == old(self).limit(),
            ids_distinct(old(self).tasks()),
            ids_distinct(final(self).tasks()),
            running_in(old(self).tasks()) >= old(self).limit() ==> r is Err && final(self).tasks()
                == old(self).tasks(),
            running_in(old(self).tasks()) < old(self).limit() ==> {
                &&& r matches Ok(id) && id@ == entry.task_id()
                &&& has_task(final(self).tasks(), entry.task_id())
                &&& task_index(final(self).tasks(), entry.task_id()) == final(self).tasks().len() - 1
                &&& final(self).tasks().drop_last() == without_task(
                    old(self).tasks(),
                    entry.task_id(),
                )
                &&& final(self).tasks().len() > 0
                &&& final(self).tasks().last().id@ == entry.task_id()
                &&& final(self).tasks().last().entry == entry
                &&& final(self).tasks().last().cancel_token == cancel_token
                &&& final(self).tasks().last().finished_at is None
                &&& !final(self).tasks().last().cancel_requested
                &&& running_in(final(self).tasks()) <= final(self).limit()
            },
    {
        proof {
            use_type_invariant(&*self);
        }
        let running = self.running_count();
        if running >= self.max_tasks {
            return Err(RegisterError::LimitExceeded);
        }
        let id = string_of(&chars_of(entry.id()));
        let pos = self.position(id.as_str());
        let mut slots: Vec<Slot<E>> = Vec::new();
        std::mem::swap(&mut slots, &mut self.slots);
        assert(slots@ == old(self).slots@);
        match pos {
            Some(i) => {
                proof {
                    lemma_running_remove(slots@, i as int);
                    assert forall|a: int, b: int| #![auto]
                        0 <= a < b < slots@.remove(i as int).len() implies slots@.remove(
                        i as int,
                    )[a].id@ != slots@.remove(i as int)[b].id@ by {
                        let s = slots@;
                        let a2 = if a < i { a } else { a + 1 };
                        let b2 = if b < i { b } else { b + 1 };
                        assert(s[a2].id@ != s[b2].id@);
                    }
                }
                slots.remove(i);
            },
            None => {},
        }
        let ghost kept = slots@;
        let slot = Slot {
            id: id.clone(),
            entry,
            cancel_token,
            created_at: instant_now(),
            finished_at: None,
            cancel_requested: false,
        };
        proof {
            assert forall|k: int| 0 <= k < kept.len() implies kept[k].id@ != slot.id@ by {
                if kept[k].id@ == slot.id@ {
                    assert(has_task(old(self).slots@, slot.id@)) by {
                        let j = if k < task_index(old(self).slots@, slot.id@) || !has_task(old(self).slots@, slot.id@) { k } else { k + 1 };
                        assert(old(self).slots@[j] == kept[k]);
                    }
                }
            }
        }
        slots.push(slot);
        proof {
            assert(slots@.drop_last() =~= kept);
            registered_task_is_found(old(self).slots@, slot);
            assert(slots@ =~= without_task(old(self).slots@, slot.id@).push(slot));
        }
        self.slots = slots;
        Ok(id)
    }

    /// Sets the status of task `id`. A task in a terminal status keeps it;
    /// reaching a terminal status records the finishing instant. An unknown
    /// identifier changes nothing.
    pub fn update_status(&mut self, id: &str, status: E::Status)
        ensures
            final(self).limit() == old(self).limit(),
            ids_distinct(old(self).tasks()),
            ids_distinct(final(self).tasks()),
            !has_task(old(self).tasks(), id@) ==> final(self).tasks() == old(self).tasks(),
            has_task(old(self).tasks(), id@) ==> {
                let i = task_index(old(self).tasks(), id@);
                let before = old(self).tasks()[i];
                let after = final(self).tasks()[i];
                if before.entry.task_status().terminal() {
                    final(self).tasks() == old(self).tasks()
                } else {
                    &&& final(self).tasks() == old(self).tasks().update(i, after)
                    &&& after.entry == before.entry.with_status(status)
                    &&& after.entry.task_status() == status
                    &&& after.entry.task_id() == before.entry.task_id()
                    &&& after.id == before.id
                    &&& after.cancel_token == before.cancel_token
                    &&& after.created_at == before.created_at
                    &&& after.cancel_requested == before.cancel_requested
                    &&& (status.terminal() ==> after.finished_at is Some)
                    &&& (!status.terminal() ==> after.finished_at == before.finished_at)
                }
            },
    {
        proof {
            use_type_invariant(&*self);
        }
        match self.position(id) {
            None => {},
            Some(i) => {
                if self.slots[i].entry.status().is_terminal() {
                    return;
                }
                let terminal = status.is_terminal();
                let mut slots: Vec<Slot<E>> = Vec::new();
                std::mem::swap(&mut slots, &mut self.slots);
                let mut slot = slots.remove(i);
                slot.entry.set_status(status);
                if terminal {
                    slot.finished_at = Some(instant_now());
                }
                proof {
                    let s = old(self).slots@;
                    assert forall|a: int, b: int| #![auto]
                        0 <= a < b < s.update(i as int, slot).len() implies s.update(i as int, slot)[a].id@
                        != s.update(i as int, slot)[b].id@ by {
                        assert(s[a].id@ != s[b].id@);
                    }
                }
                slots.insert(i, slot);
                assert(slots@ =~= old(self).slots@.update(i as int, slot));
                self.slots = slots;
            },
        }
    }

    /// A copy of task `id`, if it is registered.
    pub fn snapshot(&self, id: &str) -> (r: Option<Snapshot<E>>)
        where
            E: Clone,
        ensures
            ids_distinct(self.tasks()),
            !has_task(self.tasks(), id@) ==> r is None,
            has_task(self.tasks(), id@) ==> (r matches Some(snap) && snapshot_of(
                snap,
                self.tasks()[task_index(self.tasks(), id@)],
            )),
    {
        proof {
            use_type_invariant(self);
        }
        match self.position(id) {
            None => None,
            Some(i) => Some(self.snapshot_at(i)),
        }
    }

    fn snapshot_at(&self, i: usize) -> (snap: Snapshot<E>)
        where
            E: Clone,
        requires
            i < self.tasks().len(),
        ensures
            snapshot_of(snap, self.tasks()[i as int]),
    {
        let slot = &self.slots[i];
        Snapshot {
            id: slot.id.clone(),
            entry: slot.entry.clone(),
            created_at: slot.created_at,
            finished_at: slot.finished_at,
        }
    }

    /// Removes the tasks that finished and are marked in `expired`; tasks
    /// that have not finished are always kept.
    pub fn collect_garbage(&mut self, expired: &Vec<bool>)
        requires
            expired@.len() == old(self).tasks().len(),
        ensures
            final(self).limit() == old(self).limit(),
            final(self).tasks() == gc_tasks(old(self).tasks(), expired@),
    {
        proof {
            use_type_invariant(&*self);
        }
        let mut kept: Vec<Slot<E>> = Vec::new();
        let mut old_slots: Vec<Slot<E>> = Vec::new();
        std::mem::swap(&mut old_slots, &mut self.slots);
        let ghost s = old_slots@;
        let n = old_slots.len();
        let mut k: usize = 0;
        assert(s.take(0) =~= Seq::<Slot<E>>::empty());
        assert(gc_tasks(s.take(0), expired@.take(0)) =~= Seq::<Slot<E>>::empty());
        while old_slots.len() > 0
            invariant
                n == s.len(),
                expired@.len() == n,
                k + old_slots@.len() == n,
                old_slots@ == s.skip(k as int),
                kept@ == gc_tasks(s.take(k as int), expired@.take(k as int)),
            decreases old_slots@.len(),
        {
            let slot = old_slots.remove(0);
            let drop = expired[k] && slot.finished_at.is_some();
            proof {
                assert(slot == s[k as int]);
                let t = s.take(k + 1);
                assert(t.drop_last() =~= s.take(k as int));
                assert(expired@.take(k + 1).take(k as int) =~= expired@.take(k as int));
                assert(t.last() == slot);
            }
            if !drop {
                kept.push(slot);
            }
            k = k + 1;
            assert(old_slots@ =~= s.skip(k as int));
        }
        proof {
            assert(s.take(n as int) =~= s);
            assert(expired@.take(n as int) =~= expired@);
            lemma_gc_tasks(s, expired@);
            let g = gc_tasks(s, expired@);
            assert forall|a: int, b: int| #![auto] 0 <= a < b < g.len() implies g[a].id@ != g[b].id@ by {
                lemma_gc_subsequence(s, expired@, a, b);
            }
        }
        self.slots = kept;
    }

    /// Copies of all tasks, after garbage-collecting the tasks that finished
    /// at least `gc_ttl` ago. Tasks that have not finished are never
    /// collected. The ages are read from the clock, so the contract speaks of
    /// the ages that were read, whatever they were.
    pub fn snapshot_all(&mut self, gc_ttl: Duration) -> (r: Vec<Snapshot<E>>)
        where
            E: Clone,
        ensures
            final(self).limit() == old(self).limit(),
            ids_distinct(old(self).tasks()),
            exists|ages: Seq<Option<u128>>| {
                &&& ages_fit(old(self).tasks(), ages)
                &&& final(self).tasks() == gc_tasks(
                    old(self).tasks(),
                    expired_by_age(ages, duration_nanos_of(gc_ttl)),
                )
                &&& forall|i: int|
                    0 <= i < old(self).tasks().len() ==> (final(self).tasks().contains(
                        #[trigger] old(self).tasks()[i],
                    ) <==> (old(self).tasks()[i].finished_at is None || ages[i]->0 < duration_nanos_of(gc_ttl)))
            },
            r@.len() == final(self).tasks().len(),
            forall|i: int| 0 <= i < r@.len() ==> snapshot_of(#[trigger] r@[i], final(self).tasks()[i]),
    {
        proof {
            use_type_invariant(&*self);
        }
        let ttl_nanos = duration_nanos(&gc_ttl);
        let mut ages: Vec<Option<u128>> = Vec::new();
        let mut i: usize = 0;
        while i < self.slots.len()
            invariant
                i <= self.slots@.len(),
                ages@.len() == i,
                forall|k: int| 0 <= k < i ==> ((#[trigger] ages@[k]) is Some <==> self.slots@[k].finished_at is Some),
            decreases self.slots@.len() - i,
        {
            let age = match &self.slots[i].finished_at {
                Some(finished) => Some(duration_nanos(&elapsed_since(finished))),
                None => None,
            };
            ages.push(age);
            i = i + 1;
        }
        let expired = expired_by_ages(&ages, ttl_nanos);
        assert(ages_fit(self.tasks(), ages@));
        proof {
            gc_keeps_exactly_the_young(self.tasks(), ages@, ttl_nanos);
        }
        self.collect_garbage(&expired);
        let mut r: Vec<Snapshot<E>> = Vec::new();
        let mut j: usize = 0;
        while j < self.slots.len()
            invariant
                j <= self.slots@.len(),
                r@.len() == j,
                forall|k: int| 0 <= k < j ==> snapshot_of(#[trigger] r@[k], self.slots@[k]),
            decreases self.slots@.len() - j,
        {
            r.push(self.snapshot_at(j));
            j = j + 1;
        }
        r
    }

    /// Triggers the cancel token of task `id` if it is still running; `true`
    /// exactly then.
    pub fn cancel(&mut self, id: &str) -> (b: bool)
        ensures
            final(self).limit() == old(self).limit(),
            ids_distinct(old(self).tasks()),
            ids_distinct(final(self).tasks()),
            b == (has_task(old(self).tasks(), id@) && is_running(
                old(self).tasks()[task_index(old(self).tasks(), id@)],
            )),
            !b ==> final(self).tasks() == old(self).tasks(),
            b ==> {
                let i = task_index(old(self).tasks(), id@);
                let before = old(self).tasks()[i];
                final(self).tasks() == old(self).tasks().update(
                    i,
                    Slot { cancel_requested: true, ..before },
                )
            },
    {
        proof {
            use_type_invariant(&*self);
        }
        match self.position(id) {
            None => false,
            Some(i) => {
                if self.slots[i].entry.status().is_terminal() {
                    return false;
                }
                trigger_cancel(&self.slots[i].cancel_token);
                let mut slots: Vec<Slot<E>> = Vec::new();
                std::mem::swap(&mut slots, &mut self.slots);
                let mut slot = slots.remove(i);
                slot.cancel_requested = true;
                proof {
                    let s = old(self).slots@;
                    assert forall|a: int, b: int| #![auto]
                        0 <= a < b < s.update(i as int, slot).len() implies s.update(i as int, slot)[a].id@
                        != s.update(i as int, slot)[b].id@ by {
                        assert(s[a].id@ != s[b].id@);
                    }
                }
                slots.insert(i, slot);
                assert(slots@ =~= old(self).slots@.update(i as int, slot));
                self.slots = slots;
                true
            },
        }
    }

    /// Whether the cancel token of task `id` was triggered; `false` for an
    /// unknown identifier, `true` once this registry cancelled the task (a
    /// triggered token stays triggered).
    pub fn is_cancelled(&self, id: &str) -> (b: bool)
        ensures
            !has_task(self.tasks(), id@) ==> !b,
            has_task(self.tasks(), id@) && self.tasks()[task_index(self.tasks(), id@)].cancel_requested
                ==> b,
    {
        match self.position(id) {
            None => false,
            Some(i) => {
                // A token this registry triggered stays cancelled; any other
                // holder of the token may also have cancelled it.
                if self.slots[i].cancel_requested {
                    true
                } else {
                    token_is_cancelled(&self.slots[i].cancel_token)
                }
            },
        }
    }

    /// Triggers the cancel token of every running task and removes all
    /// tasks; gives the identifiers of the tasks whose tokens it triggered,
    /// in order.
    pub fn shutdown(&mut self) -> (cancelled: Vec<String>)
        ensures
            final(self).limit() == old(self).limit(),
            final(self).tasks().len() == 0,
            crate::text::string_views(cancelled@) == running_ids(old(self).tasks()),
    {
        let mut cancelled: Vec<String> = Vec::new();
        let mut i: usize = 0;
        assert(self.slots@.take(0) =~= Seq::<Slot<E>>::empty());
        while i < self.slots.len()
            invariant
                i <= self.slots@.len(),
                self.slots@ == old(self).slots@,
                crate::text::string_views(cancelled@) == running_ids(self.slots@.take(i as int)),
            decreases self.slots@.len() - i,
        {
            let ghost before = cancelled@;
            assert(self.slots@.take(i + 1).drop_last() =~= self.slots@.take(i as int));
            if !self.slots[i].entry.status().is_terminal() {
                trigger_cancel(&self.slots[i].cancel_token);
                cancelled.push(self.slots[i].id.clone());
                assert(crate::text::string_views(cancelled@) =~= crate::text::string_views(before).push(
                    self.slots@[i as int].id@,
                ));
            }
            i = i + 1;
        }
        assert(self.slots@.take(i as int) =~= self.slots@);
        self.slots = Vec::new();
        cancelled
    }

    /// The number of running tasks.
    pub fn running_count(&self) -> (n: usize)
        ensures
            n == running_in(self.tasks()),
    {
        let mut n: usize = 0;
        let mut i: usize = 0;
        while i < self.slots.len()
            invariant
                i <= self.slots@.len(),
                n == running_in(self.slots@.take(i as int)),
                n <= i,
            decreases self.slots@.len() - i,
        {
            assert(self.slots@.take(i + 1).drop_last() =~= self.slots@.take(i as int));
            if !self.slots[i].entry.status().is_terminal() {
                n = n + 1;
            }
            i = i + 1;
        }
        assert(self.slots@.take(i as int) =~= self.slots@);
        n
    }

    /// Applies `f` to task `id`'s entry and gives its result; `None` for an
    /// unknown identifier.
    pub fn with_entry<F, R>(&self, id: &str, f: F) -> (r: Option<R>)
        where
            F: FnOnce(&E) -> R,
        requires
            forall|e: &E| f.requires((e,)),
        ensures
            !has_task(self.tasks(), id@) ==> r is None,
            has_task(self.tasks(), id@) ==> (r matches Some(x) && f.ensures(
                (&self.tasks()[task_index(self.tasks(), id@)].entry,),
                x,
            )),
    {
        match self.position(id) {
            None => None,
            Some(i) => Some(f(&self.slots[i].entry)),
        }
    }

    /// Replaces task `id`'s entry by the one `f` makes of it and gives `f`'s
    /// other result; `None`, with nothing changed, for an unknown identifier.
    pub fn with_entry_mut<F, R>(&mut self, id: &str, f: F) -> (r: Option<R>)
        where
            F: FnOnce(E) -> (E, R),
        requires
            forall|e: E| f.requires((e,)),
        ensures
            final(self).limit() == old(self).limit(),
            ids_distinct(old(self).tasks()),
            ids_distinct(final(self).tasks()),
            !has_task(old(self).tasks(), id@) ==> r is None && final(self).tasks() == old(
                self,
            ).tasks(),
            has_task(old(self).tasks(), id@) ==> {
                let i = task_index(old(self).tasks(), id@);
                let before = old(self).tasks()[i];
                let after = final(self).tasks()[i];
                &&& r matches Some(x) && f.ensures((before.entry,), (after.entry, x))
                &&& final(self).tasks() == old(self).tasks().update(
                    i,
                    Slot { entry: after.entry, ..before },
                )
            },
    {
        proof {
            use_type_invariant(&*self);
        }
        match self.position(id) {
            None => None,
            Some(i) => {
                let mut slots: Vec<Slot<E>> = Vec::new();
                std::mem::swap(&mut slots, &mut self.slots);
                let slot = slots.remove(i);
                let Slot { id: key, entry, cancel_token, created_at, finished_at, cancel_requested } = slot;
                let (entry, x) = f(entry);
                let slot = Slot { id: key, entry, cancel_token, created_at, finished_at, cancel_requested };
                proof {
                    let s = old(self).slots@;
                    assert forall|a: int, b: int| #![auto]
                        0 <= a < b < s.update(i as int, slot).len() implies s.update(i as int, slot)[a].id@
                        != s.update(i as int, slot)[b].id@ by {
                        assert(s[a].id@ != s[b].id@);
                    }
                }
                slots.insert(i, slot);
                assert(slots@ =~= old(self).slots@.update(i as int, slot));
                self.slots = slots;
                Some(x)
            },
        }
    }
}

/// Two tasks kept by garbage collection were distinct tasks before.
pub proof fn lemma_gc_subsequence<E>(s: Seq<Slot<E>>, expired: Seq<bool>, a: int, b: int)
    requires
        expired.len() == s.len(),
        ids_distinct(s),
        0 <= a < b < gc_tasks(s, expired).len(),
    ensures
        gc_tasks(s, expired)[a].id@ != gc_tasks(s, expired)[b].id@,
    decreases s.len(),
{
    let e = expired.take(s.len() - 1);
    let rest = gc_tasks(s.drop_last(), e);
    assert(ids_distinct(s.drop_last())) by {
        assert forall|x: int, y: int| #![auto] 0 <= x < y < s.drop_last().len() implies s.drop_last()[x].id@
            != s.drop_last()[y].id@ by {
            assert(s[x].id@ != s[y].id@);
        }
    }
    lemma_gc_tasks(s.drop_last(), e);
    if b < rest.len() {
        assert(gc_tasks(s, expired)[a] == rest[a]);
        assert(gc_tasks(s, expired)[b] == rest[b]);
        lemma_gc_subsequence(s.drop_last(), e, a, b);
    } else {
        assert(gc_tasks(s, expired)[b] == s.last());
        assert(gc_tasks(s, expired)[a] == rest[a]);
        assert(s.drop_last().contains(rest[a]));
        let k = choose|k: int| 0 <= k < s.drop_last().len() && s.drop_last()[k] == rest[a];
        assert(s[k].id@ != s[s.len() - 1].id@);
    }
}

} // verus!
