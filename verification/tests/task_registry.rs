use phi_kernel_tools::task_registry::registry::expired_by_ages;
use phi_kernel_tools::task_registry::{Snapshot, TaskEntry, TaskRegistry, TaskStatus};
use std::time::{Duration, Instant};
use tokio_util::sync::CancellationToken;

#[derive(Clone, Debug, PartialEq)]
enum Status {
    Running,
    Done,
    Error(String),
}

impl TaskStatus for Status {
    fn is_terminal(&self) -> bool {
        !matches!(self, Self::Running)
    }
    fn is_wake_worthy(&self) -> bool {
        matches!(self, Self::Done | Self::Error(_))
    }
}

#[derive(Clone, Debug)]
struct Task {
    id: String,
    status: Status,
    data: String,
}

impl TaskEntry for Task {
    type Status = Status;
    fn id(&self) -> &str {
        &self.id
    }
    fn status(&self) -> &Status {
        &self.status
    }
    fn set_status(&mut self, status: Status) {
        self.status = status;
    }
}

fn make_task(id: &str) -> Task {
    Task {
        id: id.into(),
        status: Status::Running,
        data: String::new(),
    }
}

#[test]
fn register_and_snapshot() {
    let mut reg = TaskRegistry::<Task>::new(4);
    let id = reg
        .register(make_task("t1"), CancellationToken::new())
        .unwrap();
    assert_eq!(id, "t1");
    let snap = reg.snapshot(&id).unwrap();
    assert_eq!(snap.id, "t1");
    assert!(!snap.is_terminal());
    assert!(snap.duration().is_none());
}

#[test]
fn register_limit_exceeded() {
    let mut reg = TaskRegistry::<Task>::new(1);
    reg.register(make_task("t1"), CancellationToken::new())
        .unwrap();
    let err = reg
        .register(make_task("t2"), CancellationToken::new())
        .unwrap_err();
    assert!(err.to_string().contains("too many"));
}

#[test]
fn terminal_tasks_do_not_count_against_limit() {
    let mut reg = TaskRegistry::<Task>::new(1);
    let id = reg
        .register(make_task("t1"), CancellationToken::new())
        .unwrap();
    reg.update_status(&id, Status::Done);
    reg.register(make_task("t2"), CancellationToken::new())
        .unwrap();
    assert_eq!(reg.running_count(), 1);
}

#[test]
fn update_status_sets_terminal_and_finished_at() {
    let mut reg = TaskRegistry::<Task>::new(4);
    let id = reg
        .register(make_task("t1"), CancellationToken::new())
        .unwrap();
    reg.update_status(&id, Status::Done);
    let snap = reg.snapshot(&id).unwrap();
    assert!(snap.is_terminal());
    assert!(snap.duration().is_some());
}

#[test]
fn update_status_ignores_transition_after_terminal() {
    let mut reg = TaskRegistry::<Task>::new(4);
    let id = reg
        .register(make_task("t1"), CancellationToken::new())
        .unwrap();
    reg.update_status(&id, Status::Done);
    reg.update_status(&id, Status::Error("ignored".into()));
    let snap = reg.snapshot(&id).unwrap();
    assert_eq!(snap.entry.status, Status::Done);
}

#[test]
fn update_status_nonexistent_is_noop() {
    let mut reg = TaskRegistry::<Task>::new(4);
    reg.update_status("missing", Status::Done);
    assert_eq!(reg.running_count(), 0);
}

#[test]
fn cancel_triggers_token() {
    let mut reg = TaskRegistry::<Task>::new(4);
    let token = CancellationToken::new();
    let id = reg.register(make_task("t1"), token.clone()).unwrap();
    assert!(!token.is_cancelled());
    assert!(reg.cancel(&id));
    assert!(token.is_cancelled());
    assert!(reg.is_cancelled(&id));
}

#[test]
fn cancel_terminal_returns_false() {
    let mut reg = TaskRegistry::<Task>::new(4);
    let id = reg
        .register(make_task("t1"), CancellationToken::new())
        .unwrap();
    reg.update_status(&id, Status::Done);
    assert!(!reg.cancel(&id));
}

#[test]
fn cancel_nonexistent_returns_false() {
    let mut reg = TaskRegistry::<Task>::new(4);
    assert!(!reg.cancel("missing"));
}

#[test]
fn is_cancelled_nonexistent_returns_false() {
    let reg = TaskRegistry::<Task>::new(4);
    assert!(!reg.is_cancelled("missing"));
}

#[test]
fn snapshot_nonexistent_returns_none() {
    let reg = TaskRegistry::<Task>::new(4);
    assert!(reg.snapshot("missing").is_none());
}

fn pause(d: Duration) {
    let start = Instant::now();
    while start.elapsed() < d {}
}

#[test]
fn snapshot_all_returns_all_and_gcs() {
    let mut reg = TaskRegistry::<Task>::new(4);
    let id1 = reg
        .register(make_task("t1"), CancellationToken::new())
        .unwrap();
    let _id2 = reg
        .register(make_task("t2"), CancellationToken::new())
        .unwrap();
    reg.update_status(&id1, Status::Done);

    let snaps = reg.snapshot_all(Duration::from_millis(1));
    pause(Duration::from_millis(10));
    let snaps2 = reg.snapshot_all(Duration::from_millis(1));
    assert!(snaps2.len() <= snaps.len());
}

#[test]
fn with_entry_mut_modifies_data() {
    let mut reg = TaskRegistry::<Task>::new(4);
    let id = reg
        .register(make_task("t1"), CancellationToken::new())
        .unwrap();
    reg.with_entry_mut(&id, |mut e| {
        e.data = "hello".into();
        (e, ())
    });
    let data = reg.with_entry(&id, |e| e.data.clone()).unwrap();
    assert_eq!(data, "hello");
}

#[test]
fn with_entry_nonexistent_returns_none() {
    let mut reg = TaskRegistry::<Task>::new(4);
    assert!(reg.with_entry("missing", |_| ()).is_none());
    assert!(reg.with_entry_mut("missing", |e| (e, ())).is_none());
}

#[test]
fn shutdown_cancels_all_and_clears() {
    let mut reg = TaskRegistry::<Task>::new(4);
    let t1 = CancellationToken::new();
    let t2 = CancellationToken::new();
    reg.register(make_task("t1"), t1.clone()).unwrap();
    reg.register(make_task("t2"), t2.clone()).unwrap();
    reg.shutdown();
    assert!(t1.is_cancelled());
    assert!(t2.is_cancelled());
    assert_eq!(reg.running_count(), 0);
}

#[test]
fn display_register_error() {
    let err = phi_kernel_tools::task_registry::RegisterError::LimitExceeded;
    assert_eq!(err.to_string(), "too many tasks running");
}

#[test]
fn finished_task_is_kept_until_gc_ttl() {
    let mut reg = TaskRegistry::<Task>::new(4);
    let id = reg
        .register(make_task("t1"), CancellationToken::new())
        .unwrap();
    reg.update_status(&id, Status::Done);
    let snaps = reg.snapshot_all(Duration::from_secs(3600));
    assert_eq!(snaps.len(), 1);
    let snaps = reg.snapshot_all(Duration::ZERO);
    assert!(snaps.is_empty());
}

#[test]
fn running_task_is_never_collected() {
    let mut reg = TaskRegistry::<Task>::new(4);
    reg.register(make_task("t1"), CancellationToken::new())
        .unwrap();
    let snaps = reg.snapshot_all(Duration::ZERO);
    assert_eq!(snaps.len(), 1);
    assert_eq!(snaps[0].id, "t1");
}

#[test]
fn reregistering_an_id_replaces_the_task() {
    let mut reg = TaskRegistry::<Task>::new(4);
    reg.register(make_task("t1"), CancellationToken::new())
        .unwrap();
    reg.register(make_task("t1"), CancellationToken::new())
        .unwrap();
    assert_eq!(reg.running_count(), 1);
}

// ── Snapshot ──

#[derive(Clone, Debug, PartialEq)]
enum St {
    Running,
    Done,
}
impl TaskStatus for St {
    fn is_terminal(&self) -> bool {
        matches!(self, Self::Done)
    }
    fn is_wake_worthy(&self) -> bool {
        matches!(self, Self::Done)
    }
}

#[derive(Clone, Debug)]
struct E {
    id: String,
    status: St,
}
impl TaskEntry for E {
    type Status = St;
    fn id(&self) -> &str {
        &self.id
    }
    fn status(&self) -> &St {
        &self.status
    }
    fn set_status(&mut self, s: St) {
        self.status = s;
    }
}

fn snap(status: St, finished: bool) -> Snapshot<E> {
    Snapshot {
        id: "t".into(),
        entry: E {
            id: "t".into(),
            status,
        },
        created_at: Instant::now() - Duration::from_millis(100),
        finished_at: if finished { Some(Instant::now()) } else { None },
    }
}

#[test]
fn is_terminal_reflects_entry() {
    assert!(!snap(St::Running, false).is_terminal());
    assert!(snap(St::Done, true).is_terminal());
}

#[test]
fn elapsed_is_positive() {
    let s = snap(St::Running, false);
    assert!(s.elapsed() >= Duration::from_millis(50));
}

#[test]
fn duration_none_when_running() {
    assert!(snap(St::Running, false).duration().is_none());
}

#[test]
fn duration_some_when_finished() {
    let s = snap(St::Done, true);
    let d = s.duration().unwrap();
    assert!(d >= Duration::ZERO);
    assert!(d <= Duration::from_millis(200));
}

#[test]
fn expiry_goes_by_age_against_the_ttl() {
    let ages = vec![None, Some(5u128), Some(10), Some(11), Some(0)];
    assert_eq!(expired_by_ages(&ages, 10), vec![false, false, true, true, false]);
    assert_eq!(expired_by_ages(&ages, 0), vec![false, true, true, true, true]);
    assert_eq!(expired_by_ages(&Vec::new(), 3), Vec::<bool>::new());
}
