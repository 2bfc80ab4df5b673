//! Decisions of the mode scheduler: whether an active mode can start, what
//! to do when it cannot, and how an app launch is retried.
use crate::task::{task_error, task_fit, validate_task_list, SchedulerError, TaskList};
use crate::text::same_text;
use vstd::prelude::*;
use vstd::string::*;

verus! {

/// Attempts to launch an app at one firing.
pub const LAUNCH_ATTEMPTS: u8 = 3;

/// Seconds between two launch attempts.
pub const RETRY_DELAY_SECS: u64 = 1;

pub open spec fn safe_mode_name() -> Seq<char> {
    seq!['s', 'a', 'f', 'e']
}

/// The name of the mode that is always there to fall back on.
pub fn safe_mode() -> (r: &'static str)
    ensures
        r@ == safe_mode_name(),
{
    proof {
        reveal_strlit("safe");
    }
    "safe"
}

/// Every task of every list of a mode may be scheduled at `now`.
pub open spec fn mode_fit(lists: Seq<TaskList>, now: int) -> bool {
    forall|i: int, j: int|
        0 <= i < lists.len() && 0 <= j < lists[i].tasks@.len() ==> task_fit(
            #[trigger] lists[i].tasks@[j],
            now,
        )
}

pub open spec fn list_fit(list: TaskList, now: int) -> bool {
    forall|j: int| 0 <= j < list.tasks@.len() ==> task_fit(#[trigger] list.tasks@[j], now)
}

/// Task `t` is the first task of `list` that is not fit.
pub open spec fn first_unfit(list: TaskList, t: int, now: int) -> bool {
    &&& 0 <= t < list.tasks@.len()
    &&& !task_fit(list.tasks@[t], now)
    &&& forall|u: int| 0 <= u < t ==> task_fit(#[trigger] list.tasks@[u], now)
}

/// Checks the task lists of the active mode, in order, before they are
/// scheduled: the first list that fails gives the error.
pub fn check_start(lists: &Vec<TaskList>, now: i64) -> (r: Result<(), SchedulerError>)
    ensures
        r is Ok <==> mode_fit(lists@, now as int),
        r is Err ==> exists|i: int|
            0 <= i < lists@.len() && !list_fit(#[trigger] lists@[i], now as int) && forall|k: int|
                0 <= k < i ==> list_fit(#[trigger] lists@[k], now as int),
        r is Err ==> exists|i: int, t: int|
            0 <= i < lists@.len() && (forall|k: int| 0 <= k < i ==> list_fit(#[trigger] lists@[k], now as int))
                && first_unfit(lists@[i], t, now as int) && task_error(
                #[trigger] lists@[i].tasks@[t],
                now as int,
                r->Err_0,
            ),
{
    let mut i: usize = 0;
    while i < lists.len()
        invariant
            i <= lists@.len(),
            forall|k: int, j: int|
                0 <= k < i && 0 <= j < lists@[k].tasks@.len() ==> task_fit(
                    #[trigger] lists@[k].tasks@[j],
                    now as int,
                ),
        decreases lists.len() - i,
    {
        match validate_task_list(&lists[i], now) {
            Ok(()) => {},
            Err(e) => {
                proof {
                    let list = lists@[i as int];
                    let w = choose|j: int|
                        0 <= j < list.tasks@.len() && !task_fit(#[trigger] list.tasks@[j], now as int)
                            && task_error(list.tasks@[j], now as int, e) && forall|u: int|
                            0 <= u < j ==> task_fit(#[trigger] list.tasks@[u], now as int);
                    assert(!task_fit(lists@[i as int].tasks@[w], now as int));
                    assert(first_unfit(lists@[i as int], w, now as int));
                    assert(task_error(lists@[i as int].tasks@[w], now as int, e));
                    assert(!list_fit(lists@[i as int], now as int));
                    assert forall|k: int| 0 <= k < i implies list_fit(#[trigger] lists@[k], now as int) by {
                        assert forall|j: int| 0 <= j < lists@[k].tasks@.len() implies task_fit(
                            #[trigger] lists@[k].tasks@[j],
                            now as int,
                        ) by {}
                    }
                }
                return Err(e);
            },
        }
        i = i + 1;
    }
    Ok(())
}

/// What the scheduler does once it tried to start the active mode.
#[derive(Clone, Copy, Debug, PartialEq, Eq, Structural)]
pub enum StartDecision {
    /// The mode runs.
    Running,
    /// Activate the safe mode and start again.
    FailOver,
    /// The safe mode itself cannot start: the process ends.
    Abort,
}

pub open spec fn start_decision(mode: Seq<char>, started: bool) -> StartDecision {
    if started {
        StartDecision::Running
    } else if mode == safe_mode_name() {
        StartDecision::Abort
    } else {
        StartDecision::FailOver
    }
}

/// Decides what follows an attempt to start the mode `mode`.
pub fn after_start(mode: &str, started: bool) -> (r: StartDecision)
    ensures
        r == start_decision(mode@, started),
{
    if started {
        StartDecision::Running
    } else if same_text(mode, safe_mode()) {
        StartDecision::Abort
    } else {
        StartDecision::FailOver
    }
}

/// A task list of a mode other than the safe one that holds a task that
/// cannot be scheduled makes the scheduler fall back to the safe mode; the
/// same fault in the safe mode ends the process.
pub proof fn lemma_failover(mode: Seq<char>, lists: Seq<TaskList>, now: int, i: int, j: int)
    requires
        0 <= i < lists.len(),
        0 <= j < lists[i].tasks@.len(),
        !task_fit(lists[i].tasks@[j], now),
    ensures
        !mode_fit(lists, now),
        mode != safe_mode_name() ==> start_decision(mode, mode_fit(lists, now)) == StartDecision::FailOver,
        mode == safe_mode_name() ==> start_decision(mode, mode_fit(lists, now)) == StartDecision::Abort,
{
}

/// How one launch attempt of an app ended.
#[derive(Clone, Copy, Debug, PartialEq, Eq, Structural)]
pub enum LaunchEvent {
    /// The app ran and exited with this code.
    Exited(i32),
    /// The app could not be started, or ended without an exit code.
    NotStarted,
}

/// Exit code reported for a launch that produced none: the app could not
/// be started.
pub const LAUNCH_FAILED_CODE: i32 = -1;

/// A telemetry datapoint: the task with id `task_id` (a task may have
/// none) ended with `code`.
#[derive(Clone, Copy, Debug, PartialEq, Eq)]
pub struct ExitReport {
    pub task_id: Option<i32>,
    pub code: i32,
}

/// What the task runner does once any report is sent.
#[derive(Clone, Copy, Debug, PartialEq, Eq, Structural)]
pub enum LaunchNext {
    /// The firing is over.
    Done,
    /// Wait this many seconds and launch again.
    RetryAfter(u64),
    /// No attempts are left for this firing.
    GiveUp,
}

/// The decision after a launch attempt.
#[derive(Clone, Copy, Debug, PartialEq, Eq)]
pub struct LaunchStep {
    /// The datapoint to send first, if any.
    pub report: Option<ExitReport>,
    pub next: LaunchNext,
    /// Attempts left for this firing afterwards.
    pub attempts_left: u8,
}

/// Every non-success exit, and every launch that could not start, is
/// reported, whether the task has an id or not; a success is not.
pub open spec fn launch_report(id: Option<i32>, ev: LaunchEvent) -> Option<ExitReport> {
    match ev {
        LaunchEvent::Exited(code) => if code != 0 {
            Some(ExitReport { task_id: id, code })
        } else {
            None
        },
        LaunchEvent::NotStarted => Some(ExitReport { task_id: id, code: LAUNCH_FAILED_CODE }),
    }
}

pub open spec fn launch_next(attempts_left: nat, ev: LaunchEvent) -> LaunchNext {
    match ev {
        LaunchEvent::Exited(_) => LaunchNext::Done,
        LaunchEvent::NotStarted => if attempts_left > 1 {
            LaunchNext::RetryAfter(RETRY_DELAY_SECS)
        } else {
            LaunchNext::GiveUp
        },
    }
}

/// Decides what follows a launch attempt, when `attempts_left` attempts
/// (this one included) were left.
pub fn launch_step(id: Option<i32>, attempts_left: u8, ev: LaunchEvent) -> (r: LaunchStep)
    requires
        attempts_left > 0,
    ensures
        r.report == launch_report(id, ev),
        r.next == launch_next(attempts_left as nat, ev),
        r.attempts_left == if ev is NotStarted { attempts_left - 1 } else { 0 },
{
    let report = match ev {
        LaunchEvent::Exited(code) => if code != 0 {
            Some(ExitReport { task_id: id, code })
        } else {
            None
        },
        LaunchEvent::NotStarted => Some(ExitReport { task_id: id, code: LAUNCH_FAILED_CODE }),
    };
    match ev {
        LaunchEvent::Exited(_) => LaunchStep { report, next: LaunchNext::Done, attempts_left: 0 },
        LaunchEvent::NotStarted => {
            if attempts_left > 1 {
                LaunchStep {
                    report,
                    next: LaunchNext::RetryAfter(RETRY_DELAY_SECS),
                    attempts_left: attempts_left - 1,
                }
            } else {
                LaunchStep { report, next: LaunchNext::GiveUp, attempts_left: 0 }
            }
        },
    }
}

/// Attempts are counted down from `LAUNCH_ATTEMPTS`: an app that never
/// starts is tried exactly that often, each failed attempt of a task with
/// an id is reported, a retry delay follows each failed attempt but the
/// last, and the firing is then given up.
pub proof fn lemma_launch_attempts(id: Option<i32>)
    ensures
        launch_next(3, LaunchEvent::NotStarted) == LaunchNext::RetryAfter(RETRY_DELAY_SECS),
        launch_next(2, LaunchEvent::NotStarted) == LaunchNext::RetryAfter(RETRY_DELAY_SECS),
        launch_next(1, LaunchEvent::NotStarted) == LaunchNext::GiveUp,
        launch_report(id, LaunchEvent::NotStarted) == Some(
            ExitReport { task_id: id, code: LAUNCH_FAILED_CODE },
        ),
        launch_report(id, LaunchEvent::Exited(0)) is None,
        LAUNCH_ATTEMPTS == 3,
{
}

/// The firing after the one at `when`, where the clock can hold it.
pub open spec fn next_fire_of(when: int, period: Option<u64>) -> Option<i64> {
    match period {
        Some(p) => if p > 0 && when + p <= i64::MAX {
            Some((when + p) as i64)
        } else {
            None
        },
        None => None,
    }
}

/// The `k`-th firing after the first one at `first`, following
/// `next_fire_of`; `None` once the firings stop.
pub open spec fn fire_after(first: i64, period: Option<u64>, k: nat) -> Option<i64>
    decreases k,
{
    if k == 0 {
        Some(first)
    } else {
        match fire_after(first, period, (k - 1) as nat) {
            Some(w) => next_fire_of(w as int, period),
            None => None,
        }
    }
}

/// A periodic task fires on an interval aligned to its first firing: the
/// `k`-th firing after the first is `first + k * period`, as long as that
/// fits the clock.
pub proof fn lemma_fires_aligned(first: i64, p: u64, k: nat)
    requires
        p > 0,
        first + k * p <= i64::MAX,
    ensures
        fire_after(first, Some(p), k) == Some((first + k * p) as i64),
    decreases k,
{
    if k > 0 {
        assert((k - 1) as nat * p <= k * p) by (nonlinear_arith)
            requires
                k > 0,
        {
        }
        assert(first + (k - 1) as nat * p + p == first + k * p) by (nonlinear_arith)
            requires
                k > 0,
        {
        }
        lemma_fires_aligned(first, p, (k - 1) as nat);
        let w = (first + (k - 1) as nat * p) as i64;
        assert(fire_after(first, Some(p), (k - 1) as nat) == Some(w));
        assert(w as int + p == first + k * p);
        assert(fire_after(first, Some(p), k) == next_fire_of(w as int, Some(p)));
    } else {
        assert(k * p == 0) by (nonlinear_arith)
            requires
                k == 0,
        {
        }
    }
}

/// The firing after the one at `when` (Unix seconds) of a task with this
/// period in seconds: none for a one-shot task, for a zero period, or past
/// the end of the clock's range.
pub fn next_fire(when: i64, period: Option<u64>) -> (r: Option<i64>)
    ensures
        r == next_fire_of(when as int, period),
{
    match period {
        Some(p) => {
            if p > 0 && when as i128 + p as i128 <= i64::MAX as i128 {
                Some((when as i128 + p as i128) as i64)
            } else {
                None
            }
        },
        None => None,
    }
}

} // verus!
