//! The task manager: registry, validation, lifecycle operations, and the
//! timing engine that arms schedules and starts due firings under a
//! parallelism cap.
//!
//! The manager is driven from outside: the host calls `poll` with the
//! current time to start the firings that are due (each started task goes
//! `Idle -> Running`), runs each started task's job, and reports the
//! outcome back through `finish_run` (`Running -> Idle`, with the outcome
//! recorded). Firings due while the cap is saturated stay pending — a
//! task's single `next_run` slot is its queue entry, so a task is never
//! queued twice — and start on a later `poll` in due-time order.

use vstd::prelude::*;

use crate::clock::now_timestamp;
use crate::cron::{cron_wf, cron_parsed, expr_matches, next_fire_after, parse_cron, scan_end,
    CronExpr, MAX_TS};
use crate::task::{edge_ok, Task, TaskExecutor, TaskID, TaskRunResult, TaskSchedule, TaskState,
    Timestamp};

verus! {

/// The errors the manager reports.
#[derive(Debug, Clone, Copy, PartialEq, Eq, Structural)]
pub enum TaskError {
    /// The task failed validation at registration; nothing was registered.
    ValidationError,
    /// No task with the given id exists.
    NotFound,
    /// The engine could not bind or drive the task.
    SchedulerError,
    /// A job reported failure; recorded in the task's history, never
    /// returned by `add` or the dispatch loop.
    JobError,
}

/// The schedule constraints checked at registration: positive durations,
/// and a well-formed cron expression.
pub open spec fn schedule_valid(s: TaskSchedule) -> bool {
    match s {
        TaskSchedule::Once(d) => d > 0,
        TaskSchedule::Interval(d) => d > 0,
        TaskSchedule::Cron(e) => cron_wf(e@),
    }
}

/// What `add` demands of a task: a non-empty name and a valid schedule.
pub open spec fn task_input_valid(t: Task) -> bool {
    t.name@.len() > 0 && schedule_valid(t.schedule)
}

/// One registry slot: the task record, its parsed cron expression if it
/// has one, and whether an execution of it is in flight. `executing` stays
/// true through a cancellation that arrives mid-run, until the run's
/// `finish_run`.
pub struct TaskEntry {
    pub task: Task,
    pub cron: Option<CronExpr>,
    pub executing: bool,
}

/// Internal consistency of one slot.
pub open spec fn entry_wf(e: TaskEntry) -> bool {
    &&& 1 <= e.task.id
    &&& task_input_valid(e.task)
    &&& (e.task.state == TaskState::Running ==> e.executing)
    &&& (e.executing && e.task.state != TaskState::Running ==> e.task.state
        == TaskState::Cancelled)
    &&& (e.task.state == TaskState::Cancelled ==> e.task.next_run is None)
    &&& (match e.task.schedule {
        TaskSchedule::Cron(ex) => e.cron matches Some(c) && cron_parsed(ex@, c),
        _ => e.cron is None,
    })
    &&& (e.task.next_run matches Some(f) ==> 0 <= f <= MAX_TS)
}

/// How many executions are in flight.
pub open spec fn count_executing(s: Seq<TaskEntry>) -> int
    decreases s.len(),
{
    if s.len() == 0 {
        0
    } else {
        count_executing(s.drop_last()) + if s.last().executing {
            1int
        } else {
            0int
        }
    }
}

proof fn lemma_count_executing_nonneg(s: Seq<TaskEntry>)
    ensures
        0 <= count_executing(s) <= s.len(),
    decreases s.len(),
{
    if s.len() > 0 {
        lemma_count_executing_nonneg(s.drop_last());
    }
}

proof fn lemma_count_executing_push(s: Seq<TaskEntry>, e: TaskEntry)
    ensures
        count_executing(s.push(e)) == count_executing(s) + if e.executing {
            1int
        } else {
            0int
        },
{
    assert(s.push(e).drop_last() =~= s);
}

proof fn lemma_count_executing_update(s: Seq<TaskEntry>, i: int, e: TaskEntry)
    requires
        0 <= i < s.len(),
    ensures
        count_executing(s.update(i, e)) == count_executing(s) - (if s[i].executing {
            1int
        } else {
            0int
        }) + (if e.executing {
            1int
        } else {
            0int
        }),
    decreases s.len(),
{
    if i == s.len() - 1 {
        assert(s.update(i, e).drop_last() =~= s.drop_last());
        assert(s.update(i, e).last() == e);
    } else {
        lemma_count_executing_update(s.drop_last(), i, e);
        assert(s.update(i, e).drop_last() =~= s.drop_last().update(i, e));
        assert(s.update(i, e).last() == s.last());
    }
}

/// Whether some slot holds the id.
pub open spec fn has_id(s: Seq<TaskEntry>, id: TaskID) -> bool {
    exists|i: int| 0 <= i < s.len() && s[i].task.id == id
}

/// The slot holding the id (unique under `wf`).
pub open spec fn idx_of(s: Seq<TaskEntry>, id: TaskID) -> int {
    choose|i: int| 0 <= i < s.len() && s[i].task.id == id
}

/// A schedule's next firing time, armed at time `now`: `Once` and
/// `Interval` fire a full period later; `Cron` fires at the earliest
/// matching timestamp. `None` means no further firing (beyond the end of
/// the engine's time range, or no cron match within the scan window).
pub open spec fn cron_armed(c: CronExpr, now: int, nr: Option<Timestamp>) -> bool {
    match nr {
        Some(u) => now < u <= MAX_TS && expr_matches(c, u as int) && (forall|w: int|
            now < w < u ==> !expr_matches(c, w)),
        None => forall|w: int| now < w <= scan_end(now) ==> !expr_matches(c, w),
    }
}

pub open spec fn armed(sched: TaskSchedule, cron: Option<CronExpr>, now: int, nr: Option<
    Timestamp,
>) -> bool {
    match sched {
        TaskSchedule::Once(d) => nr == (if now + d <= MAX_TS {
            Some((now + d) as Timestamp)
        } else {
            None::<Timestamp>
        }),
        TaskSchedule::Interval(d) => nr == (if now + d <= MAX_TS {
            Some((now + d) as Timestamp)
        } else {
            None::<Timestamp>
        }),
        TaskSchedule::Cron(_) => cron matches Some(c) && cron_armed(c, now, nr),
    }
}

/// A schedule's next firing time after a firing at `now` was started:
/// `Once` is spent, `Interval` fires a full period later, `Cron` at the
/// earliest matching timestamp.
pub open spec fn rearmed(sched: TaskSchedule, cron: Option<CronExpr>, now: int, nr: Option<
    Timestamp,
>) -> bool {
    match sched {
        TaskSchedule::Once(_) => nr is None,
        TaskSchedule::Interval(d) => nr == (if now + d <= MAX_TS {
            Some((now + d) as Timestamp)
        } else {
            None::<Timestamp>
        }),
        TaskSchedule::Cron(_) => cron matches Some(c) && cron_armed(c, now, nr),
    }
}

/// First firing time of a schedule registered at `now`.
fn arm(sched: &TaskSchedule, cron: &Option<CronExpr>, now: i64) -> (nr: Option<i64>)
    requires
        0 <= now <= MAX_TS,
        sched matches TaskSchedule::Cron(_) ==> cron is Some,
    ensures
        armed(*sched, *cron, now as int, nr),
{
    match sched {
        TaskSchedule::Once(d) => {
            if *d <= (MAX_TS - now) as u64 {
                Some(now + *d as i64)
            } else {
                None
            }
        },
        TaskSchedule::Interval(d) => {
            if *d <= (MAX_TS - now) as u64 {
                Some(now + *d as i64)
            } else {
                None
            }
        },
        TaskSchedule::Cron(_) => {
            match cron {
                Some(c) => next_fire_after(c, now),
                None => {
                    proof {
                        assert(false);
                    }
                    None
                },
            }
        },
    }
}

/// Next firing time of a schedule whose firing at `now` was just started.
fn rearm(sched: &TaskSchedule, cron: &Option<CronExpr>, now: i64) -> (nr: Option<i64>)
    requires
        0 <= now <= MAX_TS,
        sched matches TaskSchedule::Cron(_) ==> cron is Some,
    ensures
        rearmed(*sched, *cron, now as int, nr),
{
    match sched {
        TaskSchedule::Once(_) => None,
        TaskSchedule::Interval(d) => {
            if *d <= (MAX_TS - now) as u64 {
                Some(now + *d as i64)
            } else {
                None
            }
        },
        TaskSchedule::Cron(_) => {
            match cron {
                Some(c) => next_fire_after(c, now),
                None => {
                    proof {
                        assert(false);
                    }
                    None
                },
            }
        },
    }
}

/// Fill in the fields the manager assigns at registration: the id and
/// creation time where the caller left them at zero, and a fresh `Idle`
/// state with empty history.
pub fn build_task(task: Task, fresh_id: TaskID, now: Timestamp) -> (r: Task)
    ensures
        r.id == (if task.id == 0 {
            fresh_id
        } else {
            task.id
        }),
        r.created_at == (if task.created_at == 0 {
            now
        } else {
            task.created_at
        }),
        r.name == task.name,
        r.schedule == task.schedule,
        r.state == TaskState::Idle,
        r.last_run is None,
        r.next_run is None,
        r.executor == task.executor,
{
    Task {
        id: if task.id == 0 {
            fresh_id
        } else {
            task.id
        },
        created_at: if task.created_at == 0 {
            now
        } else {
            task.created_at
        },
        state: TaskState::Idle,
        last_run: None,
        next_run: None,
        name: task.name,
        schedule: task.schedule,
        executor: task.executor,
    }
}

/// What `add_task` accepts: a valid task whose explicit id, if any, is not
/// taken yet.
pub open spec fn add_ok(pre: TaskManager, task: Task) -> bool {
    task_input_valid(task) && (task.id == 0 || !has_id(pre.entries@, task.id))
}

/// The id `add_task` would assign.
pub open spec fn fresh_rid(pre: TaskManager, task: Task) -> TaskID {
    if task.id == 0 {
        pre.next_id
    } else {
        task.id
    }
}

/// What a successful `add_task` did: one slot appended, filled as
/// `build_task` fills it, armed at `now`, and the id counter kept above
/// every id ever assigned.
pub open spec fn add_post(
    pre: TaskManager,
    post: TaskManager,
    task: Task,
    executor: TaskExecutor,
    rid: TaskID,
    now: int,
) -> bool {
    &&& post.entries@.len() == pre.entries@.len() + 1
    &&& (forall|i: int| 0 <= i < pre.entries@.len() ==> post.entries@[i] == pre.entries@[i])
    &&& {
        let e = post.entries@.last();
        &&& e.task.id == rid
        &&& e.task.name == task.name
        &&& e.task.schedule == task.schedule
        &&& e.task.state == TaskState::Idle
        &&& e.task.last_run is None
        &&& e.task.executor == executor
        &&& e.task.created_at as int == (if task.created_at == 0 {
            now
        } else {
            task.created_at as int
        })
        &&& !e.executing
        &&& armed(task.schedule, e.cron, now, e.task.next_run)
    }
    &&& post.next_id == (if rid >= pre.next_id {
        (rid + 1) as TaskID
    } else {
        pre.next_id
    })
    &&& post.cap == pre.cap
}

/// A firing is due: the task is idle, nothing of it is in flight, and its
/// next firing time has been reached. A firing that was deferred under a
/// saturated cap stays due — the single `next_run` slot is its queue
/// entry, so a task is never queued twice.
pub open spec fn due(e: TaskEntry, now: int) -> bool {
    e.task.state == TaskState::Idle && !e.executing && match e.task.next_run {
        Some(f) => f <= now,
        None => false,
    }
}

/// What starting a firing at `now` did to a slot: `Idle -> Running`, the
/// in-flight marker set, the schedule re-armed, everything else kept.
pub open spec fn started_entry(pre: TaskEntry, post: TaskEntry, now: int) -> bool {
    &&& post.task.state == TaskState::Running
    &&& post.executing
    &&& post.task.id == pre.task.id
    &&& post.task.name == pre.task.name
    &&& post.task.schedule == pre.task.schedule
    &&& post.task.last_run == pre.task.last_run
    &&& post.task.executor == pre.task.executor
    &&& post.task.created_at == pre.task.created_at
    &&& post.cron == pre.cron
    &&& rearmed(pre.task.schedule, pre.cron, now, post.task.next_run)
}

/// Firing order: by due time, ties by task id ascending.
pub open spec fn fire_key_le(a: TaskEntry, b: TaskEntry) -> bool {
    match (a.task.next_run, b.task.next_run) {
        (Some(fa), Some(fb)) => fa < fb || (fa == fb && a.task.id <= b.task.id),
        _ => true,
    }
}

/// A task's execution is never concurrent with itself: a slot with an
/// execution in flight, or already `Running`, is never due, and `poll`
/// starts only due slots, so no second execution of a task can start
/// before `finish_run` clears the first.
pub proof fn lemma_single_flight(m: TaskManager, now: int, j: int)
    requires
        m.wf(),
        0 <= j < m.entries@.len(),
        m.entries@[j].executing || m.entries@[j].task.state == TaskState::Running,
    ensures
        !due(m.entries@[j], now),
{
    assert(entry_wf(m.entries@[j]));
}

/// Automatically assigned ids strictly increase and are never reused: two
/// tasks added in sequence with `id` left at zero get distinct, increasing
/// ids.
pub proof fn lemma_ids_strictly_increase(
    m0: TaskManager,
    m1: TaskManager,
    m2: TaskManager,
    t1: Task,
    t2: Task,
    e1: TaskExecutor,
    e2: TaskExecutor,
    r1: TaskID,
    r2: TaskID,
    n1: int,
    n2: int,
)
    requires
        t1.id == 0,
        t2.id == 0,
        r1 < TaskID::MAX,
        r1 == fresh_rid(m0, t1),
        r2 == fresh_rid(m1, t2),
        add_post(m0, m1, t1, e1, r1, n1),
        add_post(m1, m2, t2, e2, r2, n2),
    ensures
        r2 > r1,
{
}

/// How many slots differ between two registry states of equal length.
pub open spec fn count_changed(pre: Seq<TaskEntry>, post: Seq<TaskEntry>) -> int
    decreases post.len(),
{
    if post.len() == 0 || pre.len() != post.len() {
        0
    } else {
        count_changed(pre.drop_last(), post.drop_last()) + if post.last() == pre.last() {
            0int
        } else {
            1int
        }
    }
}

proof fn lemma_count_changed_refl(s: Seq<TaskEntry>)
    ensures
        count_changed(s, s) == 0,
    decreases s.len(),
{
    if s.len() > 0 {
        lemma_count_changed_refl(s.drop_last());
    }
}

proof fn lemma_count_changed_update(pre: Seq<TaskEntry>, post: Seq<TaskEntry>, i: int, e: TaskEntry)
    requires
        pre.len() == post.len(),
        0 <= i < post.len(),
    ensures
        count_changed(pre, post.update(i, e)) == count_changed(pre, post) - (if post[i] != pre[i] {
            1int
        } else {
            0int
        }) + (if e != pre[i] {
            1int
        } else {
            0int
        }),
    decreases post.len(),
{
    if i == post.len() - 1 {
        assert(post.update(i, e).drop_last() =~= post.drop_last());
        assert(post.update(i, e).last() == e);
    } else {
        lemma_count_changed_update(pre.drop_last(), post.drop_last(), i, e);
        assert(post.update(i, e).drop_last() =~= post.drop_last().update(i, e));
        assert(post.update(i, e).last() == post.last());
    }
}

/// The task scheduling engine: the registry of tasks, the id counter, and
/// the cap on concurrently executing firings.
pub struct TaskManager {
    pub entries: Vec<TaskEntry>,
    pub next_id: TaskID,
    pub cap: usize,
}

impl TaskManager {
    /// Internal consistency: ids are positive, unique and below the
    /// counter; every slot is consistent; in-flight executions never
    /// exceed the cap.
    pub open spec fn wf(self) -> bool {
        &&& 1 <= self.next_id
        &&& 1 <= self.cap
        &&& (forall|i: int| 0 <= i < self.entries@.len() ==> entry_wf(#[trigger] self.entries@[i]))
        &&& (forall|i: int|
            0 <= i < self.entries@.len() ==> (#[trigger] self.entries@[i]).task.id < self.next_id)
        &&& (forall|i: int, j: int|
            0 <= i < j < self.entries@.len() ==> self.entries@[i].task.id
                != self.entries@[j].task.id)
        &&& count_executing(self.entries@) <= self.cap
    }

    /// An empty manager with the default cap of five concurrent firings.
    pub fn new() -> (r: Self)
        ensures
            r.wf(),
            r.entries@.len() == 0,
            r.next_id == 1,
            r.cap == 5,
    {
        TaskManager { entries: Vec::new(), next_id: 1, cap: 5 }
    }

    /// An empty manager with the given cap on concurrent firings.
    pub fn with_cap(cap: usize) -> (r: Self)
        requires
            1 <= cap,
        ensures
            r.wf(),
            r.entries@.len() == 0,
            r.next_id == 1,
            r.cap == cap,
    {
        TaskManager { entries: Vec::new(), next_id: 1, cap }
    }

    /// The slot index of a task id.
    fn find_index(&self, id: TaskID) -> (r: Option<usize>)
        ensures
            match r {
                Some(i) => i < self.entries@.len() && self.entries@[i as int].task.id == id,
                None => !has_id(self.entries@, id),
            },
    {
        let n = self.entries.len();
        let mut i: usize = 0;
        while i < n
            invariant
                n == self.entries@.len(),
                0 <= i <= n,
                forall|j: int| 0 <= j < i ==> self.entries@[j].task.id != id,
            decreases n - i,
        {
            if self.entries[i].task.id == id {
                return Some(i);
            }
            i = i + 1;
        }
        None
    }

    /// A snapshot of the task with the given id; `NotFound` exactly when no
    /// task has it.
    pub fn get(&self, id: TaskID) -> (r: Result<Task, TaskError>)
        requires
            self.wf(),
        ensures
            r matches Ok(t) ==> has_id(self.entries@, id) && t == self.entries@[idx_of(
                self.entries@,
                id,
            )].task,
            r matches Err(e) ==> e == TaskError::NotFound,
            r is Ok <==> has_id(self.entries@, id),
    {
        match self.find_index(id) {
            Some(i) => {
                let t = self.entries[i].task.snapshot();
                proof {
                    assert(has_id(self.entries@, id));
                    let j = idx_of(self.entries@, id);
                    assert(0 <= j < self.entries@.len() && self.entries@[j].task.id == id);
                    if j < i as int {
                        assert(self.entries@[j].task.id != self.entries@[i as int].task.id);
                    } else if (i as int) < j {
                        assert(self.entries@[i as int].task.id != self.entries@[j].task.id);
                    }
                }
                Ok(t)
            },
            None => Err(TaskError::NotFound),
        }
    }

    /// Validate, fill in defaulted fields, bind the executor, arm the
    /// schedule at `now`, and append the task to the registry. Fails with
    /// `ValidationError` — registry untouched, no id consumed — exactly
    /// when the name is empty, a duration is zero, the cron expression is
    /// not well formed, or an explicit id is already taken; with
    /// `SchedulerError` when the id space is exhausted.
    pub fn add_task(&mut self, task: Task, executor: TaskExecutor, now: Timestamp) -> (r: Result<
        TaskID,
        TaskError,
    >)
        requires
            old(self).wf(),
            0 <= now <= MAX_TS,
        ensures
            final(self).wf(),
            r is Ok <==> (add_ok(*old(self), task) && fresh_rid(*old(self), task) < TaskID::MAX),
            r matches Ok(rid) ==> rid == fresh_rid(*old(self), task) && add_post(
                *old(self),
                *final(self),
                task,
                executor,
                rid,
                now as int,
            ),
            r is Err ==> *final(self) == *old(self),
            r matches Err(e) ==> (e == TaskError::ValidationError || e
                == TaskError::SchedulerError) && (e == TaskError::ValidationError <==> !add_ok(
                *old(self),
                task,
            )),
    {
        if task.name.as_str().is_empty() {
            return Err(TaskError::ValidationError);
        }
        let cron: Option<CronExpr> = match &task.schedule {
            TaskSchedule::Once(d) => {
                if *d == 0 {
                    return Err(TaskError::ValidationError);
                }
                None
            },
            TaskSchedule::Interval(d) => {
                if *d == 0 {
                    return Err(TaskError::ValidationError);
                }
                None
            },
            TaskSchedule::Cron(e) => {
                match parse_cron(e.as_str()) {
                    Some(c) => Some(c),
                    None => {
                        return Err(TaskError::ValidationError);
                    },
                }
            },
        };
        if task.id != 0 {
            if self.find_index(task.id).is_some() {
                return Err(TaskError::ValidationError);
            }
        }
        let rid: TaskID = if task.id == 0 {
            self.next_id
        } else {
            task.id
        };
        if rid == TaskID::MAX {
            return Err(TaskError::SchedulerError);
        }
        let mut built = build_task(task, rid, now);
        built.executor = executor;
        built.next_run = arm(&built.schedule, &cron, now);
        let entry = TaskEntry { task: built, cron, executing: false };
        proof {
            lemma_count_executing_push(self.entries@, entry);
        }
        self.entries.push(entry);
        if rid >= self.next_id {
            self.next_id = rid + 1;
        }
        Ok(rid)
    }

    /// `add_task` against the wall clock. If the clock reads outside the
    /// engine's time range the task is rejected with `SchedulerError`.
    pub fn add(&mut self, task: Task, executor: TaskExecutor) -> (r: Result<TaskID, TaskError>)
        requires
            old(self).wf(),
        ensures
            final(self).wf(),
            r matches Ok(rid) ==> rid == fresh_rid(*old(self), task) && (exists|now: int|
                0 <= now <= MAX_TS && add_post(*old(self), *final(self), task, executor, rid, now)),
            r is Err ==> *final(self) == *old(self),
            r matches Err(e) ==> e == TaskError::ValidationError || e == TaskError::SchedulerError,
            !add_ok(*old(self), task) ==> r == Result::<TaskID, TaskError>::Err(
                TaskError::ValidationError,
            ),
    {
        let now = now_timestamp();
        if now < 0 || now > MAX_TS {
            // the wall clock is outside the engine's time range
            if !self.validate(&task) {
                return Err(TaskError::ValidationError);
            }
            return Err(TaskError::SchedulerError);
        }
        self.add_task(task, executor, now)
    }

    /// Whether `add_task` would accept the task.
    pub fn validate(&self, task: &Task) -> (r: bool)
        ensures
            r == add_ok(*self, *task),
    {
        if task.name.as_str().is_empty() {
            return false;
        }
        let sched_ok = match &task.schedule {
            TaskSchedule::Once(d) => *d > 0,
            TaskSchedule::Interval(d) => *d > 0,
            TaskSchedule::Cron(e) => parse_cron(e.as_str()).is_some(),
        };
        if !sched_ok {
            return false;
        }
        if task.id != 0 && self.find_index(task.id).is_some() {
            return false;
        }
        true
    }

    /// Mark the task `Cancelled` and release its timer slot. `NotFound`
    /// exactly when the id is unknown; cancelling an already-cancelled
    /// task changes nothing and succeeds. An execution already in flight
    /// is not interrupted (`executing` is untouched); its later
    /// `finish_run` leaves the task `Cancelled`.
    pub fn cancel(&mut self, id: TaskID) -> (r: Result<(), TaskError>)
        requires
            old(self).wf(),
        ensures
            final(self).wf(),
            r is Ok <==> has_id(old(self).entries@, id),
            r is Err ==> *final(self) == *old(self) && r == Result::<(), TaskError>::Err(
                TaskError::NotFound,
            ),
            r is Ok ==> {
                let i = idx_of(old(self).entries@, id);
                let pre = old(self).entries@[i];
                let post = final(self).entries@[i];
                &&& final(self).entries@.len() == old(self).entries@.len()
                &&& (forall|j: int|
                    0 <= j < old(self).entries@.len() && j != i ==> final(self).entries@[j] == old(
                        self,
                    ).entries@[j])
                &&& post.task.state == TaskState::Cancelled
                &&& post.task.next_run is None
                &&& post.task.id == pre.task.id
                &&& post.task.name == pre.task.name
                &&& post.task.schedule == pre.task.schedule
                &&& post.task.last_run == pre.task.last_run
                &&& post.task.executor == pre.task.executor
                &&& post.task.created_at == pre.task.created_at
                &&& post.executing == pre.executing
                &&& post.cron == pre.cron
                &&& final(self).next_id == old(self).next_id
                &&& final(self).cap == old(self).cap
            },
            forall|j: int|
                0 <= j < old(self).entries@.len() ==> edge_ok(
                    old(self).entries@[j].task.state,
                    final(self).entries@[j].task.state,
                ),
    {
        match self.find_index(id) {
            Some(i) => {
                proof {
                    assert(has_id(self.entries@, id));
                    let j = idx_of(self.entries@, id);
                    assert(0 <= j < self.entries@.len() && self.entries@[j].task.id == id);
                    if j < i as int {
                        assert(self.entries@[j].task.id != self.entries@[i as int].task.id);
                    } else if (i as int) < j {
                        assert(self.entries@[i as int].task.id != self.entries@[j].task.id);
                    }
                }
                let ghost s0 = self.entries@;
                self.entries[i].task.state = TaskState::Cancelled;
                let ghost s1 = self.entries@;
                self.entries[i].task.next_run = None;
                proof {
                    lemma_count_executing_update(s0, i as int, s1[i as int]);
                    lemma_count_executing_update(s1, i as int, self.entries@[i as int]);
                }
                Ok(())
            },
            None => Err(TaskError::NotFound),
        }
    }

    /// Record the outcome of a firing started by `poll`. The in-flight
    /// marker is cleared; a `Running` task returns to `Idle` with
    /// `last_run` set to the outcome at `now`; a task cancelled mid-run
    /// stays `Cancelled` and the outcome is discarded. `NotFound` exactly
    /// when the id is unknown; `SchedulerError` when no execution of the
    /// task is in flight.
    pub fn finish_run(&mut self, id: TaskID, outcome: TaskRunResult, now: Timestamp) -> (r: Result<
        (),
        TaskError,
    >)
        requires
            old(self).wf(),
        ensures
            final(self).wf(),
            r is Ok <==> (has_id(old(self).entries@, id) && old(self).entries@[idx_of(
                old(self).entries@,
                id,
            )].executing),
            !has_id(old(self).entries@, id) ==> r == Result::<(), TaskError>::Err(
                TaskError::NotFound,
            ),
            r is Err ==> *final(self) == *old(self) && (r == Result::<(), TaskError>::Err(
                TaskError::NotFound,
            ) || r == Result::<(), TaskError>::Err(TaskError::SchedulerError)),
            r is Ok ==> {
                let i = idx_of(old(self).entries@, id);
                let pre = old(self).entries@[i];
                let post = final(self).entries@[i];
                &&& final(self).entries@.len() == old(self).entries@.len()
                &&& (forall|j: int|
                    0 <= j < old(self).entries@.len() && j != i ==> final(self).entries@[j] == old(
                        self,
                    ).entries@[j])
                &&& !post.executing
                &&& (pre.task.state == TaskState::Running ==> post.task.state == TaskState::Idle
                    && post.task.last_run == Some((now, outcome)) && post.task.next_run
                    == pre.task.next_run)
                &&& (pre.task.state != TaskState::Running ==> post.task == pre.task)
                &&& post.task.id == pre.task.id
                &&& post.task.name == pre.task.name
                &&& post.task.schedule == pre.task.schedule
                &&& post.task.executor == pre.task.executor
                &&& post.task.created_at == pre.task.created_at
                &&& post.cron == pre.cron
                &&& final(self).next_id == old(self).next_id
                &&& final(self).cap == old(self).cap
            },
            forall|j: int|
                0 <= j < old(self).entries@.len() ==> edge_ok(
                    old(self).entries@[j].task.state,
                    final(self).entries@[j].task.state,
                ),
    {
        match self.find_index(id) {
            Some(i) => {
                proof {
                    assert(has_id(self.entries@, id));
                    let j = idx_of(self.entries@, id);
                    assert(0 <= j < self.entries@.len() && self.entries@[j].task.id == id);
                    if j < i as int {
                        assert(self.entries@[j].task.id != self.entries@[i as int].task.id);
                    } else if (i as int) < j {
                        assert(self.entries@[i as int].task.id != self.entries@[j].task.id);
                    }
                }
                if !self.entries[i].executing {
                    return Err(TaskError::SchedulerError);
                }
                let ghost s0 = self.entries@;
                self.entries[i].executing = false;
                let ghost s1 = self.entries@;
                proof {
                    lemma_count_executing_update(s0, i as int, s1[i as int]);
                    lemma_count_executing_nonneg(s0);
                }
                let running = match self.entries[i].task.state {
                    TaskState::Running => true,
                    _ => false,
                };
                if running {
                    let ghost s1b = self.entries@;
                    self.entries[i].task.state = TaskState::Idle;
                    let ghost s2 = self.entries@;
                    self.entries[i].task.last_run = Some((now, outcome));
                    proof {
                        lemma_count_executing_update(s1b, i as int, s2[i as int]);
                        lemma_count_executing_update(s2, i as int, self.entries@[i as int]);
                    }
                }
                Ok(())
            },
            None => Err(TaskError::NotFound),
        }
    }

    /// How many executions are in flight.
    fn count_executing_exec(&self) -> (r: usize)
        ensures
            r as int == count_executing(self.entries@),
    {
        let n = self.entries.len();
        let mut cnt: usize = 0;
        let mut i: usize = 0;
        proof {
            assert(self.entries@.take(0) =~= Seq::<TaskEntry>::empty());
        }
        while i < n
            invariant
                n == self.entries@.len(),
                0 <= i <= n,
                cnt <= i,
                cnt as int == count_executing(self.entries@.take(i as int)),
            decreases n - i,
        {
            proof {
                assert(self.entries@.take(i as int + 1).drop_last() =~= self.entries@.take(
                    i as int,
                ));
                assert(self.entries@.take(i as int + 1).last() == self.entries@[i as int]);
            }
            if self.entries[i].executing {
                cnt = cnt + 1;
            }
            i = i + 1;
        }
        proof {
            assert(self.entries@.take(n as int) =~= self.entries@);
        }
        cnt
    }

    /// The due slot that fires first: earliest due time, ties broken by
    /// task id ascending.
    fn find_min_due(&self, now: i64) -> (r: Option<usize>)
        ensures
            r matches Some(i) ==> i < self.entries@.len() && due(
                self.entries@[i as int],
                now as int,
            ) && (forall|j: int|
                0 <= j < self.entries@.len() && due(self.entries@[j], now as int) ==> fire_key_le(
                    self.entries@[i as int],
                    self.entries@[j],
                )),
            r is None ==> forall|j: int|
                0 <= j < self.entries@.len() ==> !due(self.entries@[j], now as int),
    {
        let n = self.entries.len();
        let mut best: Option<usize> = None;
        let mut i: usize = 0;
        while i < n
            invariant
                n == self.entries@.len(),
                0 <= i <= n,
                match best {
                    Some(b) => b < i && due(self.entries@[b as int], now as int) && (forall|j: int|
                        0 <= j < i && due(self.entries@[j], now as int) ==> fire_key_le(
                            self.entries@[b as int],
                            self.entries@[j],
                        )),
                    None => forall|j: int| 0 <= j < i ==> !due(self.entries@[j], now as int),
                },
            decreases n - i,
        {
            let e = &self.entries[i];
            let is_due = e.task.state == TaskState::Idle && !e.executing && match e.task.next_run {
                Some(f) => f <= now,
                None => false,
            };
            if is_due {
                match best {
                    None => {
                        best = Some(i);
                    },
                    Some(b) => {
                        let fa = match e.task.next_run {
                            Some(f) => f,
                            None => 0,
                        };
                        let fb = match self.entries[b].task.next_run {
                            Some(f) => f,
                            None => 0,
                        };
                        if fa < fb || (fa == fb && e.task.id < self.entries[b].task.id) {
                            best = Some(i);
                        }
                    },
                }
            }
            i = i + 1;
        }
        best
    }

    /// Start every firing that is due at `now`, in due-time order (ties by
    /// id), up to the cap on concurrent executions; due firings beyond the
    /// cap stay pending. Each started task goes `Idle -> Running` with the
    /// in-flight marker set and its schedule re-armed, and its id is
    /// returned; the host runs each started task's job and reports through
    /// `finish_run`.
    pub fn poll(&mut self, now: Timestamp) -> (r: Vec<TaskID>)
        requires
            old(self).wf(),
            0 <= now <= MAX_TS,
        ensures
            final(self).wf(),
            final(self).entries@.len() == old(self).entries@.len(),
            final(self).next_id == old(self).next_id,
            final(self).cap == old(self).cap,
            forall|j: int|
                0 <= j < old(self).entries@.len() ==> (final(self).entries@[j] == old(
                    self,
                ).entries@[j] || (due(old(self).entries@[j], now as int) && started_entry(
                    old(self).entries@[j],
                    final(self).entries@[j],
                    now as int,
                ))),
            forall|j: int|
                0 <= j < old(self).entries@.len() ==> edge_ok(
                    old(self).entries@[j].task.state,
                    final(self).entries@[j].task.state,
                ),
            count_executing(final(self).entries@) < final(self).cap ==> (forall|j: int|
                0 <= j < final(self).entries@.len() ==> !due(final(self).entries@[j], now as int)),
            forall|j: int|
                0 <= j < old(self).entries@.len() && final(self).entries@[j] != old(
                    self,
                ).entries@[j] ==> r@.contains(old(self).entries@[j].task.id),
            r@.len() == count_changed(old(self).entries@, final(self).entries@),
            forall|k1: int, k2: int| 0 <= k1 < k2 < r@.len() ==> r@[k1] != r@[k2],
            forall|k: int| 0 <= k < r@.len() ==> has_id(old(self).entries@, #[trigger] r@[k]),
            forall|k1: int, k2: int|
                0 <= k1 < k2 < r@.len() ==> fire_key_le(
                    old(self).entries@[idx_of(old(self).entries@, r@[k1])],
                    old(self).entries@[idx_of(old(self).entries@, r@[k2])],
                ),
    {
        let mut started_ids: Vec<TaskID> = Vec::new();
        let ghost mut idxs: Seq<int> = Seq::empty();
        let mut n_exec = self.count_executing_exec();
        let mut done = false;
        proof {
            lemma_count_executing_nonneg(self.entries@);
            lemma_count_changed_refl(self.entries@);
        }
        #[verifier::loop_isolation(false)]
        while !done
            invariant
                old(self).wf(),
                self.wf(),
                0 <= now <= MAX_TS,
                self.entries@.len() == old(self).entries@.len(),
                self.next_id == old(self).next_id,
                self.cap == old(self).cap,
                n_exec as int == count_executing(self.entries@),
                n_exec <= self.cap,
                forall|j: int|
                    0 <= j < old(self).entries@.len() ==> (self.entries@[j] == old(
                        self,
                    ).entries@[j] || (due(old(self).entries@[j], now as int) && started_entry(
                        old(self).entries@[j],
                        self.entries@[j],
                        now as int,
                    ))),
                forall|j: int|
                    0 <= j < old(self).entries@.len() && self.entries@[j] != old(self).entries@[j]
                        ==> started_ids@.contains(old(self).entries@[j].task.id),
                idxs.len() == started_ids@.len(),
                started_ids@.len() == count_changed(old(self).entries@, self.entries@),
                forall|k: int|
                    0 <= k < idxs.len() ==> 0 <= #[trigger] idxs[k] < old(self).entries@.len()
                        && old(self).entries@[idxs[k]].task.id == started_ids@[k]
                        && self.entries@[idxs[k]] != old(self).entries@[idxs[k]],
                forall|k1: int, k2: int|
                    0 <= k1 < k2 < started_ids@.len() ==> started_ids@[k1] != started_ids@[k2],
                forall|k1: int, k2: int|
                    0 <= k1 < k2 < idxs.len() ==> fire_key_le(
                        old(self).entries@[idxs[k1]],
                        old(self).entries@[idxs[k2]],
                    ),
                forall|k: int, j: int|
                    0 <= k < idxs.len() && 0 <= j < self.entries@.len() && due(
                        self.entries@[j],
                        now as int,
                    ) ==> fire_key_le(old(self).entries@[idxs[k]], self.entries@[j]),
                done ==> (n_exec as int >= self.cap || (forall|j: int|
                    0 <= j < self.entries@.len() ==> !due(self.entries@[j], now as int))),
            decreases 2 * (self.cap - n_exec) + (if done {
                0int
            } else {
                1int
            }),
        {
            if n_exec >= self.cap {
                done = true;
            } else {
                match self.find_min_due(now) {
                    None => {
                        done = true;
                    },
                    Some(i) => {
                        proof {
                            if self.entries@[i as int] != old(self).entries@[i as int] {
                                assert(started_entry(
                                    old(self).entries@[i as int],
                                    self.entries@[i as int],
                                    now as int,
                                ));
                                assert(false);
                            }
                        }
                        let id = self.entries[i].task.id;
                        let sched = self.entries[i].task.schedule.duplicate();
                        let cr = self.entries[i].cron;
                        let nr = rearm(&sched, &cr, now);
                        let ghost s0 = self.entries@;
                        self.entries[i].task.state = TaskState::Running;
                        let ghost s1 = self.entries@;
                        self.entries[i].executing = true;
                        let ghost s2 = self.entries@;
                        self.entries[i].task.next_run = nr;
                        proof {
                            lemma_count_executing_update(s0, i as int, s1[i as int]);
                            lemma_count_executing_update(s1, i as int, s2[i as int]);
                            lemma_count_executing_update(s2, i as int, self.entries@[i as int]);
                            assert(self.entries@ =~= s0.update(
                                i as int,
                                self.entries@[i as int],
                            ));
                            lemma_count_changed_update(
                                old(self).entries@,
                                s0,
                                i as int,
                                self.entries@[i as int],
                            );
                            assert(started_entry(
                                old(self).entries@[i as int],
                                self.entries@[i as int],
                                now as int,
                            ));
                            assert forall|k: int|
                                0 <= k < started_ids@.len() implies started_ids@[k] != id by {
                                let j = idxs[k];
                                assert(s0[j] != old(self).entries@[j]);
                                assert(j != i as int);
                                assert(old(self).entries@[j].task.id != old(
                                    self,
                                ).entries@[i as int].task.id);
                            }
                        }
                        n_exec = n_exec + 1;
                        let ghost ids0 = started_ids@;
                        started_ids.push(id);
                        proof {
                            assert(started_ids@.last() == id);
                            assert(self.entries@[i as int].task.state == TaskState::Running);
                            assert(old(self).entries@[i as int].task.state == TaskState::Idle);
                            assert(self.entries@[i as int] != old(self).entries@[i as int]);
                            assert forall|j: int|
                                0 <= j < old(self).entries@.len() && self.entries@[j] != old(
                                    self,
                                ).entries@[j] implies started_ids@.contains(
                                old(self).entries@[j].task.id,
                            ) by {
                                if j == i as int {
                                    assert(started_ids@[started_ids@.len() - 1] == old(
                                        self,
                                    ).entries@[j].task.id);
                                } else {
                                    assert(s0[j] == self.entries@[j]);
                                    assert(ids0.contains(old(self).entries@[j].task.id));
                                    let k0 = choose|k0: int|
                                        0 <= k0 < ids0.len() && ids0[k0] == old(
                                            self,
                                        ).entries@[j].task.id;
                                    assert(started_ids@[k0] == ids0[k0]);
                                }
                            }
                            let ghost idxs0 = idxs;
                            idxs = idxs.push(i as int);
                            assert forall|k1: int, k2: int|
                                0 <= k1 < k2 < idxs.len() implies fire_key_le(
                                old(self).entries@[idxs[k1]],
                                old(self).entries@[idxs[k2]],
                            ) by {
                                if k2 == idxs.len() - 1 {
                                    assert(idxs[k1] == idxs0[k1]);
                                    assert(fire_key_le(
                                        old(self).entries@[idxs0[k1]],
                                        s0[i as int],
                                    ));
                                    assert(s0[i as int] == old(self).entries@[i as int]);
                                } else {
                                    assert(idxs[k1] == idxs0[k1] && idxs[k2] == idxs0[k2]);
                                }
                            }
                            assert forall|k: int, j: int|
                                0 <= k < idxs.len() && 0 <= j < self.entries@.len() && due(
                                    self.entries@[j],
                                    now as int,
                                ) implies fire_key_le(
                                old(self).entries@[idxs[k]],
                                self.entries@[j],
                            ) by {
                                assert(j != i as int);
                                assert(self.entries@[j] == s0[j]);
                                if k == idxs.len() - 1 {
                                    assert(fire_key_le(s0[i as int], s0[j]));
                                    assert(s0[i as int] == old(self).entries@[i as int]);
                                } else {
                                    assert(idxs[k] == idxs0[k]);
                                }
                            }
                            assert forall|k: int|
                                0 <= k < idxs.len() implies 0 <= #[trigger] idxs[k] < old(
                                self,
                            ).entries@.len() && old(self).entries@[idxs[k]].task.id
                                == started_ids@[k] && self.entries@[idxs[k]] != old(
                                self,
                            ).entries@[idxs[k]] by {
                                if k < idxs.len() - 1 {
                                    assert(idxs[k] != i as int);
                                    assert(self.entries@[idxs[k]] == s0[idxs[k]]);
                                    assert(started_ids@[k] == ids0[k]);
                                }
                            }
                        }
                    },
                }
            }
        }
        proof {
            assert forall|k: int| 0 <= k < started_ids@.len() implies has_id(
                old(self).entries@,
                #[trigger] started_ids@[k],
            ) by {
                assert(old(self).entries@[idxs[k]].task.id == started_ids@[k]);
            }
            assert forall|k1: int, k2: int|
                0 <= k1 < k2 < started_ids@.len() implies fire_key_le(
                old(self).entries@[idx_of(old(self).entries@, started_ids@[k1])],
                old(self).entries@[idx_of(old(self).entries@, started_ids@[k2])],
            ) by {
                assert(old(self).entries@[idxs[k1]].task.id == started_ids@[k1]);
                assert(old(self).entries@[idxs[k2]].task.id == started_ids@[k2]);
                let j1 = idx_of(old(self).entries@, started_ids@[k1]);
                let j2 = idx_of(old(self).entries@, started_ids@[k2]);
                assert(0 <= j1 < old(self).entries@.len() && old(self).entries@[j1].task.id
                    == started_ids@[k1]);
                assert(0 <= j2 < old(self).entries@.len() && old(self).entries@[j2].task.id
                    == started_ids@[k2]);
                if j1 < idxs[k1] {
                    assert(old(self).entries@[j1].task.id != old(
                        self,
                    ).entries@[idxs[k1]].task.id);
                } else if idxs[k1] < j1 {
                    assert(old(self).entries@[idxs[k1]].task.id != old(
                        self,
                    ).entries@[j1].task.id);
                }
                if j2 < idxs[k2] {
                    assert(old(self).entries@[j2].task.id != old(
                        self,
                    ).entries@[idxs[k2]].task.id);
                } else if idxs[k2] < j2 {
                    assert(old(self).entries@[idxs[k2]].task.id != old(
                        self,
                    ).entries@[j2].task.id);
                }
                assert(fire_key_le(old(self).entries@[idxs[k1]], old(self).entries@[idxs[k2]]));
            }
        }
        started_ids
    }

    /// Snapshots of every task, in registration order.
    pub fn list(&self) -> (r: Vec<Task>)
        ensures
            r@.len() == self.entries@.len(),
            forall|i: int| 0 <= i < r@.len() ==> r@[i] == self.entries@[i].task,
    {
        let n = self.entries.len();
        let mut out: Vec<Task> = Vec::new();
        let mut i: usize = 0;
        while i < n
            invariant
                n == self.entries@.len(),
                0 <= i <= n,
                out@.len() == i,
                forall|j: int| 0 <= j < i ==> out@[j] == self.entries@[j].task,
            decreases n - i,
        {
            out.push(self.entries[i].task.snapshot());
            i = i + 1;
        }
        out
    }
}

} // verus!
