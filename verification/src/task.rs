//! Task data model: identity, schedule, lifecycle state and run history.

use vstd::prelude::*;

verus! {

/// Identifier of a registered task; positive once assigned.
pub type TaskID = u64;

/// Seconds since the Unix epoch.
pub type Timestamp = i64;

/// Lifecycle state of a task.
#[derive(Debug, Clone, Copy, PartialEq, Eq, Structural)]
pub enum TaskState {
    /// Terminal: the task fires no more but stays in the registry.
    Cancelled,
    /// Eligible to fire at its next scheduled occurrence.
    Idle,
    /// An execution is in flight.
    Running,
}

/// Outcome of the most recently completed execution.
#[derive(Debug, Clone)]
pub enum TaskRunResult {
    /// The job reported success.
    Completed,
    /// The job reported failure, with its message.
    Failed(String),
}

/// When a task fires. Durations are whole seconds.
#[derive(Debug, Clone)]
pub enum TaskSchedule {
    /// Fires exactly once, the given number of seconds after registration.
    Once(u64),
    /// Fires repeatedly, every given number of seconds, starting that many
    /// seconds after registration.
    Interval(u64),
    /// Fires at every timestamp matching the cron expression.
    Cron(String),
}

/// The unit of work bound to a task. The handle is resolved by the host
/// application to the actual callable; the engine itself only decides when
/// a firing starts and records its reported outcome.
#[derive(Debug, Clone, Copy, PartialEq, Eq, Structural)]
pub enum TaskExecutor {
    /// A synchronous job, run on a worker thread of the host.
    Sync(u64),
    /// An asynchronous job, run on the host's cooperative runtime.
    Async(u64),
}

/// The registry record of one task.
#[derive(Debug)]
pub struct Task {
    pub id: TaskID,
    pub name: String,
    pub schedule: TaskSchedule,
    pub state: TaskState,
    pub last_run: Option<(Timestamp, TaskRunResult)>,
    pub next_run: Option<Timestamp>,
    pub executor: TaskExecutor,
    pub created_at: Timestamp,
}

impl Default for Task {
    /// An unregistered placeholder: `add_task` fills in `id` and
    /// `created_at` when they are left at zero.
    fn default() -> (r: Self)
        ensures
            r.id == 0,
            r.name@ == Seq::<char>::empty(),
            r.schedule == TaskSchedule::Once(0),
            r.state == TaskState::Idle,
            r.last_run is None,
            r.next_run is None,
            r.executor == TaskExecutor::Sync(0),
            r.created_at == 0,
    {
        Task {
            id: 0,
            name: String::new(),
            schedule: TaskSchedule::Once(0),
            state: TaskState::Idle,
            last_run: None,
            next_run: None,
            executor: TaskExecutor::Sync(0),
            created_at: 0,
        }
    }
}

/// The only lifecycle transitions a task may take: `Idle -> Running` when a
/// firing starts, `Running -> Idle` when it completes, and either of those
/// into the terminal `Cancelled`.
pub open spec fn edge_ok(pre: TaskState, post: TaskState) -> bool {
    ||| pre == post
    ||| (pre == TaskState::Idle && post == TaskState::Running)
    ||| (pre == TaskState::Running && post == TaskState::Idle)
    ||| (pre != TaskState::Cancelled && post == TaskState::Cancelled)
}

impl TaskRunResult {
    /// An equal copy (the derived clone of a `String`-carrying enum says
    /// nothing to the verifier, so the copy is built by hand).
    pub fn duplicate(&self) -> (r: Self)
        ensures
            r == *self,
    {
        match self {
            TaskRunResult::Completed => TaskRunResult::Completed,
            TaskRunResult::Failed(m) => TaskRunResult::Failed(m.clone()),
        }
    }
}

impl TaskSchedule {
    /// An equal copy.
    pub fn duplicate(&self) -> (r: Self)
        ensures
            r == *self,
    {
        match self {
            TaskSchedule::Once(d) => TaskSchedule::Once(*d),
            TaskSchedule::Interval(d) => TaskSchedule::Interval(*d),
            TaskSchedule::Cron(e) => TaskSchedule::Cron(e.clone()),
        }
    }
}

impl Task {
    /// An equal copy: the snapshot handed out by `get` and `list`.
    pub fn snapshot(&self) -> (r: Self)
        ensures
            r == *self,
    {
        Task {
            id: self.id,
            name: self.name.clone(),
            schedule: self.schedule.duplicate(),
            state: self.state,
            last_run: match &self.last_run {
                None => None,
                Some((t, res)) => Some((*t, res.duplicate())),
            },
            next_run: self.next_run,
            executor: self.executor,
            created_at: self.created_at,
        }
    }
}

} // verus!
