//! Request payloads and the completion-state machine shared by the task
//! engine and the history store.

use crate::config::Task;
use vstd::prelude::*;

verus! {

/// Row id in a log table.
pub type RowId = i64;

/// Control signals the lifecycle supervisor reacts to.
pub enum Signals {
    SIGINT,
}

/// A payload stamped with the event's time (seconds since the epoch).
pub struct TimestampedMessage<T> {
    pub timestamp: u64,
    pub payload: T,
}

/// Task-level log events.
pub enum TaskLog {
    /// A run of the named task started.
    Started(String),
    /// The run reached its terminal state.
    Completed(RowId, CompletionState),
}

impl TimestampedMessage<TaskLog> {
    /// A run-started event.
    pub fn started(name: String, timestamp: u64) -> (r: Self)
        ensures
            r.timestamp == timestamp,
            r.payload == TaskLog::Started(name),
    {
        TimestampedMessage { timestamp, payload: TaskLog::Started(name) }
    }

    /// A run-finished event.
    pub fn completed(row_id: RowId, state: CompletionState, timestamp: u64) -> (r: Self)
        ensures
            r.timestamp == timestamp,
            r.payload == TaskLog::Completed(row_id, state),
    {
        TimestampedMessage { timestamp, payload: TaskLog::Completed(row_id, state) }
    }
}

/// Step-level log events.
pub enum StepLog {
    /// One dataset's step started under the run's snapshot label.
    Started {
        run_id: RowId,
        task: String,
        pool: String,
        dataset: String,
        snapshot: String,
        source: Option<String>,
    },
    /// The step reached its terminal state.
    Completed { row_id: RowId, state: CompletionState },
}

impl TimestampedMessage<StepLog> {
    /// A step-started event.
    pub fn started(
        run_id: RowId,
        task: String,
        pool: String,
        dataset: String,
        snapshot: String,
        source: Option<String>,
        timestamp: u64,
    ) -> (r: Self)
        ensures
            r.timestamp == timestamp,
            r.payload == (StepLog::Started { run_id, task, pool, dataset, snapshot, source }),
    {
        TimestampedMessage {
            timestamp,
            payload: StepLog::Started { run_id, task, pool, dataset, snapshot, source },
        }
    }

    /// A step-finished event.
    pub fn completed(row_id: RowId, state: CompletionState, timestamp: u64) -> (r: Self)
        ensures
            r.timestamp == timestamp,
            r.payload == (StepLog::Completed { row_id, state }),
    {
        TimestampedMessage { timestamp, payload: StepLog::Completed { row_id, state } }
    }
}

/// Request: decide whether the named task's next run must re-baseline.
pub struct NeedsReset {
    pub task_name: String,
    pub task: Task,
}

impl NeedsReset {
    pub fn new(task_name: String, task: Task) -> (r: Self)
        ensures
            r.task_name == task_name,
            r.task == task,
    {
        NeedsReset { task_name, task }
    }
}

/// Request: the incremental sources of the named task's datasets.
pub struct GetSources {
    pub task_name: String,
    pub task: Task,
    pub datasets: Vec<String>,
}

impl GetSources {
    pub fn new(task_name: String, task: Task, datasets: Vec<String>) -> (r: Self)
        ensures
            r.task_name == task_name,
            r.task == task,
            r.datasets == datasets,
    {
        GetSources { task_name, task, datasets }
    }
}

/// Request: advance the named task's reset counter; `reset` carries the
/// decision observed when the run was planned.
pub struct UpdateResetCounts {
    pub task: String,
    pub reset: bool,
}

impl TimestampedMessage<UpdateResetCounts> {
    pub fn new(task: String, reset: bool, timestamp: u64) -> (r: Self)
        ensures
            r.timestamp == timestamp,
            r.payload == (UpdateResetCounts { task, reset }),
    {
        TimestampedMessage { timestamp, payload: UpdateResetCounts { task, reset } }
    }
}

/// State of a task run or of a single dataset step. A run starts `Pending`
/// and is written exactly once with one of the three terminal states.
#[derive(Clone, Copy, Debug, PartialEq, Eq, Structural)]
pub enum CompletionState {
    Pending,
    Completed,
    CompletedWithErrors,
    Failed,
}

impl CompletionState {
    /// Whether this state is terminal: once a run or step reaches a
    /// terminal state it is never rewritten.
    pub open spec fn spec_is_terminal(self) -> bool {
        self != CompletionState::Pending
    }

    #[verifier::when_used_as_spec(spec_is_terminal)]
    pub fn is_terminal(self) -> (r: bool)
        ensures
            r == self.spec_is_terminal(),
    {
        match self {
            CompletionState::Pending => false,
            _ => true,
        }
    }
}

/// Request: run the named task once, end to end.
pub struct ExecuteTask(pub String);

/// Request: list the datasets of `zpool` whose full path matches the
/// regular expression `filter`.
pub struct GetDatasetsForTask {
    pub zpool: String,
    pub filter: String,
}

impl GetDatasetsForTask {
    pub fn new(zpool: String, filter: String) -> (r: Self)
        ensures
            r.zpool == zpool,
            r.filter == filter,
    {
        GetDatasetsForTask { zpool, filter }
    }
}

/// Request: create `dataset@snapshot` for every listed dataset, skipping
/// the ones that already exist.
pub struct MakeSnapshots {
    pub datasets: Vec<String>,
    pub snapshot: String,
}

impl MakeSnapshots {
    pub fn new(datasets: Vec<String>, snapshot: String) -> (r: Self)
        ensures
            r.datasets == datasets,
            r.snapshot == snapshot,
    {
        MakeSnapshots { datasets, snapshot }
    }
}

/// The terminal state of a run over `dataset_count` datasets of which
/// `error_count` failed: `Completed` when none failed (in particular when
/// there was no dataset at all), `CompletedWithErrors` when strictly fewer
/// than all failed, and `Failed` when every dataset failed.
pub open spec fn spec_run_state(dataset_count: nat, error_count: nat) -> CompletionState {
    if error_count == 0 {
        CompletionState::Completed
    } else if error_count < dataset_count {
        CompletionState::CompletedWithErrors
    } else {
        CompletionState::Failed
    }
}

/// Fold the per-dataset outcomes of one run into the run's terminal state.
pub fn run_state(dataset_count: usize, error_count: usize) -> (r: CompletionState)
    requires
        error_count <= dataset_count,
    ensures
        r == spec_run_state(dataset_count as nat, error_count as nat),
        r.is_terminal(),
{
    if error_count == 0 {
        CompletionState::Completed
    } else if error_count < dataset_count {
        CompletionState::CompletedWithErrors
    } else {
        CompletionState::Failed
    }
}

} // verus!
