//! The task engine: orchestrates one run of a task — at-most-one run per
//! task, run and step logging, the reset decision, source resolution and
//! the final counter update. The blocking sends and destination writes
//! happen outside; their outcomes are handed back in, and every decision
//! taken on them is verified.

use crate::config::{assoc_get, assoc_find, Task};
use crate::calendar::TIMESTAMP_LIMIT;
use crate::messages::{spec_run_state, run_state, CompletionState, ExecuteTask};
use crate::strategy::Strategy;
use crate::text::str_eq;
use vstd::prelude::*;
use vstd::string::StringExecFns;

pub mod repository;
pub mod steps;

use repository::{
    is_completed_match, last_completed, reset_info, spec_source_super, HistoryStore, RowId,
    StepLogRow, lemma_last_completed_push_other,
};
use steps::{DatasetError, DatasetErrorKind, StepError};

verus! {

/// A running task's handle: the id of its `task_log` row, its name and
/// its start time, from which the run's snapshot label is derived.
pub struct RunToken {
    pub run_id: RowId,
    pub task_name: String,
    pub started_at: u64,
}

/// The engine. `tasks` is the surviving configuration, `store` the
/// history, `active_runners` the names with a run in flight.
pub struct TaskManager {
    pub tasks: Vec<(String, Task)>,
    pub store: HistoryStore,
    pub active_runners: Vec<String>,
}

/// The position of `k` in `names`, if present.
pub open spec fn find_name(names: Seq<String>, k: Seq<char>) -> Option<int>
    decreases names.len(),
{
    if names.len() == 0 {
        Option::None
    } else if names[0]@ == k {
        Option::Some(0)
    } else {
        match find_name(names.drop_first(), k) {
            Option::Some(i) => Option::Some(i + 1),
            Option::None => Option::None,
        }
    }
}

/// The reset decision for a task: a full strategy always resets; an
/// incremental one consults its triggers against the stored counter.
pub open spec fn spec_task_needs_reset(task: Task, last: Option<(i64, u64)>, now: u64) -> bool {
    match task.strategy {
        Strategy::Full(_) => true,
        Strategy::Incremental(stg) => stg.spec_needs_reset(last, now),
    }
}

impl TaskManager {
    /// The engine's invariant: its store is well-formed.
    pub open spec fn wf(self) -> bool {
        self.store.wf()
    }

    /// An engine over the given configuration and history. Tasks naming
    /// a destination that does not exist are dropped, as at load time.
    pub fn new(
        tasks: Vec<(String, Task)>,
        destinations: &Vec<(String, crate::destination::Destination)>,
        store: HistoryStore,
    ) -> (r: Self)
        requires
            store.wf(),
        ensures
            r.wf(),
            r.tasks@ == crate::config::surviving_tasks(tasks@, destinations@),
            r.store == store,
            r.active_runners@.len() == 0,
    {
        TaskManager {
            tasks: crate::config::load_tasks(tasks, destinations),
            store,
            active_runners: Vec::new(),
        }
    }

    /// The position of `name` in the active set, if a run is in flight.
    fn find_active(&self, name: &String) -> (r: Option<usize>)
        ensures
            match r {
                Option::Some(i) => i < self.active_runners@.len() && find_name(
                    self.active_runners@,
                    name@,
                ) == Option::Some(i as int),
                Option::None => find_name(self.active_runners@, name@) is None,
            },
    {
        let n = self.active_runners.len();
        let mut i: usize = 0;
        proof {
            assert(self.active_runners@.skip(0) =~= self.active_runners@);
        }
        while i < n
            invariant
                i <= n,
                n == self.active_runners@.len(),
                match find_name(self.active_runners@.skip(i as int), name@) {
                    Option::Some(k) => find_name(self.active_runners@, name@) == Option::Some(
                        k + i,
                    ),
                    Option::None => find_name(self.active_runners@, name@) is None,
                },
            decreases n - i,
        {
            proof {
                assert(self.active_runners@.skip(i as int)[0] == self.active_runners@[i as int]);
                assert(self.active_runners@.skip(i as int).drop_first() =~= self.active_runners@
                    .skip(i + 1));
            }
            if str_eq(self.active_runners[i].as_str(), name.as_str()) {
                return Option::Some(i);
            }
            i = i + 1;
        }
        proof {
            assert(self.active_runners@.skip(n as int) =~= Seq::<String>::empty());
        }
        Option::None
    }

    /// Whether a run of `name` is in flight.
    pub fn is_running(&self, name: &String) -> (r: bool)
        ensures
            r == (find_name(self.active_runners@, name@) is Some),
    {
        self.find_active(name).is_some()
    }

    /// Accept or reject an `ExecuteTask` request. A name with a run in
    /// flight is rejected with `AlreadyRunning` and nothing is written; an
    /// unknown name is rejected with `TaskNotFound` and nothing is
    /// written. Otherwise a `Pending` run row is recorded at `now`, the
    /// name becomes active, and the run's token is returned.
    pub fn handle_execute_task(&mut self, msg: &ExecuteTask, now: u64) -> (r: Result<
        RunToken,
        StepError,
    >)
        requires
            old(self).wf(),
            old(self).store.task_log@.len() < 0x7fff_ffff_ffff_ffff,
        ensures
            final (self).wf(),
            final (self).tasks == old(self).tasks,
            match r {
                Result::Err(StepError::AlreadyRunning(n)) => n@ == msg.0@ && *final (self) == *old(
                    self,
                ) && find_name(old(self).active_runners@, msg.0@) is Some,
                Result::Err(StepError::TaskNotFound(n)) => n@ == msg.0@ && *final (self) == *old(
                    self,
                ) && assoc_get(old(self).tasks@, msg.0@) is None,
                Result::Ok(token) => {
                    &&& find_name(old(self).active_runners@, msg.0@) is None
                    &&& assoc_get(old(self).tasks@, msg.0@) is Some
                    &&& token.run_id == old(self).store.task_log@.len() + 1
                    &&& token.task_name@ == msg.0@
                    &&& token.started_at == now
                    &&& final (self).store.task_log@ =~= old(self).store.task_log@.push(
                        final (self).store.task_log@.last(),
                    )
                    &&& ({
                        let row = final (self).store.task_log@.last();
                        &&& row.id == token.run_id
                        &&& row.task@ == msg.0@
                        &&& row.state == CompletionState::Pending
                        &&& row.started_at == now
                        &&& row.completed_at is None
                    })
                    &&& final (self).store.step_log == old(self).store.step_log
                    &&& final (self).store.reset_count == old(self).store.reset_count
                    &&& final (self).active_runners@ =~= old(self).active_runners@.push(
                        final (self).active_runners@.last(),
                    )
                    &&& final (self).active_runners@.last()@ == msg.0@
                },
                _ => false,
            },
    {
        let name = &msg.0;
        if self.is_running(name) {
            return Result::Err(StepError::AlreadyRunning(name.clone()));
        }
        if assoc_find(&self.tasks, name.as_str()).is_none() {
            return Result::Err(StepError::TaskNotFound(name.clone()));
        }
        let run_id = self.store.insert_task_log(name, now);
        self.active_runners.push(name.clone());
        Result::Ok(RunToken { run_id, task_name: name.clone(), started_at: now })
    }

    /// The run's reset decision: taken once, before any per-dataset
    /// work, from the stored counter and the task's strategy.
    pub fn check_needs_reset(&self, task: &Task, task_name: &String, now: u64) -> (r: bool)
        ensures
            r == spec_task_needs_reset(
                *task,
                reset_info(self.store.reset_count@, task_name@),
                now,
            ),
    {
        match &task.strategy {
            Strategy::Full(_) => true,
            Strategy::Incremental(stg) => {
                let current = self.store.get_count_and_date_of_last_reset(task_name);
                stg.check_if_needs_reset(current, now)
            },
        }
    }

    /// Run one dataset's step: record it `Pending`, then record the
    /// outcome the pipeline reported — `Completed` only when both the
    /// send and the destination write succeeded. Returns the dataset's
    /// error, if it had one.
    pub fn process_dataset(
        &mut self,
        run_id: RowId,
        task_name: &String,
        pool: &String,
        dataset: &String,
        snapshot: &String,
        source: Option<String>,
        outcome: Option<DatasetErrorKind>,
        started_ts: u64,
        completed_ts: u64,
    ) -> (r: Result<(), DatasetError>)
        requires
            old(self).wf(),
            old(self).store.step_log@.len() < 0x7fff_ffff_ffff_ffff - 1,
            1 <= run_id <= old(self).store.task_log@.len(),
            !old(self).store.spec_has_step(run_id, dataset@),
        ensures
            final (self).wf(),
            final (self).tasks == old(self).tasks,
            final (self).active_runners == old(self).active_runners,
            final (self).store.task_log == old(self).store.task_log,
            final (self).store.reset_count == old(self).store.reset_count,
            final (self).store.step_log@.len() == old(self).store.step_log@.len() + 1,
            final (self).store.step_log@ =~= old(self).store.step_log@.push(
                final (self).store.step_log@.last(),
            ),
            ({
                let row = final (self).store.step_log@.last();
                &&& row.id == old(self).store.step_log@.len() + 1
                &&& row.run_id == run_id
                &&& row.task@ == task_name@
                &&& row.pool@ == pool@
                &&& row.dataset@ == dataset@
                &&& row.snapshot@ == snapshot@
                &&& row.source == source
                &&& row.source_super == spec_source_super(
                    last_completed(old(self).store.step_log@, dataset@, pool@, task_name@),
                    source,
                )
                &&& row.started_at == started_ts
                &&& row.completed_at == Option::Some(completed_ts)
                &&& row.state == if outcome is None {
                    CompletionState::Completed
                } else {
                    CompletionState::Failed
                }
            }),
            match r {
                Result::Ok(()) => outcome is None,
                Result::Err(e) => outcome matches Option::Some(kind) && e.error == kind
                    && e.dataset == *dataset,
            },
    {
        let ghost pre_steps = self.store.step_log@;
        let step_id = self.store.insert_step_log(
            run_id,
            task_name,
            pool,
            dataset,
            snapshot,
            source,
            started_ts,
        );
        let ok = outcome.is_none();
        let state = if ok {
            CompletionState::Completed
        } else {
            CompletionState::Failed
        };
        self.store.update_step_log(step_id, state, completed_ts);
        proof {
            assert(self.store.step_log@ =~= pre_steps.push(self.store.step_log@.last()));
        }
        match outcome {
            Option::None => Result::Ok(()),
            Option::Some(kind) => Result::Err(DatasetError::new(dataset.clone(), kind)),
        }
    }

    /// Close a run: write its terminal state, advance the reset counter
    /// with the decision observed at decision time, and retire the run
    /// from the active set. Rows of other runs and counters of other
    /// tasks are untouched; in particular a run that already reached a
    /// terminal state is never rewritten.
    pub fn finish_run(
        &mut self,
        token: &RunToken,
        dataset_count: usize,
        error_count: usize,
        needs_reset: bool,
        completed_at: u64,
    ) -> (state: CompletionState)
        requires
            old(self).wf(),
            old(self).store.task_log@.len() < 0x7fff_ffff_ffff_ffff,
            1 <= token.run_id <= old(self).store.task_log@.len(),
            old(self).store.task_log@[token.run_id - 1].state == CompletionState::Pending,
            error_count <= dataset_count,
            !needs_reset ==> reset_info(old(self).store.reset_count@, token.task_name@) is Some,
            match reset_info(old(self).store.reset_count@, token.task_name@) {
                Option::Some(p) => p.0 < 0x7fff_ffff_ffff_ffff,
                Option::None => true,
            },
        ensures
            final (self).wf(),
            final (self).tasks == old(self).tasks,
            final (self).store.step_log == old(self).store.step_log,
            state == spec_run_state(dataset_count as nat, error_count as nat),
            final (self).store.task_log@ =~= old(self).store.task_log@.update(
                token.run_id - 1,
                (repository::TaskLogRow {
                    state,
                    completed_at: Option::Some(completed_at),
                    ..old(self).store.task_log@[token.run_id - 1]
                }),
            ),
            forall|i: int|
                0 <= i < old(self).store.task_log@.len() && (#[trigger] old(
                    self,
                ).store.task_log@[i]).state.spec_is_terminal() ==> final (self).store.task_log@[i]
                    == old(self).store.task_log@[i],
            ({
                let before = reset_info(old(self).store.reset_count@, token.task_name@);
                let after = reset_info(final (self).store.reset_count@, token.task_name@);
                if needs_reset {
                    after == Option::Some((0i64, completed_at))
                } else {
                    match before {
                        Option::Some(p) => after == Option::Some(((p.0 + 1) as i64, p.1)),
                        Option::None => false,
                    }
                }
            }),
            forall|k: Seq<char>|
                k != token.task_name@ ==> #[trigger] reset_info(final (self).store.reset_count@, k)
                    == reset_info(old(self).store.reset_count@, k),
            match find_name(old(self).active_runners@, token.task_name@) {
                Option::Some(i) => final (self).active_runners@ == old(self).active_runners@.remove(
                    i,
                ),
                Option::None => final (self).active_runners == old(self).active_runners,
            },
    {
        let state = run_state(dataset_count, error_count);
        self.store.update_task_log_state(token.run_id, state, completed_at);
        let reset_at = if needs_reset {
            Option::Some(completed_at)
        } else {
            Option::None
        };
        self.store.update_reset_counts(&token.task_name, reset_at);
        self.remove_active(&token.task_name);
        state
    }

    fn remove_active(&mut self, name: &String)
        ensures
            final (self).tasks == old(self).tasks,
            final (self).store == old(self).store,
            match find_name(old(self).active_runners@, name@) {
                Option::Some(i) => final (self).active_runners@ == old(self).active_runners@.remove(
                    i,
                ),
                Option::None => final (self).active_runners == old(self).active_runners,
            },
    {
        match self.find_active(name) {
            Option::Some(i) => {
                self.active_runners.remove(i);
            },
            Option::None => {},
        }
    }
}

/// The failures of a run, in dataset order: one `DatasetError` for each
/// dataset whose pipeline reported an error.
pub open spec fn collect_errors(
    datasets: Seq<String>,
    outcomes: Seq<Option<DatasetErrorKind>>,
) -> Seq<DatasetError>
    decreases outcomes.len(),
{
    if outcomes.len() == 0 || datasets.len() != outcomes.len() {
        Seq::empty()
    } else {
        let rest = collect_errors(datasets.drop_last(), outcomes.drop_last());
        match outcomes.last() {
            Option::Some(kind) => rest.push(
                (DatasetError { dataset: datasets.last(), error: kind }),
            ),
            Option::None => rest,
        }
    }
}

impl TaskManager {
    /// One run of `msg`'s task, end to end: the at-most-one check, the
    /// run log, the reset decision, per-dataset source resolution and
    /// step logging, outcome aggregation, and the final counter update.
    /// `datasets` is what discovery matched, `snapshot_error` what
    /// snapshot creation reported, and `outcomes` what each dataset's
    /// pipeline reported; the blocking work behind those happens outside
    /// the engine.
    pub fn run_task(
        &mut self,
        msg: &ExecuteTask,
        now: u64,
        completed_at: u64,
        datasets: &Vec<String>,
        snapshot_error: Option<String>,
        outcomes: Vec<Option<DatasetErrorKind>>,
    ) -> (r: Result<(), StepError>)
        requires
            old(self).wf(),
            now < TIMESTAMP_LIMIT,
            old(self).store.task_log@.len() < 0x7fff_ffff_ffff_ffff - 1,
            old(self).store.step_log@.len() + datasets@.len() < 0x7fff_ffff_ffff_ffff - 1,
            outcomes@.len() == datasets@.len(),
            forall|i: int, j: int|
                0 <= i < j < datasets@.len() ==> (#[trigger] datasets@[i])@ != (
                #[trigger] datasets@[j])@,
            match reset_info(old(self).store.reset_count@, msg.0@) {
                Option::Some(p) => p.0 < 0x7fff_ffff_ffff_ffff,
                Option::None => true,
            },
        ensures
            final (self).wf(),
            final (self).tasks == old(self).tasks,
            final (self).active_runners == old(self).active_runners,
            match r {
                Result::Err(StepError::AlreadyRunning(n)) => n@ == msg.0@ && *final (self) == *old(
                    self,
                ) && find_name(old(self).active_runners@, msg.0@) is Some,
                Result::Err(StepError::TaskNotFound(n)) => n@ == msg.0@ && *final (self) == *old(
                    self,
                ) && assoc_get(old(self).tasks@, msg.0@) is None,
                Result::Err(StepError::ZfsError(m)) => {
                    &&& snapshot_error == Option::Some(m)
                    &&& find_name(old(self).active_runners@, msg.0@) is None
                    &&& assoc_get(old(self).tasks@, msg.0@) is Some
                    &&& run_row_written(
                        old(self).store.task_log@,
                        final (self).store.task_log@,
                        msg.0@,
                        now,
                        completed_at,
                        CompletionState::Failed,
                    )
                    &&& final (self).store.step_log == old(self).store.step_log
                    &&& final (self).store.reset_count == old(self).store.reset_count
                },
                Result::Ok(()) => snapshot_error is None && collect_errors(
                    datasets@,
                    outcomes@,
                ).len() == 0 && final (self).normal_run_post(*old(self), *msg, now, completed_at, datasets@, outcomes@),
                Result::Err(StepError::PartialErrors(errs)) => {
                    &&& snapshot_error is None
                    &&& errs@ == collect_errors(datasets@, outcomes@)
                    &&& errs@.len() > 0
                    &&& final (self).normal_run_post(*old(self), *msg, now, completed_at, datasets@, outcomes@)
                },
                _ => false,
            },
    {
        let name = &msg.0;
        if self.is_running(name) {
            return Result::Err(StepError::AlreadyRunning(name.clone()));
        }
        let looked_up = assoc_find(&self.tasks, name.as_str());
        let (pool, needs_reset) = match looked_up {
            Option::None => {
                return Result::Err(StepError::TaskNotFound(name.clone()));
            },
            Option::Some(task) => {
                let zf = task.strategy.get_zpool_and_filter();
                let nr = self.check_needs_reset(task, name, now);
                (zf.0, nr)
            },
        };
        let ghost pre = *self;
        let run_id = self.store.insert_task_log(name, now);
        match snapshot_error {
            Option::Some(m) => {
                self.store.update_task_log_state(
                    run_id,
                    CompletionState::Failed,
                    completed_at,
                );
                proof {
                    assert(self.store.task_log@ =~= pre.store.task_log@.push(
                        self.store.task_log@.last(),
                    ));
                }
                return Result::Err(StepError::ZfsError(m));
            },
            Option::None => {},
        }
        let label = steps::get_snapshot_name(now);
        let mut sources = self.store.get_sources(&pool, datasets, name);
        let ghost steps0 = self.store.step_log@;
        let ghost src0 = sources@;
        let ghost out0 = outcomes@;
        let mut outcomes = outcomes;
        let mut errors: Vec<DatasetError> = Vec::new();
        let n = datasets.len();
        let mut k: usize = 0;
        proof {
            assert(collect_errors(datasets@.take(0), out0.take(0)) =~= Seq::<DatasetError>::empty());
            assert(out0.skip(0) =~= out0);
            assert(src0.skip(0) =~= src0);
        }
        while k < n
            invariant
                k <= n,
                n == datasets@.len(),
                n == out0.len(),
                n == src0.len(),
                now < TIMESTAMP_LIMIT,
                forall|i: int, j: int|
                    0 <= i < j < datasets@.len() ==> (#[trigger] datasets@[i])@ != (
                    #[trigger] datasets@[j])@,
                outcomes@ == out0.skip(k as int),
                needs_reset || sources@ == src0.skip(k as int),
                forall|i: int|
                    0 <= i < n ==> match last_completed(
                        steps0,
                        (#[trigger] datasets@[i])@,
                        pool@,
                        msg.0@,
                    ) {
                        Option::Some(prev) => src0[i] matches Option::Some(sname)
                            && sname@ == crate::zfs_manager::snapshot_name_seq(
                            datasets@[i]@,
                            prev.snapshot@,
                        ),
                        Option::None => src0[i] is None,
                    },
                self.wf(),
                self.tasks == pre.tasks,
                self.active_runners == pre.active_runners,
                self.store.task_log@.len() == pre.store.task_log@.len() + 1,
                self.store.task_log@ =~= pre.store.task_log@.push(self.store.task_log@.last()),
                ({
                    let row = self.store.task_log@.last();
                    &&& row.id == run_id
                    &&& row.task@ == msg.0@
                    &&& row.state == CompletionState::Pending
                    &&& row.started_at == now
                    &&& row.completed_at is None
                }),
                run_id == pre.store.task_log@.len() + 1,
                self.store.reset_count == pre.store.reset_count,
                steps0 == pre.store.step_log@,
                steps0.len() + n < 0x7fff_ffff_ffff_ffff - 1,
                label@ == steps::snapshot_label_seq(now as int),
                self.store.step_log@.len() == steps0.len() + k,
                forall|i: int| 0 <= i < steps0.len() ==> self.store.step_log@[i] == steps0[i],
                forall|j: int|
                    k <= j < n ==> last_completed(
                        self.store.step_log@,
                        (#[trigger] datasets@[j])@,
                        pool@,
                        msg.0@,
                    ) == last_completed(steps0, datasets@[j]@, pool@, msg.0@),
                forall|j: int|
                    k <= j < n ==> !self.store.spec_has_step(run_id, (#[trigger] datasets@[j])@),
                forall|j: int|
                    0 <= j < k ==> step_row_ok(
                        #[trigger] self.store.step_log@[steps0.len() + j],
                        steps0,
                        run_id as int,
                        msg.0@,
                        pool@,
                        datasets@[j],
                        label@,
                        needs_reset,
                        out0[j],
                        now,
                        completed_at,
                    ),
                errors@ == collect_errors(datasets@.take(k as int), out0.take(k as int)),
                errors@.len() <= k,
            decreases n - k,
        {
            let outcome = outcomes.remove(0);
            proof {
                assert(out0.skip(k as int)[0] == out0[k as int]);
                assert(out0.skip(k as int).drop_first() =~= out0.skip(k + 1));
                assert(out0.skip(k as int).remove(0) =~= out0.skip(k as int).drop_first());
            }
            let source: Option<String> = if needs_reset {
                Option::None
            } else {
                proof {
                    assert(src0.skip(k as int)[0] == src0[k as int]);
                    assert(src0.skip(k as int).drop_first() =~= src0.skip(k + 1));
                    assert(src0.skip(k as int).remove(0) =~= src0.skip(k as int).drop_first());
                }
                sources.remove(0)
            };
            let ghost steps_before = self.store.step_log@;
            let res = self.process_dataset(
                run_id,
                &msg.0,
                &pool,
                &datasets[k],
                &label,
                source,
                outcome,
                now,
                completed_at,
            );
            proof {
                let newrow = self.store.step_log@.last();
                assert(newrow.dataset@ == datasets@[k as int]@);
                assert forall|j: int| k + 1 <= j < n implies last_completed(
                    self.store.step_log@,
                    (#[trigger] datasets@[j])@,
                    pool@,
                    msg.0@,
                ) == last_completed(steps0, datasets@[j]@, pool@, msg.0@) by {
                    assert(datasets@[k as int]@ != datasets@[j]@);
                    lemma_last_completed_push_other(
                        steps_before,
                        newrow,
                        datasets@[j]@,
                        pool@,
                        msg.0@,
                    );
                }
                assert forall|j: int| k + 1 <= j < n implies !self.store.spec_has_step(
                    run_id,
                    (#[trigger] datasets@[j])@,
                ) by {
                    assert(datasets@[k as int]@ != datasets@[j]@);
                    assert forall|i: int|
                        0 <= i < self.store.step_log@.len() && (#[trigger] self.store.step_log@[i])
                            .run_id == run_id implies self.store.step_log@[i].dataset@
                        != datasets@[j]@ by {
                        if i < steps_before.len() {
                        } else {
                            assert(self.store.step_log@[i] == newrow);
                        }
                    }
                }
            }
            proof {
                assert(step_row_ok(
                    self.store.step_log@[steps0.len() + k],
                    steps0,
                    run_id as int,
                    msg.0@,
                    pool@,
                    datasets@[k as int],
                    label@,
                    needs_reset,
                    out0[k as int],
                    now,
                    completed_at,
                ));
            }
            let ghost old_errors = errors@;
            match res {
                Result::Ok(()) => {},
                Result::Err(e) => {
                    errors.push(e);
                },
            }
            proof {
                assert(datasets@.take(k + 1).drop_last() =~= datasets@.take(k as int));
                assert(out0.take(k + 1).drop_last() =~= out0.take(k as int));
                assert(datasets@.take(k + 1).last() == datasets@[k as int]);
                assert(out0.take(k + 1).last() == out0[k as int]);
                assert(errors@ =~= collect_errors(datasets@.take(k + 1), out0.take(k + 1)));
            }
            k = k + 1;
        }
        proof {
            assert(datasets@.take(n as int) =~= datasets@);
            assert(out0.take(n as int) =~= out0);
        }
        let token = RunToken { run_id, task_name: name.clone(), started_at: now };
        self.finish_run(&token, n, errors.len(), needs_reset, completed_at);
        proof {
            assert(self.store.task_log@ =~= pre.store.task_log@.push(
                self.store.task_log@.last(),
            ));
        }
        if errors.len() == 0 {
            Result::Ok(())
        } else {
            Result::Err(StepError::PartialErrors(errors))
        }
    }

    /// What a completed (not pre-empted) run leaves behind: one new run
    /// row in its terminal state, one step row per dataset under the
    /// run's label with sources resolved against the history before
    /// the run, and the reset counter advanced by the decision taken.
    pub open spec fn normal_run_post(
        self,
        pre: TaskManager,
        msg: ExecuteTask,
        now: u64,
        completed_at: u64,
        datasets: Seq<String>,
        outcomes: Seq<Option<DatasetErrorKind>>,
    ) -> bool {
        let err_count = collect_errors(datasets, outcomes).len();
        &&& find_name(pre.active_runners@, msg.0@) is None
        &&& assoc_get(pre.tasks@, msg.0@) matches Option::Some(task) && {
            let needs_reset = spec_task_needs_reset(
                task,
                reset_info(pre.store.reset_count@, msg.0@),
                now,
            );
            let pool = task.strategy.spec_zpool();
            &&& run_row_written(
                pre.store.task_log@,
                self.store.task_log@,
                msg.0@,
                now,
                completed_at,
                spec_run_state(datasets.len(), err_count as nat),
            )
            &&& self.store.step_log@.len() == pre.store.step_log@.len() + datasets.len()
            &&& forall|i: int|
                0 <= i < pre.store.step_log@.len() ==> self.store.step_log@[i]
                    == pre.store.step_log@[i]
            &&& forall|j: int|
                0 <= j < datasets.len() ==> step_row_ok(
                    #[trigger] self.store.step_log@[pre.store.step_log@.len() + j],
                    pre.store.step_log@,
                    pre.store.task_log@.len() + 1int,
                    msg.0@,
                    pool,
                    datasets[j],
                    steps::snapshot_label_seq(now as int),
                    needs_reset,
                    outcomes[j],
                    now,
                    completed_at,
                )
            &&& ({
                let before = reset_info(pre.store.reset_count@, msg.0@);
                let after = reset_info(self.store.reset_count@, msg.0@);
                if needs_reset {
                    after == Option::Some((0i64, completed_at))
                } else {
                    match before {
                        Option::Some(p) => after == Option::Some(((p.0 + 1) as i64, p.1)),
                        Option::None => false,
                    }
                }
            })
            &&& forall|key: Seq<char>|
                key != msg.0@ ==> #[trigger] reset_info(self.store.reset_count@, key)
                    == reset_info(pre.store.reset_count@, key)
        }
    }
}

/// A new run row for `task` was appended, started at `now` and completed
/// at `completed_at` in state `state`; every earlier row is untouched.
pub open spec fn run_row_written(
    pre: Seq<repository::TaskLogRow>,
    post: Seq<repository::TaskLogRow>,
    task: Seq<char>,
    now: u64,
    completed_at: u64,
    state: CompletionState,
) -> bool {
    &&& post.len() == pre.len() + 1
    &&& forall|i: int| 0 <= i < pre.len() ==> post[i] == pre[i]
    &&& ({
        let row = post.last();
        &&& row.id == pre.len() + 1
        &&& row.task@ == task
        &&& row.state == state
        &&& row.started_at == now
        &&& row.completed_at == Option::Some(completed_at)
    })
}

/// One dataset's step row as the run records it: keyed by the run,
/// under the run's label, its source resolved against `steps0` (the
/// step history before the run) unless the run resets the chain, its
/// anchor carried forward, and its terminal state matching the
/// pipeline's outcome.
pub open spec fn step_row_ok(
    row: StepLogRow,
    steps0: Seq<StepLogRow>,
    run_id: int,
    task: Seq<char>,
    pool: Seq<char>,
    dataset: String,
    label: Seq<char>,
    needs_reset: bool,
    outcome: Option<DatasetErrorKind>,
    now: u64,
    completed_at: u64,
) -> bool {
    &&& row.run_id == run_id
    &&& row.task@ == task
    &&& row.pool@ == pool
    &&& row.dataset@ == dataset@
    &&& row.snapshot@ == label
    &&& row.started_at == now
    &&& row.completed_at == Option::Some(completed_at)
    &&& row.state == if outcome is None {
        CompletionState::Completed
    } else {
        CompletionState::Failed
    }
    &&& ({
        let prev = last_completed(steps0, dataset@, pool, task);
        &&& if needs_reset {
            row.source is None
        } else {
            match prev {
                Option::Some(p) => row.source matches Option::Some(s) && s@
                    == crate::zfs_manager::snapshot_name_seq(dataset@, p.snapshot@),
                Option::None => row.source is None,
            }
        }
        &&& row.source_super == spec_source_super(prev, row.source)
    })
}

/// The reset counter a task shows after `n` further runs, none of which
/// triggered a reset. Each such run maps `(count, reset_at)` to
/// `(count + 1, reset_at)`, as `update_reset_counts` without a reset
/// does.
pub open spec fn counter_after_runs(p: (int, u64), n: nat) -> (int, u64)
    decreases n,
{
    if n == 0 {
        p
    } else {
        counter_after_runs(((p.0 + 1, p.1)), (n - 1) as nat)
    }
}

/// After `n` consecutive runs with no reset trigger the count has grown
/// by exactly `n` and the reset time has not moved.
pub proof fn lemma_counter_after_runs(p: (int, u64), n: nat)
    ensures
        counter_after_runs(p, n) == ((p.0 + n, p.1)),
    decreases n,
{
    if n == 0 {
    } else {
        lemma_counter_after_runs(((p.0 + 1, p.1)), (n - 1) as nat);
    }
}

/// In a well-formed store each run holds at most one step row per
/// dataset.
pub proof fn lemma_one_step_per_run_and_dataset(
    store: HistoryStore,
    i: int,
    j: int,
)
    requires
        store.wf(),
        0 <= i < store.step_log@.len(),
        0 <= j < store.step_log@.len(),
        i != j,
        store.step_log@[i].run_id == store.step_log@[j].run_id,
    ensures
        store.step_log@[i].dataset@ != store.step_log@[j].dataset@,
{
}

/// Each completed incremental step of a run chains to an earlier
/// completed step of the same `(dataset, pool, task)`: its source is
/// that step's snapshot of the dataset, and its anchor is that step's
/// anchor, or the source itself where the earlier step began the chain.
pub proof fn lemma_incremental_chain(
    pre: TaskManager,
    post: TaskManager,
    msg: ExecuteTask,
    now: u64,
    completed_at: u64,
    datasets: Seq<String>,
    outcomes: Seq<Option<DatasetErrorKind>>,
    j: int,
)
    requires
        post.normal_run_post(pre, msg, now, completed_at, datasets, outcomes),
        0 <= j < datasets.len(),
        post.store.step_log@[pre.store.step_log@.len() + j].source is Some,
    ensures
        ({
            let row = post.store.step_log@[pre.store.step_log@.len() + j];
            exists|i: int|
                {
                    &&& 0 <= i < pre.store.step_log@.len()
                    &&& is_completed_match(
                        #[trigger] post.store.step_log@[i],
                        row.dataset@,
                        row.pool@,
                        row.task@,
                    )
                    &&& row.source matches Option::Some(s) && s@
                        == crate::zfs_manager::snapshot_name_seq(
                        row.dataset@,
                        post.store.step_log@[i].snapshot@,
                    )
                    &&& row.source_super == (match post.store.step_log@[i].source_super {
                        Option::Some(anchor) => Option::Some(anchor),
                        Option::None => row.source,
                    })
                }
        }),
{
    let task = assoc_get(pre.tasks@, msg.0@)->Some_0;
    let pool = task.strategy.spec_zpool();
    let row = post.store.step_log@[pre.store.step_log@.len() + j];
    let prev = last_completed(pre.store.step_log@, datasets[j]@, pool, msg.0@);
    crate::task_manager::repository::lemma_last_completed_exists(
        pre.store.step_log@,
        datasets[j]@,
        pool,
        msg.0@,
    );
    let i = choose|i: int|
        0 <= i < pre.store.step_log@.len() && pre.store.step_log@[i] == prev->Some_0
            && is_completed_match(prev->Some_0, datasets[j]@, pool, msg.0@);
    assert(post.store.step_log@[i] == pre.store.step_log@[i]);
    assert(is_completed_match(post.store.step_log@[i], row.dataset@, row.pool@, row.task@));
}

/// A run that already reached a terminal state keeps it: no later run of
/// the engine rewrites it.
pub proof fn lemma_terminal_state_stable(
    pre: TaskManager,
    post: TaskManager,
    msg: ExecuteTask,
    now: u64,
    completed_at: u64,
    datasets: Seq<String>,
    outcomes: Seq<Option<DatasetErrorKind>>,
    i: int,
)
    requires
        post.normal_run_post(pre, msg, now, completed_at, datasets, outcomes),
        0 <= i < pre.store.task_log@.len(),
        pre.store.task_log@[i].state.spec_is_terminal(),
    ensures
        post.store.task_log@[i] == pre.store.task_log@[i],
{
}

/// Every step of one run is recorded under the label derived once from
/// the run's start time.
pub proof fn lemma_run_label_shared(
    pre: TaskManager,
    post: TaskManager,
    msg: ExecuteTask,
    now: u64,
    completed_at: u64,
    datasets: Seq<String>,
    outcomes: Seq<Option<DatasetErrorKind>>,
    j: int,
)
    requires
        post.normal_run_post(pre, msg, now, completed_at, datasets, outcomes),
        0 <= j < datasets.len(),
    ensures
        post.store.step_log@[pre.store.step_log@.len() + j].snapshot@ == steps::snapshot_label_seq(
            now as int,
        ),
{
}

} // verus!
