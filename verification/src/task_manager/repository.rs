//! The history store: task runs, per-dataset step logs and reset
//! counters. This is the typed model of the durable store — a single
//! writer appends and updates rows here, and persistence replays the
//! same operations outside the library.

use crate::messages::CompletionState;
use crate::text::str_eq;
use crate::zfs_manager::snapshot_name_seq;
use vstd::prelude::*;

verus! {

/// Row id in a log table; ids start at one and follow insertion order.
pub type RowId = i64;

/// One task run.
pub struct TaskLogRow {
    pub id: RowId,
    pub task: String,
    pub state: CompletionState,
    pub started_at: u64,
    pub completed_at: Option<u64>,
}

/// One dataset's step within a run. `source` is the snapshot the
/// incremental stream starts from; `source_super` is the anchor of the
/// incremental chain.
pub struct StepLogRow {
    pub id: RowId,
    pub run_id: RowId,
    pub state: CompletionState,
    pub task: String,
    pub pool: String,
    pub dataset: String,
    pub snapshot: String,
    pub source: Option<String>,
    pub source_super: Option<String>,
    pub started_at: u64,
    pub completed_at: Option<u64>,
}

/// The reset counter of one task: runs since the last reset, and when
/// that reset was.
pub struct ResetCountRow {
    pub task: String,
    pub count: i64,
    pub reset_at: u64,
}

/// The store: three tables.
pub struct HistoryStore {
    pub task_log: Vec<TaskLogRow>,
    pub step_log: Vec<StepLogRow>,
    pub reset_count: Vec<ResetCountRow>,
}

/// Whether `row` is a completed step of `(dataset, pool, task)`.
pub open spec fn is_completed_match(
    row: StepLogRow,
    dataset: Seq<char>,
    pool: Seq<char>,
    task: Seq<char>,
) -> bool {
    &&& row.state == CompletionState::Completed
    &&& row.dataset@ == dataset
    &&& row.pool@ == pool
    &&& row.task@ == task
}

/// A step's completion time for ordering; unfinished steps sort first.
pub open spec fn completion_ts(row: StepLogRow) -> int {
    match row.completed_at {
        Option::Some(t) => t as int,
        Option::None => -1,
    }
}

/// The most recently completed step of `(dataset, pool, task)`: the
/// matching row with the greatest completion time, later rows winning
/// ties.
pub open spec fn last_completed(
    rows: Seq<StepLogRow>,
    dataset: Seq<char>,
    pool: Seq<char>,
    task: Seq<char>,
) -> Option<StepLogRow>
    decreases rows.len(),
{
    if rows.len() == 0 {
        Option::None
    } else {
        let prev = last_completed(rows.drop_last(), dataset, pool, task);
        let cand = rows.last();
        if is_completed_match(cand, dataset, pool, task) {
            match prev {
                Option::None => Option::Some(cand),
                Option::Some(p) => if completion_ts(cand) >= completion_ts(p) {
                    Option::Some(cand)
                } else {
                    Option::Some(p)
                },
            }
        } else {
            prev
        }
    }
}

/// The position of `task`'s reset counter, if it has one.
pub open spec fn find_reset(rows: Seq<ResetCountRow>, task: Seq<char>) -> Option<int>
    decreases rows.len(),
{
    if rows.len() == 0 {
        Option::None
    } else if rows[0].task@ == task {
        Option::Some(0)
    } else {
        match find_reset(rows.drop_first(), task) {
            Option::Some(i) => Option::Some(i + 1),
            Option::None => Option::None,
        }
    }
}

/// `task`'s reset counter: runs since the last reset and its timestamp.
pub open spec fn reset_info(rows: Seq<ResetCountRow>, task: Seq<char>) -> Option<(i64, u64)> {
    match find_reset(rows, task) {
        Option::Some(i) => Option::Some((rows[i].count, rows[i].reset_at)),
        Option::None => Option::None,
    }
}

impl HistoryStore {
    /// The store's invariants: ids are positions (starting at one), every
    /// step belongs to an existing run, no run logs the same dataset
    /// twice, and each task has at most one reset counter.
    pub open spec fn wf(self) -> bool {
        &&& forall|i: int|
            0 <= i < self.task_log@.len() ==> (#[trigger] self.task_log@[i]).id == i + 1
        &&& forall|i: int|
            0 <= i < self.step_log@.len() ==> (#[trigger] self.step_log@[i]).id == i + 1
        &&& forall|i: int|
            0 <= i < self.step_log@.len() ==> 1 <= (#[trigger] self.step_log@[i]).run_id
                <= self.task_log@.len()
        &&& forall|i: int, j: int|
            0 <= i < j < self.step_log@.len() ==> !((#[trigger] self.step_log@[i]).run_id
                == (#[trigger] self.step_log@[j]).run_id && self.step_log@[i].dataset@
                == self.step_log@[j].dataset@)
        &&& forall|i: int, j: int|
            0 <= i < j < self.reset_count@.len() ==> (#[trigger] self.reset_count@[i]).task@
                != (#[trigger] self.reset_count@[j]).task@
    }

    /// An empty store.
    pub fn new() -> (r: Self)
        ensures
            r.wf(),
            r.task_log@.len() == 0,
            r.step_log@.len() == 0,
            r.reset_count@.len() == 0,
    {
        HistoryStore { task_log: Vec::new(), step_log: Vec::new(), reset_count: Vec::new() }
    }

    /// Whether run `run_id` already has a step for `dataset`.
    pub open spec fn spec_has_step(self, run_id: RowId, dataset: Seq<char>) -> bool {
        exists|i: int|
            0 <= i < self.step_log@.len() && (#[trigger] self.step_log@[i]).run_id == run_id
                && self.step_log@[i].dataset@ == dataset
    }

    /// Record the start of a run: a `Pending` row for `task` at
    /// `timestamp`. Returns the new run's id.
    pub fn insert_task_log(&mut self, task: &String, timestamp: u64) -> (run_id: RowId)
        requires
            old(self).wf(),
            old(self).task_log@.len() < 0x7fff_ffff_ffff_ffff,
        ensures
            final (self).wf(),
            run_id == old(self).task_log@.len() + 1,
            final (self).task_log@.len() == old(self).task_log@.len() + 1,
            final (self).task_log@ =~= old(self).task_log@.push(
                final (self).task_log@.last(),
            ),
            ({
                let row = final (self).task_log@.last();
                &&& row.id == run_id
                &&& row.task@ == task@
                &&& row.state == CompletionState::Pending
                &&& row.started_at == timestamp
                &&& row.completed_at is None
            }),
            final (self).step_log == old(self).step_log,
            final (self).reset_count == old(self).reset_count,
    {
        let run_id = self.task_log.len() as i64 + 1;
        let row = TaskLogRow {
            id: run_id,
            task: task.clone(),
            state: CompletionState::Pending,
            started_at: timestamp,
            completed_at: Option::None,
        };
        self.task_log.push(row);
        run_id
    }

    /// Write a run's terminal state and completion time. A `run_id` that
    /// matches no row changes nothing, as an update of a missing row
    /// would.
    pub fn update_task_log_state(&mut self, run_id: RowId, state: CompletionState, timestamp: u64)
        requires
            old(self).wf(),
            old(self).task_log@.len() < 0x7fff_ffff_ffff_ffff,
        ensures
            final (self).wf(),
            1 <= run_id <= old(self).task_log@.len() ==> final (self).task_log@ =~= old(
                self,
            ).task_log@.update(
                run_id - 1,
                TaskLogRow {
                    state,
                    completed_at: Option::Some(timestamp),
                    ..old(self).task_log@[run_id - 1]
                },
            ),
            !(1 <= run_id <= old(self).task_log@.len()) ==> final (self).task_log
                == old(self).task_log,
            final (self).step_log == old(self).step_log,
            final (self).reset_count == old(self).reset_count,
    {
        if run_id < 1 || run_id > self.task_log.len() as i64 {
            return ;
        }
        let idx = (run_id - 1) as usize;
        let ghost pre = self.task_log@;
        let mut row = self.task_log.remove(idx);
        row.state = state;
        row.completed_at = Option::Some(timestamp);
        self.task_log.insert(idx, row);
        proof {
            assert(self.task_log@ =~= pre.update(
                idx as int,
                TaskLogRow { state, completed_at: Option::Some(timestamp), ..pre[idx as int] },
            ));
        }
    }

    /// The anchor (`source_super`) of the most recently completed step of
    /// `(dataset, pool, task)`, if that step recorded one.
    pub fn query_super_source_for_step(
        &self,
        dataset: &String,
        pool: &String,
        task: &String,
    ) -> (r: Option<String>)
        ensures
            ({
                let best = last_completed(self.step_log@, dataset@, pool@, task@);
                match best {
                    Option::Some(b) => r == b.source_super,
                    Option::None => r is None,
                }
            }),
    {
        match self.find_last_completed(dataset, pool, task) {
            Option::Some(idx) => match &self.step_log[idx].source_super {
                Option::Some(s) => Option::Some(s.clone()),
                Option::None => Option::None,
            },
            Option::None => Option::None,
        }
    }

    /// The index of the most recently completed step of
    /// `(dataset, pool, task)`.
    fn find_last_completed(&self, dataset: &String, pool: &String, task: &String) -> (r: Option<
        usize,
    >)
        ensures
            match r {
                Option::Some(i) => i < self.step_log@.len() && last_completed(
                    self.step_log@,
                    dataset@,
                    pool@,
                    task@,
                ) == Option::Some(self.step_log@[i as int]),
                Option::None => last_completed(self.step_log@, dataset@, pool@, task@) is None,
            },
    {
        let n = self.step_log.len();
        let mut best: Option<usize> = Option::None;
        let mut i: usize = 0;
        proof {
            assert(self.step_log@.take(0) =~= Seq::<StepLogRow>::empty());
        }
        while i < n
            invariant
                i <= n,
                n == self.step_log@.len(),
                match best {
                    Option::Some(b) => b < i && last_completed(
                        self.step_log@.take(i as int),
                        dataset@,
                        pool@,
                        task@,
                    ) == Option::Some(self.step_log@[b as int]),
                    Option::None => last_completed(
                        self.step_log@.take(i as int),
                        dataset@,
                        pool@,
                        task@,
                    ) is None,
                },
            decreases n - i,
        {
            proof {
                assert(self.step_log@.take(i + 1).drop_last() =~= self.step_log@.take(i as int));
                assert(self.step_log@.take(i + 1).last() == self.step_log@[i as int]);
            }
            let row = &self.step_log[i];
            let matches_key = matches!(row.state, CompletionState::Completed) && str_eq(
                row.dataset.as_str(),
                dataset.as_str(),
            ) && str_eq(row.pool.as_str(), pool.as_str()) && str_eq(
                row.task.as_str(),
                task.as_str(),
            );
            if matches_key {
                let better = match best {
                    Option::Some(b) => step_ts_ge(&self.step_log[i], &self.step_log[b]),
                    Option::None => true,
                };
                if better {
                    best = Option::Some(i);
                }
            }
            i = i + 1;
        }
        proof {
            assert(self.step_log@.take(n as int) =~= self.step_log@);
        }
        best
    }

    /// Record the start of one dataset's step: a `Pending` row under the
    /// run's snapshot label. When the step is incremental (`source` is
    /// set), the chain anchor is carried forward from the most recently
    /// completed step of the same `(dataset, pool, task)`, or starts at
    /// `source` itself when the chain is new. Returns the step's id.
    pub fn insert_step_log(
        &mut self,
        run_id: RowId,
        task: &String,
        pool: &String,
        dataset: &String,
        snapshot: &String,
        source: Option<String>,
        timestamp: u64,
    ) -> (step_id: RowId)
        requires
            old(self).wf(),
            old(self).step_log@.len() < 0x7fff_ffff_ffff_ffff,
            1 <= run_id <= old(self).task_log@.len(),
            !old(self).spec_has_step(run_id, dataset@),
        ensures
            final (self).wf(),
            step_id == old(self).step_log@.len() + 1,
            final (self).step_log@.len() == old(self).step_log@.len() + 1,
            final (self).step_log@ =~= old(self).step_log@.push(final (self).step_log@.last()),
            ({
                let row = final (self).step_log@.last();
                let best = last_completed(old(self).step_log@, dataset@, pool@, task@);
                &&& row.id == step_id
                &&& row.run_id == run_id
                &&& row.state == CompletionState::Pending
                &&& row.task@ == task@
                &&& row.pool@ == pool@
                &&& row.dataset@ == dataset@
                &&& row.snapshot@ == snapshot@
                &&& row.started_at == timestamp
                &&& row.completed_at is None
                &&& row.source == source
                &&& row.source_super == spec_source_super(best, source)
            }),
            final (self).task_log == old(self).task_log,
            final (self).reset_count == old(self).reset_count,
    {
        let step_id = self.step_log.len() as i64 + 1;
        let source_super: Option<String> = match &source {
            Option::Some(_) => {
                match self.query_super_source_for_step(dataset, pool, task) {
                    Option::Some(s) => Option::Some(s),
                    Option::None => match &source {
                        Option::Some(s) => Option::Some(s.clone()),
                        Option::None => Option::None,
                    },
                }
            },
            Option::None => Option::None,
        };
        let row = StepLogRow {
            id: step_id,
            run_id,
            state: CompletionState::Pending,
            task: task.clone(),
            pool: pool.clone(),
            dataset: dataset.clone(),
            snapshot: snapshot.clone(),
            source,
            source_super,
            started_at: timestamp,
            completed_at: Option::None,
        };
        self.step_log.push(row);
        step_id
    }

    /// Write a step's terminal state and completion time. A `step_id`
    /// that matches no row changes nothing.
    pub fn update_step_log(&mut self, step_id: RowId, state: CompletionState, timestamp: u64)
        requires
            old(self).wf(),
            old(self).step_log@.len() < 0x7fff_ffff_ffff_ffff,
        ensures
            final (self).wf(),
            1 <= step_id <= old(self).step_log@.len() ==> final (self).step_log@ =~= old(
                self,
            ).step_log@.update(
                step_id - 1,
                StepLogRow {
                    state,
                    completed_at: Option::Some(timestamp),
                    ..old(self).step_log@[step_id - 1]
                },
            ),
            !(1 <= step_id <= old(self).step_log@.len()) ==> final (self).step_log
                == old(self).step_log,
            final (self).task_log == old(self).task_log,
            final (self).reset_count == old(self).reset_count,
    {
        if step_id < 1 || step_id > self.step_log.len() as i64 {
            return ;
        }
        let idx = (step_id - 1) as usize;
        let ghost pre = self.step_log@;
        let mut row = self.step_log.remove(idx);
        row.state = state;
        row.completed_at = Option::Some(timestamp);
        self.step_log.insert(idx, row);
        proof {
            assert(self.step_log@ =~= pre.update(
                idx as int,
                StepLogRow { state, completed_at: Option::Some(timestamp), ..pre[idx as int] },
            ));
        }
    }

    /// `task`'s reset counter, if one was ever written.
    pub fn get_count_and_date_of_last_reset(&self, task: &String) -> (r: Option<(i64, u64)>)
        ensures
            r == reset_info(self.reset_count@, task@),
    {
        match self.find_reset_idx(task) {
            Option::Some(i) => Option::Some(
                (self.reset_count[i].count, self.reset_count[i].reset_at),
            ),
            Option::None => Option::None,
        }
    }

    fn find_reset_idx(&self, task: &String) -> (r: Option<usize>)
        ensures
            match r {
                Option::Some(i) => i < self.reset_count@.len() && find_reset(
                    self.reset_count@,
                    task@,
                ) == Option::Some(i as int),
                Option::None => find_reset(self.reset_count@, task@) is None,
            },
    {
        let n = self.reset_count.len();
        let mut i: usize = 0;
        proof {
            assert(self.reset_count@.skip(0) =~= self.reset_count@);
        }
        while i < n
            invariant
                i <= n,
                n == self.reset_count@.len(),
                forall|j: int| 0 <= j < i ==> (#[trigger] self.reset_count@[j]).task@ != task@,
                match find_reset(self.reset_count@.skip(i as int), task@) {
                    Option::Some(k) => find_reset(self.reset_count@, task@) == Option::Some(
                        k + i,
                    ),
                    Option::None => find_reset(self.reset_count@, task@) is None,
                },
            decreases n - i,
        {
            proof {
                assert(self.reset_count@.skip(i as int)[0] == self.reset_count@[i as int]);
                assert(self.reset_count@.skip(i as int).drop_first() =~= self.reset_count@.skip(
                    i + 1,
                ));
            }
            if str_eq(self.reset_count[i].task.as_str(), task.as_str()) {
                return Option::Some(i);
            }
            i = i + 1;
        }
        proof {
            assert(self.reset_count@.skip(n as int) =~= Seq::<ResetCountRow>::empty());
        }
        Option::None
    }

    /// Advance `task`'s reset counter. A reset (`reset_at` set) zeroes
    /// the count and records the time; otherwise the count grows by one
    /// and the reset time stays. The first write must be a reset.
    pub fn update_reset_counts(&mut self, task: &String, reset_at: Option<u64>)
        requires
            old(self).wf(),
            reset_info(old(self).reset_count@, task@) is None ==> reset_at is Some,
            match reset_info(old(self).reset_count@, task@) {
                Option::Some(p) => p.0 < 0x7fff_ffff_ffff_ffff,
                Option::None => true,
            },
        ensures
            final (self).wf(),
            ({
                let before = reset_info(old(self).reset_count@, task@);
                let after = reset_info(final (self).reset_count@, task@);
                match reset_at {
                    Option::Some(at) => after == Option::Some((0i64, at)),
                    Option::None => match before {
                        Option::Some(p) => after == Option::Some(((p.0 + 1) as i64, p.1)),
                        Option::None => false,
                    },
                }
            }),
            forall|k: Seq<char>|
                k != task@ ==> #[trigger] reset_info(final (self).reset_count@, k) == reset_info(
                    old(self).reset_count@,
                    k,
                ),
            final (self).task_log == old(self).task_log,
            final (self).step_log == old(self).step_log,
    {
        let ghost pre = self.reset_count@;
        match self.find_reset_idx(task) {
            Option::Some(idx) => {
                let mut row = self.reset_count.remove(idx);
                match reset_at {
                    Option::Some(at) => {
                        row.count = 0;
                        row.reset_at = at;
                    },
                    Option::None => {
                        row.count = row.count + 1;
                    },
                }
                let ghost newrow = row;
                self.reset_count.insert(idx, row);
                proof {
                    assert(self.reset_count@ =~= pre.update(idx as int, newrow));
                    lemma_find_reset_same_names(pre, pre.update(idx as int, newrow), task@);
                    lemma_find_reset_found(pre, task@);
                    assert forall|k: Seq<char>| k != task@ implies #[trigger] reset_info(
                        self.reset_count@,
                        k,
                    ) == reset_info(pre, k) by {
                        lemma_find_reset_same_names(pre, pre.update(idx as int, newrow), k);
                        lemma_find_reset_found(pre, k);
                    }
                }
            },
            Option::None => {
                let at = match reset_at {
                    Option::Some(at) => at,
                    Option::None => {
                        proof {
                            assert(false);
                        }
                        0
                    },
                };
                let row = ResetCountRow { task: task.clone(), count: 0, reset_at: at };
                let ghost newrow = row;
                self.reset_count.push(row);
                proof {
                    lemma_find_reset_push(pre, newrow, task@);
                    lemma_find_reset_none_no_match(pre, task@);
                    assert forall|k: Seq<char>| k != task@ implies #[trigger] reset_info(
                        self.reset_count@,
                        k,
                    ) == reset_info(pre, k) by {
                        lemma_find_reset_push(pre, newrow, k);
                    }
                    assert forall|i: int, j: int|
                        0 <= i < j < self.reset_count@.len() implies (#[trigger] self
                        .reset_count@[i]).task@ != (#[trigger] self.reset_count@[j]).task@ by {
                        if j == pre.len() {
                            lemma_find_reset_none_no_match(pre, task@);
                        }
                    }
                }
            },
        }
    }

    /// The incremental source of each dataset: the snapshot name
    /// `dataset@label` of its most recently completed step, aligned with
    /// the input order; `None` where a dataset has no completed history.
    pub fn get_sources(&self, pool: &String, datasets: &Vec<String>, task: &String) -> (r: Vec<
        Option<String>,
    >)
        ensures
            r@.len() == datasets@.len(),
            forall|i: int|
                0 <= i < datasets@.len() ==> match last_completed(
                    self.step_log@,
                    datasets@[i]@,
                    pool@,
                    task@,
                ) {
                    Option::Some(prev) => (#[trigger] r@[i]) matches Option::Some(name)
                        && name@ == snapshot_name_seq(datasets@[i]@, prev.snapshot@),
                    Option::None => r@[i] is None,
                },
    {
        let n = datasets.len();
        let mut out: Vec<Option<String>> = Vec::new();
        let mut i: usize = 0;
        while i < n
            invariant
                i <= n,
                n == datasets@.len(),
                out@.len() == i,
                forall|j: int|
                    0 <= j < i ==> match last_completed(
                        self.step_log@,
                        datasets@[j]@,
                        pool@,
                        task@,
                    ) {
                        Option::Some(prev) => (#[trigger] out@[j]) matches Option::Some(name)
                            && name@ == snapshot_name_seq(datasets@[j]@, prev.snapshot@),
                        Option::None => out@[j] is None,
                    },
            decreases n - i,
        {
            let entry = match self.find_last_completed(&datasets[i], pool, task) {
                Option::Some(idx) => Option::Some(
                    crate::zfs_manager::snapshot_full_name(
                        datasets[i].as_str(),
                        self.step_log[idx].snapshot.as_str(),
                    ),
                ),
                Option::None => Option::None,
            };
            out.push(entry);
            i = i + 1;
        }
        out
    }
}

/// The anchor a new incremental step records: the previous completed
/// step's anchor, or the new step's own source when the chain starts.
pub open spec fn spec_source_super(
    best: Option<StepLogRow>,
    source: Option<String>,
) -> Option<String> {
    match source {
        Option::None => Option::None,
        Option::Some(_) => match best {
            Option::Some(b) => match b.source_super {
                Option::Some(bs) => Option::Some(bs),
                Option::None => source,
            },
            Option::None => source,
        },
    }
}

fn step_ts_ge(a: &StepLogRow, b: &StepLogRow) -> (r: bool)
    ensures
        r == (completion_ts(*a) >= completion_ts(*b)),
{
    match (&a.completed_at, &b.completed_at) {
        (Option::Some(x), Option::Some(y)) => *x >= *y,
        (Option::Some(_), Option::None) => true,
        (Option::None, Option::Some(_)) => false,
        (Option::None, Option::None) => true,
    }
}

/// Two row sequences with the same names in the same places find every
/// task at the same position.
proof fn lemma_find_reset_same_names(a: Seq<ResetCountRow>, b: Seq<ResetCountRow>, k: Seq<char>)
    requires
        a.len() == b.len(),
        forall|i: int| 0 <= i < a.len() ==> (#[trigger] a[i]).task@ == (#[trigger] b[i]).task@,
    ensures
        find_reset(a, k) == find_reset(b, k),
    decreases a.len(),
{
    if a.len() == 0 {
    } else {
        assert(a[0].task@ == b[0].task@);
        assert forall|i: int| 0 <= i < a.drop_first().len() implies (#[trigger] a.drop_first()[i]).task@
            == (#[trigger] b.drop_first()[i]).task@ by {
            assert(a.drop_first()[i] == a[i + 1]);
            assert(b.drop_first()[i] == b[i + 1]);
        }
        lemma_find_reset_same_names(a.drop_first(), b.drop_first(), k);
    }
}

/// A found position is in range and names the key looked for.
proof fn lemma_find_reset_found(rows: Seq<ResetCountRow>, k: Seq<char>)
    ensures
        match find_reset(rows, k) {
            Option::Some(i) => 0 <= i < rows.len() && rows[i].task@ == k,
            Option::None => true,
        },
    decreases rows.len(),
{
    if rows.len() == 0 {
    } else if rows[0].task@ == k {
    } else {
        lemma_find_reset_found(rows.drop_first(), k);
        match find_reset(rows.drop_first(), k) {
            Option::Some(i) => {
                assert(rows.drop_first()[i] == rows[i + 1]);
            },
            Option::None => {},
        }
    }
}

/// Appending a row does not move existing keys, and a fresh key is found
/// at the end.
proof fn lemma_find_reset_push(rows: Seq<ResetCountRow>, row: ResetCountRow, k: Seq<char>)
    ensures
        find_reset(rows.push(row), k) == match find_reset(rows, k) {
            Option::Some(i) => Option::Some(i),
            Option::None => if row.task@ == k {
                Option::Some(rows.len() as int)
            } else {
                Option::None
            },
        },
        match find_reset(rows, k) {
            Option::Some(i) => 0 <= i < rows.len() && rows.push(row)[i] == rows[i],
            Option::None => true,
        },
    decreases rows.len(),
{
    if rows.len() == 0 {
        assert(rows.push(row)[0] == row);
        assert(rows.push(row).drop_first() =~= Seq::<ResetCountRow>::empty());
        assert(find_reset(Seq::<ResetCountRow>::empty(), k) is None);
    } else {
        assert(rows.push(row)[0] == rows[0]);
        assert(rows.push(row).drop_first() =~= rows.drop_first().push(row));
        lemma_find_reset_push(rows.drop_first(), row, k);
        assert(find_reset(rows.push(row), k) == if rows[0].task@ == k {
            Option::Some(0int)
        } else {
            match find_reset(rows.drop_first().push(row), k) {
                Option::Some(i) => Option::Some(i + 1),
                Option::None => Option::None,
            }
        });
        match find_reset(rows.drop_first(), k) {
            Option::Some(i) => {
                lemma_find_reset_found(rows.drop_first(), k);
                assert(rows.drop_first()[i] == rows[i + 1]);
            },
            Option::None => {},
        }
    }
}

/// A key that is not found matches no row.
proof fn lemma_find_reset_none_no_match(rows: Seq<ResetCountRow>, k: Seq<char>)
    requires
        find_reset(rows, k) is None,
    ensures
        forall|i: int| 0 <= i < rows.len() ==> (#[trigger] rows[i]).task@ != k,
    decreases rows.len(),
{
    if rows.len() == 0 {
    } else {
        lemma_find_reset_none_no_match(rows.drop_first(), k);
        assert forall|i: int| 0 <= i < rows.len() implies (#[trigger] rows[i]).task@ != k by {
            if i > 0 {
                assert(rows.drop_first()[i - 1] == rows[i]);
            }
        }
    }
}

/// Appending a row that is no completed match of `(dataset, pool, task)`
/// leaves the last completed step unchanged.
pub proof fn lemma_last_completed_push_other(
    rows: Seq<StepLogRow>,
    row: StepLogRow,
    dataset: Seq<char>,
    pool: Seq<char>,
    task: Seq<char>,
)
    requires
        !is_completed_match(row, dataset, pool, task),
    ensures
        last_completed(rows.push(row), dataset, pool, task) == last_completed(
            rows,
            dataset,
            pool,
            task,
        ),
{
    assert(rows.push(row).drop_last() =~= rows);
    assert(rows.push(row).last() == row);
}

/// The last completed step, when there is one, is a row of the store.
pub proof fn lemma_last_completed_exists(
    rows: Seq<StepLogRow>,
    dataset: Seq<char>,
    pool: Seq<char>,
    task: Seq<char>,
)
    ensures
        match last_completed(rows, dataset, pool, task) {
            Option::Some(prev) => exists|j: int|
                0 <= j < rows.len() && rows[j] == prev && is_completed_match(
                    prev,
                    dataset,
                    pool,
                    task,
                ),
            Option::None => true,
        },
    decreases rows.len(),
{
    if rows.len() == 0 {
    } else {
        lemma_last_completed_exists(rows.drop_last(), dataset, pool, task);
        match last_completed(rows.drop_last(), dataset, pool, task) {
            Option::Some(p) => {
                let j = choose|j: int|
                    0 <= j < rows.drop_last().len() && rows.drop_last()[j] == p
                        && is_completed_match(p, dataset, pool, task);
                assert(rows.drop_last()[j] == rows[j]);
                assert(rows.last() == rows[rows.len() - 1]);
            },
            Option::None => {
                assert(rows.last() == rows[rows.len() - 1]);
            },
        }
    }
}

} // verus!
