use gazpacho::config::Task;
use gazpacho::destination::{Destination, DestinationLocal};
use gazpacho::messages::{run_state, CompletionState, ExecuteTask, GetDatasetsForTask, GetSources, MakeSnapshots, NeedsReset};
use gazpacho::strategy::incremental::Incremental;
use gazpacho::strategy::Strategy;
use gazpacho::task_manager::repository::HistoryStore;
use gazpacho::task_manager::steps::{DatasetErrorKind, SendError, StepError};
use gazpacho::task_manager::TaskManager;
use gazpacho::zfs_manager::get_datasets_for_task;

const DAY1: u64 = 1717200000; // 2024-06-01T00:00:00Z
const DAY2: u64 = 1717286400; // 2024-06-02T00:00:00Z
const DAY8PLUS1: u64 = 1717804801; // 2024-06-08T00:00:01Z
const WEEK: u64 = 7 * 86400;

fn incremental_task() -> (Vec<(String, Task)>, Vec<(String, Destination)>) {
    let task = Task {
        destination: String::from("temp"),
        strategy: Strategy::Incremental(Incremental {
            zpool: String::from("z"),
            filter: String::from("^z/db$|^z/home$"),
            runs_before_reset: None,
            duration_before_reset: Some(WEEK),
            cleanup: None,
        }),
        compression: None,
        parallelism: 1,
    };
    let dest = Destination {
        parallelism: 1,
        chmod: 0o600,
        chmod_dir: 0o700,
        ssh: None,
        local: Some(DestinationLocal { folder: String::from("/tmp/bk") }),
    };
    (
        vec![(String::from("t"), task)],
        vec![(String::from("temp"), dest)],
    )
}

fn engine() -> TaskManager {
    let (tasks, dests) = incremental_task();
    TaskManager::new(tasks, &dests, HistoryStore::new())
}

fn matched_datasets() -> Vec<String> {
    get_datasets_for_task(
        vec![String::from("z/db"), String::from("z/home"), String::from("z/var")],
        Vec::new(),
        "^z/db$|^z/home$",
    )
}

#[test]
fn first_run_is_full_and_resets_the_counter() {
    let mut engine = engine();
    let datasets = matched_datasets();
    assert_eq!(datasets, vec![String::from("z/db"), String::from("z/home")]);

    let msg = ExecuteTask(String::from("t"));
    let r = engine.run_task(&msg, DAY1, DAY1, &datasets, None, vec![None, None]);
    assert!(r.is_ok());

    assert_eq!(engine.store.task_log.len(), 1);
    assert_eq!(engine.store.task_log[0].state, CompletionState::Completed);
    assert_eq!(engine.store.step_log.len(), 2);
    for (i, expected) in ["z/db", "z/home"].iter().enumerate() {
        let step = &engine.store.step_log[i];
        assert_eq!(step.dataset, *expected);
        assert_eq!(step.snapshot, "gazpacho-20240601-1717200000");
        assert_eq!(step.state, CompletionState::Completed);
        // No history yet: the first run resets, so both sends are full.
        assert!(step.source.is_none());
        assert!(step.source_super.is_none());
    }
    let task = String::from("t");
    assert_eq!(
        engine.store.get_count_and_date_of_last_reset(&task),
        Some((0, DAY1))
    );
}

#[test]
fn second_run_is_incremental_from_yesterday() {
    let mut engine = engine();
    let datasets = matched_datasets();
    let msg = ExecuteTask(String::from("t"));
    engine.run_task(&msg, DAY1, DAY1, &datasets, None, vec![None, None]).unwrap();

    let r = engine.run_task(&msg, DAY2, DAY2, &datasets, None, vec![None, None]);
    assert!(r.is_ok());

    // No runs_before_reset and the duration is not exceeded: no reset.
    assert_eq!(engine.store.step_log.len(), 4);
    assert_eq!(
        engine.store.step_log[2].source.as_deref(),
        Some("z/db@gazpacho-20240601-1717200000")
    );
    assert_eq!(
        engine.store.step_log[3].source.as_deref(),
        Some("z/home@gazpacho-20240601-1717200000")
    );
    let task = String::from("t");
    assert_eq!(
        engine.store.get_count_and_date_of_last_reset(&task),
        Some((1, DAY1))
    );
}

#[test]
fn counter_accumulates_while_no_trigger_fires() {
    let mut engine = engine();
    let datasets = matched_datasets();
    let msg = ExecuteTask(String::from("t"));
    engine.run_task(&msg, DAY1, DAY1, &datasets, None, vec![None, None]).unwrap();
    let task = String::from("t");
    for n in 1..4u64 {
        let now = DAY1 + n * 3600; // well within the week
        engine.run_task(&msg, now, now, &datasets, None, vec![None, None]).unwrap();
        assert_eq!(
            engine.store.get_count_and_date_of_last_reset(&task),
            Some((n as i64, DAY1))
        );
    }
}

#[test]
fn duration_trigger_forces_a_full_run() {
    let mut engine = engine();
    let datasets = matched_datasets();
    let msg = ExecuteTask(String::from("t"));
    engine.run_task(&msg, DAY1, DAY1, &datasets, None, vec![None, None]).unwrap();
    let task = String::from("t");
    // Six quiet runs later the counter reads 6.
    for n in 1..7u64 {
        let now = DAY1 + n * 3600;
        engine.run_task(&msg, now, now, &datasets, None, vec![None, None]).unwrap();
    }
    assert_eq!(
        engine.store.get_count_and_date_of_last_reset(&task),
        Some((6, DAY1))
    );

    // A week and a second after the reset, the duration trigger fires.
    let r = engine.run_task(&msg, DAY8PLUS1, DAY8PLUS1, &datasets, None, vec![None, None]);
    assert!(r.is_ok());
    let steps = &engine.store.step_log;
    let last = &steps[steps.len() - 1];
    let before_last = &steps[steps.len() - 2];
    assert!(last.source.is_none());
    assert!(before_last.source.is_none());
    assert_eq!(
        engine.store.get_count_and_date_of_last_reset(&task),
        Some((0, DAY8PLUS1))
    );
}

#[test]
fn partial_failure_completes_with_errors() {
    let mut engine = engine();
    let datasets = matched_datasets();
    let msg = ExecuteTask(String::from("t"));
    let outcomes = vec![
        None,
        Some(DatasetErrorKind::SendError(SendError {
            zfs: None,
            destination: Some(String::from("failed to connect to the SFTP host")),
        })),
    ];
    let r = engine.run_task(&msg, DAY1, DAY1, &datasets, None, outcomes);
    match r {
        Err(StepError::PartialErrors(errs)) => {
            assert_eq!(errs.len(), 1);
            assert_eq!(errs[0].dataset, "z/home");
            assert!(matches!(errs[0].error, DatasetErrorKind::SendError(_)));
        },
        _ => panic!("expected partial errors"),
    }
    assert_eq!(engine.store.task_log[0].state, CompletionState::CompletedWithErrors);
    assert_eq!(engine.store.step_log[0].state, CompletionState::Completed);
    assert_eq!(engine.store.step_log[1].state, CompletionState::Failed);
    // The counter still advances.
    let task = String::from("t");
    assert_eq!(
        engine.store.get_count_and_date_of_last_reset(&task),
        Some((0, DAY1))
    );
}

#[test]
fn all_failures_fail_the_run() {
    let mut engine = engine();
    let datasets = matched_datasets();
    let msg = ExecuteTask(String::from("t"));
    let outcomes = vec![
        Some(DatasetErrorKind::Other(String::from("boom"))),
        Some(DatasetErrorKind::PipeError(String::from("closed"))),
    ];
    let r = engine.run_task(&msg, DAY1, DAY1, &datasets, None, outcomes);
    assert!(matches!(r, Err(StepError::PartialErrors(_))));
    assert_eq!(engine.store.task_log[0].state, CompletionState::Failed);
}

#[test]
fn empty_dataset_list_completes_without_steps() {
    let mut engine = engine();
    let msg = ExecuteTask(String::from("t"));
    let r = engine.run_task(&msg, DAY1, DAY1, &Vec::new(), None, Vec::new());
    assert!(r.is_ok());
    assert_eq!(engine.store.task_log[0].state, CompletionState::Completed);
    assert!(engine.store.step_log.is_empty());
}

#[test]
fn snapshot_failure_fails_the_run_before_any_step() {
    let mut engine = engine();
    let datasets = matched_datasets();
    let msg = ExecuteTask(String::from("t"));
    let r = engine.run_task(
        &msg,
        DAY1,
        DAY1,
        &datasets,
        Some(String::from("cannot create snapshots")),
        vec![None, None],
    );
    assert!(matches!(r, Err(StepError::ZfsError(_))));
    assert_eq!(engine.store.task_log[0].state, CompletionState::Failed);
    assert!(engine.store.step_log.is_empty());
    // The failure came before the reset decision: the counter is untouched.
    let task = String::from("t");
    assert!(engine.store.get_count_and_date_of_last_reset(&task).is_none());
}

#[test]
fn a_task_runs_at_most_once_at_a_time() {
    let mut engine = engine();
    let msg = ExecuteTask(String::from("t"));
    let first = engine.handle_execute_task(&msg, DAY1);
    assert!(first.is_ok());
    assert_eq!(engine.store.task_log.len(), 1);

    let second = engine.handle_execute_task(&msg, DAY1 + 1);
    match second {
        Err(StepError::AlreadyRunning(name)) => assert_eq!(name, "t"),
        _ => panic!("expected the second request to be rejected"),
    }
    // No second run row was inserted.
    assert_eq!(engine.store.task_log.len(), 1);

    // Once the first run finishes, the task can run again.
    let token = first.unwrap();
    engine.finish_run(&token, 0, 0, true, DAY1 + 2);
    assert!(engine.handle_execute_task(&msg, DAY1 + 3).is_ok());
}

#[test]
fn unknown_tasks_are_rejected_without_writes() {
    let mut engine = engine();
    let msg = ExecuteTask(String::from("nope"));
    let r = engine.run_task(&msg, DAY1, DAY1, &Vec::new(), None, Vec::new());
    match r {
        Err(StepError::TaskNotFound(name)) => assert_eq!(name, "nope"),
        _ => panic!("expected the task to be unknown"),
    }
    assert!(engine.store.task_log.is_empty());
    assert!(engine.store.step_log.is_empty());
}

#[test]
fn terminal_run_states_are_never_rewritten() {
    let mut engine = engine();
    let datasets = matched_datasets();
    let msg = ExecuteTask(String::from("t"));
    let outcomes = vec![
        Some(DatasetErrorKind::Other(String::from("x"))),
        Some(DatasetErrorKind::Other(String::from("y"))),
    ];
    let _ = engine.run_task(&msg, DAY1, DAY1, &datasets, None, outcomes);
    assert_eq!(engine.store.task_log[0].state, CompletionState::Failed);

    // A later successful run leaves the first run's terminal state alone.
    engine.run_task(&msg, DAY2, DAY2, &datasets, None, vec![None, None]).unwrap();
    assert_eq!(engine.store.task_log[0].state, CompletionState::Failed);
    assert_eq!(engine.store.task_log[1].state, CompletionState::Completed);
}

#[test]
fn one_step_row_per_run_and_dataset() {
    let mut engine = engine();
    let datasets = matched_datasets();
    let msg = ExecuteTask(String::from("t"));
    engine.run_task(&msg, DAY1, DAY1, &datasets, None, vec![None, None]).unwrap();
    engine.run_task(&msg, DAY2, DAY2, &datasets, None, vec![None, None]).unwrap();
    let steps = &engine.store.step_log;
    for i in 0..steps.len() {
        for j in 0..steps.len() {
            if i != j && steps[i].run_id == steps[j].run_id {
                assert_ne!(steps[i].dataset, steps[j].dataset);
            }
        }
    }
}

#[test]
fn tasks_with_unknown_destinations_are_dropped_at_load() {
    let (mut tasks, dests) = incremental_task();
    tasks.push((
        String::from("orphan"),
        Task {
            destination: String::from("missing"),
            strategy: Strategy::Incremental(Incremental::new(None, None)),
            compression: None,
            parallelism: 1,
        },
    ));
    let engine = TaskManager::new(tasks, &dests, HistoryStore::new());
    assert_eq!(engine.tasks.len(), 1);
    assert_eq!(engine.tasks[0].0, "t");
}

#[test]
fn run_state_aggregation() {
    assert_eq!(run_state(0, 0), CompletionState::Completed);
    assert_eq!(run_state(2, 0), CompletionState::Completed);
    assert_eq!(run_state(2, 1), CompletionState::CompletedWithErrors);
    assert_eq!(run_state(2, 2), CompletionState::Failed);
}

#[test]
fn message_constructors_keep_their_fields() {
    let req = GetDatasetsForTask::new(String::from("z"), String::from("^z/db$"));
    assert_eq!(req.zpool, "z");
    assert_eq!(req.filter, "^z/db$");

    let req = MakeSnapshots::new(vec![String::from("z/db")], String::from("lbl"));
    assert_eq!(req.datasets, vec![String::from("z/db")]);
    assert_eq!(req.snapshot, "lbl");

    let (tasks, _) = incremental_task();
    let (name, task) = tasks.into_iter().next().unwrap();
    let req = NeedsReset::new(name.clone(), task);
    assert_eq!(req.task_name, "t");

    let (tasks, _) = incremental_task();
    let (name2, task2) = tasks.into_iter().next().unwrap();
    let req = GetSources::new(name2, task2, vec![String::from("z/db")]);
    assert_eq!(req.task_name, "t");
    assert_eq!(req.datasets, vec![String::from("z/db")]);
    let _ = name;
}
