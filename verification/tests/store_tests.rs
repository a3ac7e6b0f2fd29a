use gazpacho::messages::CompletionState;
use gazpacho::task_manager::repository::HistoryStore;

static TASK_NAME: &str = "test-task";

fn get_store() -> HistoryStore {
    HistoryStore::new()
}

#[test]
fn it_works() {
    assert_eq!(2 + 2, 4);
}

#[test]
fn get_last_reset_info() {
    let mut store = get_store();
    let task = String::from(TASK_NAME);
    let last_reset = store.get_count_and_date_of_last_reset(&task);
    assert!(last_reset.is_none());

    {
        let last_reset_time: u64 = 1717200000;
        store.update_reset_counts(&task, Some(last_reset_time));

        let (count, timestamp) = store.get_count_and_date_of_last_reset(&task).unwrap();
        assert_eq!(0, count);
        assert_eq!(last_reset_time, timestamp);
    }
    {
        let (_, old_timestamp) = store.get_count_and_date_of_last_reset(&task).unwrap();
        store.update_reset_counts(&task, None);

        let (count, timestamp) = store.get_count_and_date_of_last_reset(&task).unwrap();
        assert_eq!(1, count);
        assert_eq!(old_timestamp, timestamp);
    }
    {
        let (_, old_timestamp) = store.get_count_and_date_of_last_reset(&task).unwrap();
        store.update_reset_counts(&task, None);

        let (count, timestamp) = store.get_count_and_date_of_last_reset(&task).unwrap();
        assert_eq!(2, count);
        assert_eq!(old_timestamp, timestamp);
    }
    {
        let last_reset_time: u64 = 1717300000;
        store.update_reset_counts(&task, Some(last_reset_time));

        let (count, timestamp) = store.get_count_and_date_of_last_reset(&task).unwrap();
        assert_eq!(0, count);
        assert_eq!(last_reset_time, timestamp);
    }
}

#[test]
fn reset_counts_of_other_tasks_are_untouched() {
    let mut store = get_store();
    let a = String::from("a");
    let b = String::from("b");
    store.update_reset_counts(&a, Some(100));
    store.update_reset_counts(&b, Some(200));
    store.update_reset_counts(&a, None);
    assert_eq!(store.get_count_and_date_of_last_reset(&a), Some((1, 100)));
    assert_eq!(store.get_count_and_date_of_last_reset(&b), Some((0, 200)));
}

#[test]
fn task_log_insert_and_update() {
    let mut store = get_store();
    let task = String::from("t");
    let run_id = store.insert_task_log(&task, 1000);
    assert_eq!(run_id, 1);
    assert_eq!(store.task_log[0].state, CompletionState::Pending);
    assert_eq!(store.task_log[0].started_at, 1000);
    assert!(store.task_log[0].completed_at.is_none());

    store.update_task_log_state(run_id, CompletionState::Completed, 1010);
    assert_eq!(store.task_log[0].state, CompletionState::Completed);
    assert_eq!(store.task_log[0].completed_at, Some(1010));
}

#[test]
fn step_log_carries_the_chain_anchor_forward() {
    let mut store = get_store();
    let task = String::from("t");
    let pool = String::from("z");
    let dataset = String::from("z/db");

    let run1 = store.insert_task_log(&task, 1000);
    // A full send: no source, hence no anchor.
    let label1 = String::from("gazpacho-19700101-1000");
    let step1 = store.insert_step_log(run1, &task, &pool, &dataset, &label1, None, 1000);
    store.update_step_log(step1, CompletionState::Completed, 1010);
    assert!(store.step_log[0].source.is_none());
    assert!(store.step_log[0].source_super.is_none());

    // An incremental send: the chain is new, so the anchor is its own source.
    let run2 = store.insert_task_log(&task, 2000);
    let label2 = String::from("gazpacho-19700101-2000");
    let source2 = String::from("z/db@gazpacho-19700101-1000");
    let step2 = store.insert_step_log(
        run2, &task, &pool, &dataset, &label2, Some(source2.clone()), 2000,
    );
    store.update_step_log(step2, CompletionState::Completed, 2010);
    assert_eq!(store.step_log[1].source.as_deref(), Some(source2.as_str()));
    assert_eq!(store.step_log[1].source_super.as_deref(), Some(source2.as_str()));

    // The next incremental send keeps the first anchor.
    let run3 = store.insert_task_log(&task, 3000);
    let label3 = String::from("gazpacho-19700101-3000");
    let source3 = String::from("z/db@gazpacho-19700101-2000");
    let step3 = store.insert_step_log(
        run3, &task, &pool, &dataset, &label3, Some(source3.clone()), 3000,
    );
    store.update_step_log(step3, CompletionState::Completed, 3010);
    assert_eq!(store.step_log[2].source.as_deref(), Some(source3.as_str()));
    assert_eq!(store.step_log[2].source_super.as_deref(), Some(source2.as_str()));
}

#[test]
fn sources_name_the_last_completed_snapshot() {
    let mut store = get_store();
    let task = String::from("t");
    let pool = String::from("z");
    let db = String::from("z/db");
    let home = String::from("z/home");

    let run1 = store.insert_task_log(&task, 1000);
    let label1 = String::from("lbl1");
    let step = store.insert_step_log(run1, &task, &pool, &db, &label1, None, 1000);
    store.update_step_log(step, CompletionState::Completed, 1010);

    let datasets = vec![db.clone(), home.clone()];
    let sources = store.get_sources(&pool, &datasets, &task);
    assert_eq!(sources.len(), 2);
    assert_eq!(sources[0].as_deref(), Some("z/db@lbl1"));
    // No completed history for z/home: it falls back to a full send.
    assert!(sources[1].is_none());
}

#[test]
fn failed_steps_are_not_sources() {
    let mut store = get_store();
    let task = String::from("t");
    let pool = String::from("z");
    let db = String::from("z/db");

    let run1 = store.insert_task_log(&task, 1000);
    let label1 = String::from("lbl1");
    let step = store.insert_step_log(run1, &task, &pool, &db, &label1, None, 1000);
    store.update_step_log(step, CompletionState::Failed, 1010);

    let datasets = vec![db.clone()];
    let sources = store.get_sources(&pool, &datasets, &task);
    assert!(sources[0].is_none());
}
