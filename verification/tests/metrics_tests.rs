use devfocus::models::StoreError;
use devfocus::store::Store;

fn task_with_n_subtasks(store: &mut Store, n: usize, done: usize) -> (String, Vec<String>) {
    let task = store.create_task("t".to_string(), None).unwrap();
    let mut subs = Vec::new();
    for i in 0..n {
        let sub = store
            .create_subtask(&task.id, format!("s{}", i), None)
            .unwrap();
        subs.push(sub.id);
    }
    for sid in subs.iter().take(done) {
        store.start_subtask(sid).unwrap();
        store.complete_subtask(sid, 60).unwrap();
    }
    (task.id, subs)
}

#[test]
fn five_done_subtasks_earn_the_complexity_bonus() {
    let mut store = Store::new();
    let (tid, _) = task_with_n_subtasks(&mut store, 5, 5);
    let m = store.get_task_metrics(&tid).unwrap();
    assert_eq!(m.subtasks_total, 5);
    assert_eq!(m.subtasks_completed, 5);
    // five efficient completions at 15 points each, plus the 20-point bonus
    assert_eq!(m.total_points, 5 * 15 + 20);
}

#[test]
fn four_of_five_done_subtasks_earn_no_bonus() {
    let mut store = Store::new();
    let (tid, _) = task_with_n_subtasks(&mut store, 5, 4);
    let m = store.get_task_metrics(&tid).unwrap();
    assert_eq!(m.subtasks_total, 5);
    assert_eq!(m.subtasks_completed, 4);
    assert_eq!(m.total_points, 4 * 15);
}

#[test]
fn four_done_of_four_earn_no_bonus_either() {
    let mut store = Store::new();
    let (tid, _) = task_with_n_subtasks(&mut store, 4, 4);
    let m = store.get_task_metrics(&tid).unwrap();
    assert_eq!(m.total_points, 4 * 15);
}

#[test]
fn task_metrics_times_and_rates() {
    let mut store = Store::new();
    let task = store.create_task("t".to_string(), None).unwrap();
    let a = store.create_subtask(&task.id, "a".to_string(), None).unwrap();
    let b = store.create_subtask(&task.id, "b".to_string(), None).unwrap();
    let c = store.create_subtask(&task.id, "c".to_string(), None).unwrap();
    store.start_subtask(&a.id).unwrap();
    store.complete_subtask(&a.id, 1_000).unwrap();
    store.start_subtask(&b.id).unwrap();
    store.complete_subtask(&b.id, 2_000).unwrap();
    store.start_subtask(&c.id).unwrap();
    let m = store.get_task_metrics(&task.id).unwrap();
    assert_eq!(m.subtasks_total, 3);
    assert_eq!(m.subtasks_completed, 2);
    // the running session of c has not ended, so it counts no time yet
    assert_eq!(m.total_time_seconds, 3_000);
    assert_eq!(m.average_time_per_subtask, 1_500);
    // one efficient completion out of two
    assert_eq!(m.efficiency_rate, 50);
    assert_eq!(m.total_points, 15 + 10);
    assert_eq!(m.subtasks_with_time.len(), 3);
    assert_eq!(m.subtasks_with_time[0].total_time_seconds, 1_000);
    assert_eq!(m.subtasks_with_time[1].total_time_seconds, 2_000);
    assert_eq!(m.subtasks_with_time[2].total_time_seconds, 0);
}

#[test]
fn task_metrics_of_missing_task() {
    let store = Store::new();
    assert_eq!(store.get_task_metrics("ghost").err(), Some(StoreError::NotFound));
}

#[test]
fn task_metrics_read_twice_are_identical() {
    let mut store = Store::new();
    let (tid, _) = task_with_n_subtasks(&mut store, 5, 3);
    let first = store.get_task_metrics(&tid).unwrap();
    let second = store.get_task_metrics(&tid).unwrap();
    assert_eq!(first, second);
}

#[test]
fn empty_task_has_zeroed_metrics() {
    let mut store = Store::new();
    let task = store.create_task("t".to_string(), None).unwrap();
    let m = store.get_task_metrics(&task.id).unwrap();
    assert_eq!(m.subtasks_total, 0);
    assert_eq!(m.subtasks_completed, 0);
    assert_eq!(m.total_time_seconds, 0);
    assert_eq!(m.total_points, 0);
    assert_eq!(m.average_time_per_subtask, 0);
    assert_eq!(m.efficiency_rate, 0);
}
