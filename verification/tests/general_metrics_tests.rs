use devfocus::store::Store;

// 2023-11-14T22:13:20+00:00; its calendar day starts at epoch day 19675
const TODAY_SECS: i64 = 1_700_000_000;
const TODAY_DAY: i64 = 19_675;

fn finish_subtask_at(store: &mut Store, task_id: &str, title: &str, elapsed: i64, when: &str) {
    let sub = store
        .create_subtask(task_id, title.to_string(), None)
        .unwrap();
    store
        .start_subtask_with(&sub.id, format!("session-{}", title), when.to_string())
        .unwrap();
    store
        .complete_subtask_at(&sub.id, elapsed, when.to_string())
        .unwrap();
}

#[test]
fn the_weekly_series_covers_exactly_the_trailing_week() {
    let store = Store::new();
    let m = store.get_general_metrics_at(TODAY_SECS);
    assert_eq!(m.points_last_7_days.len(), 7);
    let expected_dates = [
        "2023-11-08",
        "2023-11-09",
        "2023-11-10",
        "2023-11-11",
        "2023-11-12",
        "2023-11-13",
        "2023-11-14",
    ];
    for (k, entry) in m.points_last_7_days.iter().enumerate() {
        assert_eq!(entry.epoch_day, TODAY_DAY - 6 + k as i64);
        assert_eq!(entry.date, expected_dates[k]);
        assert_eq!(entry.points, 0);
        assert_eq!(entry.subtasks_completed, 0);
    }
    // dates strictly increase, oldest first
    for w in m.points_last_7_days.windows(2) {
        assert!(w[0].epoch_day < w[1].epoch_day);
        assert!(w[0].date < w[1].date);
    }
    assert_eq!(m.best_day, None);
    assert_eq!(m.total_points, 0);
}

#[test]
fn completions_are_bucketed_by_their_calendar_day() {
    let mut store = Store::new();
    let task = store.create_task("t".to_string(), None).unwrap();
    finish_subtask_at(&mut store, &task.id, "a", 600, "2023-11-14T12:00:00+00:00");
    finish_subtask_at(&mut store, &task.id, "b", 2_000, "2023-11-13T12:00:00+00:00");
    finish_subtask_at(&mut store, &task.id, "c", 60, "2023-01-01T09:00:00+00:00");
    let m = store.get_general_metrics_at(TODAY_SECS);
    // today: one efficient completion; yesterday: one slow one
    assert_eq!(m.points_today, 15);
    assert_eq!(m.points_last_7_days[6].points, 15);
    assert_eq!(m.points_last_7_days[6].subtasks_completed, 1);
    assert_eq!(m.points_last_7_days[5].points, 10);
    assert_eq!(m.points_this_week, 25);
    // the January completion still counts in the overall totals
    assert_eq!(m.total_points, 15 + 10 + 15);
    assert_eq!(m.total_subtasks_completed, 3);
    assert_eq!(m.average_completion_time_seconds, (600 + 2_000 + 60) / 3);
}

#[test]
fn best_day_takes_the_highest_points_earliest_on_ties() {
    let mut store = Store::new();
    let task = store.create_task("t".to_string(), None).unwrap();
    // 2023-11-10 and 2023-11-12 both earn 15 points
    finish_subtask_at(&mut store, &task.id, "a", 100, "2023-11-10T08:00:00+00:00");
    finish_subtask_at(&mut store, &task.id, "b", 100, "2023-11-12T08:00:00+00:00");
    let m = store.get_general_metrics_at(TODAY_SECS);
    let best = m.best_day.expect("a best day");
    assert_eq!(best.date, "2023-11-10");
    assert_eq!(best.points, 15);
}

#[test]
fn best_day_prefers_strictly_more_points() {
    let mut store = Store::new();
    let task = store.create_task("t".to_string(), None).unwrap();
    finish_subtask_at(&mut store, &task.id, "a", 100, "2023-11-10T08:00:00+00:00");
    finish_subtask_at(&mut store, &task.id, "b", 100, "2023-11-12T08:00:00+00:00");
    finish_subtask_at(&mut store, &task.id, "c", 100, "2023-11-12T09:00:00+00:00");
    let m = store.get_general_metrics_at(TODAY_SECS);
    let best = m.best_day.expect("a best day");
    assert_eq!(best.date, "2023-11-12");
    assert_eq!(best.points, 30);
}

#[test]
fn a_fully_done_big_task_adds_its_bonus_to_its_completion_day() {
    let mut store = Store::new();
    let task = store.create_task("t".to_string(), None).unwrap();
    for i in 0..5 {
        finish_subtask_at(
            &mut store,
            &task.id,
            &format!("s{}", i),
            100,
            "2023-11-14T10:00:00+00:00",
        );
    }
    // mark the task itself done on the same day
    store
        .update_task_status_at(&task.id, "done", "2023-11-14T18:00:00+00:00".to_string())
        .unwrap();
    let m = store.get_general_metrics_at(TODAY_SECS);
    assert_eq!(m.total_points, 5 * 15 + 20);
    assert_eq!(m.points_today, 5 * 15 + 20);
    assert_eq!(m.total_tasks_completed, 1);
    assert_eq!(m.total_subtasks_completed, 5);
}

#[test]
fn unfinished_tasks_bucket_no_bonus() {
    let mut store = Store::new();
    let task = store.create_task("t".to_string(), None).unwrap();
    for i in 0..5 {
        finish_subtask_at(
            &mut store,
            &task.id,
            &format!("s{}", i),
            100,
            "2023-11-14T10:00:00+00:00",
        );
    }
    // the task itself was never marked done: the bonus counts in the total
    // but lands in no daily bucket
    let m = store.get_general_metrics_at(TODAY_SECS);
    assert_eq!(m.total_points, 5 * 15 + 20);
    assert_eq!(m.points_today, 5 * 15);
    assert_eq!(m.total_tasks_completed, 0);
}

#[test]
fn the_wall_clock_variant_reports_a_full_series() {
    let store = Store::new();
    let m = store.get_general_metrics().unwrap();
    assert_eq!(m.points_last_7_days.len(), 7);
    assert_eq!(m.total_points, 0);
}
