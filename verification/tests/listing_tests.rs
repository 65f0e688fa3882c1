use devfocus::models::SubtaskStatus;
use devfocus::models::TaskStatus;
use devfocus::store::Store;

#[test]
fn tasks_list_newest_first() {
    let mut store = Store::new();
    let a = store.create_task("first".to_string(), None).unwrap();
    let b = store.create_task("second".to_string(), None).unwrap();
    let listed = store.list_tasks_with_active_subtasks(None);
    assert_eq!(listed.len(), 2);
    assert_eq!(listed[0].id, b.id);
    assert_eq!(listed[1].id, a.id);
}

#[test]
fn the_status_filter_keeps_matching_tasks_only() {
    let mut store = Store::new();
    let a = store.create_task("open".to_string(), None).unwrap();
    let b = store.create_task("closed".to_string(), None).unwrap();
    store.update_task_status(&b.id, "done").unwrap();
    let done = store.list_tasks_with_active_subtasks(Some("done"));
    assert_eq!(done.len(), 1);
    assert_eq!(done[0].id, b.id);
    assert_eq!(done[0].status, TaskStatus::Done);
    let todo = store.list_tasks_with_active_subtasks(Some("todo"));
    assert_eq!(todo.len(), 1);
    assert_eq!(todo[0].id, a.id);
    let none = store.list_tasks_with_active_subtasks(Some("in_progress"));
    assert_eq!(none.len(), 0);
}

#[test]
fn the_listing_reports_the_running_subtask_and_its_clock() {
    let mut store = Store::new();
    let task = store.create_task("t".to_string(), None).unwrap();
    let sub = store.create_subtask(&task.id, "s".to_string(), None).unwrap();
    store
        .start_subtask_with(&sub.id, "session-1".to_string(), "2023-11-14T12:00:00+00:00".to_string())
        .unwrap();
    // half a minute after the session started
    let now_secs = 1_699_963_200 + 30;
    let listed = store.list_tasks_with_active_subtasks_at(None, now_secs);
    assert_eq!(listed.len(), 1);
    let info = listed[0].active_subtask.as_ref().expect("an active subtask");
    assert_eq!(info.id, sub.id);
    assert_eq!(info.title, "s");
    assert_eq!(info.total_time_seconds, 0);
    assert_eq!(info.current_session_time, Some(30));
}

#[test]
fn tasks_without_running_work_list_no_active_subtask() {
    let mut store = Store::new();
    let task = store.create_task("t".to_string(), None).unwrap();
    let sub = store.create_subtask(&task.id, "s".to_string(), None).unwrap();
    let listed = store.list_tasks_with_active_subtasks(None);
    assert_eq!(listed[0].active_subtask, None);
    store.start_subtask(&sub.id).unwrap();
    store.pause_subtask(&sub.id, 10).unwrap();
    // paused work is not shown as active
    let listed = store.list_tasks_with_active_subtasks(None);
    assert_eq!(listed[0].active_subtask, None);
}

#[test]
fn task_with_subtasks_carries_time_totals() {
    let mut store = Store::new();
    let task = store.create_task("t".to_string(), None).unwrap();
    let a = store.create_subtask(&task.id, "a".to_string(), None).unwrap();
    let b = store.create_subtask(&task.id, "b".to_string(), None).unwrap();
    store.start_subtask(&a.id).unwrap();
    store.complete_subtask(&a.id, 120).unwrap();
    store.start_subtask(&b.id).unwrap();
    let w = store.get_task_with_subtasks(&task.id).unwrap();
    assert_eq!(w.id, task.id);
    assert_eq!(w.subtasks.len(), 2);
    assert_eq!(w.subtasks[0].id, a.id);
    assert_eq!(w.subtasks[0].total_time_seconds, Some(120));
    assert_eq!(w.subtasks[0].status, SubtaskStatus::Done);
    // the running session of b is not historical time yet
    assert_eq!(w.subtasks[1].total_time_seconds, Some(0));
    assert_eq!(w.subtasks[1].status, SubtaskStatus::InProgress);
}

#[test]
fn task_with_subtasks_and_sessions_pairs_each_running_session() {
    let mut store = Store::new();
    let task = store.create_task("t".to_string(), None).unwrap();
    let a = store.create_subtask(&task.id, "a".to_string(), None).unwrap();
    let b = store.create_subtask(&task.id, "b".to_string(), None).unwrap();
    let session = store.start_subtask(&a.id).unwrap();
    let w = store.get_task_with_subtasks_and_sessions(&task.id).unwrap();
    assert_eq!(w.subtasks_with_sessions.len(), 2);
    let first = &w.subtasks_with_sessions[0];
    assert_eq!(first.subtask.id, a.id);
    assert_eq!(first.session.as_ref().map(|x| x.id.clone()), Some(session.id));
    let second = &w.subtasks_with_sessions[1];
    assert_eq!(second.subtask.id, b.id);
    assert_eq!(second.session, None);
}

#[test]
fn subtask_with_session_shows_the_open_session() {
    let mut store = Store::new();
    let task = store.create_task("t".to_string(), None).unwrap();
    let sub = store.create_subtask(&task.id, "s".to_string(), None).unwrap();
    let session = store.start_subtask(&sub.id).unwrap();
    store.pause_subtask(&sub.id, 45).unwrap();
    let (got, open) = store.get_subtask_with_session(&sub.id).unwrap();
    assert_eq!(got.id, sub.id);
    assert_eq!(got.status, SubtaskStatus::Paused);
    let open = open.expect("an open session");
    assert_eq!(open.id, session.id);
    assert_eq!(open.duration_seconds, 45);
}
