use devfocus::models::StoreError;
use devfocus::models::SubtaskStatus;
use devfocus::store::Store;

fn store_with_subtask() -> (Store, String) {
    let mut store = Store::new();
    let task = store.create_task("t".to_string(), None).unwrap();
    let sub = store.create_subtask(&task.id, "s".to_string(), None).unwrap();
    (store, sub.id)
}

#[test]
fn from_todo_only_start_is_valid() {
    let (mut store, sid) = store_with_subtask();
    assert_eq!(store.pause_subtask(&sid, 10).err(), Some(StoreError::Conflict));
    assert_eq!(store.resume_subtask(&sid).err(), Some(StoreError::Conflict));
    assert_eq!(store.complete_subtask(&sid, 10).err(), Some(StoreError::Conflict));
    let session = store.start_subtask(&sid).unwrap();
    assert_eq!(session.subtask_id, sid);
    assert_eq!(session.duration_seconds, 0);
    assert_eq!(session.ended_at, None);
}

#[test]
fn from_in_progress_only_pause_or_complete() {
    let (mut store, sid) = store_with_subtask();
    store.start_subtask(&sid).unwrap();
    assert_eq!(store.start_subtask(&sid).err(), Some(StoreError::Conflict));
    assert_eq!(store.resume_subtask(&sid).err(), Some(StoreError::Conflict));
    let paused = store.pause_subtask(&sid, 42).unwrap();
    assert_eq!(paused.duration_seconds, 42);
    assert!(paused.paused_at.is_some());
    assert_eq!(paused.ended_at, None);
}

#[test]
fn from_paused_only_resume_or_complete() {
    let (mut store, sid) = store_with_subtask();
    store.start_subtask(&sid).unwrap();
    store.pause_subtask(&sid, 42).unwrap();
    assert_eq!(store.start_subtask(&sid).err(), Some(StoreError::Conflict));
    assert_eq!(store.pause_subtask(&sid, 50).err(), Some(StoreError::Conflict));
    let resumed = store.resume_subtask(&sid).unwrap();
    assert!(resumed.resumed_at.is_some());
    // resuming keeps the accumulated time
    assert_eq!(resumed.duration_seconds, 42);
}

#[test]
fn complete_works_from_paused_too() {
    let (mut store, sid) = store_with_subtask();
    store.start_subtask(&sid).unwrap();
    store.pause_subtask(&sid, 42).unwrap();
    let done = store.complete_subtask(&sid, 50).unwrap();
    assert_eq!(done.subtask.status, SubtaskStatus::Done);
    assert!(done.subtask.completed_at.is_some());
    assert_eq!(done.time_spent_seconds, 50);
}

#[test]
fn done_is_terminal() {
    let (mut store, sid) = store_with_subtask();
    store.start_subtask(&sid).unwrap();
    store.complete_subtask(&sid, 10).unwrap();
    assert_eq!(store.start_subtask(&sid).err(), Some(StoreError::Conflict));
    assert_eq!(store.pause_subtask(&sid, 20).err(), Some(StoreError::Conflict));
    assert_eq!(store.resume_subtask(&sid).err(), Some(StoreError::Conflict));
    assert_eq!(store.complete_subtask(&sid, 20).err(), Some(StoreError::Conflict));
}

#[test]
fn transitions_on_missing_subtasks() {
    let mut store = Store::new();
    assert_eq!(store.start_subtask("ghost").err(), Some(StoreError::NotFound));
    assert_eq!(store.pause_subtask("ghost", 1).err(), Some(StoreError::NotFound));
    assert_eq!(store.resume_subtask("ghost").err(), Some(StoreError::NotFound));
    assert_eq!(store.complete_subtask("ghost", 1).err(), Some(StoreError::NotFound));
    assert_eq!(
        store.update_session_duration("ghost", 1).err(),
        Some(StoreError::NotFound)
    );
}

#[test]
fn elapsed_time_is_validated() {
    let (mut store, sid) = store_with_subtask();
    store.start_subtask(&sid).unwrap();
    assert_eq!(store.pause_subtask(&sid, -1).err(), Some(StoreError::Validation));
    assert_eq!(
        store.pause_subtask(&sid, 32_000_000).err(),
        Some(StoreError::Validation)
    );
    assert_eq!(store.complete_subtask(&sid, -7).err(), Some(StoreError::Validation));
}

#[test]
fn accumulated_time_never_shrinks() {
    let (mut store, sid) = store_with_subtask();
    store.start_subtask(&sid).unwrap();
    store.update_session_duration(&sid, 100).unwrap();
    assert_eq!(store.pause_subtask(&sid, 99).err(), Some(StoreError::Validation));
    assert_eq!(
        store.update_session_duration(&sid, 50).err(),
        Some(StoreError::Validation)
    );
    let paused = store.pause_subtask(&sid, 100).unwrap();
    assert_eq!(paused.duration_seconds, 100);
}

#[test]
fn update_session_duration_needs_a_running_session() {
    let (mut store, sid) = store_with_subtask();
    assert_eq!(
        store.update_session_duration(&sid, 10).err(),
        Some(StoreError::Conflict)
    );
    store.start_subtask(&sid).unwrap();
    store.update_session_duration(&sid, 10).unwrap();
    store.complete_subtask(&sid, 10).unwrap();
    assert_eq!(
        store.update_session_duration(&sid, 20).err(),
        Some(StoreError::Conflict)
    );
}

#[test]
fn completing_closes_the_session() {
    let (mut store, sid) = store_with_subtask();
    store.start_subtask(&sid).unwrap();
    let done = store.complete_subtask(&sid, 77).unwrap();
    assert_eq!(done.subtask.total_time_seconds, Some(77));
    let (sub, session) = store.get_subtask_with_session(&sid).unwrap();
    assert_eq!(sub.status, SubtaskStatus::Done);
    assert_eq!(session, None);
    assert_eq!(sub.total_time_seconds, Some(77));
}
