use devfocus::models::StoreError;
use devfocus::models::SubtaskStatus;
use devfocus::models::TaskStatus;

#[test]
fn task_status_round_trips() {
    assert_eq!(TaskStatus::Todo.as_str(), "todo");
    assert_eq!(TaskStatus::InProgress.as_str(), "in_progress");
    assert_eq!(TaskStatus::Done.as_str(), "done");
    assert_eq!(TaskStatus::from_str("todo"), TaskStatus::Todo);
    assert_eq!(TaskStatus::from_str("in_progress"), TaskStatus::InProgress);
    assert_eq!(TaskStatus::from_str("done"), TaskStatus::Done);
}

#[test]
fn task_status_loose_reader_coerces_unknown_to_todo() {
    assert_eq!(TaskStatus::from_str("finished"), TaskStatus::Todo);
    assert_eq!(TaskStatus::from_str(""), TaskStatus::Todo);
}

#[test]
fn task_status_strict_reader_rejects_unknown() {
    assert_eq!(TaskStatus::try_from_str("todo"), Some(TaskStatus::Todo));
    assert_eq!(
        TaskStatus::try_from_str("in_progress"),
        Some(TaskStatus::InProgress)
    );
    assert_eq!(TaskStatus::try_from_str("done"), Some(TaskStatus::Done));
    assert_eq!(TaskStatus::try_from_str("finished"), None);
    assert_eq!(TaskStatus::try_from_str(""), None);
    assert_eq!(TaskStatus::try_from_str("DONE"), None);
}

#[test]
fn subtask_status_round_trips() {
    assert_eq!(SubtaskStatus::Todo.as_str(), "todo");
    assert_eq!(SubtaskStatus::InProgress.as_str(), "in_progress");
    assert_eq!(SubtaskStatus::Paused.as_str(), "paused");
    assert_eq!(SubtaskStatus::Done.as_str(), "done");
    assert_eq!(SubtaskStatus::from_str("paused"), SubtaskStatus::Paused);
    assert_eq!(SubtaskStatus::from_str("done"), SubtaskStatus::Done);
    assert_eq!(SubtaskStatus::from_str("nonsense"), SubtaskStatus::Todo);
}

#[test]
fn error_kinds_have_short_texts() {
    assert_eq!(StoreError::NotFound.as_str(), "not found");
    assert_eq!(StoreError::Conflict.as_str(), "conflict");
    assert_eq!(StoreError::StoreUnavailable.as_str(), "store unavailable");
    assert_eq!(StoreError::Validation.as_str(), "validation");
}
