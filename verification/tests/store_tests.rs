use devfocus::models::StoreError;
use devfocus::models::TaskStatus;
use devfocus::store::Store;

#[test]
fn create_task_starts_as_todo() {
    let mut store = Store::new();
    let task = store
        .create_task("write parser".to_string(), Some("notes".to_string()))
        .unwrap();
    assert_eq!(task.title, "write parser");
    assert_eq!(task.description, Some("notes".to_string()));
    assert_eq!(task.status, TaskStatus::Todo);
    assert_eq!(task.completed_at, None);
    assert_eq!(task.created_at, task.updated_at);
}

#[test]
fn create_task_rejects_empty_title() {
    let mut store = Store::new();
    let r = store.create_task(String::new(), None);
    assert_eq!(r, Err(StoreError::Validation));
}

#[test]
fn update_task_status_stamps_completion_exactly_when_done() {
    let mut store = Store::new();
    let task = store.create_task("t".to_string(), None).unwrap();
    let done = store.update_task_status(&task.id, "done").unwrap();
    assert_eq!(done.status, TaskStatus::Done);
    assert!(done.completed_at.is_some());
    let back = store.update_task_status(&task.id, "todo").unwrap();
    assert_eq!(back.status, TaskStatus::Todo);
    assert_eq!(back.completed_at, None);
}

#[test]
fn update_task_status_rejects_unknown_strings() {
    let mut store = Store::new();
    let task = store.create_task("t".to_string(), None).unwrap();
    assert_eq!(
        store.update_task_status(&task.id, "finished"),
        Err(StoreError::Validation)
    );
}

#[test]
fn update_task_status_of_missing_task() {
    let mut store = Store::new();
    assert_eq!(
        store.update_task_status("no-such-id", "done"),
        Err(StoreError::NotFound)
    );
}

#[test]
fn delete_task_cascades_to_subtasks_and_sessions() {
    let mut store = Store::new();
    let task = store.create_task("t".to_string(), None).unwrap();
    let sub = store.create_subtask(&task.id, "s".to_string(), None).unwrap();
    store.start_subtask(&sub.id).unwrap();
    store.delete_task(&task.id).unwrap();
    assert_eq!(store.get_task_with_subtasks(&task.id).err(), Some(StoreError::NotFound));
    assert_eq!(
        store.get_subtask_with_session(&sub.id).err(),
        Some(StoreError::NotFound)
    );
}

#[test]
fn delete_task_of_missing_task() {
    let mut store = Store::new();
    assert_eq!(store.delete_task("ghost"), Err(StoreError::NotFound));
}

#[test]
fn delete_subtask_leaves_the_task() {
    let mut store = Store::new();
    let task = store.create_task("t".to_string(), None).unwrap();
    let sub = store.create_subtask(&task.id, "s".to_string(), None).unwrap();
    store.start_subtask(&sub.id).unwrap();
    store.delete_subtask(&sub.id).unwrap();
    let w = store.get_task_with_subtasks(&task.id).unwrap();
    assert_eq!(w.subtasks.len(), 0);
    assert_eq!(
        store.get_subtask_with_session(&sub.id).err(),
        Some(StoreError::NotFound)
    );
}

#[test]
fn create_subtask_requires_existing_task_and_category() {
    let mut store = Store::new();
    assert_eq!(
        store.create_subtask("ghost", "s".to_string(), None),
        Err(StoreError::NotFound)
    );
    let task = store.create_task("t".to_string(), None).unwrap();
    assert_eq!(
        store.create_subtask(&task.id, "s".to_string(), Some("no-such-category".to_string())),
        Err(StoreError::NotFound)
    );
    assert_eq!(
        store.create_subtask(&task.id, String::new(), None),
        Err(StoreError::Validation)
    );
    let sub = store.create_subtask(&task.id, "s".to_string(), None).unwrap();
    assert_eq!(sub.task_id, task.id);
    assert_eq!(sub.total_time_seconds, Some(0));
}

#[test]
fn category_names_are_case_folded() {
    let mut store = Store::new();
    let cat = store
        .create_category("BackEnd".to_string(), "#10b981".to_string())
        .unwrap();
    assert_eq!(cat.name, "backend");
    assert_eq!(cat.color, "#10b981");
}

#[test]
fn duplicate_category_names_are_rejected_after_folding() {
    let mut store = Store::new();
    store
        .create_category("backend".to_string(), "#10b981".to_string())
        .unwrap();
    assert_eq!(
        store.create_category("BACKEND".to_string(), "#000000".to_string()),
        Err(StoreError::Conflict)
    );
}

#[test]
fn empty_category_name_is_rejected() {
    let mut store = Store::new();
    assert_eq!(
        store.create_category(String::new(), "#fff".to_string()),
        Err(StoreError::Validation)
    );
}

#[test]
fn categories_list_in_name_order() {
    let mut store = Store::new();
    store.create_category("zeta".to_string(), "#1".to_string()).unwrap();
    store.create_category("alpha".to_string(), "#2".to_string()).unwrap();
    store.create_category("Mid".to_string(), "#3".to_string()).unwrap();
    let names: Vec<String> = store.list_categories().into_iter().map(|c| c.name).collect();
    assert_eq!(names, vec!["alpha".to_string(), "mid".to_string(), "zeta".to_string()]);
}

#[test]
fn category_order_follows_the_utf8_bytes() {
    let mut store = Store::new();
    store.create_category("Ärger".to_string(), "#1".to_string()).unwrap();
    store.create_category("zeta".to_string(), "#2".to_string()).unwrap();
    let names: Vec<String> = store.list_categories().into_iter().map(|c| c.name).collect();
    // multi-byte names sort after ASCII ones, as the raw bytes do
    assert_eq!(names, vec!["zeta".to_string(), "ärger".to_string()]);
}

#[test]
fn a_fresh_category_ledger_is_empty_at_level_one() {
    let mut store = Store::new();
    let cat = store.create_category("ops".to_string(), "#4".to_string()).unwrap();
    let ledger = store.get_category_experience(&cat.id).unwrap();
    assert_eq!(ledger.category_id, cat.id);
    assert_eq!(ledger.total_xp, 0);
    assert_eq!(ledger.level, 1);
}

#[test]
fn ledger_of_missing_category() {
    let store = Store::new();
    assert_eq!(
        store.get_category_experience("ghost").err(),
        Some(StoreError::NotFound)
    );
}

#[test]
fn apply_xp_accumulates_and_relevels() {
    let mut store = Store::new();
    let cat = store.create_category("ops".to_string(), "#4".to_string()).unwrap();
    let l1 = store.apply_xp(&cat.id, 250).unwrap();
    assert_eq!(l1.total_xp, 250);
    assert_eq!(l1.level, 2);
    let l2 = store.apply_xp(&cat.id, 150).unwrap();
    assert_eq!(l2.total_xp, 400);
    assert_eq!(l2.level, 3);
}

#[test]
fn apply_xp_rejects_negative_amounts() {
    let mut store = Store::new();
    let cat = store.create_category("ops".to_string(), "#4".to_string()).unwrap();
    assert_eq!(store.apply_xp(&cat.id, -1), Err(StoreError::Validation));
    assert_eq!(store.apply_xp("ghost", 5), Err(StoreError::NotFound));
}

#[test]
fn category_stats_report_progress() {
    let mut store = Store::new();
    let cat = store.create_category("ops".to_string(), "#4".to_string()).unwrap();
    store.apply_xp(&cat.id, 1200).unwrap();
    let stats = store.get_all_category_stats();
    assert_eq!(stats.len(), 1);
    let s = &stats[0];
    assert_eq!(s.category.id, cat.id);
    assert_eq!(s.total_xp, 1200);
    assert_eq!(s.level, 4);
    assert_eq!(s.xp_for_next_level, 1600);
    assert_eq!(s.progress_percentage, 300 * 100 / 700);
}

#[test]
fn category_stats_rank_by_level_then_xp_then_name() {
    let mut store = Store::new();
    let alpha = store.create_category("alpha".to_string(), "#1".to_string()).unwrap();
    let beta = store.create_category("beta".to_string(), "#2".to_string()).unwrap();
    let gamma = store.create_category("gamma".to_string(), "#3".to_string()).unwrap();
    let delta = store.create_category("delta".to_string(), "#4".to_string()).unwrap();
    // beta reaches level 3, gamma level 2; alpha and delta stay at level 1
    store.apply_xp(&beta.id, 400).unwrap();
    store.apply_xp(&gamma.id, 150).unwrap();
    let names: Vec<String> = store
        .get_all_category_stats()
        .into_iter()
        .map(|s| s.category.name)
        .collect();
    assert_eq!(
        names,
        vec![
            "beta".to_string(),
            "gamma".to_string(),
            "alpha".to_string(),
            "delta".to_string(),
        ]
    );
}

#[test]
fn category_stats_break_xp_ties_by_name() {
    let mut store = Store::new();
    store.create_category("zed".to_string(), "#1".to_string()).unwrap();
    let kilo = store.create_category("kilo".to_string(), "#2".to_string()).unwrap();
    store.create_category("echo".to_string(), "#3".to_string()).unwrap();
    // same level, more experience: kilo leads; the level-1 tie goes by name
    store.apply_xp(&kilo.id, 50).unwrap();
    let names: Vec<String> = store
        .get_all_category_stats()
        .into_iter()
        .map(|s| s.category.name)
        .collect();
    assert_eq!(
        names,
        vec!["kilo".to_string(), "echo".to_string(), "zed".to_string()]
    );
}

#[test]
fn seeding_presets_is_idempotent() {
    let mut store = Store::new();
    store.seed_default_categories().unwrap();
    let first: Vec<String> = store.list_categories().into_iter().map(|c| c.name).collect();
    assert_eq!(
        first,
        vec![
            "architecture".to_string(),
            "backend".to_string(),
            "css".to_string(),
            "frontend".to_string(),
            "tailwind".to_string(),
        ]
    );
    store.seed_default_categories().unwrap();
    assert_eq!(store.list_categories().len(), 5);
    // every preset has a fresh ledger
    for cat in store.list_categories() {
        let ledger = store.get_category_experience(&cat.id).unwrap();
        assert_eq!(ledger.total_xp, 0);
        assert_eq!(ledger.level, 1);
    }
}

#[test]
fn seeding_keeps_existing_categories() {
    let mut store = Store::new();
    let mine = store.create_category("backend".to_string(), "#custom".to_string()).unwrap();
    store.seed_default_categories().unwrap();
    let cats = store.list_categories();
    assert_eq!(cats.len(), 5);
    let kept = cats.iter().find(|c| c.name == "backend").unwrap();
    assert_eq!(kept.id, mine.id);
    assert_eq!(kept.color, "#custom");
}
