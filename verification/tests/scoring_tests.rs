use devfocus::scoring::points_for_duration;
use devfocus::scoring::xp_for_duration;
use devfocus::store::Store;

#[test]
fn points_formula_around_the_threshold() {
    assert_eq!(points_for_duration(0), 15);
    assert_eq!(points_for_duration(1_499), 15);
    assert_eq!(points_for_duration(1_500), 10);
    assert_eq!(points_for_duration(20_000), 10);
}

#[test]
fn xp_is_one_per_second() {
    assert_eq!(xp_for_duration(0), 0);
    assert_eq!(xp_for_duration(1_499), 1_499);
}

#[test]
fn efficient_completion_earns_the_bonus_and_its_seconds_as_xp() {
    let mut store = Store::new();
    let cat = store.create_category("deep work".to_string(), "#111111".to_string()).unwrap();
    let task = store.create_task("t".to_string(), None).unwrap();
    let sub = store
        .create_subtask(&task.id, "s".to_string(), Some(cat.id.clone()))
        .unwrap();
    store.start_subtask(&sub.id).unwrap();
    let done = store.complete_subtask(&sub.id, 1_499).unwrap();
    assert_eq!(done.points_earned, 15);
    assert_eq!(done.xp_gained, 1_499);
    assert_eq!(done.category.as_ref().map(|c| c.id.clone()), Some(cat.id.clone()));
    let ledger = store.get_category_experience(&cat.id).unwrap();
    assert_eq!(ledger.total_xp, 1_499);
}

#[test]
fn slow_completion_earns_base_points_only() {
    let mut store = Store::new();
    let cat = store.create_category("deep work".to_string(), "#111111".to_string()).unwrap();
    let task = store.create_task("t".to_string(), None).unwrap();
    let sub = store
        .create_subtask(&task.id, "s".to_string(), Some(cat.id.clone()))
        .unwrap();
    store.start_subtask(&sub.id).unwrap();
    let done = store.complete_subtask(&sub.id, 1_500).unwrap();
    assert_eq!(done.points_earned, 10);
    assert_eq!(done.xp_gained, 1_500);
    let ledger = store.get_category_experience(&cat.id).unwrap();
    assert_eq!(ledger.total_xp, 1_500);
}

#[test]
fn completion_without_a_category_moves_no_ledger() {
    let mut store = Store::new();
    let cat = store.create_category("other".to_string(), "#222222".to_string()).unwrap();
    let task = store.create_task("t".to_string(), None).unwrap();
    let sub = store.create_subtask(&task.id, "s".to_string(), None).unwrap();
    store.start_subtask(&sub.id).unwrap();
    let done = store.complete_subtask(&sub.id, 600).unwrap();
    assert_eq!(done.points_earned, 15);
    assert_eq!(done.category, None);
    let ledger = store.get_category_experience(&cat.id).unwrap();
    assert_eq!(ledger.total_xp, 0);
}

#[test]
fn full_journey_from_category_to_releveled_ledger() {
    // create a category, a task and a categorized subtask; work it and
    // finish after 1200 tracked seconds
    let mut store = Store::new();
    let cat = store.create_category("backend".to_string(), "#10b981".to_string()).unwrap();
    let task = store.create_task("ship the api".to_string(), None).unwrap();
    let sub = store
        .create_subtask(&task.id, "handlers".to_string(), Some(cat.id.clone()))
        .unwrap();
    store.start_subtask(&sub.id).unwrap();
    let done = store.complete_subtask(&sub.id, 1_200).unwrap();
    assert_eq!(done.points_earned, 15);
    assert_eq!(done.xp_gained, 1_200);
    let ledger = store.get_category_experience(&cat.id).unwrap();
    assert_eq!(ledger.total_xp, 1_200);
    assert_eq!(ledger.level, 4);
}
