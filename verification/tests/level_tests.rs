use devfocus::level::calculate_level;
use devfocus::level::calculate_progress_percentage;
use devfocus::level::calculate_xp_for_level;
use devfocus::level::get_xp_for_next_level;

#[test]
fn level_of_known_totals() {
    assert_eq!(calculate_level(0), 1);
    assert_eq!(calculate_level(100), 2);
    assert_eq!(calculate_level(400), 3);
    assert_eq!(calculate_level(99), 1);
}

#[test]
fn level_of_negative_total_is_one() {
    assert_eq!(calculate_level(-5), 1);
    assert_eq!(calculate_level(i64::MIN), 1);
}

#[test]
fn level_of_more_totals() {
    assert_eq!(calculate_level(1), 1);
    assert_eq!(calculate_level(399), 2);
    assert_eq!(calculate_level(401), 3);
    assert_eq!(calculate_level(1200), 4);
    assert_eq!(calculate_level(10_000), 11);
}

#[test]
fn thresholds_invert_the_level() {
    assert_eq!(calculate_xp_for_level(1), 0);
    assert_eq!(calculate_xp_for_level(2), 100);
    assert_eq!(calculate_xp_for_level(3), 400);
    assert_eq!(calculate_xp_for_level(4), 900);
    assert_eq!(get_xp_for_next_level(1), 100);
    assert_eq!(get_xp_for_next_level(3), 900);
}

#[test]
fn threshold_band_contains_its_totals() {
    // the level of a total always sits between its own threshold and the next
    for xp in [0i64, 1, 99, 100, 101, 399, 400, 1200, 54_321] {
        let level = calculate_level(xp);
        assert!(calculate_xp_for_level(level) <= xp);
        assert!(xp < calculate_xp_for_level(level + 1));
    }
}

#[test]
fn progress_is_zero_at_the_band_start() {
    assert_eq!(calculate_progress_percentage(0, 1), 0);
    assert_eq!(calculate_progress_percentage(100, 2), 0);
    assert_eq!(calculate_progress_percentage(400, 3), 0);
}

#[test]
fn progress_stays_below_hundred_just_under_the_next_band() {
    assert_eq!(calculate_progress_percentage(99, 1), 99);
    assert_eq!(calculate_progress_percentage(399, 2), 99);
    assert!(calculate_progress_percentage(899, 3) < 100);
}

#[test]
fn progress_is_clamped() {
    // below the band floor, and far above the band ceiling
    assert_eq!(calculate_progress_percentage(50, 2), 0);
    assert_eq!(calculate_progress_percentage(10_000, 2), 100);
}

#[test]
fn progress_midway_through_a_band() {
    // level 4 spans 900..1600; 1200 is 300 of 700 through it
    assert_eq!(calculate_progress_percentage(1200, 4), 300 * 100 / 700);
}
