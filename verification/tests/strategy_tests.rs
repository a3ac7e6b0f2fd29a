use gazpacho::strategy::incremental::Incremental;
use gazpacho::strategy::full::Full;
use gazpacho::strategy::Strategy;

const NOW: u64 = 1717200000;
const DAY: u64 = 86400;

#[test]
fn needs_reset_first_run() {
    let stg = Incremental::new(None, None);
    let first_run = stg.check_if_needs_reset(None, NOW);
    assert_eq!(first_run, true);
}

#[test]
fn within_range_count() {
    let now = NOW;
    let stg = Incremental::new(Some(10), None);
    let needs_reset = stg.check_if_needs_reset(Some((1, now)), now);
    assert_eq!(needs_reset, false);
}

#[test]
fn within_range_duration() {
    let now = NOW;
    let last = now - DAY;
    let max_duration = 2 * DAY;
    let stg = Incremental::new(None, Some(max_duration));
    let needs_reset = stg.check_if_needs_reset(Some((1, last)), now);
    assert_eq!(needs_reset, false);
}

#[test]
fn within_range_both() {
    let now = NOW;
    let last = now - DAY;
    let max_duration = 2 * DAY;
    let stg = Incremental::new(Some(10), Some(max_duration));
    let needs_reset = stg.check_if_needs_reset(Some((1, last)), now);
    assert_eq!(needs_reset, false);
}

#[test]
fn count_ok_duration_not_ok() {
    let now = NOW;
    let last = now - 5 * DAY;
    let max_duration = 2 * DAY;
    let stg = Incremental::new(Some(10), Some(max_duration));
    let needs_reset = stg.check_if_needs_reset(Some((1, last)), now);
    assert_eq!(needs_reset, true);
}

#[test]
fn count_not_ok_duration_ok() {
    let now = NOW;
    let last = now - DAY;
    let max_duration = 2 * DAY;
    let stg = Incremental::new(Some(10), Some(max_duration));
    let needs_reset = stg.check_if_needs_reset(Some((15, last)), now);
    assert_eq!(needs_reset, true);
}

#[test]
fn count_not_ok_duration_not_ok() {
    let now = NOW;
    let last = now - 5 * DAY;
    let max_duration = 2 * DAY;
    let stg = Incremental::new(Some(10), Some(max_duration));
    let needs_reset = stg.check_if_needs_reset(Some((15, last)), now);
    assert_eq!(needs_reset, true);
}

#[test]
fn duration_trigger_is_inclusive() {
    // The duration trigger fires exactly when now - reset_at >= duration.
    let duration: u64 = 7 * DAY;
    let stg = Incremental::new(None, Some(duration));
    let reset_at = NOW;
    assert!(!stg.check_if_needs_reset(Some((3, reset_at)), reset_at + duration - 1));
    assert!(stg.check_if_needs_reset(Some((3, reset_at)), reset_at + duration));
    assert!(stg.check_if_needs_reset(Some((3, reset_at)), reset_at + duration + 1));
}

#[test]
fn runs_before_reset_one_cycles() {
    // runs_before_reset = 1: a non-reset run sets count to 1, which
    // triggers a reset on the next run.
    let stg = Incremental::new(Some(1), None);
    assert!(stg.check_if_needs_reset(None, NOW));
    assert!(!stg.check_if_needs_reset(Some((0, NOW)), NOW));
    assert!(stg.check_if_needs_reset(Some((1, NOW)), NOW + 1));
}

#[test]
fn needs_reset_default_is_false() {
    let full = Strategy::Full(Full {
        zpool: String::from("z"),
        filter: String::from(".*"),
    });
    let incr = Strategy::Incremental(Incremental::new(None, None));
    assert!(!full.needs_reset_default());
    assert!(!incr.needs_reset_default());
}

#[test]
fn zpool_and_filter_come_from_the_strategy() {
    let full = Strategy::Full(Full {
        zpool: String::from("tank"),
        filter: String::from("^tank/a$"),
    });
    let (zpool, filter) = full.get_zpool_and_filter();
    assert_eq!(zpool, "tank");
    assert_eq!(filter, "^tank/a$");
}
