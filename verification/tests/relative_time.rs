use cometix::relative_time::format_relative_time_ago_millis;

const SECOND: i64 = 1000;
const MINUTE: i64 = 60 * SECOND;
const HOUR: i64 = 60 * MINUTE;
const DAY: i64 = 24 * HOUR;

#[test]
fn relative_time_picks_the_largest_unit() {
    let now = 1_800_000_000_000;
    assert_eq!(format_relative_time_ago_millis(now, now), "0s ago");
    assert_eq!(format_relative_time_ago_millis(now - 59 * SECOND, now), "0s ago");
    assert_eq!(format_relative_time_ago_millis(now - MINUTE, now), "1m ago");
    assert_eq!(format_relative_time_ago_millis(now - 3 * HOUR - 5, now), "3h ago");
    assert_eq!(format_relative_time_ago_millis(now - 6 * DAY, now), "6d ago");
    assert_eq!(format_relative_time_ago_millis(now - 7 * DAY, now), "1w ago");
    assert_eq!(format_relative_time_ago_millis(now - 30 * DAY, now), "1mo ago");
    assert_eq!(format_relative_time_ago_millis(now - 365 * DAY, now), "1y ago");
    assert_eq!(format_relative_time_ago_millis(now - 800 * DAY, now), "2y ago");
}

#[test]
fn relative_time_in_the_future() {
    let now = 1_800_000_000_000;
    assert_eq!(format_relative_time_ago_millis(now + 999, now), "0s ago");
    assert_eq!(format_relative_time_ago_millis(now + SECOND, now), "in 0s");
    assert_eq!(format_relative_time_ago_millis(now + 2 * HOUR, now), "in 2h");
    assert_eq!(format_relative_time_ago_millis(now + 14 * DAY, now), "in 2w");
}

#[test]
fn relative_time_extremes_do_not_overflow() {
    assert_eq!(format_relative_time_ago_millis(i64::MIN, i64::MAX), "584942417y ago");
    assert_eq!(format_relative_time_ago_millis(i64::MAX, i64::MIN), "in 584942417y");
}
