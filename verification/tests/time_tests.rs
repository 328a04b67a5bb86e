use chrono::{Duration, Utc};
use ghdash::timefmt::{relative_time, relative_time_at};

#[test]
fn test_just_now() {
    let now = Utc::now();
    assert_eq!(relative_time(now.timestamp()), "just now");
}

#[test]
fn test_seconds_ago() {
    let t = Utc::now() - Duration::seconds(30);
    assert_eq!(relative_time(t.timestamp()), "just now");
}

#[test]
fn test_one_minute_ago() {
    let t = Utc::now() - Duration::minutes(1);
    assert_eq!(relative_time(t.timestamp()), "1m ago");
}

#[test]
fn test_minutes_ago() {
    let t = Utc::now() - Duration::minutes(45);
    assert_eq!(relative_time(t.timestamp()), "45m ago");
}

#[test]
fn test_one_hour_ago() {
    let t = Utc::now() - Duration::hours(1);
    assert_eq!(relative_time(t.timestamp()), "1h ago");
}

#[test]
fn test_hours_ago() {
    let t = Utc::now() - Duration::hours(23);
    assert_eq!(relative_time(t.timestamp()), "23h ago");
}

#[test]
fn test_one_day_ago() {
    let t = Utc::now() - Duration::days(1);
    assert_eq!(relative_time(t.timestamp()), "1d ago");
}

#[test]
fn test_days_ago() {
    let t = Utc::now() - Duration::days(15);
    assert_eq!(relative_time(t.timestamp()), "15d ago");
}

#[test]
fn test_one_month_ago() {
    let t = Utc::now() - Duration::days(35);
    assert_eq!(relative_time(t.timestamp()), "1mo ago");
}

#[test]
fn test_months_ago() {
    let t = Utc::now() - Duration::days(200);
    assert_eq!(relative_time(t.timestamp()), "6mo ago");
}

#[test]
fn test_one_year_ago() {
    let t = Utc::now() - Duration::days(400);
    assert_eq!(relative_time(t.timestamp()), "1y ago");
}

#[test]
fn test_years_ago() {
    let t = Utc::now() - Duration::days(1000);
    assert_eq!(relative_time(t.timestamp()), "2y ago");
}

#[test]
fn test_future_timestamp() {
    let t = Utc::now() + Duration::hours(5);
    assert_eq!(relative_time(t.timestamp()), "just now");
}

#[test]
fn test_boundary_59_seconds() {
    let t = Utc::now() - Duration::seconds(59);
    assert_eq!(relative_time(t.timestamp()), "just now");
}

#[test]
fn test_boundary_60_seconds() {
    let t = Utc::now() - Duration::seconds(61);
    assert_eq!(relative_time(t.timestamp()), "1m ago");
}

#[test]
fn test_boundary_59_minutes() {
    let t = Utc::now() - Duration::minutes(59);
    assert_eq!(relative_time(t.timestamp()), "59m ago");
}

#[test]
fn test_boundary_29_days() {
    let t = Utc::now() - Duration::days(29);
    assert_eq!(relative_time(t.timestamp()), "29d ago");
}

#[test]
fn test_boundary_30_days() {
    let t = Utc::now() - Duration::days(30);
    assert_eq!(relative_time(t.timestamp()), "1mo ago");
}

#[test]
fn test_boundary_364_days() {
    let t = Utc::now() - Duration::days(364);
    assert_eq!(relative_time(t.timestamp()), "12mo ago");
}

#[test]
fn test_boundary_365_days() {
    let t = Utc::now() - Duration::days(365);
    assert_eq!(relative_time(t.timestamp()), "1y ago");
}

#[test]
fn test_relative_time_at_exact_values() {
    let now: i64 = 1_700_000_000;
    assert_eq!(relative_time_at(now, now), "just now");
    assert_eq!(relative_time_at(now - 59, now), "just now");
    assert_eq!(relative_time_at(now - 60, now), "1m ago");
    assert_eq!(relative_time_at(now - 45 * 60, now), "45m ago");
    assert_eq!(relative_time_at(now - 3600, now), "1h ago");
    assert_eq!(relative_time_at(now - 23 * 3600, now), "23h ago");
    assert_eq!(relative_time_at(now - 86400, now), "1d ago");
    assert_eq!(relative_time_at(now - 29 * 86400, now), "29d ago");
    assert_eq!(relative_time_at(now - 30 * 86400, now), "1mo ago");
    assert_eq!(relative_time_at(now - 364 * 86400, now), "12mo ago");
    assert_eq!(relative_time_at(now - 365 * 86400, now), "1y ago");
    assert_eq!(relative_time_at(now - 1000 * 86400, now), "2y ago");
    assert_eq!(relative_time_at(now + 3600, now), "just now");
}
