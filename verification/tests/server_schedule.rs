use chrono::{NaiveDate, TimeZone, Utc};
use family_frame::server::frame::UtcStamp;
use family_frame::server::schedule::{
    drift_pair, instant_after, is_timer_wake, seconds_until_next_poll, seconds_until_next_poll_for_timer,
};
use family_frame::server::wakes::{parse_wake_time, WakeTime, WeeklyWakes};

const LONDON: &str = "Europe/London";

fn t(hhmm: &str) -> WakeTime {
    parse_wake_time(hhmm).unwrap()
}

fn daily(times: &[&str]) -> WeeklyWakes {
    let v: Vec<WakeTime> = times.iter().copied().map(t).collect();
    WeeklyWakes::every_day(&v)
}

fn weekly(pairs: &[(&str, &[&str])]) -> WeeklyWakes {
    let mut days: Vec<Vec<WakeTime>> = vec![Vec::new(); 7];
    for (key, times) in pairs {
        let idx = WeeklyWakes::parse_day_key(key).unwrap();
        days[idx] = times.iter().copied().map(t).collect();
    }
    WeeklyWakes::from_days(days)
}

fn stamp<T: TimeZone>(dt: chrono::DateTime<T>) -> UtcStamp {
    let utc = dt.with_timezone(&Utc);
    UtcStamp { secs: utc.timestamp(), nanos: utc.timestamp_subsec_nanos() }
}

fn at_london(y: i32, month: u32, d: u32, h: u32, min: u32, s: u32) -> UtcStamp {
    stamp(chrono_tz::Europe::London.with_ymd_and_hms(y, month, d, h, min, s).unwrap())
}

#[test]
fn empty_wake_ups_use_interval() {
    let now = at_london(2026, 9, 16, 12, 0, 0);
    assert_eq!(seconds_until_next_poll(now, LONDON, 3600, &WeeklyWakes::empty()), 3600);
    assert_eq!(seconds_until_next_poll(now, LONDON, 0, &WeeklyWakes::empty()), 1);
}

#[test]
fn next_slot_later_today() {
    let now = at_london(2026, 9, 16, 12, 0, 0);
    let wakes = daily(&["06:00", "15:00", "23:15"]);
    assert_eq!(seconds_until_next_poll(now, LONDON, 3600, &wakes), 3 * 3600);
}

#[test]
fn unsorted_times_still_pick_next() {
    let now = at_london(2026, 9, 16, 12, 0, 0);
    let wakes = daily(&["23:15", "06:00", "15:00"]);
    assert_eq!(seconds_until_next_poll(now, LONDON, 3600, &wakes), 3 * 3600);
}

#[test]
fn wraps_past_last_slot_to_tomorrow() {
    let now = at_london(2026, 9, 16, 23, 30, 0);
    let wakes = daily(&["06:00", "23:15"]);
    assert_eq!(seconds_until_next_poll(now, LONDON, 3600, &wakes), 6 * 3600 + 30 * 60);
}

#[test]
fn skips_the_slot_already_in_progress() {
    let now = at_london(2026, 9, 16, 6, 0, 0);
    let wakes = daily(&["06:00", "07:00"]);
    assert_eq!(seconds_until_next_poll(now, LONDON, 3600, &wakes), 3600);
}

#[test]
fn single_daily_time_sleeps_until_tomorrow() {
    let now = at_london(2026, 9, 16, 6, 0, 5);
    let wakes = daily(&["06:00"]);
    assert_eq!(seconds_until_next_poll(now, LONDON, 3600, &wakes), 24 * 3600 - 5);
}

#[test]
fn before_first_slot_same_day() {
    let now = at_london(2026, 9, 16, 5, 0, 0);
    let wakes = daily(&["06:00", "07:00"]);
    assert_eq!(seconds_until_next_poll(now, LONDON, 3600, &wakes), 3600);
}

#[test]
fn spring_forward_skips_missing_local_time() {
    // 29 Mar 2026: 01:00 GMT becomes 02:00 BST, so 01:30 does not exist.
    let now = at_london(2026, 3, 29, 0, 30, 0);
    let wakes = daily(&["01:30", "03:00"]);
    assert_eq!(seconds_until_next_poll(now, LONDON, 3600, &wakes), 90 * 60);
}

#[test]
fn autumn_ambiguity_picks_the_earlier_offset() {
    // 25 Oct 2026: 02:00 BST becomes 01:00 GMT; 01:30 occurs twice, the first wins.
    let midnight = NaiveDate::from_ymd_opt(2026, 10, 25).unwrap().and_hms_opt(0, 0, 0).unwrap();
    let now = stamp(chrono_tz::Europe::London.from_local_datetime(&midnight).earliest().unwrap());
    let wakes = daily(&["01:30"]);
    assert_eq!(seconds_until_next_poll(now, LONDON, 3600, &wakes), 90 * 60);
}

#[test]
fn timer_early_for_assigned_slot_sleeps_until_the_next() {
    let now = at_london(2026, 9, 16, 5, 55, 0);
    let assigned = at_london(2026, 9, 16, 6, 0, 0);
    let wakes = daily(&["06:00", "07:00"]);
    assert_eq!(
        seconds_until_next_poll_for_timer(now, LONDON, 3600, &wakes, Some(assigned)),
        65 * 60
    );
    // No stored slot: wait for 06:00 rather than guessing.
    assert_eq!(seconds_until_next_poll_for_timer(now, LONDON, 3600, &wakes, None), 5 * 60);
}

#[test]
fn timer_long_before_assigned_slot_still_counts() {
    let now = at_london(2026, 9, 16, 5, 20, 0);
    let assigned = at_london(2026, 9, 16, 6, 0, 0);
    let wakes = daily(&["06:00", "07:00"]);
    assert_eq!(
        seconds_until_next_poll_for_timer(now, LONDON, 3600, &wakes, Some(assigned)),
        100 * 60
    );
}

#[test]
fn timer_late_for_assigned_slot_still_sleeps_until_the_next() {
    let now = at_london(2026, 9, 16, 6, 5, 0);
    let assigned = at_london(2026, 9, 16, 6, 0, 0);
    let wakes = daily(&["06:00", "07:00"]);
    assert_eq!(
        seconds_until_next_poll_for_timer(now, LONDON, 3600, &wakes, Some(assigned)),
        55 * 60
    );
}

#[test]
fn timer_after_the_following_slot_schedules_from_now() {
    let now = at_london(2026, 9, 16, 7, 5, 0);
    let assigned = at_london(2026, 9, 16, 6, 0, 0);
    let wakes = daily(&["06:00", "07:00", "08:00"]);
    assert_eq!(
        seconds_until_next_poll_for_timer(now, LONDON, 3600, &wakes, Some(assigned)),
        55 * 60
    );
}

#[test]
fn timer_on_time_does_not_skip_the_following_close_slot() {
    let now = at_london(2026, 9, 16, 8, 50, 0);
    let assigned = now;
    let wakes = daily(&["08:50", "08:51", "08:55"]);
    assert_eq!(seconds_until_next_poll_for_timer(now, LONDON, 3600, &wakes, Some(assigned)), 60);
}

#[test]
fn timer_slightly_late_does_not_skip_the_next_close_slot() {
    let now = at_london(2026, 9, 16, 8, 50, 30);
    let assigned = at_london(2026, 9, 16, 8, 50, 0);
    let wakes = daily(&["08:50", "08:51", "08:55"]);
    assert_eq!(seconds_until_next_poll_for_timer(now, LONDON, 3600, &wakes, Some(assigned)), 30);
}

#[test]
fn timer_early_for_a_close_slot_uses_the_commanded_wake() {
    let now = at_london(2026, 9, 16, 8, 50, 50);
    let assigned = at_london(2026, 9, 16, 8, 51, 0);
    let wakes = daily(&["08:50", "08:51", "08:55"]);
    assert_eq!(
        seconds_until_next_poll_for_timer(now, LONDON, 3600, &wakes, Some(assigned)),
        4 * 60 + 10
    );
}

#[test]
fn timer_interval_keeps_cadence_when_early_or_late() {
    let assigned = at_london(2026, 9, 16, 13, 0, 0);
    assert_eq!(
        seconds_until_next_poll_for_timer(
            at_london(2026, 9, 16, 12, 58, 0),
            LONDON,
            3600,
            &WeeklyWakes::empty(),
            Some(assigned)
        ),
        3600 + 2 * 60
    );
    assert_eq!(
        seconds_until_next_poll_for_timer(
            at_london(2026, 9, 16, 13, 2, 0),
            LONDON,
            3600,
            &WeeklyWakes::empty(),
            Some(assigned)
        ),
        58 * 60
    );
}

#[test]
fn friday_evening_uses_saturday_times() {
    // 18 Sep 2026 is a Friday.
    let now = at_london(2026, 9, 18, 22, 0, 0);
    let wakes = weekly(&[
        ("mon", &["06:30"]),
        ("tue", &["06:30"]),
        ("wed", &["06:30"]),
        ("thu", &["06:30"]),
        ("fri", &["06:30", "15:30"]),
        ("sat", &["08:00"]),
        ("sun", &["08:30"]),
    ]);
    assert_eq!(seconds_until_next_poll(now, LONDON, 3600, &wakes), 10 * 3600);
}

#[test]
fn empty_saturday_wraps_to_sunday() {
    // 19 Sep 2026 is a Saturday.
    let now = at_london(2026, 9, 19, 10, 0, 0);
    let wakes = weekly(&[("mon", &["06:30"]), ("fri", &["06:30"]), ("sun", &["09:00"])]);
    assert_eq!(seconds_until_next_poll(now, LONDON, 3600, &wakes), 23 * 3600);
}

#[test]
fn weekday_only_wraps_weekend_to_monday() {
    // Saturday morning, weekdays at 06:30, weekend empty.
    let now = at_london(2026, 9, 19, 8, 0, 0);
    let wakes = weekly(&[
        ("mon", &["06:30"]),
        ("tue", &["06:30"]),
        ("wed", &["06:30"]),
        ("thu", &["06:30"]),
        ("fri", &["06:30"]),
    ]);
    assert_eq!(seconds_until_next_poll(now, LONDON, 3600, &wakes), 46 * 3600 + 30 * 60);
}

#[test]
fn sub_second_now_rounds_the_wait_down() {
    // 16:00:03.475 to 18:00:00 is 7196.525 s, counted as 7196 whole seconds.
    let base = at_london(2026, 9, 16, 16, 0, 3);
    let now = UtcStamp { secs: base.secs, nanos: 475_000_000 };
    let wakes = daily(&["18:00", "21:00"]);
    assert_eq!(seconds_until_next_poll(now, LONDON, 3600, &wakes), 7196);
}

#[test]
fn other_zones_use_their_own_clock() {
    // 12:00 in London is 07:00 in New York on 16 Sep 2026 (EDT).
    let now = at_london(2026, 9, 16, 12, 0, 0);
    let wakes = daily(&["08:00"]);
    assert_eq!(seconds_until_next_poll(now, "America/New_York", 3600, &wakes), 3600);
}

#[test]
fn unknown_zone_has_no_clock_slot() {
    let now = at_london(2026, 9, 16, 12, 0, 0);
    let wakes = daily(&["15:00"]);
    assert_eq!(seconds_until_next_poll(now, "Mars/Olympus", 1800, &wakes), 1800);
}

#[test]
fn instant_after_adds_whole_seconds() {
    let now = UtcStamp { secs: 1_000, nanos: 5 };
    assert_eq!(instant_after(now, 3600), UtcStamp { secs: 4_600, nanos: 5 });
}

#[test]
fn timer_wake_is_case_insensitive() {
    assert!(is_timer_wake("timer"));
    assert!(is_timer_wake("TIMER"));
    assert!(!is_timer_wake("button"));
    assert!(!is_timer_wake("timer "));
}

#[test]
fn drift_pair_needs_two_timer_wakes_on_battery() {
    let t0 = at_london(2026, 9, 16, 12, 0, 0);
    let t1 = at_london(2026, 9, 16, 13, 2, 0);
    assert_eq!(drift_pair("timer", false, 3600, t0, "timer", false, t1), Some((3600, 3720)));
    assert_eq!(drift_pair("timer", false, 3600, t0, "button", false, t1), None);
    assert_eq!(drift_pair("button", false, 3600, t0, "timer", false, t1), None);
    assert_eq!(drift_pair("timer", false, 3600, t0, "timer", true, t1), None);
    assert_eq!(drift_pair("cold", false, 3600, t0, "timer", false, t1), None);
    assert_eq!(drift_pair("timer", false, 0, t0, "timer", false, t1), None);
    assert_eq!(drift_pair("timer", false, 3600, t1, "timer", false, t0), None);
}
