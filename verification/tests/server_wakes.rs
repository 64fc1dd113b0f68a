use family_frame::server::config::PublicWakeDays;
use family_frame::server::wakes::{
    format_public_wake_list, format_wake_days, format_wake_times, parse_wake_list,
    parse_wake_time, sort_dedup, weekly_from_public_days, weekly_from_raw, RawWeeklyWakes,
    WakeTime, WeeklyWakes,
};

fn hhmm(s: &str) -> WakeTime {
    parse_wake_time(s).unwrap()
}

fn strings(v: &[&str]) -> Vec<String> {
    v.iter().map(|s| s.to_string()).collect()
}

#[test]
fn wake_up_rejects_bad_entries() {
    assert!(parse_wake_time("6").is_err());
    assert!(parse_wake_time("24:00").is_err());
    assert!(parse_wake_time("08:60").is_err());
    assert!(parse_wake_time("08:00:00").is_err());
    assert!(parse_wake_time("nope").is_err());
}

#[test]
fn wake_up_errors_name_the_entry() {
    assert_eq!(parse_wake_time(" 6 ").unwrap_err(), "wake-up `6` should be HH:MM");
    assert_eq!(parse_wake_time("x:00").unwrap_err(), "wake-up `x:00` has an invalid hour");
    assert_eq!(parse_wake_time("7:-1").unwrap_err(), "wake-up `7:-1` has an invalid minute");
    assert_eq!(parse_wake_time("24:00").unwrap_err(), "wake-up `24:00` is not a valid time of day");
    assert_eq!(parse_wake_time(" 7 : 30 "), Ok(WakeTime { hour: 7, minute: 30 }));
    assert_eq!(parse_wake_time("+7:05"), Ok(WakeTime { hour: 7, minute: 5 }));
}

#[test]
fn interval_alias_and_wake_up_times_parse() {
    let times = parse_wake_list(&strings(&["06:00", "7:30", "23:15"])).unwrap();
    let week = WeeklyWakes::every_day(&times);
    for day in 0..7 {
        assert_eq!(week.get_index(day), &[hhmm("06:00"), hhmm("07:30"), hhmm("23:15")][..]);
    }
    assert!(week.is_uniform());
    assert!(!week.is_empty());
}

#[test]
fn wake_up_snake_case_alias() {
    let week = weekly_from_raw(RawWeeklyWakes::Daily(strings(&["08:30"]))).unwrap();
    assert_eq!(week.get_index(3), &[hhmm("08:30")][..]);
}

#[test]
fn wake_up_table_parses_per_day() {
    let rows = vec![
        ("monday".to_string(), strings(&["06:30", "15:30"])),
        ("sat".to_string(), strings(&["08:00"])),
        ("sunday".to_string(), strings(&["09:00"])),
        ("tue".to_string(), strings(&["06:30"])),
    ];
    let week = weekly_from_raw(RawWeeklyWakes::Weekly(rows)).unwrap();
    assert!(!week.is_uniform());
    assert_eq!(week.get_index(0), &[hhmm("06:30"), hhmm("15:30")][..]);
    assert_eq!(week.get_index(1), &[hhmm("06:30")][..]);
    assert!(week.get_index(2).is_empty());
    assert_eq!(week.get_index(5), &[hhmm("08:00")][..]);
    assert_eq!(week.get_index(6), &[hhmm("09:00")][..]);
    let days = format_wake_days(&week);
    assert_eq!(days.sat, vec!["08:00"]);
    assert_eq!(format_public_wake_list(&week), vec!["06:30", "08:00", "09:00", "15:30"]);
}

#[test]
fn wake_up_table_rejects_unknown_day() {
    let rows = vec![("fun".to_string(), strings(&["08:00"]))];
    assert_eq!(
        weekly_from_raw(RawWeeklyWakes::Weekly(rows)).err().unwrap(),
        "unknown wake-up day `fun` (use mon, tue, wed, thu, fri, sat, sun)"
    );
    let rows = vec![
        ("Mon.".to_string(), strings(&["08:00"])),
        ("monday".to_string(), strings(&["09:00"])),
    ];
    assert_eq!(
        weekly_from_raw(RawWeeklyWakes::Weekly(rows)).err().unwrap(),
        "wake-up day `monday` specified more than once"
    );
}

#[test]
fn day_keys() {
    assert_eq!(WeeklyWakes::parse_day_key(" THURS. "), Ok(3));
    assert_eq!(WeeklyWakes::parse_day_key("sun"), Ok(6));
    assert!(WeeklyWakes::parse_day_key("weekend").is_err());
}

#[test]
fn lists_sort_and_drop_repeats() {
    let v = sort_dedup(&[hhmm("9:00"), hhmm("06:30"), hhmm("09:00")]);
    assert_eq!(v, vec![hhmm("06:30"), hhmm("09:00")]);
    assert_eq!(format_wake_times(&v), vec!["06:30", "09:00"]);
    assert!(WeeklyWakes::empty().is_empty());
    assert!(WeeklyWakes::empty().shared_times().unwrap().is_empty());
}

#[test]
fn public_days_round_trip() {
    let d = PublicWakeDays {
        mon: strings(&["07:00", "06:00"]),
        tue: strings(&[]),
        wed: strings(&[]),
        thu: strings(&[]),
        fri: strings(&["07:00"]),
        sat: strings(&[]),
        sun: strings(&[]),
    };
    let week = weekly_from_public_days(&d).unwrap();
    assert_eq!(format_wake_days(&week).mon, vec!["06:00", "07:00"]);
    assert_eq!(format_public_wake_list(&week), vec!["06:00", "07:00"]);
    let bad = PublicWakeDays { sun: strings(&["25:00"]), ..d };
    assert_eq!(weekly_from_public_days(&bad).err().unwrap(), "wake-up `25:00` is not a valid time of day");
}
