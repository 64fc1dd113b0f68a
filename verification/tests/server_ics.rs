use family_frame::server::dates::Date;
use family_frame::server::ics::parse_events;
use family_frame::server::model::EVENT_TITLE_MAX_CHARS;

const SAMPLE: &str = r#"BEGIN:VCALENDAR
VERSION:2.0
BEGIN:VEVENT
DTSTART:20260912T090000Z
DTEND:20260912T100000Z
SUMMARY:School run
DESCRIPTION:Alex
END:VEVENT
BEGIN:VEVENT
DTSTART;VALUE=DATE:20260913
SUMMARY:Swim
END:VEVENT
END:VCALENDAR
"#;

const PICKUP: &str = r#"BEGIN:VCALENDAR
VERSION:2.0
BEGIN:VEVENT
SUMMARY:Antoine - Pick-up Armand
DTSTART;TZID=Europe/London:20260910T151500
DTEND;TZID=Europe/London:20260910T154500
UID:0951A873-1F9C-40DB-817F-E554BB287C49
RRULE:FREQ=WEEKLY;BYDAY=TH;WKST=SU
STATUS:CONFIRMED
END:VEVENT
END:VCALENDAR
"#;

fn day(y: i32, m: u32, d: u32) -> Date {
    Date { year: y, month: m, day: d }
}

#[test]
fn parses_timed_and_all_day_events() {
    let events = parse_events(SAMPLE, "UTC", day(2026, 9, 12), 7).unwrap();
    assert_eq!(events[0].title, "School run");
    assert_eq!(events[0].start, "09:00");
    assert!(!events[0].recurring);
    assert_eq!(events[1].title, "Swim");
    assert!(events[1].all_day);
    assert!(!events[1].recurring);
}

#[test]
fn long_gmail_invite_keeps_truncated_title_only() {
    let ics = r#"BEGIN:VCALENDAR
VERSION:2.0
BEGIN:VEVENT
DTSTART:20260913T090000Z
SUMMARY:Your event was created from an email that you received in Gmail. https://mail.google.com/mail?extsrc=cal&plid=ACUX6DC00
DESCRIPTION:Book MOT\nPlease confirm the garage slot.\n\nhttps://mail.google.com/mail?extsrc=cal&plid=ACUX6DC00
END:VEVENT
END:VCALENDAR
"#;
    let events = parse_events(ics, "UTC", day(2026, 9, 13), 1).unwrap();
    assert_eq!(events.len(), 1);
    assert!(!events[0].title.contains("https://"));
    assert!(!events[0].title.contains("Book MOT"));
    assert!(events[0].title.ends_with('…'));
    assert!(events[0].title.chars().count() <= EVENT_TITLE_MAX_CHARS);
    assert!(events[0].title.starts_with("Your event was created"));
}

#[test]
fn weekly_rrule_shows_later_thursdays() {
    let events = parse_events(PICKUP, "Europe/London", day(2026, 9, 17), 1).unwrap();
    assert_eq!(events.len(), 1);
    assert_eq!(events[0].title, "Antoine - Pick-up Armand");
    assert_eq!(events[0].start, "15:15");
    assert_eq!(events[0].date, "2026-09-17");
    assert_eq!(events[0].day_label, "Today");
    assert!(events[0].recurring);
}

#[test]
fn weekly_rrule_expands_across_horizon() {
    let events = parse_events(PICKUP, "Europe/London", day(2026, 9, 17), 15).unwrap();
    let dates: Vec<_> = events.iter().map(|e| e.date.as_str()).collect();
    assert_eq!(dates, ["2026-09-17", "2026-09-24", "2026-10-01"]);
}

#[test]
fn weekly_rrule_respects_exdate() {
    let ics = r#"BEGIN:VCALENDAR
VERSION:2.0
BEGIN:VEVENT
SUMMARY:Antoine - Pick-up Armand
DTSTART;TZID=Europe/London:20260910T151500
UID:0951A873-1F9C-40DB-817F-E554BB287C49
RRULE:FREQ=WEEKLY;BYDAY=TH;WKST=SU
EXDATE;TZID=Europe/London:20260917T151500
END:VEVENT
END:VCALENDAR
"#;
    let events = parse_events(ics, "Europe/London", day(2026, 9, 17), 1).unwrap();
    assert!(events.is_empty());
}

#[test]
fn recurrence_id_override_replaces_instance() {
    let ics = r#"BEGIN:VCALENDAR
VERSION:2.0
BEGIN:VEVENT
SUMMARY:Antoine - Pick-up Armand
DTSTART;TZID=Europe/London:20260910T151500
UID:0951A873-1F9C-40DB-817F-E554BB287C49
RRULE:FREQ=WEEKLY;BYDAY=TH;WKST=SU
END:VEVENT
BEGIN:VEVENT
SUMMARY:Pick-up moved
DTSTART;TZID=Europe/London:20260917T160000
UID:0951A873-1F9C-40DB-817F-E554BB287C49
RECURRENCE-ID;TZID=Europe/London:20260917T151500
END:VEVENT
END:VCALENDAR
"#;
    let events = parse_events(ics, "Europe/London", day(2026, 9, 17), 1).unwrap();
    assert_eq!(events.len(), 1);
    assert_eq!(events[0].title, "Pick-up moved");
    assert_eq!(events[0].start, "16:00");
    assert!(events[0].recurring);
}

#[test]
fn cancelled_recurrence_instance_is_omitted() {
    let ics = r#"BEGIN:VCALENDAR
VERSION:2.0
BEGIN:VEVENT
SUMMARY:Antoine - Pick-up Armand
DTSTART;TZID=Europe/London:20260910T151500
UID:0951A873-1F9C-40DB-817F-E554BB287C49
RRULE:FREQ=WEEKLY;BYDAY=TH;WKST=SU
END:VEVENT
BEGIN:VEVENT
SUMMARY:Antoine - Pick-up Armand
DTSTART;TZID=Europe/London:20260917T151500
UID:0951A873-1F9C-40DB-817F-E554BB287C49
RECURRENCE-ID;TZID=Europe/London:20260917T151500
STATUS:CANCELLED
END:VEVENT
END:VCALENDAR
"#;
    let events = parse_events(ics, "Europe/London", day(2026, 9, 17), 1).unwrap();
    assert!(events.is_empty());
}

#[test]
fn rdate_adds_extra_days_in_order() {
    let ics = r#"BEGIN:VCALENDAR
VERSION:2.0
BEGIN:VEVENT
SUMMARY:Zoo trip
DTSTART:20260918T100000Z
RDATE:20260914T100000Z,20260916T080000Z
END:VEVENT
BEGIN:VEVENT
SUMMARY:Art club
DTSTART:20260916T080000Z
END:VEVENT
END:VCALENDAR
"#;
    let events = parse_events(ics, "UTC", day(2026, 9, 14), 7).unwrap();
    let rows: Vec<_> = events.iter().map(|e| (e.date.as_str(), e.start.as_str(), e.title.as_str())).collect();
    assert_eq!(
        rows,
        [
            ("2026-09-14", "10:00", "Zoo trip"),
            ("2026-09-16", "08:00", "Art club"),
            ("2026-09-16", "08:00", "Zoo trip"),
            ("2026-09-18", "10:00", "Zoo trip"),
        ]
    );
    assert!(events[0].recurring);
    assert!(!events[1].recurring);
    assert_eq!(events[0].day_label, "Today");
    assert_eq!(events[1].day_label, "Wed 16");
}

#[test]
fn events_outside_the_window_and_cancelled_ones_are_dropped() {
    let ics = r#"BEGIN:VCALENDAR
VERSION:2.0
BEGIN:VEVENT
SUMMARY:Before
DTSTART:20260913T235959Z
END:VEVENT
BEGIN:VEVENT
SUMMARY:Called off
DTSTART:20260914T120000Z
STATUS:CANCELLED
END:VEVENT
BEGIN:VEVENT
SUMMARY:Kept
DTSTART:20260914T000000Z
END:VEVENT
BEGIN:VEVENT
DTSTART:20260914T130000Z
END:VEVENT
BEGIN:VEVENT
SUMMARY:After
DTSTART:20260915T000000Z
END:VEVENT
END:VCALENDAR
"#;
    let events = parse_events(ics, "UTC", day(2026, 9, 14), 1).unwrap();
    assert_eq!(events.len(), 1);
    assert_eq!(events[0].title, "Kept");
    assert_eq!(events[0].start, "00:00");
}

#[test]
fn local_zone_moves_utc_times() {
    // 23:30 UTC on 13 Sep is 00:30 on 14 Sep in London (BST).
    let ics = r#"BEGIN:VCALENDAR
VERSION:2.0
BEGIN:VEVENT
SUMMARY:Late call
DTSTART:20260913T233000Z
END:VEVENT
END:VCALENDAR
"#;
    let events = parse_events(ics, "Europe/London", day(2026, 9, 14), 1).unwrap();
    assert_eq!(events.len(), 1);
    assert_eq!(events[0].start, "00:30");
    assert_eq!(events[0].date, "2026-09-14");
}

#[test]
fn parse_errors_and_unknown_zones_are_reported() {
    let err = parse_events("not a calendar", "UTC", day(2026, 9, 14), 1).unwrap_err();
    assert!(err.starts_with("parsing ICS: "));
    let err = parse_events(SAMPLE, "Nowhere/Special", day(2026, 9, 14), 1).unwrap_err();
    assert_eq!(err, "invalid start date");
}

const FLOATING: &str = r#"BEGIN:VCALENDAR
VERSION:2.0
BEGIN:VEVENT
SUMMARY:Piano lesson with a long title that will not fit on one calendar row
DTSTART:20260910T170000
UID:floating-series
RRULE:FREQ=DAILY
END:VEVENT
BEGIN:VEVENT
SUMMARY:Cancelled series
DTSTART:20260910T080000
UID:gone
RRULE:FREQ=DAILY
STATUS:CANCELLED
END:VEVENT
END:VCALENDAR
"#;

#[test]
fn floating_series_rows_stay_in_window_with_cut_titles() {
    let events = parse_events(FLOATING, "Europe/London", day(2026, 9, 12), 3).unwrap();
    assert!(!events.is_empty());
    for e in &events {
        assert!(e.date.as_str() >= "2026-09-12" && e.date.as_str() <= "2026-09-14", "{}", e.date);
        assert!(e.title.starts_with("Piano lesson"));
        assert!(e.title.ends_with('…'));
        assert!(e.title.chars().count() <= EVENT_TITLE_MAX_CHARS);
    }
}
