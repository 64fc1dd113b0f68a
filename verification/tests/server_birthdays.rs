use family_frame::server::birthdays::upcoming_events;
use family_frame::server::config::{Birthday, PublicBirthday};
use family_frame::server::dates::{day_number_of, is_valid_date, with_year, Date};
use family_frame::server::ics::day_label;

fn date(year: i32, month: u32, day: u32) -> Date {
    Date { year, month, day }
}

fn person(name: &str, y: i32, m: u32, d: u32) -> Birthday {
    Birthday { name: name.into(), dob: date(y, m, d) }
}

#[test]
fn today_and_two_week_horizon() {
    let today = date(2026, 9, 14);
    let events = upcoming_events(
        &[
            person("Maya", 2018, 9, 14),
            person("Sam", 2015, 9, 28),
            person("Later", 2010, 9, 29),
        ],
        today,
    );
    assert_eq!(events.len(), 2);
    assert_eq!(events[0].title, "Maya turns 8");
    assert_eq!(events[0].day_label, "Today");
    assert!(events[0].birthday);
    assert!(events[0].all_day);
    assert_eq!(events[1].title, "Sam turns 11");
    assert_eq!(events[1].date, "2026-09-28");
}

#[test]
fn wraps_into_next_year_near_new_year() {
    let today = date(2026, 12, 25);
    let events = upcoming_events(&[person("New year baby", 2020, 1, 3)], today);
    assert_eq!(events.len(), 1);
    assert_eq!(events[0].date, "2027-01-03");
    assert_eq!(events[0].title, "New year baby turns 7");
    assert_eq!(events[0].day_label, "3 Jan 2027");
}

#[test]
fn skips_birthdays_already_past_this_year() {
    let today = date(2026, 9, 14);
    let events = upcoming_events(&[person("June", 2012, 6, 1)], today);
    assert!(events.is_empty());
}

#[test]
fn leap_day_falls_back_to_28_feb() {
    let today = date(2027, 2, 20);
    let events = upcoming_events(&[person("Leap", 2016, 2, 29)], today);
    assert_eq!(events.len(), 1);
    assert_eq!(events[0].date, "2027-02-28");
    assert_eq!(events[0].title, "Leap turns 11");
}

#[test]
fn blank_names_are_ignored() {
    let today = date(2026, 9, 14);
    let events = upcoming_events(&[person("  ", 2018, 9, 14)], today);
    assert!(events.is_empty());
}

#[test]
fn coming_next_labels_use_month_when_needed() {
    let today = date(2026, 9, 13);
    assert_eq!(day_label(today, today), "Today");
    assert_eq!(day_label(date(2026, 9, 14), today), "Tomorrow");
    assert_eq!(day_label(date(2026, 9, 17), today), "Thu 17");
    assert_eq!(day_label(date(2026, 10, 3), today), "3 Oct");
    assert_eq!(day_label(date(2027, 1, 15), today), "15 Jan 2027");
    assert_eq!(day_label(date(2027, 1, 1), date(2026, 12, 31)), "Tomorrow");
}

#[test]
fn birthday_string_allows_comma_in_name() {
    let b = Birthday::parse("Maya Jane, Jr.,2018-03-15").unwrap();
    assert_eq!(b.name, "Maya Jane, Jr.");
    assert_eq!(b.dob, date(2018, 3, 15));
}

#[test]
fn birthday_string_rejects_bad_entries() {
    assert!(Birthday::parse("Maya").is_err());
    assert!(Birthday::parse(",2018-03-15").is_err());
    assert!(Birthday::parse("Maya,14-09-2018").is_err());
}

#[test]
fn birthday_errors_quote_the_entry() {
    assert_eq!(
        Birthday::parse(" Maya ").err().unwrap(),
        "birthday `Maya` should be `Name,YYYY-MM-DD`"
    );
    assert_eq!(
        Birthday::parse(" ,2018-03-15").err().unwrap(),
        "birthday `,2018-03-15` is missing a name"
    );
    assert_eq!(
        Birthday::parse("Maya,2018-02-30").err().unwrap(),
        "birthday `Maya,2018-02-30` has an invalid date (use YYYY-MM-DD)"
    );
}

#[test]
fn birthday_entries_round_trip() {
    let b = Birthday::parse(" Bob , 2020-01-02 ").unwrap();
    assert_eq!(b.name, "Bob");
    assert_eq!(b.to_entry(), "Bob,2020-01-02");
    let row = PublicBirthday { name: " Ann ".into(), dob: " 2019-07-04".into() };
    let parsed = row.into_birthday().unwrap();
    assert_eq!(parsed.name, "Ann");
    assert_eq!(parsed.dob, date(2019, 7, 4));
    let back = PublicBirthday::from_birthday(&parsed);
    assert_eq!(back.name, "Ann");
    assert_eq!(back.dob, "2019-07-04");
    assert_eq!(back.into_birthday().unwrap().dob, date(2019, 7, 4));
}

#[test]
fn calendar_days_count_consecutively() {
    assert_eq!(day_number_of(date(2027, 1, 1)) - day_number_of(date(2026, 12, 31)), 1);
    assert_eq!(day_number_of(date(2024, 3, 1)) - day_number_of(date(2024, 2, 29)), 1);
    assert_eq!(day_number_of(date(2001, 1, 1)) - day_number_of(date(2000, 1, 1)), 366);
    assert_eq!(day_number_of(date(1, 1, 1)) - day_number_of(date(0, 12, 31)), 1);
    assert_eq!(day_number_of(date(0, 3, 1)) - day_number_of(date(0, 2, 28)), 2);
    assert!(is_valid_date(2024, 2, 29));
    assert!(!is_valid_date(2100, 2, 29));
    assert!(!is_valid_date(2026, 4, 31));
    assert_eq!(with_year(date(2016, 2, 29), 2027), None);
    assert_eq!(with_year(date(2016, 2, 29), 2028), Some(date(2028, 2, 29)));
}
