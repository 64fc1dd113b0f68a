use chrono::TimeZone;
use family_frame::server::frame::UtcStamp;
use family_frame::server::model::refresh_until_at;
use family_frame::server::model::{
    battery_level, coming_event_capacity, joke_fits_panel, max_today_events,
    truncate_event_title, CalendarEvent, Dashboard, HistoryFact, Joke, RoomClimate, School,
    SchoolItem, SchoolLesson, SchoolWeek, SchoolWeekDay, SchoolWeekTime, StatusLine, TodoItem,
    Weather, EVENT_TITLE_MAX_CHARS, MAX_HISTORY_FACTS, MAX_HOMEWORK_ROWS,
};

fn dashboard(family: &str) -> Dashboard {
    Dashboard {
        family_name: family.into(),
        weekday: String::new(),
        day: String::new(),
        month: String::new(),
        date_long: String::new(),
        date_iso: String::new(),
        saint_title: String::new(),
        saint_name: String::new(),
        today_title: "Today".into(),
        today_ordinal: String::new(),
        events_today: Vec::new(),
        events_coming: Vec::new(),
        todos: Vec::new(),
        todos_more: 0,
        rooms: Vec::new(),
        weather: Weather::default(),
        tube: Vec::new(),
        history: Vec::new(),
        joke: None,
        school: School::default(),
        source_note: String::new(),
        show_school_sections: false,
        has_battery: false,
        battery_pct: 0,
        battery_level: String::new(),
        last_refresh: String::new(),
        next_refresh: String::new(),
    }
}

fn event(date: &str, start: &str, title: &str) -> CalendarEvent {
    CalendarEvent {
        start: start.into(),
        title: title.into(),
        all_day: false,
        day_label: date.into(),
        date: date.into(),
        birthday: false,
        school: false,
        recurring: false,
        bin: false,
    }
}

fn todo(title: &str) -> TodoItem {
    TodoItem {
        title: title.into(),
        done: false,
    }
}

fn history_fact(year: &str, text: &str) -> HistoryFact {
    HistoryFact {
        year: year.into(),
        text: text.into(),
    }
}

fn room(name: &str) -> RoomClimate {
    RoomClimate {
        name: name.into(),
        temperature: "20°".into(),
        humidity: "50%".into(),
        online: true,
    }
}

fn tube_lines(n: usize) -> Vec<StatusLine> {
    (0..n)
        .map(|i| StatusLine {
            id: format!("l{i}"),
            name: format!("Line {i}"),
            status: "Good service".into(),
            severity: "good".into(),
            colour: "black".into(),
        })
        .collect()
}

fn school_hw(when: &str, subject: &str) -> SchoolItem {
    SchoolItem {
        when: when.into(),
        subject: subject.into(),
        detail: String::new(),
        level: String::new(),
    }
}

fn school_grade(when: &str, subject: &str, detail: &str, level: &str) -> SchoolItem {
    SchoolItem {
        when: when.into(),
        subject: subject.into(),
        detail: detail.into(),
        level: level.into(),
    }
}

#[test]
fn short_title_is_unchanged() {
    assert_eq!(
        truncate_event_title("Household waste collection"),
        "Household waste collection"
    );
    // 33 glyphs — fits the Today column at 33px Atkinson.
    assert_eq!(
        truncate_event_title("Household Waste and Recycling Cen"),
        "Household Waste and Recycling Cen"
    );
}

#[test]
fn coming_next_fills_space_left_after_today() {
    assert_eq!(coming_event_capacity(0), 17);
    assert_eq!(coming_event_capacity(1), 17);
    assert_eq!(coming_event_capacity(2), 16);
    assert_eq!(coming_event_capacity(8), 8);
    assert_eq!(max_today_events(), 13);
}

#[test]
fn fit_calendar_keeps_today_and_truncates_coming_next() {
    let mut dash = dashboard("Family");
    dash.events_today = vec![event("2026-09-13", "10:00", "Recycling")];
    dash.events_coming = (1..20)
        .map(|i| event(&format!("2026-09-{:02}", 13 + i), "16:00", "Later"))
        .collect();
    dash.fit_calendar_to_panel();
    assert_eq!(dash.events_today.len(), 1);
    assert_eq!(dash.events_coming.len(), 17);
    assert_eq!(dash.events_coming[0].date, "2026-09-14");
    assert_eq!(dash.events_coming[16].date, "2026-09-30");
}

#[test]
fn calendar_sort_is_stable_for_equal_keys() {
    let mut dash = dashboard("Family");
    let mut a = event("2026-09-13", "09:00", "Same");
    a.day_label = "first".into();
    let mut b = event("2026-09-13", "09:00", "Same");
    b.day_label = "second".into();
    dash.events_today = vec![event("2026-09-13", "10:00", "Late"), a, b];
    dash.fit_calendar_to_panel();
    let labels: Vec<&str> = dash.events_today.iter().map(|e| e.day_label.as_str()).collect();
    assert_eq!(labels, ["first", "second", "2026-09-13"]);
}

#[test]
fn sidebar_keeps_tube_and_house_and_trims_todo_pills() {
    let mut dash = dashboard("Family");
    dash.school.student = "Léa".into();
    dash.school.homework = (0..12)
        .map(|i| school_hw("Mon", &format!("Subject {i}")))
        .collect();
    dash.tube = tube_lines(4);
    dash.rooms = ["A", "B", "C", "D", "E"].into_iter().map(room).collect();
    dash.todos = (0..50).map(|_| todo("Milk")).collect();
    dash.fit_sidebar(true);
    assert_eq!(dash.tube.len(), 4);
    assert_eq!(dash.rooms.len(), 5);
    assert_eq!(dash.school.homework.len(), MAX_HOMEWORK_ROWS);
    assert!(dash.todos.len() > 4, "pills should beat one-per-line packing");
    assert!(dash.todos_more > 0);
    assert_eq!(dash.todos.len() + dash.todos_more, 50);
}

#[test]
fn sidebar_short_todos_share_a_row() {
    let mut dash = dashboard("Family");
    dash.tube = tube_lines(4);
    dash.rooms = ["Kitchen"].into_iter().map(room).collect();
    dash.todos = (0..8).map(|_| todo("Ok")).collect();
    dash.fit_sidebar_to_panel();
    assert_eq!(dash.todos.len(), 8);
    assert_eq!(dash.todos_more, 0);
}

#[test]
fn sidebar_trims_grades_to_fit_above_house() {
    let mut dash = dashboard("Family");
    dash.school.student = "Léa".into();
    dash.school.grades = (0..12)
        .map(|i| school_grade("Fri", "Maths", &format!("{i}/20"), "mid"))
        .collect();
    dash.tube = tube_lines(4);
    dash.rooms = (0..12).map(|i| room(&format!("R{i}"))).collect();
    dash.fit_sidebar(true);
    assert_eq!(dash.rooms.len(), 12);
    assert_eq!(dash.tube.len(), 4);
    assert!(dash.school.grades.len() < 12);
    assert!(!dash.school.grades.is_empty());
}

#[test]
fn sidebar_keeps_school_tube_and_house() {
    let mut dash = dashboard("Family");
    dash.school = School {
        student: "Léa".into(),
        average: "14.2".into(),
        homework: vec![school_hw("Today", "Maths")],
        grades: vec![school_grade("Fri", "French", "15/20", "high")],
        days: Vec::new(),
        week: SchoolWeek::default(),
    };
    dash.tube = tube_lines(4);
    dash.rooms = ["Kitchen"].into_iter().map(room).collect();
    dash.todos = (0..120).map(|_| todo("Milk")).collect();
    dash.fit_sidebar(true);
    assert_eq!(dash.school.homework.len(), 1);
    assert_eq!(dash.school.grades.len(), 1);
    assert_eq!(dash.tube.len(), 4);
    assert_eq!(dash.rooms.len(), 1);
    assert!(dash.todos_more > 0);
    assert_eq!(dash.todos.len() + dash.todos_more, 120);
}

#[test]
fn sidebar_keeps_all_todos_when_they_fit() {
    let mut dash = dashboard("Family");
    dash.tube = tube_lines(4);
    dash.rooms = ["Kitchen"].into_iter().map(room).collect();
    dash.todos = vec![todo("One"), todo("Two")];
    dash.fit_sidebar_to_panel();
    assert_eq!(dash.todos.len(), 2);
    assert_eq!(dash.todos_more, 0);
}

#[test]
fn sidebar_adds_history_facts_that_fit_leftover() {
    let mut dash = dashboard("Family");
    dash.tube = tube_lines(4);
    dash.rooms = ["Kitchen"].into_iter().map(room).collect();
    dash.todos = vec![todo("Milk"), todo("Eggs")];
    dash.history = (1850..1862)
        .map(|year| {
            history_fact(
                &year.to_string(),
                "The New York Times is founded in New York City as the largest metropolitan newspaper in the United States and begins daily publication.",
            )
        })
        .collect();
    dash.fit_sidebar_to_panel();
    assert_eq!(dash.todos.len(), 2);
    assert_eq!(dash.history.len(), MAX_HISTORY_FACTS);
    assert_eq!(dash.history[0].year, "1850");
    assert_eq!(dash.history[4].year, "1854");
}

#[test]
fn sidebar_skips_history_facts_that_need_four_lines() {
    let mut dash = dashboard("Family");
    dash.tube = tube_lines(4);
    dash.rooms = ["Kitchen"].into_iter().map(room).collect();
    dash.todos = vec![todo("Milk")];
    let too_long = "Word ".repeat(80);
    dash.history = vec![
        history_fact("1900", &too_long),
        history_fact("1851", "The New York Times is founded."),
    ];
    dash.fit_sidebar_to_panel();
    assert_eq!(dash.history.len(), 1);
    assert_eq!(dash.history[0].year, "1851");
}

#[test]
fn sidebar_history_is_oldest_first_and_capped() {
    let mut dash = dashboard("Family");
    dash.tube = tube_lines(4);
    dash.rooms = ["Kitchen"].into_iter().map(room).collect();
    dash.todos = vec![todo("Milk")];
    dash.history = vec![
        history_fact("1964", "King Constantine II marries Princess Anne-Marie."),
        history_fact("44 BC", "Julius Caesar is born."),
        history_fact("1851", "The New York Times is founded."),
        history_fact("1879", "Blackpool Illuminations are switched on."),
        history_fact(
            "1948",
            "Australia's Invincibles complete their tour of England.",
        ),
        history_fact("2018", "A science museum opens a new gallery."),
    ];
    dash.fit_sidebar_to_panel();
    let years: Vec<&str> = dash.history.iter().map(|f| f.year.as_str()).collect();
    assert_eq!(years, ["44 BC", "1851", "1879", "1948", "1964"]);
}

#[test]
fn sidebar_keeps_history_above_school_week() {
    let mut dash = dashboard("Family");
    dash.tube = tube_lines(4);
    dash.rooms = ["Kitchen"].into_iter().map(room).collect();
    dash.todos = vec![todo("Milk")];
    dash.joke = Some(Joke {
        setup: "Why don't scientists trust atoms?".into(),
        punchline: "Because they make up everything.".into(),
    });
    dash.history = vec![history_fact("1851", "The New York Times is founded.")];
    dash.school.week = SchoolWeek {
        title: "School - This week".into(),
        days: vec![SchoolWeekDay {
            label: "Fri 18".into(),
            today: true,
            col: 2,
            lessons: vec![SchoolLesson {
                subject: "Maths".into(),
                colour: "#8000FF".into(),
                ink: "#ffffff".into(),
                row_start: 2,
                row_end: 3,
            }],
        }],
        times: vec![
            SchoolWeekTime {
                label: "08:15".into(),
                row: 2,
                end: false,
            },
            SchoolWeekTime {
                label: "09:10".into(),
                row: 3,
                end: false,
            },
        ],
        bands: 1,
    };
    dash.fit_sidebar_to_panel();
    assert_eq!(dash.history.len(), 1);
    assert_eq!(dash.history[0].year, "1851");
    assert_eq!(dash.school.week.title, "School - This week");
    assert!(dash.joke.is_some());
    assert_eq!(dash.todos.len(), 1);
}

#[test]
fn sidebar_keeps_history_when_todos_overflow() {
    let mut dash = dashboard("Family");
    dash.tube = tube_lines(4);
    dash.rooms = (0..12).map(|i| room(&format!("R{i}"))).collect();
    dash.todos = (0..80).map(|_| todo("Milk")).collect();
    dash.history = vec![history_fact("1851", "The New York Times is founded.")];
    dash.fit_sidebar_to_panel();
    assert!(dash.todos_more > 0);
    assert_eq!(dash.history.len(), 1);
}

#[test]
fn sidebar_keeps_joke_between_todos_and_history() {
    let mut dash = dashboard("Family");
    dash.tube = tube_lines(4);
    dash.rooms = ["Kitchen"].into_iter().map(room).collect();
    dash.todos = vec![todo("Milk")];
    dash.joke = Some(Joke {
        setup: "Why don't scientists trust atoms?".into(),
        punchline: "Because they make up everything.".into(),
    });
    dash.history = vec![history_fact("1851", "The New York Times is founded.")];
    dash.fit_sidebar_to_panel();
    assert!(dash.joke.is_some());
    assert_eq!(dash.history.len(), 1);
}

#[test]
fn sidebar_keeps_joke_when_todos_fill_leftover() {
    let mut dash = dashboard("Family");
    dash.tube = tube_lines(4);
    dash.rooms = (0..12).map(|i| room(&format!("R{i}"))).collect();
    dash.todos = (0..80).map(|_| todo("Milk")).collect();
    dash.joke = Some(Joke {
        setup: "What do you call a fake noodle?".into(),
        punchline: "An impasta.".into(),
    });
    dash.history = vec![history_fact("1851", "The New York Times is founded.")];
    dash.fit_sidebar_to_panel();
    assert!(dash.joke.is_some());
    assert!(dash.todos_more > 0);
    assert_eq!(dash.history.len(), 1);
}

#[test]
fn sidebar_drops_a_joke_that_needs_too_many_lines() {
    let mut dash = dashboard("Family");
    dash.tube = tube_lines(4);
    dash.rooms = ["Kitchen"].into_iter().map(room).collect();
    dash.joke = Some(Joke {
        setup: "Word ".repeat(80),
        punchline: String::new(),
    });
    dash.fit_sidebar_to_panel();
    assert!(dash.joke.is_none());
}

#[test]
fn battery_level_thresholds() {
    assert_eq!(battery_level(100), "ok");
    assert_eq!(battery_level(25), "ok");
    assert_eq!(battery_level(24), "low");
    assert_eq!(battery_level(0), "low");
}

#[test]
fn refresh_times_are_omitted_from_the_layout_hash() {
    let mut dash = dashboard("Family");
    dash.set_battery(62);
    dash.last_refresh = "17:53".into();
    dash.next_refresh = "18:53".into();
    let hashed = dash.for_layout_hash();
    assert!(hashed.has_battery);
    assert_eq!(hashed.battery_pct, 62);
    assert!(hashed.last_refresh.is_empty());
    assert!(hashed.next_refresh.is_empty());
    let mut later = dash.clone();
    later.last_refresh = "18:00".into();
    later.next_refresh = "19:00".into();
    assert_eq!(dash.for_layout_hash(), later.for_layout_hash());
    later.set_battery(61);
    assert_ne!(dash.for_layout_hash(), later.for_layout_hash());
}

#[test]
fn hidden_school_sections_are_omitted_from_the_layout_hash() {
    let mut dash = dashboard("Family");
    dash.school = School {
        student: "Léa".into(),
        average: "14.2".into(),
        homework: vec![school_hw("Today", "Maths")],
        grades: vec![school_grade("Fri", "French", "15/20", "high")],
        days: Vec::new(),
        week: SchoolWeek::default(),
    };
    let before = dash.for_layout_hash();
    dash.school.homework.push(school_hw("Mon", "English"));
    dash.school
        .grades
        .push(school_grade("Thu", "Maths", "12/20", "mid"));
    dash.school.average = "13.8".into();
    assert_eq!(before, dash.for_layout_hash());
    dash.school.student = "Maya".into();
    assert_ne!(before, dash.for_layout_hash());
}

#[test]
fn sidebar_leaves_homework_when_school_sections_are_hidden() {
    let mut dash = dashboard("Family");
    dash.school.student = "Léa".into();
    dash.school.homework = (0..12)
        .map(|i| school_hw("Mon", &format!("Subject {i}")))
        .collect();
    dash.tube = tube_lines(4);
    dash.rooms = ["Kitchen"].into_iter().map(room).collect();
    dash.todos = (0..8).map(|_| todo("Ok")).collect();
    dash.fit_sidebar_to_panel();
    assert_eq!(dash.school.homework.len(), 12);
    assert_eq!(dash.todos.len(), 8);
    assert_eq!(dash.todos_more, 0);
}

#[test]
fn long_title_is_one_line_with_ellipsis() {
    let title = "Your event was created from an email that you received in Gmail. https://mail.google.com/mail?extsrc=cal&plid=ACUX6DC00";
    let out = truncate_event_title(title);
    assert_eq!(out.chars().count(), EVENT_TITLE_MAX_CHARS);
    assert!(out.ends_with('…'));
    assert!(!out.contains("https://"));
    assert_eq!(
        truncate_event_title(
            "Line one is already far too long for the today column on this panel\nLine two"
        ),
        truncate_event_title("Line one is already far too long for the today column on this panel")
    );
}

#[test]
fn set_battery_caps_at_one_hundred() {
    let mut dash = dashboard("Family");
    dash.set_battery(250);
    assert!(dash.has_battery);
    assert_eq!(dash.battery_pct, 100);
    assert_eq!(dash.battery_level, "ok");
    dash.set_battery(3);
    assert_eq!(dash.battery_level, "low");
}

#[test]
fn short_jokes_fit_and_long_ones_do_not() {
    assert!(joke_fits_panel(&Joke {
        setup: "What do you call a fake noodle?".into(),
        punchline: "An impasta.".into(),
    }));
    assert!(!joke_fits_panel(&Joke {
        setup: String::new(),
        punchline: String::new(),
    }));
    assert!(!joke_fits_panel(&Joke {
        setup: "Word ".repeat(80),
        punchline: String::new(),
    }));
}

#[test]
fn fit_to_panel_fits_both_columns() {
    let mut dash = dashboard("Family");
    dash.events_coming = (0..30).map(|i| event("2026-10-01", &format!("{i:02}:00"), "X")).collect();
    dash.todos = (0..200).map(|_| todo("Milk")).collect();
    dash.fit_to_panel();
    assert_eq!(dash.events_coming.len(), 17);
    assert_eq!(dash.todos.len() + dash.todos_more, 200);
}

fn london(y: i32, mo: u32, d: u32, h: u32, mi: u32, s: u32) -> UtcStamp {
    let t = chrono_tz::Europe::London.with_ymd_and_hms(y, mo, d, h, mi, s).unwrap();
    UtcStamp { secs: t.timestamp(), nanos: 0 }
}

#[test]
fn refresh_until_matches_next_refresh() {
    let now = london(2026, 9, 17, 20, 54, 0);
    let until = refresh_until_at(now, 300);
    let mut dash = dashboard("Family");
    dash.set_refresh_at(until, until, "Europe/London");
    assert_eq!(dash.last_refresh, "20:59");
    assert!(now.secs < until.secs);
}

#[test]
fn refresh_window_same_day_is_hhmm() {
    let now = london(2026, 9, 17, 17, 53, 0);
    let mut dash = dashboard("Family");
    dash.set_refresh_window(now, 300, "Europe/London");
    assert_eq!(dash.last_refresh, "17:53");
    assert_eq!(dash.next_refresh, "17:58");
}

#[test]
fn refresh_window_next_day_includes_weekday() {
    let now = london(2026, 9, 17, 23, 50, 0);
    let mut dash = dashboard("Family");
    dash.set_refresh_window(now, 20 * 60, "Europe/London");
    assert_eq!(dash.last_refresh, "23:50");
    assert_eq!(dash.next_refresh, "Fri 00:10");
}

#[test]
fn refresh_window_clock_slot_is_not_floored_to_xx59() {
    let base = london(2026, 9, 16, 16, 0, 3);
    let now = UtcStamp { secs: base.secs, nanos: 475_000_000 };
    let slot = london(2026, 9, 16, 18, 0, 0);
    let mut dash = dashboard("Family");
    dash.set_refresh_at(now, slot, "Europe/London");
    assert_eq!(dash.last_refresh, "16:00");
    assert_eq!(dash.next_refresh, "18:00");
    // Whole seconds from 16:00:03.475 to 18:00 are 7196.
    let secs_until = (slot.secs - now.secs - 1) as u64;
    dash.set_refresh_window(now, secs_until, "Europe/London");
    assert_eq!(dash.next_refresh, "17:59");
}

#[test]
fn refresh_window_linked_slot_keeps_arrival_time() {
    let last = london(2026, 9, 20, 6, 57, 0);
    let next = london(2026, 9, 20, 10, 0, 0);
    let mut dash = dashboard("Family");
    dash.set_refresh_at(last, next, "Europe/London");
    assert_eq!(dash.last_refresh, "06:57");
    assert_eq!(dash.next_refresh, "10:00");
}

#[test]
fn event_title_rule_is_idempotent() {
    for t in [
        "  Parents evening at the primary school, main hall  \nsecond line",
        "Short",
        "",
        "\n\nx",
        "A title that is exactly long enough to be cut short here",
    ] {
        let once = truncate_event_title(t);
        assert_eq!(truncate_event_title(&once), once);
        assert!(!once.contains('\n'));
        assert!(once.chars().count() <= 33);
    }
}
