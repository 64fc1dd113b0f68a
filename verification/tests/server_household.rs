use family_frame::server::config::{
    BinsPatch, BinsSourceConfig, CalendarPatch, PublicBirthday, SettingsPatch, TodoistConfig,
    TodoistPatch, WeatherConfig, WeatherPatch,
};
use family_frame::server::dates::Date;
use family_frame::server::config::FrameMode;
use family_frame::server::display::{DisplayConfig, PicturesConfig};
use family_frame::server::household::{apply_patch, HouseholdConfig};
use family_frame::server::wakes::WeeklyWakes;

fn patch() -> SettingsPatch {
    SettingsPatch {
        mode: None,
        poll_interval_secs: None,
        wake_up: None,
        wake_up_by_day: None,
        schedule_kind: None,
        schedule_for: None,
        rotate: None,
        family_name: None,
        timezone: None,
        battery_mah: None,
        calendar: None,
        bins: None,
        birthdays: None,
        todoist: None,
        weather: None,
    }
}

fn household() -> HouseholdConfig {
    HouseholdConfig {
        family_name: "Family".into(),
        timezone: "Europe/London".into(),
        battery_mah: 2000,
        ics_urls: Vec::new(),
        calendar: None,
        bins: BinsSourceConfig { uprn: String::new() },
        birthdays: Vec::new(),
        birthdays_source: None,
        todoist: TodoistConfig { token: String::new(), project: "Family".into() },
        todoist_source: None,
        weather: WeatherConfig { location_id: String::new() },
        weather_source: None,
    }
}

#[test]
fn patch_rejects_unknown_timezone_and_bad_calendar_url() {
    let mut cfg = household();
    let mut p = patch();
    p.timezone = Some("London".into());
    let tz_err = cfg.apply_household_patch(&p).unwrap_err();
    assert!(tz_err.contains("timezone"));

    let mut p = patch();
    p.calendar = Some(CalendarPatch { ics_urls: Some(vec!["ftp://example.com/cal.ics".into()]) });
    let url_err = cfg.apply_household_patch(&p).unwrap_err();
    assert!(url_err.contains("webcal"));
}

#[test]
fn household_patch_applies_every_field() {
    let mut cfg = household();
    let mut p = patch();
    p.family_name = Some("  Martins ".into());
    p.timezone = Some(" Europe/Paris ".into());
    p.battery_mah = Some(0);
    p.calendar = Some(CalendarPatch {
        ics_urls: Some(vec![" webcal://a.example/c.ics ".into(), "".into(), "webcal://a.example/c.ics".into()]),
    });
    p.bins = Some(BinsPatch { uprn: Some(" 100022658374 ".into()) });
    p.birthdays = Some(vec![PublicBirthday { name: " Maya ".into(), dob: "2018-03-15".into() }]);
    p.todoist = Some(TodoistPatch { token: Some(" tok ".into()), project: Some("   ".into()) });
    p.weather = Some(WeatherPatch { location_id: Some("https://www.bbc.co.uk/weather/2643743".into()) });
    assert_eq!(cfg.apply_household_patch(&p), Ok(()));
    assert_eq!(cfg.family_name, "Martins");
    assert_eq!(cfg.timezone, "Europe/Paris");
    assert_eq!(cfg.battery_mah, 1);
    assert_eq!(cfg.ics_urls, vec!["webcal://a.example/c.ics".to_string()]);
    assert_eq!(cfg.calendar.as_ref().unwrap().ics_urls, cfg.ics_urls);
    assert_eq!(cfg.bins.uprn, "100022658374");
    assert_eq!(cfg.birthdays.len(), 1);
    assert_eq!(cfg.birthdays[0].name, "Maya");
    assert_eq!(cfg.birthdays[0].dob, Date { year: 2018, month: 3, day: 15 });
    assert_eq!(cfg.birthdays_source.as_ref().unwrap().len(), 1);
    assert_eq!(cfg.todoist.token, "tok");
    assert_eq!(cfg.todoist.project, "Family");
    assert_eq!(cfg.todoist_source.as_ref().unwrap().token, "tok");
    assert_eq!(cfg.weather.location_id, "2643743");
    assert_eq!(cfg.weather_source.as_ref().unwrap().location_id, "2643743");
}

#[test]
fn first_refusal_keeps_earlier_fields() {
    let mut cfg = household();
    let mut p = patch();
    p.family_name = Some("Lee".into());
    p.battery_mah = Some(3000);
    p.bins = Some(BinsPatch { uprn: Some("flat 3".into()) });
    p.todoist = Some(TodoistPatch { token: Some("t".into()), project: None });
    assert_eq!(
        cfg.apply_household_patch(&p),
        Err("UPRN should be digits, or a Wandsworth My Property URL".to_string())
    );
    assert_eq!(cfg.family_name, "Lee");
    assert_eq!(cfg.battery_mah, 3000);
    assert_eq!(cfg.bins.uprn, "");
    assert_eq!(cfg.todoist.token, "");
    assert!(cfg.todoist_source.is_none());
}

#[test]
fn blank_family_name_and_bad_birthday_are_refused() {
    let mut cfg = household();
    let mut p = patch();
    p.family_name = Some("  ".into());
    assert_eq!(cfg.apply_household_patch(&p), Err("family_name must not be empty".to_string()));
    let mut p = patch();
    p.birthdays = Some(vec![
        PublicBirthday { name: "A".into(), dob: "2018-01-01".into() },
        PublicBirthday { name: "B".into(), dob: "soon".into() },
    ]);
    assert_eq!(
        cfg.apply_household_patch(&p),
        Err("birthday `B,soon` has an invalid date (use YYYY-MM-DD)".to_string())
    );
    assert!(cfg.birthdays.is_empty());
    assert!(cfg.birthdays_source.is_none());
}

#[test]
fn combined_patch_applies_display_then_household() {
    let mut display = DisplayConfig {
        mode: FrameMode::Dashboard,
        poll_interval_secs: 3600,
        wake_up: WeeklyWakes::empty(),
        schedule_kind: None,
        pictures: PicturesConfig { rotate: Vec::new(), poll_interval_secs: None, wake_up: None, schedule_kind: None },
    };
    let mut house = household();
    let mut p = patch();
    p.mode = Some("picture".into());
    p.family_name = Some("Smiths".into());
    let err = apply_patch(&mut display, &mut house, &p).unwrap_err();
    assert!(err.contains("at least one photo"));
    assert_eq!(house.family_name, "Family");
    assert_eq!(display.mode, FrameMode::Picture);

    let mut p = patch();
    p.poll_interval_secs = Some(600);
    p.family_name = Some("  Smiths ".into());
    apply_patch(&mut display, &mut house, &p).unwrap_err();
    display.mode = FrameMode::Dashboard;
    apply_patch(&mut display, &mut house, &p).unwrap();
    assert_eq!(display.poll_interval_secs, 600);
    assert_eq!(house.family_name, "Smiths");
}
