use family_frame::server::battery::{linear_pct, Cell};
use family_frame::server::config::{
    default_tfl_lines, normalize_ics_urls, normalize_uprn, normalize_weather_location_id,
    FrameMode, ScheduleKind, SettingsPatch, WeatherPatch,
};
use family_frame::server::debug::{
    checksum_short, is_hex_checksum, page_bounds, status_label, POLLS_PER_PAGE,
};
use family_frame::server::http::query_flag;
use family_frame::server::meross::{
    demo_rooms, invalidate_cache, invalidate_rooms, is_hub, is_hub_thermostat,
    looks_like_thermostat_model, mqtt_host, push_unique_room, strip_thermostat_suffix,
    CloudCreds, MerossCache,
};
use family_frame::server::pronote::{
    clip, first_name, html_unescape, parse_account, split_root_page, strip_html, truthy, Account,
};
use family_frame::server::schedule::is_timer_wake;
use family_frame::server::sources::http_ics_url;

#[test]
fn schedule_kind_parse_aliases() {
    assert_eq!(
        ScheduleKind::parse("interval").unwrap(),
        ScheduleKind::Interval
    );
    assert_eq!(ScheduleKind::parse("times").unwrap(), ScheduleKind::Times);
    assert_eq!(ScheduleKind::parse("wake-up").unwrap(), ScheduleKind::Times);
    assert!(ScheduleKind::parse("nope").is_err());
}

#[test]
fn schedule_kind_error_names_the_value() {
    let err = ScheduleKind::parse("  NoPe ").unwrap_err();
    assert_eq!(err, "unknown schedule_kind `nope` (use interval or times)");
    assert_eq!(ScheduleKind::Interval.as_str(), "interval");
    assert_eq!(ScheduleKind::parse(" POLL ").unwrap(), ScheduleKind::Interval);
}

#[test]
fn frame_mode_aliases() {
    assert_eq!(FrameMode::parse(" Photos ").unwrap(), FrameMode::Picture);
    assert_eq!(FrameMode::parse("dashboard").unwrap(), FrameMode::Dashboard);
    assert_eq!(FrameMode::Picture.as_str(), "picture");
    assert_eq!(
        FrameMode::parse("tv").unwrap_err(),
        "unknown mode `tv` (use dashboard or picture)"
    );
}

#[test]
fn normalize_weather_id_from_bbc_url() {
    assert_eq!(
        normalize_weather_location_id("https://www.bbc.co.uk/weather/2643743"),
        "2643743"
    );
    assert_eq!(
        normalize_weather_location_id("www.bbc.co.uk/weather/10102218#day2"),
        "10102218"
    );
    assert_eq!(normalize_weather_location_id(" 2652951 "), "2652951");
}

#[test]
fn normalize_uprn_from_digits_or_url() {
    assert_eq!(normalize_uprn("100022658374").unwrap(), "100022658374");
    assert_eq!(normalize_uprn(" 100022658374 ").unwrap(), "100022658374");
    assert_eq!(
        normalize_uprn(
            "https://www.wandsworth.gov.uk/my-property/?UPRN=100022658374&propertyidentified=Select"
        )
        .unwrap(),
        "100022658374"
    );
    assert!(normalize_uprn("").unwrap().is_empty());
    assert!(normalize_uprn("SW11 5QA").is_err());
}

#[test]
fn ics_urls_are_trimmed_checked_and_deduplicated() {
    let urls = vec![
        " webcal://a.example/cal ".to_string(),
        String::new(),
        "https://b.example/x.ics".to_string(),
        "webcal://a.example/cal".to_string(),
    ];
    assert_eq!(
        normalize_ics_urls(&urls).unwrap(),
        vec!["webcal://a.example/cal".to_string(), "https://b.example/x.ics".to_string()]
    );
    let bad = vec!["ftp://x".to_string()];
    assert!(normalize_ics_urls(&bad).unwrap_err().contains("webcal"));
    let bare = vec!["example.com/cal".to_string()];
    assert!(normalize_ics_urls(&bare).is_err());
}

#[test]
fn default_tube_lines() {
    let lines = default_tfl_lines();
    let ids: Vec<&str> = lines.iter().map(|l| l.id.as_str()).collect();
    assert_eq!(ids, ["northern", "circle", "district", "victoria"]);
    assert_eq!(lines[1].colour, "yellow");
}

#[test]
fn household_patch_detection() {
    let mut p = SettingsPatch {
        mode: Some("picture".into()),
        poll_interval_secs: None,
        wake_up: None,
        wake_up_by_day: None,
        schedule_kind: None,
        schedule_for: None,
        rotate: None,
        family_name: None,
        timezone: None,
        battery_mah: None,
        calendar: None,
        bins: None,
        birthdays: None,
        todoist: None,
        weather: None,
    };
    assert!(!p.touches_household());
    p.weather = Some(WeatherPatch { location_id: None });
    assert!(p.touches_household());
}

#[test]
fn hex_checksum_rejects_paths() {
    assert!(is_hex_checksum("deadbeef"));
    assert!(is_hex_checksum("abc"));
    assert!(!is_hex_checksum(""));
    assert!(!is_hex_checksum("../x"));
    assert!(!is_hex_checksum("deadbeef.png"));
}

#[test]
fn debug_paging_and_labels() {
    assert_eq!(page_bounds(0, 5), (0, 1, 0));
    assert_eq!(page_bounds(45, 0), (45, 1, 3));
    assert_eq!(page_bounds(45, 9), (45, 3, 3));
    assert_eq!(page_bounds(POLLS_PER_PAGE, 1), (POLLS_PER_PAGE, 1, 1));
    assert_eq!(status_label(204), "204 unchanged");
    assert_eq!(status_label(500), "other");
    assert_eq!(checksum_short("abcdef0123456"), "abcdef01");
    assert_eq!(checksum_short("ab"), "ab");
}

#[test]
fn fresh_query_accepts_common_truthy_flags() {
    assert!(query_flag(Some("1")));
    assert!(query_flag(Some("true")));
    assert!(query_flag(Some("YES")));
    assert!(query_flag(Some("")));
    assert!(!query_flag(Some("0")));
    assert!(!query_flag(None));
}

#[test]
fn mqtt_host_strips_scheme() {
    assert_eq!(
        mqtt_host("mqtts://mqtt-eu-4.meross.com"),
        ("mqtt-eu-4.meross.com".into(), 443)
    );
    assert_eq!(
        mqtt_host("mqtt-eu-4.meross.com:8883"),
        ("mqtt-eu-4.meross.com".into(), 8883)
    );
}

#[test]
fn invalidate_rooms_drops_ttl_cache_only() {
    let mut cache = MerossCache::new();
    cache.rooms = Some((0, demo_rooms()));
    cache.creds = Some(CloudCreds {
        email: "a@b.c".into(),
        token: "t".into(),
        key: "k".into(),
        user_id: "1".into(),
        domain: "d".into(),
        mqtt_domain: "m".into(),
    });
    invalidate_rooms(&mut cache);
    assert!(cache.rooms.is_none());
    assert!(cache.creds.is_some());
    invalidate_cache(&mut cache);
    assert!(cache.creds.is_none());
}

#[test]
fn meross_device_kinds_and_names() {
    assert!(is_hub("MSH300"));
    assert!(!is_hub("ms100"));
    assert!(is_hub_thermostat("mts150"));
    assert!(is_hub_thermostat("Smart Thermostat"));
    assert_eq!(strip_thermostat_suffix("  Kitchen TRV "), "Kitchen");
    assert_eq!(strip_thermostat_suffix("Hall Thermostat"), "Hall");
    assert_eq!(strip_thermostat_suffix("Office"), "Office");
    assert!(looks_like_thermostat_model(" MTS200 "));
    assert!(looks_like_thermostat_model("thermostat"));
    assert!(!looks_like_thermostat_model("Kitchen"));
    let mut rooms = demo_rooms();
    let mut dup = rooms[0].clone();
    dup.name = "KITCHEN".into();
    push_unique_room(&mut rooms, dup);
    assert_eq!(rooms.len(), 3);
    let mut new_room = rooms[0].clone();
    new_room.name = "Loft".into();
    push_unique_room(&mut rooms, new_room);
    assert_eq!(rooms.len(), 4);
}

#[test]
fn infers_parent_from_url() {
    assert!(matches!(
        parse_account("", "https://school.example/pronote/parent.html"),
        Account::Parent
    ));
    assert!(matches!(
        parse_account("eleve", "https://school.example/pronote/parent.html"),
        Account::Student
    ));
}

#[test]
fn splits_pronote_root() {
    let (root, page) = split_root_page(
        "https://demo.index-education.net/pronote/eleve.html",
        Account::Student,
    );
    assert_eq!(root, "https://demo.index-education.net/pronote");
    assert_eq!(page, "eleve.html");
}

#[test]
fn pronote_root_keeps_query_and_defaults_page() {
    let (root, page) = split_root_page(
        " https://x.example/pronote/parent.html?login=true#top ",
        Account::Student,
    );
    assert_eq!(root, "https://x.example/pronote");
    assert_eq!(page, "parent.html?login=true");
    let (root, page) = split_root_page("https://x.example/pronote/", Account::Parent);
    assert_eq!(root, "https://x.example/pronote");
    assert_eq!(page, "parent.html");
}

#[test]
fn strips_homework_html() {
    assert_eq!(
        strip_html("<div>Learn the <b>poem</b>&nbsp;tonight</div>"),
        "Learn the poem tonight"
    );
}

#[test]
fn pronote_text_helpers() {
    assert_eq!(html_unescape("a &amp;lt; b &#39;c&#39;"), "a < b 'c'");
    assert!(truthy(" Yes "));
    assert!(!truthy("no"));
    assert_eq!(first_name("  Léa Martin "), "Léa");
    assert_eq!(first_name("   "), "");
    assert_eq!(clip("  a   b  c ", 10), "a b c");
    assert_eq!(clip("abcdef ghij", 8), "abcdef…");
}

#[test]
fn webcal_becomes_https() {
    assert_eq!(
        http_ics_url("webcal://p01-caldav.icloud.com/published/2/abc"),
        "https://p01-caldav.icloud.com/published/2/abc"
    );
    assert_eq!(
        http_ics_url("WEBCALS://example.com/cal.ics"),
        "https://example.com/cal.ics"
    );
    assert_eq!(
        http_ics_url("https://example.com/cal.ics"),
        "https://example.com/cal.ics"
    );
}

#[test]
fn timer_wakes_and_battery() {
    assert!(is_timer_wake("TIMER"));
    assert!(!is_timer_wake("button"));
    assert_eq!(linear_pct(4000), 77);
    assert_eq!(linear_pct(4178), 97);
    assert_eq!(linear_pct(5000), 100);
    assert_eq!(linear_pct(3000), 0);
    let c = Cell {
        capacity_mah: 0,
        empty_mv: 5000,
    }
    .clamp();
    assert_eq!(c.capacity_mah, 1);
    assert_eq!(c.empty_mv, 4000);
    assert_eq!(Cell::default_cell().capacity_mah, 10_000);
}

#[test]
fn lut_anchors() {
    // The state-of-charge curve is floating point and stays outside the
    // library; the linear anchors are checked here.
    assert_eq!(linear_pct(4178), 97);
    assert_eq!(linear_pct(4000), 77); // 700*100/900
}
