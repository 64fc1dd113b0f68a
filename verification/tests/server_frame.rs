use family_frame::server::frame::{
    checksum_matches, dashboard_cache_fresh, dashboard_mode_key, picture_content_hash,
    picture_mode_key, reuse_disk_dashboard, reuse_memory_dashboard, reuse_unchanged_dashboard,
    sha256_hex, Frame, UtcStamp,
};
use family_frame::server::model::{Dashboard, School, Weather};

const PANEL_BYTES: usize = 960_000;

fn dashboard(family: &str) -> Dashboard {
    Dashboard {
        family_name: family.into(),
        weekday: String::new(),
        day: String::new(),
        month: String::new(),
        date_long: String::new(),
        date_iso: String::new(),
        saint_title: String::new(),
        saint_name: String::new(),
        today_title: "Today".into(),
        today_ordinal: String::new(),
        events_today: Vec::new(),
        events_coming: Vec::new(),
        todos: Vec::new(),
        todos_more: 0,
        rooms: Vec::new(),
        weather: Weather::default(),
        tube: Vec::new(),
        history: Vec::new(),
        joke: None,
        school: School::default(),
        source_note: "cached-dashboard".into(),
        show_school_sections: false,
        has_battery: false,
        battery_pct: 0,
        battery_level: String::new(),
        last_refresh: String::new(),
        next_refresh: String::new(),
    }
}

fn at(secs: i64) -> UtcStamp {
    UtcStamp { secs, nanos: 0 }
}

fn frame(checksum: &str, content_hash: &str) -> Frame {
    Frame {
        bin: vec![0; PANEL_BYTES],
        png: vec![],
        preview_png: vec![],
        checksum: checksum.into(),
        content_hash: content_hash.into(),
        generated_at: at(1_789_000_000),
        dashboard: dashboard("Family"),
    }
}

#[test]
fn etag_matches_quoted_and_bare() {
    let frame = frame("abc123", "fff");
    assert!(checksum_matches(&frame, Some("abc123")));
    assert!(checksum_matches(&frame, Some("\"abc123\"")));
    assert!(checksum_matches(&frame, Some("ABC123")));
    assert!(!checksum_matches(&frame, Some("nope")));
    assert!(!checksum_matches(&frame, None));
}

#[test]
fn etag_also_matches_layout_hash_and_ignores_blank() {
    let frame = frame("abc123", "fff");
    assert!(checksum_matches(&frame, Some("  \"FFF\" ")));
    assert!(!checksum_matches(&frame, Some("   ")));
    assert!(!checksum_matches(&frame, Some("\"\"")));
}

#[test]
fn dashboard_cache_ttl_is_ten_minutes() {
    let now = at(1_789_000_000);
    assert!(dashboard_cache_fresh(now, now));
    assert!(dashboard_cache_fresh(at(now.secs - 9 * 60), now));
    assert!(!dashboard_cache_fresh(at(now.secs - 11 * 60), now));
    assert!(!dashboard_cache_fresh(at(now.secs + 60), now));
    assert!(dashboard_cache_fresh(at(now.secs - 600), now));
    assert!(!dashboard_cache_fresh(UtcStamp { secs: now.secs - 600, nanos: 0 }, UtcStamp { secs: now.secs, nanos: 1 }));
}

#[test]
fn cache_reuse_rules() {
    let now = at(1_789_000_000);
    assert!(reuse_memory_dashboard(false, "dashboard:3600", at(now.secs - 60), now));
    assert!(!reuse_memory_dashboard(true, "dashboard:3600", at(now.secs - 60), now));
    assert!(!reuse_memory_dashboard(false, "picture:a:a", at(now.secs - 60), now));
    assert!(reuse_disk_dashboard(false, at(now.secs - 60), now));
    assert!(!reuse_disk_dashboard(false, at(now.secs - 3600), now));
    assert!(reuse_unchanged_dashboard(true, "h1", "h1"));
    assert!(!reuse_unchanged_dashboard(false, "h1", "h1"));
    assert!(!reuse_unchanged_dashboard(true, "h1", "h2"));
}

#[test]
fn mode_keys() {
    assert_eq!(dashboard_mode_key(3600), "dashboard:3600");
    let rotate = vec!["a".to_string(), "b".to_string()];
    assert_eq!(picture_mode_key("a", &rotate), "picture:a:a,b");
    assert_eq!(picture_mode_key("x", &[]), "picture:x:");
    assert_eq!(picture_content_hash("a", "ff00"), "picture:a:ff00");
}

#[test]
fn frame_info_and_checksum() {
    let f = frame("abc", "h");
    let info = f.info();
    assert_eq!(info.bytes, PANEL_BYTES);
    assert_eq!(info.source_note, "cached-dashboard");
    assert_eq!(info.generated_at, f.generated_at);
    assert_eq!(sha256_hex(b""), "e3b0c44298fc1c149afbf4c8996fb92427ae41e4649b934ca495991b7852b855");
}
