use chrono::TimeZone;
use family_frame::server::config::{FrameMode, PublicWakeDays, ScheduleKind, SettingsPatch};
use family_frame::server::display::{DisplayConfig, PicturesConfig};
use family_frame::server::frame::UtcStamp;
use family_frame::server::wakes::{parse_wake_time, WakeTime, WeeklyWakes};

fn patch() -> SettingsPatch {
    SettingsPatch {
        mode: None,
        poll_interval_secs: None,
        wake_up: None,
        wake_up_by_day: None,
        schedule_kind: None,
        schedule_for: None,
        rotate: None,
        family_name: None,
        timezone: None,
        battery_mah: None,
        calendar: None,
        bins: None,
        birthdays: None,
        todoist: None,
        weather: None,
    }
}

fn daily(times: &[&str]) -> WeeklyWakes {
    let v: Vec<WakeTime> = times.iter().map(|s| parse_wake_time(s).unwrap()).collect();
    WeeklyWakes::every_day(&v)
}

fn same_week(a: &WeeklyWakes, b: &WeeklyWakes) -> bool {
    (0..7).all(|d| a.get_index(d) == b.get_index(d))
}

fn config(mode: FrameMode, interval: u64, wakes: &[&str], rotate: &[&str]) -> DisplayConfig {
    DisplayConfig {
        mode,
        poll_interval_secs: interval,
        wake_up: daily(wakes),
        schedule_kind: None,
        pictures: PicturesConfig {
            rotate: rotate.iter().map(|s| s.to_string()).collect(),
            poll_interval_secs: None,
            wake_up: None,
            schedule_kind: None,
        },
    }
}

fn noon() -> UtcStamp {
    let t = chrono_tz::Europe::London.with_ymd_and_hms(2026, 9, 16, 12, 0, 0).unwrap();
    UtcStamp { secs: t.timestamp(), nanos: 0 }
}

#[test]
fn pictures_schedule_inherits_dashboard_until_set() {
    let cfg = config(FrameMode::Dashboard, 180, &["07:00"], &["aaa"]);
    assert_eq!(cfg.pictures.poll_interval_secs, None);
    assert!(cfg.pictures.wake_up.is_none());
    let (interval, wakes) = cfg.schedule(FrameMode::Picture);
    assert_eq!(interval, 180);
    assert!(same_week(wakes.unwrap(), &cfg.wake_up));
}

#[test]
fn pictures_schedule_can_diverge() {
    let mut cfg = config(FrameMode::Picture, 3600, &["07:00"], &["aaa"]);
    cfg.pictures.poll_interval_secs = Some(120);
    cfg.pictures.wake_up = Some(WeeklyWakes::empty());
    let (dash_i, dash_w) = cfg.schedule(FrameMode::Dashboard);
    let (pic_i, pic_w) = cfg.schedule(FrameMode::Picture);
    assert_eq!(dash_i, 3600);
    assert_eq!(dash_w.unwrap().shared_times().map(|t| t.len()), Some(1));
    assert_eq!(pic_i, 120);
    assert!(pic_w.is_none());
    assert_eq!(cfg.next_poll_secs(noon(), "Europe/London"), 120);
}

#[test]
fn picture_mode_rejects_empty_rotate() {
    let mut cfg = config(FrameMode::Dashboard, 3600, &[], &[]);
    let mut p = patch();
    p.mode = Some("picture".into());
    p.rotate = Some(vec![]);
    let err = cfg.apply_display_patch(&p).unwrap_err();
    assert!(err.contains("at least one"));
}

#[test]
fn patch_schedule_for_picture_leaves_dashboard() {
    let mut cfg = config(FrameMode::Dashboard, 3600, &["07:00"], &["photo-1"]);
    let mut p = patch();
    p.mode = Some("picture".into());
    p.poll_interval_secs = Some(90);
    p.wake_up = Some(vec![]);
    p.schedule_for = Some("picture".into());
    cfg.apply_display_patch(&p).unwrap();
    assert_eq!(cfg.pictures.schedule_kind, Some(ScheduleKind::Interval));
    assert_eq!(cfg.mode, FrameMode::Picture);
    assert_eq!(cfg.poll_interval_secs, 3600);
    assert_eq!(cfg.wake_up.shared_times().map(|t| t.len()), Some(1));
    assert_eq!(cfg.pictures.poll_interval_secs, Some(90));
    assert!(cfg.pictures.wake_up.as_ref().unwrap().is_empty());
    assert_eq!(cfg.next_poll_secs(noon(), "Europe/London"), 90);
}

#[test]
fn patch_interval_kind_preserves_wake_times() {
    let mut cfg = config(FrameMode::Dashboard, 3600, &["07:00", "18:30"], &[]);
    let mut p = patch();
    p.poll_interval_secs = Some(120);
    p.schedule_kind = Some("interval".into());
    p.schedule_for = Some("dashboard".into());
    cfg.apply_display_patch(&p).unwrap();
    assert_eq!(cfg.poll_interval_secs, 120);
    assert_eq!(cfg.wake_up.shared_times().map(|t| t.len()), Some(2));
    assert_eq!(cfg.schedule_kind, Some(ScheduleKind::Interval));
    assert_eq!(cfg.next_poll_secs(noon(), "Europe/London"), 120);
}

#[test]
fn patch_times_kind_preserves_interval() {
    let mut cfg = config(FrameMode::Dashboard, 900, &["08:00"], &[]);
    cfg.schedule_kind = Some(ScheduleKind::Interval);
    let mut p = patch();
    p.schedule_kind = Some("times".into());
    cfg.apply_display_patch(&p).unwrap();
    assert_eq!(cfg.poll_interval_secs, 900);
    assert_eq!(cfg.schedule_kind, Some(ScheduleKind::Times));
    assert_eq!(cfg.wake_up.shared_times().map(|t| t.len()), Some(1));
}

#[test]
fn interval_kind_keeps_wake_times_out_of_sleep() {
    let mut cfg = config(FrameMode::Dashboard, 1800, &["06:00", "15:00"], &[]);
    cfg.schedule_kind = Some(ScheduleKind::Interval);
    assert_eq!(cfg.next_poll_secs(noon(), "Europe/London"), 1800);
    let public = cfg.public_schedule(FrameMode::Dashboard);
    assert_eq!(public.schedule_kind, "interval");
    assert_eq!(public.wake_up, vec!["06:00", "15:00"]);
    assert_eq!(public.poll_interval_secs, 1800);
}

#[test]
fn pico_sleep_secs_prefers_next_wake_up() {
    let cfg = config(FrameMode::Dashboard, 3600, &["06:00", "15:00"], &[]);
    assert_eq!(cfg.next_poll_secs(noon(), "Europe/London"), 3 * 3600);
}

#[test]
fn per_day_wakes_change_sleep() {
    let mut cfg = config(FrameMode::Dashboard, 3600, &[], &[]);
    cfg.schedule_kind = Some(ScheduleKind::Times);
    let t = |v: &[&str]| -> Vec<WakeTime> { v.iter().map(|s| parse_wake_time(s).unwrap()).collect() };
    cfg.wake_up = WeeklyWakes::from_days(vec![
        t(&["06:30"]),
        t(&["06:30"]),
        t(&["06:30"]),
        t(&["06:30"]),
        t(&["06:30", "15:30"]),
        t(&["08:00"]),
        t(&["08:30"]),
    ]);
    let friday_evening = chrono_tz::Europe::London.with_ymd_and_hms(2026, 9, 18, 22, 0, 0).unwrap();
    let now = UtcStamp { secs: friday_evening.timestamp(), nanos: 0 };
    assert_eq!(cfg.next_poll_secs(now, "Europe/London"), 10 * 3600);
}

#[test]
fn wake_up_by_day_patch_sets_the_week() {
    // 16 Sep 2026 is a Wednesday; only Thursday has a time.
    let mut cfg = config(FrameMode::Dashboard, 3600, &[], &[]);
    let mut p = patch();
    p.wake_up_by_day = Some(PublicWakeDays {
        mon: vec![],
        tue: vec![],
        wed: vec![],
        thu: vec!["07:00".into()],
        fri: vec![],
        sat: vec![],
        sun: vec![],
    });
    cfg.apply_display_patch(&p).unwrap();
    assert_eq!(cfg.schedule_kind, Some(ScheduleKind::Times));
    assert_eq!(cfg.next_poll_secs(noon(), "Europe/London"), 19 * 3600);
}

#[test]
fn picture_mode_without_photos_shows_the_dashboard_schedule() {
    let mut cfg = config(FrameMode::Picture, 600, &[], &[]);
    cfg.pictures.poll_interval_secs = Some(120);
    assert_eq!(cfg.effective_mode(), FrameMode::Dashboard);
    assert_eq!(cfg.next_poll_secs(noon(), "Europe/London"), 600);
}

#[test]
fn materialize_copies_the_inherited_schedule() {
    let mut cfg = config(FrameMode::Dashboard, 300, &["07:00"], &["a"]);
    cfg.materialize_pictures_schedule();
    assert_eq!(cfg.pictures.poll_interval_secs, Some(300));
    assert!(same_week(cfg.pictures.wake_up.as_ref().unwrap(), &cfg.wake_up));
    assert_eq!(cfg.pictures.schedule_kind, Some(ScheduleKind::Times));
    // A later dashboard edit no longer reaches picture mode.
    cfg.set_schedule(FrameMode::Dashboard, Some(60), Some(WeeklyWakes::empty()), None).unwrap();
    assert_eq!(cfg.schedule(FrameMode::Picture).0, 300);
    assert_eq!(cfg.schedule(FrameMode::Dashboard).0, 60);
    assert_eq!(cfg.schedule_kind, Some(ScheduleKind::Interval));
}

#[test]
fn set_schedule_rejects_a_zero_interval() {
    let mut cfg = config(FrameMode::Dashboard, 300, &["07:00"], &["a"]);
    let err = cfg.set_schedule(FrameMode::Picture, Some(0), None, None).unwrap_err();
    assert_eq!(err, "poll_interval_secs must be at least 1");
    assert_eq!(cfg.pictures.poll_interval_secs, None);
}

#[test]
fn display_patch_reports_unknown_mode_and_kind() {
    let mut cfg = config(FrameMode::Dashboard, 300, &[], &[]);
    let mut p = patch();
    p.mode = Some("Slideshow".into());
    assert_eq!(
        cfg.apply_display_patch(&p).unwrap_err(),
        "unknown mode `slideshow` (use dashboard or picture)"
    );
    let mut p = patch();
    p.schedule_kind = Some("sometimes".into());
    assert_eq!(
        cfg.apply_display_patch(&p).unwrap_err(),
        "unknown schedule_kind `sometimes` (use interval or times)"
    );
    let mut p = patch();
    p.wake_up = Some(vec!["25:00".into()]);
    assert!(cfg.apply_display_patch(&p).unwrap_err().contains("25:00"));
}
