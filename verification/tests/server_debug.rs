use family_frame::server::debug::{
    format_bytes, format_human_span, format_rel, format_until, rounded_human_unit, HumanTone,
};

#[test]
fn format_bytes_uses_binary_units() {
    assert_eq!(format_bytes(0), "0 B");
    assert_eq!(format_bytes(512), "512 B");
    assert_eq!(format_bytes(1024), "1.0 KB");
    assert_eq!(format_bytes(1536), "1.5 KB");
    assert_eq!(format_bytes(10 * 1024), "10 KB");
    assert_eq!(format_bytes(1024 * 1024), "1.0 MB");
}

#[test]
fn format_bytes_matches_float_formatting() {
    for n in [
        1023u64, 1025, 1279, 1280, 1331, 10751, 10752, 10753, 11776, 1048575, 1048576 * 9 + 1048576 / 20,
        1073741824 * 3, 1073741824 * 1500, u64::from(u32::MAX),
    ] {
        let mut value = n as f64;
        let mut unit = 0;
        let units = ["B", "KB", "MB", "GB"];
        while value >= 1024.0 && unit + 1 < units.len() {
            value /= 1024.0;
            unit += 1;
        }
        let expect = if unit == 0 {
            format!("{n} B")
        } else if value >= 10.0 {
            format!("{value:.0} {}", units[unit])
        } else {
            format!("{value:.1} {}", units[unit])
        };
        assert_eq!(format_bytes(n), expect, "n = {n}");
    }
}

#[test]
fn format_until_future_and_overdue() {
    assert_eq!(format_until(30), "any moment");
    assert_eq!(format_until(12 * 60), "in 12 min");
    assert_eq!(format_until(2 * 3600), "in 2 hours");
    assert_eq!(format_until(3600 + 59 * 60), "in about 2 hours");
    assert_eq!(format_rel(3600 + 59 * 60), "about 2 hours ago");
    assert_eq!(format_until(25 * 3600 + 50 * 60), "in about 26 hours");
    assert_eq!(format_until(44 * 3600), "in about 2 days");
    assert_eq!(format_until(-5 * 60), "5 min overdue");
}

#[test]
fn human_units_round_to_nearest() {
    let u = rounded_human_unit(89);
    assert_eq!((u.n, u.word, u.about), (1, "min", false));
    let u = rounded_human_unit(90);
    assert_eq!((u.n, u.word, u.about), (2, "min", false));
    let u = rounded_human_unit(50 * 60);
    assert_eq!((u.n, u.word, u.about), (1, "hour", true));
    let u = rounded_human_unit(36 * 3600);
    assert_eq!((u.n, u.word, u.about), (2, "days", true));
    let u = rounded_human_unit(3 * 86400);
    assert_eq!((u.n, u.word, u.about), (3, "days", false));
    let u = rounded_human_unit(i64::MAX);
    assert!(u.n >= 1);
}

#[test]
fn short_spans_and_future_moments() {
    assert_eq!(format_human_span(-10, HumanTone::Overdue), "overdue");
    assert_eq!(format_human_span(59, HumanTone::Ago), "just now");
    assert_eq!(format_rel(-100), "just now");
    assert_eq!(format_human_span(3 * 86400, HumanTone::Ago), "3 days ago");
    assert_eq!(format_human_span(50 * 60, HumanTone::Overdue), "about 1 hour overdue");
}
