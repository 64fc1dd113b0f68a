use family_frame::server::config::{FrameMode, ScheduleKind};
use family_frame::server::dates::{format_date, Date};

fn d(year: i32, month: u32, day: u32) -> Date {
    Date { year, month, day }
}

#[test]
fn date_formats_spell_out_as_stated() {
    assert_eq!(format_date(d(2024, 3, 5), "%Y-%m-%d"), "2024-03-05");
    assert_eq!(format_date(d(2024, 3, 5), "%a"), "Tue");
    assert_eq!(format_date(d(2024, 3, 5), "%a %-d"), "Tue 5");
    assert_eq!(format_date(d(2024, 3, 5), "%-d %b"), "5 Mar");
    assert_eq!(format_date(d(2024, 12, 25), "%-d %b %Y"), "25 Dec 2024");
    assert_eq!(format_date(d(1, 1, 1), "%a"), "Mon");
    assert_eq!(format_date(d(12, 7, 9), "%Y-%m-%d"), "0012-07-09");
    assert_eq!(format_date(d(-1, 1, 1), "%Y-%m-%d"), "-0001-01-01");
    assert_eq!(format_date(d(10000, 1, 1), "%-d %b %Y"), "1 Jan +10000");
    assert_eq!(format_date(d(2000, 2, 29), "%a %-d"), "Tue 29");
}

#[test]
fn setting_names_read_back() {
    for k in [ScheduleKind::Interval, ScheduleKind::Times] {
        assert_eq!(ScheduleKind::parse(k.as_str()).unwrap(), k);
    }
    for m in [FrameMode::Dashboard, FrameMode::Picture] {
        assert_eq!(FrameMode::parse(m.as_str()).unwrap(), m);
    }
}
