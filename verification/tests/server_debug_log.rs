use family_frame::server::battery::{battery_mv_range, format_duration};
use family_frame::server::debug::{
    frames_to_prune, page_bounds, page_polls, record_poll, Poll, MAX_POLLS, POLLS_PER_PAGE,
};
use family_frame::server::frame::UtcStamp;

fn poll_at(mins: i64, pct: u16, usb: bool, status: u16, checksum: &str) -> Poll {
    Poll {
        t: UtcStamp { secs: 1_789_473_600 + mins * 60, nanos: 0 },
        status,
        offered: checksum.into(),
        checksum: checksum.into(),
        mv: 3300 + u32::from(pct) * 9,
        pct,
        usb,
        wake: "timer".into(),
        sleep_s: 3600,
        wake_at: None,
    }
}

#[test]
fn page_paginates_newest_first() {
    let polls: Vec<_> = (0..21).map(|i| poll_at(i as i64, i as u16, false, 200, "aa")).collect();
    let (count, page, page_count) = page_bounds(polls.len(), 1);
    assert_eq!(count, 21);
    assert_eq!(page, 1);
    assert_eq!(page_count, 2);
    let rows = page_polls(polls.len(), 1);
    assert_eq!(rows.len(), POLLS_PER_PAGE);
    assert_eq!(polls[rows[0]].mv, 3300 + 20 * 9);
    assert_eq!(polls[rows[19]].mv, 3300 + 9);

    assert_eq!(page_bounds(polls.len(), 2).1, 2);
    let rows2 = page_polls(polls.len(), 2);
    assert_eq!(rows2.len(), 1);
    assert_eq!(polls[rows2[0]].mv, 3300);

    assert_eq!(page_bounds(polls.len(), 99).1, 2);
    assert_eq!(page_polls(polls.len(), 99), vec![0]);
    assert!(page_polls(0, 1).is_empty());
}

#[test]
fn record_caps_percent_and_keeps_the_newest_polls() {
    let mut log: Vec<Poll> = Vec::new();
    assert_eq!(record_poll(&mut log, poll_at(0, 180, false, 200, "aa")), 0);
    assert_eq!(log[0].pct, 100);
    for i in 1..MAX_POLLS as i64 {
        assert_eq!(record_poll(&mut log, poll_at(i, 50, false, 204, "bb")), 0);
    }
    assert_eq!(log.len(), MAX_POLLS);
    assert_eq!(record_poll(&mut log, poll_at(1000, 40, true, 200, "cc")), 1);
    assert_eq!(log.len(), MAX_POLLS);
    assert_eq!(log[0].checksum, "bb");
    assert_eq!(log[MAX_POLLS - 1].checksum, "cc");
    assert_eq!(log[MAX_POLLS - 1].pct, 40);
}

#[test]
fn prune_keeps_frames_some_poll_still_names() {
    let polls = vec![poll_at(0, 50, false, 200, "aa11"), poll_at(1, 50, false, 200, "cc33")];
    let stems: Vec<String> = ["aa11", "bb22", "cc33", "dd44"].iter().map(|s| s.to_string()).collect();
    assert_eq!(frames_to_prune(&polls, &stems), vec![1, 3]);
    assert_eq!(frames_to_prune(&[], &stems), vec![0, 1, 2, 3]);
}

#[test]
fn battery_range_ignores_usb_polls() {
    let polls = vec![
        poll_at(0, 80, false, 200, "a"),
        poll_at(1, 10, true, 200, "a"),
        poll_at(2, 70, false, 200, "a"),
        poll_at(3, 75, false, 200, "a"),
    ];
    assert_eq!(battery_mv_range(&polls), 90);
    assert_eq!(battery_mv_range(&polls[1..2]), 0);
    assert_eq!(battery_mv_range(&[]), 0);
}

#[test]
fn duration_reads_in_days_hours_or_minutes() {
    assert_eq!(format_duration(3 * 86_400 + 5 * 3600 + 59), "3 days 5 hours");
    assert_eq!(format_duration(86_400 + 3600), "1 day 1 hour");
    assert_eq!(format_duration(2 * 3600 + 60), "2 hours 1 min");
    assert_eq!(format_duration(3600 + 30 * 60), "1 hour 30 min");
    assert_eq!(format_duration(59), "0 min");
    assert_eq!(format_duration(-500), "0 min");
}
