use family_frame::fw::device::{
    checksum_changed, classify_response, is_up, last_octet, next_sleep, powman_word,
    sample_reading, sof_step, status_line, time_of, time_words, alarm_at, FrameResult,
    FrameStatus, WakeState, WifiStatus, AWAKE_POLL_S, FAIL_SLEEP_S, SLEEP_MAGIC,
};
use family_frame::fw::panel::FRAME_BYTES;

#[test]
fn wake_labels() {
    let mut w = WakeState::at_boot(SLEEP_MAGIC, true, false);
    assert!(w.woke_from_sleep());
    assert!(!w.on_usb());
    assert_eq!(w.wake_label(), "button");
    assert_eq!(w.take_wake_label(), "button");
    assert_eq!(w.wake_label(), "timer");
    w.restore_button_wake("timer");
    assert_eq!(w.wake_label(), "timer");
    w.restore_button_wake("button");
    assert_eq!(w.wake_label(), "button");
    let cold = WakeState::at_boot(0x1234, false, false);
    assert_eq!(cold.wake_label(), "cold");
    assert!(WakeState::at_boot(0, false, true).woke_from_sleep());
}

#[test]
fn sof_debounce() {
    assert_eq!(sof_step(1, 2, 3), (0, Some(true)));
    assert_eq!(sof_step(7, 7, 0), (1, None));
    assert_eq!(sof_step(7, 7, 4), (5, Some(false)));
    assert_eq!(sof_step(7, 7, 200), (5, Some(false)));
}

#[test]
fn powman_words() {
    assert_eq!(powman_word(0x1_2345), 0x5AFE_2345);
    assert_eq!(time_words(0x0001_0002_0003_0004), [4, 3, 2, 1]);
    assert_eq!(time_of(1, 2), (1u64 << 32) | 2);
    assert_eq!(alarm_at(10, 0), 11);
    assert_eq!(alarm_at(u64::MAX - 1, 5), u64::MAX);
}

#[test]
fn battery_reading_from_adc() {
    // 8 samples of 1365 → 1365 raw → 3299 mV.
    assert_eq!(sample_reading(8 * 1365), (3299, 0));
    assert_eq!(sample_reading(8 * 1700), (4108, 89));
    assert_eq!(sample_reading(8 * 2000), (4833, 100));
}

#[test]
fn status_lines() {
    assert_eq!(status_line(WifiStatus::Setup, FrameStatus::Nothing, None), "USB: wifi/save");
    assert_eq!(status_line(WifiStatus::Up, FrameStatus::Nothing, Some(7)), "wifi .7");
    assert_eq!(status_line(WifiStatus::Up, FrameStatus::Loaded, Some(251)), "wifi .251 200");
    assert_eq!(status_line(WifiStatus::Up, FrameStatus::Fail, None), "wifi fail");
    assert_eq!(status_line(WifiStatus::Up, FrameStatus::Nothing, None), "wifi ok");
    assert_eq!(WifiStatus::from_code(WifiStatus::Up.code()), WifiStatus::Up);
    assert_eq!(FrameStatus::from_code(9), FrameStatus::Nothing);
    assert!(is_up(WifiStatus::Up));
    assert_eq!(last_octet(0xFFFF), None);
    assert_eq!(last_octet(12), Some(12));
}

#[test]
fn fetch_classification_and_naps() {
    assert_eq!(classify_response(304, 0), (FrameResult::NotModified, FrameStatus::NotModified));
    assert_eq!(classify_response(200, FRAME_BYTES), (FrameResult::Loaded, FrameStatus::Loaded));
    assert_eq!(classify_response(200, 10), (FrameResult::Failed, FrameStatus::Fail));
    assert_eq!(next_sleep(0, 3), AWAKE_POLL_S);
    assert_eq!(next_sleep(3600, 1), FAIL_SLEEP_S);
    assert_eq!(next_sleep(90, 1), 90);
    assert_eq!(next_sleep(3600, 0), 3600);
    assert!(checksum_changed("ABC", "abd"));
    assert!(!checksum_changed("ABC", "abc"));
    assert!(!checksum_changed("", "abc"));
}
