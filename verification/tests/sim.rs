use family_frame::sim::{
    frame_file_name, frame_url, next_nap, rgba_for, short_checksum, sleep_seconds,
    telemetry_form, unpack_pixels, unpack_preview_png, Telemetry, DEFAULT_SLEEP_S,
    FAIL_SLEEP_S, PANEL_BYTES,
};

#[test]
fn frame_url_has_no_checksum_query() {
    assert_eq!(
        frame_url("http://127.0.0.1:8765/"),
        "http://127.0.0.1:8765/api/frame.bin"
    );
    assert_eq!(
        frame_url("http://127.0.0.1:8765"),
        "http://127.0.0.1:8765/api/frame.bin"
    );
}

#[test]
fn telemetry_form_matches_firmware() {
    assert_eq!(
        telemetry_form(3850, 72, false, "timer"),
        "mv=3850&pct=72&usb=0&wake=timer"
    );
    assert_eq!(
        telemetry_form(3850, 72, false, "button"),
        "mv=3850&pct=72&usb=0&wake=button"
    );
}

#[test]
fn next_nap_matches_firmware() {
    assert_eq!(next_nap(false, Some(3600), 3600), FAIL_SLEEP_S);
    assert_eq!(next_nap(true, Some(90), 3600), 90);
    assert_eq!(next_nap(true, None, 1800), 1800);
    assert_eq!(next_nap(true, Some(0), 0), DEFAULT_SLEEP_S);
    assert_eq!(next_nap(true, None, 0), DEFAULT_SLEEP_S);
}

#[test]
fn sleep_seconds_parses_positive_header() {
    assert_eq!(sleep_seconds("3600"), Some(3600));
    assert_eq!(sleep_seconds("0"), None);
    assert_eq!(sleep_seconds(" 42 "), Some(42));
    assert_eq!(sleep_seconds("soon"), None);
}

#[test]
fn drain_lowers_pct() {
    let mut tel = Telemetry {
        mv: 3800,
        pct: 55,
        usb: false,
        drain: true,
        first: true,
    };
    assert_eq!(tel.body(), "mv=3800&pct=55&usb=0&wake=cold");
    assert_eq!(tel.body(), "mv=3786&pct=54&usb=0&wake=timer");
}

#[test]
fn usb_does_not_drain() {
    let mut tel = Telemetry {
        mv: 4100,
        pct: 90,
        usb: true,
        drain: true,
        first: false,
    };
    assert_eq!(tel.body(), "mv=4100&pct=90&usb=1&wake=timer");
    assert_eq!(tel.pct, 90);
}

#[test]
fn frame_names_use_eight_hex_digits() {
    assert_eq!(short_checksum("abc123def456"), "abc123de");
    assert_eq!(short_checksum("\"x-y\""), "");
    assert_eq!(
        frame_file_name("20260919-180000", "abc123def456"),
        "frame-20260919-180000-abc123de.png"
    );
    assert_eq!(frame_file_name("s", ""), "frame-s.png");
}

#[test]
fn unpack_wrong_size_is_rejected() {
    assert!(unpack_preview_png(&[0u8; 10]).is_err());
    assert_eq!(
        unpack_preview_png(&[0u8; 10]).unwrap_err(),
        "packed frame must be 960000 bytes, got 10"
    );
}

#[test]
fn unpack_expands_nibbles_high_first() {
    let px = unpack_pixels(&[0x35]);
    assert_eq!(px, vec![0xff, 0x00, 0x00, 0xff, 0x00, 0x00, 0xff, 0xff]);
    assert_eq!(rgba_for(7), [0, 0, 0, 0xff]);
}

#[test]
fn writes_png_preview() {
    let bin = vec![0x11; PANEL_BYTES];
    let png = unpack_preview_png(&bin).unwrap();
    assert_eq!(&png[..8], b"\x89PNG\r\n\x1a\n");
}
