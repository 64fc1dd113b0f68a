use family_frame::fw::protocol::{
    frame_target, frame_url, parse_server, post_frame_request, sanitize_wake_at, telemetry_form,
};

fn expect_url(base: &str, want: &str) {
    let got = frame_url::<256>(base).expect("url");
    assert_eq!(got.as_str(), want);
}

#[test]
fn strips_trailing_slash() {
    expect_url(
        "http://127.0.0.1:8765/",
        "http://127.0.0.1:8765/api/frame.bin",
    );
}

#[test]
fn lan_host() {
    expect_url(
        "http://192.168.0.251:8765/",
        "http://192.168.0.251:8765/api/frame.bin",
    );
}

#[test]
fn parse_host_port() {
    let t = parse_server("192.168.0.251:8765").unwrap();
    assert_eq!(t.host.as_str(), "192.168.0.251");
    assert_eq!(t.port, 8765);
    assert_eq!(t.path.as_str(), "/");
}

#[test]
fn frame_target_appends_bin_without_checksum() {
    let t = frame_target("192.168.0.251:8765").unwrap();
    assert_eq!(t.host.as_str(), "192.168.0.251");
    assert_eq!(t.port, 8765);
    assert_eq!(t.path.as_str(), "/api/frame.bin");
}

#[test]
fn telemetry_form_encodes_fields() {
    assert_eq!(
        telemetry_form(3850, 72, false, "timer", "").as_str(),
        "mv=3850&pct=72&usb=0&wake=timer"
    );
    assert_eq!(
        telemetry_form(4200, 100, true, "cold", "").as_str(),
        "mv=4200&pct=100&usb=1&wake=cold"
    );
    assert_eq!(
        telemetry_form(3850, 72, false, "button", "").as_str(),
        "mv=3850&pct=72&usb=0&wake=button"
    );
    assert_eq!(
        telemetry_form(3850, 72, false, "timer", "2026-09-19T18:00:00Z").as_str(),
        "mv=3850&pct=72&usb=0&wake=timer&wake_at=2026-09-19T18:00:00Z"
    );
    assert_eq!(
        telemetry_form(3850, 72, false, "timer", "bad&x=1").as_str(),
        "mv=3850&pct=72&usb=0&wake=timer"
    );
}

#[test]
fn post_request_keeps_checksum_on_if_none_match() {
    let body = telemetry_form(3850, 72, false, "timer", "");
    let req = post_frame_request::<384>(
        "192.168.0.251",
        8765,
        "/api/frame.bin",
        "abc123",
        body.as_str(),
    )
    .unwrap();
    let s = req.as_str();
    assert!(s.starts_with("POST /api/frame.bin HTTP/1.1\r\n"));
    assert!(s.contains("Host: 192.168.0.251:8765\r\n"));
    assert!(s.contains("If-None-Match: abc123\r\n"));
    assert!(s.contains("Content-Type: application/x-www-form-urlencoded\r\n"));
    assert!(s.contains(&format!("Content-Length: {}\r\n", body.len())));
    assert!(s.ends_with("\r\n\r\nmv=3850&pct=72&usb=0&wake=timer"));
    assert!(!s.contains("checksum="));
}

#[test]
fn post_request_echoes_stored_wake_at() {
    let body = telemetry_form(3850, 72, false, "timer", "2026-09-19T18:00:00Z");
    let req = post_frame_request::<512>(
        "192.168.0.251",
        8765,
        "/api/frame.bin",
        "abc123",
        body.as_str(),
    )
    .unwrap();
    assert!(req
        .as_str()
        .ends_with("\r\n\r\nmv=3850&pct=72&usb=0&wake=timer&wake_at=2026-09-19T18:00:00Z"));
}

#[test]
fn post_request_omits_if_none_match_when_empty() {
    let body = "mv=1&pct=0&usb=0&wake=cold";
    let req = post_frame_request::<384>("127.0.0.1", 80, "/api/frame.bin", "", body).unwrap();
    let s = req.as_str();
    assert!(s.starts_with("POST /api/frame.bin HTTP/1.1\r\nHost: 127.0.0.1\r\n"));
    assert!(!s.contains("If-None-Match"));
    assert!(s.contains(&format!("Content-Length: {}\r\n", body.len())));
}

#[test]
fn request_too_large_is_refused() {
    let body = "x".repeat(400);
    assert!(post_frame_request::<384>("h", 80, "/", "", &body).is_none());
}

#[test]
fn server_forms() {
    let t = parse_server("  http://example.org/base/  ").unwrap();
    assert_eq!(t.host, "example.org");
    assert_eq!(t.port, 80);
    assert_eq!(t.path, "/base/");
    assert!(parse_server("host:99999/x").is_none());
    assert!(parse_server("").is_none());
    assert!(parse_server(":80/x").is_none());
    assert!(parse_server("/only/path").is_none());
    let t = parse_server("host:abc").unwrap();
    assert_eq!(t.host, "host:abc");
    assert_eq!(t.port, 80);
}

#[test]
fn frame_url_rejects_blank_and_too_long() {
    assert!(frame_url::<256>("  ///  ").is_none());
    assert!(frame_url::<16>("http://a.b").is_none());
    assert_eq!(frame_url::<64>(" h:1// ").unwrap(), "h:1/api/frame.bin");
}

#[test]
fn wake_at_tokens() {
    assert_eq!(sanitize_wake_at(" \"2026-09-19T18:00:00Z\" ").as_deref(), Some("2026-09-19T18:00:00Z"));
    assert_eq!(sanitize_wake_at("a=b"), None);
    assert_eq!(sanitize_wake_at(""), None);
    assert_eq!(sanitize_wake_at(&"x".repeat(33)), None);
    assert_eq!(sanitize_wake_at(&"x".repeat(32)).as_deref(), Some("x".repeat(32).as_str()));
}

#[test]
fn telemetry_form_drops_pieces_that_do_not_fit() {
    let wake = "w".repeat(80);
    let body = telemetry_form(1, 2, false, &wake, "");
    assert_eq!(body, "mv=1&pct=2&usb=0&wake=");
    assert!(body.len() <= 96);
}
