use family_frame::fw::cli::{
    handle_line, show_text, split_cmd, CliAction, KeyAction, LineEditor, LINE_MAX, SHOW_MAX,
};
use family_frame::fw::config::NetConfig;

fn run(cfg: &mut NetConfig, line: &str) -> (String, CliAction) {
    let r = handle_line(cfg, line);
    (r.text, r.action)
}

#[test]
fn split_cmd_takes_first_word_and_trimmed_rest() {
    assert_eq!(split_cmd("wifi  home net "), ("wifi".to_string(), "home net".to_string()));
    assert_eq!(split_cmd("show"), ("show".to_string(), String::new()));
    assert_eq!(split_cmd("psk\t"), ("psk".to_string(), String::new()));
}

#[test]
fn wifi_psk_server_update_settings() {
    let mut c = NetConfig::empty();
    let (t, a) = run(&mut c, "  wifi home ");
    assert_eq!(t, "ok. type save when ready.\r\n");
    assert_eq!(a, CliAction::Nothing);
    assert_eq!(c.ssid, "home");
    run(&mut c, "psk secret");
    assert_eq!(c.psk, "secret");
    run(&mut c, "server 192.168.0.251:8765");
    assert_eq!(c.server, "192.168.0.251:8765");
    assert!(c.is_ready());
}

#[test]
fn wifi_rejects_empty_and_long_names() {
    let mut c = NetConfig::empty();
    assert_eq!(run(&mut c, "wifi").0, "usage: wifi <ssid> (max 32)\r\n");
    let long = format!("wifi {}", "s".repeat(33));
    assert_eq!(run(&mut c, &long).0, "usage: wifi <ssid> (max 32)\r\n");
    assert_eq!(c.ssid, "");
    let max = format!("wifi {}", "s".repeat(32));
    assert_eq!(run(&mut c, &max).0, "ok. type save when ready.\r\n");
    assert_eq!(c.ssid.len(), 32);
}

#[test]
fn psk_may_be_empty_but_not_too_long() {
    let mut c = NetConfig::empty();
    c.psk.push_str("old");
    assert_eq!(run(&mut c, "psk").0, "ok. type save when ready.\r\n");
    assert_eq!(c.psk, "");
    let long = format!("psk {}", "p".repeat(65));
    assert_eq!(run(&mut c, &long).0, "psk too long (max 64)\r\n");
}

#[test]
fn server_must_parse() {
    let mut c = NetConfig::empty();
    assert_eq!(
        run(&mut c, "server :80").0,
        "usage: server <host:port>\r\n  example: 192.168.0.251:8765\r\n"
    );
    assert_eq!(c.server, "");
    run(&mut c, "server http://frame.local/x");
    assert_eq!(c.server, "http://frame.local/x");
}

#[test]
fn save_needs_wifi_and_server() {
    let mut c = NetConfig::empty();
    assert_eq!(run(&mut c, "save"), ("need wifi and server first.\r\n".to_string(), CliAction::Nothing));
    run(&mut c, "wifi home");
    run(&mut c, "server 10.0.0.2:8765");
    assert_eq!(run(&mut c, "save"), (String::new(), CliAction::Save));
}

#[test]
fn forget_clears_checksum_and_persists_when_ready() {
    let mut c = NetConfig::empty();
    c.last_checksum.push_str("abc");
    assert_eq!(run(&mut c, "forget"), ("checksum cleared.\r\n".to_string(), CliAction::Nothing));
    assert_eq!(c.last_checksum, "");
    run(&mut c, "wifi home");
    run(&mut c, "server 10.0.0.2");
    c.last_checksum.push_str("abc");
    assert_eq!(run(&mut c, "forget").1, CliAction::Persist);
    assert_eq!(c.last_checksum, "");
}

#[test]
fn clear_resets_everything() {
    let mut c = NetConfig::empty();
    run(&mut c, "wifi home");
    c.sleep_s = 5;
    assert_eq!(run(&mut c, "clear"), ("cleared.\r\n".to_string(), CliAction::Erase));
    assert_eq!(c, NetConfig::empty());
}

#[test]
fn help_show_and_unknown() {
    let mut c = NetConfig::empty();
    assert!(run(&mut c, "help").0.starts_with("wifi <ssid>\r\n"));
    assert_eq!(run(&mut c, "?").0, run(&mut c, "help").0);
    assert_eq!(run(&mut c, "show"), (String::new(), CliAction::Show));
    assert_eq!(run(&mut c, "reboot").0, "unknown command. type help.\r\n");
    assert_eq!(run(&mut c, "HELP").0, "unknown command. type help.\r\n");
}

#[test]
fn line_editor_echoes_erases_and_caps() {
    let mut e = LineEditor::new();
    assert_eq!(e.feed(b'a'), KeyAction::Echo);
    assert_eq!(e.feed(b' '), KeyAction::Echo);
    assert_eq!(e.feed(0x07), KeyAction::Ignored);
    assert_eq!(e.feed(0x7f), KeyAction::Erased);
    assert_eq!(e.as_str(), "a");
    assert_eq!(e.feed(0x08), KeyAction::Erased);
    assert_eq!(e.feed(0x08), KeyAction::Ignored);
    for _ in 0..LINE_MAX {
        assert_eq!(e.feed(b'x'), KeyAction::Echo);
    }
    assert_eq!(e.feed(b'y'), KeyAction::Ignored);
    assert_eq!(e.feed(b'\r'), KeyAction::Enter);
    let line = e.take();
    assert_eq!(line.len(), LINE_MAX);
    assert_eq!(e.as_str(), "");
    assert_eq!(e.feed(0xc3), KeyAction::Ignored);
}

#[test]
fn show_lists_settings() {
    let mut c = NetConfig::empty();
    c.ssid.push_str("home");
    c.server.push_str("10.0.0.2:8765");
    let s = show_text(&c, "wifi: joining", 3900, 66, false, "timer");
    assert_eq!(
        s,
        "ssid: home\r\npsk:  (none)\r\nurl:  10.0.0.2:8765\r\nsleep: 3600 s (from server)\r\nchecksum: (none)\r\nwifi: joining\r\nbattery: 3900 mV ~66%\r\nleds: battery (user LED off)\r\nwake: timer\r\n"
    );
}

#[test]
fn show_stops_at_capacity() {
    let mut c = NetConfig::empty();
    c.ssid.push_str(&"s".repeat(32));
    c.psk.push_str("p");
    c.server.push_str(&"h".repeat(128));
    c.last_checksum.push_str(&"c".repeat(80));
    let s = show_text(&c, &"w".repeat(40), 4_000_000_000, 100, true, "button");
    assert!(s.len() <= SHOW_MAX);
    assert!(s.contains("(set)"));
    assert!(!s.ends_with("wake: button\r\n"));
}
