use family_frame::fw::config::{
    checksum, decode, encode, NetConfig, CHECKSUM_MAX, DEFAULT_SLEEP_S, PSK_MAX, RECORD,
    SERVER_MAX, SSID_MAX, SSID_OFF,
};

fn cfg(ssid: &str, psk: &str, server: &str, checksum: &str, sleep_s: u32) -> NetConfig {
    let mut c = NetConfig::empty();
    c.ssid.push_str(ssid);
    c.psk.push_str(psk);
    c.server.push_str(server);
    c.last_checksum.push_str(checksum);
    c.sleep_s = sleep_s;
    c
}

fn with_crc(mut buf: [u8; RECORD]) -> [u8; RECORD] {
    let crc = checksum(&buf[8..]);
    buf[4..8].copy_from_slice(&crc.to_le_bytes());
    buf
}

#[test]
fn empty_is_not_ready_and_defaults_sleep() {
    let c = NetConfig::empty();
    assert!(!c.is_ready());
    assert_eq!(c.sleep_s, DEFAULT_SLEEP_S);
    assert_eq!(decode(&encode(&c)).unwrap(), c);
}

#[test]
fn roundtrip_typical_lan() {
    let c = cfg("home", "secret", "192.168.0.251:8765", "deadbeef", 3600);
    assert!(c.is_ready());
    assert_eq!(decode(&encode(&c)).unwrap(), c);
}

#[test]
fn roundtrip_max_fields_and_zero_sleep() {
    let c = cfg(
        &"s".repeat(SSID_MAX),
        &"p".repeat(PSK_MAX),
        &"h".repeat(SERVER_MAX),
        &"c".repeat(CHECKSUM_MAX),
        0,
    );
    assert_eq!(decode(&encode(&c)).unwrap(), c);
}

#[test]
fn erased_flash_is_rejected() {
    assert!(decode(&[0xFF; RECORD]).is_none());
    assert!(decode(&[0; RECORD]).is_none());
}

#[test]
fn bad_magic_is_rejected() {
    let mut buf = encode(&cfg("a", "", "b", "", 10));
    buf[0] ^= 1;
    assert!(decode(&buf).is_none());
}

#[test]
fn bad_crc_is_rejected() {
    let mut buf = encode(&cfg("a", "", "b", "", 10));
    buf[20] ^= 1;
    assert!(decode(&buf).is_none());
}

#[test]
fn field_longer_than_max_is_rejected() {
    let mut buf = encode(&NetConfig::empty());
    buf[SSID_OFF] = (SSID_MAX + 1) as u8;
    let buf = with_crc(buf);
    assert!(decode(&buf).is_none());
}

#[test]
fn non_utf8_field_is_rejected() {
    let mut buf = encode(&NetConfig::empty());
    buf[SSID_OFF] = 1;
    buf[SSID_OFF + 1] = 0xFF;
    let buf = with_crc(buf);
    assert!(decode(&buf).is_none());
}

#[test]
fn wifi_without_server_is_not_ready() {
    let c = cfg("home", "x", "", "", 60);
    assert!(!c.is_ready());
}

#[test]
fn fnv1a_of_known_inputs() {
    assert_eq!(checksum(b""), 0x811c_9dc5);
    assert_eq!(checksum(b"a"), 0xe40c_292c);
}

#[test]
fn unicode_fields_roundtrip() {
    let c = cfg("café", "π", "h:1", "", 5);
    assert_eq!(decode(&encode(&c)).unwrap(), c);
}

#[test]
fn any_single_byte_change_is_rejected() {
    let good = encode(&cfg("home", "secret", "http://10.0.0.2:8765", "abc", 600));
    for k in 0..RECORD {
        for delta in [1u8, 0x80, 0xFF] {
            let mut buf = good;
            buf[k] ^= delta;
            assert!(decode(&buf).is_none(), "byte {k} ^ {delta}");
        }
    }
}
