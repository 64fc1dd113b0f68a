use family_frame::hashing::{md5_hex, sha256_hex};
use family_frame::server::meross_cloud::{
    cloud_nonce, cloud_request, cloud_sign, cloud_status, command_sign, login_fields, mqtt_plan,
    region_redirect,
};
use family_frame::server::meross_rooms::{
    label_for, order_rooms, subdevice_label, thermostat_display_name,
};
use family_frame::server::model::RoomClimate;

fn labels(pairs: &[(&str, &str)]) -> Vec<(String, String)> {
    pairs.iter().map(|(a, b)| (a.to_string(), b.to_string())).collect()
}

fn room(name: &str) -> RoomClimate {
    RoomClimate {
        name: name.to_string(),
        temperature: "20.0°".to_string(),
        humidity: "50%".to_string(),
        online: true,
    }
}

fn names(rooms: &[RoomClimate]) -> Vec<&str> {
    rooms.iter().map(|r| r.name.as_str()).collect()
}

#[test]
fn digests_are_lowercase_hex() {
    assert_eq!(md5_hex(b"hunter2"), "2ab96390c7dbe3439de74d0c9b0b1767");
    assert_eq!(
        sha256_hex(b"abc"),
        "ba7816bf8f01cfea414140de5dae2223b00361a396177a9cb410ff61f20015ad"
    );
}

#[test]
fn command_sign_is_md5_of_id_key_timestamp() {
    let sign = command_sign("mid", "secret", 1_700_000_000);
    assert_eq!(sign, md5_hex(b"midsecret1700000000"));
    assert_eq!(sign, "9cfda020467756b3dd4c486ef94645a6");
}

#[test]
fn cloud_request_signs_base64_params() {
    assert_eq!(cloud_nonce("abcdefghijklmnopqrstuvwxyz"), "ABCDEFGHIJKLMNOP");
    assert_eq!(cloud_nonce("ab12"), "AB12");
    let r = cloud_request(b"{\"a\":1}", "abcdefghijklmnop1234", 1_700_000_000_123);
    assert_eq!(r.params, "eyJhIjoxfQ==");
    assert_eq!(r.nonce, "ABCDEFGHIJKLMNOP");
    assert_eq!(r.timestamp, 1_700_000_000_123);
    assert_eq!(r.sign, "616b292ba698e41a97ab813846de4e5f");
    assert_eq!(r.sign, cloud_sign(1_700_000_000_123, &r.nonce, &r.params));
}

#[test]
fn cloud_status_codes() {
    assert_eq!(cloud_status(0, true, "", "200 OK", ""), Ok(()));
    assert_eq!(
        cloud_status(0, false, "", "200 OK", ""),
        Err("Meross cloud reply had no data".to_string())
    );
    assert_eq!(
        cloud_status(1030, true, "https://iotx-us.meross.com", "200 OK", ""),
        Err("meross-region:https://iotx-us.meross.com".to_string())
    );
    assert_eq!(cloud_status(1032, true, "", "", ""), Err("wrong Meross MFA code".to_string()));
    assert_eq!(
        cloud_status(1004, true, "", "", ""),
        Err("wrong Meross email or password".to_string())
    );
    assert_eq!(cloud_status(1022, true, "", "", ""), Err("Meross token expired".to_string()));
    assert_eq!(
        cloud_status(-7, true, "", "500 Internal Server Error", "boom"),
        Err("Meross API -7 (500 Internal Server Error): boom".to_string())
    );
}

#[test]
fn region_redirect_reads_domain() {
    assert_eq!(
        region_redirect("meross-region:https://iotx-ap.meross.com"),
        Some("https://iotx-ap.meross.com".to_string())
    );
    assert_eq!(region_redirect("wrong Meross MFA code"), None);
}

#[test]
fn login_fields_trim_and_hash() {
    let f = login_fields(" a@b.c ", " hunter2\n", "  ");
    assert_eq!(f.email, "a@b.c");
    assert_eq!(f.password_md5, "2ab96390c7dbe3439de74d0c9b0b1767");
    assert_eq!(f.mfa_code, None);
    assert_eq!(login_fields("a", "b", " 123456 ").mfa_code, Some("123456".to_string()));
}

#[test]
fn mqtt_plan_topics_and_broker() {
    let p = mqtt_plan("42", "k", "hub-uuid", None, Some("mqtt-eu-3.meross.com:2001"), "mqtt.meross.com", "u-1");
    assert_eq!(p.client_id, "app:ce2fc0e0a1f08291ad88e53702e1627f");
    assert_eq!(p.response_topic, "/app/42-ce2fc0e0a1f08291ad88e53702e1627f/subscribe");
    assert_eq!(p.user_topic, "/app/42/subscribe");
    assert_eq!(p.device_topic, "/appliance/hub-uuid/subscribe");
    assert_eq!(p.password, "36cf7813133d6f122e0cefb38fe4fae6");
    assert_eq!((p.host.as_str(), p.port), ("mqtt-eu-3.meross.com", 2001));
    let q = mqtt_plan("42", "k", "h", Some("mqtts://hub.example"), None, "mqtt.meross.com", "u-1");
    assert_eq!((q.host.as_str(), q.port), ("hub.example", 443));
}

#[test]
fn labels_look_up_first_match() {
    let l = labels(&[("a", "Lounge"), ("a", "Other"), ("b", "Hall")]);
    assert_eq!(label_for(&l, "a"), Some("Lounge".to_string()));
    assert_eq!(label_for(&l, "c"), None);
}

#[test]
fn unlabeled_thermostat_defaults_to_kitchen() {
    assert_eq!(thermostat_display_name("MTS200", "id1", &[]), "Kitchen");
    assert_eq!(thermostat_display_name("Office Thermostat", "id1", &[]), "Office");
    assert_eq!(thermostat_display_name(" thermostat ", "", &[]), "Kitchen");
}

#[test]
fn thermostat_label_overrides_kitchen() {
    let l = labels(&[("id1", "Landing")]);
    assert_eq!(thermostat_display_name("MTS200", "id1", &l), "Landing");
    let by_name = labels(&[("MTS200", "Den")]);
    assert_eq!(thermostat_display_name("MTS200", "id1", &by_name), "Den");
}

#[test]
fn subdevices_get_labels_or_are_skipped() {
    let l = labels(&[("Sensor 1", "Bedroom"), ("x2", "Hall")]);
    assert_eq!(subdevice_label("", "Sensor 1", "ms100", &l), None);
    assert_eq!(subdevice_label("x1", "Plug", "mss310", &l), None);
    assert_eq!(subdevice_label("x1", "Sensor 1", "ms100f", &l), Some(("Bedroom".to_string(), false)));
    assert_eq!(subdevice_label("x2", "", "", &l), Some(("Hall".to_string(), false)));
    assert_eq!(subdevice_label("x3", "", "ms100", &l), Some(("x3".to_string(), false)));
    assert_eq!(subdevice_label("x4", "Study TRV", "mts150", &l), Some(("Study".to_string(), true)));
}

#[test]
fn rooms_sort_by_name_without_filter() {
    let mut rooms = vec![room("Studio"), room("Bedroom"), room("Kitchen")];
    order_rooms(&mut rooms, &[]);
    assert_eq!(names(&rooms), vec!["Bedroom", "Kitchen", "Studio"]);
}

#[test]
fn room_filter_keeps_and_orders_named_rooms() {
    let mut rooms = vec![room("Studio"), room("Bedroom"), room("Kitchen"), room("Loft")];
    let wanted = vec!["kitchen".to_string(), "STUDIO".to_string(), "Garage".to_string()];
    order_rooms(&mut rooms, &wanted);
    assert_eq!(names(&rooms), vec!["Kitchen", "Studio"]);
}
