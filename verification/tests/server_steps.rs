use family_frame::server::meross_cloud::{ack_decision, mqtt_step, MqttAction, MqttEvent, MqttState};
use family_frame::server::meross_rooms::{hub_indices, room_names};
use family_frame::server::pronote_session::{reply_error, reply_json_error, reply_status};

fn owned(v: &[&str]) -> Vec<String> {
    v.iter().map(|s| s.to_string()).collect()
}

fn sub(id: &str, name: &str, t: &str) -> (String, String, String) {
    (id.to_string(), name.to_string(), t.to_string())
}

#[test]
fn hubs_are_found_by_type_prefix() {
    let types = owned(&["mss310", "MSH300", "msh300hk", "ms100"]);
    assert_eq!(hub_indices(&types), Ok(vec![1, 2]));
}

#[test]
fn account_without_hub_is_refused() {
    let types = owned(&["mss310", "mts200"]);
    assert_eq!(
        hub_indices(&types),
        Err("no Meross hub on this account (looked for msh*)".to_string())
    );
    assert!(hub_indices(&[]).is_err());
}

#[test]
fn room_names_keep_climate_subdevices_and_see_thermostats() {
    let labels = vec![("x1".to_string(), "Bedroom".to_string())];
    let subs = vec![sub("x1", "Sensor 1", "ms100"), sub("x2", "Plug", "mss310"), sub("x3", "", "ms100")];
    let (rooms, thermo) = room_names(&subs, &labels);
    assert_eq!(
        rooms,
        vec![("x1".to_string(), "Bedroom".to_string()), ("x3".to_string(), "x3".to_string())]
    );
    assert!(!thermo);
    let with_trv = vec![sub("x4", "Study TRV", "mts150")];
    let (rooms, thermo) = room_names(&with_trv, &labels);
    assert_eq!(rooms, vec![("x4".to_string(), "Study".to_string())]);
    assert!(thermo);
}

#[test]
fn ack_matches_id_and_method() {
    assert_eq!(ack_decision("m1", "m1", Some("GETACK"), None), Ok(true));
    assert_eq!(ack_decision("m1", "m1", Some("SETACK"), None), Ok(true));
    assert_eq!(ack_decision("m1", "m2", Some("GETACK"), None), Ok(false));
    assert_eq!(ack_decision("", "anything", Some("GETACK"), None), Ok(true));
    assert_eq!(ack_decision("m1", "m1", Some("PUSH"), None), Ok(false));
    assert_eq!(ack_decision("m1", "m1", None, None), Ok(false));
}

#[test]
fn error_reply_is_refused() {
    assert_eq!(
        ack_decision("m1", "m1", Some("ERROR"), Some("bad key")),
        Err("Meross MQTT error: bad key".to_string())
    );
    assert_eq!(
        ack_decision("m1", "m1", Some("ERROR"), None),
        Err("Meross MQTT error: unknown".to_string())
    );
}

#[test]
fn command_goes_out_after_first_suback_only() {
    let st = MqttState { published: false, subacks: 0 };
    let (st, a) = mqtt_step(st, "m1", MqttEvent::SubAck);
    assert_eq!(a, MqttAction::Publish);
    assert!(st.published);
    assert_eq!(st.subacks, 1);
    let (st, a) = mqtt_step(st, "m1", MqttEvent::SubAck);
    assert_eq!(a, MqttAction::Wait);
    assert_eq!(st.subacks, 2);
    let (_, a) = mqtt_step(st, "m1", MqttEvent::Other);
    assert_eq!(a, MqttAction::Wait);
}

#[test]
fn refused_connection_stops_the_loop() {
    let st = MqttState { published: false, subacks: 0 };
    let (_, a) = mqtt_step(
        st,
        "m1",
        MqttEvent::ConnAck { accepted: false, code: "NotAuthorized".to_string() },
    );
    assert_eq!(a, MqttAction::Fail("MQTT connect refused: NotAuthorized".to_string()));
    let st = MqttState { published: false, subacks: 0 };
    let (_, a) = mqtt_step(st, "m1", MqttEvent::ConnAck { accepted: true, code: String::new() });
    assert_eq!(a, MqttAction::Wait);
}

#[test]
fn answer_and_error_replies_end_the_loop() {
    let st = MqttState { published: true, subacks: 1 };
    let reply = Some(("m1".to_string(), Some("GETACK".to_string()), None));
    let (_, a) = mqtt_step(st, "m1", MqttEvent::Publish(reply));
    assert_eq!(a, MqttAction::Answer);
    let st = MqttState { published: true, subacks: 1 };
    let other = Some(("m9".to_string(), Some("GETACK".to_string()), None));
    let (_, a) = mqtt_step(st, "m1", MqttEvent::Publish(other));
    assert_eq!(a, MqttAction::Wait);
    let st = MqttState { published: true, subacks: 1 };
    let err = Some(("m1".to_string(), Some("ERROR".to_string()), Some("offline".to_string())));
    let (_, a) = mqtt_step(st, "m1", MqttEvent::Publish(err));
    assert_eq!(a, MqttAction::Fail("Meross MQTT error: offline".to_string()));
    let st = MqttState { published: true, subacks: 1 };
    let (_, a) = mqtt_step(st, "m1", MqttEvent::Publish(None));
    assert_eq!(a, MqttAction::Wait);
}

#[test]
fn pronote_http_failure_is_reported() {
    assert_eq!(reply_status("Navigation", true, "200 OK", "fine"), Ok(()));
    assert_eq!(
        reply_status("Navigation", false, "500 Internal Server Error", "boom"),
        Err("Pronote Navigation HTTP 500 Internal Server Error: boom".to_string())
    );
    let long = "x".repeat(300);
    let e = reply_status("f", false, "404", &long).unwrap_err();
    assert!(e.starts_with("Pronote f HTTP 404: x"));
    assert!(e.ends_with('…'));
    assert!(e.chars().count() <= "Pronote f HTTP 404: ".len() + 180);
}

#[test]
fn pronote_bad_json_and_error_replies() {
    assert_eq!(reply_json_error("ListeRessources", "<html>"), "Pronote ListeRessources JSON: <html>");
    assert_eq!(reply_error("Authentification", Some(22), Some("Session expirée")), "Pronote Authentification error 22: Session expirée");
    assert_eq!(reply_error("f", None, None), "Pronote f error 0: error");
    assert_eq!(reply_error("f", Some(-3), None), "Pronote f error -3: error");
}
