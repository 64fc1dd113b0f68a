//! Meross cloud and MQTT framing: request signing, the login fields, the
//! cloud API status codes, and the MQTT identities and topics. The HTTP and
//! MQTT transports, JSON, UUIDs and clocks stay with the caller, which hands
//! in their text.

use vstd::prelude::*;
use vstd::utf8::encode_utf8;
use crate::hashing::{base64_encode, base64_of, hex_of, md5_digest, md5_hex, text_bytes};
use crate::server::meross::{mqtt_host, mqtt_host_of, skip_all, strip_all};
use crate::text::{
    byte_len, chars_of, decimal, decimal_string, push_str, signed_decimal, signed_decimal_string,
    starts_with, string_in, string_of, to_upper, trim, trim_bounds, upper_seq, utf8_len,
};

verus! {

/// Lowercase hex MD5 of the UTF-8 text `s`.
pub open spec fn md5_hex_of(s: Seq<char>) -> Seq<char> {
    hex_of(md5_digest(encode_utf8(s)))
}

fn md5_text(s: &str) -> (r: String)
    ensures
        r@ == md5_hex_of(s@),
{
    let b = text_bytes(s);
    md5_hex(b.as_slice())
}

fn join2(a: &str, b: &str) -> (r: String)
    ensures
        r@ == a@ + b@,
{
    let mut s = String::new();
    push_str(&mut s, a);
    push_str(&mut s, b);
    assert(Seq::<char>::empty() + a@ =~= a@);
    s
}

/// Sign of a device command: MD5 of message id, device key and timestamp.
pub fn command_sign(message_id: &str, key: &str, timestamp: u64) -> (r: String)
    ensures
        r@ == md5_hex_of(message_id@ + key@ + decimal(timestamp as nat)),
{
    let ts = decimal_string(timestamp);
    let mut s = join2(message_id, key);
    push_str(&mut s, ts.as_str());
    md5_text(s.as_str())
}

/// Nonce of a cloud call: the first 16 characters of a simple UUID, uppercased.
pub open spec fn nonce_of(uuid_simple: Seq<char>) -> Seq<char> {
    upper_seq(if uuid_simple.len() <= 16 { uuid_simple } else { uuid_simple.take(16) })
}

pub fn cloud_nonce(uuid_simple: &str) -> (r: String)
    ensures
        r@ == nonce_of(uuid_simple@),
{
    let v = chars_of(uuid_simple);
    let n = if v.len() <= 16 { v.len() } else { 16 };
    let head = string_in(&v, 0, n);
    assert(v@.len() <= 16 ==> v@.subrange(0, n as int) =~= v@);
    assert(v@.len() > 16 ==> v@.subrange(0, n as int) =~= v@.take(16));
    let up = to_upper(chars_of(head.as_str()).as_slice());
    string_of(&up)
}

/// Secret the Meross app signs cloud calls with.
pub open spec fn cloud_secret() -> Seq<char> {
    "23x17ahWarFH6w29"@
}

/// Sign of a cloud call: MD5 of secret, millisecond timestamp, nonce and
/// the base64 parameters.
pub open spec fn cloud_sign_of(timestamp_ms: u64, nonce: Seq<char>, encoded: Seq<char>) -> Seq<char> {
    md5_hex_of(cloud_secret() + decimal(timestamp_ms as nat) + nonce + encoded)
}

pub fn cloud_sign(timestamp_ms: u64, nonce: &str, encoded: &str) -> (r: String)
    ensures
        r@ == cloud_sign_of(timestamp_ms, nonce@, encoded@),
{
    let ts = decimal_string(timestamp_ms);
    let mut s = join2("23x17ahWarFH6w29", ts.as_str());
    push_str(&mut s, nonce);
    push_str(&mut s, encoded);
    md5_text(s.as_str())
}

/// The signed envelope of a cloud call: `params`, `sign`, `timestamp`, `nonce`.
pub struct CloudRequest {
    pub params: String,
    pub sign: String,
    pub timestamp: u64,
    pub nonce: String,
}

/// Frame a cloud call: the JSON parameters in base64, a nonce from the
/// caller's fresh UUID, and the sign over both and the time.
pub fn cloud_request(params_json: &[u8], uuid_simple: &str, timestamp_ms: u64) -> (r: CloudRequest)
    requires
        params_json@.len() <= usize::MAX / 2,
    ensures
        r.params@ == base64_of(params_json@),
        r.nonce@ == nonce_of(uuid_simple@),
        r.timestamp == timestamp_ms,
        r.sign@ == cloud_sign_of(timestamp_ms, r.nonce@, r.params@),
{
    let params = base64_encode(params_json);
    let nonce = cloud_nonce(uuid_simple);
    let sign = cloud_sign(timestamp_ms, nonce.as_str(), params.as_str());
    CloudRequest { params, sign, timestamp: timestamp_ms, nonce }
}

/// What a cloud reply's `apiStatus` means: `Ok` when its data can be used,
/// otherwise the error to report. `region` is the `domain` of a redirect
/// reply, `http_status` and `info` describe other failures.
pub open spec fn cloud_status_of(
    api_status: i64,
    has_data: bool,
    region: Seq<char>,
    http_status: Seq<char>,
    info: Seq<char>,
) -> Result<(), Seq<char>> {
    if api_status == 0 {
        if has_data {
            Ok(())
        } else {
            Err("Meross cloud reply had no data"@)
        }
    } else if api_status == 1030 {
        Err("meross-region:"@ + region)
    } else if api_status == 1033 {
        Err("Meross MFA required — set meross.mfa_code in config.toml"@)
    } else if api_status == 1032 {
        Err("wrong Meross MFA code"@)
    } else if api_status == 1002 || api_status == 1004 || api_status == 1008 {
        Err("wrong Meross email or password"@)
    } else if api_status == 1200 || api_status == 1019 || api_status == 1022 {
        Err("Meross token expired"@)
    } else if api_status == 1301 {
        Err("too many Meross tokens — log out of unused Meross app sessions"@)
    } else {
        Err("Meross API "@ + signed_decimal(api_status) + " ("@ + http_status + "): "@ + info)
    }
}

fn text_err(s: &str) -> (r: Result<(), String>)
    ensures
        r matches Err(e) && e@ == s@,
{
    let mut e = String::new();
    push_str(&mut e, s);
    assert(Seq::<char>::empty() + s@ =~= s@);
    Err(e)
}

pub fn cloud_status(
    api_status: i64,
    has_data: bool,
    region: &str,
    http_status: &str,
    info: &str,
) -> (r: Result<(), String>)
    ensures
        match (r, cloud_status_of(api_status, has_data, region@, http_status@, info@)) {
            (Ok(()), Ok(())) => true,
            (Err(e), Err(f)) => e@ == f,
            _ => false,
        },
{
    if api_status == 0 {
        if has_data {
            return Ok(());
        }
        return text_err("Meross cloud reply had no data");
    }
    if api_status == 1030 {
        let e = join2("meross-region:", region);
        return Err(e);
    }
    if api_status == 1033 {
        return text_err("Meross MFA required — set meross.mfa_code in config.toml");
    }
    if api_status == 1032 {
        return text_err("wrong Meross MFA code");
    }
    if api_status == 1002 || api_status == 1004 || api_status == 1008 {
        return text_err("wrong Meross email or password");
    }
    if api_status == 1200 || api_status == 1019 || api_status == 1022 {
        return text_err("Meross token expired");
    }
    if api_status == 1301 {
        return text_err("too many Meross tokens — log out of unused Meross app sessions");
    }
    let code = signed_decimal_string(api_status);
    let mut e = join2("Meross API ", code.as_str());
    push_str(&mut e, " (");
    push_str(&mut e, http_status);
    push_str(&mut e, "): ");
    push_str(&mut e, info);
    Err(e)
}

/// The region a login was redirected to, from its error text.
pub open spec fn region_of(err: Seq<char>) -> Option<Seq<char>> {
    if starts_with(err, "meross-region:"@) {
        Some(strip_all(err, "meross-region:"@))
    } else {
        None
    }
}

pub fn region_redirect(err: &str) -> (r: Option<String>)
    ensures
        match r {
            Some(d) => region_of(err@) == Some(d@),
            None => region_of(err@) is None,
        },
{
    let v = chars_of(err);
    let p = chars_of("meross-region:");
    let n = v.len();
    assert(v@.subrange(0, n as int) =~= v@);
    if !crate::text::has_prefix_at(&v, 0, &p) {
        return None;
    }
    let i = skip_all(&v, 0, n, &p);
    Some(string_in(&v, i, n))
}

/// Fields of the cloud sign-in: trimmed email, MD5 of the trimmed
/// password, and the trimmed MFA code when one is set.
pub struct LoginFields {
    pub email: String,
    pub password_md5: String,
    pub mfa_code: Option<String>,
}

fn trimmed_text(s: &str) -> (r: String)
    ensures
        r@ == trim(s@),
{
    let v = chars_of(s);
    let (i, j) = trim_bounds(&v);
    string_in(&v, i, j)
}

pub fn login_fields(email: &str, password: &str, mfa_code: &str) -> (r: LoginFields)
    ensures
        r.email@ == trim(email@),
        r.password_md5@ == md5_hex_of(trim(password@)),
        trim(mfa_code@).len() == 0 ==> r.mfa_code is None,
        trim(mfa_code@).len() > 0 ==> (r.mfa_code matches Some(m) && m@ == trim(mfa_code@)),
{
    let e = trimmed_text(email);
    let p = trimmed_text(password);
    let m = trimmed_text(mfa_code);
    let mfa = if m.as_str().is_empty() { None } else { Some(m) };
    LoginFields { email: e, password_md5: md5_text(p.as_str()), mfa_code: mfa }
}

/// Where and as whom one MQTT command goes.
pub struct MqttPlan {
    pub client_id: String,
    pub response_topic: String,
    pub user_topic: String,
    pub device_topic: String,
    pub password: String,
    pub host: String,
    pub port: u16,
}

/// The broker domain a hub is reached through: its own, else its reserved
/// one, else the account's.
pub open spec fn broker_domain_of(hub: Option<Seq<char>>, reserved: Option<Seq<char>>, account: Seq<char>) -> Seq<char> {
    match hub {
        Some(d) => d,
        None => match reserved {
            Some(d) => d,
            None => account,
        },
    }
}

/// Identities and topics for one MQTT command to `hub_uuid`, with a fresh
/// app id made from the caller's UUID text.
pub fn mqtt_plan(
    user_id: &str,
    key: &str,
    hub_uuid: &str,
    hub_domain: Option<&str>,
    reserved_domain: Option<&str>,
    mqtt_domain: &str,
    app_uuid: &str,
) -> (r: MqttPlan)
    ensures
        ({
            let app_id = md5_hex_of("API"@ + app_uuid@);
            let dom = broker_domain_of(
                match hub_domain { Some(d) => Some(d@), None => None },
                match reserved_domain { Some(d) => Some(d@), None => None },
                mqtt_domain@,
            );
            &&& r.client_id@ == "app:"@ + app_id
            &&& r.response_topic@ == "/app/"@ + user_id@ + "-"@ + app_id + "/subscribe"@
            &&& r.user_topic@ == "/app/"@ + user_id@ + "/subscribe"@
            &&& r.device_topic@ == "/appliance/"@ + hub_uuid@ + "/subscribe"@
            &&& r.password@ == md5_hex_of(user_id@ + key@)
            &&& (r.host@, r.port) == mqtt_host_of(dom)
        }),
{
    let app_id = md5_text(join2("API", app_uuid).as_str());
    let client_id = join2("app:", app_id.as_str());
    let mut response_topic = join2("/app/", user_id);
    push_str(&mut response_topic, "-");
    push_str(&mut response_topic, app_id.as_str());
    push_str(&mut response_topic, "/subscribe");
    let mut user_topic = join2("/app/", user_id);
    push_str(&mut user_topic, "/subscribe");
    let mut device_topic = join2("/appliance/", hub_uuid);
    push_str(&mut device_topic, "/subscribe");
    let password = md5_text(join2(user_id, key).as_str());
    let dom = match hub_domain {
        Some(d) => d,
        None => match reserved_domain {
            Some(d) => d,
            None => mqtt_domain,
        },
    };
    let (host, port) = mqtt_host(dom);
    MqttPlan { client_id, response_topic, user_topic, device_topic, password, host, port }
}

/// What the command loop has seen: whether the command went out, and how
/// many subscriptions were acknowledged.
pub struct MqttState {
    pub published: bool,
    pub subacks: u8,
}

/// What the broker's event loop delivered, as the loop reads it.
pub enum MqttEvent {
    SubAck,
    /// A connection answer: accepted, or refused with this code.
    ConnAck { accepted: bool, code: String },
    /// A message whose JSON header carried this message id (empty when
    /// missing) and method, with the error detail of its payload; `None`
    /// when it is not JSON.
    Publish(Option<(String, Option<String>, Option<String>)>),
    Other,
}

/// What to do next.
#[derive(Debug, PartialEq, Eq)]
pub enum MqttAction {
    Wait,
    /// Publish the command to the hub.
    Publish,
    /// The answer arrived: take its payload.
    Answer,
    Fail(String),
}

/// A reply is for this command when no id is expected or its id matches;
/// `GETACK` and `SETACK` answer it, `ERROR` refuses it, anything else is
/// not the answer.
pub open spec fn ack_of(message_id: Seq<char>, mid: Seq<char>, method: Option<Seq<char>>, detail: Option<Seq<char>>) -> Option<Result<(), Seq<char>>> {
    if message_id.len() > 0 && mid != message_id {
        None
    } else {
        match method {
            Some(m) => if m == "GETACK"@ || m == "SETACK"@ {
                Some(Ok(()))
            } else if m == "ERROR"@ {
                Some(Err("Meross MQTT error: "@ + match detail {
                    Some(d) => d,
                    None => "unknown"@,
                }))
            } else {
                None
            },
            None => None,
        }
    }
}

fn same(a: &str, b: &str) -> (r: bool)
    ensures
        r == (a@ == b@),
{
    crate::text::same_text(a, b)
}

/// Whether a reply answers the command (`Ok(true)`), is not its answer
/// (`Ok(false)`), or refuses it.
pub fn ack_decision(message_id: &str, mid: &str, method: Option<&str>, detail: Option<&str>) -> (r: Result<bool, String>)
    ensures
        match ack_of(message_id@, mid@, match method { Some(m) => Some(m@), None => None }, match detail {
            Some(d) => Some(d@),
            None => None,
        }) {
            None => r == Ok::<bool, String>(false),
            Some(Ok(())) => r == Ok::<bool, String>(true),
            Some(Err(e)) => r matches Err(m) && m@ == e,
        },
{
    if !message_id.is_empty() && !same(mid, message_id) {
        return Ok(false);
    }
    match method {
        Some(m) => {
            if same(m, "GETACK") || same(m, "SETACK") {
                Ok(true)
            } else if same(m, "ERROR") {
                let mut e = String::new();
                push_str(&mut e, "Meross MQTT error: ");
                match detail {
                    Some(d) => push_str(&mut e, d),
                    None => push_str(&mut e, "unknown"),
                }
                assert(e@ =~= "Meross MQTT error: "@ + match detail {
                    Some(d) => d@,
                    None => "unknown"@,
                });
                Err(e)
            } else {
                Ok(false)
            }
        },
        None => Ok(false),
    }
}

/// One event of the command loop: publish after the first acknowledged
/// subscription, stop at a refused connection, at the answer, or at an
/// error reply; wait otherwise.
pub fn mqtt_step(st: MqttState, message_id: &str, ev: MqttEvent) -> (r: (MqttState, MqttAction))
    ensures
        match ev {
            MqttEvent::SubAck => {
                &&& r.0.subacks == (if st.subacks < 255 { (st.subacks + 1) as u8 } else { 255u8 })
                &&& r.0.published
                &&& r.1 == (if st.published { MqttAction::Wait } else { MqttAction::Publish })
            },
            MqttEvent::ConnAck { accepted, code } => {
                &&& r.0 == st
                &&& accepted ==> r.1 == MqttAction::Wait
                &&& !accepted ==> (r.1 matches MqttAction::Fail(m) && m@ == "MQTT connect refused: "@ + code@)
            },
            MqttEvent::Publish(Some((mid, method, detail))) => {
                &&& r.0 == st
                &&& match ack_of(message_id@, mid@, match method { Some(m) => Some(m@), None => None }, match detail {
                    Some(d) => Some(d@),
                    None => None,
                }) {
                    None => r.1 == MqttAction::Wait,
                    Some(Ok(())) => r.1 == MqttAction::Answer,
                    Some(Err(e)) => r.1 matches MqttAction::Fail(m) && m@ == e,
                }
            },
            _ => r.0 == st && r.1 == MqttAction::Wait,
        },
{
    match ev {
        MqttEvent::SubAck => {
            let n: u8 = if st.subacks < 255 { st.subacks + 1 } else { 255 };
            if !st.published {
                (MqttState { published: true, subacks: n }, MqttAction::Publish)
            } else {
                (MqttState { published: true, subacks: n }, MqttAction::Wait)
            }
        },
        MqttEvent::ConnAck { accepted, code } => {
            if accepted {
                (st, MqttAction::Wait)
            } else {
                let mut m = String::new();
                push_str(&mut m, "MQTT connect refused: ");
                push_str(&mut m, code.as_str());
                assert(m@ =~= "MQTT connect refused: "@ + code@);
                (st, MqttAction::Fail(m))
            }
        },
        MqttEvent::Publish(Some((mid, method, detail))) => {
            let md = match &method {
                Some(x) => Some(x.as_str()),
                None => None,
            };
            let dd = match &detail {
                Some(x) => Some(x.as_str()),
                None => None,
            };
            match ack_decision(message_id, mid.as_str(), md, dd) {
                Ok(true) => (st, MqttAction::Answer),
                Ok(false) => (st, MqttAction::Wait),
                Err(e) => (st, MqttAction::Fail(e)),
            }
        },
        _ => (st, MqttAction::Wait),
    }
}

} // verus!
