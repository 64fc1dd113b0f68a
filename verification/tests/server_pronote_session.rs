use cbc::cipher::block_padding::Pkcs7;
use cbc::cipher::{BlockDecryptMut, BlockEncryptMut, KeyIvInit};
use family_frame::server::pronote_session::{
    choose_child, comma_bytes, login_begin, login_key, login_start, login_step, login_uuid, rsa_pkcs1_encrypt,
    session_key, solve_challenge, start_attrs, start_params, DataSec, LoginAction, LoginReply,
    LoginStage, LoginState, SessionState, StartParams,
};
use md5::Digest;
use std::io::{Read, Write};

fn aes_enc(key: &[u8], iv: &[u8], data: &[u8]) -> Vec<u8> {
    cbc::Encryptor::<aes::Aes128>::new_from_slices(key, iv)
        .unwrap()
        .encrypt_padded_vec_mut::<Pkcs7>(data)
}

fn aes_dec(key: &[u8], iv: &[u8], data: &[u8]) -> Vec<u8> {
    cbc::Decryptor::<aes::Aes128>::new_from_slices(key, iv)
        .unwrap()
        .decrypt_padded_vec_mut::<Pkcs7>(data)
        .unwrap()
}

fn md5_of(data: &[u8]) -> Vec<u8> {
    md5::Md5::digest(data).to_vec()
}

fn get<'a>(attrs: &'a [(String, String)], key: &str) -> Option<&'a str> {
    attrs.iter().rev().find(|(k, _)| k == key).map(|(_, v)| v.as_str())
}

fn pairs(list: &[(&str, &str)]) -> Vec<(String, String)> {
    list.iter().map(|(k, v)| (k.to_string(), v.to_string())).collect()
}

fn params(encrypt: bool, compress: bool) -> StartParams {
    StartParams { session_id: 2052117, espace: 3, encrypt, compress, http_rsa: false }
}

#[test]
fn first_numero_ordre_matches_protocol() {
    let s = SessionState::new("https://demo.index-education.net/pronote".to_string(), &params(true, true));
    assert_eq!(s.key, md5_of(b""));
    assert_eq!(s.iv, vec![0u8; 16]);
    assert_eq!(s.order(), "3fa959b13967e0ef176069e01e23c8d7");
}

#[test]
fn parses_start_attributes() {
    let html = r#"<body onload="try { Start ({h:'2052117',sCrA:true,sCoA:true,a:3,d:true}) } catch (e) {}">"#;
    let attrs = start_attrs(html).unwrap();
    assert_eq!(get(&attrs, "h").unwrap(), "2052117");
    assert_eq!(get(&attrs, "sCrA").unwrap(), "true");
    assert_eq!(get(&attrs, "a").unwrap(), "3");
}

#[test]
fn parses_json_start_attributes() {
    let html = r#"window.addEventListener("load", () => {try{Start ({"h":1697793,"d":true,"a":3});} catch (e) {}})"#;
    let attrs = start_attrs(html).unwrap();
    assert_eq!(get(&attrs, "h").unwrap(), "1697793");
    assert_eq!(get(&attrs, "a").unwrap(), "3");
    assert_eq!(get(&attrs, "d").unwrap(), "true");
}

#[test]
fn start_attrs_refusals() {
    assert_eq!(
        start_attrs("Your IP is suspended").unwrap_err(),
        "Pronote has suspended this IP address"
    );
    assert_eq!(start_attrs("<html></html>").unwrap_err(), "Pronote HTML is missing Start({...})");
    assert_eq!(start_attrs("Start () nothing").unwrap_err(), "Pronote HTML Start() has no object");
    assert_eq!(start_attrs("Start ({h:1").unwrap_err(), "Pronote HTML Start() object is unclosed");
    assert_eq!(
        start_attrs("Start ({a:3})").unwrap_err(),
        "Pronote HTML Start() is missing session id h"
    );
}

#[test]
fn start_params_rules() {
    let p = start_params(&pairs(&[("h", "2052117")]), "https://x/pronote/").unwrap();
    assert_eq!(p, StartParams { session_id: 2052117, espace: 3, encrypt: false, compress: false, http_rsa: false });
    let p = start_params(
        &pairs(&[("h", "-5"), ("a", "7"), ("CrA", "1"), ("sCoA", "false"), ("http", "yes")]),
        "https://x",
    )
    .unwrap();
    assert_eq!(p, StartParams { session_id: -5, espace: 7, encrypt: true, compress: true, http_rsa: true });
    let p = start_params(&pairs(&[("h", "1"), ("a", "x"), ("h", "2")]), "  HTTP://plain").unwrap();
    assert_eq!(p.session_id, 2);
    assert_eq!(p.espace, 3);
    assert!(p.http_rsa);
    assert_eq!(
        start_params(&pairs(&[("a", "3")]), "https://x").unwrap_err(),
        "Pronote HTML is missing a session id"
    );
    assert_eq!(start_params(&pairs(&[("h", "12a")]), "https://x").unwrap_err(), "Pronote session id");
}

#[test]
fn comma_separated_key_bytes() {
    assert_eq!(comma_bytes("12, 0,255").unwrap(), vec![12u8, 0, 255]);
    assert_eq!(comma_bytes("1,x").unwrap_err(), "bad Pronote key byte `x`");
    assert_eq!(comma_bytes("1, 256").unwrap_err(), "bad Pronote key byte ` 256`");
}

#[test]
fn login_key_hashes_alea_and_password() {
    let mtp = hex::encode_upper(sha2::Sha256::digest(b"aleaSecret"));
    let expected = md5_of(format!("Jean{mtp}").as_bytes());
    assert_eq!(login_key("alea", "Jean", "Secret", false, false), expected);
    let mtp = hex::encode_upper(sha2::Sha256::digest(b"aleasecret"));
    let expected = md5_of(format!("jean{mtp}").as_bytes());
    assert_eq!(login_key("alea", "Jean", "Secret", true, true), expected);
}

#[test]
fn challenge_keeps_every_other_character() {
    let key = md5_of(b"k");
    let iv = [7u8; 16];
    let challenge = hex::encode(aes_enc(&key, &iv, b"a1b2c3"));
    let solved = solve_challenge(&challenge, &key, &iv);
    assert_eq!(solved, hex::encode(aes_enc(&key, &iv, b"abc")));
    assert_eq!(solve_challenge("zz", &key, &iv), hex::encode(aes_enc(&key, &iv, b"zz")));
}

#[test]
fn session_key_from_cle() {
    let temp = md5_of(b"temp");
    let iv = [1u8; 16];
    let cle = hex::encode(aes_enc(&temp, &iv, b"1,2,3"));
    assert_eq!(session_key(&cle, &temp, &iv).unwrap(), md5_of(&[1u8, 2, 3]));
    assert_eq!(session_key("xyz", &temp, &iv).unwrap_err(), "Pronote key is not hex");
    let bad = hex::encode(aes_enc(&temp, &iv, b"1,zz"));
    assert_eq!(session_key(&bad, &temp, &iv).unwrap_err(), "bad Pronote key byte `zz`");
}

#[test]
fn plain_request_framing() {
    let mut s = SessionState::new("https://x/pronote".to_string(), &params(false, false));
    assert_eq!(s.payload(Some(88), Some("{\"x\":1}")), "{\"Signature\":{\"onglet\":88},\"data\":{\"x\":1}}");
    assert_eq!(s.payload(None, None), "{}");
    assert_eq!(s.payload(None, Some("null")), "{\"data\":null}");
    s.child_id = Some("a\"b\n".to_string());
    assert_eq!(
        s.payload(Some(198), None),
        "{\"Signature\":{\"membre\":{\"G\":4,\"N\":\"a\\\"b\\n\"},\"onglet\":198}}"
    );
    let r = s.request(None, Some("{}"));
    assert_eq!(r.order, "3fa959b13967e0ef176069e01e23c8d7");
    assert_eq!(r.url, "https://x/pronote/appelfonction/3/2052117/3fa959b13967e0ef176069e01e23c8d7");
    match r.data_sec {
        DataSec::Json(t) => assert_eq!(t, "{\"data\":{}}"),
        DataSec::Text(_) => panic!("expected the JSON body"),
    }
}

#[test]
fn encrypted_compressed_request_round_trips() {
    let s = SessionState::new("https://x".to_string(), &params(true, true));
    let body = "{\"data\":{\"a\":1}}";
    match s.data_sec(body) {
        DataSec::Text(t) => {
            let raw = hex::decode(&t).unwrap();
            assert_eq!(t, t.to_uppercase());
            let z = aes_dec(&s.key, &s.iv, &raw);
            let mut out = String::new();
            flate2::read::DeflateDecoder::new(&z[..]).read_to_string(&mut out).unwrap();
            assert_eq!(out, hex::encode(body));
        },
        DataSec::Json(_) => panic!("expected hex"),
    }
    let s = SessionState::new("https://x".to_string(), &params(false, true));
    match s.data_sec("{}") {
        DataSec::Text(t) => assert!(!t.is_empty() && hex::decode(&t).is_ok()),
        DataSec::Json(_) => panic!("expected hex"),
    }
}

#[test]
fn replies_open_with_the_session_key() {
    let s = SessionState::new("https://x".to_string(), &params(true, true));
    let mut enc = flate2::write::DeflateEncoder::new(Vec::new(), flate2::Compression::new(6));
    enc.write_all(hex::encode("{\"ok\":true}").as_bytes()).unwrap();
    let z = enc.finish().unwrap();
    let sec = hex::encode_upper(aes_enc(&s.key, &s.iv, &z));
    assert_eq!(s.open_reply(&sec).unwrap(), b"{\"ok\":true}".to_vec());
    assert_eq!(s.open_reply("nothex").unwrap_err(), "Pronote dataSec hex");
    let plain = SessionState::new("https://x".to_string(), &params(false, false));
    assert_eq!(plain.open_reply(&hex::encode("{}")).unwrap(), b"{}".to_vec());
}

#[test]
fn calls_advance_the_counter_and_iv() {
    let mut s = SessionState::new("https://x".to_string(), &params(true, false));
    let first = s.order();
    s.advance(None);
    assert_eq!(s.request_number, 3);
    assert_ne!(s.order(), first);
    s.advance(Some(vec![9u8; 16]));
    assert_eq!(s.request_number, 5);
    assert_eq!(s.iv, vec![9u8; 16]);
    s.set_key(md5_of(b"x"));
    assert_eq!(s.key, md5_of(b"x"));
}


fn expect_call(a: &LoginAction, function: &str) -> Option<String> {
    match a {
        LoginAction::Call { function: f, data, .. } => {
            assert_eq!(f, function);
            data.clone()
        },
        LoginAction::Done => panic!("expected a call, got done"),
        LoginAction::Fail(m) => panic!("expected a call, got failure {m}"),
    }
}

fn expect_fail(a: &LoginAction) -> String {
    match a {
        LoginAction::Fail(m) => m.clone(),
        _ => panic!("expected a failure"),
    }
}

fn started(pin: &str) -> LoginState {
    let session = SessionState::new("https://x/pronote".to_string(), &params(false, false));
    let raw_iv = [5u8; 16];
    let (st, a) = login_start(session, " Jean ", " Secret ", pin, &raw_iv, "dXVpZA==");
    match &a {
        LoginAction::Call { function, data, next_iv } => {
            assert_eq!(function, "FonctionParametres");
            assert_eq!(data.as_deref(), Some("{\"Uuid\":\"dXVpZA==\",\"identifiantNav\":null}"));
            assert_eq!(next_iv.as_deref(), Some(&md5_of(&raw_iv)[..]));
        },
        _ => panic!("expected the first call"),
    }
    assert_eq!(st.stage, LoginStage::Parameters);
    assert_eq!(st.username, "Jean");
    st
}

#[test]
fn login_walks_through_its_calls() {
    let st = started(" 1234 ");
    let (mut st, a) = login_step(st, LoginReply::Parameters);
    assert_eq!(
        expect_call(&a, "Identification").unwrap(),
        "{\"demandeConnexionAppliMobile\":false,\"demandeConnexionAppliMobileJeton\":false,\"demandeConnexionAuto\":false,\"enConnexionAppliMobile\":false,\"enConnexionAuto\":false,\"genreConnexion\":0,\"genreEspace\":3,\"identifiant\":\"Jean\",\"loginTokenSAV\":\"\",\"pourENT\":false,\"uuidAppliMobile\":\"\"}"
    );
    st.session.advance(Some(md5_of(&[5u8; 16])));
    let iv = st.session.iv.clone();
    let tk = login_key("alea", "Jean", "Secret", true, false);
    let challenge = hex::encode(aes_enc(&tk, &iv, b"a1b2"));
    let (st, a) = login_step(
        st,
        LoginReply::Identification { lower_user: true, lower_pass: false, alea: "alea".to_string(), challenge: Some(challenge) },
    );
    assert_eq!(st.temp_key, tk);
    let solved = hex::encode(aes_enc(&tk, &iv, b"ab"));
    assert_eq!(
        expect_call(&a, "Authentification").unwrap(),
        format!("{{\"challenge\":\"{solved}\",\"connexion\":0,\"espace\":3}}")
    );
    let cle = hex::encode(aes_enc(&tk, &iv, b"7,8,9"));
    let (st, a) = login_step(st, LoginReply::Authentication { cle: Some(cle), double_auth: Some(vec![1, 3]) });
    let key = md5_of(&[7u8, 8, 9]);
    assert_eq!(st.session.key, key);
    let code = hex::encode(aes_enc(&key, &iv, b"1234"));
    assert_eq!(
        expect_call(&a, "SecurisationCompteDoubleAuth").unwrap(),
        format!("{{\"action\":0,\"codePin\":\"{code}\"}}")
    );
    let (st, a) = login_step(st, LoginReply::DoubleAuth { accepted: true });
    assert_eq!(expect_call(&a, "ParametresUtilisateur"), None);
    let (st, a) = login_step(st, LoginReply::User);
    assert!(matches!(a, LoginAction::Done));
    assert_eq!(st.stage, LoginStage::Done);
}

#[test]
fn login_refusals() {
    let (st, _) = login_step(started(""), LoginReply::Parameters);
    let (_, a) = login_step(
        st,
        LoginReply::Identification { lower_user: false, lower_pass: false, alea: String::new(), challenge: None },
    );
    assert_eq!(expect_fail(&a), "Pronote Identification returned no challenge");

    let (st, _) = login_step(started(""), LoginReply::Parameters);
    let (st, _) = login_step(
        st,
        LoginReply::Identification { lower_user: false, lower_pass: false, alea: String::new(), challenge: Some("00".to_string()) },
    );
    let tk = st.temp_key.clone();
    let iv = st.session.iv.clone();
    let (_, a) = login_step(st, LoginReply::Authentication { cle: None, double_auth: None });
    assert_eq!(expect_fail(&a), "Pronote login failed (check username/password)");

    let (st, _) = login_step(started(""), LoginReply::Parameters);
    let (st, _) = login_step(
        st,
        LoginReply::Identification { lower_user: false, lower_pass: false, alea: String::new(), challenge: Some("00".to_string()) },
    );
    let cle = hex::encode(aes_enc(&tk, &iv, b"1,2"));
    let (_, a) = login_step(st, LoginReply::Authentication { cle: Some(cle.clone()), double_auth: Some(vec![3]) });
    assert_eq!(expect_fail(&a), "Pronote asked for a 2FA PIN; set pronote.pin in config.toml");

    let (st, _) = login_step(started(""), LoginReply::Parameters);
    let (st, _) = login_step(
        st,
        LoginReply::Identification { lower_user: false, lower_pass: false, alea: String::new(), challenge: Some("00".to_string()) },
    );
    let (st, a) = login_step(st, LoginReply::Authentication { cle: Some(cle), double_auth: Some(vec![1]) });
    assert_eq!(expect_call(&a, "ParametresUtilisateur"), None);
    assert_eq!(st.stage, LoginStage::User);

    let (_, a) = login_step(started("9"), LoginReply::User);
    assert_eq!(expect_fail(&a), "Pronote login out of step");

    let mut st = started("9");
    st.stage = LoginStage::DoubleAuth;
    let (_, a) = login_step(st, LoginReply::DoubleAuth { accepted: false });
    assert_eq!(expect_fail(&a), "Pronote 2FA PIN was rejected");
}

#[test]
fn rsa_wrapped_uuid() {
    let raw = [3u8; 16];
    let c1 = rsa_pkcs1_encrypt(&raw).unwrap();
    let c2 = rsa_pkcs1_encrypt(&raw).unwrap();
    assert_eq!(c1.len(), 128);
    assert_ne!(c1, c2);
    assert_eq!(rsa_pkcs1_encrypt(&[0u8; 118]).unwrap_err(), "Pronote RSA payload is too long");
    assert_eq!(login_uuid(&raw, false).unwrap(), "AwMDAwMDAwMDAwMDAwMDAw==");
    let u = login_uuid(&raw, true).unwrap();
    assert_eq!(u.len(), 172);
    let session = SessionState::new("https://x".to_string(), &params(true, true));
    let (st, a) = login_begin(session, "a", "b", "", true).unwrap();
    assert_eq!(st.stage, LoginStage::Parameters);
    assert!(expect_call(&a, "FonctionParametres").is_some());
}

#[test]
fn parent_accounts_pick_a_child() {
    let kids = vec![Some("DUPONT Léa".to_string()), None, Some("DUPONT Hugo".to_string())];
    assert_eq!(choose_child(&kids, "").unwrap(), Some(0));
    assert_eq!(choose_child(&kids, "hugo").unwrap(), Some(2));
    assert_eq!(choose_child(&kids, "Zoé").unwrap_err(), "Pronote child `Zoé` was not found");
    assert_eq!(choose_child(&[], "hugo").unwrap(), None);
}
