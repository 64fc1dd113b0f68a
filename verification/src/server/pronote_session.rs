//! A Pronote web session: the settings its start page gives, the login key
//! derived from the password, the challenge answer, the session key, and the
//! framing of each numbered, encrypted and compressed request and reply.

use vstd::prelude::*;
use vstd::utf8::{decode_utf8, encode_utf8, valid_utf8};
use crate::cipher::{
    aes_cbc_decrypt, aes_cbc_encrypt, aes_decrypted, aes_encrypted, deflate_raw, deflated,
    hex_decode, hex_upper, hex_upper_of, inflate_raw, inflated, unhex_of, modulus_bits,
    modulus_bits_of, nonzero_random_byte, power_mod, power_mod_of, random_iv,
};
use crate::hashing::{base64_encode, base64_of};
use crate::hashing::{hex_digit, hex_encode, hex_of, md5_bytes, md5_digest, sha256_bytes, sha256_digest, text_bytes};
use crate::server::ics::{literal, split_commas, split_commas_exec, texts_of};
use crate::server::pronote::truthy;
use crate::text::{
    find_char, find_char_in, find_seq, find_seq_from, slice_vec, string_in,
    chars_of, decimal, decimal_string, has_prefix_at, lower_seq, parse_i64, parse_i64_exec,
    parse_u16, parse_u16_exec, push_char, push_str, same_text, signed_decimal,
    signed_decimal_string, starts_with, to_lower, trim, trimmed, utf8_text,
};

verus! {

/// `true`, `1` or `yes`, trimmed, in any ASCII case.
pub open spec fn truthy_of(s: Seq<char>) -> bool {
    let k = lower_seq(trim(s));
    k == "true"@ || k == "1"@ || k == "yes"@
}

/// The value of the last `key` among the start page's attributes (a later
/// one replaces an earlier one).
pub open spec fn attr_of(m: Seq<(String, String)>, key: Seq<char>) -> Option<Seq<char>>
    decreases m.len(),
{
    if m.len() == 0 {
        None
    } else if m.last().0@ == key {
        Some(m.last().1@)
    } else {
        attr_of(m.drop_last(), key)
    }
}

/// Whether a feature is off: `skip` says so directly, else `on` says the
/// opposite; with neither it is off.
pub open spec fn skipped(m: Seq<(String, String)>, skip: Seq<char>, on: Seq<char>) -> bool {
    match attr_of(m, skip) {
        Some(v) => truthy_of(v),
        None => match attr_of(m, on) {
            Some(v) => !truthy_of(v),
            None => true,
        },
    }
}

/// What the start page sets up for a session.
#[derive(Debug, Clone, Copy, PartialEq, Eq)]
pub struct StartParams {
    pub session_id: i64,
    pub espace: i64,
    pub encrypt: bool,
    pub compress: bool,
    pub http_rsa: bool,
}

/// Session settings from the start page's attributes and the portal URL:
/// `h` is the session number and must be there; `a` the space (3 when
/// missing or not a number); `sCrA`/`CrA` and `sCoA`/`CoA` switch
/// encryption and compression; `http`, or a plain `http://` URL, asks for
/// the RSA-wrapped IV.
pub open spec fn start_params_of(m: Seq<(String, String)>, url: Seq<char>) -> Result<StartParams, Seq<char>> {
    match attr_of(m, "h"@) {
        None => Err("Pronote HTML is missing a session id"@),
        Some(h) => match parse_i64(h) {
            None => Err("Pronote session id"@),
            Some(id) => Ok(StartParams {
                session_id: id,
                espace: match attr_of(m, "a"@) {
                    Some(a) => match parse_i64(a) {
                        Some(x) => x,
                        None => 3,
                    },
                    None => 3,
                },
                encrypt: !skipped(m, "sCrA"@, "CrA"@),
                compress: !skipped(m, "sCoA"@, "CoA"@),
                http_rsa: (match attr_of(m, "http"@) {
                    Some(v) => truthy_of(v),
                    None => false,
                }) || starts_with(lower_seq(trim(url)), "http://"@),
            }),
        },
    }
}

/// Index of the last attribute named `key`.
fn last_attr(attrs: &[(String, String)], key: &str) -> (r: Option<usize>)
    ensures
        match r {
            Some(i) => i < attrs@.len() && attr_of(attrs@, key@) == Some(attrs@[i as int].1@),
            None => attr_of(attrs@, key@) is None,
        },
{
    let mut i = attrs.len();
    assert(attrs@.take(i as int) =~= attrs@);
    while i > 0
        invariant
            i <= attrs@.len(),
            attr_of(attrs@, key@) == attr_of(attrs@.take(i as int), key@),
        decreases i,
    {
        assert(attrs@.take(i as int).last() == attrs@[i - 1]);
        assert(attrs@.take(i as int).drop_last() =~= attrs@.take(i - 1));
        if same_text(attrs[i - 1].0.as_str(), key) {
            return Some(i - 1);
        }
        i = i - 1;
    }
    None
}

fn attr_truthy(attrs: &[(String, String)], i: usize) -> (r: bool)
    requires
        i < attrs@.len(),
    ensures
        r == truthy_of(attrs@[i as int].1@),
{
    truthy(attrs[i].1.as_str())
}

fn skipped_exec(attrs: &[(String, String)], skip: &str, on: &str) -> (r: bool)
    ensures
        r == skipped(attrs@, skip@, on@),
{
    match last_attr(attrs, skip) {
        Some(i) => attr_truthy(attrs, i),
        None => match last_attr(attrs, on) {
            Some(i) => !attr_truthy(attrs, i),
            None => true,
        },
    }
}

fn attr_i64(attrs: &[(String, String)], i: usize) -> (r: Option<i64>)
    requires
        i < attrs@.len(),
    ensures
        r == parse_i64(attrs@[i as int].1@),
{
    let v = chars_of(attrs[i].1.as_str());
    assert(v@.subrange(0, v@.len() as int) =~= v@);
    parse_i64_exec(v.as_slice(), 0, v.len())
}

fn plain_http(url: &str) -> (r: bool)
    ensures
        r == starts_with(lower_seq(trim(url@)), "http://"@),
{
    let v = chars_of(url);
    let t = trimmed(v.as_slice());
    let l = to_lower(t.as_slice());
    let p = chars_of("http://");
    assert(l@.subrange(0, l@.len() as int) =~= l@);
    has_prefix_at(l.as_slice(), 0, p.as_slice())
}

/// Session settings from the start page's `Start({...})` attributes.
pub fn start_params(attrs: &[(String, String)], url: &str) -> (r: Result<StartParams, String>)
    ensures
        match start_params_of(attrs@, url@) {
            Ok(p) => r == Ok::<StartParams, String>(p),
            Err(e) => r matches Err(m) && m@ == e,
        },
{
    let h = match last_attr(attrs, "h") {
        Some(i) => i,
        None => return Err(literal("Pronote HTML is missing a session id")),
    };
    let session_id = match attr_i64(attrs, h) {
        Some(x) => x,
        None => return Err(literal("Pronote session id")),
    };
    let espace = match last_attr(attrs, "a") {
        Some(i) => match attr_i64(attrs, i) {
            Some(x) => x,
            None => 3,
        },
        None => 3,
    };
    let skip_encrypt = skipped_exec(attrs, "sCrA", "CrA");
    let skip_compress = skipped_exec(attrs, "sCoA", "CoA");
    let http_attr = match last_attr(attrs, "http") {
        Some(i) => attr_truthy(attrs, i),
        None => false,
    };
    let http_rsa = http_attr || plain_http(url);
    Ok(StartParams { session_id, espace, encrypt: !skip_encrypt, compress: !skip_compress, http_rsa })
}

/// Unicode lower case (what `str::to_lowercase` gives).
pub uninterp spec fn lowercase_of(s: Seq<char>) -> Seq<char>;

/// `str::to_lowercase`: the text in Unicode lower case.
#[verifier::external_body]
fn unicode_lowercase(s: &str) -> (r: String)
    ensures
        r@ == lowercase_of(s@),
{
    s.to_lowercase()
}

/// The temporary login key: MD5 of the user name followed by the uppercase
/// hex SHA-256 of the server's random `alea` followed by the password; the
/// server can ask for either name or password in lower case.
pub open spec fn login_key_of(alea: Seq<char>, username: Seq<char>, password: Seq<char>, lower_user: bool, lower_pass: bool) -> Seq<u8> {
    let u = if lower_user { lowercase_of(username) } else { username };
    let p = if lower_pass { lowercase_of(password) } else { password };
    md5_digest(encode_utf8(u + hex_upper_of(sha256_digest(encode_utf8(alea + p)))))
}

fn own(s: &str) -> (r: String)
    ensures
        r@ == s@,
{
    literal(s)
}

/// The temporary key that answers the login challenge.
pub fn login_key(alea: &str, username: &str, password: &str, lower_user: bool, lower_pass: bool) -> (r: Vec<u8>)
    ensures
        r@ == login_key_of(alea@, username@, password@, lower_user, lower_pass),
        r@.len() == 16,
{
    let u = if lower_user { unicode_lowercase(username) } else { own(username) };
    let p = if lower_pass { unicode_lowercase(password) } else { own(password) };
    let mut salted = own(alea);
    push_str(&mut salted, p.as_str());
    let salted_bytes = text_bytes(salted.as_str());
    let digest = sha256_bytes(salted_bytes.as_slice());
    let mtp = hex_upper(digest.as_slice());
    let mut keyed = u;
    push_str(&mut keyed, mtp.as_str());
    let keyed_bytes = text_bytes(keyed.as_str());
    md5_bytes(keyed_bytes.as_slice())
}

/// Every other character, starting with the first.
pub open spec fn even_chars(s: Seq<char>) -> Seq<char> {
    Seq::new(((s.len() + 1) / 2) as nat, |i: int| s[2 * i])
}

/// The answer to the login challenge: decrypt it, keep every other
/// character and encrypt that again, as lowercase hex. A challenge that is
/// not hex, does not decrypt or is not UTF-8 is encrypted as it stands.
pub open spec fn solved_of(challenge: Seq<char>, key: Seq<u8>, iv: Seq<u8>) -> Seq<char> {
    let fallback = hex_of(aes_encrypted(key, iv, encode_utf8(challenge)));
    match unhex_of(encode_utf8(challenge)) {
        Some(raw) => match aes_decrypted(key, iv, raw) {
            Some(plain) => if valid_utf8(plain) {
                hex_of(aes_encrypted(key, iv, encode_utf8(even_chars(decode_utf8(plain)))))
            } else {
                fallback
            },
            None => fallback,
        },
        None => fallback,
    }
}

fn even_string(s: &str) -> (r: String)
    ensures
        r@ == even_chars(s@),
{
    let v = chars_of(s);
    let mut out = String::new();
    let n = v.len();
    let mut i: usize = 0;
    while i < n
        invariant
            n == v@.len(),
            i <= n,
            out@.len() == (i + 1) / 2,
            forall|k: int| 0 <= k < out@.len() ==> out@[k] == v@[2 * k],
        decreases n - i,
    {
        if i % 2 == 0 {
            push_char(&mut out, v[i]);
        }
        i = i + 1;
    }
    assert(out@ =~= even_chars(v@));
    out
}

/// Answers the login challenge with the temporary key.
pub fn solve_challenge(challenge: &str, key: &[u8], iv: &[u8]) -> (r: String)
    requires
        key@.len() == 16,
        iv@.len() == 16,
    ensures
        r@ == solved_of(challenge@, key@, iv@),
{
    let cb = text_bytes(challenge);
    if let Some(raw) = hex_decode(cb.as_slice()) {
        if let Some(plain) = aes_cbc_decrypt(key, iv, raw.as_slice()) {
            if let Some(text) = utf8_text(plain.as_slice()) {
                let stripped = even_string(text.as_str());
                let sb = text_bytes(stripped.as_str());
                let enc = aes_cbc_encrypt(key, iv, sb.as_slice());
                return hex_encode(enc.as_slice());
            }
        }
    }
    let enc = aes_cbc_encrypt(key, iv, cb.as_slice());
    hex_encode(enc.as_slice())
}

/// What `<u8 as FromStr>::from_str` accepts.
pub open spec fn parse_u8(s: Seq<char>) -> Option<u8> {
    match parse_u16(s) {
        Some(x) => if x <= 255 {
            Some(x as u8)
        } else {
            None
        },
        None => None,
    }
}

/// The bytes of comma-separated decimal numbers (each trimmed); the first
/// piece that is not a byte is named in the error.
pub open spec fn key_bytes_of(ps: Seq<Seq<char>>) -> Result<Seq<u8>, Seq<char>>
    decreases ps.len(),
{
    if ps.len() == 0 {
        Ok(Seq::empty())
    } else {
        match key_bytes_of(ps.drop_last()) {
            Err(e) => Err(e),
            Ok(r) => match parse_u8(trim(ps.last())) {
                Some(b) => Ok(r.push(b)),
                None => Err("bad Pronote key byte `"@ + ps.last() + "`"@),
            },
        }
    }
}

/// `"12,0,255"` → `[12, 0, 255]`.
pub fn comma_bytes(s: &str) -> (r: Result<Vec<u8>, String>)
    ensures
        match key_bytes_of(split_commas(s@)) {
            Ok(b) => r matches Ok(v) && v@ == b,
            Err(e) => r matches Err(m) && m@ == e,
        },
{
    let parts = split_commas_exec(s);
    let ghost ps = split_commas(s@);
    let n = parts.len();
    let mut out: Vec<u8> = Vec::new();
    let mut i: usize = 0;
    assert(ps.take(0) =~= Seq::<Seq<char>>::empty());
    while i < n
        invariant
            n == parts@.len(),
            ps == texts_of(parts@),
            ps == split_commas(s@),
            i <= n,
            key_bytes_of(ps.take(i as int)) == Ok::<Seq<u8>, Seq<char>>(out@),
        decreases n - i,
    {
        assert(ps.take(i + 1).drop_last() =~= ps.take(i as int));
        assert(ps.take(i + 1).last() == parts@[i as int]@);
        let v = chars_of(parts[i].as_str());
        let t = trimmed(v.as_slice());
        assert(t@.subrange(0, t@.len() as int) =~= t@);
        match parse_u16_exec(t.as_slice(), 0, t.len()) {
            Some(x) => {
                if x > 255 {
                    proof {
                        assert(parse_u16(t@.subrange(0, t@.len() as int)) == parse_u16(trim(ps.take(i + 1).last())));
                        assert(parse_u8(trim(ps.take(i + 1).last())) is None);
                        assert(key_bytes_of(ps.take(i + 1)) == Err::<Seq<u8>, Seq<char>>(
                            "bad Pronote key byte `"@ + parts@[i as int]@ + "`"@));
                        lemma_key_bytes_err(ps, i + 1);
                    }
                    return Err(bad_byte(parts[i].as_str()));
                }
                out.push(x as u8);
            },
            None => {
                proof {
                    assert(parse_u16(t@.subrange(0, t@.len() as int)) == parse_u16(trim(ps.take(i + 1).last())));
                    assert(parse_u8(trim(ps.take(i + 1).last())) is None);
                    assert(key_bytes_of(ps.take(i + 1)) == Err::<Seq<u8>, Seq<char>>(
                        "bad Pronote key byte `"@ + parts@[i as int]@ + "`"@));
                    lemma_key_bytes_err(ps, i + 1);
                }
                return Err(bad_byte(parts[i].as_str()));
            },
        }
        i = i + 1;
    }
    assert(ps.take(n as int) =~= ps);
    Ok(out)
}

proof fn lemma_key_bytes_err(ps: Seq<Seq<char>>, k: int)
    requires
        0 <= k <= ps.len(),
        key_bytes_of(ps.take(k)) is Err,
    ensures
        key_bytes_of(ps) == key_bytes_of(ps.take(k)),
    decreases ps.len() - k,
{
    if k == ps.len() {
        assert(ps.take(k) =~= ps);
    } else {
        assert(ps.take(k + 1).drop_last() =~= ps.take(k));
        lemma_key_bytes_err(ps, k + 1);
    }
}

fn bad_byte(p: &str) -> (r: String)
    ensures
        r@ == "bad Pronote key byte `"@ + p@ + "`"@,
{
    let mut m = literal("bad Pronote key byte `");
    push_str(&mut m, p);
    push_str(&mut m, "`");
    m
}

/// The session key the login's `cle` hides: hex-decode it, decrypt it with
/// the temporary key, read the comma-separated bytes and hash them with MD5.
pub open spec fn session_key_of(cle: Seq<char>, temp_key: Seq<u8>, iv: Seq<u8>) -> Result<Seq<u8>, Seq<char>> {
    match unhex_of(encode_utf8(cle)) {
        None => Err("Pronote key is not hex"@),
        Some(raw) => match aes_decrypted(temp_key, iv, raw) {
            None => Err("AES decrypt"@),
            Some(plain) => if !valid_utf8(plain) {
                Err("Pronote AES key"@)
            } else {
                match key_bytes_of(split_commas(decode_utf8(plain))) {
                    Err(e) => Err(e),
                    Ok(kb) => Ok(md5_digest(kb)),
                }
            },
        },
    }
}

/// Unwraps the session key from the login's `cle`.
pub fn session_key(cle: &str, temp_key: &[u8], iv: &[u8]) -> (r: Result<Vec<u8>, String>)
    requires
        temp_key@.len() == 16,
        iv@.len() == 16,
    ensures
        match session_key_of(cle@, temp_key@, iv@) {
            Ok(k) => r matches Ok(v) && v@ == k && v@.len() == 16,
            Err(e) => r matches Err(m) && m@ == e,
        },
{
    let cb = text_bytes(cle);
    let raw = match hex_decode(cb.as_slice()) {
        Some(x) => x,
        None => return Err(literal("Pronote key is not hex")),
    };
    let plain = match aes_cbc_decrypt(temp_key, iv, raw.as_slice()) {
        Some(x) => x,
        None => return Err(literal("AES decrypt")),
    };
    let text = match utf8_text(plain.as_slice()) {
        Some(t) => t,
        None => return Err(literal("Pronote AES key")),
    };
    match comma_bytes(text.as_str()) {
        Ok(kb) => Ok(md5_bytes(kb.as_slice())),
        Err(e) => Err(e),
    }
}

/// How `serde_json` writes one character inside a string.
pub open spec fn json_escape_char(c: char) -> Seq<char> {
    if c == '"' {
        seq!['\\', '"']
    } else if c == '\\' {
        seq!['\\', '\\']
    } else if c == '\n' {
        seq!['\\', 'n']
    } else if c == '\r' {
        seq!['\\', 'r']
    } else if c == '\t' {
        seq!['\\', 't']
    } else if c == '\x08' {
        seq!['\\', 'b']
    } else if c == '\x0c' {
        seq!['\\', 'f']
    } else if (c as u32) < 0x20 {
        seq!['\\', 'u', '0', '0', hex_digit(((c as u32) / 16) as u8), hex_digit(((c as u32) % 16) as u8)]
    } else {
        seq![c]
    }
}

/// The text of a JSON string literal, without its quotes.
pub open spec fn json_escaped(s: Seq<char>) -> Seq<char>
    decreases s.len(),
{
    if s.len() == 0 {
        Seq::empty()
    } else {
        json_escaped(s.drop_last()) + json_escape_char(s.last())
    }
}

fn push_escaped(out: &mut String, c: char)
    ensures
        final(out)@ == old(out)@ + json_escape_char(c),
{
    let ghost o = out@;
    if c == '"' {
        push_char(out, '\\');
        push_char(out, '"');
    } else if c == '\\' {
        push_char(out, '\\');
        push_char(out, '\\');
    } else if c == '\n' {
        push_char(out, '\\');
        push_char(out, 'n');
    } else if c == '\r' {
        push_char(out, '\\');
        push_char(out, 'r');
    } else if c == '\t' {
        push_char(out, '\\');
        push_char(out, 't');
    } else if c == '\x08' {
        push_char(out, '\\');
        push_char(out, 'b');
    } else if c == '\x0c' {
        push_char(out, '\\');
        push_char(out, 'f');
    } else if (c as u32) < 0x20 {
        let v = c as u32;
        push_char(out, '\\');
        push_char(out, 'u');
        push_char(out, '0');
        push_char(out, '0');
        push_char(out, hex_char((v / 16) as u8));
        push_char(out, hex_char((v % 16) as u8));
    } else {
        push_char(out, c);
    }
    assert(out@ =~= o + json_escape_char(c));
}

fn hex_char(v: u8) -> (r: char)
    requires
        v < 16,
    ensures
        r == hex_digit(v),
{
    if v < 10 {
        ((48u8 + v) as char)
    } else {
        ((97u8 + (v - 10)) as char)
    }
}

fn push_json_text(out: &mut String, s: &str)
    ensures
        final(out)@ == old(out)@ + json_escaped(s@),
{
    let v = chars_of(s);
    let n = v.len();
    let ghost o = out@;
    let mut i: usize = 0;
    assert(v@.take(0) =~= Seq::<char>::empty());
    assert(o + json_escaped(Seq::<char>::empty()) =~= o);
    while i < n
        invariant
            n == v@.len(),
            v@ == s@,
            i <= n,
            out@ == o + json_escaped(v@.take(i as int)),
        decreases n - i,
    {
        assert(v@.take(i + 1).drop_last() =~= v@.take(i as int));
        assert(v@.take(i + 1).last() == v@[i as int]);
        push_escaped(out, v[i]);
        i = i + 1;
    }
    assert(v@.take(n as int) =~= v@);
}

/// The `Signature` of a request to tab `tab`, naming the child when a
/// parent account has picked one.
pub open spec fn signature_of(child: Option<Seq<char>>, tab: i64) -> Seq<char> {
    match child {
        Some(id) => "{\"membre\":{\"G\":4,\"N\":\""@ + json_escaped(id) + "\"},\"onglet\":"@
            + signed_decimal(tab) + "}"@,
        None => "{\"onglet\":"@ + signed_decimal(tab) + "}"@,
    }
}

/// The JSON body of a request (keys in `serde_json`'s sorted order): the
/// signature when there is a tab, the `data` (JSON text) when there is any.
pub open spec fn payload_of(child: Option<Seq<char>>, onglet: Option<i64>, data: Option<Seq<char>>) -> Seq<char> {
    match (onglet, data) {
        (Some(t), Some(d)) => "{\"Signature\":"@ + signature_of(child, t) + ",\"data\":"@ + d + "}"@,
        (Some(t), None) => "{\"Signature\":"@ + signature_of(child, t) + "}"@,
        (None, Some(d)) => "{\"data\":"@ + d + "}"@,
        (None, None) => "{}"@,
    }
}

pub open spec fn text_view(o: Option<String>) -> Option<Seq<char>> {
    match o {
        Some(s) => Some(s@),
        None => None,
    }
}

pub open spec fn str_view(o: Option<&str>) -> Option<Seq<char>> {
    match o {
        Some(s) => Some(s@),
        None => None,
    }
}

/// The request counter, encrypted and in lowercase hex: the `no` of a
/// request and the last part of its URL.
pub open spec fn order_of(key: Seq<u8>, iv: Seq<u8>, number: u64) -> Seq<char> {
    hex_of(aes_encrypted(key, iv, encode_utf8(decimal(number as nat))))
}

/// The `dataSec` of a request.
pub enum DataSec {
    /// Hex text of the body, compressed and/or encrypted.
    Text(String),
    /// The body itself, as JSON text.
    Json(String),
}

/// The body as it travels: compressed (deflate of its lowercase hex) when
/// compression is on, then encrypted when encryption is on, and written as
/// uppercase hex; with neither, the JSON body itself.
pub open spec fn data_sec_of(key: Seq<u8>, iv: Seq<u8>, encrypt: bool, compress: bool, payload: Seq<char>) -> (bool, Seq<char>) {
    let b = encode_utf8(payload);
    let z = if compress { deflated(encode_utf8(hex_of(b))) } else { b };
    if encrypt {
        (true, hex_upper_of(aes_encrypted(key, iv, z)))
    } else if compress {
        (true, hex_upper_of(z))
    } else {
        (false, payload)
    }
}

/// What the reply's hex `dataSec` holds: decrypted when encryption is on,
/// inflated when compression is on (and hex-decoded once more when the
/// inflated text is itself hex).
pub open spec fn reply_of(key: Seq<u8>, iv: Seq<u8>, encrypt: bool, compress: bool, sec: Seq<char>) -> Result<Seq<u8>, Seq<char>> {
    match unhex_of(encode_utf8(sec)) {
        None => Err("Pronote dataSec hex"@),
        Some(b) => {
            let d = if encrypt { aes_decrypted(key, iv, b) } else { Some(b) };
            match d {
                None => Err("AES decrypt"@),
                Some(d) => if compress {
                    match inflated(d) {
                        None => Err("Pronote dataSec inflate"@),
                        Some(x) => Ok(match unhex_of(x) {
                            Some(y) => y,
                            None => x,
                        }),
                    }
                } else {
                    Ok(d)
                },
            }
        },
    }
}

/// A request ready to post: its URL, its `no` and its `dataSec`.
pub struct CallRequest {
    pub url: String,
    pub order: String,
    pub data_sec: DataSec,
}

/// A logged-in (or logging-in) session's state between calls.
pub struct SessionState {
    pub root: String,
    pub espace: i64,
    pub session_id: i64,
    pub request_number: u64,
    pub key: Vec<u8>,
    pub iv: Vec<u8>,
    pub encrypt: bool,
    pub compress: bool,
    pub child_id: Option<String>,
}

impl SessionState {
    /// The key and IV are AES-128 sized.
    pub open spec fn wf(&self) -> bool {
        self.key@.len() == 16 && self.iv@.len() == 16
    }

    /// A fresh session: request 1, the key MD5 of nothing, a zero IV.
    pub fn new(root: String, p: &StartParams) -> (r: SessionState)
        ensures
            r.wf(),
            r.root@ == root@,
            r.espace == p.espace,
            r.session_id == p.session_id,
            r.request_number == 1,
            r.key@ == md5_digest(Seq::empty()),
            r.iv@ == Seq::new(16, |i: int| 0u8),
            r.encrypt == p.encrypt,
            r.compress == p.compress,
            r.child_id is None,
    {
        let empty: Vec<u8> = Vec::new();
        let key = md5_bytes(empty.as_slice());
        let iv: Vec<u8> = vec![0u8; 16];
        assert(iv@ =~= Seq::new(16, |i: int| 0u8));
        SessionState {
            root,
            espace: p.espace,
            session_id: p.session_id,
            request_number: 1,
            key,
            iv,
            encrypt: p.encrypt,
            compress: p.compress,
            child_id: None,
        }
    }

    /// The `no` of the next request.
    pub fn order(&self) -> (r: String)
        requires
            self.wf(),
        ensures
            r@ == order_of(self.key@, self.iv@, self.request_number),
    {
        let d = decimal_string(self.request_number);
        let b = text_bytes(d.as_str());
        let enc = aes_cbc_encrypt(self.key.as_slice(), self.iv.as_slice(), b.as_slice());
        hex_encode(enc.as_slice())
    }

    /// The JSON body of a call to tab `onglet` with `data` (JSON text).
    pub fn payload(&self, onglet: Option<i64>, data: Option<&str>) -> (r: String)
        ensures
            r@ == payload_of(text_view(self.child_id), onglet, str_view(data)),
    {
        let mut out = String::new();
        match onglet {
            Some(t) => {
                push_str(&mut out, "{\"Signature\":");
                match &self.child_id {
                    Some(id) => {
                        push_str(&mut out, "{\"membre\":{\"G\":4,\"N\":\"");
                        push_json_text(&mut out, id.as_str());
                        push_str(&mut out, "\"},\"onglet\":");
                    },
                    None => {
                        push_str(&mut out, "{\"onglet\":");
                    },
                }
                let tab = signed_decimal_string(t);
                push_str(&mut out, tab.as_str());
                push_str(&mut out, "}");
                match data {
                    Some(d) => {
                        push_str(&mut out, ",\"data\":");
                        push_str(&mut out, d);
                    },
                    None => {},
                }
            },
            None => {
                push_str(&mut out, "{");
                match data {
                    Some(d) => {
                        push_str(&mut out, "\"data\":");
                        push_str(&mut out, d);
                    },
                    None => {},
                }
            },
        }
        push_str(&mut out, "}");
        proof {
            reveal_strlit("{");
            reveal_strlit("\"data\":");
            reveal_strlit("{\"data\":");
            reveal_strlit("}");
            reveal_strlit("{}");
        }
        assert(out@ =~= payload_of(text_view(self.child_id), onglet, str_view(data)));
        out
    }

    /// The body as it travels for the session's settings.
    pub fn data_sec(&self, payload: &str) -> (r: DataSec)
        requires
            self.wf(),
        ensures
            ({
                let (hex, text) = data_sec_of(self.key@, self.iv@, self.encrypt, self.compress, payload@);
                match r {
                    DataSec::Text(t) => hex && t@ == text,
                    DataSec::Json(t) => !hex && t@ == text,
                }
            }),
    {
        let b = text_bytes(payload);
        let z = if self.compress {
            let h = hex_encode(b.as_slice());
            let hb = text_bytes(h.as_str());
            deflate_raw(hb.as_slice())
        } else {
            b
        };
        if self.encrypt {
            let enc = aes_cbc_encrypt(self.key.as_slice(), self.iv.as_slice(), z.as_slice());
            DataSec::Text(hex_upper(enc.as_slice()))
        } else if self.compress {
            DataSec::Text(hex_upper(z.as_slice()))
        } else {
            DataSec::Json(own(payload))
        }
    }

    /// `root/appelfonction/espace/session/order`.
    pub fn call_url(&self, order: &str) -> (r: String)
        ensures
            r@ == self.root@ + "/appelfonction/"@ + signed_decimal(self.espace) + "/"@ + signed_decimal(
                self.session_id,
            ) + "/"@ + order@,
    {
        let mut u = own(self.root.as_str());
        push_str(&mut u, "/appelfonction/");
        let e = signed_decimal_string(self.espace);
        push_str(&mut u, e.as_str());
        push_str(&mut u, "/");
        let s = signed_decimal_string(self.session_id);
        push_str(&mut u, s.as_str());
        push_str(&mut u, "/");
        push_str(&mut u, order);
        u
    }

    /// Everything the next call posts, for tab `onglet` with `data`.
    pub fn request(&self, onglet: Option<i64>, data: Option<&str>) -> (r: CallRequest)
        requires
            self.wf(),
        ensures
            r.order@ == order_of(self.key@, self.iv@, self.request_number),
            r.url@ == self.root@ + "/appelfonction/"@ + signed_decimal(self.espace) + "/"@
                + signed_decimal(self.session_id) + "/"@ + r.order@,
            ({
                let (hex, text) = data_sec_of(
                    self.key@,
                    self.iv@,
                    self.encrypt,
                    self.compress,
                    payload_of(text_view(self.child_id), onglet, str_view(data)),
                );
                match r.data_sec {
                    DataSec::Text(t) => hex && t@ == text,
                    DataSec::Json(t) => !hex && t@ == text,
                }
            }),
    {
        let body = self.payload(onglet, data);
        let data_sec = self.data_sec(body.as_str());
        let order = self.order();
        let url = self.call_url(order.as_str());
        CallRequest { url, order, data_sec }
    }

    /// After a call is answered: the counter moves on by two and, when the
    /// call set one, the next IV takes over.
    pub fn advance(&mut self, next_iv: Option<Vec<u8>>)
        requires
            old(self).wf(),
            old(self).request_number <= u64::MAX - 2,
            next_iv matches Some(v) ==> v@.len() == 16,
        ensures
            final(self).wf(),
            final(self).request_number == old(self).request_number + 2,
            final(self).iv@ == match next_iv {
                Some(v) => v@,
                None => old(self).iv@,
            },
            final(self).key@ == old(self).key@,
            final(self).root@ == old(self).root@,
            final(self).espace == old(self).espace,
            final(self).session_id == old(self).session_id,
            final(self).encrypt == old(self).encrypt,
            final(self).compress == old(self).compress,
            text_view(final(self).child_id) == text_view(old(self).child_id),
    {
        self.request_number = self.request_number + 2;
        match next_iv {
            Some(v) => {
                self.iv = v;
            },
            None => {},
        }
    }

    /// The session key from the login takes over.
    pub fn set_key(&mut self, key: Vec<u8>)
        requires
            old(self).wf(),
            key@.len() == 16,
        ensures
            final(self).wf(),
            final(self).key@ == key@,
            same_but_key(*final(self), *old(self)),
    {
        self.key = key;
    }

    /// The bytes of a reply's hex `dataSec`, with the session's current key
    /// and IV.
    pub fn open_reply(&self, sec: &str) -> (r: Result<Vec<u8>, String>)
        requires
            self.wf(),
        ensures
            match reply_of(self.key@, self.iv@, self.encrypt, self.compress, sec@) {
                Ok(b) => r matches Ok(v) && v@ == b,
                Err(e) => r matches Err(m) && m@ == e,
            },
    {
        let sb = text_bytes(sec);
        let b = match hex_decode(sb.as_slice()) {
            Some(x) => x,
            None => return Err(literal("Pronote dataSec hex")),
        };
        let d = if self.encrypt {
            match aes_cbc_decrypt(self.key.as_slice(), self.iv.as_slice(), b.as_slice()) {
                Some(x) => x,
                None => return Err(literal("AES decrypt")),
            }
        } else {
            b
        };
        if self.compress {
            let x = match inflate_raw(d.as_slice()) {
                Some(x) => x,
                None => return Err(literal("Pronote dataSec inflate")),
            };
            match hex_decode(x.as_slice()) {
                Some(y) => Ok(y),
                None => Ok(x),
            }
        } else {
            Ok(d)
        }
    }
}

/// A quote that attribute names and values may be wrapped in.
pub open spec fn is_quote(c: char) -> bool {
    c == '\'' || c == '"'
}

pub open spec fn unquote_start(s: Seq<char>) -> Seq<char>
    decreases s.len(),
{
    if s.len() > 0 && is_quote(s[0]) {
        unquote_start(s.drop_first())
    } else {
        s
    }
}

pub open spec fn unquote_end(s: Seq<char>) -> Seq<char>
    decreases s.len(),
{
    if s.len() > 0 && is_quote(s.last()) {
        unquote_end(s.drop_last())
    } else {
        s
    }
}

/// `s` without the quotes around it (`str::trim_matches(['\'', '"'])`).
pub open spec fn unquoted(s: Seq<char>) -> Seq<char> {
    unquote_end(unquote_start(s))
}

fn skip_quotes(v: &[char], lo: usize, hi: usize) -> (i: usize)
    requires
        lo <= hi <= v@.len(),
    ensures
        lo <= i <= hi,
        unquote_start(v@.subrange(lo as int, hi as int)) =~= v@.subrange(i as int, hi as int),
    decreases hi - lo,
{
    if lo < hi && (v[lo] == '\'' || v[lo] == '"') {
        assert(v@.subrange(lo as int, hi as int).drop_first() =~= v@.subrange(lo + 1, hi as int));
        skip_quotes(v, lo + 1, hi)
    } else {
        lo
    }
}

fn end_quotes(v: &[char], lo: usize, hi: usize) -> (j: usize)
    requires
        lo <= hi <= v@.len(),
    ensures
        lo <= j <= hi,
        unquote_end(v@.subrange(lo as int, hi as int)) =~= v@.subrange(lo as int, j as int),
    decreases hi - lo,
{
    if hi > lo && (v[hi - 1] == '\'' || v[hi - 1] == '"') {
        assert(v@.subrange(lo as int, hi as int).drop_last() =~= v@.subrange(lo as int, hi - 1));
        end_quotes(v, lo, hi - 1)
    } else {
        hi
    }
}

fn unquoted_text(v: &[char]) -> (r: String)
    ensures
        r@ == unquoted(trim(v@)),
{
    let t = trimmed(v);
    let n = t.len();
    assert(t@.subrange(0, n as int) =~= t@);
    let a = skip_quotes(t.as_slice(), 0, n);
    let b = end_quotes(t.as_slice(), a, n);
    string_in(t.as_slice(), a, b)
}

/// One `name: value` piece of the start object, both trimmed and
/// unquoted; `None` for an empty piece or one without a colon.
pub open spec fn attr_piece(p: Seq<char>) -> Option<(Seq<char>, Seq<char>)> {
    let t = trim(p);
    if t.len() == 0 {
        None
    } else {
        match find_char(t, ':') {
            Some(j) => Some((unquoted(trim(t.take(j))), unquoted(trim(t.skip(j + 1))))),
            None => None,
        }
    }
}

/// The attributes of the comma-separated pieces, in order.
pub open spec fn attr_pieces(ps: Seq<Seq<char>>) -> Seq<(Seq<char>, Seq<char>)>
    decreases ps.len(),
{
    if ps.len() == 0 {
        Seq::empty()
    } else {
        let r = attr_pieces(ps.drop_last());
        match attr_piece(ps.last()) {
            Some(kv) => r.push(kv),
            None => r,
        }
    }
}

pub open spec fn pairs_view(v: Seq<(String, String)>) -> Seq<(Seq<char>, Seq<char>)> {
    v.map_values(|p: (String, String)| (p.0@, p.1@))
}

fn attr_piece_exec(p: &str) -> (r: Option<(String, String)>)
    ensures
        match attr_piece(p@) {
            Some(kv) => r matches Some(x) && x.0@ == kv.0 && x.1@ == kv.1,
            None => r is None,
        },
{
    let v = chars_of(p);
    let t = trimmed(v.as_slice());
    let n = t.len();
    if n == 0 {
        return None;
    }
    assert(t@.subrange(0, n as int) =~= t@);
    match find_char_in(t.as_slice(), ':', 0, n) {
        Some(j) => {
            let k = slice_vec(t.as_slice(), 0, j);
            let w = slice_vec(t.as_slice(), j + 1, n);
            assert(k@ =~= t@.take(j as int));
            assert(w@ =~= t@.skip(j + 1));
            Some((unquoted_text(k.as_slice()), unquoted_text(w.as_slice())))
        },
        None => None,
    }
}

/// The entries of the start object read as a JSON object, each value
/// written as text (strings as they are, other values as JSON); `None`
/// when the text is not a JSON object.
pub uninterp spec fn json_attrs(obj: Seq<char>) -> Option<Seq<(Seq<char>, Seq<char>)>>;

/// `serde_json::from_str::<Value>` on the object text: its entries in the
/// map's (sorted) key order, strings unquoted and other values serialised.
#[verifier::external_body]
fn json_object_attrs(obj: &str) -> (r: Option<Vec<(String, String)>>)
    ensures
        match r {
            Some(v) => json_attrs(obj@) == Some(pairs_view(v@)),
            None => json_attrs(obj@) is None,
        },
{
    match serde_json::from_str::<serde_json::Value>(obj) {
        Ok(serde_json::Value::Object(map)) => Some(map.into_iter().map(|(k, v)| match v {
            serde_json::Value::String(s) => (k, s),
            other => (k, other.to_string()),
        }).collect()),
        _ => None,
    }
}

/// Some attribute is named `k`.
pub open spec fn has_key(m: Seq<(Seq<char>, Seq<char>)>, k: Seq<char>) -> bool {
    exists|i: int| 0 <= i < m.len() && (#[trigger] m[i]).0 == k
}

/// Where the start call begins in the page.
pub open spec fn start_at(html: Seq<char>) -> Option<int> {
    match find_seq(html, "Start ({"@) {
        Some(i) => Some(i),
        None => match find_seq(html, "Start({"@) {
            Some(i) => Some(i),
            None => find_seq(html, "Start"@),
        },
    }
}

/// The attributes of the page's `Start({...})` call: the object read as
/// JSON when it is JSON, else piece by piece; refused when the page says
/// the address is blocked, has no start call or object, or no `h`.
pub open spec fn start_attrs_of(html: Seq<char>) -> Result<Seq<(Seq<char>, Seq<char>)>, Seq<char>> {
    if find_seq(html, "IP"@) is Some && (find_seq(lower_seq(html), "suspend"@) is Some
        || find_seq(lower_seq(html), "bloqu"@) is Some) {
        Err("Pronote has suspended this IP address"@)
    } else {
        match start_at(html) {
            None => Err("Pronote HTML is missing Start({...})"@),
            Some(st) => {
                let rest = html.skip(st);
                match find_char(rest, '{') {
                    None => Err("Pronote HTML Start() has no object"@),
                    Some(o) => match find_char(rest.skip(o), '}') {
                        None => Err("Pronote HTML Start() object is unclosed"@),
                        Some(c) => {
                            let m = match json_attrs(rest.subrange(o, o + c + 1)) {
                                Some(m) => m,
                                None => attr_pieces(split_commas(rest.subrange(o + 1, o + c))),
                            };
                            if has_key(m, "h"@) {
                                Ok(m)
                            } else {
                                Err("Pronote HTML Start() is missing session id h"@)
                            }
                        },
                    },
                }
            },
        }
    }
}

fn found(v: &[char], p: &str) -> (r: Option<usize>)
    ensures
        match r {
            Some(i) => find_seq(v@, p@) == Some(i as int),
            None => find_seq(v@, p@) is None,
        },
{
    let w = chars_of(p);
    assert(v@.subrange(0, v@.len() as int) =~= v@);
    find_seq_from(v, 0, w.as_slice())
}

fn key_h(m: &Vec<(String, String)>) -> (r: bool)
    ensures
        r == has_key(pairs_view(m@), "h"@),
{
    let n = m.len();
    let mut i: usize = 0;
    while i < n
        invariant
            n == m@.len(),
            i <= n,
            forall|j: int| 0 <= j < i ==> m@[j].0@ != "h"@,
        decreases n - i,
    {
        if same_text(m[i].0.as_str(), "h") {
            assert(pairs_view(m@)[i as int].0 == "h"@);
            return true;
        }
        i = i + 1;
    }
    assert forall|j: int| 0 <= j < pairs_view(m@).len() implies (#[trigger] pairs_view(m@)[j]).0 != "h"@ by {
        assert(pairs_view(m@)[j].0 == m@[j].0@);
    }
    false
}

fn pieces_exec(body: &str) -> (r: Vec<(String, String)>)
    ensures
        pairs_view(r@) == attr_pieces(split_commas(body@)),
{
    let parts = split_commas_exec(body);
    let ghost ps = split_commas(body@);
    let n = parts.len();
    let mut out: Vec<(String, String)> = Vec::new();
    let mut i: usize = 0;
    assert(ps.take(0) =~= Seq::<Seq<char>>::empty());
    assert(pairs_view(out@) =~= Seq::<(Seq<char>, Seq<char>)>::empty());
    while i < n
        invariant
            n == parts@.len(),
            ps == texts_of(parts@),
            ps == split_commas(body@),
            i <= n,
            pairs_view(out@) == attr_pieces(ps.take(i as int)),
        decreases n - i,
    {
        assert(ps.take(i + 1).drop_last() =~= ps.take(i as int));
        assert(ps.take(i + 1).last() == parts@[i as int]@);
        let ghost before = out@;
        match attr_piece_exec(parts[i].as_str()) {
            Some(kv) => {
                out.push(kv);
                assert(pairs_view(out@) =~= pairs_view(before).push((kv.0@, kv.1@)));
            },
            None => {},
        }
        i = i + 1;
    }
    assert(ps.take(n as int) =~= ps);
    out
}

/// The attributes of the start page's `Start({...})` call.
pub fn start_attrs(html: &str) -> (r: Result<Vec<(String, String)>, String>)
    ensures
        match start_attrs_of(html@) {
            Ok(m) => r matches Ok(v) && pairs_view(v@) == m,
            Err(e) => r matches Err(x) && x@ == e,
        },
{
    let v = chars_of(html);
    let n = v.len();
    let lower = to_lower(v.as_slice());
    if found(v.as_slice(), "IP").is_some() && (found(lower.as_slice(), "suspend").is_some()
        || found(lower.as_slice(), "bloqu").is_some()) {
        return Err(literal("Pronote has suspended this IP address"));
    }
    let st = match found(v.as_slice(), "Start ({") {
        Some(i) => i,
        None => match found(v.as_slice(), "Start({") {
            Some(i) => i,
            None => match found(v.as_slice(), "Start") {
                Some(i) => i,
                None => return Err(literal("Pronote HTML is missing Start({...})")),
            },
        },
    };
    proof {
        crate::text::lemma_find_seq_bound(v@, "Start ({"@);
        crate::text::lemma_find_seq_bound(v@, "Start({"@);
        crate::text::lemma_find_seq_bound(v@, "Start"@);
    }
    assert(st <= n);
    let ghost rest = v@.skip(st as int);
    assert(rest =~= v@.subrange(st as int, n as int));
    let o = match find_char_in(v.as_slice(), '{', st, n) {
        Some(o) => o,
        None => return Err(literal("Pronote HTML Start() has no object")),
    };
    assert(rest.skip(o - st) =~= v@.subrange(o as int, n as int));
    let c = match find_char_in(v.as_slice(), '}', o, n) {
        Some(c) => c,
        None => return Err(literal("Pronote HTML Start() object is unclosed")),
    };
    proof {
        crate::text::lemma_find_char(v@.subrange(st as int, n as int), '{');
        crate::text::lemma_find_char(v@.subrange(o as int, n as int), '}');
        assert(v@.subrange(st as int, n as int)[o - st] == v@[o as int]);
        assert(v@.subrange(o as int, n as int)[c - o] == v@[c as int]);
    }
    assert(o < c);
    assert(rest.subrange(o - st, (o - st) + (c - o) + 1) =~= v@.subrange(o as int, c + 1));
    assert(rest.subrange(o - st + 1, (o - st) + (c - o)) =~= v@.subrange(o + 1, c as int));
    let obj = string_in(v.as_slice(), o, c + 1);
    let m = match json_object_attrs(obj.as_str()) {
        Some(m) => m,
        None => {
            let body = string_in(v.as_slice(), o + 1, c);
            pieces_exec(body.as_str())
        },
    };
    if key_h(&m) {
        Ok(m)
    } else {
        Err(literal("Pronote HTML Start() is missing session id h"))
    }
}

/// The RSA public modulus of the school portal's login (`c_rsaPub_modulo_1024`), in decimal.
pub open spec fn rsa_modulus() -> Seq<char> {
    "130337874517286041778445012253514395801341480334668979416920989365464528904618150245388048105865059387076357492684573172203245221386376405947824377827224846860699130638566643129067735803555082190977267155957271492183684665050351182476506458843580431717209261903043895605014125081521285387341454154194253026277"@
}

fn rsa_modulus_text() -> (r: &'static str)
    ensures
        r@ == rsa_modulus(),
{
    "130337874517286041778445012253514395801341480334668979416920989365464528904618150245388048105865059387076357492684573172203245221386376405947824377827224846860699130638566643129067735803555082190977267155957271492183684665050351182476506458843580431717209261903043895605014125081521285387341454154194253026277"
}

/// The RSA public exponent of the login.
pub const RSA_EXPONENT: u32 = 65537;

/// The PKCS#1 v1.5 encryption block: `00 02`, the padding, `00`, the data.
pub open spec fn pkcs1_block(ps: Seq<u8>, data: Seq<u8>) -> Seq<u8> {
    seq![0u8, 2u8] + ps + seq![0u8] + data
}

/// No byte is zero.
pub open spec fn nonzero_bytes(ps: Seq<u8>) -> bool {
    forall|i: int| 0 <= i < ps.len() ==> ps[i] != 0
}

/// `c` with zeros in front up to `k` bytes.
pub open spec fn left_pad(c: Seq<u8>, k: int) -> Seq<u8> {
    if c.len() < k {
        Seq::new((k - c.len()) as nat, |i: int| 0u8) + c
    } else {
        c
    }
}

/// Bytes of the modulus: its bits rounded up to whole bytes.
pub open spec fn modulus_bytes(bits: u64) -> int {
    (bits + 7) / 8
}

/// RSA-PKCS#1 v1.5 encryption of `data` under the login's public key: a
/// random non-zero padding makes the block as long as the modulus, and the
/// block to the public exponent is returned, zero-padded to that length.
/// What the padding is, is left open: any run of non-zero bytes of the
/// right length.
pub open spec fn rsa_encrypted(data: Seq<u8>, c: Seq<u8>) -> bool {
    match modulus_bits_of(rsa_modulus()) {
        Some(bits) => exists|ps: Seq<u8>|
            ps.len() == modulus_bytes(bits) - data.len() - 3 && nonzero_bytes(ps) && c == #[trigger] left_pad(
                power_mod_of(pkcs1_block(ps, data), RSA_EXPONENT, rsa_modulus()),
                modulus_bytes(bits),
            ),
        None => false,
    }
}

/// Encrypts `data` for the portal's RSA key (PKCS#1 v1.5).
pub fn rsa_pkcs1_encrypt(data: &[u8]) -> (r: Result<Vec<u8>, String>)
    ensures
        match modulus_bits_of(rsa_modulus()) {
            None => r matches Err(e) && e@ == "bad Pronote RSA modulus"@,
            Some(bits) => if data@.len() + 11 > modulus_bytes(bits) {
                r matches Err(e) && e@ == "Pronote RSA payload is too long"@
            } else {
                r matches Ok(c) && rsa_encrypted(data@, c@)
            },
        },
{
    let m = rsa_modulus_text();
    let bits = match modulus_bits(m) {
        Some(b) => b,
        None => return Err(literal("bad Pronote RSA modulus")),
    };
    let k: u64 = bits / 8 + if bits % 8 != 0 { 1 } else { 0 };
    assert(k == modulus_bytes(bits));
    let n = data.len() as u64;
    if k < 11 || n > k - 11 {
        return Err(literal("Pronote RSA payload is too long"));
    }
    let ps_len: u64 = k - n - 3;
    let mut em: Vec<u8> = Vec::new();
    em.push(0u8);
    em.push(2u8);
    let mut i: u64 = 0;
    while i < ps_len
        invariant
            i <= ps_len,
            em@.len() == 2 + i,
            em@[0] == 0u8,
            em@[1] == 2u8,
            forall|j: int| 2 <= j < em@.len() ==> em@[j] != 0,
        decreases ps_len - i,
    {
        let b = nonzero_random_byte();
        em.push(b);
        i = i + 1;
    }
    let ghost ps = em@.subrange(2, em@.len() as int);
    em.push(0u8);
    let ghost head = em@;
    let mut t: usize = 0;
    while t < data.len()
        invariant
            t <= data@.len(),
            em@ == head + data@.take(t as int),
        decreases data@.len() - t,
    {
        em.push(data[t]);
        assert(data@.take(t + 1) =~= data@.take(t as int).push(data@[t as int]));
        t = t + 1;
    }
    assert(data@.take(data@.len() as int) =~= data@);
    assert(em@ =~= pkcs1_block(ps, data@));
    assert(nonzero_bytes(ps));
    let c = power_mod(em.as_slice(), RSA_EXPONENT, m);
    let cl = c.len() as u64;
    let pad: u64 = if cl < k { k - cl } else { 0 };
    let mut out: Vec<u8> = Vec::new();
    let mut z: u64 = 0;
    while z < pad
        invariant
            z <= pad,
            out@ == Seq::new(z as nat, |i: int| 0u8),
        decreases pad - z,
    {
        out.push(0u8);
        assert(out@ =~= Seq::new((z + 1) as nat, |i: int| 0u8));
        z = z + 1;
    }
    let ghost zs = out@;
    let mut q: usize = 0;
    while q < c.len()
        invariant
            q <= c@.len(),
            out@ == zs + c@.take(q as int),
        decreases c@.len() - q,
    {
        out.push(c[q]);
        assert(c@.take(q + 1) =~= c@.take(q as int).push(c@[q as int]));
        q = q + 1;
    }
    assert(c@.take(c@.len() as int) =~= c@);
    assert(out@ =~= left_pad(c@, k as int));
    assert(rsa_encrypted(data@, out@));
    Ok(out)
}

/// The `Uuid` of the first call: the random IV in base64, wrapped in the
/// portal's RSA key first when the portal asks for it.
pub fn login_uuid(raw_iv: &[u8], http_rsa: bool) -> (r: Result<String, String>)
    requires
        raw_iv@.len() == 16,
    ensures
        !http_rsa ==> (r matches Ok(u) && u@ == base64_of(raw_iv@)),
        http_rsa ==> match r {
            Ok(u) => exists|c: Seq<u8>| rsa_encrypted(raw_iv@, c) && u@ == #[trigger] base64_of(c),
            Err(e) => e@ == "bad Pronote RSA modulus"@ || e@ == "Pronote RSA payload is too long"@,
        },
{
    if http_rsa {
        match rsa_pkcs1_encrypt(raw_iv) {
            Ok(c) => {
                if c.len() > usize::MAX / 2 {
                    return Err(literal("Pronote RSA payload is too long"));
                }
                let u = base64_encode(c.as_slice());
                assert(base64_of(c@) == u@);
                Ok(u)
            },
            Err(e) => Err(e),
        }
    } else {
        Ok(base64_encode(raw_iv))
    }
}

/// Where a login has got to.
#[derive(Debug, Clone, Copy, PartialEq, Eq)]
pub enum LoginStage {
    /// `FonctionParametres` sent.
    Parameters,
    /// `Identification` sent.
    Identification,
    /// `Authentification` sent.
    Authentication,
    /// The 2FA PIN sent.
    DoubleAuth,
    /// `ParametresUtilisateur` sent.
    User,
    Done,
    Failed,
}

/// A login in progress: the session, the trimmed credentials, and the
/// temporary key once the challenge is known.
pub struct LoginState {
    pub stage: LoginStage,
    pub session: SessionState,
    pub username: String,
    pub password: String,
    pub pin: String,
    pub temp_key: Vec<u8>,
}

/// What the answer to the last call says, as the login reads it.
pub enum LoginReply {
    Parameters,
    /// Whether name and password are to be lowered, the random `alea`,
    /// and the challenge (if any).
    Identification { lower_user: bool, lower_pass: bool, alea: String, challenge: Option<String> },
    /// The hidden key `cle` (if any) and the 2FA actions (when the
    /// reply names any).
    Authentication { cle: Option<String>, double_auth: Option<Vec<i64>> },
    DoubleAuth { accepted: bool },
    User,
}

/// What to do next: call a function with a JSON `data` (and the IV to
/// use after it), stop with the session logged in, or give up.
pub enum LoginAction {
    Call { function: String, data: Option<String>, next_iv: Option<Vec<u8>> },
    Done,
    Fail(String),
}

/// A JSON string literal.
pub open spec fn json_str(s: Seq<char>) -> Seq<char> {
    "\""@ + json_escaped(s) + "\""@
}

/// The `data` of `FonctionParametres`.
pub open spec fn params_data_of(uuid: Seq<char>) -> Seq<char> {
    "{\"Uuid\":"@ + json_str(uuid) + ",\"identifiantNav\":null}"@
}

/// The `data` of `Identification` (keys in sorted order).
pub open spec fn ident_data_of(user: Seq<char>, espace: i64) -> Seq<char> {
    "{\"demandeConnexionAppliMobile\":false,\"demandeConnexionAppliMobileJeton\":false,\"demandeConnexionAuto\":false,\"enConnexionAppliMobile\":false,\"enConnexionAuto\":false,\"genreConnexion\":0,\"genreEspace\":"@
        + signed_decimal(espace) + ",\"identifiant\":"@ + json_str(user)
        + ",\"loginTokenSAV\":\"\",\"pourENT\":false,\"uuidAppliMobile\":\"\"}"@
}

/// The `data` of `Authentification`.
pub open spec fn auth_data_of(solved: Seq<char>, espace: i64) -> Seq<char> {
    "{\"challenge\":"@ + json_str(solved) + ",\"connexion\":0,\"espace\":"@ + signed_decimal(espace) + "}"@
}

/// The `data` of `SecurisationCompteDoubleAuth`.
pub open spec fn pin_data_of(code: Seq<char>) -> Seq<char> {
    "{\"action\":0,\"codePin\":"@ + json_str(code) + "}"@
}

/// The action calls `f` with `data` and keeps the IV.
pub open spec fn calls(a: LoginAction, f: Seq<char>, data: Option<Seq<char>>) -> bool {
    a matches LoginAction::Call { function, data: d, next_iv } && function@ == f && text_view(d) == data
        && next_iv is None
}

/// The action gives up with `msg`.
pub open spec fn fails(a: LoginAction, msg: Seq<char>) -> bool {
    a matches LoginAction::Fail(m) && m@ == msg
}

/// Everything of the session but its key stays.
pub open spec fn same_but_key(a: SessionState, b: SessionState) -> bool {
    &&& a.root@ == b.root@
    &&& a.espace == b.espace
    &&& a.session_id == b.session_id
    &&& a.request_number == b.request_number
    &&& a.iv@ == b.iv@
    &&& a.encrypt == b.encrypt
    &&& a.compress == b.compress
    &&& text_view(a.child_id) == text_view(b.child_id)
}

fn json_string(out: &mut String, s: &str)
    ensures
        final(out)@ == old(out)@ + json_str(s@),
{
    push_str(out, "\"");
    push_json_text(out, s);
    push_str(out, "\"");
}

fn params_data(uuid: &str) -> (r: String)
    ensures
        r@ == params_data_of(uuid@),
{
    let mut d = literal("{\"Uuid\":");
    json_string(&mut d, uuid);
    push_str(&mut d, ",\"identifiantNav\":null}");
    d
}

fn ident_data(user: &str, espace: i64) -> (r: String)
    ensures
        r@ == ident_data_of(user@, espace),
{
    let mut d = literal(
        "{\"demandeConnexionAppliMobile\":false,\"demandeConnexionAppliMobileJeton\":false,\"demandeConnexionAuto\":false,\"enConnexionAppliMobile\":false,\"enConnexionAuto\":false,\"genreConnexion\":0,\"genreEspace\":",
    );
    let e = signed_decimal_string(espace);
    push_str(&mut d, e.as_str());
    push_str(&mut d, ",\"identifiant\":");
    json_string(&mut d, user);
    push_str(&mut d, ",\"loginTokenSAV\":\"\",\"pourENT\":false,\"uuidAppliMobile\":\"\"}");
    d
}

fn auth_data(solved: &str, espace: i64) -> (r: String)
    ensures
        r@ == auth_data_of(solved@, espace),
{
    let mut d = literal("{\"challenge\":");
    json_string(&mut d, solved);
    push_str(&mut d, ",\"connexion\":0,\"espace\":");
    let e = signed_decimal_string(espace);
    push_str(&mut d, e.as_str());
    push_str(&mut d, "}");
    d
}

fn pin_data(code: &str) -> (r: String)
    ensures
        r@ == pin_data_of(code@),
{
    let mut d = literal("{\"action\":0,\"codePin\":");
    json_string(&mut d, code);
    push_str(&mut d, "}");
    d
}

fn call(function: &str, data: Option<String>) -> (r: LoginAction)
    ensures
        calls(r, function@, text_view(data)),
{
    LoginAction::Call { function: literal(function), data, next_iv: None }
}

fn fail(msg: &str) -> (r: LoginAction)
    ensures
        fails(r, msg@),
{
    LoginAction::Fail(literal(msg))
}

fn fail_with(msg: String) -> (r: LoginAction)
    ensures
        fails(r, msg@),
{
    LoginAction::Fail(msg)
}

fn trimmed_text(s: &str) -> (r: String)
    ensures
        r@ == trim(s@),
{
    let v = chars_of(s);
    let t = trimmed(v.as_slice());
    assert(t@.subrange(0, t@.len() as int) =~= t@);
    string_in(t.as_slice(), 0, t.len())
}

/// The login starts by sending `FonctionParametres` with the `Uuid`; the
/// IV after it is the MD5 of the random IV. Name, password and PIN are
/// kept trimmed.
pub fn login_start(session: SessionState, username: &str, password: &str, pin: &str, raw_iv: &[u8], uuid: &str) -> (r: (LoginState, LoginAction))
    requires
        session.wf(),
    ensures
        r.0.stage == LoginStage::Parameters,
        r.0.session == session,
        r.0.username@ == trim(username@),
        r.0.password@ == trim(password@),
        r.0.pin@ == trim(pin@),
        r.0.temp_key@.len() == 16,
        ({
            &&& r.1 matches LoginAction::Call { function, data, next_iv }
            &&& function@ == "FonctionParametres"@
            &&& text_view(data) == Some(params_data_of(uuid@))
            &&& next_iv matches Some(v)
            &&& v@ == md5_digest(raw_iv@)
        }),
{
    let st = LoginState {
        stage: LoginStage::Parameters,
        session,
        username: trimmed_text(username),
        password: trimmed_text(password),
        pin: trimmed_text(pin),
        temp_key: vec![0u8; 16],
    };
    let a = LoginAction::Call {
        function: literal("FonctionParametres"),
        data: Some(params_data(uuid)),
        next_iv: Some(md5_bytes(raw_iv)),
    };
    (st, a)
}

/// Starts a login with a fresh random IV: its `Uuid` is that IV in base64,
/// wrapped in the portal's RSA key when `http_rsa` says so.
pub fn login_begin(session: SessionState, username: &str, password: &str, pin: &str, http_rsa: bool) -> (r: Result<(LoginState, LoginAction), String>)
    requires
        session.wf(),
    ensures
        match r {
            Ok((st, a)) => {
                &&& st.stage == LoginStage::Parameters
                &&& st.username@ == trim(username@)
                &&& a matches LoginAction::Call { function, .. }
                &&& function@ == "FonctionParametres"@
            },
            Err(e) => http_rsa && (e@ == "bad Pronote RSA modulus"@ || e@ == "Pronote RSA payload is too long"@),
        },
        !http_rsa ==> r is Ok,
{
    let raw_iv = random_iv();
    let uuid = login_uuid(raw_iv.as_slice(), http_rsa)?;
    Ok(login_start(session, username, password, pin, raw_iv.as_slice(), uuid.as_str()))
}

/// One step of the login: from where it has got to and what the answer
/// to the last call says, the next call (or the end, or the reason it
/// fails).
pub open spec fn login_step_ok(st: LoginState, reply: LoginReply, next: LoginState, a: LoginAction) -> bool {
    match (st.stage, reply) {
        (LoginStage::Parameters, LoginReply::Parameters) => {
            &&& next.stage == LoginStage::Identification
            &&& next.session == st.session
            &&& calls(a, "Identification"@, Some(ident_data_of(st.username@, st.session.espace)))
        },
        (LoginStage::Identification, LoginReply::Identification { lower_user, lower_pass, alea, challenge }) => match challenge {
            None => next.stage == LoginStage::Failed && fails(a, "Pronote Identification returned no challenge"@),
            Some(c) => {
                let tk = login_key_of(alea@, st.username@, st.password@, lower_user, lower_pass);
                &&& next.stage == LoginStage::Authentication
                &&& next.session == st.session
                &&& next.temp_key@ == tk
                &&& calls(a, "Authentification"@, Some(auth_data_of(solved_of(c@, tk, st.session.iv@), st.session.espace)))
            },
        },
        (LoginStage::Authentication, LoginReply::Authentication { cle, double_auth }) => match cle {
            None => next.stage == LoginStage::Failed && fails(a, "Pronote login failed (check username/password)"@),
            Some(c) => match session_key_of(c@, st.temp_key@, st.session.iv@) {
                Err(e) => next.stage == LoginStage::Failed && fails(a, e),
                Ok(k) => {
                    &&& next.session.key@ == k
                    &&& same_but_key(next.session, st.session)
                    &&& if double_auth matches Some(acts) && acts@.contains(3i64) {
                        if st.pin@.len() == 0 {
                            next.stage == LoginStage::Failed && fails(a, "Pronote asked for a 2FA PIN; set pronote.pin in config.toml"@)
                        } else {
                            next.stage == LoginStage::DoubleAuth && calls(
                                a,
                                "SecurisationCompteDoubleAuth"@,
                                Some(pin_data_of(hex_of(aes_encrypted(k, st.session.iv@, encode_utf8(st.pin@))))),
                            )
                        }
                    } else {
                        next.stage == LoginStage::User && calls(a, "ParametresUtilisateur"@, None)
                    }
                },
            },
        },
        (LoginStage::DoubleAuth, LoginReply::DoubleAuth { accepted }) => if accepted {
            next.stage == LoginStage::User && next.session == st.session && calls(a, "ParametresUtilisateur"@, None)
        } else {
            next.stage == LoginStage::Failed && fails(a, "Pronote 2FA PIN was rejected"@)
        },
        (LoginStage::User, LoginReply::User) => next.stage == LoginStage::Done && next.session == st.session && a is Done,
        _ => next.stage == LoginStage::Failed && fails(a, "Pronote login out of step"@),
    }
}

fn has_action(acts: &Vec<i64>, x: i64) -> (r: bool)
    ensures
        r == acts@.contains(x),
{
    let mut i: usize = 0;
    while i < acts.len()
        invariant
            i <= acts@.len(),
            forall|j: int| 0 <= j < i ==> acts@[j] != x,
        decreases acts@.len() - i,
    {
        if acts[i] == x {
            assert(acts@[i as int] == x);
            return true;
        }
        i = i + 1;
    }
    false
}

/// One step of the login, decided from the answer to the last call.
pub fn login_step(st: LoginState, reply: LoginReply) -> (r: (LoginState, LoginAction))
    requires
        st.session.wf(),
        st.temp_key@.len() == 16,
    ensures
        login_step_ok(st, reply, r.0, r.1),
        r.0.session.wf(),
        r.0.temp_key@.len() == 16,
        r.0.username@ == st.username@,
        r.0.password@ == st.password@,
        r.0.pin@ == st.pin@,
{
    let ghost st0 = st;
    let LoginState { stage, mut session, username, password, pin, mut temp_key } = st;
    let next: LoginStage;
    let action: LoginAction;
    match (stage, reply) {
        (LoginStage::Parameters, LoginReply::Parameters) => {
            next = LoginStage::Identification;
            action = call("Identification", Some(ident_data(username.as_str(), session.espace)));
        },
        (LoginStage::Identification, LoginReply::Identification { lower_user, lower_pass, alea, challenge }) => {
            match challenge {
                None => {
                    next = LoginStage::Failed;
                    action = fail("Pronote Identification returned no challenge");
                },
                Some(c) => {
                    temp_key = login_key(alea.as_str(), username.as_str(), password.as_str(), lower_user, lower_pass);
                    let solved = solve_challenge(c.as_str(), temp_key.as_slice(), session.iv.as_slice());
                    next = LoginStage::Authentication;
                    action = call("Authentification", Some(auth_data(solved.as_str(), session.espace)));
                },
            }
        },
        (LoginStage::Authentication, LoginReply::Authentication { cle, double_auth }) => {
            match cle {
                None => {
                    next = LoginStage::Failed;
                    action = fail("Pronote login failed (check username/password)");
                },
                Some(c) => {
                    match session_key(c.as_str(), temp_key.as_slice(), session.iv.as_slice()) {
                        Err(e) => {
                            next = LoginStage::Failed;
                            action = fail_with(e);
                        },
                        Ok(k) => {
                            session.set_key(k);
                            let verify_pin = match &double_auth {
                                Some(acts) => has_action(acts, 3),
                                None => false,
                            };
                            if verify_pin {
                                if pin.as_str().is_empty() {
                                    next = LoginStage::Failed;
                                    action = fail("Pronote asked for a 2FA PIN; set pronote.pin in config.toml");
                                } else {
                                    let pb = text_bytes(pin.as_str());
                                    let enc = aes_cbc_encrypt(session.key.as_slice(), session.iv.as_slice(), pb.as_slice());
                                    let code = hex_encode(enc.as_slice());
                                    next = LoginStage::DoubleAuth;
                                    action = call("SecurisationCompteDoubleAuth", Some(pin_data(code.as_str())));
                                }
                            } else {
                                next = LoginStage::User;
                                action = call("ParametresUtilisateur", None);
                            }
                        },
                    }
                },
            }
        },
        (LoginStage::DoubleAuth, LoginReply::DoubleAuth { accepted }) => {
            if accepted {
                next = LoginStage::User;
                action = call("ParametresUtilisateur", None);
            } else {
                next = LoginStage::Failed;
                action = fail("Pronote 2FA PIN was rejected");
            }
        },
        (LoginStage::User, LoginReply::User) => {
            next = LoginStage::Done;
            action = LoginAction::Done;
        },
        _ => {
            next = LoginStage::Failed;
            action = fail("Pronote login out of step");
        },
    }
    (LoginState { stage: next, session, username, password, pin, temp_key }, action)
}

/// A child's name (`L`) holds what the setting asks for, ignoring ASCII case.
pub open spec fn child_matches(name: Option<String>, want: Seq<char>) -> bool {
    match name {
        Some(n) => find_seq(lower_seq(n@), lower_seq(want)) is Some,
        None => false,
    }
}

fn child_matches_exec(name: &Option<String>, want: &Vec<char>) -> (r: bool)
    ensures
        r == child_matches(*name, want@),
{
    match name {
        Some(n) => {
            let v = chars_of(n.as_str());
            let l = to_lower(v.as_slice());
            let w = to_lower(want.as_slice());
            assert(l@.subrange(0, l@.len() as int) =~= l@);
            find_seq_from(l.as_slice(), 0, w.as_slice()).is_some()
        },
        None => false,
    }
}

/// Which of a parent account's children to follow, from their names and
/// the (trimmed) setting: none to pick when the account lists no children;
/// the first when the setting is empty; else the first whose name holds
/// it; an error naming it when none does.
pub fn choose_child(names: &[Option<String>], want: &str) -> (r: Result<Option<usize>, String>)
    ensures
        names@.len() == 0 <==> (r matches Ok(o) && o is None),
        (r is Ok && r->Ok_0 is Some) ==> {
            let i = r->Ok_0->Some_0;
            &&& i < names@.len()
            &&& want@.len() == 0 ==> i == 0
            &&& want@.len() > 0 ==> child_matches(names@[i as int], want@) && forall|j: int|
                0 <= j < i ==> !child_matches(#[trigger] names@[j], want@)
        },
        r is Err <==> {
            &&& names@.len() > 0
            &&& want@.len() > 0
            &&& forall|j: int| 0 <= j < names@.len() ==> !child_matches(#[trigger] names@[j], want@)
        },
        r matches Err(e) ==> e@ == "Pronote child `"@ + want@ + "` was not found"@,
{
    if names.len() == 0 {
        return Ok(None);
    }
    let w = chars_of(want);
    if w.len() == 0 {
        return Ok(Some(0));
    }
    let mut i: usize = 0;
    while i < names.len()
        invariant
            i <= names@.len(),
            w@ == want@,
            want@.len() > 0,
            names@.len() > 0,
            forall|j: int| 0 <= j < i ==> !child_matches(#[trigger] names@[j], want@),
        decreases names@.len() - i,
    {
        if child_matches_exec(&names[i], &w) {
            return Ok(Some(i));
        }
        i = i + 1;
    }
    let mut e = literal("Pronote child `");
    push_str(&mut e, want);
    push_str(&mut e, "` was not found");
    Err(e)
}

/// A call's HTTP answer: refused, quoting its start, unless it succeeded.
pub fn reply_status(function: &str, success: bool, status: &str, text: &str) -> (r: Result<(), String>)
    ensures
        success ==> r is Ok,
        !success ==> (r matches Err(m) && m@ == "Pronote "@ + function@ + " HTTP "@ + status@ + ": "@
            + crate::server::pronote::clip_of(text@, 180)),
{
    if success {
        return Ok(());
    }
    let mut m = literal("Pronote ");
    push_str(&mut m, function);
    push_str(&mut m, " HTTP ");
    push_str(&mut m, status);
    push_str(&mut m, ": ");
    let c = crate::server::pronote::clip(text, 180);
    push_str(&mut m, c.as_str());
    Err(m)
}

/// The refusal of a reply that is not JSON, quoting its start.
pub fn reply_json_error(function: &str, text: &str) -> (r: String)
    ensures
        r@ == "Pronote "@ + function@ + " JSON: "@ + crate::server::pronote::clip_of(text@, 180),
{
    let mut m = literal("Pronote ");
    push_str(&mut m, function);
    push_str(&mut m, " JSON: ");
    let c = crate::server::pronote::clip(text, 180);
    push_str(&mut m, c.as_str());
    m
}

/// The refusal of a reply carrying `Erreur`: its code `G` (0 when missing)
/// and title `Titre` (`error` when missing).
pub fn reply_error(function: &str, code: Option<i64>, title: Option<&str>) -> (r: String)
    ensures
        r@ == "Pronote "@ + function@ + " error "@ + signed_decimal(match code {
            Some(c) => c,
            None => 0,
        }) + ": "@ + match title {
            Some(t) => t@,
            None => "error"@,
        },
{
    let mut m = literal("Pronote ");
    push_str(&mut m, function);
    push_str(&mut m, " error ");
    let c = signed_decimal_string(match code {
        Some(c) => c,
        None => 0,
    });
    push_str(&mut m, c.as_str());
    push_str(&mut m, ": ");
    match title {
        Some(t) => push_str(&mut m, t),
        None => push_str(&mut m, "error"),
    }
    m
}

} // verus!
