//! Digests and text encodings the server signs and keys frames with: MD5 and
//! SHA-256 from the RustCrypto crates, lowercase hex from `hex`, standard
//! base64 from `base64`.

use vstd::prelude::*;

verus! {

/// MD5 digest of `data` (what `md5::Md5` computes).
pub uninterp spec fn md5_digest(data: Seq<u8>) -> Seq<u8>;

/// SHA-256 digest of `data` (what `sha2::Sha256` computes).
pub uninterp spec fn sha256_digest(data: Seq<u8>) -> Seq<u8>;

/// `md5::Md5::digest`: the 16-byte MD5 digest of `data`.
#[verifier::external_body]
pub(crate) fn md5_bytes(data: &[u8]) -> (r: Vec<u8>)
    ensures
        r@ == md5_digest(data@),
        r@.len() == 16,
{
    <md5::Md5 as md5::Digest>::digest(data).to_vec()
}

/// `sha2::Sha256::digest`: the 32-byte SHA-256 digest of `data`.
#[verifier::external_body]
pub(crate) fn sha256_bytes(data: &[u8]) -> (r: Vec<u8>)
    ensures
        r@ == sha256_digest(data@),
        r@.len() == 32,
{
    <sha2::Sha256 as sha2::Digest>::digest(data).to_vec()
}

/// Lowercase hex digit for `v < 16`.
pub open spec fn hex_digit(v: u8) -> char {
    if v < 10 {
        (('0' as u8) + v) as char
    } else {
        (('a' as u8) + (v - 10)) as char
    }
}

/// Two lowercase hex digits per byte, high nibble first.
pub open spec fn hex_of(data: Seq<u8>) -> Seq<char>
    decreases data.len(),
{
    if data.len() == 0 {
        Seq::empty()
    } else {
        seq![hex_digit(data[0] >> 4u8), hex_digit(data[0] & 0x0fu8)] + hex_of(data.drop_first())
    }
}

/// `hex::encode`: the bytes as lowercase hex.
#[verifier::external_body]
pub(crate) fn hex_encode(data: &[u8]) -> (r: String)
    ensures
        r@ == hex_of(data@),
{
    hex::encode(data)
}

/// Standard base64 alphabet, `A–Z a–z 0–9 + /`, for `v < 64`.
pub open spec fn b64_char(v: u8) -> char {
    if v < 26 {
        (('A' as u8) + v) as char
    } else if v < 52 {
        (('a' as u8) + (v - 26)) as char
    } else if v < 62 {
        (('0' as u8) + (v - 52)) as char
    } else if v == 62 {
        '+'
    } else {
        '/'
    }
}

/// Standard padded base64: each three bytes become four characters; a
/// final one or two bytes are padded with `=`.
pub open spec fn base64_of(data: Seq<u8>) -> Seq<char>
    decreases data.len(),
{
    if data.len() == 0 {
        Seq::empty()
    } else if data.len() == 1 {
        seq![b64_char(data[0] >> 2u8), b64_char(((data[0] & 3u8) << 4u8) as u8), '=', '=']
    } else if data.len() == 2 {
        seq![
            b64_char(data[0] >> 2u8),
            b64_char((((data[0] & 3u8) << 4u8) | (data[1] >> 4u8)) as u8),
            b64_char(((data[1] & 15u8) << 2u8) as u8),
            '=',
        ]
    } else {
        seq![
            b64_char(data[0] >> 2u8),
            b64_char((((data[0] & 3u8) << 4u8) | (data[1] >> 4u8)) as u8),
            b64_char((((data[1] & 15u8) << 2u8) | (data[2] >> 6u8)) as u8),
            b64_char(data[2] & 63u8),
        ] + base64_of(data.skip(3))
    }
}

/// `base64::engine::general_purpose::STANDARD.encode`: padded standard base64.
#[verifier::external_body]
pub(crate) fn base64_encode(data: &[u8]) -> (r: String)
    requires
        data@.len() <= usize::MAX / 2,
    ensures
        r@ == base64_of(data@),
{
    base64::Engine::encode(&base64::engine::general_purpose::STANDARD, data)
}

/// MD5 of `data` as lowercase hex.
pub fn md5_hex(data: &[u8]) -> (r: String)
    ensures
        r@ == hex_of(md5_digest(data@)),
{
    let d = md5_bytes(data);
    hex_encode(d.as_slice())
}

/// SHA-256 of `data` as lowercase hex.
pub fn sha256_hex(data: &[u8]) -> (r: String)
    ensures
        r@ == hex_of(sha256_digest(data@)),
{
    let d = sha256_bytes(data);
    hex_encode(d.as_slice())
}

/// The UTF-8 bytes of `s`.
pub fn text_bytes(s: &str) -> (r: Vec<u8>)
    ensures
        r@ == vstd::utf8::encode_utf8(s@),
{
    let b = s.as_bytes();
    let mut out: Vec<u8> = Vec::new();
    let n = b.len();
    let mut i: usize = 0;
    while i < n
        invariant
            n == b@.len(),
            b@ == vstd::utf8::encode_utf8(s@),
            i <= n,
            out@ == b@.take(i as int),
        decreases n - i,
    {
        out.push(b[i]);
        assert(b@.take(i + 1) =~= b@.take(i as int).push(b@[i as int]));
        i = i + 1;
    }
    assert(b@.take(n as int) =~= b@);
    out
}

} // verus!
