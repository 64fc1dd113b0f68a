//! The ciphers and codecs of the school-portal protocol: AES-128-CBC with
//! PKCS#7 padding from `aes` and `cbc`, raw deflate from `flate2`, and hex
//! in both directions from `hex`, modular powers from `num-bigint`, and
//! random bytes from `rand`.

use vstd::prelude::*;
use cbc::cipher::block_padding::Pkcs7;
use cbc::cipher::{BlockDecryptMut, BlockEncryptMut, KeyIvInit};
use std::io::{Read, Write};
use crate::hashing::hex_of;
use crate::text::upper_seq;

verus! {

/// AES-128-CBC encryption of `data` under `key` and `iv`, PKCS#7 padded.
pub uninterp spec fn aes_encrypted(key: Seq<u8>, iv: Seq<u8>, data: Seq<u8>) -> Seq<u8>;

/// AES-128-CBC decryption of `data` under `key` and `iv` with the PKCS#7
/// padding removed; `None` when the padding is not valid.
pub uninterp spec fn aes_decrypted(key: Seq<u8>, iv: Seq<u8>, data: Seq<u8>) -> Option<Seq<u8>>;

/// Raw deflate (no zlib header) of `data` at compression level 6.
pub uninterp spec fn deflated(data: Seq<u8>) -> Seq<u8>;

/// What `DeflateDecoder` reads from `data` to its end: `None` where the
/// decoder reports an error. A stream cut short may still read as `Some`
/// with the bytes decoded so far.
pub uninterp spec fn inflated(data: Seq<u8>) -> Option<Seq<u8>>;

/// `cbc::Encryptor::<aes::Aes128>` with `Pkcs7`: the ciphertext of `data`,
/// whole 16-byte blocks with at least one byte of padding.
#[verifier::external_body]
pub(crate) fn aes_cbc_encrypt(key: &[u8], iv: &[u8], data: &[u8]) -> (r: Vec<u8>)
    requires
        key@.len() == 16,
        iv@.len() == 16,
    ensures
        r@ == aes_encrypted(key@, iv@, data@),
        r@.len() == (data@.len() / 16 + 1) * 16,
{
    match cbc::Encryptor::<aes::Aes128>::new_from_slices(key, iv) {
        Ok(enc) => enc.encrypt_padded_vec_mut::<Pkcs7>(data),
        Err(_) => Vec::new(),
    }
}

/// `cbc::Decryptor::<aes::Aes128>` with `Pkcs7`: the plaintext, or `None`
/// when the padding does not check out.
#[verifier::external_body]
pub(crate) fn aes_cbc_decrypt(key: &[u8], iv: &[u8], data: &[u8]) -> (r: Option<Vec<u8>>)
    requires
        key@.len() == 16,
        iv@.len() == 16,
    ensures
        match r {
            Some(v) => aes_decrypted(key@, iv@, data@) == Some(v@),
            None => aes_decrypted(key@, iv@, data@) is None,
        },
{
    match cbc::Decryptor::<aes::Aes128>::new_from_slices(key, iv) {
        Ok(dec) => dec.decrypt_padded_vec_mut::<Pkcs7>(data).ok(),
        Err(_) => None,
    }
}

/// `flate2::write::DeflateEncoder` at `Compression::new(6)` into a `Vec`:
/// the raw deflate stream of `data` (writing into a `Vec` cannot fail).
#[verifier::external_body]
pub(crate) fn deflate_raw(data: &[u8]) -> (r: Vec<u8>)
    ensures
        r@ == deflated(data@),
{
    let mut enc = flate2::write::DeflateEncoder::new(Vec::new(), flate2::Compression::new(6));
    match enc.write_all(data) {
        Ok(()) => enc.finish().unwrap_or_default(),
        Err(_) => Vec::new(),
    }
}

/// `flate2::read::DeflateDecoder` read to the end: the inflated bytes, or
/// `None` when the decoder reports an error.
#[verifier::external_body]
pub(crate) fn inflate_raw(data: &[u8]) -> (r: Option<Vec<u8>>)
    ensures
        match r {
            Some(v) => inflated(data@) == Some(v@),
            None => inflated(data@) is None,
        },
{
    let mut out = Vec::new();
    match flate2::read::DeflateDecoder::new(data).read_to_end(&mut out) {
        Ok(_) => Some(out),
        Err(_) => None,
    }
}

/// Two uppercase hex digits per byte.
pub open spec fn hex_upper_of(data: Seq<u8>) -> Seq<char> {
    upper_seq(hex_of(data))
}

/// `hex::encode_upper`: the bytes as uppercase hex.
#[verifier::external_body]
pub(crate) fn hex_upper(data: &[u8]) -> (r: String)
    ensures
        r@ == hex_upper_of(data@),
{
    hex::encode_upper(data)
}

/// Value of one hex digit, either case.
pub open spec fn hex_val(c: u8) -> Option<u8> {
    if 48 <= c <= 57 {
        Some((c - 48) as u8)
    } else if 65 <= c <= 70 {
        Some((c - 55) as u8)
    } else if 97 <= c <= 102 {
        Some((c - 87) as u8)
    } else {
        None
    }
}

/// The bytes that hex text spells, two digits each, high nibble first;
/// `None` for an odd length or a character that is not a hex digit.
pub open spec fn unhex_of(s: Seq<u8>) -> Option<Seq<u8>>
    decreases s.len(),
{
    if s.len() % 2 != 0 {
        None
    } else if s.len() == 0 {
        Some(Seq::empty())
    } else {
        match (hex_val(s[0]), hex_val(s[1]), unhex_of(s.skip(2))) {
            (Some(h), Some(l), Some(rest)) => Some(seq![(h * 16 + l) as u8] + rest),
            _ => None,
        }
    }
}

/// `hex::decode`: the bytes, or `None` for text that is not hex.
#[verifier::external_body]
pub(crate) fn hex_decode(text: &[u8]) -> (r: Option<Vec<u8>>)
    ensures
        match r {
            Some(v) => unhex_of(text@) == Some(v@),
            None => unhex_of(text@) is None,
        },
{
    hex::decode(text).ok()
}

/// The number of bits of the number a decimal text spells (what
/// `num_bigint::BigUint::parse_bytes(_, 10)` then `bits` give); `None` when
/// the text is not decimal.
pub uninterp spec fn modulus_bits_of(dec: Seq<char>) -> Option<u64>;

/// `base` (big-endian bytes) to the power `exp`, modulo the number the
/// decimal text `dec` spells, as big-endian bytes.
pub uninterp spec fn power_mod_of(base: Seq<u8>, exp: u32, dec: Seq<char>) -> Seq<u8>;

/// `BigUint::parse_bytes(dec, 10)` and `BigUint::bits`.
#[verifier::external_body]
pub(crate) fn modulus_bits(dec: &str) -> (r: Option<u64>)
    ensures
        r == modulus_bits_of(dec@),
{
    num_bigint::BigUint::parse_bytes(dec.as_bytes(), 10).map(|n| n.bits())
}

/// `BigUint::from_bytes_be(base).modpow(exp, n).to_bytes_be()` with `n`
/// parsed from `dec`; `modpow` panics on a zero modulus, which the
/// precondition rules out.
#[verifier::external_body]
pub(crate) fn power_mod(base: &[u8], exp: u32, dec: &str) -> (r: Vec<u8>)
    requires
        modulus_bits_of(dec@) matches Some(b) && b > 0,
    ensures
        r@ == power_mod_of(base@, exp, dec@),
{
    match num_bigint::BigUint::parse_bytes(dec.as_bytes(), 10) {
        Some(n) => num_bigint::BigUint::from_bytes_be(base).modpow(&num_bigint::BigUint::from(exp), &n).to_bytes_be(),
        None => Vec::new(),
    }
}

/// `rand::thread_rng().gen_range(1..=255)`: a random byte that is not zero.
#[verifier::external_body]
pub(crate) fn nonzero_random_byte() -> (r: u8)
    ensures
        r != 0,
{
    rand::Rng::gen_range(&mut rand::thread_rng(), 1..=255u8)
}

/// `rand::RngCore::fill_bytes` on sixteen bytes from `rand::thread_rng()`.
#[verifier::external_body]
pub(crate) fn random_iv() -> (r: Vec<u8>)
    ensures
        r@.len() == 16,
{
    let mut iv = vec![0u8; 16];
    rand::RngCore::fill_bytes(&mut rand::thread_rng(), &mut iv);
    iv
}

} // verus!
