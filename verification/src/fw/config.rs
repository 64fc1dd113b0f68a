//! Last-sector settings record: magic, FNV-1a, length-prefixed fields.

use vstd::prelude::*;
use vstd::utf8::{decode_utf8, encode_utf8, valid_utf8};
use crate::text::utf8_text;

verus! {

broadcast use vstd::utf8::encode_utf8_valid_utf8, vstd::utf8::encode_utf8_decode_utf8;

pub const MAGIC: u32 = 0x4646_5231;
pub const SSID_MAX: usize = 32;
pub const PSK_MAX: usize = 64;
pub const SERVER_MAX: usize = 128;
pub const CHECKSUM_MAX: usize = 80;
pub const RECORD: usize = 512;
pub const DEFAULT_SLEEP_S: u32 = 3600;
/// Longest wake slot the firmware stores and echoes, in bytes.
pub const WAKE_AT_MAX: usize = 32;

pub const SSID_OFF: usize = 8;
pub const PSK_OFF: usize = 41;
pub const SERVER_OFF: usize = 106;
pub const CHECKSUM_OFF: usize = 235;
pub const SLEEP_OFF: usize = 316;

/// In-RAM copy of the provisioned settings (and the flash payload).
#[derive(Clone, Debug, PartialEq, Eq)]
pub struct NetConfig {
    pub ssid: String,
    pub psk: String,
    pub server: String,
    pub last_checksum: String,
    /// Last `X-Sleep-Seconds` from the server (fallback if a later poll omits it).
    pub sleep_s: u32,
}

/// What a [`NetConfig`] holds: the text of each field and the sleep seconds.
pub struct NetConfigView {
    pub ssid: Seq<char>,
    pub psk: Seq<char>,
    pub server: Seq<char>,
    pub last_checksum: Seq<char>,
    pub sleep_s: u32,
}

impl View for NetConfig {
    type V = NetConfigView;

    open spec fn view(&self) -> NetConfigView {
        NetConfigView {
            ssid: self.ssid@,
            psk: self.psk@,
            server: self.server@,
            last_checksum: self.last_checksum@,
            sleep_s: self.sleep_s,
        }
    }
}

/// UTF-8 length of `s` is at most `max` bytes.
pub open spec fn fits(s: Seq<char>, max: int) -> bool {
    encode_utf8(s).len() <= max
}

impl NetConfigView {
    /// Every field within the capacity that its slot in the record allows.
    pub open spec fn wf(self) -> bool {
        &&& fits(self.ssid, SSID_MAX as int)
        &&& fits(self.psk, PSK_MAX as int)
        &&& fits(self.server, SERVER_MAX as int)
        &&& fits(self.last_checksum, CHECKSUM_MAX as int)
    }
}

impl NetConfig {
    pub fn empty() -> (c: Self)
        ensures
            c@.ssid.len() == 0,
            c@.psk.len() == 0,
            c@.server.len() == 0,
            c@.last_checksum.len() == 0,
            c@.sleep_s == DEFAULT_SLEEP_S,
            c@.wf(),
    {
        let c = Self {
            ssid: String::new(),
            psk: String::new(),
            server: String::new(),
            last_checksum: String::new(),
            sleep_s: DEFAULT_SLEEP_S,
        };
        assert(encode_utf8(Seq::<char>::empty()) =~= Seq::<u8>::empty());
        c
    }

    /// Wi-Fi name and server are both set.
    pub fn is_ready(&self) -> (r: bool)
        ensures
            r == (self@.ssid.len() > 0 && self@.server.len() > 0),
    {
        !self.ssid.as_str().is_empty() && !self.server.as_str().is_empty()
    }
}

pub open spec fn zeros(n: nat) -> Seq<u8> {
    Seq::new(n, |i: int| 0u8)
}

/// `buf` with `bytes` written from `off` on.
pub open spec fn put(buf: Seq<u8>, off: int, bytes: Seq<u8>) -> Seq<u8> {
    buf.subrange(0, off) + bytes + buf.subrange(off + bytes.len(), buf.len() as int)
}

/// Little-endian bytes of `x`.
pub open spec fn le32(x: u32) -> Seq<u8> {
    seq![(x & 0xff) as u8, ((x >> 8u32) & 0xff) as u8, ((x >> 16u32) & 0xff) as u8, ((x >> 24u32) & 0xff) as u8]
}

/// The `u32` stored little-endian at `buf[off..off + 4]`.
pub open spec fn u32_at(buf: Seq<u8>, off: int) -> u32 {
    (buf[off] as u32) | ((buf[off + 1] as u32) << 8u32) | ((buf[off + 2] as u32) << 16u32) | ((
    buf[off + 3] as u32) << 24u32)
}

/// One FNV-1a round.
pub open spec fn fnv_step(h: u32, b: u8) -> u32 {
    (((h ^ (b as u32)) as int * 16777619) % 0x1_0000_0000) as u32
}

/// 32-bit FNV-1a of `data`.
pub open spec fn fnv1a(data: Seq<u8>) -> u32
    decreases data.len(),
{
    if data.len() == 0 {
        2166136261u32
    } else {
        fnv_step(fnv1a(data.drop_last()), data.last())
    }
}

/// Length byte followed by the UTF-8 text.
pub open spec fn field_bytes(s: Seq<char>) -> Seq<u8> {
    seq![encode_utf8(s).len() as u8] + encode_utf8(s)
}

/// The record before the checksum is filled in.
pub open spec fn payload(c: NetConfigView) -> Seq<u8> {
    let b0 = put(zeros(RECORD as nat), 0, le32(MAGIC));
    let b1 = put(b0, SSID_OFF as int, field_bytes(c.ssid));
    let b2 = put(b1, PSK_OFF as int, field_bytes(c.psk));
    let b3 = put(b2, SERVER_OFF as int, field_bytes(c.server));
    let b4 = put(b3, CHECKSUM_OFF as int, field_bytes(c.last_checksum));
    put(b4, SLEEP_OFF as int, le32(c.sleep_s))
}

/// The 512-byte flash record of `c`.
pub open spec fn record(c: NetConfigView) -> Seq<u8> {
    let p = payload(c);
    put(p, 4, le32(fnv1a(p.subrange(8, RECORD as int))))
}

/// Text of the length-prefixed field at `off`, if it is short enough and valid UTF-8.
pub open spec fn field_at(buf: Seq<u8>, off: int, max: int) -> Option<Seq<char>> {
    let len = buf[off] as int;
    if len > max || off + 1 + len > buf.len() {
        None
    } else {
        let b = buf.subrange(off + 1, off + 1 + len);
        if valid_utf8(b) {
            Some(decode_utf8(b))
        } else {
            None
        }
    }
}

/// Settings read back from a record, if magic, checksum and fields are sound.
pub open spec fn decode_record(buf: Seq<u8>) -> Option<NetConfigView> {
    if u32_at(buf, 0) != MAGIC || u32_at(buf, 4) != fnv1a(buf.subrange(8, RECORD as int)) {
        None
    } else {
        match (
            field_at(buf, SSID_OFF as int, SSID_MAX as int),
            field_at(buf, PSK_OFF as int, PSK_MAX as int),
            field_at(buf, SERVER_OFF as int, SERVER_MAX as int),
            field_at(buf, CHECKSUM_OFF as int, CHECKSUM_MAX as int),
        ) {
            (Some(ssid), Some(psk), Some(server), Some(last_checksum)) => Some(
                NetConfigView {
                    ssid,
                    psk,
                    server,
                    last_checksum,
                    sleep_s: u32_at(buf, SLEEP_OFF as int),
                },
            ),
            _ => None,
        }
    }
}

fn write_u32(buf: &mut [u8; RECORD], off: usize, x: u32)
    requires
        off + 4 <= RECORD,
    ensures
        final(buf)@ == put(old(buf)@, off as int, le32(x)),
{
    buf[off] = (x & 0xff) as u8;
    buf[off + 1] = ((x >> 8) & 0xff) as u8;
    buf[off + 2] = ((x >> 16) & 0xff) as u8;
    buf[off + 3] = ((x >> 24) & 0xff) as u8;
    assert(buf@ =~= put(old(buf)@, off as int, le32(x)));
}

fn read_u32(buf: &[u8; RECORD], off: usize) -> (x: u32)
    requires
        off + 4 <= RECORD,
    ensures
        x == u32_at(buf@, off as int),
{
    (buf[off] as u32) | ((buf[off + 1] as u32) << 8) | ((buf[off + 2] as u32) << 16) | ((
    buf[off + 3] as u32) << 24)
}

/// Writes the length byte and the bytes of one field.
pub fn write_field(buf: &mut [u8; RECORD], offset: usize, bytes: &[u8])
    requires
        bytes@.len() <= 255,
        offset + 1 + bytes@.len() <= RECORD,
    ensures
        final(buf)@ == put(old(buf)@, offset as int, seq![bytes@.len() as u8] + bytes@),
{
    let n = bytes.len();
    buf[offset] = n as u8;
    let mut i: usize = 0;
    while i < n
        invariant
            n == bytes@.len(),
            n <= 255,
            offset + 1 + n <= RECORD,
            i <= n,
            buf@ =~= put(old(buf)@, offset as int, seq![n as u8] + bytes@.take(i as int)),
        decreases n - i,
    {
        buf[offset + 1 + i] = bytes[i];
        i = i + 1;
        assert(buf@ =~= put(old(buf)@, offset as int, seq![n as u8] + bytes@.take(i as int)));
    }
    assert(bytes@.take(n as int) =~= bytes@);
}

/// FNV-1a of `data`.
pub fn checksum(data: &[u8]) -> (h: u32)
    ensures
        h == fnv1a(data@),
{
    let mut h: u32 = 2166136261;
    let mut i: usize = 0;
    let n = data.len();
    while i < n
        invariant
            n == data@.len(),
            i <= n,
            h == fnv1a(data@.take(i as int)),
        decreases n - i,
    {
        assert(data@.take(i + 1).drop_last() =~= data@.take(i as int));
        h = h ^ (data[i] as u32);
        h = h.wrapping_mul(16777619);
        i = i + 1;
    }
    assert(data@.take(n as int) =~= data@);
    h
}



/// Serializes `cfg` into the flash record layout.
pub fn encode(cfg: &NetConfig) -> (buf: [u8; RECORD])
    requires
        cfg@.wf(),
    ensures
        buf@ == record(cfg@),
{
    let mut buf = [0u8; RECORD];
    assert(buf@ =~= zeros(RECORD as nat));
    write_u32(&mut buf, 0, MAGIC);
    write_field(&mut buf, SSID_OFF, cfg.ssid.as_str().as_bytes());
    write_field(&mut buf, PSK_OFF, cfg.psk.as_str().as_bytes());
    write_field(&mut buf, SERVER_OFF, cfg.server.as_str().as_bytes());
    write_field(&mut buf, CHECKSUM_OFF, cfg.last_checksum.as_str().as_bytes());
    write_u32(&mut buf, SLEEP_OFF, cfg.sleep_s);
    assert(buf@ =~= payload(cfg@));
    let tail = vstd::slice::slice_subrange(vstd::array::array_as_slice(&buf), 8, RECORD);
    let crc = checksum(tail);
    write_u32(&mut buf, 4, crc);
    buf
}

/// Reads the length-prefixed UTF-8 field at `offset`.
pub fn read_field(buf: &[u8; RECORD], offset: usize, max: usize) -> (r: Option<String>)
    requires
        offset < RECORD,
    ensures
        r matches Some(s) ==> field_at(buf@, offset as int, max as int) == Some(s@),
        r is None ==> field_at(buf@, offset as int, max as int) is None,
{
    let len = buf[offset] as usize;
    if len > max || offset + 1 + len > RECORD {
        return None;
    }
    let mut bytes: Vec<u8> = Vec::new();
    let mut i: usize = 0;
    while i < len
        invariant
            offset + 1 + len <= RECORD,
            i <= len,
            bytes@ == buf@.subrange(offset + 1, offset + 1 + i),
        decreases len - i,
    {
        bytes.push(buf[offset + 1 + i]);
        assert(bytes@ =~= buf@.subrange(offset + 1, offset + 1 + i + 1));
        i = i + 1;
    }
    utf8_text(bytes.as_slice())
}

/// Parses a flash record back into settings.
pub fn decode(buf: &[u8; RECORD]) -> (r: Option<NetConfig>)
    ensures
        r matches Some(c) ==> decode_record(buf@) == Some(c@),
        r is None ==> decode_record(buf@) is None,
{
    let magic = read_u32(buf, 0);
    if magic != MAGIC {
        return None;
    }
    let crc = read_u32(buf, 4);
    let tail = vstd::slice::slice_subrange(vstd::array::array_as_slice(buf), 8, RECORD);
    if crc != checksum(tail) {
        return None;
    }
    let ssid = read_field(buf, SSID_OFF, SSID_MAX)?;
    let psk = read_field(buf, PSK_OFF, PSK_MAX)?;
    let server = read_field(buf, SERVER_OFF, SERVER_MAX)?;
    let last_checksum = read_field(buf, CHECKSUM_OFF, CHECKSUM_MAX)?;
    let sleep_s = read_u32(buf, SLEEP_OFF);
    Some(NetConfig { ssid, psk, server, last_checksum, sleep_s })
}

proof fn lemma_put(buf: Seq<u8>, off: int, bytes: Seq<u8>)
    requires
        0 <= off,
        off + bytes.len() <= buf.len(),
    ensures
        put(buf, off, bytes).len() == buf.len(),
        forall|i: int|
            0 <= i < buf.len() ==> #[trigger] put(buf, off, bytes)[i] == if off <= i < off
                + bytes.len() {
                bytes[i - off]
            } else {
                buf[i]
            },
{
}

proof fn lemma_le32(x: u32)
    ensures
        u32_at(le32(x), 0) == x,
{
    let b = le32(x);
    assert(b[0] == (x & 0xff) as u8);
    assert(((x & 0xff) as u8) as u32 | ((((x >> 8u32) & 0xff) as u8) as u32) << 8u32 | ((((x
        >> 16u32) & 0xff) as u8) as u32) << 16u32 | ((((x >> 24u32) & 0xff) as u8) as u32)
        << 24u32 == x) by (bit_vector);
}

proof fn lemma_u32_at_shift(buf: Seq<u8>, off: int, b: Seq<u8>)
    requires
        0 <= off,
        off + 4 <= buf.len(),
        b.len() == 4,
        forall|i: int| 0 <= i < 4 ==> buf[off + i] == b[i],
    ensures
        u32_at(buf, off) == u32_at(b, 0),
{
    assert(buf[off] == b[0]);
    assert(buf[off + 1] == b[1]);
    assert(buf[off + 2] == b[2]);
    assert(buf[off + 3] == b[3]);
}

proof fn lemma_field_back(buf: Seq<u8>, off: int, max: int, s: Seq<char>)
    requires
        0 <= off,
        fits(s, max),
        max <= 255,
        off + 1 + max <= buf.len(),
        buf[off] == encode_utf8(s).len() as u8,
        forall|i: int| 0 <= i < encode_utf8(s).len() ==> buf[off + 1 + i] == encode_utf8(s)[i],
    ensures
        field_at(buf, off, max) == Some(s),
{
    let e = encode_utf8(s);
    assert(buf.subrange(off + 1, off + 1 + e.len()) =~= e);
}

/// Reading back a record that was written from well-formed settings gives
/// the same settings.
pub proof fn lemma_decode_encode(c: NetConfigView)
    requires
        c.wf(),
    ensures
        decode_record(record(c)) == Some(c),
{
    let b0 = put(zeros(RECORD as nat), 0, le32(MAGIC));
    let b1 = put(b0, SSID_OFF as int, field_bytes(c.ssid));
    let b2 = put(b1, PSK_OFF as int, field_bytes(c.psk));
    let b3 = put(b2, SERVER_OFF as int, field_bytes(c.server));
    let b4 = put(b3, CHECKSUM_OFF as int, field_bytes(c.last_checksum));
    let p = put(b4, SLEEP_OFF as int, le32(c.sleep_s));
    lemma_put(zeros(RECORD as nat), 0, le32(MAGIC));
    lemma_put(b0, SSID_OFF as int, field_bytes(c.ssid));
    lemma_put(b1, PSK_OFF as int, field_bytes(c.psk));
    lemma_put(b2, SERVER_OFF as int, field_bytes(c.server));
    lemma_put(b3, CHECKSUM_OFF as int, field_bytes(c.last_checksum));
    lemma_put(b4, SLEEP_OFF as int, le32(c.sleep_s));
    let crc = fnv1a(p.subrange(8, RECORD as int));
    let r = put(p, 4, le32(crc));
    lemma_put(p, 4, le32(crc));
    assert(r == record(c));
    assert(r.subrange(8, RECORD as int) =~= p.subrange(8, RECORD as int));
    lemma_le32(MAGIC);
    lemma_le32(crc);
    lemma_le32(c.sleep_s);
    lemma_u32_at_shift(r, 0, le32(MAGIC));
    lemma_u32_at_shift(r, 4, le32(crc));
    lemma_u32_at_shift(r, SLEEP_OFF as int, le32(c.sleep_s));
    lemma_field_back(r, SSID_OFF as int, SSID_MAX as int, c.ssid);
    lemma_field_back(r, PSK_OFF as int, PSK_MAX as int, c.psk);
    lemma_field_back(r, SERVER_OFF as int, SERVER_MAX as int, c.server);
    lemma_field_back(r, CHECKSUM_OFF as int, CHECKSUM_MAX as int, c.last_checksum);
}

proof fn lemma_fnv_inverse(x: u32)
    by (bit_vector)
    ensures
        (((x * 16777619) % 0x1_0000_0000) * 0x359c449b) % 0x1_0000_0000 == x,
{
}

proof fn lemma_xor_cancel(h1: u32, h2: u32, b1: u8, b2: u8)
    by (bit_vector)
    ensures
        (h1 ^ (b1 as u32)) == (h2 ^ (b1 as u32)) ==> h1 == h2,
        (h1 ^ (b1 as u32)) == (h1 ^ (b2 as u32)) ==> b1 == b2,
{
}

/// One FNV-1a round tells apart different states and different bytes.
proof fn lemma_fnv_step_injective(h1: u32, h2: u32, b1: u8, b2: u8)
    ensures
        fnv_step(h1, b1) == fnv_step(h2, b1) ==> h1 == h2,
        fnv_step(h1, b1) == fnv_step(h1, b2) ==> b1 == b2,
{
    lemma_fnv_inverse(h1 ^ (b1 as u32));
    lemma_fnv_inverse(h2 ^ (b1 as u32));
    lemma_fnv_inverse(h1 ^ (b2 as u32));
    lemma_xor_cancel(h1, h2, b1, b2);
}

/// FNV-1a notices any change of a single byte.
pub proof fn lemma_fnv_one_byte(t: Seq<u8>, j: int, b: u8)
    requires
        0 <= j < t.len(),
        b != t[j],
    ensures
        fnv1a(t.update(j, b)) != fnv1a(t),
    decreases t.len(),
{
    let u = t.update(j, b);
    if j == t.len() - 1 {
        assert(u.drop_last() =~= t.drop_last());
        lemma_fnv_step_injective(fnv1a(t.drop_last()), fnv1a(t.drop_last()), t.last(), b);
    } else {
        assert(u.drop_last() =~= t.drop_last().update(j, b));
        lemma_fnv_one_byte(t.drop_last(), j, b);
        assert(u.last() == t.last());
        lemma_fnv_step_injective(fnv1a(u.drop_last()), fnv1a(t.drop_last()), t.last(), t.last());
    }
}

proof fn lemma_u32_at_bytes(a0: u8, a1: u8, a2: u8, a3: u8, b0: u8, b1: u8, b2: u8, b3: u8)
    by (bit_vector)
    requires
        ((a0 as u32) | ((a1 as u32) << 8u32) | ((a2 as u32) << 16u32) | ((a3 as u32) << 24u32))
            == ((b0 as u32) | ((b1 as u32) << 8u32) | ((b2 as u32) << 16u32) | ((b3 as u32) << 24u32)),
    ensures
        a0 == b0 && a1 == b1 && a2 == b2 && a3 == b3,
{
}

/// A record written from well-formed settings, with any one byte changed
/// (in the magic, the stored checksum or anything the checksum covers), is
/// refused.
pub proof fn lemma_one_byte_change_rejected(c: NetConfigView, k: int, b: u8)
    requires
        c.wf(),
        0 <= k < RECORD,
        b != record(c)[k],
    ensures
        decode_record(record(c).update(k, b)) is None,
{
    let r = record(c);
    let r2 = r.update(k, b);
    lemma_decode_encode(c);
    assert(r.len() == RECORD);
    if k < 4 {
        if u32_at(r2, 0) == MAGIC {
            lemma_u32_at_bytes(r2[0], r2[1], r2[2], r2[3], r[0], r[1], r[2], r[3]);
        }
    } else if k < 8 {
        assert(r2.subrange(8, RECORD as int) =~= r.subrange(8, RECORD as int));
        if u32_at(r2, 4) == u32_at(r, 4) {
            lemma_u32_at_bytes(r2[4], r2[5], r2[6], r2[7], r[4], r[5], r[6], r[7]);
        }
    } else {
        assert(r2.subrange(8, RECORD as int) =~= r.subrange(8, RECORD as int).update(k - 8, b));
        lemma_fnv_one_byte(r.subrange(8, RECORD as int), k - 8, b);
        assert(u32_at(r2, 4) == u32_at(r, 4));
    }
}

/// A record with any field too long for its place or not UTF-8 is
/// refused, whatever its magic and checksum.
pub proof fn lemma_bad_field_rejected(buf: Seq<u8>)
    requires
        field_at(buf, SSID_OFF as int, SSID_MAX as int) is None
            || field_at(buf, PSK_OFF as int, PSK_MAX as int) is None
            || field_at(buf, SERVER_OFF as int, SERVER_MAX as int) is None
            || field_at(buf, CHECKSUM_OFF as int, CHECKSUM_MAX as int) is None,
    ensures
        decode_record(buf) is None,
{
}

proof fn lemma_magic_not_blank(x: u8)
    by (bit_vector)
    ensures
        ((x as u32) | ((x as u32) << 8u32) | ((x as u32) << 16u32) | ((x as u32) << 24u32)) != 0x4646_5231u32,
{
}

/// A sector filled with one byte, erased (`0xFF`) or zeroed among them,
/// holds no settings.
pub proof fn lemma_blank_record_rejected(x: u8)
    ensures
        decode_record(Seq::new(RECORD as nat, |i: int| x)) is None,
{
    let buf = Seq::new(RECORD as nat, |i: int| x);
    lemma_magic_not_blank(x);
    assert(u32_at(buf, 0) != MAGIC);
}

} // verus!
