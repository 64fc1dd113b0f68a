//! The Pico simulator's rules: what it posts, how long it naps, how it
//! names and previews the frames it receives.

use vstd::prelude::*;
use crate::text::{
    chars_of, decimal, decimal_string, end_char, parse_u64, parse_u64_exec, push_char,
    push_str, string_in, trim, trim_bounds, trim_char_end,
};

verus! {

/// Same fallbacks as the Pico firmware.
pub const FAIL_SLEEP_S: u64 = 120;
pub const DEFAULT_SLEEP_S: u64 = 3600;

/// Panel geometry of a packed frame: 1600×1200, two pixels per byte.
pub const PANEL_WIDTH: u32 = 1600;
pub const PANEL_HEIGHT: u32 = 1200;
pub const PANEL_BYTES: usize = 960000;

/// Seconds to sleep before the next poll.
pub open spec fn nap_of(reached: bool, server_sleep: Option<u64>, last_sleep: u64) -> u64 {
    if !reached {
        FAIL_SLEEP_S
    } else if server_sleep matches Some(s) && s > 0 {
        server_sleep->0
    } else if last_sleep > 0 {
        last_sleep
    } else {
        DEFAULT_SLEEP_S
    }
}

/// Failure back-off, else the server's sleep, else the last one, else an hour.
pub fn next_nap(reached: bool, server_sleep: Option<u64>, last_sleep: u64) -> (r: u64)
    ensures
        r == nap_of(reached, server_sleep, last_sleep),
{
    if !reached {
        FAIL_SLEEP_S
    } else {
        match server_sleep {
            Some(s) if s > 0 => s,
            _ => if last_sleep > 0 {
                last_sleep
            } else {
                DEFAULT_SLEEP_S
            },
        }
    }
}

/// `{base}/api/frame.bin` with trailing slashes of `base` removed.
pub fn frame_url(base: &str) -> (r: String)
    ensures
        r@ == trim_char_end(base@, '/') + "/api/frame.bin"@,
{
    let v = chars_of(base);
    let n = v.len();
    let j = end_char(&v, '/', 0, n);
    assert(v@.subrange(0, n as int) =~= base@);
    let mut out = string_in(&v, 0, j);
    push_str(&mut out, "/api/frame.bin");
    out
}

/// The form body the simulator posts.
pub open spec fn sim_form_of(mv: u32, pct: u16, usb: bool, wake: Seq<char>) -> Seq<char> {
    "mv="@ + decimal(mv as nat) + "&pct="@ + decimal(pct as nat) + "&usb="@ + (if usb {
        "1"@
    } else {
        "0"@
    }) + "&wake="@ + wake
}

/// `mv=…&pct=…&usb=…&wake=…`, the same form as the firmware sends.
pub fn telemetry_form(mv: u32, pct: u16, usb: bool, wake: &str) -> (r: String)
    ensures
        r@ == sim_form_of(mv, pct, usb, wake@),
{
    let mut body = String::new();
    push_str(&mut body, "mv=");
    let m = decimal_string(mv as u64);
    push_str(&mut body, m.as_str());
    push_str(&mut body, "&pct=");
    let p = decimal_string(pct as u64);
    push_str(&mut body, p.as_str());
    push_str(&mut body, "&usb=");
    push_str(&mut body, if usb { "1" } else { "0" });
    push_str(&mut body, "&wake=");
    push_str(&mut body, wake);
    assert(body@ =~= sim_form_of(mv, pct, usb, wake@));
    body
}

/// Battery state the simulator reports, and whether it drains between polls.
pub struct Telemetry {
    pub mv: u32,
    pub pct: u16,
    pub usb: bool,
    pub drain: bool,
    pub first: bool,
}

impl Telemetry {
    /// The next poll's form (`cold` first, then `timer`); a draining board on
    /// battery then loses one percent, and its voltage follows the linear map.
    pub fn body(&mut self) -> (r: String)
        ensures
            r@ == sim_form_of(
                old(self).mv,
                old(self).pct,
                old(self).usb,
                if old(self).first {
                    "cold"@
                } else {
                    "timer"@
                },
            ),
            !final(self).first,
            final(self).usb == old(self).usb,
            final(self).drain == old(self).drain,
            old(self).drain && !old(self).usb ==> final(self).pct == (if old(self).pct > 0 {
                old(self).pct - 1
            } else {
                0
            }) && final(self).mv == 3300 + 9 * (final(self).pct as int),
            !(old(self).drain && !old(self).usb) ==> final(self).pct == old(self).pct
                && final(self).mv == old(self).mv,
    {
        let wake = if self.first {
            "cold"
        } else {
            "timer"
        };
        self.first = false;
        let body = telemetry_form(self.mv, self.pct, self.usb, wake);
        if self.drain && !self.usb {
            self.pct = if self.pct > 0 {
                self.pct - 1
            } else {
                0
            };
            self.mv = 3300 + (self.pct as u32) * 9;
        }
        body
    }
}

/// A positive `X-Sleep-Seconds` value.
pub open spec fn sleep_seconds_of(value: Seq<char>) -> Option<u64> {
    match parse_u64(trim(value)) {
        Some(s) => if s > 0 {
            Some(s)
        } else {
            None
        },
        None => None,
    }
}

/// Seconds from an `X-Sleep-Seconds` header value, when positive.
pub fn sleep_seconds(value: &str) -> (r: Option<u64>)
    ensures
        r == sleep_seconds_of(value@),
{
    let v = chars_of(value);
    let (i, j) = trim_bounds(&v);
    match parse_u64_exec(&v, i, j) {
        Some(s) => if s > 0 {
            Some(s)
        } else {
            None
        },
        None => None,
    }
}

/// ASCII hex digit.
pub open spec fn is_hex(c: char) -> bool {
    ('0' <= c && c <= '9') || ('a' <= c && c <= 'f') || ('A' <= c && c <= 'F')
}

/// The hex digits of `s`, in order.
pub open spec fn hex_digits(s: Seq<char>) -> Seq<char> {
    s.filter(|c: char| is_hex(c))
}

/// The first eight hex digits of a checksum, for file names.
pub open spec fn short_of(checksum: Seq<char>) -> Seq<char> {
    let h = hex_digits(checksum);
    if h.len() <= 8 {
        h
    } else {
        h.take(8)
    }
}

pub fn short_checksum(checksum: &str) -> (r: String)
    ensures
        r@ == short_of(checksum@),
{
    let v = chars_of(checksum);
    let n = v.len();
    let mut h: Vec<char> = Vec::new();
    let mut i: usize = 0;
    while i < n
        invariant
            n == v@.len(),
            i <= n,
            h@ == hex_digits(v@.take(i as int)),
        decreases n - i,
    {
        assert(v@.take(i + 1).drop_last() =~= v@.take(i as int));
        reveal(Seq::filter);
        let c = v[i];
        if ('0' <= c && c <= '9') || ('a' <= c && c <= 'f') || ('A' <= c && c <= 'F') {
            h.push(c);
        }
        i = i + 1;
    }
    assert(v@.take(n as int) =~= v@);
    let k = if h.len() <= 8 {
        h.len()
    } else {
        8
    };
    if h.len() <= 8 {
        assert(h@.subrange(0, k as int) =~= h@);
    }
    string_in(&h, 0, k)
}

/// `frame-{stamp}.png`, or `frame-{stamp}-{short}.png` when the checksum has hex digits.
pub open spec fn frame_name_of(stamp: Seq<char>, checksum: Seq<char>) -> Seq<char> {
    if short_of(checksum).len() == 0 {
        "frame-"@ + stamp + ".png"@
    } else {
        "frame-"@ + stamp + "-"@ + short_of(checksum) + ".png"@
    }
}

/// File name for a received frame.
pub fn frame_file_name(stamp: &str, checksum: &str) -> (r: String)
    ensures
        r@ == frame_name_of(stamp@, checksum@),
{
    let short = short_checksum(checksum);
    let mut name = String::new();
    push_str(&mut name, "frame-");
    push_str(&mut name, stamp);
    if !short.as_str().is_empty() {
        push_str(&mut name, "-");
        push_str(&mut name, short.as_str());
    }
    push_str(&mut name, ".png");
    name
}

/// RGBA of a Spectra 6 ink index; unknown indices are black.
pub open spec fn rgba_of(idx: u8) -> Seq<u8> {
    if idx == 1 {
        seq![0xffu8, 0xff, 0xff, 0xff]
    } else if idx == 2 {
        seq![0xffu8, 0xff, 0x00, 0xff]
    } else if idx == 3 {
        seq![0xffu8, 0x00, 0x00, 0xff]
    } else if idx == 5 {
        seq![0x00u8, 0x00, 0xff, 0xff]
    } else if idx == 6 {
        seq![0x00u8, 0xff, 0x00, 0xff]
    } else {
        seq![0x00u8, 0x00, 0x00, 0xff]
    }
}

pub fn rgba_for(idx: u8) -> (r: [u8; 4])
    ensures
        r@ == rgba_of(idx),
{
    let r: [u8; 4] = if idx == 1 {
        [0xff, 0xff, 0xff, 0xff]
    } else if idx == 2 {
        [0xff, 0xff, 0x00, 0xff]
    } else if idx == 3 {
        [0xff, 0x00, 0x00, 0xff]
    } else if idx == 5 {
        [0x00, 0x00, 0xff, 0xff]
    } else if idx == 6 {
        [0x00, 0xff, 0x00, 0xff]
    } else {
        [0x00, 0x00, 0x00, 0xff]
    };
    assert(r@ =~= rgba_of(idx));
    r
}

/// RGBA pixels of a packed frame, row by row: each byte is two pixels,
/// high nibble first.
pub open spec fn pixels_of(bin: Seq<u8>) -> Seq<u8>
    decreases bin.len(),
{
    if bin.len() == 0 {
        Seq::empty()
    } else {
        pixels_of(bin.drop_last()) + rgba_of(bin.last() >> 4) + rgba_of(bin.last() & 0x0f)
    }
}

proof fn lemma_pixels_len(bin: Seq<u8>)
    ensures
        pixels_of(bin).len() == 8 * bin.len(),
    decreases bin.len(),
{
    if bin.len() > 0 {
        lemma_pixels_len(bin.drop_last());
    }
}

/// Byte `p` of a packed frame unpacks to pixels `2p` and `2p + 1`: its high
/// nibble's colour, then its low nibble's.
pub proof fn lemma_pixels_at(bin: Seq<u8>, p: int)
    requires
        0 <= p < bin.len(),
    ensures
        pixels_of(bin).len() == 8 * bin.len(),
        pixels_of(bin).subrange(8 * p, 8 * p + 4) == rgba_of(bin[p] >> 4),
        pixels_of(bin).subrange(8 * p + 4, 8 * p + 8) == rgba_of(bin[p] & 0x0f),
    decreases bin.len(),
{
    let q = bin.drop_last();
    lemma_pixels_len(bin);
    lemma_pixels_len(q);
    let n = q.len() as int;
    if p < n {
        lemma_pixels_at(q, p);
        assert(pixels_of(bin).subrange(8 * p, 8 * p + 4) =~= pixels_of(q).subrange(8 * p, 8 * p + 4));
        assert(pixels_of(bin).subrange(8 * p + 4, 8 * p + 8) =~= pixels_of(q).subrange(8 * p + 4, 8 * p + 8));
    } else {
        assert(pixels_of(bin).subrange(8 * p, 8 * p + 4) =~= rgba_of(bin[p] >> 4));
        assert(pixels_of(bin).subrange(8 * p + 4, 8 * p + 8) =~= rgba_of(bin[p] & 0x0f));
    }
}

fn push_rgba(out: &mut Vec<u8>, idx: u8)
    ensures
        final(out)@ == old(out)@ + rgba_of(idx),
{
    let px = rgba_for(idx);
    out.push(px[0]);
    out.push(px[1]);
    out.push(px[2]);
    out.push(px[3]);
    assert(final(out)@ =~= old(out)@ + rgba_of(idx));
}

/// The RGBA pixels of a packed frame.
pub fn unpack_pixels(bin: &[u8]) -> (r: Vec<u8>)
    ensures
        r@ == pixels_of(bin@),
{
    let n = bin.len();
    let mut out: Vec<u8> = Vec::new();
    let mut i: usize = 0;
    while i < n
        invariant
            n == bin@.len(),
            i <= n,
            out@ == pixels_of(bin@.take(i as int)),
        decreases n - i,
    {
        let b = bin[i];
        assert(bin@.take(i + 1).drop_last() =~= bin@.take(i as int));
        push_rgba(&mut out, b >> 4);
        push_rgba(&mut out, b & 0x0f);
        i = i + 1;
    }
    assert(bin@.take(n as int) =~= bin@);
    out
}

/// The PNG encoding `image` produces of an RGBA image.
pub uninterp spec fn png_of(width: u32, height: u32, rgba: Seq<u8>) -> Seq<u8>;

/// PNG-encodes a `width`×`height` RGBA buffer with the `image` crate
/// (`ImageBuffer::from_raw`, then `write_to` as `ImageFormat::Png`). When it
/// gives bytes they are that encoding. `from_raw` takes a buffer of exactly
/// four bytes a pixel, and the PNG encoder writes any nonzero size below
/// 2^31 into memory, so such an image always encodes.
#[verifier::external_body]
pub(crate) fn encode_png(width: u32, height: u32, rgba: Vec<u8>) -> (r: Option<Vec<u8>>)
    ensures
        r matches Some(b) ==> b@ == png_of(width, height, rgba@),
        (0 < width < 0x8000_0000 && 0 < height < 0x8000_0000 && rgba@.len() == 4 * width * height) ==> r is Some,
{
    let img = image::RgbaImage::from_raw(width, height, rgba)?;
    let mut png: Vec<u8> = Vec::new();
    match img.write_to(&mut std::io::Cursor::new(&mut png), image::ImageFormat::Png) {
        Ok(()) => Some(png),
        Err(_) => None,
    }
}

/// Expand a packed Spectra 6 `.bin` back to a debug PNG.
pub fn unpack_preview_png(bin: &[u8]) -> (r: Result<Vec<u8>, String>)
    ensures
        bin@.len() != PANEL_BYTES ==> (r matches Err(msg) && msg@
            == "packed frame must be 960000 bytes, got "@ + decimal(bin@.len())),
        r matches Ok(png) ==> bin@.len() == PANEL_BYTES && png@ == png_of(
            PANEL_WIDTH,
            PANEL_HEIGHT,
            pixels_of(bin@),
        ),
        bin@.len() == PANEL_BYTES ==> r is Ok,
{
    if bin.len() != PANEL_BYTES {
        let mut msg = String::new();
        push_str(&mut msg, "packed frame must be 960000 bytes, got ");
        let n = decimal_string(bin.len() as u64);
        push_str(&mut msg, n.as_str());
        return Err(msg);
    }
    let px = unpack_pixels(bin);
    proof {
        lemma_pixels_len(bin@);
    }
    match encode_png(PANEL_WIDTH, PANEL_HEIGHT, px) {
        Some(png) => Ok(png),
        None => {
            let mut msg = String::new();
            push_str(&mut msg, "could not encode the preview PNG");
            Err(msg)
        },
    }
}

} // verus!
