//! Photo packing around the Spectra 6 dither: flattening RGBA to the RGB the
//! ditherer reads, mapping its palette indices to panel nibbles, and packing
//! two nibbles per byte.

use vstd::prelude::*;

verus! {

/// Bump when the dither recipe changes so cached `.bin` / preview files regenerate.
pub const DITHER_VERSION: u32 = 23;

/// Crate palette index → Tesserae Spectra 6 nibble.
/// Order is BWY R B G (crate indices 0..5); wire nibbles skip 4.
pub const CRATE_TO_NIBBLE: [u8; 6] = [0, 1, 2, 3, 5, 6];

/// The nibble a photo pixel with palette index `i` is painted with: green
/// (nibble 6) reads as muddy shadow on family photos and is painted black;
/// an index outside the palette is black too.
pub open spec fn photo_nibble_of(i: u8) -> u8 {
    if i == 0 {
        0
    } else if i == 1 {
        1
    } else if i == 2 {
        2
    } else if i == 3 {
        3
    } else if i == 4 {
        5
    } else {
        0
    }
}

pub fn photo_nibble(i: u8) -> (r: u8)
    ensures
        r == photo_nibble_of(i),
{
    let table = CRATE_TO_NIBBLE;
    let n = if (i as usize) < table.len() {
        table[i as usize]
    } else {
        0
    };
    if n == 6 {
        0
    } else {
        n
    }
}

/// Panel nibbles for a dithered photo's palette indices.
pub fn photo_nibbles(indices: &[u8]) -> (r: Vec<u8>)
    ensures
        r@.len() == indices@.len(),
        forall|k: int| 0 <= k < r@.len() ==> #[trigger] r@[k] == photo_nibble_of(indices@[k]),
{
    let n = indices.len();
    let mut out: Vec<u8> = Vec::new();
    let mut i: usize = 0;
    while i < n
        invariant
            n == indices@.len(),
            i <= n,
            out@.len() == i,
            forall|k: int| 0 <= k < i ==> #[trigger] out@[k] == photo_nibble_of(indices@[k]),
        decreases n - i,
    {
        out.push(photo_nibble(indices[i]));
        i = i + 1;
    }
    out
}

/// Two pixels in one byte: the first in the high nibble, the second's low
/// nibble in the low one (`(a << 4) | (b & 0x0f)` on bytes).
pub open spec fn pair_byte(a: u8, b: u8) -> u8 {
    ((a << 4u8) | (b & 0x0fu8)) as u8
}

/// Pack pixel nibbles two per byte; a trailing odd pixel is dropped.
pub fn pack_nibbles(indexed: &[u8]) -> (r: Vec<u8>)
    ensures
        r@.len() == indexed@.len() / 2,
        forall|k: int| 0 <= k < r@.len() ==> #[trigger] r@[k] == pair_byte(indexed@[2 * k], indexed@[2 * k + 1]),
{
    let n = indexed.len();
    let half = n / 2;
    let mut out: Vec<u8> = Vec::new();
    let mut k: usize = 0;
    while k < half
        invariant
            n == indexed@.len(),
            half == n / 2,
            k <= half,
            out@.len() == k,
            forall|j: int| 0 <= j < k ==> #[trigger] out@[j] == pair_byte(indexed@[2 * j], indexed@[2 * j + 1]),
        decreases half - k,
    {
        let a = indexed[2 * k];
        let b = indexed[2 * k + 1];
        out.push((a << 4) | (b & 0x0f));
        k = k + 1;
    }
    out
}

/// RGB the ditherer reads for one RGBA pixel: mostly transparent pixels are white.
pub open spec fn rgb_of(r: u8, g: u8, b: u8, a: u8) -> Seq<u8> {
    if a < 128 {
        seq![255u8, 255u8, 255u8]
    } else {
        seq![r, g, b]
    }
}

/// The three bytes written for pixel `p`.
pub open spec fn rgb_at(out: Seq<u8>, p: int) -> Seq<u8> {
    out.subrange(3 * p, 3 * p + 3)
}

/// The RGB bytes pixel `p` of `rgba` flattens to.
pub open spec fn pixel_rgb(rgba: Seq<u8>, p: int) -> Seq<u8> {
    rgb_of(rgba[4 * p], rgba[4 * p + 1], rgba[4 * p + 2], rgba[4 * p + 3])
}

/// Flatten RGBA bytes (four per pixel, row-major) to RGB, three per pixel.
pub fn rgba_to_rgb_flat(rgba: &[u8]) -> (out: Vec<u8>)
    ensures
        out@.len() == 3 * (rgba@.len() / 4),
        forall|p: int| 0 <= p < rgba@.len() / 4 ==> #[trigger] rgb_at(out@, p) == pixel_rgb(rgba@, p),
{
    let len = rgba.len();
    let n = len / 4;
    let mut out: Vec<u8> = Vec::new();
    let mut p: usize = 0;
    while p < n
        invariant
            len == rgba@.len(),
            n == len / 4,
            p <= n,
            out@.len() == 3 * p,
            forall|q: int| 0 <= q < p ==> #[trigger] rgb_at(out@, q) == pixel_rgb(rgba@, q),
        decreases n - p,
    {
        let ghost before = out@;
        assert(4 * p + 3 < len) by (nonlinear_arith)
            requires
                p < n,
                n == len / 4,
        ;
        let r = rgba[4 * p];
        let g = rgba[4 * p + 1];
        let b = rgba[4 * p + 2];
        let a = rgba[4 * p + 3];
        if a < 128 {
            out.push(255);
            out.push(255);
            out.push(255);
        } else {
            out.push(r);
            out.push(g);
            out.push(b);
        }
        assert(rgb_at(out@, p as int) =~= pixel_rgb(rgba@, p as int));
        assert forall|q: int| 0 <= q < p + 1 implies #[trigger] rgb_at(out@, q) == pixel_rgb(rgba@, q) by {
            if q < p {
                assert(rgb_at(out@, q) =~= rgb_at(before, q));
            }
        }
        p = p + 1;
    }
    out
}

} // verus!
