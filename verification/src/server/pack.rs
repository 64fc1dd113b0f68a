//! Packing a 1600×1200 image into the Spectra 6 panel format: serpentine
//! Floyd–Steinberg dithering to the six inks (anti-aliased edges snap to the
//! nearest ink without spreading error), then two pixels per byte, high
//! nibble the even column, in scanline order. Ink indices: `0` black,
//! `1` white, `2` yellow, `3` red, `5` blue, `6` green.

use vstd::prelude::*;
use crate::server::ics::literal;
use crate::sim::{encode_png, lemma_pixels_at, pixels_of, png_of, rgba_of, PANEL_BYTES, PANEL_HEIGHT, PANEL_WIDTH};
pub use crate::sim::unpack_preview_png;
use crate::text::{decimal, push_decimal, push_str};

verus! {

/// Ink `k` of the six, in palette order, as its index on the wire.
pub open spec fn ink_index(k: int) -> u8 {
    if k == 0 {
        0
    } else if k == 1 {
        1
    } else if k == 2 {
        2
    } else if k == 3 {
        3
    } else if k == 4 {
        5
    } else {
        6
    }
}

/// Red, green and blue of ink `k`: black, white, yellow, red, blue, green.
pub open spec fn ink_r(k: int) -> int {
    if k == 1 || k == 2 || k == 3 { 255 } else { 0 }
}

pub open spec fn ink_g(k: int) -> int {
    if k == 1 || k == 2 || k == 5 { 255 } else { 0 }
}

pub open spec fn ink_b(k: int) -> int {
    if k == 1 || k == 4 { 255 } else { 0 }
}

/// A wire index of one of the six inks.
pub open spec fn is_ink(v: u8) -> bool {
    v == 0 || v == 1 || v == 2 || v == 3 || v == 5 || v == 6
}

pub open spec fn sq(x: int) -> int {
    x * x
}

/// Squared RGB distance to ink `k`.
pub open spec fn ink_dist(r: int, g: int, b: int, k: int) -> int {
    sq(r - ink_r(k)) + sq(g - ink_g(k)) + sq(b - ink_b(k))
}

/// The nearest ink from `k` on, given the best so far: only a strictly
/// closer ink replaces it.
pub open spec fn nearest_from(r: int, g: int, b: int, k: int, best: int, best_d: int) -> int
    decreases 6 - k,
{
    if k >= 6 {
        best
    } else {
        let d = ink_dist(r, g, b, k);
        if d < best_d {
            nearest_from(r, g, b, k + 1, k, d)
        } else {
            nearest_from(r, g, b, k + 1, best, best_d)
        }
    }
}

/// The nearest ink, the first of equals, starting from black at the
/// largest 32-bit distance.
pub open spec fn nearest_ink(r: int, g: int, b: int) -> int {
    nearest_from(r, g, b, 0, 0, 0x7fff_ffff)
}

/// Every ink distance fits in 32 bits (the arithmetic of the distances).
pub open spec fn dist_fits(r: int, g: int, b: int) -> bool {
    forall|k: int| 0 <= k < 6 ==> #[trigger] ink_dist(r, g, b, k) <= 0x7fff_ffff
}

/// Integer division rounding toward zero, for `d > 0`.
pub open spec fn tdiv(a: int, d: int) -> int {
    if a >= 0 {
        a / d
    } else {
        -((-a) / d)
    }
}

/// Squared distance from `(r, g, b)` to the RGB segment from ink `ka` to
/// ink `kc`, in integer steps.
pub open spec fn seg_dist(r: int, g: int, b: int, ka: int, kc: int) -> int {
    let dr = ink_r(kc) - ink_r(ka);
    let dg = ink_g(kc) - ink_g(ka);
    let db = ink_b(kc) - ink_b(ka);
    let pr = r - ink_r(ka);
    let pg = g - ink_g(ka);
    let pb = b - ink_b(ka);
    let len2 = dr * dr + dg * dg + db * db;
    if len2 == 0 {
        pr * pr + pg * pg + pb * pb
    } else {
        let dot = pr * dr + pg * dg + pb * db;
        let t = if dot < 0 {
            0
        } else if dot > len2 {
            len2
        } else {
            dot
        };
        sq(r - (ink_r(ka) + tdiv(dr * t, len2))) + sq(g - (ink_g(ka) + tdiv(dg * t, len2))) + sq(
            b - (ink_b(ka) + tdiv(db * t, len2)),
        )
    }
}

/// An anti-aliased edge: within 48 of an ink, or of a blend of black or
/// white with another ink (blends of two colour inks are real colours
/// and are dithered).
pub open spec fn is_edge(r: int, g: int, b: int) -> bool {
    let e: int = 2304;
    ||| ink_dist(r, g, b, 0) <= e
    ||| ink_dist(r, g, b, 1) <= e
    ||| ink_dist(r, g, b, 2) <= e
    ||| ink_dist(r, g, b, 3) <= e
    ||| ink_dist(r, g, b, 4) <= e
    ||| ink_dist(r, g, b, 5) <= e
    ||| seg_dist(r, g, b, 0, 1) <= e
    ||| seg_dist(r, g, b, 0, 2) <= e
    ||| seg_dist(r, g, b, 0, 3) <= e
    ||| seg_dist(r, g, b, 0, 4) <= e
    ||| seg_dist(r, g, b, 0, 5) <= e
    ||| seg_dist(r, g, b, 1, 2) <= e
    ||| seg_dist(r, g, b, 1, 3) <= e
    ||| seg_dist(r, g, b, 1, 4) <= e
    ||| seg_dist(r, g, b, 1, 5) <= e
}

pub open spec fn fits32(v: int) -> bool {
    i32::MIN <= v <= i32::MAX
}

/// `num`/16 of the error `e` added to pixel `(nx, ny)` when it is on the
/// panel; whether every sum fits in 32 bits.
pub open spec fn spread(work: Seq<i32>, nx: int, ny: int, e: (int, int, int), num: int) -> (Seq<i32>, bool) {
    if nx < 0 || ny < 0 || nx >= 1600 || ny >= 1200 {
        (work, true)
    } else {
        let j = ny * 1600 + nx;
        let v0 = work[3 * j] as int + tdiv(e.0 * num, 16);
        let v1 = work[3 * j + 1] as int + tdiv(e.1 * num, 16);
        let v2 = work[3 * j + 2] as int + tdiv(e.2 * num, 16);
        (
            work.update(3 * j, v0 as i32).update(3 * j + 1, v1 as i32).update(3 * j + 2, v2 as i32),
            fits32(v0) && fits32(v1) && fits32(v2),
        )
    }
}

/// Column of the `xi`-th pixel of row `y`: even rows left to right, odd
/// rows right to left.
pub open spec fn pixel_x(y: int, xi: int) -> int {
    if y % 2 == 0 {
        xi
    } else {
        1599 - xi
    }
}

/// Dithering the `xi`-th pixel of row `y`: an edge pixel takes the ink
/// nearest its own colour and spreads nothing; any other takes the ink
/// nearest its colour plus the error so far, and spreads the new error
/// 7/16 ahead, 3/16 behind below, 5/16 below and 1/16 ahead below.
/// The flag says all the 32-bit arithmetic so far fits.
pub open spec fn dither_step(src: Seq<u8>, y: int, xi: int, st: (Seq<i32>, Seq<u8>, bool)) -> (Seq<i32>, Seq<u8>, bool) {
    let x = pixel_x(y, xi);
    let i = y * 1600 + x;
    let sr = src[4 * i] as int;
    let sg = src[4 * i + 1] as int;
    let sb = src[4 * i + 2] as int;
    if is_edge(sr, sg, sb) {
        (st.0, st.1.update(i, ink_index(nearest_ink(sr, sg, sb))), st.2)
    } else {
        let r = st.0[3 * i] as int;
        let g = st.0[3 * i + 1] as int;
        let b = st.0[3 * i + 2] as int;
        let k = nearest_ink(r, g, b);
        let e = (r - ink_r(k), g - ink_g(k), b - ink_b(k));
        let d = if y % 2 == 0 { 1int } else { -1int };
        let s1 = spread(st.0, x + d, y, e, 7);
        let s2 = spread(s1.0, x - d, y + 1, e, 3);
        let s3 = spread(s2.0, x, y + 1, e, 5);
        let s4 = spread(s3.0, x + d, y + 1, e, 1);
        (s4.0, st.1.update(i, ink_index(k)), st.2 && dist_fits(r, g, b) && s1.1 && s2.1 && s3.1 && s4.1)
    }
}

/// The colours to dither: red, green and blue of every pixel.
pub open spec fn init_work(src: Seq<u8>) -> Seq<i32> {
    Seq::new(5760000, |t: int| src[4 * (t / 3) + t % 3] as i32)
}

/// The colours, the inks and the fit flag after the rows before `y` and
/// the first `xi` pixels of row `y`.
pub open spec fn dither_state(src: Seq<u8>, y: nat, xi: nat) -> (Seq<i32>, Seq<u8>, bool)
    decreases y, xi,
{
    if xi == 0 {
        if y == 0 {
            (init_work(src), Seq::new(1920000, |i: int| 0u8), true)
        } else {
            dither_state(src, (y - 1) as nat, 1600)
        }
    } else {
        dither_step(src, y as int, xi - 1, dither_state(src, y, (xi - 1) as nat))
    }
}

/// The ink of every pixel of a 1600×1200 RGBA image (alpha ignored), or
/// `None` when the 32-bit error arithmetic overflows.
pub open spec fn dithered(src: Seq<u8>) -> Option<Seq<u8>> {
    let st = dither_state(src, 1200, 0);
    if st.2 {
        Some(st.1)
    } else {
        None
    }
}

/// Two inks per byte: the even pixel in the high nibble.
pub open spec fn packed(d: Seq<u8>) -> Seq<u8> {
    Seq::new(960000, |p: int| (d[2 * p] * 16 + d[2 * p + 1]) as u8)
}

fn times(x: i64, y: i64) -> (r: i64)
    requires
        -0x100_0000 <= x <= 0x100_0000,
        -0x100_0000 <= y <= 0x100_0000,
    ensures
        r == x * y,
        -0x1_0000_0000_0000 <= r <= 0x1_0000_0000_0000,
{
    assert(-0x1_0000_0000_0000 <= x * y <= 0x1_0000_0000_0000) by (nonlinear_arith)
        requires
            -0x100_0000 <= x <= 0x100_0000,
            -0x100_0000 <= y <= 0x100_0000,
    ;
    x * y
}

fn scale(e: i64, num: i64) -> (r: i64)
    requires
        -0x2_0000_0000 <= e <= 0x2_0000_0000,
        0 <= num <= 16,
    ensures
        r == e * num,
        -0x20_0000_0000 <= r <= 0x20_0000_0000,
{
    assert(-0x20_0000_0000 <= e * num <= 0x20_0000_0000) by (nonlinear_arith)
        requires
            -0x2_0000_0000 <= e <= 0x2_0000_0000,
            0 <= num <= 16,
    ;
    e * num
}

fn times_seg(x: i64, t: i64) -> (r: i64)
    requires
        -255 <= x <= 255,
        0 <= t <= 195075,
    ensures
        r == x * t,
        -49744125 <= r <= 49744125,
{
    assert(-49744125 <= x * t <= 49744125) by (nonlinear_arith)
        requires
            -255 <= x <= 255,
            0 <= t <= 195075,
    ;
    x * t
}

fn sq_small(x: i64) -> (r: i64)
    requires
        -255 <= x <= 255,
    ensures
        r == x * x,
        0 <= r <= 65025,
{
    assert(0 <= x * x <= 65025) by (nonlinear_arith)
        requires
            -255 <= x <= 255,
    ;
    x * x
}

fn sq64(x: i64) -> (r: i64)
    requires
        -0x4000_0000 <= x <= 0x4000_0000,
    ensures
        r == sq(x as int),
        0 <= r <= 0x1000_0000_0000_0000,
{
    assert(0 <= x * x <= 0x1000_0000_0000_0000) by (nonlinear_arith)
        requires
            -0x4000_0000 <= x <= 0x4000_0000,
    ;
    x * x
}

fn sq128(x: i128) -> (r: i128)
    requires
        -0x100_0000_0000 <= x <= 0x100_0000_0000,
    ensures
        r == sq(x as int),
        0 <= r <= 0x1_0000_0000_0000_0000_0000,
{
    assert(0 <= x * x <= 0x1_0000_0000_0000_0000_0000) by (nonlinear_arith)
        requires
            -0x100_0000_0000 <= x <= 0x100_0000_0000,
    ;
    x * x
}

fn tdiv_exec(a: i64, d: i64) -> (r: i64)
    requires
        0 < d,
        -0x4000_0000_0000_0000 <= a <= 0x4000_0000_0000_0000,
    ensures
        r == tdiv(a as int, d as int),
        -(if a >= 0 { a as int } else { -a }) <= r <= (if a >= 0 { a as int } else { -a }),
{
    if a >= 0 {
        let q = (a as u64) / (d as u64);
        proof {
            vstd::arithmetic::div_mod::lemma_div_is_ordered_by_denominator(a as int, 1, d as int);
        }
        q as i64
    } else {
        let q = ((-a) as u64) / (d as u64);
        proof {
            vstd::arithmetic::div_mod::lemma_div_is_ordered_by_denominator(-a, 1, d as int);
        }
        -(q as i64)
    }
}

fn ink_rgb(k: usize) -> (r: (i64, i64, i64))
    requires
        k < 6,
    ensures
        r.0 == ink_r(k as int),
        r.1 == ink_g(k as int),
        r.2 == ink_b(k as int),
{
    if k == 0 {
        (0, 0, 0)
    } else if k == 1 {
        (255, 255, 255)
    } else if k == 2 {
        (255, 255, 0)
    } else if k == 3 {
        (255, 0, 0)
    } else if k == 4 {
        (0, 0, 255)
    } else {
        (0, 255, 0)
    }
}

fn ink_wire(k: usize) -> (r: u8)
    requires
        k < 6,
    ensures
        r == ink_index(k as int),
        is_ink(r),
{
    if k == 4 {
        5
    } else if k == 5 {
        6
    } else {
        k as u8
    }
}

fn ink_dist_exec(r: i64, g: i64, b: i64, k: usize) -> (d: i128)
    requires
        k < 6,
        -0x1_0000_0000 <= r <= 0x1_0000_0000,
        -0x1_0000_0000 <= g <= 0x1_0000_0000,
        -0x1_0000_0000 <= b <= 0x1_0000_0000,
    ensures
        d == ink_dist(r as int, g as int, b as int, k as int),
{
    let (kr, kg, kb) = ink_rgb(k);
    sq128((r - kr) as i128) + sq128((g - kg) as i128) + sq128((b - kb) as i128)
}

proof fn lemma_nearest_range(r: int, g: int, b: int, k: int, best: int, best_d: int)
    requires
        0 <= best < 6,
        0 <= k,
    ensures
        0 <= nearest_from(r, g, b, k, best, best_d) < 6,
    decreases 6 - k,
{
    if k < 6 {
        let d = ink_dist(r, g, b, k);
        if d < best_d {
            lemma_nearest_range(r, g, b, k + 1, k, d);
        } else {
            lemma_nearest_range(r, g, b, k + 1, best, best_d);
        }
    }
}

/// The nearest ink and whether every ink distance fits in 32 bits.
fn nearest_exec(r: i64, g: i64, b: i64) -> (res: (usize, bool))
    requires
        -0x1_0000_0000 <= r <= 0x1_0000_0000,
        -0x1_0000_0000 <= g <= 0x1_0000_0000,
        -0x1_0000_0000 <= b <= 0x1_0000_0000,
    ensures
        res.0 < 6,
        res.0 == nearest_ink(r as int, g as int, b as int),
        res.1 == dist_fits(r as int, g as int, b as int),
{
    let mut best: usize = 0;
    let mut best_d: i128 = 0x7fff_ffff;
    let mut fit = true;
    let mut k: usize = 0;
    while k < 6
        invariant
            k <= 6,
            best < 6,
            -0x1_0000_0000 <= r <= 0x1_0000_0000,
            -0x1_0000_0000 <= g <= 0x1_0000_0000,
            -0x1_0000_0000 <= b <= 0x1_0000_0000,
            nearest_ink(r as int, g as int, b as int) == nearest_from(r as int, g as int, b as int, k as int, best as int, best_d as int),
            fit == forall|j: int| 0 <= j < k ==> #[trigger] ink_dist(r as int, g as int, b as int, j) <= 0x7fff_ffff,
        decreases 6 - k,
    {
        let d = ink_dist_exec(r, g, b, k);
        if d > 0x7fff_ffff {
            fit = false;
        }
        if d < best_d {
            best = k;
            best_d = d;
        }
        k = k + 1;
    }
    proof {
        lemma_nearest_range(r as int, g as int, b as int, 0, 0, 0x7fff_ffff);
    }
    (best, fit)
}

fn seg_dist_exec(r: i64, g: i64, b: i64, ka: usize, kc: usize) -> (d: i64)
    requires
        ka < 6,
        kc < 6,
        0 <= r <= 255,
        0 <= g <= 255,
        0 <= b <= 255,
    ensures
        d == seg_dist(r as int, g as int, b as int, ka as int, kc as int),
{
    let (ar, ag, ab) = ink_rgb(ka);
    let (cr, cg, cb) = ink_rgb(kc);
    let dr = cr - ar;
    let dg = cg - ag;
    let db = cb - ab;
    let pr = r - ar;
    let pg = g - ag;
    let pb = b - ab;
    let len2 = sq_small(dr) + sq_small(dg) + sq_small(db);
    if len2 == 0 {
        return sq64(pr) + sq64(pg) + sq64(pb);
    }
    assert(len2 > 0);
    let dot = times(pr, dr) + times(pg, dg) + times(pb, db);
    let t = if dot < 0 {
        0
    } else if dot > len2 {
        len2
    } else {
        dot
    };
    let qr = tdiv_exec(times_seg(dr, t), len2);
    let qg = tdiv_exec(times_seg(dg, t), len2);
    let qb = tdiv_exec(times_seg(db, t), len2);
    sq64(r - (ar + qr)) + sq64(g - (ag + qg)) + sq64(b - (ab + qb))
}

fn near(r: i64, g: i64, b: i64, k: usize) -> (res: bool)
    requires
        k < 6,
        0 <= r <= 255,
        0 <= g <= 255,
        0 <= b <= 255,
    ensures
        res == (ink_dist(r as int, g as int, b as int, k as int) <= 2304),
{
    ink_dist_exec(r, g, b, k) <= 2304
}

fn near_seg(r: i64, g: i64, b: i64, ka: usize, kc: usize) -> (res: bool)
    requires
        ka < 6,
        kc < 6,
        0 <= r <= 255,
        0 <= g <= 255,
        0 <= b <= 255,
    ensures
        res == (seg_dist(r as int, g as int, b as int, ka as int, kc as int) <= 2304),
{
    seg_dist_exec(r, g, b, ka, kc) <= 2304
}

/// Whether a source colour is an anti-aliased edge, tested in the order
/// black, its blends, white, its blends, then the colour inks.
fn is_edge_exec(r: i64, g: i64, b: i64) -> (res: bool)
    requires
        0 <= r <= 255,
        0 <= g <= 255,
        0 <= b <= 255,
    ensures
        res == is_edge(r as int, g as int, b as int),
{
    near(r, g, b, 0) || near_seg(r, g, b, 0, 1) || near_seg(r, g, b, 0, 2) || near_seg(r, g, b, 0, 3)
        || near_seg(r, g, b, 0, 4) || near_seg(r, g, b, 0, 5) || near(r, g, b, 1) || near_seg(r, g, b, 1, 2)
        || near_seg(r, g, b, 1, 3) || near_seg(r, g, b, 1, 4) || near_seg(r, g, b, 1, 5) || near(r, g, b, 2)
        || near(r, g, b, 3) || near(r, g, b, 4) || near(r, g, b, 5)
}

fn spread_exec(work: &mut Vec<i32>, nx: i64, ny: i64, e: (i64, i64, i64), num: i64) -> (ok: bool)
    requires
        old(work)@.len() == 5760000,
        -0x2_0000_0000 <= e.0 <= 0x2_0000_0000,
        -0x2_0000_0000 <= e.1 <= 0x2_0000_0000,
        -0x2_0000_0000 <= e.2 <= 0x2_0000_0000,
        0 <= num <= 16,
    ensures
        final(work)@.len() == 5760000,
        ok == spread(old(work)@, nx as int, ny as int, (e.0 as int, e.1 as int, e.2 as int), num as int).1,
        ok ==> final(work)@ == spread(old(work)@, nx as int, ny as int, (e.0 as int, e.1 as int, e.2 as int), num as int).0,
{
    if nx < 0 || ny < 0 || nx >= 1600 || ny >= 1200 {
        return true;
    }
    let j = (ny as usize) * 1600 + (nx as usize);
    let v0 = work[3 * j] as i64 + tdiv_exec(scale(e.0, num), 16);
    let v1 = work[3 * j + 1] as i64 + tdiv_exec(scale(e.1, num), 16);
    let v2 = work[3 * j + 2] as i64 + tdiv_exec(scale(e.2, num), 16);
    if v0 < -0x8000_0000 || v0 > 0x7fff_ffff || v1 < -0x8000_0000 || v1 > 0x7fff_ffff || v2 < -0x8000_0000
        || v2 > 0x7fff_ffff {
        return false;
    }
    work.set(3 * j, v0 as i32);
    work.set(3 * j + 1, v1 as i32);
    work.set(3 * j + 2, v2 as i32);
    true
}

fn step_exec(src: &[u8], work: &mut Vec<i32>, out: &mut Vec<u8>, y: usize, xi: usize) -> (ok: bool)
    requires
        src@.len() == 7680000,
        old(work)@.len() == 5760000,
        old(out)@.len() == 1920000,
        y < 1200,
        xi < 1600,
        forall|i: int| 0 <= i < old(out)@.len() ==> is_ink(#[trigger] old(out)@[i]),
    ensures
        final(work)@.len() == 5760000,
        final(out)@.len() == 1920000,
        forall|i: int| 0 <= i < final(out)@.len() ==> is_ink(#[trigger] final(out)@[i]),
        ({
            let st = dither_step(src@, y as int, xi as int, (old(work)@, old(out)@, true));
            &&& st.2 == ok
            &&& ok ==> st.0 == final(work)@ && st.1 == final(out)@
        }),
{
    let x = if y % 2 == 0 { xi } else { 1599 - xi };
    let i = y * 1600 + x;
    let sr = src[4 * i] as i64;
    let sg = src[4 * i + 1] as i64;
    let sb = src[4 * i + 2] as i64;
    if is_edge_exec(sr, sg, sb) {
        let (k, _) = nearest_exec(sr, sg, sb);
        out.set(i, ink_wire(k));
        return true;
    }
    let r = work[3 * i] as i64;
    let g = work[3 * i + 1] as i64;
    let b = work[3 * i + 2] as i64;
    let (k, fits) = nearest_exec(r, g, b);
    out.set(i, ink_wire(k));
    if !fits {
        return false;
    }
    let (kr, kg, kb) = ink_rgb(k);
    let e = (r - kr, g - kg, b - kb);
    let xs = x as i64;
    let ys = y as i64;
    let d: i64 = if y % 2 == 0 { 1 } else { -1 };
    if !spread_exec(work, xs + d, ys, e, 7) {
        return false;
    }
    if !spread_exec(work, xs - d, ys + 1, e, 3) {
        return false;
    }
    if !spread_exec(work, xs, ys + 1, e, 5) {
        return false;
    }
    if !spread_exec(work, xs + d, ys + 1, e, 1) {
        return false;
    }
    true
}

proof fn lemma_ok_back(src: Seq<u8>, y: nat, xi: nat, y2: nat, xi2: nat)
    requires
        xi <= 1600,
        xi2 <= 1600,
        y < y2 || (y == y2 && xi <= xi2),
        dither_state(src, y2, xi2).2,
    ensures
        dither_state(src, y, xi).2,
    decreases y2, xi2,
{
    if y2 == y && xi2 == xi {
    } else if xi2 == 0 {
        lemma_ok_back(src, y, xi, (y2 - 1) as nat, 1600);
    } else {
        assert(dither_state(src, y2, (xi2 - 1) as nat).2);
        lemma_ok_back(src, y, xi, y2, (xi2 - 1) as nat);
    }
}

fn initial_work(src: &[u8]) -> (work: Vec<i32>)
    requires
        src@.len() == 7680000,
    ensures
        work@ == init_work(src@),
{
    let mut work: Vec<i32> = Vec::new();
    let mut i: usize = 0;
    while i < 1920000
        invariant
            i <= 1920000,
            src@.len() == 7680000,
            work@.len() == 3 * i,
            forall|t: int| 0 <= t < 3 * i ==> #[trigger] work@[t] == src@[4 * (t / 3) + t % 3] as i32,
        decreases 1920000 - i,
    {
        let ghost before = work@;
        work.push(src[4 * i] as i32);
        work.push(src[4 * i + 1] as i32);
        work.push(src[4 * i + 2] as i32);
        assert forall|t: int| 0 <= t < 3 * (i + 1) implies #[trigger] work@[t] == src@[4 * (t / 3) + t % 3] as i32 by {
            if t >= 3 * i {
                vstd::arithmetic::div_mod::lemma_fundamental_div_mod_converse(t, 3, i as int, t - 3 * i);
            } else {
                assert(work@[t] == before[t]);
            }
        }
        i = i + 1;
    }
    assert(work@ =~= init_work(src@));
    work
}

/// Dithers a 1600×1200 RGBA image to the six inks, or `None` when the
/// 32-bit error arithmetic overflows.
fn dither_exec(src: &[u8]) -> (r: Option<Vec<u8>>)
    requires
        src@.len() == 7680000,
    ensures
        match dithered(src@) {
            Some(d) => r matches Some(v) && v@ == d,
            None => r is None,
        },
        r matches Some(v) ==> v@.len() == 1920000 && forall|i: int| 0 <= i < v@.len() ==> is_ink(#[trigger] v@[i]),
{
    let mut work = initial_work(src);
    let mut out: Vec<u8> = vec![0u8; 1920000];
    assert(out@ =~= Seq::new(1920000, |i: int| 0u8));
    let mut y: usize = 0;
    while y < 1200
        invariant
            y <= 1200,
            src@.len() == 7680000,
            work@.len() == 5760000,
            out@.len() == 1920000,
            forall|i: int| 0 <= i < out@.len() ==> is_ink(#[trigger] out@[i]),
            dither_state(src@, y as nat, 0) == (work@, out@, true),
        decreases 1200 - y,
    {
        let mut xi: usize = 0;
        while xi < 1600
            invariant
                y < 1200,
                xi <= 1600,
                src@.len() == 7680000,
                work@.len() == 5760000,
                out@.len() == 1920000,
                forall|i: int| 0 <= i < out@.len() ==> is_ink(#[trigger] out@[i]),
                dither_state(src@, y as nat, xi as nat) == (work@, out@, true),
            decreases 1600 - xi,
        {
            let ok = step_exec(src, &mut work, &mut out, y, xi);
            if !ok {
                proof {
                    assert(!dither_state(src@, y as nat, (xi + 1) as nat).2);
                    if dither_state(src@, 1200, 0).2 {
                        lemma_ok_back(src@, y as nat, (xi + 1) as nat, 1200, 0);
                    }
                }
                return None;
            }
            xi = xi + 1;
        }
        assert(dither_state(src@, (y + 1) as nat, 0) == dither_state(src@, y as nat, 1600));
        y = y + 1;
    }
    Some(out)
}

/// Packs inks two to a byte.
fn pack_nibbles(d: &Vec<u8>) -> (r: Vec<u8>)
    requires
        d@.len() == 1920000,
        forall|i: int| 0 <= i < d@.len() ==> is_ink(#[trigger] d@[i]),
    ensures
        r@ == packed(d@),
{
    let mut out: Vec<u8> = Vec::new();
    let mut p: usize = 0;
    while p < 960000
        invariant
            p <= 960000,
            d@.len() == 1920000,
            forall|i: int| 0 <= i < d@.len() ==> is_ink(#[trigger] d@[i]),
            out@.len() == p,
            forall|q: int| 0 <= q < p ==> #[trigger] out@[q] == (d@[2 * q] * 16 + d@[2 * q + 1]) as u8,
        decreases 960000 - p,
    {
        let hi = d[2 * p];
        let lo = d[2 * p + 1];
        assert(is_ink(d@[2 * p as int]) && is_ink(d@[2 * p + 1]));
        out.push(hi * 16 + lo);
        p = p + 1;
    }
    assert(out@ =~= packed(d@));
    out
}

/// Two inks `a`, `b` below 16 make the byte `(a << 4) | b`.
pub proof fn lemma_nibble_byte(a: u8, b: u8)
    requires
        a < 16,
        b < 16,
    ensures
        ((a << 4u8) | b) as int == a * 16 + b,
{
    assert(((a << 4u8) | b) as int == a * 16 + b) by (bit_vector)
        requires
            a < 16,
            b < 16,
    ;
}

/// Every pixel of a dithered frame takes one of the six inks.
pub proof fn lemma_dithered_inks(src: Seq<u8>, y: nat, xi: nat)
    requires
        src.len() == 7680000,
        y < 1200 || (y == 1200 && xi == 0),
        xi <= 1600,
    ensures
        dither_state(src, y, xi).0.len() == 5760000,
        dither_state(src, y, xi).1.len() == 1920000,
        forall|i: int| 0 <= i < 1920000 ==> is_ink(#[trigger] dither_state(src, y, xi).1[i]),
    decreases y, xi,
{
    if xi == 0 {
        if y > 0 {
            lemma_dithered_inks(src, (y - 1) as nat, 1600);
        }
    } else {
        lemma_dithered_inks(src, y, (xi - 1) as nat);
        let st = dither_state(src, y, (xi - 1) as nat);
        let x = pixel_x(y as int, xi - 1);
        let i = y * 1600 + x;
        let sr = src[4 * i] as int;
        let sg = src[4 * i + 1] as int;
        let sb = src[4 * i + 2] as int;
        if is_edge(sr, sg, sb) {
            lemma_nearest_range(sr, sg, sb, 0, 0, 0x7fff_ffff);
        } else {
            lemma_nearest_range(st.0[3 * i] as int, st.0[3 * i + 1] as int, st.0[3 * i + 2] as int, 0, 0, 0x7fff_ffff);
        }
    }
}

/// Packs a 1600×1200 RGBA image (`width × height` pixels, four bytes each)
/// for the panel: dithered to the six inks, two pixels per byte. Refused
/// when the image has another size, and when the error diffusion outgrows
/// 32-bit arithmetic.
pub fn pack_rgba(width: u32, height: u32, rgba: &[u8]) -> (r: Result<Vec<u8>, String>)
    requires
        rgba@.len() == 4 * width * height,
    ensures
        (width != PANEL_WIDTH || height != PANEL_HEIGHT) ==> (r matches Err(m) && m@ == "frame must be 1600x1200, got "@
            + decimal(width as nat) + "x"@ + decimal(height as nat)),
        (width == PANEL_WIDTH && height == PANEL_HEIGHT) ==> match dithered(rgba@) {
            Some(d) => r matches Ok(bin) && bin@ == packed(d) && bin@.len() == PANEL_BYTES,
            None => r matches Err(m) && m@ == "dithering outgrew 32-bit arithmetic"@,
        },
{
    if width != PANEL_WIDTH || height != PANEL_HEIGHT {
        let mut m = literal("frame must be 1600x1200, got ");
        push_decimal(&mut m, width as u64);
        push_str(&mut m, "x");
        push_decimal(&mut m, height as u64);
        return Err(m);
    }
    assert(rgba@.len() == 7680000) by (nonlinear_arith)
        requires
            width == 1600,
            height == 1200,
            rgba@.len() == 4 * width * height,
    ;
    match dither_exec(rgba) {
        Some(d) => Ok(pack_nibbles(&d)),
        None => Err(literal("dithering outgrew 32-bit arithmetic")),
    }
}

/// The size and RGBA bytes of the image `image::load_from_memory` decodes
/// from `png`, converted to 8-bit RGBA; `None` when it does not decode.
pub uninterp spec fn png_rgba_of(png: Seq<u8>) -> Option<(u32, u32, Seq<u8>)>;

/// `image::load_from_memory(png)` then `to_rgba8`: the width, height and
/// RGBA bytes (four per pixel), or `None` when the bytes are no image.
#[verifier::external_body]
fn decode_png_rgba(png: &[u8]) -> (r: Option<(u32, u32, Vec<u8>)>)
    ensures
        match r {
            Some((w, h, px)) => png_rgba_of(png@) == Some((w, h, px@)) && px@.len() == 4 * w * h,
            None => png_rgba_of(png@) is None,
        },
{
    let img = image::load_from_memory(png).ok()?.to_rgba8();
    let (w, h) = img.dimensions();
    Some((w, h, img.into_raw()))
}

/// Packs a PNG (or other image `image` reads) for the panel.
pub fn pack_png_to_spectra6(png: &[u8]) -> (r: Result<Vec<u8>, String>)
    ensures
        match png_rgba_of(png@) {
            None => r matches Err(m) && m@ == "could not decode the frame image"@,
            Some((w, h, px)) => {
                &&& (w != PANEL_WIDTH || h != PANEL_HEIGHT) ==> (r matches Err(m) && m@
                    == "frame must be 1600x1200, got "@ + decimal(w as nat) + "x"@ + decimal(h as nat))
                &&& (w == PANEL_WIDTH && h == PANEL_HEIGHT) ==> match dithered(px) {
                    Some(d) => r matches Ok(bin) && bin@ == packed(d),
                    None => r matches Err(m) && m@ == "dithering outgrew 32-bit arithmetic"@,
                }
            },
        },
{
    match decode_png_rgba(png) {
        Some((w, h, px)) => pack_rgba(w, h, px.as_slice()),
        None => Err(literal("could not decode the frame image")),
    }
}

/// A 1600×1200 opaque image of one colour, as RGBA bytes.
pub open spec fn solid_rgba(r: u8, g: u8, b: u8) -> Seq<u8> {
    Seq::new(7680000, |t: int| if t % 4 == 0 { r } else if t % 4 == 1 { g } else if t % 4 == 2 { b } else { 255u8 })
}

/// A PNG of the whole panel in one colour.
pub fn solid_png(r: u8, g: u8, b: u8) -> (res: Result<Vec<u8>, String>)
    ensures
        res matches Ok(png) && png@ == png_of(PANEL_WIDTH, PANEL_HEIGHT, solid_rgba(r, g, b)),
{
    let mut px: Vec<u8> = Vec::new();
    let mut i: usize = 0;
    while i < 1920000
        invariant
            i <= 1920000,
            px@.len() == 4 * i,
            forall|t: int| 0 <= t < 4 * i ==> #[trigger] px@[t] == solid_rgba(r, g, b)[t],
        decreases 1920000 - i,
    {
        let ghost before = px@;
        px.push(r);
        px.push(g);
        px.push(b);
        px.push(255u8);
        assert forall|t: int| 0 <= t < 4 * (i + 1) implies #[trigger] px@[t] == solid_rgba(r, g, b)[t] by {
            if t >= 4 * i {
                vstd::arithmetic::div_mod::lemma_fundamental_div_mod_converse(t, 4, i as int, t - 4 * i);
            } else {
                assert(px@[t] == before[t]);
            }
        }
        i = i + 1;
    }
    assert(px@ =~= solid_rgba(r, g, b));
    match encode_png(PANEL_WIDTH, PANEL_HEIGHT, px) {
        Some(png) => Ok(png),
        None => Err(literal("could not encode the PNG")),
    }
}

/// The preview shows the panel's palette: each ink index unpacks to that
/// ink's red, green and blue (the colours the packer dithers to), fully
/// opaque; an index that is no ink shows black.
pub proof fn lemma_preview_palette(k: int, idx: u8)
    requires
        0 <= k < 6,
    ensures
        rgba_of(ink_index(k)) == seq![ink_r(k) as u8, ink_g(k) as u8, ink_b(k) as u8, 255u8],
        !is_ink(idx) ==> rgba_of(idx) == seq![0u8, 0u8, 0u8, 255u8],
{
    assert(rgba_of(ink_index(k)) =~= seq![ink_r(k) as u8, ink_g(k) as u8, ink_b(k) as u8, 255u8]);
    if !is_ink(idx) {
        assert(rgba_of(idx) =~= seq![0u8, 0u8, 0u8, 255u8]);
    }
}

/// Unpacking what was packed shows every pixel in the ink it was dithered
/// to: pixel `i` of the preview of `packed(d)` has the colour of ink `d[i]`.
pub proof fn lemma_preview_shows_packed_inks(d: Seq<u8>, i: int, k: int)
    requires
        d.len() == 1920000,
        forall|j: int| 0 <= j < d.len() ==> is_ink(#[trigger] d[j]),
        0 <= i < 1920000,
        0 <= k < 6,
        d[i] == ink_index(k),
    ensures
        pixels_of(packed(d)).subrange(4 * i, 4 * i + 4) == seq![ink_r(k) as u8, ink_g(k) as u8, ink_b(k) as u8, 255u8],
{
    let p = i / 2;
    let a = d[2 * p];
    let b = d[2 * p + 1];
    assert(is_ink(a) && is_ink(b));
    let byte = packed(d)[p];
    assert(byte == (a * 16 + b) as u8);
    assert(byte >> 4u8 == a && byte & 0x0fu8 == b) by (bit_vector)
        requires
            a < 16,
            b < 16,
            byte == (a * 16 + b) as u8,
    ;
    lemma_pixels_at(packed(d), p);
    lemma_preview_palette(k, 0);
    if i % 2 == 0 {
        assert(2 * p == i);
    } else {
        assert(2 * p + 1 == i);
    }
}

} // verus!
