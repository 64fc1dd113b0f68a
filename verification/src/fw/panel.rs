//! Landscape packed-4bpp → EL133 portrait halves (90° CW, split at col 600).

use vstd::prelude::*;

verus! {

pub const WIDTH: usize = 1600;
pub const HEIGHT: usize = 1200;
pub const FRAME_BYTES: usize = 960000;
pub const ROW_BYTES: usize = 300;
pub const PROWS: usize = 1600;
pub const LANDSCAPE_ROW_BYTES: usize = 800;

pub const BLACK: u8 = 0x0;
pub const WHITE: u8 = 0x1;
pub const YELLOW: u8 = 0x2;
pub const RED: u8 = 0x3;
pub const BLUE: u8 = 0x5;
pub const GREEN: u8 = 0x6;

/// Colour nibble of landscape pixel `(x, y)` in a packed frame: high nibble
/// for even columns, low nibble for odd ones.
pub open spec fn landscape_nibble(frame: Seq<u8>, x: int, y: int) -> u8 {
    let b = frame[y * 800 + x / 2];
    if x % 2 == 0 {
        b >> 4u8
    } else {
        b & 0x0Fu8
    }
}

/// Landscape row `y` shown at portrait column `c` (0..1200) after the 90° CW turn.
pub open spec fn landscape_y_of_portrait_col(c: int) -> int {
    1199 - c
}

/// One controller scan line after the 90° CW rotate/split.
///
/// Landscape `(x, y)` → portrait `(1199 - y, x)`. Master (`half == 0`) is
/// portrait columns 0–599, slave is 600–1199. `prow` is the landscape `x`.
/// Each output byte holds two portrait columns: high nibble even, low odd.
pub fn pack_controller_row(frame: &[u8], prow: usize, half: usize, out: &mut [u8; ROW_BYTES])
    requires
        frame@.len() == FRAME_BYTES,
        prow < PROWS,
        half <= 1,
    ensures
        forall|k: int|
            #![trigger final(out)@[k]]
            0 <= k < ROW_BYTES ==> {
                let c = 600 * half + 2 * k;
                &&& final(out)@[k] >> 4u8 == landscape_nibble(
                    frame@,
                    prow as int,
                    landscape_y_of_portrait_col(c),
                )
                &&& final(out)@[k] & 0x0Fu8 == landscape_nibble(
                    frame@,
                    prow as int,
                    landscape_y_of_portrait_col(c + 1),
                )
            },
{
    let shift: u8 = if prow & 1 == 1 { 0 } else { 4 };
    assert(prow & 1 == 1 <==> prow % 2 == 1) by (bit_vector);
    let col = prow >> 1;
    assert(prow >> 1 == prow / 2) by (bit_vector);
    let base: usize = if half == 0 { 1199 } else { 599 };
    let mut k: usize = 0;
    while k < ROW_BYTES
        invariant
            frame@.len() == FRAME_BYTES,
            prow < PROWS,
            half <= 1,
            col == prow / 2,
            shift == (if prow % 2 == 1 { 0u8 } else { 4u8 }),
            base == 1199 - 600 * half,
            k <= ROW_BYTES,
            forall|j: int|
                #![trigger out@[j]]
                0 <= j < k ==> {
                    let c = 600 * half + 2 * j;
                    &&& out@[j] >> 4u8 == landscape_nibble(
                        frame@,
                        prow as int,
                        landscape_y_of_portrait_col(c),
                    )
                    &&& out@[j] & 0x0Fu8 == landscape_nibble(
                        frame@,
                        prow as int,
                        landscape_y_of_portrait_col(c + 1),
                    )
                },
        decreases ROW_BYTES - k,
    {
        let hb = frame[(base - 2 * k) * LANDSCAPE_ROW_BYTES + col];
        let lb = frame[(base - 1 - 2 * k) * LANDSCAPE_ROW_BYTES + col];
        let hn = (hb >> shift) & 0x0F;
        let ln = (lb >> shift) & 0x0F;
        let v = (hn << 4) | ln;
        assert(hn <= 15 && ln <= 15 ==> ((hn << 4u8) | ln) >> 4u8 == hn && ((hn << 4u8) | ln) & 0x0Fu8 == ln) by (bit_vector);
        assert(shift == 4u8 ==> (hb >> shift) & 0x0Fu8 == hb >> 4u8) by (bit_vector);
        assert(shift == 4u8 ==> (lb >> shift) & 0x0Fu8 == lb >> 4u8) by (bit_vector);
        assert(shift == 0u8 ==> (hb >> shift) & 0x0Fu8 == hb & 0x0Fu8) by (bit_vector);
        assert(shift == 0u8 ==> (lb >> shift) & 0x0Fu8 == lb & 0x0Fu8) by (bit_vector);
        assert((hb >> shift) & 0x0Fu8 <= 15 && (lb >> shift) & 0x0Fu8 <= 15) by (bit_vector);
        out[k] = v;
        k = k + 1;
    }
}

/// The controllers of the panel: the master scans portrait columns 0–599,
/// the slave 600–1199; a command may go to both.
#[derive(Debug, Clone, Copy, PartialEq, Eq, Structural)]
pub enum Chip {
    Master,
    Slave,
    Both,
}

/// Which chip-select lines a command to `chip` pulls: `(master, slave)`.
pub fn chip_selects(chip: Chip) -> (r: (bool, bool))
    ensures
        r.0 == (chip != Chip::Slave),
        r.1 == (chip != Chip::Master),
{
    match chip {
        Chip::Master => (true, false),
        Chip::Slave => (false, true),
        Chip::Both => (true, true),
    }
}

/// The byte that fills both pixels of a pair with one colour nibble.
pub fn solid_byte(colour: u8) -> (r: u8)
    ensures
        r >> 4u8 == colour & 0x0Fu8,
        r & 0x0Fu8 == colour & 0x0Fu8,
        r == (colour & 0x0Fu8) * 17,
{
    let n = colour & 0x0F;
    let r = (n << 4) | n;
    assert(n == colour & 0x0Fu8 ==> ((n << 4u8) | n) >> 4u8 == n && ((n << 4u8) | n) & 0x0Fu8 == n
        && (n << 4u8) | n == n * 17) by (bit_vector);
    r
}

} // verus!
