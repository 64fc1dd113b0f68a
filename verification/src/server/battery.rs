//! Battery cell settings and the Pico's linear charge estimate.

use vstd::prelude::*;
use crate::server::debug::Poll;
use crate::text::{decimal, decimal_string, push_str};

verus! {

/// Nameplate used when `battery_mah` is omitted from config.
pub const DEFAULT_CAPACITY_MAH: u32 = 10_000;
/// VSYS treated as 0% usable (same cutoff as the Pico’s linear map).
pub const DEFAULT_EMPTY_MV: u32 = 3300;
/// Fully charged 1S LiPo.
pub const FULL_MV: u32 = 4200;

/// Capacity and cutoff of the frame's cell.
#[derive(Debug, Clone, Copy, PartialEq)]
pub struct Cell {
    pub capacity_mah: u32,
    pub empty_mv: u32,
}

impl Cell {
    /// The cell assumed when the config names none.
    pub fn default_cell() -> (c: Cell)
        ensures
            c.capacity_mah == DEFAULT_CAPACITY_MAH,
            c.empty_mv == DEFAULT_EMPTY_MV,
    {
        Cell { capacity_mah: DEFAULT_CAPACITY_MAH, empty_mv: DEFAULT_EMPTY_MV }
    }

    /// At least 1 mAh, and a cutoff between 2.5 V and 4.0 V.
    pub fn clamp(self) -> (c: Cell)
        ensures
            c.capacity_mah == if self.capacity_mah < 1 {
                1
            } else {
                self.capacity_mah
            },
            c.empty_mv == if self.empty_mv < 2500 {
                2500
            } else if self.empty_mv > 4000 {
                4000
            } else {
                self.empty_mv
            },
    {
        Cell {
            capacity_mah: if self.capacity_mah < 1 {
                1
            } else {
                self.capacity_mah
            },
            empty_mv: if self.empty_mv < 2500 {
                2500
            } else if self.empty_mv > 4000 {
                4000
            } else {
                self.empty_mv
            },
        }
    }
}

/// The Pico's linear percent: 3.3 V is 0, 4.2 V is 100, rounded down between.
pub open spec fn linear_of(mv: u32) -> int {
    if mv >= FULL_MV {
        100
    } else if mv <= 3300 {
        0
    } else {
        (mv - 3300) * 100 / (FULL_MV - 3300) as int
    }
}

pub fn linear_pct(mv: u32) -> (r: u16)
    ensures
        r == linear_of(mv),
        r <= 100,
{
    if mv >= FULL_MV {
        100
    } else if mv <= 3300 {
        0
    } else {
        ((mv - 3300) * 100 / (FULL_MV - 3300)) as u16
    }
}

/// `"s"` unless there is exactly one.
pub open spec fn plural(n: int) -> Seq<char> {
    if n == 1 {
        ""@
    } else {
        "s"@
    }
}

/// A span as the battery estimate reads: days and hours, hours and
/// minutes, or minutes (negative spans read as none).
pub open spec fn duration_text(secs: int) -> Seq<char> {
    let s = if secs < 0 { 0 } else { secs };
    let days = s / 86_400;
    let hours = (s % 86_400) / 3_600;
    let mins = (s % 3_600) / 60;
    if days > 0 {
        decimal(days as nat) + " day"@ + plural(days) + " "@ + decimal(hours as nat) + " hour"@ + plural(hours)
    } else if hours > 0 {
        decimal(hours as nat) + " hour"@ + plural(hours) + " "@ + decimal(mins as nat) + " min"@
    } else {
        decimal(mins as nat) + " min"@
    }
}

fn plural_text(n: u64) -> (r: &'static str)
    ensures
        r@ == plural(n as int),
{
    if n == 1 {
        ""
    } else {
        "s"
    }
}

/// The span `secs` in words (`format_duration` of a `Duration` of that
/// many whole seconds).
pub fn format_duration(secs: i64) -> (r: String)
    ensures
        r@ == duration_text(secs as int),
{
    let s: u64 = if secs < 0 { 0 } else { secs as u64 };
    let days = s / 86_400;
    let hours = (s % 86_400) / 3_600;
    let mins = (s % 3_600) / 60;
    let mut out = decimal_string(if days > 0 { days } else if hours > 0 { hours } else { mins });
    if days > 0 {
        let ghost a = out@;
        push_str(&mut out, " day");
        push_str(&mut out, plural_text(days));
        push_str(&mut out, " ");
        let h = decimal_string(hours);
        push_str(&mut out, h.as_str());
        push_str(&mut out, " hour");
        push_str(&mut out, plural_text(hours));
        assert(out@ =~= a + " day"@ + plural(days as int) + " "@ + decimal(hours as nat) + " hour"@ + plural(hours as int));
    } else if hours > 0 {
        let ghost a = out@;
        push_str(&mut out, " hour");
        push_str(&mut out, plural_text(hours));
        push_str(&mut out, " ");
        let m = decimal_string(mins);
        push_str(&mut out, m.as_str());
        push_str(&mut out, " min");
        assert(out@ =~= a + " hour"@ + plural(hours as int) + " "@ + decimal(mins as nat) + " min"@);
    } else {
        let ghost a = out@;
        push_str(&mut out, " min");
        assert(out@ =~= a + " min"@);
    }
    out
}

/// Battery polls: not on USB.
pub open spec fn on_battery(polls: Seq<Poll>) -> Seq<u32>
    decreases polls.len(),
{
    if polls.len() == 0 {
        Seq::empty()
    } else {
        let rest = on_battery(polls.drop_last());
        if polls.last().usb {
            rest
        } else {
            rest.push(polls.last().mv)
        }
    }
}

/// Spread of the battery readings: highest minus lowest millivolts over
/// the polls not on USB; 0 without any.
pub fn battery_mv_range(polls: &[Poll]) -> (r: u32)
    ensures
        on_battery(polls@).len() == 0 ==> r == 0,
        on_battery(polls@).len() > 0 ==> exists|i: int, j: int|
            0 <= i < on_battery(polls@).len() && 0 <= j < on_battery(polls@).len()
            && r == on_battery(polls@)[j] - on_battery(polls@)[i]
            && forall|k: int| 0 <= k < on_battery(polls@).len() ==> on_battery(polls@)[i] <= #[trigger] on_battery(polls@)[k]
                <= on_battery(polls@)[j],
{
    let n = polls.len();
    let mut min_v: u32 = u32::MAX;
    let mut max_v: u32 = 0;
    let mut lo: usize = 0;
    let mut hi: usize = 0;
    let mut count: usize = 0;
    let mut i: usize = 0;
    assert(polls@.take(0) =~= Seq::<Poll>::empty());
    while i < n
        invariant
            n == polls@.len(),
            i <= n,
            count <= i,
            count == on_battery(polls@.take(i as int)).len(),
            count > 0 ==> lo < count && hi < count && on_battery(polls@.take(i as int))[lo as int] == min_v
                && on_battery(polls@.take(i as int))[hi as int] == max_v,
            count > 0 ==> forall|k: int| 0 <= k < count ==> min_v <= #[trigger] on_battery(polls@.take(i as int))[k] <= max_v,
            count == 0 ==> min_v == u32::MAX && max_v == 0,
        decreases n - i,
    {
        let ghost before = on_battery(polls@.take(i as int));
        assert(polls@.take(i + 1).drop_last() =~= polls@.take(i as int));
        assert(polls@.take(i + 1).last() == polls@[i as int]);
        if !polls[i].usb {
            let v = polls[i].mv;
            if count == 0 || v < min_v {
                min_v = v;
                lo = count;
            }
            if count == 0 || v > max_v {
                max_v = v;
                hi = count;
            }
            count = count + 1;
        }
        i = i + 1;
    }
    assert(polls@.take(n as int) =~= polls@);
    if count == 0 {
        0
    } else {
        max_v - min_v
    }
}

} // verus!
