//! When the Pico should next wake: a fixed interval, or the next wake-up
//! clock time in the household's time zone. chrono-tz turns instants into
//! local dates and local clock times back into instants; the choice of slot
//! is made here.

use vstd::prelude::*;
use crate::server::dates::{
    date_after, day_number, max_day, min_day, next_date, valid_date, weekday_index, weekday_of, Date,
};
use crate::server::display::week_empty;
use crate::server::frame::{nanos_between, UtcStamp};
use crate::server::wakes::{valid_time, WakeTime, WeeklyWakes};
use crate::text::{chars_of, eq_ignore_ascii_case, eq_ignore_case};

verus! {

/// Longest span a `chrono::TimeDelta` holds, in whole seconds
/// (`i64::MAX` milliseconds).
pub const MAX_DELTA_SECS: u64 = 9_223_372_036_854_775;

/// The UTC calendar day of `secs` past the epoch, by day number
/// (1 January 1970 is day 719163).
pub open spec fn utc_day(secs: int) -> int {
    secs / 86400 + 719163
}

/// An instant `DateTime<Utc>` holds, whole seconds: its day lies within
/// `NaiveDate`'s range.
pub open spec fn utc_in_range(secs: int) -> bool {
    min_day() <= utc_day(secs) <= max_day()
}

/// An instant the scheduler can look a week ahead from: a day away from the
/// first date chrono holds and eight from the last, with its nanoseconds
/// below a second.
pub open spec fn schedulable(t: UtcStamp) -> bool {
    &&& min_day() < utc_day(t.secs as int)
    &&& utc_day(t.secs as int) + 8 <= max_day()
    &&& t.nanos < 1_000_000_000
}

/// What `TimeZone::from_local_datetime` gives for a wall-clock time, as
/// seconds since the epoch.
#[derive(Clone, Copy, Debug, PartialEq, Eq)]
pub enum LocalInstant {
    /// The wall clock shows this time once.
    Single(i64),
    /// The wall clock shows it twice (clocks went back), in chrono's order.
    Ambiguous(i64, i64),
    /// The wall clock skips it (clocks went forward), or the zone is unknown.
    Missing,
}

/// What `DateTime::<Utc>::with_timezone(..).naive_local()` shows in the
/// zone named `tz`: year, month, day and second of the day; `None` when
/// chrono-tz has no zone of that name.
pub uninterp spec fn local_clock_at(secs: i64, tz: Seq<char>) -> Option<(i32, u32, u32, u32)>;

/// What `TimeZone::from_local_datetime` gives in the zone named `tz` for
/// the date and the second of the day; `Missing` when chrono-tz has no zone
/// of that name.
pub uninterp spec fn local_instant_of(tz: Seq<char>, year: i32, month: u32, day: u32, secs_of_day: u32) -> LocalInstant;

/// Seconds past the epoch of a UTC wall-clock reading.
pub open spec fn wall_secs(d: Date, secs_of_day: int) -> int {
    (day_number(d) - 719163) * 86400 + secs_of_day
}

/// `t` lies within a day of the wall-clock reading `d`, `secs_of_day`:
/// every zone's offset is below a day.
pub open spec fn within_a_day(t: int, d: Date, secs_of_day: int) -> bool {
    -86400 < t - wall_secs(d, secs_of_day) < 86400
}

/// `DateTime::with_timezone` then `naive_local`: the date and the second of
/// the day on the wall clocks of zone `tz` at `secs` past the epoch
/// (sub-second parts aside). chrono-tz offsets are below a day
/// (`FixedOffset` holds no more), so the reading is within a day of the
/// instant. `None` only when `tz` does not name a zone.
#[verifier::external_body]
pub(crate) fn local_clock(secs: i64, tz: &str) -> (r: Option<(Date, u32)>)
    requires
        min_day() < utc_day(secs as int) < max_day(),
    ensures
        match r {
            Some((d, s)) => local_clock_at(secs, tz@) == Some((d.year, d.month, d.day, s)) && valid_date(d)
                && s < 86400 && within_a_day(secs as int, d, s as int),
            None => local_clock_at(secs, tz@) is None,
        },
{
    let zone: chrono_tz::Tz = tz.parse().ok()?;
    let local = chrono::DateTime::from_timestamp(secs, 0)?.with_timezone(&zone).naive_local();
    let day = local.date();
    Some((
        Date { year: chrono::Datelike::year(&day), month: chrono::Datelike::month(&day), day: chrono::Datelike::day(&day) },
        chrono::Timelike::num_seconds_from_midnight(&local),
    ))
}

/// `TimeZone::from_local_datetime` in zone `tz`: the instants at which the
/// wall clock shows `date` at `secs_of_day` seconds past midnight, each
/// within a day of that reading.
#[verifier::external_body]
pub(crate) fn local_to_utc(tz: &str, date: Date, secs_of_day: u32) -> (r: LocalInstant)
    requires
        valid_date(date),
        secs_of_day < 86400,
    ensures
        r == local_instant_of(tz@, date.year, date.month, date.day, secs_of_day),
        match r {
            LocalInstant::Single(t) => within_a_day(t as int, date, secs_of_day as int),
            LocalInstant::Ambiguous(a, b) => within_a_day(a as int, date, secs_of_day as int)
                && within_a_day(b as int, date, secs_of_day as int),
            LocalInstant::Missing => true,
        },
{
    let Ok(zone) = tz.parse::<chrono_tz::Tz>() else { return LocalInstant::Missing };
    let (Some(day), Some(time)) = (
        chrono::NaiveDate::from_ymd_opt(date.year, date.month, date.day),
        chrono::NaiveTime::from_num_seconds_from_midnight_opt(secs_of_day, 0),
    ) else { return LocalInstant::Missing };
    match chrono::TimeZone::from_local_datetime(&zone, &day.and_time(time)) {
        chrono::LocalResult::Single(t) => LocalInstant::Single(t.timestamp()),
        chrono::LocalResult::Ambiguous(a, b) => LocalInstant::Ambiguous(a.timestamp(), b.timestamp()),
        chrono::LocalResult::None => LocalInstant::Missing,
    }
}

/// The instant a wall-clock time stands for: the only one, the earlier of
/// two when the clock repeats, none when it is skipped.
pub open spec fn resolved(li: LocalInstant) -> Option<i64> {
    match li {
        LocalInstant::Single(t) => Some(t),
        LocalInstant::Ambiguous(t, _) => Some(t),
        LocalInstant::Missing => None,
    }
}

/// Seconds past midnight of a wake-up time.
pub open spec fn clock_secs(t: WakeTime) -> int {
    t.hour * 3600 + t.minute * 60
}

/// The first wake-up slot strictly after `now` (seconds since the epoch),
/// trying day `k` after `today` from its `i`-th time on, then the days
/// after it, up to a week after `today`; slots the wall clock skips are
/// passed over.
pub open spec fn first_slot_from(
    tz: Seq<char>,
    today: Date,
    w: Seq<Seq<WakeTime>>,
    now: int,
    k: nat,
    i: nat,
) -> Option<i64>
    decreases 8 - k, w[weekday_of(date_after(today, k))].len() - i,
{
    if k >= 8 {
        None
    } else {
        let d = date_after(today, k);
        let day = w[weekday_of(d)];
        if i >= day.len() {
            first_slot_from(tz, today, w, now, k + 1, 0)
        } else {
            match resolved(local_instant_of(tz, d.year, d.month, d.day, clock_secs(day[i as int]) as u32)) {
                Some(s) => if s > now {
                    Some(s)
                } else {
                    first_slot_from(tz, today, w, now, k, i + 1)
                },
                None => first_slot_from(tz, today, w, now, k, i + 1),
            }
        }
    }
}

/// The next wake-up slot after `now` in zone `tz`: none for an empty week.
pub open spec fn next_wake(now: UtcStamp, tz: Seq<char>, w: Seq<Seq<WakeTime>>) -> Option<i64> {
    if week_empty(w) {
        None
    } else {
        match local_clock_at(now.secs, tz) {
            Some((y, m, d, _)) => first_slot_from(tz, Date { year: y, month: m, day: d }, w, now.secs as int, 0, 0),
            None => None,
        }
    }
}

/// Whole seconds from `a` to `b`, rounded toward zero
/// (`TimeDelta::num_seconds` of `b - a`).
pub open spec fn whole_secs_between(a: UtcStamp, b: UtcStamp) -> int {
    let n = nanos_between(a, b);
    if n >= 0 {
        n / 1_000_000_000
    } else {
        -((-n) / 1_000_000_000)
    }
}

/// At least one.
pub open spec fn at_least_one(x: int) -> int {
    if x < 1 {
        1
    } else {
        x
    }
}

/// Seconds until the poll after `now`: to the next wake-up slot when the
/// week has one, else the interval; never below one.
pub open spec fn poll_secs(now: UtcStamp, tz: Seq<char>, interval: u64, w: Seq<Seq<WakeTime>>) -> int {
    match next_wake(now, tz, w) {
        Some(t) => at_least_one(whole_secs_between(now, UtcStamp { secs: t, nanos: 0 })),
        None => at_least_one(interval as int),
    }
}

/// `t` plus `secs` seconds, when the sum is an instant `DateTime<Utc>`
/// holds (`checked_add_signed`).
pub open spec fn checked_after(t: UtcStamp, secs: int) -> Option<UtcStamp> {
    if utc_in_range(t.secs + secs) {
        Some(UtcStamp { secs: (t.secs + secs) as i64, nanos: t.nanos })
    } else {
        None
    }
}

/// `a` is earlier than `b`.
pub open spec fn stamp_lt(a: UtcStamp, b: UtcStamp) -> bool {
    a.secs < b.secs || (a.secs == b.secs && a.nanos < b.nanos)
}

/// Seconds until the poll after a timer wake at `now`: the slot after the
/// assigned one, as long as it is still ahead; else as for any poll.
pub open spec fn timer_poll_secs(
    now: UtcStamp,
    tz: Seq<char>,
    interval: u64,
    w: Seq<Seq<WakeTime>>,
    assigned: Option<UtcStamp>,
) -> int {
    match assigned {
        Some(a) => match checked_after(a, poll_secs(a, tz, interval, w)) {
            Some(next) => if stamp_lt(now, next) {
                at_least_one(whole_secs_between(now, next))
            } else {
                poll_secs(now, tz, interval, w)
            },
            None => poll_secs(now, tz, interval, w),
        },
        None => poll_secs(now, tz, interval, w),
    }
}

proof fn lemma_first_slot_after(tz: Seq<char>, today: Date, w: Seq<Seq<WakeTime>>, now: int, k: nat, i: nat)
    ensures
        first_slot_from(tz, today, w, now, k, i) matches Some(s) ==> s > now,
    decreases 8 - k, w[weekday_of(date_after(today, k))].len() - i,
{
    if k < 8 {
        let day = w[weekday_of(date_after(today, k))];
        if i >= day.len() {
            lemma_first_slot_after(tz, today, w, now, k + 1, 0);
        } else {
            lemma_first_slot_after(tz, today, w, now, k, i + 1);
        }
    }
}

/// The next wake-up slot is strictly after `now`: a slot that has started
/// is never picked again.
pub proof fn lemma_next_wake_after_now(now: UtcStamp, tz: Seq<char>, w: Seq<Seq<WakeTime>>)
    ensures
        next_wake(now, tz, w) matches Some(t) ==> t > now.secs,
{
    if !week_empty(w) {
        if let Some((y, m, d, _)) = local_clock_at(now.secs, tz) {
            lemma_first_slot_after(tz, Date { year: y, month: m, day: d }, w, now.secs as int, 0, 0);
        }
    }
}

/// Whole seconds from `a` to `b`, rounded toward zero.
fn whole_secs(a: UtcStamp, b: UtcStamp) -> (r: i128)
    requires
        a.nanos < 1_000_000_000,
        b.nanos < 1_000_000_000,
    ensures
        r == whole_secs_between(a, b),
        -0x1_0000_0000_0000_0000 < r < 0x1_0000_0000_0000_0000,
{
    let n: i128 = (b.secs as i128 - a.secs as i128) * 1_000_000_000i128 + (b.nanos as i128 - a.nanos as i128);
    assert(n == nanos_between(a, b));
    if n >= 0 {
        assert(n / 1_000_000_000 <= n);
        n / 1_000_000_000
    } else {
        let m: i128 = -n;
        assert(m / 1_000_000_000 <= m);
        -(m / 1_000_000_000)
    }
}

/// The first wake-up slot after `now_secs`, from the day `today` on.
fn first_slot(now_secs: i64, tz: &str, today: Date, wakes: &WeeklyWakes) -> (r: Option<i64>)
    requires
        valid_date(today),
        day_number(today) + 7 <= max_day(),
    ensures
        r == first_slot_from(tz@, today, wakes@, now_secs as int, 0, 0),
{
    let mut date = today;
    let mut k: usize = 0;
    while k < 8
        invariant
            k <= 8,
            valid_date(today),
            day_number(today) + 7 <= max_day(),
            k < 8 ==> date == date_after(today, k as nat),
            k < 8 ==> valid_date(date),
            k < 8 ==> day_number(date) == day_number(today) + k,
            first_slot_from(tz@, today, wakes@, now_secs as int, 0, 0) == first_slot_from(
                tz@,
                today,
                wakes@,
                now_secs as int,
                k as nat,
                0,
            ),
        decreases 8 - k,
    {
        let wd = weekday_index(date);
        let day = wakes.get_index(wd);
        let n = day.len();
        let mut i: usize = 0;
        while i < n
            invariant
                k < 8,
                i <= n,
                n == day@.len(),
                day@ == wakes@[weekday_of(date)],
                wd == weekday_of(date),
                date == date_after(today, k as nat),
                valid_date(date),
                forall|j: int| 0 <= j < day@.len() ==> valid_time(#[trigger] day@[j]),
                first_slot_from(tz@, today, wakes@, now_secs as int, 0, 0) == first_slot_from(
                    tz@,
                    today,
                    wakes@,
                    now_secs as int,
                    k as nat,
                    i as nat,
                ),
            decreases n - i,
        {
            let t = day[i];
            assert(valid_time(day@[i as int]));
            let secs_of_day: u32 = t.hour * 3600 + t.minute * 60;
            let li = local_to_utc(tz, date, secs_of_day);
            match li {
                LocalInstant::Single(s) => {
                    if s > now_secs {
                        return Some(s);
                    }
                },
                LocalInstant::Ambiguous(s, _) => {
                    if s > now_secs {
                        return Some(s);
                    }
                },
                LocalInstant::Missing => {},
            }
            i = i + 1;
        }
        if k < 7 {
            date = next_date(date);
        }
        k = k + 1;
    }
    None
}

/// The next wake-up slot after `now` in zone `tz`, as seconds since the epoch.
fn next_wake_after(now: UtcStamp, tz: &str, wakes: &WeeklyWakes) -> (r: Option<i64>)
    requires
        schedulable(now),
    ensures
        r == next_wake(now, tz@, wakes@),
{
    if wakes.is_empty() {
        return None;
    }
    match local_clock(now.secs, tz) {
        Some((today, _)) => first_slot(now.secs, tz, today, wakes),
        None => None,
    }
}

/// Seconds until the Pico should poll again.
///
/// An empty week uses `interval_secs`. Otherwise the next clock time strictly
/// after `now` in zone `tz` wins, using that weekday's list and wrapping to
/// the next day that has a time (including next week). Never below one.
pub fn seconds_until_next_poll(now: UtcStamp, tz: &str, interval_secs: u64, wake_ups: &WeeklyWakes) -> (r: u64)
    requires
        schedulable(now),
    ensures
        r == poll_secs(now, tz@, interval_secs, wake_ups@),
        r >= 1,
{
    let interval = if interval_secs < 1 { 1 } else { interval_secs };
    match next_wake_after(now, tz, wake_ups) {
        Some(t) => {
            let secs = whole_secs(now, UtcStamp { secs: t, nanos: 0 });
            if secs < 1 {
                1
            } else {
                secs as u64
            }
        },
        None => interval,
    }
}

/// `t` plus `secs` seconds, when `DateTime<Utc>` holds the sum.
fn checked_add_secs(t: UtcStamp, secs: u64) -> (r: Option<UtcStamp>)
    ensures
        r == checked_after(t, secs as int),
{
    let sum: i128 = t.secs as i128 + secs as i128;
    let first: i128 = (crate::server::dates::MIN_DAY as i128 - 719163) * 86400;
    let last: i128 = (crate::server::dates::MAX_DAY as i128 - 719163) * 86400 + 86399;
    proof {
        crate::server::dates::lemma_day_bounds();
    }
    if first <= sum && sum <= last {
        Some(UtcStamp { secs: sum as i64, nanos: t.nanos })
    } else {
        None
    }
}

/// Wall-clock seconds until the next poll after a `wake=timer` request.
///
/// The previous response's stored slot (`assigned_wake`) *is* this poll, as
/// long as the following slot has not started yet. Early or late arrival does
/// not matter; a missed cycle (now at or after the slot after that) schedules
/// from `now` instead.
pub fn seconds_until_next_poll_for_timer(
    now: UtcStamp,
    tz: &str,
    interval_secs: u64,
    wake_ups: &WeeklyWakes,
    assigned_wake: Option<UtcStamp>,
) -> (r: u64)
    requires
        schedulable(now),
        assigned_wake matches Some(a) ==> schedulable(a),
        interval_secs <= MAX_DELTA_SECS,
    ensures
        r == timer_poll_secs(now, tz@, interval_secs, wake_ups@, assigned_wake),
        r >= 1,
{
    if let Some(assigned) = assigned_wake {
        let step = seconds_until_next_poll(assigned, tz, interval_secs, wake_ups);
        if let Some(next) = checked_add_secs(assigned, step) {
            if now.secs < next.secs || (now.secs == next.secs && now.nanos < next.nanos) {
                let secs = whole_secs(now, next);
                return if secs < 1 {
                    1
                } else {
                    secs as u64
                };
            }
        }
    }
    seconds_until_next_poll(now, tz, interval_secs, wake_ups)
}

/// The instant `secs` after `now` (`now + Duration::seconds(secs)`), for a
/// span `TimeDelta` holds and a sum `DateTime<Utc>` holds.
pub fn instant_after(now: UtcStamp, secs: u64) -> (r: UtcStamp)
    requires
        secs <= MAX_DELTA_SECS,
        utc_in_range(now.secs + secs),
    ensures
        r == (UtcStamp { secs: (now.secs + secs) as i64, nanos: now.nanos }),
{
    proof {
        crate::server::dates::lemma_day_bounds();
    }
    UtcStamp { secs: now.secs + secs as i64, nanos: now.nanos }
}

/// The Pico woke on its RTC timer (not a button, USB wait, or cold boot).
pub fn is_timer_wake(wake: &str) -> (r: bool)
    ensures
        r == eq_ignore_case(wake@, "timer"@),
{
    let w = chars_of(wake);
    let t = chars_of("timer");
    eq_ignore_ascii_case(w.as_slice(), t.as_slice())
}

/// The sleep asked and the whole seconds it took, when two consecutive
/// polls can measure the Pico timer's drift: both woke on the timer,
/// neither waited on USB, a sleep was asked, and time went forward.
/// Button wakes (early), USB waits (another clock) and cold boots measure
/// nothing.
pub fn drift_pair(
    prev_wake: &str,
    prev_usb: bool,
    prev_sleep_s: u64,
    prev_at: UtcStamp,
    wake: &str,
    usb: bool,
    now: UtcStamp,
) -> (r: Option<(u64, i64)>)
    requires
        utc_in_range(prev_at.secs as int),
        utc_in_range(now.secs as int),
        prev_at.nanos < 1_000_000_000,
        now.nanos < 1_000_000_000,
    ensures
        r == (if !eq_ignore_case(wake@, "timer"@) || !eq_ignore_case(prev_wake@, "timer"@) || usb || prev_usb
            || prev_sleep_s == 0 || whole_secs_between(prev_at, now) <= 0 {
            None
        } else {
            Some((prev_sleep_s, whole_secs_between(prev_at, now) as i64))
        }),
{
    if !is_timer_wake(wake) || !is_timer_wake(prev_wake) || usb || prev_usb || prev_sleep_s == 0 {
        return None;
    }
    proof {
        crate::server::dates::lemma_day_bounds();
    }
    let elapsed = whole_secs(prev_at, now);
    assert(elapsed <= now.secs - prev_at.secs + 1);
    if elapsed <= 0 {
        None
    } else {
        Some((prev_sleep_s, elapsed as i64))
    }
}

} // verus!
