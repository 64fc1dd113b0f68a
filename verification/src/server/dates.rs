//! Calendar dates as `chrono::NaiveDate` holds them (proleptic Gregorian,
//! years -262143 to 262142), with chrono doing the parsing, formatting and
//! day arithmetic.

use vstd::prelude::*;

verus! {

/// A calendar date: year, month 1–12, day of month.
#[derive(Clone, Copy, Debug, PartialEq, Eq)]
pub struct Date {
    pub year: i32,
    pub month: u32,
    pub day: u32,
}

/// Gregorian leap year.
pub open spec fn leap(y: int) -> bool {
    (y % 4 == 0 && y % 100 != 0) || y % 400 == 0
}

/// Days in month `m` of year `y`.
pub open spec fn month_days(y: int, m: int) -> int {
    if m == 2 {
        if leap(y) { 29 } else { 28 }
    } else if m == 4 || m == 6 || m == 9 || m == 11 {
        30
    } else {
        31
    }
}

/// A date `NaiveDate` can hold.
pub open spec fn valid_date(d: Date) -> bool {
    &&& -262143 <= d.year <= 262142
    &&& 1 <= d.month <= 12
    &&& 1 <= d.day <= month_days(d.year as int, d.month as int)
}

/// Days in the months of year `y` before month `m`.
pub open spec fn days_before_month(y: int, m: int) -> int
    decreases m,
{
    if m <= 1 {
        0
    } else {
        days_before_month(y, m - 1) + month_days(y, m - 1)
    }
}

/// Consecutive day count of a date: one more for each day later.
pub open spec fn day_number(d: Date) -> int {
    let y = d.year - 1;
    365 * y + y / 4 - y / 100 + y / 400 + days_before_month(d.year as int, d.month as int) + d.day
}

/// The first and last dates `NaiveDate` can hold, by day number.
pub open spec fn min_day() -> int {
    day_number(Date { year: -262143i32, month: 1u32, day: 1u32 })
}

pub open spec fn max_day() -> int {
    day_number(Date { year: 262142i32, month: 12u32, day: 31u32 })
}

/// [`min_day`] and [`max_day`] as numbers.
pub const MIN_DAY: i64 = -95_746_129;

pub const MAX_DAY: i64 = 95_745_399;

pub proof fn lemma_day_bounds()
    ensures
        min_day() == MIN_DAY,
        max_day() == MAX_DAY,
{
    reveal_with_fuel(days_before_month, 13);
    assert(-262144int / 4 == -65536);
    assert(-262144int / 100 == -2622);
    assert(-262144int / 400 == -656);
    assert(262141int / 4 == 65535);
    assert(262141int / 100 == 2621);
    assert(262141int / 400 == 655);
    assert(!leap(262142));
}

/// `a` is before `b` in calendar order.
pub open spec fn date_lt(a: Date, b: Date) -> bool {
    a.year < b.year || (a.year == b.year && (a.month < b.month || (a.month == b.month && a.day < b.day)))
}

pub fn is_before(a: Date, b: Date) -> (r: bool)
    ensures
        r == date_lt(a, b),
{
    a.year < b.year || (a.year == b.year && (a.month < b.month || (a.month == b.month && a.day < b.day)))
}

pub fn is_leap(y: i32) -> (r: bool)
    requires
        -262144 <= y <= 262143,
    ensures
        r == leap(y as int),
{
    let z: u64 = (y as i64 + 400000) as u64;
    proof {
        let yi = y as int;
        vstd::arithmetic::div_mod::lemma_mod_multiples_vanish(100000, yi, 4);
        vstd::arithmetic::div_mod::lemma_mod_multiples_vanish(4000, yi, 100);
        vstd::arithmetic::div_mod::lemma_mod_multiples_vanish(1000, yi, 400);
        assert(z as int == 4 * 100000 + yi);
        assert(z as int == 100 * 4000 + yi);
        assert(z as int == 400 * 1000 + yi);
    }
    (z % 4 == 0 && z % 100 != 0) || z % 400 == 0
}

/// Whether `(year, month, day)` is a date `NaiveDate` can hold.
pub fn is_valid_date(year: i32, month: u32, day: u32) -> (r: bool)
    ensures
        r == valid_date(Date { year, month, day }),
{
    if year < -262143 || year > 262142 || month < 1 || month > 12 || day < 1 {
        return false;
    }
    let last: u32 = if month == 2 {
        if is_leap(year) { 29 } else { 28 }
    } else if month == 4 || month == 6 || month == 9 || month == 11 {
        30
    } else {
        31
    };
    day <= last
}

/// The same day and month in another year (`Datelike::with_year`); `None`
/// when that date does not exist (29 February outside leap years).
pub fn with_year(d: Date, year: i32) -> (r: Option<Date>)
    ensures
        match r {
            Some(e) => e == (Date { year, ..d }) && valid_date(e),
            None => !valid_date(Date { year, ..d }),
        },
{
    if is_valid_date(year, d.month, d.day) {
        Some(Date { year, month: d.month, day: d.day })
    } else {
        None
    }
}

/// What `NaiveDate::parse_from_str(text, fmt)` gives, as year, month, day.
pub uninterp spec fn parsed_date(text: Seq<char>, fmt: Seq<char>) -> Option<(i32, u32, u32)>;

/// Four digits, zero-padded, of `n < 10000`.
pub open spec fn four_digits(n: int) -> Seq<char> {
    seq![
        crate::text::digit_char((n / 1000) as nat),
        crate::text::digit_char((n / 100 % 10) as nat),
        crate::text::digit_char((n / 10 % 10) as nat),
        crate::text::digit_char((n % 10) as nat),
    ]
}

/// Two digits, zero-padded, of `n < 100`.
pub open spec fn two_digits(n: int) -> Seq<char> {
    seq![crate::text::digit_char((n / 10) as nat), crate::text::digit_char((n % 10) as nat)]
}

/// `%Y`: four digits for years 0 to 9999; other years get a sign and at
/// least four digits.
pub open spec fn year_text(y: int) -> Seq<char> {
    if 0 <= y <= 9999 {
        four_digits(y)
    } else {
        let a = if y < 0 { -y } else { y };
        (if y < 0 { "-"@ } else { "+"@ }) + (if a < 10000 { four_digits(a) } else { crate::text::decimal(a as nat) })
    }
}

/// `%a`: the English weekday abbreviation, Monday 0 to Sunday 6.
pub open spec fn weekday_abbr(w: int) -> Seq<char> {
    if w == 0 { "Mon"@ }
    else if w == 1 { "Tue"@ }
    else if w == 2 { "Wed"@ }
    else if w == 3 { "Thu"@ }
    else if w == 4 { "Fri"@ }
    else if w == 5 { "Sat"@ }
    else { "Sun"@ }
}

/// `%b`: the English month abbreviation.
pub open spec fn month_abbr(m: int) -> Seq<char> {
    if m == 1 { "Jan"@ }
    else if m == 2 { "Feb"@ }
    else if m == 3 { "Mar"@ }
    else if m == 4 { "Apr"@ }
    else if m == 5 { "May"@ }
    else if m == 6 { "Jun"@ }
    else if m == 7 { "Jul"@ }
    else if m == 8 { "Aug"@ }
    else if m == 9 { "Sep"@ }
    else if m == 10 { "Oct"@ }
    else if m == 11 { "Nov"@ }
    else { "Dec"@ }
}

/// What `NaiveDate::format(fmt)` writes for a date in each format of
/// [`date_format_ok`] (`%Y`, `%m`, `%d` zero-padded, `%-d` not, `%a` and
/// `%b` abbreviated in English); nothing for other formats, which are
/// never written.
pub open spec fn date_text(year: i32, month: u32, day: u32, fmt: Seq<char>) -> Seq<char> {
    let w = weekday_abbr(weekday_of(Date { year, month, day }));
    if fmt == "%Y-%m-%d"@ {
        year_text(year as int) + "-"@ + two_digits(month as int) + "-"@ + two_digits(day as int)
    } else if fmt == "%a"@ {
        w
    } else if fmt == "%a %-d"@ {
        w + " "@ + crate::text::decimal(day as nat)
    } else if fmt == "%-d %b"@ {
        crate::text::decimal(day as nat) + " "@ + month_abbr(month as int)
    } else if fmt == "%-d %b %Y"@ {
        crate::text::decimal(day as nat) + " "@ + month_abbr(month as int) + " "@ + year_text(year as int)
    } else {
        Seq::empty()
    }
}

/// `chrono::NaiveDate::parse_from_str`: the date `text` spells in `fmt`,
/// when it spells one; a parsed date is always one `NaiveDate` can hold.
#[verifier::external_body]
pub fn parse_date(text: &str, fmt: &str) -> (r: Option<Date>)
    ensures
        match r {
            Some(d) => parsed_date(text@, fmt@) == Some((d.year, d.month, d.day)) && valid_date(d),
            None => parsed_date(text@, fmt@) is None,
        },
{
    let d = chrono::NaiveDate::parse_from_str(text, fmt).ok()?;
    Some(Date { year: chrono::Datelike::year(&d), month: chrono::Datelike::month(&d), day: chrono::Datelike::day(&d) })
}

/// The date formats this crate writes: ISO date, weekday, weekday and
/// day, day and month, day, month and year. Each holds only specifiers
/// chrono knows, so formatting it cannot fail.
pub open spec fn date_format_ok(fmt: Seq<char>) -> bool {
    ||| fmt == "%Y-%m-%d"@
    ||| fmt == "%a"@
    ||| fmt == "%a %-d"@
    ||| fmt == "%-d %b"@
    ||| fmt == "%-d %b %Y"@
}

/// `chrono::NaiveDate::format(fmt).to_string()` for a date it can hold,
/// in one of the formats of [`date_format_ok`] (a format with an unknown
/// or time specifier makes `to_string` panic).
#[verifier::external_body]
pub fn format_date(d: Date, fmt: &str) -> (r: String)
    requires
        valid_date(d),
        date_format_ok(fmt@),
    ensures
        r@ == date_text(d.year, d.month, d.day, fmt@),
{
    match chrono::NaiveDate::from_ymd_opt(d.year, d.month, d.day) {
        Some(date) => date.format(fmt).to_string(),
        None => String::new(),
    }
}

/// Days in the months before `m` of year `y`, from the month table.
fn days_before(y: i32, m: u32) -> (r: i64)
    requires
        1 <= m <= 12,
        -262144 <= y <= 262143,
    ensures
        r == days_before_month(y as int, m as int),
{
    proof {
        reveal_with_fuel(days_before_month, 13);
    }
    let base: i64 = if m == 1 {
        0
    } else if m == 2 {
        31
    } else if m == 3 {
        59
    } else if m == 4 {
        90
    } else if m == 5 {
        120
    } else if m == 6 {
        151
    } else if m == 7 {
        181
    } else if m == 8 {
        212
    } else if m == 9 {
        243
    } else if m == 10 {
        273
    } else if m == 11 {
        304
    } else {
        334
    };
    if m > 2 && is_leap(y) {
        base + 1
    } else {
        base
    }
}

proof fn lemma_shift_div(y: int, d: int, k: int)
    requires
        d > 0,
    ensures
        (y + d * k) / d == y / d + k,
{
    vstd::arithmetic::div_mod::lemma_fundamental_div_mod(y, d);
    vstd::arithmetic::div_mod::lemma_mod_bound(y, d);
    let q = y / d;
    let r = y % d;
    assert(y + d * k == (q + k) * d + r) by (nonlinear_arith)
        requires
            y == d * q + r,
    ;
    vstd::arithmetic::div_mod::lemma_fundamental_div_mod_converse_div(y + d * k, d, q + k, r);
}

/// The day number of a date, as [`day_number`] counts.
pub fn day_number_of(d: Date) -> (r: i64)
    requires
        valid_date(d),
    ensures
        r == day_number(d),
        -100_000_000 <= r <= 100_000_000,
{
    let y: i64 = d.year as i64 - 1;
    let z: i64 = y + 400000;
    let q4: i64 = z / 4 - 100000;
    let q100: i64 = z / 100 - 4000;
    let q400: i64 = z / 400 - 1000;
    proof {
        lemma_shift_div(y as int, 4, 100000);
        lemma_shift_div(y as int, 100, 4000);
        lemma_shift_div(y as int, 400, 1000);
    }
    assert(-262144 <= y <= 262141);
    assert(0 <= z / 4 <= 200000) by (nonlinear_arith)
        requires
            0 <= z <= 700000,
    ;
    assert(0 <= z / 100 <= 7000) by (nonlinear_arith)
        requires
            0 <= z <= 700000,
    ;
    assert(0 <= z / 400 <= 2000) by (nonlinear_arith)
        requires
            0 <= z <= 700000,
    ;
    let dbm = days_before(d.year, d.month);
    assert(0 <= dbm <= 335) by {
        reveal_with_fuel(days_before_month, 13);
    }
    365 * y + q4 - q100 + q400 + dbm + d.day as i64
}


/// The calendar day after `d`.
pub open spec fn next_day(d: Date) -> Date {
    if d.day < month_days(d.year as int, d.month as int) {
        Date { day: (d.day + 1) as u32, ..d }
    } else if d.month < 12 {
        Date { month: (d.month + 1) as u32, day: 1u32, ..d }
    } else {
        Date { year: (d.year + 1) as i32, month: 1u32, day: 1u32 }
    }
}

/// The date `k` days after `d`.
pub open spec fn date_after(d: Date, k: nat) -> Date
    decreases k,
{
    if k == 0 {
        d
    } else {
        next_day(date_after(d, (k - 1) as nat))
    }
}

/// Day of the week, Monday 0 to Sunday 6 (1 January of year 1 was a Monday).
pub open spec fn weekday_of(d: Date) -> int {
    (day_number(d) - 1) % 7
}

proof fn lemma_div_step(y: int, n: int)
    requires
        n > 0,
    ensures
        y / n - (y - 1) / n == (if y % n == 0 { 1int } else { 0int }),
{
    vstd::arithmetic::div_mod::lemma_fundamental_div_mod(y, n);
    vstd::arithmetic::div_mod::lemma_mod_bound(y, n);
    let q = y / n;
    let r = y % n;
    if r == 0 {
        assert(y - 1 == (q - 1) * n + (n - 1)) by (nonlinear_arith)
            requires
                y == n * q + r,
                r == 0,
        ;
        vstd::arithmetic::div_mod::lemma_fundamental_div_mod_converse_div(y - 1, n, q - 1, n - 1);
    } else {
        assert(y - 1 == q * n + (r - 1)) by (nonlinear_arith)
            requires
                y == n * q + r,
        ;
        vstd::arithmetic::div_mod::lemma_fundamental_div_mod_converse_div(y - 1, n, q, r - 1);
    }
}

/// The day after a date is the next day number.
pub proof fn lemma_next_day(d: Date)
    requires
        valid_date(d),
        day_number(d) < max_day(),
    ensures
        valid_date(next_day(d)),
        day_number(next_day(d)) == day_number(d) + 1,
{
    let n = next_day(d);
    if d.day < month_days(d.year as int, d.month as int) {
    } else if d.month < 12 {
        assert(days_before_month(d.year as int, d.month + 1) == days_before_month(d.year as int, d.month as int)
            + month_days(d.year as int, d.month as int));
    } else {
        let y = d.year as int;
        if y == 262142 {
            assert(d == Date { year: 262142i32, month: 12u32, day: 31u32 });
            assert(false);
        }
        assert(days_before_month(y, 12) == 334 + (if leap(y) { 1int } else { 0int })) by {
            reveal_with_fuel(days_before_month, 13);
        }
        assert(days_before_month(y + 1, 1) == 0);
        lemma_div_step(y, 4);
        lemma_div_step(y, 100);
        lemma_div_step(y, 400);
        assert(n == Date { year: (y + 1) as i32, month: 1u32, day: 1u32 });
    }
}

/// The date after `d` (`d + Duration::days(1)`), for a date before the last
/// one `NaiveDate` holds.
pub fn next_date(d: Date) -> (r: Date)
    requires
        valid_date(d),
        day_number(d) < max_day(),
    ensures
        r == next_day(d),
        valid_date(r),
        day_number(r) == day_number(d) + 1,
{
    proof {
        lemma_next_day(d);
    }
    if is_valid_date(d.year, d.month, d.day + 1) {
        Date { year: d.year, month: d.month, day: d.day + 1 }
    } else if d.month < 12 {
        Date { year: d.year, month: d.month + 1, day: 1 }
    } else {
        Date { year: d.year + 1, month: 1, day: 1 }
    }
}

/// Day of the week of a date, Monday 0 to Sunday 6.
pub fn weekday_index(d: Date) -> (r: usize)
    requires
        valid_date(d),
    ensures
        r == weekday_of(d),
        r < 7,
{
    let dn = day_number_of(d);
    let s: u64 = (dn + 699_999_999) as u64;
    proof {
        vstd::arithmetic::div_mod::lemma_mod_multiples_vanish(100_000_000, dn - 1, 7);
        assert(s == 7 * 100_000_000 + (dn - 1));
    }
    (s % 7) as usize
}

} // verus!
