//! Config birthdays on the calendar: each person's next birthday, today or
//! within the horizon, as an all-day row.

use vstd::prelude::*;
use crate::server::config::Birthday;
use crate::server::dates::{
    date_text, day_number, day_number_of, format_date, max_day, valid_date, with_year, is_valid_date,
    Date,
};
use crate::server::ics::{day_label, day_label_of};
use crate::server::model::{
    event_title_of, truncate_event_title, CalendarEvent, BIRTHDAY_HORIZON_DAYS,
};
use crate::text::{chars_of, push_str, signed_decimal, signed_decimal_string, string_in, trim, trim_bounds};

verus! {

/// The birthday in `year`: the same day and month, or 28 February for a
/// 29 February birthday outside leap years; `None` when neither exists.
pub open spec fn birthday_in_year_of(dob: Date, year: int) -> Option<Date> {
    let e = Date { year: year as i32, ..dob };
    if valid_date(e) {
        Some(e)
    } else if dob.month == 2 && dob.day == 29 && valid_date(Date { year: year as i32, month: 2, day: 28 }) {
        Some(Date { year: year as i32, month: 2, day: 28 })
    } else {
        None
    }
}

/// The next birthday on or after `today`: this year's unless it is past,
/// then next year's; none when this year's does not exist.
pub open spec fn next_occurrence_of(dob: Date, today: Date) -> Option<Date> {
    match birthday_in_year_of(dob, today.year as int) {
        None => None,
        Some(t) => if day_number(t) >= day_number(today) {
            Some(t)
        } else {
            birthday_in_year_of(dob, today.year + 1)
        },
    }
}

/// When a person's birthday shows: a non-blank name and a next birthday
/// no later than the horizon.
pub open spec fn shown_on(p: Birthday, today: Date) -> Option<Date> {
    if trim(p.name@).len() == 0 {
        None
    } else {
        match next_occurrence_of(p.dob, today) {
            None => None,
            Some(n) => if day_number(n) > day_number(today) + BIRTHDAY_HORIZON_DAYS {
                None
            } else {
                Some(n)
            },
        }
    }
}

/// The people whose birthday shows, in order, with the date it shows on.
pub open spec fn shown_birthdays(ps: Seq<Birthday>, today: Date) -> Seq<(Birthday, Date)>
    decreases ps.len(),
{
    if ps.len() == 0 {
        Seq::empty()
    } else {
        let rest = shown_birthdays(ps.drop_last(), today);
        match shown_on(ps.last(), today) {
            Some(n) => rest.push((ps.last(), n)),
            None => rest,
        }
    }
}

/// The calendar row for `p`'s birthday on `next`.
pub open spec fn birthday_row(e: CalendarEvent, p: Birthday, next: Date, today: Date) -> bool {
    &&& e.start@.len() == 0
    &&& e.title@ == event_title_of(
        trim(p.name@) + " turns "@ + signed_decimal((next.year - p.dob.year) as i64),
    )
    &&& e.all_day
    &&& e.day_label@ == day_label_of(next, today)
    &&& e.date@ == date_text(next.year, next.month, next.day, "%Y-%m-%d"@)
    &&& e.birthday
    &&& !e.school
    &&& !e.recurring
    &&& !e.bin
}

fn birthday_in_year(dob: Date, year: i32) -> (r: Option<Date>)
    ensures
        r == birthday_in_year_of(dob, year as int),
{
    match with_year(dob, year) {
        Some(e) => Some(e),
        None => if dob.month == 2 && dob.day == 29 && is_valid_date(year, 2, 28) {
            Some(Date { year, month: 2, day: 28 })
        } else {
            None
        },
    }
}

fn next_occurrence(dob: Date, today: Date) -> (r: Option<Date>)
    requires
        valid_date(today),
    ensures
        r == next_occurrence_of(dob, today),
        r matches Some(n) ==> valid_date(n),
{
    let this_year = match birthday_in_year(dob, today.year) {
        Some(t) => t,
        None => return None,
    };
    if day_number_of(this_year) >= day_number_of(today) {
        Some(this_year)
    } else {
        birthday_in_year(dob, today.year + 1)
    }
}

/// Birthdays whose next occurrence is today or within two weeks.
pub fn upcoming_events(birthdays: &[Birthday], today: Date) -> (r: Vec<CalendarEvent>)
    requires
        valid_date(today),
        day_number(today) + BIRTHDAY_HORIZON_DAYS <= max_day(),
    ensures
        r@.len() == shown_birthdays(birthdays@, today).len(),
        forall|i: int|
            0 <= i < r@.len() ==> birthday_row(
                #[trigger] r@[i],
                shown_birthdays(birthdays@, today)[i].0,
                shown_birthdays(birthdays@, today)[i].1,
                today,
            ),
{
    let horizon = day_number_of(today) + 14;
    let n = birthdays.len();
    let mut out: Vec<CalendarEvent> = Vec::new();
    let mut i: usize = 0;
    assert(birthdays@.take(0) =~= Seq::<Birthday>::empty());
    while i < n
        invariant
            n == birthdays@.len(),
            i <= n,
            valid_date(today),
            day_number(today) + BIRTHDAY_HORIZON_DAYS <= max_day(),
            horizon == day_number(today) + BIRTHDAY_HORIZON_DAYS,
            out@.len() == shown_birthdays(birthdays@.take(i as int), today).len(),
            forall|k: int|
                0 <= k < out@.len() ==> birthday_row(
                    #[trigger] out@[k],
                    shown_birthdays(birthdays@.take(i as int), today)[k].0,
                    shown_birthdays(birthdays@.take(i as int), today)[k].1,
                    today,
                ),
        decreases n - i,
    {
        let person = &birthdays[i];
        let ghost before = shown_birthdays(birthdays@.take(i as int), today);
        assert(birthdays@.take(i + 1).drop_last() =~= birthdays@.take(i as int));
        assert(birthdays@.take(i + 1).last() == birthdays@[i as int]);
        let nv = chars_of(person.name.as_str());
        let (a, b) = trim_bounds(&nv);
        if a == b {
            i = i + 1;
            continue;
        }
        let next = match next_occurrence(person.dob, today) {
            Some(d) => d,
            None => {
                i = i + 1;
                continue;
            },
        };
        if day_number_of(next) > horizon {
            i = i + 1;
            continue;
        }
        let name = string_in(&nv, a, b);
        let age = signed_decimal_string(next.year as i64 - person.dob.year as i64);
        let mut title = String::new();
        push_str(&mut title, name.as_str());
        push_str(&mut title, " turns ");
        push_str(&mut title, age.as_str());
        assert(Seq::<char>::empty() + name@ =~= name@);
        let event = CalendarEvent {
            start: String::new(),
            title: truncate_event_title(title.as_str()),
            all_day: true,
            day_label: day_label(next, today),
            date: format_date(next, "%Y-%m-%d"),
            birthday: true,
            school: false,
            recurring: false,
            bin: false,
        };
        let ghost prev = out@;
        out.push(event);
        proof {
            assert(shown_birthdays(birthdays@.take(i + 1), today) == before.push((birthdays@[i as int], next)));
            assert forall|k: int| 0 <= k < out@.len() implies birthday_row(
                #[trigger] out@[k],
                shown_birthdays(birthdays@.take(i + 1), today)[k].0,
                shown_birthdays(birthdays@.take(i + 1), today)[k].1,
                today,
            ) by {
                if k < prev.len() {
                    assert(out@[k] == prev[k]);
                    assert(birthday_row(prev[k], before[k].0, before[k].1, today));
                }
            }
        }
        i = i + 1;
    }
    assert(birthdays@.take(n as int) =~= birthdays@);
    out
}

/// A 29 February birthday shows on 28 February in years without a leap
/// day, and on the day itself in leap years.
pub proof fn lemma_leap_day_birthday(born: i32, year: i32)
    requires
        -262143 <= year <= 262142,
    ensures
        !crate::server::dates::leap(year as int) ==> birthday_in_year_of(
            Date { year: born, month: 2, day: 29 },
            year as int,
        ) == Some(Date { year, month: 2, day: 28 }),
        crate::server::dates::leap(year as int) ==> birthday_in_year_of(
            Date { year: born, month: 2, day: 29 },
            year as int,
        ) == Some(Date { year, month: 2, day: 29 }),
{
}

} // verus!
