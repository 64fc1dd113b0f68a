//! Calendar rows from an iCalendar feed: icalendar parses the text, rrule
//! expands repeating events and chrono-tz places wall-clock times; which
//! events show, on which days, with which labels and in which order is
//! decided here.

use vstd::prelude::*;
use chrono::{Datelike, Timelike};
use icalendar::{CalendarDateTime, Component, DatePerhapsTime};
use crate::server::dates::{date_text, day_number, day_number_of, format_date, max_day, min_day, valid_date, Date};
use crate::server::frame::UtcStamp;
use crate::server::household::{is_known_timezone, tz_known};
use crate::server::schedule::{
    local_clock, local_clock_at, local_instant_of, local_to_utc, utc_day, within_a_day, LocalInstant,
};
use crate::server::model::{event_title_of, events_sorted, sort_events, truncate_event_title, CalendarEvent};
use crate::server::wakes::{hhmm, WakeTime};
use crate::text::{push_str, same_text, trim};

verus! {

/// The same calendar date.
pub fn same_date(a: Date, b: Date) -> (r: bool)
    ensures
        r == (a == b),
{
    a.year == b.year && a.month == b.month && a.day == b.day
}

/// Day label of a calendar row: `Today`, `Tomorrow`, the weekday and day
/// within this month, day and month within this year, else with the year.
pub open spec fn day_label_of(date: Date, today: Date) -> Seq<char> {
    if date == today {
        "Today"@
    } else if day_number(date) == day_number(today) + 1 {
        "Tomorrow"@
    } else if date.year == today.year && date.month == today.month {
        date_text(date.year, date.month, date.day, "%a %-d"@)
    } else if date.year == today.year {
        date_text(date.year, date.month, date.day, "%-d %b"@)
    } else {
        date_text(date.year, date.month, date.day, "%-d %b %Y"@)
    }
}

fn text(s: &str) -> (r: String)
    ensures
        r@ == s@,
{
    let mut t = String::new();
    push_str(&mut t, s);
    assert(Seq::<char>::empty() + s@ =~= s@);
    t
}

pub fn day_label(date: Date, today: Date) -> (r: String)
    requires
        valid_date(date),
        valid_date(today),
        date == today || day_number(today) < max_day(),
    ensures
        r@ == day_label_of(date, today),
{
    if same_date(date, today) {
        return text("Today");
    }
    if day_number_of(date) == day_number_of(today) + 1 {
        return text("Tomorrow");
    }
    if date.year == today.year && date.month == today.month {
        format_date(date, "%a %-d")
    } else if date.year == today.year {
        format_date(date, "%-d %b")
    } else {
        format_date(date, "%-d %b %Y")
    }
}


/// An iCalendar property: key, value, parameters (key, value) in key
/// order, and whether the parser files it among the repeatable ones.
pub struct PropModel {
    pub key: Seq<char>,
    pub value: Seq<char>,
    pub params: Seq<(Seq<char>, Seq<char>)>,
    pub multi: bool,
}

/// A start, end or recurrence time of an event: a UTC instant (seconds
/// since the epoch), a wall-clock time without a zone, a wall-clock time
/// in a named zone (date and second of the day), or a whole day.
pub enum TimeModel {
    Utc(i64),
    Floating(Date, u32),
    Zoned(Date, u32, Seq<char>),
    AllDay(Date),
}

/// A property as the parser gives it.
pub struct IcsProp {
    pub key: String,
    pub value: String,
    pub params: Vec<(String, String)>,
    pub multi: bool,
}

/// A time as `DatePerhapsTime` gives it.
pub enum IcsTime {
    Utc(i64),
    Floating(Date, u32),
    Zoned(Date, u32, String),
    AllDay(Date),
}

pub open spec fn param_models(ps: Seq<(String, String)>) -> Seq<(Seq<char>, Seq<char>)> {
    ps.map_values(|p: (String, String)| (p.0@, p.1@))
}

impl IcsProp {
    pub open spec fn model(self) -> PropModel {
        PropModel { key: self.key@, value: self.value@, params: param_models(self.params@), multi: self.multi }
    }
}

/// The properties of a component; `None` for a component that is not an event.
pub open spec fn component_model(c: Option<Vec<IcsProp>>) -> Option<Seq<PropModel>> {
    match c {
        Some(ps) => Some(ps@.map_values(|p: IcsProp| p.model())),
        None => None,
    }
}

impl IcsTime {
    pub open spec fn model(self) -> TimeModel {
        match self {
            IcsTime::Utc(t) => TimeModel::Utc(t),
            IcsTime::Floating(d, s) => TimeModel::Floating(d, s),
            IcsTime::Zoned(d, s, z) => TimeModel::Zoned(d, s, z@),
            IcsTime::AllDay(d) => TimeModel::AllDay(d),
        }
    }
}

/// A date and second of the day chrono holds.
pub open spec fn valid_time_model(t: TimeModel) -> bool {
    match t {
        TimeModel::Utc(_) => true,
        TimeModel::Floating(d, s) => valid_date(d) && s < 86400,
        TimeModel::Zoned(d, s, _) => valid_date(d) && s < 86400,
        TimeModel::AllDay(d) => valid_date(d),
    }
}

/// What `icalendar::Calendar::from_str` gives: each component's properties
/// (`None` for a component that is not an event), or the parser's message.
pub uninterp spec fn calendar_of(ics: Seq<char>) -> Result<Seq<Option<Seq<PropModel>>>, Seq<char>>;

/// What `DatePerhapsTime::from_property` gives for a property.
pub uninterp spec fn property_time_of(key: Seq<char>, value: Seq<char>, params: Seq<(Seq<char>, Seq<char>)>) -> Option<TimeModel>;

/// `icalendar::Calendar::from_str`: the calendar's components in order;
/// for an event, its properties (one per key, in key order) and then its
/// repeatable ones (by key, in the order read); `None` for any other
/// component; the parser's message when the text is not a calendar.
#[verifier::external_body]
fn read_calendar(ics: &str) -> (r: Result<Vec<Option<Vec<IcsProp>>>, String>)
    ensures
        match r {
            Ok(cs) => calendar_of(ics@) == Ok::<Seq<Option<Seq<PropModel>>>, Seq<char>>(
                cs@.map_values(|c: Option<Vec<IcsProp>>| component_model(c)),
            ),
            Err(e) => calendar_of(ics@) == Err::<Seq<Option<Seq<PropModel>>>, Seq<char>>(e@),
        },
{
    let cal: icalendar::Calendar = ics.parse()?;
    let prop = |p: &icalendar::Property, multi: bool| IcsProp {
        key: p.key().to_string(),
        value: p.value().to_string(),
        params: p.params().values().map(|q| (q.key().to_string(), q.value().to_string())).collect(),
        multi,
    };
    Ok(cal.components.iter().map(|c| c.as_event().map(|e| {
        let one = e.properties().values().map(|p| prop(p, false));
        one.chain(e.multi_properties().values().flatten().map(|p| prop(p, true))).collect()
    })).collect())
}

/// `DatePerhapsTime::from_property` on `Property::new(key, value)` with the
/// parameters added: a date, or a UTC, floating or zoned date-time, to the
/// second.
#[verifier::external_body]
fn property_time(key: &str, value: &str, params: &Vec<(String, String)>) -> (r: Option<IcsTime>)
    ensures
        match r {
            Some(t) => property_time_of(key@, value@, param_models(params@)) == Some(t.model())
                && valid_time_model(t.model()),
            None => property_time_of(key@, value@, param_models(params@)) is None,
        },
{
    let mut p = icalendar::Property::new(key, value);
    for (k, v) in params { p.add_parameter(k, v); }
    let day = |d: chrono::NaiveDate| Date { year: d.year(), month: d.month(), day: d.day() };
    Some(match DatePerhapsTime::from_property(&p)? {
        DatePerhapsTime::Date(d) => IcsTime::AllDay(day(d)),
        DatePerhapsTime::DateTime(CalendarDateTime::Utc(t)) => IcsTime::Utc(t.timestamp()),
        DatePerhapsTime::DateTime(CalendarDateTime::Floating(t)) => IcsTime::Floating(day(t.date()), t.num_seconds_from_midnight()),
        DatePerhapsTime::DateTime(CalendarDateTime::WithTimezone { date_time: t, tzid }) =>
            IcsTime::Zoned(day(t.date()), t.num_seconds_from_midnight(), tzid),
    })
}

/// The models of a list of properties.
pub open spec fn prop_models(ps: Seq<IcsProp>) -> Seq<PropModel> {
    ps.map_values(|p: IcsProp| p.model())
}

/// The property named `key` (not a repeatable one), as
/// `Component::properties().get(key)` finds it.
pub open spec fn find_prop(ps: Seq<PropModel>, key: Seq<char>) -> Option<PropModel>
    decreases ps.len(),
{
    if ps.len() == 0 {
        None
    } else if !ps[0].multi && ps[0].key == key {
        Some(ps[0])
    } else {
        find_prop(ps.drop_first(), key)
    }
}

/// The value of the property named `key` (`Component::property_value`).
pub open spec fn prop_value(ps: Seq<PropModel>, key: Seq<char>) -> Option<Seq<char>> {
    match find_prop(ps, key) {
        Some(p) => Some(p.value),
        None => None,
    }
}

/// The repeatable properties named `key`, in order.
pub open spec fn multi_props(ps: Seq<PropModel>, key: Seq<char>) -> Seq<PropModel>
    decreases ps.len(),
{
    if ps.len() == 0 {
        Seq::empty()
    } else {
        let rest = multi_props(ps.drop_last(), key);
        if ps.last().multi && ps.last().key == key {
            rest.push(ps.last())
        } else {
            rest
        }
    }
}

/// Every property named `key`: the repeatable ones when there are any,
/// else the single one.
pub open spec fn props_named(ps: Seq<PropModel>, key: Seq<char>) -> Seq<PropModel> {
    let m = multi_props(ps, key);
    if m.len() > 0 {
        m
    } else {
        match find_prop(ps, key) {
            Some(p) => seq![p],
            None => Seq::empty(),
        }
    }
}

/// The time a property holds.
pub open spec fn prop_time(p: PropModel) -> Option<TimeModel> {
    property_time_of(p.key, p.value, p.params)
}

/// The time held by the property named `key` (`get_start` for `DTSTART`,
/// `get_recurrence_id` for `RECURRENCE-ID`).
pub open spec fn time_prop(ps: Seq<PropModel>, key: Seq<char>) -> Option<TimeModel> {
    match find_prop(ps, key) {
        Some(p) => prop_time(p),
        None => None,
    }
}

/// Position of the property named `key` (not a repeatable one).
fn find_prop_at(ps: &Vec<IcsProp>, key: &str) -> (r: Option<usize>)
    ensures
        match r {
            Some(i) => i < ps@.len() && find_prop(prop_models(ps@), key@) == Some(ps@[i as int].model()),
            None => find_prop(prop_models(ps@), key@) is None,
        },
{
    let n = ps.len();
    let mut i: usize = 0;
    assert(prop_models(ps@).skip(0) =~= prop_models(ps@));
    while i < n
        invariant
            n == ps@.len(),
            i <= n,
            find_prop(prop_models(ps@), key@) == find_prop(prop_models(ps@).skip(i as int), key@),
        decreases n - i,
    {
        let ghost rest = prop_models(ps@).skip(i as int);
        assert(rest[0] == ps@[i as int].model());
        if !ps[i].multi && same_text(ps[i].key.as_str(), key) {
            return Some(i);
        }
        assert(rest.drop_first() =~= prop_models(ps@).skip(i + 1));
        i = i + 1;
    }
    None
}

/// Value of the property named `key`.
fn prop_value_of<'a>(ps: &'a Vec<IcsProp>, key: &str) -> (r: Option<&'a String>)
    ensures
        match r {
            Some(v) => prop_value(prop_models(ps@), key@) == Some(v@),
            None => prop_value(prop_models(ps@), key@) is None,
        },
{
    match find_prop_at(ps, key) {
        Some(i) => Some(&ps[i].value),
        None => None,
    }
}

/// Positions of the properties named `key` ([`props_named`]).
fn properties_named(ps: &Vec<IcsProp>, key: &str) -> (r: Vec<usize>)
    ensures
        r@.len() == props_named(prop_models(ps@), key@).len(),
        forall|j: int| 0 <= j < r@.len() ==> (#[trigger] r@[j]) < ps@.len()
            && ps@[r@[j] as int].model() == props_named(prop_models(ps@), key@)[j],
{
    let n = ps.len();
    let mut out: Vec<usize> = Vec::new();
    let mut i: usize = 0;
    while i < n
        invariant
            n == ps@.len(),
            i <= n,
            out@.len() == multi_props(prop_models(ps@).take(i as int), key@).len(),
            forall|j: int| 0 <= j < out@.len() ==> (#[trigger] out@[j]) < n
                && ps@[out@[j] as int].model() == multi_props(prop_models(ps@).take(i as int), key@)[j],
        decreases n - i,
    {
        let ghost ms = prop_models(ps@);
        assert(ms.take(i + 1).drop_last() =~= ms.take(i as int));
        assert(ms.take(i + 1).last() == ps@[i as int].model());
        if ps[i].multi && same_text(ps[i].key.as_str(), key) {
            out.push(i);
        }
        i = i + 1;
    }
    assert(prop_models(ps@).take(n as int) =~= prop_models(ps@));
    if out.len() > 0 {
        return out;
    }
    match find_prop_at(ps, key) {
        Some(k) => {
            let mut one: Vec<usize> = Vec::new();
            one.push(k);
            one
        },
        None => Vec::new(),
    }
}

/// The time a property holds.
fn prop_time_exec(p: &IcsProp) -> (r: Option<IcsTime>)
    ensures
        match r {
            Some(t) => prop_time(p.model()) == Some(t.model()) && valid_time_model(t.model()),
            None => prop_time(p.model()) is None,
        },
{
    property_time(p.key.as_str(), p.value.as_str(), &p.params)
}

/// The time held by the property named `key`.
fn time_prop_exec(ps: &Vec<IcsProp>, key: &str) -> (r: Option<IcsTime>)
    ensures
        match r {
            Some(t) => time_prop(prop_models(ps@), key@) == Some(t.model()) && valid_time_model(t.model()),
            None => time_prop(prop_models(ps@), key@) is None,
        },
{
    match find_prop_at(ps, key) {
        Some(i) => prop_time_exec(&ps[i]),
        None => None,
    }
}

/// The instant a wall-clock time stands for when there is exactly one
/// (`LocalResult::single`).
pub open spec fn single(li: LocalInstant) -> Option<i64> {
    match li {
        LocalInstant::Single(t) => Some(t),
        _ => None,
    }
}

/// The zone a `TZID` names, or the calendar's own zone when chrono-tz does
/// not know that name.
pub open spec fn zone_for(tzid: Seq<char>, tz: Seq<char>) -> Seq<char> {
    if tz_known(tzid) {
        tzid
    } else {
        tz
    }
}

/// The instant of an event time in zone `tz`, and whether it is a whole
/// day; none for a wall-clock time that zone skips or repeats.
pub open spec fn to_local(t: TimeModel, tz: Seq<char>) -> Option<(i64, bool)> {
    match t {
        TimeModel::Utc(s) => Some((s, false)),
        TimeModel::Floating(d, s) => match single(local_instant_of(tz, d.year, d.month, d.day, s)) {
            Some(x) => Some((x, false)),
            None => None,
        },
        TimeModel::Zoned(d, s, z) => match single(local_instant_of(zone_for(z, tz), d.year, d.month, d.day, s)) {
            Some(x) => Some((x, false)),
            None => None,
        },
        TimeModel::AllDay(d) => match single(local_instant_of(tz, d.year, d.month, d.day, 0)) {
            Some(x) => Some((x, true)),
            None => None,
        },
    }
}

/// An event time carrying a `TZID` that chrono-tz knows is read in that
/// zone: it is the instant of its wall clock there, the same whatever the
/// household zone; only an unknown `TZID` falls back to the household zone,
/// where the time reads as a floating one. UTC times ignore the zone.
pub proof fn lemma_zoned_time_keeps_its_zone(d: Date, secs: u32, z: Seq<char>, tz1: Seq<char>, tz2: Seq<char>, u: i64)
    ensures
        tz_known(z) ==> to_local(TimeModel::Zoned(d, secs, z), tz1) == to_local(TimeModel::Zoned(d, secs, z), tz2),
        tz_known(z) ==> to_local(TimeModel::Zoned(d, secs, z), tz1) == match local_instant_of(z, d.year, d.month, d.day, secs) {
            LocalInstant::Single(t) => Some((t, false)),
            _ => None,
        },
        !tz_known(z) ==> to_local(TimeModel::Zoned(d, secs, z), tz1) == to_local(TimeModel::Floating(d, secs), tz1),
        to_local(TimeModel::Utc(u), tz1) == to_local(TimeModel::Utc(u), tz2),
{
}

fn date_to_local(t: &IcsTime, tz: &str) -> (r: Option<(i64, bool)>)
    requires
        valid_time_model(t.model()),
    ensures
        r == to_local(t.model(), tz@),
{
    match t {
        IcsTime::Utc(s) => Some((*s, false)),
        IcsTime::Floating(d, s) => match local_to_utc(tz, *d, *s) {
            LocalInstant::Single(x) => Some((x, false)),
            _ => None,
        },
        IcsTime::Zoned(d, s, z) => {
            let zone: &str = if is_known_timezone(z.as_str()) {
                z.as_str()
            } else {
                tz
            };
            match local_to_utc(zone, *d, *s) {
                LocalInstant::Single(x) => Some((x, false)),
                _ => None,
            }
        },
        IcsTime::AllDay(d) => match local_to_utc(tz, *d, 0) {
            LocalInstant::Single(x) => Some((x, true)),
            _ => None,
        },
    }
}

/// `v` split at every comma (`str::split(',')`).
pub open spec fn split_commas(v: Seq<char>) -> Seq<Seq<char>>
    decreases v.len(),
{
    if v.len() == 0 {
        seq![Seq::<char>::empty()]
    } else {
        let s = split_commas(v.drop_last());
        if v.last() == ',' {
            s.push(Seq::empty())
        } else {
            s.update(s.len() - 1, s.last().push(v.last()))
        }
    }
}

proof fn lemma_split_commas_len(v: Seq<char>)
    ensures
        split_commas(v).len() >= 1,
    decreases v.len(),
{
    if v.len() > 0 {
        lemma_split_commas_len(v.drop_last());
    }
}

pub open spec fn texts_of(v: Seq<String>) -> Seq<Seq<char>> {
    v.map_values(|x: String| x@)
}

pub(crate) fn split_commas_exec(s: &str) -> (r: Vec<String>)
    ensures
        texts_of(r@) == split_commas(s@),
{
    let v = crate::text::chars_of(s);
    let n = v.len();
    let mut parts: Vec<String> = Vec::new();
    let mut cur = String::new();
    let mut i: usize = 0;
    assert(v@.take(0) =~= Seq::<char>::empty());
    assert(texts_of(parts@).push(cur@) =~= split_commas(v@.take(0)));
    while i < n
        invariant
            n == v@.len(),
            i <= n,
            texts_of(parts@).push(cur@) == split_commas(v@.take(i as int)),
        decreases n - i,
    {
        let ghost before = texts_of(parts@);
        proof {
            lemma_split_commas_len(v@.take(i as int));
        }
        assert(v@.take(i + 1).drop_last() =~= v@.take(i as int));
        assert(v@.take(i + 1).last() == v@[i as int]);
        if v[i] == ',' {
            let done = cur;
            parts.push(done);
            cur = String::new();
            assert(texts_of(parts@) =~= before.push(done@));
        } else {
            crate::text::push_char(&mut cur, v[i]);
            assert(texts_of(parts@) =~= before);
        }
        i = i + 1;
    }
    assert(v@.take(n as int) =~= v@);
    let ghost before = texts_of(parts@);
    let last = cur;
    parts.push(last);
    assert(texts_of(parts@) =~= before.push(last@));
    parts
}

/// The instants listed in `parts` of a property's value (each trimmed,
/// empty ones skipped), read as that property's times.
pub open spec fn part_instants(parts: Seq<Seq<char>>, p: PropModel, tz: Seq<char>) -> Seq<i64>
    decreases parts.len(),
{
    if parts.len() == 0 {
        Seq::empty()
    } else {
        let rest = part_instants(parts.drop_last(), p, tz);
        let part = trim(parts.last());
        if part.len() == 0 {
            rest
        } else {
            match prop_time(PropModel { value: part, ..p }) {
                Some(t) => match to_local(t, tz) {
                    Some((l, _)) => rest.push(l),
                    None => rest,
                },
                None => rest,
            }
        }
    }
}

/// The instants a list-valued property holds (`RDATE`, `EXDATE`).
pub open spec fn prop_instants(p: PropModel, tz: Seq<char>) -> Seq<i64> {
    part_instants(split_commas(p.value), p, tz)
}

pub open spec fn props_instants(qs: Seq<PropModel>, tz: Seq<char>) -> Seq<i64>
    decreases qs.len(),
{
    if qs.len() == 0 {
        Seq::empty()
    } else {
        props_instants(qs.drop_last(), tz) + prop_instants(qs.last(), tz)
    }
}

/// Every instant the properties named `key` list.
pub open spec fn extra_dates_of(ps: Seq<PropModel>, key: Seq<char>, tz: Seq<char>) -> Seq<i64> {
    props_instants(props_named(ps, key), tz)
}

fn datetimes_from_property(p: &IcsProp, tz: &str) -> (r: Vec<i64>)
    ensures
        r@ == prop_instants(p.model(), tz@),
{
    let parts = split_commas_exec(p.value.as_str());
    let n = parts.len();
    let mut out: Vec<i64> = Vec::new();
    let mut i: usize = 0;
    let ghost all = texts_of(parts@);
    assert(all.take(0) =~= Seq::<Seq<char>>::empty());
    while i < n
        invariant
            n == parts@.len(),
            all == texts_of(parts@),
            all == split_commas(p.value@),
            i <= n,
            out@ == part_instants(all.take(i as int), p.model(), tz@),
        decreases n - i,
    {
        assert(all.take(i + 1).drop_last() =~= all.take(i as int));
        assert(all.take(i + 1).last() == parts@[i as int]@);
        let v = crate::text::chars_of(parts[i].as_str());
        let (lo, hi) = crate::text::trim_bounds(v.as_slice());
        if lo < hi {
            let part = crate::text::string_in(v.as_slice(), lo, hi);
            match property_time(p.key.as_str(), part.as_str(), &p.params) {
                Some(t) => match date_to_local(&t, tz) {
                    Some((l, _)) => {
                        out.push(l);
                    },
                    None => {},
                },
                None => {},
            }
        }
        i = i + 1;
    }
    assert(all.take(n as int) =~= all);
    out
}

fn extra_dates(ps: &Vec<IcsProp>, key: &str, tz: &str) -> (r: Vec<i64>)
    ensures
        r@ == extra_dates_of(prop_models(ps@), key@, tz@),
{
    let idx = properties_named(ps, key);
    let ghost named = props_named(prop_models(ps@), key@);
    let n = idx.len();
    let mut out: Vec<i64> = Vec::new();
    let mut j: usize = 0;
    assert(named.take(0) =~= Seq::<PropModel>::empty());
    while j < n
        invariant
            n == idx@.len(),
            n == named.len(),
            named == props_named(prop_models(ps@), key@),
            forall|k: int| 0 <= k < n ==> (#[trigger] idx@[k]) < ps@.len() && ps@[idx@[k] as int].model() == named[k],
            j <= n,
            out@ == props_instants(named.take(j as int), tz@),
        decreases n - j,
    {
        assert(named.take(j + 1).drop_last() =~= named.take(j as int));
        let k = idx[j];
        assert(named.take(j + 1).last() == ps@[k as int].model());
        let more = datetimes_from_property(&ps[k], tz);
        let ghost before = out@;
        let mut m: usize = 0;
        while m < more.len()
            invariant
                m <= more@.len(),
                out@ == before + more@.take(m as int),
            decreases more@.len() - m,
        {
            out.push(more[m]);
            assert(more@.take(m + 1) =~= more@.take(m as int).push(more@[m as int]));
            m = m + 1;
        }
        assert(more@.take(more@.len() as int) =~= more@);
        j = j + 1;
    }
    assert(named.take(n as int) =~= named);
    out
}

/// A property written back as a content line: key, `;key=value` for each
/// parameter, `:` and the value.
pub open spec fn params_text(ps: Seq<(Seq<char>, Seq<char>)>) -> Seq<char>
    decreases ps.len(),
{
    if ps.len() == 0 {
        Seq::empty()
    } else {
        params_text(ps.drop_last()) + ";"@ + ps.last().0 + "="@ + ps.last().1
    }
}

pub open spec fn format_prop(p: PropModel) -> Seq<char> {
    p.key + params_text(p.params) + ":"@ + p.value
}

fn format_property(p: &IcsProp) -> (r: String)
    ensures
        r@ == format_prop(p.model()),
{
    let mut out = String::new();
    push_str(&mut out, p.key.as_str());
    assert(out@ =~= p.key@);
    let n = p.params.len();
    let ghost ps = param_models(p.params@);
    let mut i: usize = 0;
    assert(ps.take(0) =~= Seq::<(Seq<char>, Seq<char>)>::empty());
    while i < n
        invariant
            n == p.params@.len(),
            ps == param_models(p.params@),
            i <= n,
            out@ == p.key@ + params_text(ps.take(i as int)),
        decreases n - i,
    {
        assert(ps.take(i + 1).drop_last() =~= ps.take(i as int));
        assert(ps.take(i + 1).last() == (p.params@[i as int].0@, p.params@[i as int].1@));
        let ghost before = out@;
        push_str(&mut out, ";");
        push_str(&mut out, p.params[i].0.as_str());
        push_str(&mut out, "=");
        push_str(&mut out, p.params[i].1.as_str());
        assert(out@ =~= before + ";"@ + p.params@[i as int].0@ + "="@ + p.params@[i as int].1@);
        i = i + 1;
    }
    assert(ps.take(n as int) =~= ps);
    let ghost before = out@;
    push_str(&mut out, ":");
    push_str(&mut out, p.value.as_str());
    assert(out@ =~= before + ":"@ + p.value@);
    out
}

/// No line break in `s`.
pub open spec fn no_newline(s: Seq<char>) -> bool {
    forall|i: int| 0 <= i < s.len() ==> s[i] != '\n'
}

/// A `DTSTART` property rrule reads without the machine's zone: it names
/// its zone (`TZID`) or is UTC (ends in `Z`), and holds no line break.
/// (Without either, rrule reads the start in the machine's local zone.)
pub open spec fn start_prop_fixed(p: PropModel) -> bool {
    &&& (exists|i: int| 0 <= i < p.params.len() && (#[trigger] p.params[i]).0 == "TZID"@) || (p.value.len() > 0
        && p.value.last() == 'Z')
    &&& no_newline(p.key)
    &&& no_newline(p.value)
    &&& forall|i: int| 0 <= i < p.params.len() ==> no_newline((#[trigger] p.params[i]).0) && no_newline(p.params[i].1)
}

/// The text handed to rrule: the `DTSTART` line, then the `RRULE` line.
pub open spec fn rule_blob_of(p: PropModel, r: Seq<char>) -> Seq<char> {
    format_prop(p) + "\nRRULE:"@ + r
}

/// A rule text whose start rrule reads without the machine's zone.
pub open spec fn fixed_rule_blob(blob: Seq<char>) -> bool {
    exists|p: PropModel, r: Seq<char>| start_prop_fixed(p) && no_newline(r) && #[trigger] rule_blob_of(p, r) == blob
}

/// An event whose rule, if any, has a start of fixed zone.
pub open spec fn rule_start_fixed(ps: Seq<PropModel>) -> bool {
    match (prop_value(ps, "RRULE"@), find_prop(ps, "DTSTART"@)) {
        (Some(r), Some(p)) => start_prop_fixed(p) && no_newline(r),
        _ => true,
    }
}

/// Every event of the calendar has such a rule, or none.
pub open spec fn rules_fixed(cs: Seq<Option<Seq<PropModel>>>) -> bool {
    forall|i: int| 0 <= i < cs.len() ==> match #[trigger] cs[i] {
        Some(ps) => rule_start_fixed(ps),
        None => true,
    }
}

/// For a rule text whose start names its zone or is UTC, what
/// `RRuleSet::from_str(blob)` gives once the `exdates` and `rdates`
/// are added (`exdate`, `rdate`), limited to after `after` and before
/// `before` and listed with `all(u16::MAX)`, as seconds since the epoch;
/// `None` when the rule does not parse.
pub uninterp spec fn rule_dates(
    blob: Seq<char>,
    exdates: Seq<i64>,
    rdates: Seq<i64>,
    after_secs: i64,
    after_nanos: u32,
    before: i64,
) -> Option<Seq<i64>>;

/// `rrule::RRuleSet`: parse the rule, add the excluded and extra dates in
/// the rule's own zone, and list the occurrences strictly between `after`
/// and `before`. What it lists is stated only for a rule text whose start
/// names its zone or is UTC: rrule reads a start with neither in the
/// machine's local zone, and nothing is said of that result.
#[verifier::external_body]
fn expand_rule(blob: &str, exdates: &[i64], rdates: &[i64], after: UtcStamp, before: i64) -> (r: Option<Vec<i64>>)
    ensures
        fixed_rule_blob(blob@) ==> match r {
            Some(v) => rule_dates(blob@, exdates@, rdates@, after.secs, after.nanos, before) == Some(v@),
            None => rule_dates(blob@, exdates@, rdates@, after.secs, after.nanos, before) is None,
        },
{
    let mut set: rrule::RRuleSet = blob.parse().ok()?;
    let zone = set.get_dt_start().timezone();
    let at = |s: i64, n: u32| chrono::DateTime::from_timestamp(s, n).map(|t| t.with_timezone(&zone));
    for s in exdates { set = set.exdate(at(*s, 0)?); }
    for s in rdates { set = set.rdate(at(*s, 0)?); }
    let found = set.after(at(after.secs, after.nanos)?).before(at(before, 0)?).all(u16::MAX);
    Some(found.dates.iter().map(|d| d.timestamp()).collect())
}

/// `t` lies in the window from `ws` (included) to `we` (excluded).
pub open spec fn in_window(t: int, ws: int, we: int) -> bool {
    ws <= t && t < we
}

/// The instants of `s` inside the window, in order.
pub open spec fn window_only(s: Seq<i64>, ws: int, we: int) -> Seq<i64>
    decreases s.len(),
{
    if s.len() == 0 {
        s
    } else {
        let rest = window_only(s.drop_last(), ws, we);
        if in_window(s.last() as int, ws, we) {
            rest.push(s.last())
        } else {
            rest
        }
    }
}

/// The text rrule reads: the `DTSTART` line and the `RRULE` line.
pub open spec fn rule_blob(ps: Seq<PropModel>) -> Option<Seq<char>> {
    match (prop_value(ps, "RRULE"@), find_prop(ps, "DTSTART"@)) {
        (Some(r), Some(p)) => Some(rule_blob_of(p, r)),
        _ => None,
    }
}

/// The occurrences rrule lists for a repeating event in the window
/// (starting a nanosecond before it, since `after` excludes its bound).
pub open spec fn expanded(ps: Seq<PropModel>, tz: Seq<char>, ws: int, we: int) -> Option<Seq<i64>> {
    match rule_blob(ps) {
        Some(b) => rule_dates(
            b,
            extra_dates_of(ps, "EXDATE"@, tz),
            extra_dates_of(ps, "RDATE"@, tz),
            (ws - 1) as i64,
            999_999_999u32,
            we as i64,
        ),
        None => None,
    }
}

/// The occurrences of an event: without `RRULE`, its start and its
/// `RDATE`s inside the window; with one, what rrule listed (`rd`), or the
/// start alone when it listed nothing.
pub open spec fn occurrences_with(ps: Seq<PropModel>, tz: Seq<char>, ws: int, we: int, rd: Option<Seq<i64>>) -> Seq<i64> {
    match time_prop(ps, "DTSTART"@) {
        None => Seq::empty(),
        Some(t) => match to_local(t, tz) {
            None => Seq::empty(),
            Some((dt, _)) => {
                let own = if in_window(dt as int, ws, we) {
                    seq![dt]
                } else {
                    Seq::empty()
                };
                if prop_value(ps, "RRULE"@) is None {
                    own + window_only(extra_dates_of(ps, "RDATE"@, tz), ws, we)
                } else {
                    match rd {
                        Some(d) => d,
                        None => own,
                    }
                }
            },
        },
    }
}

/// The occurrences of an event when rrule lists [`expanded`].
pub open spec fn occurrences(ps: Seq<PropModel>, tz: Seq<char>, ws: int, we: int) -> Seq<i64> {
    occurrences_with(ps, tz, ws, we, expanded(ps, tz, ws, we))
}

fn window_only_exec(s: &Vec<i64>, ws: i64, we: i64) -> (r: Vec<i64>)
    ensures
        r@ == window_only(s@, ws as int, we as int),
{
    let n = s.len();
    let mut out: Vec<i64> = Vec::new();
    let mut i: usize = 0;
    assert(s@.take(0) =~= Seq::<i64>::empty());
    while i < n
        invariant
            n == s@.len(),
            i <= n,
            out@ == window_only(s@.take(i as int), ws as int, we as int),
        decreases n - i,
    {
        assert(s@.take(i + 1).drop_last() =~= s@.take(i as int));
        assert(s@.take(i + 1).last() == s@[i as int]);
        if ws <= s[i] && s[i] < we {
            out.push(s[i]);
        }
        i = i + 1;
    }
    assert(s@.take(n as int) =~= s@);
    out
}

fn expand_occurrences(ps: &Vec<IcsProp>, tz: &str, ws: i64, we: i64) -> (r: Vec<i64>)
    requires
        ws > i64::MIN,
    ensures
        exists|rd: Option<Seq<i64>>|
            (rule_start_fixed(prop_models(ps@)) ==> rd == expanded(prop_models(ps@), tz@, ws as int, we as int))
                && r@ == #[trigger] occurrences_with(prop_models(ps@), tz@, ws as int, we as int, rd),
{
    let ghost pm = prop_models(ps@);
    let start = match time_prop_exec(ps, "DTSTART") {
        Some(t) => t,
        None => {
            let e: Vec<i64> = Vec::new();
            assert(e@ =~= occurrences_with(pm, tz@, ws as int, we as int, expanded(pm, tz@, ws as int, we as int)));
            return e;
        },
    };
    let dt = match date_to_local(&start, tz) {
        Some((d, _)) => d,
        None => {
            let e: Vec<i64> = Vec::new();
            assert(e@ =~= occurrences_with(pm, tz@, ws as int, we as int, expanded(pm, tz@, ws as int, we as int)));
            return e;
        },
    };
    let mut own: Vec<i64> = Vec::new();
    if ws <= dt && dt < we {
        own.push(dt);
    }
    let rule = prop_value_of(ps, "RRULE");
    match rule {
        None => {
            let extra = extra_dates(ps, "RDATE", tz);
            let more = window_only_exec(&extra, ws, we);
            let ghost before = own@;
            let mut m: usize = 0;
            while m < more.len()
                invariant
                    m <= more@.len(),
                    own@ == before + more@.take(m as int),
                decreases more@.len() - m,
            {
                own.push(more[m]);
                assert(more@.take(m + 1) =~= more@.take(m as int).push(more@[m as int]));
                m = m + 1;
            }
            assert(more@.take(more@.len() as int) =~= more@);
            assert(own@ == occurrences_with(pm, tz@, ws as int, we as int, expanded(pm, tz@, ws as int, we as int)));
            own
        },
        Some(r) => {
            let i = match find_prop_at(ps, "DTSTART") {
                Some(i) => i,
                None => {
                    assert(own@ == occurrences_with(pm, tz@, ws as int, we as int, expanded(pm, tz@, ws as int, we as int)));
                    return own;
                },
            };
            let mut blob = format_property(&ps[i]);
            let ghost line = blob@;
            push_str(&mut blob, "\nRRULE:");
            push_str(&mut blob, r.as_str());
            assert(blob@ =~= line + "\nRRULE:"@ + r@);
            proof {
                if rule_start_fixed(prop_models(ps@)) {
                    assert(rule_blob_of(ps@[i as int].model(), r@) == blob@);
                }
            }
            let ex = extra_dates(ps, "EXDATE", tz);
            let rd = extra_dates(ps, "RDATE", tz);
            match expand_rule(blob.as_str(), ex.as_slice(), rd.as_slice(), UtcStamp { secs: ws - 1, nanos: 999_999_999 }, we) {
                Some(d) => {
                    assert(d@ == occurrences_with(pm, tz@, ws as int, we as int, Some(d@)));
                    d
                },
                None => {
                    assert(own@ == occurrences_with(pm, tz@, ws as int, we as int, None));
                    own
                },
            }
        },
    }
}

/// The event's title (`SUMMARY`).
pub open spec fn summary_of(ps: Seq<PropModel>) -> Option<Seq<char>> {
    prop_value(ps, "SUMMARY"@)
}

/// An event with a title and a start, the only ones shown.
pub open spec fn listed(ps: Seq<PropModel>) -> bool {
    summary_of(ps) is Some && time_prop(ps, "DTSTART"@) is Some
}

/// A listed event that replaces one occurrence of a series (`RECURRENCE-ID`).
pub open spec fn is_override(ps: Seq<PropModel>) -> bool {
    listed(ps) && time_prop(ps, "RECURRENCE-ID"@) is Some
}

/// A listed event that is not an override: a one-off or a series.
pub open spec fn is_master(ps: Seq<PropModel>) -> bool {
    listed(ps) && time_prop(ps, "RECURRENCE-ID"@) is None
}

/// The series an event belongs to (`UID`, empty when missing).
pub open spec fn uid_of(ps: Seq<PropModel>) -> Seq<char> {
    match prop_value(ps, "UID"@) {
        Some(u) => u,
        None => ""@,
    }
}

/// `STATUS:CANCELLED`.
pub open spec fn cancelled(ps: Seq<PropModel>) -> bool {
    prop_value(ps, "STATUS"@) == Some("CANCELLED"@)
}

/// Part of a series: `RRULE`, `RDATE` or `RECURRENCE-ID`.
pub open spec fn recurring_of(ps: Seq<PropModel>) -> bool {
    prop_value(ps, "RRULE"@) is Some || props_named(ps, "RDATE"@).len() > 0 || time_prop(ps, "RECURRENCE-ID"@)
        is Some
}

/// An instant whose wall-clock date chrono can show in any zone.
pub open spec fn clock_range(l: int) -> bool {
    min_day() < utc_day(l) < max_day()
}

/// What identifies an occurrence for an override: a whole day by its local
/// date at UTC midnight, a timed one by its instant.
pub open spec fn occurrence_key_of(l: i64, all_day: bool, tz: Seq<char>) -> int {
    if all_day && clock_range(l as int) {
        match local_clock_at(l, tz) {
            Some((y, m, d, _)) => (day_number(Date { year: y, month: m, day: d }) - 719163) * 86400,
            None => l as int,
        }
    } else {
        l as int
    }
}

/// The keys of the occurrences that the overrides of series `uid` replace.
pub open spec fn override_keys_of(cs: Seq<Option<Seq<PropModel>>>, uid: Seq<char>, tz: Seq<char>) -> Seq<int>
    decreases cs.len(),
{
    if cs.len() == 0 {
        Seq::empty()
    } else {
        let rest = override_keys_of(cs.drop_last(), uid, tz);
        match cs.last() {
            Some(ps) => if is_override(ps) && uid_of(ps) == uid {
                match to_local(time_prop(ps, "RECURRENCE-ID"@)->0, tz) {
                    Some((l, ad)) => rest.push(occurrence_key_of(l, ad, tz)),
                    None => rest,
                }
            } else {
                rest
            },
            None => rest,
        }
    }
}

/// One calendar row before formatting: the raw title, the instant, whether
/// it is a whole day, and whether it belongs to a series.
pub struct RowModel {
    pub title: Seq<char>,
    pub local: i64,
    pub all_day: bool,
    pub recurring: bool,
}

/// The rows of the occurrences in the window that no override replaces.
pub open spec fn occurrence_rows(
    occ: Seq<i64>,
    ws: int,
    we: int,
    keys: Seq<int>,
    all_day: bool,
    title: Seq<char>,
    recurring: bool,
    tz: Seq<char>,
) -> Seq<RowModel>
    decreases occ.len(),
{
    if occ.len() == 0 {
        Seq::empty()
    } else {
        let rest = occurrence_rows(occ.drop_last(), ws, we, keys, all_day, title, recurring, tz);
        let l = occ.last();
        if in_window(l as int, ws, we) && !keys.contains(occurrence_key_of(l, all_day, tz)) {
            rest.push(RowModel { title, local: l, all_day, recurring })
        } else {
            rest
        }
    }
}

/// The rows of a one-off event or series `ps` of calendar `cs`, when
/// rrule listed `rd` for it.
pub open spec fn master_rows_with(
    cs: Seq<Option<Seq<PropModel>>>,
    ps: Seq<PropModel>,
    tz: Seq<char>,
    ws: int,
    we: int,
    rd: Option<Seq<i64>>,
) -> Seq<RowModel> {
    if !is_master(ps) || cancelled(ps) {
        Seq::empty()
    } else {
        match to_local(time_prop(ps, "DTSTART"@)->0, tz) {
            None => Seq::empty(),
            Some((_, ad)) => occurrence_rows(
                occurrences_with(ps, tz, ws, we, rd),
                ws,
                we,
                override_keys_of(cs, uid_of(ps), tz),
                ad,
                summary_of(ps)->0,
                recurring_of(ps),
                tz,
            ),
        }
    }
}

/// The rows of a one-off event or series when rrule lists [`expanded`].
pub open spec fn master_rows(cs: Seq<Option<Seq<PropModel>>>, ps: Seq<PropModel>, tz: Seq<char>, ws: int, we: int) -> Seq<RowModel> {
    master_rows_with(cs, ps, tz, ws, we, expanded(ps, tz, ws, we))
}

/// The row of an override `ps`, when it is not cancelled and falls in the window.
pub open spec fn override_rows(ps: Seq<PropModel>, tz: Seq<char>, ws: int, we: int) -> Seq<RowModel> {
    if !is_override(ps) || cancelled(ps) {
        Seq::empty()
    } else {
        match to_local(time_prop(ps, "DTSTART"@)->0, tz) {
            Some((l, ad)) => if in_window(l as int, ws, we) {
                seq![RowModel { title: summary_of(ps)->0, local: l, all_day: ad, recurring: recurring_of(ps) }]
            } else {
                Seq::empty()
            },
            None => Seq::empty(),
        }
    }
}

/// The rows of the first `n` components' one-offs and series.
pub open spec fn all_master_rows(cs: Seq<Option<Seq<PropModel>>>, n: nat, tz: Seq<char>, ws: int, we: int) -> Seq<RowModel>
    decreases n,
{
    if n == 0 {
        Seq::empty()
    } else {
        all_master_rows(cs, (n - 1) as nat, tz, ws, we) + match cs[n - 1] {
            Some(ps) => master_rows(cs, ps, tz, ws, we),
            None => Seq::empty(),
        }
    }
}

/// The rows of the first `n` components' one-offs and series, when rrule
/// listed `ro[k]` for component `k`.
pub open spec fn all_master_rows_with(
    cs: Seq<Option<Seq<PropModel>>>,
    n: nat,
    tz: Seq<char>,
    ws: int,
    we: int,
    ro: Seq<Option<Seq<i64>>>,
) -> Seq<RowModel>
    decreases n,
{
    if n == 0 {
        Seq::empty()
    } else {
        all_master_rows_with(cs, (n - 1) as nat, tz, ws, we, ro) + match cs[n - 1] {
            Some(ps) => master_rows_with(cs, ps, tz, ws, we, ro[n - 1]),
            None => Seq::empty(),
        }
    }
}

/// The rows of the first `n` components' overrides.
pub open spec fn all_override_rows(cs: Seq<Option<Seq<PropModel>>>, n: nat, tz: Seq<char>, ws: int, we: int) -> Seq<RowModel>
    decreases n,
{
    if n == 0 {
        Seq::empty()
    } else {
        all_override_rows(cs, (n - 1) as nat, tz, ws, we) + match cs[n - 1] {
            Some(ps) => override_rows(ps, tz, ws, we),
            None => Seq::empty(),
        }
    }
}

/// Every row of the calendar in the window: one-offs and series first,
/// then the overrides.
pub open spec fn calendar_rows(cs: Seq<Option<Seq<PropModel>>>, tz: Seq<char>, ws: int, we: int) -> Seq<RowModel> {
    all_master_rows(cs, cs.len(), tz, ws, we) + all_override_rows(cs, cs.len(), tz, ws, we)
}

/// Every row of the calendar in the window when rrule listed `ro[k]` for
/// component `k`.
pub open spec fn calendar_rows_with(
    cs: Seq<Option<Seq<PropModel>>>,
    tz: Seq<char>,
    ws: int,
    we: int,
    ro: Seq<Option<Seq<i64>>>,
) -> Seq<RowModel> {
    all_master_rows_with(cs, cs.len(), tz, ws, we, ro) + all_override_rows(cs, cs.len(), tz, ws, we)
}

/// What rrule may have listed for each component: anything for a rule whose
/// start is in the machine's zone, exactly [`expanded`] for every other.
pub open spec fn expansions_fit(cs: Seq<Option<Seq<PropModel>>>, ro: Seq<Option<Seq<i64>>>, tz: Seq<char>, ws: int, we: int) -> bool {
    &&& ro.len() == cs.len()
    &&& forall|k: int| 0 <= k < cs.len() && (#[trigger] cs[k]) is Some && rule_start_fixed(cs[k]->0) ==> ro[k]
        == expanded(cs[k]->0, tz, ws, we)
}

/// Where a row comes from: its instant lies in the window, and some event of
/// the calendar has its title, is listed and not cancelled, and, when it is
/// a one-off or series, no override replaces this occurrence.
pub open spec fn row_origin(cs: Seq<Option<Seq<PropModel>>>, row: RowModel, tz: Seq<char>, ws: int, we: int) -> bool {
    &&& in_window(row.local as int, ws, we)
    &&& exists|k: int| {
        &&& 0 <= k < cs.len()
        &&& (#[trigger] cs[k]) is Some
        &&& listed(cs[k]->0)
        &&& !cancelled(cs[k]->0)
        &&& row.title == summary_of(cs[k]->0)->0
        &&& (is_master(cs[k]->0) ==> !override_keys_of(cs, uid_of(cs[k]->0), tz).contains(
            occurrence_key_of(row.local, row.all_day, tz),
        ))
    }
}

/// Each event of `v` is the calendar row of some row with a known origin
/// (see [`row_origin`]).
pub open spec fn rows_traced(
    v: Seq<CalendarEvent>,
    cs: Seq<Option<Seq<PropModel>>>,
    from: Date,
    tz: Seq<char>,
    ws: int,
    we: int,
) -> bool {
    forall|j: int| #![trigger v[j]] 0 <= j < v.len() ==> row_traced(v[j], cs, from, tz, ws, we)
}

/// `e` is the calendar row of some row with a known origin.
pub open spec fn row_traced(e: CalendarEvent, cs: Seq<Option<Seq<PropModel>>>, from: Date, tz: Seq<char>, ws: int, we: int) -> bool {
    exists|row: RowModel| #[trigger] row_event(e, row, from, tz) && row_origin(cs, row, tz, ws, we)
}

/// `e` is the calendar row for `row`, with day labels relative to `from`.
pub open spec fn row_event(e: CalendarEvent, row: RowModel, from: Date, tz: Seq<char>) -> bool {
    &&& e.title@ == event_title_of(row.title)
    &&& e.all_day == row.all_day
    &&& !e.birthday
    &&& !e.school
    &&& e.recurring == row.recurring
    &&& !e.bin
    &&& match local_clock_at(row.local, tz) {
        Some((y, m, d, s)) => {
            &&& e.start@ == (if row.all_day {
                ""@
            } else {
                hhmm(WakeTime { hour: s / 3600, minute: (s % 3600) / 60 })
            })
            &&& e.day_label@ == day_label_of(Date { year: y, month: m, day: d }, from)
            &&& e.date@ == date_text(y, m, d, "%Y-%m-%d"@)
        },
        None => e.start@.len() == 0 && e.day_label@.len() == 0 && e.date@.len() == 0,
    }
}

/// `u` holds the rows of `rows`, one for one.
pub open spec fn rows_match(u: Seq<CalendarEvent>, rows: Seq<RowModel>, from: Date, tz: Seq<char>) -> bool {
    &&& u.len() == rows.len()
    &&& forall|i: int| 0 <= i < rows.len() ==> row_event(#[trigger] u[i], rows[i], from, tz)
}

/// The models of the calendar's components.
pub open spec fn components_model(cs: Seq<Option<Vec<IcsProp>>>) -> Seq<Option<Seq<PropModel>>> {
    cs.map_values(|c: Option<Vec<IcsProp>>| component_model(c))
}

pub(crate) fn literal(s: &str) -> (r: String)
    ensures
        r@ == s@,
{
    let mut t = String::new();
    push_str(&mut t, s);
    assert(Seq::<char>::empty() + s@ =~= s@);
    t
}

/// The calendar row for an occurrence (`calendar_event`).
fn calendar_event(title: &str, local: i64, all_day: bool, from: Date, recurring: bool, tz: &str) -> (r: CalendarEvent)
    requires
        clock_range(local as int),
        valid_date(from),
        day_number(from) < max_day(),
    ensures
        row_event(r, RowModel { title: title@, local, all_day, recurring }, from, tz@),
{
    proof {
        reveal_strlit("");
    }
    match local_clock(local, tz) {
        Some((date, secs)) => {
            let ghost clock = WakeTime { hour: secs / 3600, minute: (secs % 3600) / 60 };
            let start = if all_day {
                String::new()
            } else {
                let t = WakeTime { hour: secs / 3600, minute: (secs % 3600) / 60 };
                assert(t == clock);
                crate::server::wakes::hhmm_text(t)
            };
            assert(start@ == (if all_day { ""@ } else { hhmm(clock) }));
            CalendarEvent {
                start,
                title: truncate_event_title(title),
                all_day,
                day_label: day_label(date, from),
                date: format_date(date, "%Y-%m-%d"),
                birthday: false,
                school: false,
                recurring,
                bin: false,
            }
        },
        None => CalendarEvent {
            start: String::new(),
            title: truncate_event_title(title),
            all_day,
            day_label: String::new(),
            date: String::new(),
            birthday: false,
            school: false,
            recurring,
            bin: false,
        },
    }
}

/// [`occurrence_key_of`] computed.
fn occurrence_key(l: i64, all_day: bool, tz: &str) -> (r: i64)
    ensures
        r == occurrence_key_of(l, all_day, tz@),
{
    proof {
        crate::server::dates::lemma_day_bounds();
    }
    let lo: i64 = (crate::server::dates::MIN_DAY + 1 - 719163) * 86400;
    let hi: i64 = (crate::server::dates::MAX_DAY - 719163) * 86400;
    if all_day && lo <= l && l < hi {
        assert(clock_range(l as int));
        match local_clock(l, tz) {
            Some((d, _)) => (day_number_of(d) - 719163) * 86400,
            None => l,
        }
    } else {
        assert(!(all_day && clock_range(l as int)));
        l
    }
}

fn is_cancelled(ps: &Vec<IcsProp>) -> (r: bool)
    ensures
        r == cancelled(prop_models(ps@)),
{
    proof {
        reveal_strlit("CANCELLED");
    }
    match prop_value_of(ps, "STATUS") {
        Some(v) => same_text(v.as_str(), "CANCELLED"),
        None => false,
    }
}

fn is_recurring(ps: &Vec<IcsProp>) -> (r: bool)
    ensures
        r == recurring_of(prop_models(ps@)),
{
    prop_value_of(ps, "RRULE").is_some() || properties_named(ps, "RDATE").len() > 0 || time_prop_exec(
        ps,
        "RECURRENCE-ID",
    ).is_some()
}

/// The model of component `i`.
proof fn lemma_component_at(cs: Seq<Option<Vec<IcsProp>>>, i: int)
    requires
        0 <= i < cs.len(),
    ensures
        components_model(cs)[i] == component_model(cs[i]),
        components_model(cs).len() == cs.len(),
{
}

/// [`override_keys_of`] computed.
fn override_keys(cs: &Vec<Option<Vec<IcsProp>>>, uid: &str, tz: &str) -> (r: Vec<i64>)
    ensures
        r@.len() == override_keys_of(components_model(cs@), uid@, tz@).len(),
        forall|k: int| 0 <= k < r@.len() ==> r@[k] as int == #[trigger] override_keys_of(components_model(cs@), uid@, tz@)[k],
{
    let n = cs.len();
    let ghost all = components_model(cs@);
    let mut out: Vec<i64> = Vec::new();
    let mut i: usize = 0;
    assert(all.take(0) =~= Seq::<Option<Seq<PropModel>>>::empty());
    while i < n
        invariant
            n == cs@.len(),
            all == components_model(cs@),
            all.len() == n,
            i <= n,
            out@.len() == override_keys_of(all.take(i as int), uid@, tz@).len(),
            forall|k: int| 0 <= k < out@.len() ==> out@[k] as int == #[trigger] override_keys_of(all.take(i as int), uid@, tz@)[k],
        decreases n - i,
    {
        proof {
            lemma_component_at(cs@, i as int);
        }
        assert(all.take(i + 1).drop_last() =~= all.take(i as int));
        assert(all.take(i + 1).last() == all[i as int]);
        if let Some(ps) = &cs[i] {
            assert(all[i as int] == Some(prop_models(ps@)));
            let title = prop_value_of(ps, "SUMMARY");
            let start = time_prop_exec(ps, "DTSTART");
            let rid = time_prop_exec(ps, "RECURRENCE-ID");
            if title.is_some() && start.is_some() {
                if let Some(rid) = rid {
                    let own = match prop_value_of(ps, "UID") {
                        Some(u) => same_text(u.as_str(), uid),
                        None => same_text("", uid),
                    };
                    proof {
                        reveal_strlit("");
                    }
                    if own {
                        if let Some((l, ad)) = date_to_local(&rid, tz) {
                            let key = occurrence_key(l, ad, tz);
                            out.push(key);
                        }
                    }
                }
            }
        }
        i = i + 1;
    }
    assert(all.take(n as int) =~= all);
    out
}

fn contains_key(keys: &Vec<i64>, k: i64) -> (r: bool)
    ensures
        r == exists|j: int| 0 <= j < keys@.len() && keys@[j] == k,
{
    let n = keys.len();
    let mut i: usize = 0;
    while i < n
        invariant
            n == keys@.len(),
            i <= n,
            forall|j: int| 0 <= j < i ==> keys@[j] != k,
        decreases n - i,
    {
        if keys[i] == k {
            return true;
        }
        i = i + 1;
    }
    false
}

/// The window lies where chrono can show wall-clock dates.
pub open spec fn window_ok(ws: int, we: int) -> bool {
    &&& clock_range(ws)
    &&& clock_range(we)
    &&& ws > i64::MIN
}

proof fn lemma_in_window_clock(l: int, ws: int, we: int)
    requires
        window_ok(ws, we),
        in_window(l, ws, we),
    ensures
        clock_range(l),
{
    vstd::arithmetic::div_mod::lemma_div_is_ordered(ws, l, 86400);
    vstd::arithmetic::div_mod::lemma_div_is_ordered(l, we, 86400);
}

/// [`master_rows`] built.
fn master_rows_exec(cs: &Vec<Option<Vec<IcsProp>>>, ps: &Vec<IcsProp>, tz: &str, ws: i64, we: i64, from: Date) -> (r: Vec<CalendarEvent>)
    requires
        window_ok(ws as int, we as int),
        valid_date(from),
        day_number(from) < max_day(),
    ensures
        exists|rd: Option<Seq<i64>>|
            (rule_start_fixed(prop_models(ps@)) ==> rd == expanded(prop_models(ps@), tz@, ws as int, we as int))
                && rows_match(
                r@,
                #[trigger] master_rows_with(components_model(cs@), prop_models(ps@), tz@, ws as int, we as int, rd),
                from,
                tz@,
            ),
{
    let ghost m = prop_models(ps@);
    let ghost cms = components_model(cs@);
    let ghost ex = expanded(m, tz@, ws as int, we as int);
    let empty: Vec<CalendarEvent> = Vec::new();
    assert(empty@ =~= Seq::<CalendarEvent>::empty());
    let title = match prop_value_of(ps, "SUMMARY") {
        Some(t) => t,
        None => {
            assert(master_rows_with(cms, m, tz@, ws as int, we as int, ex) =~= Seq::<RowModel>::empty());
            return empty;
        },
    };
    let start = match time_prop_exec(ps, "DTSTART") {
        Some(t) => t,
        None => {
            assert(master_rows_with(cms, m, tz@, ws as int, we as int, ex) =~= Seq::<RowModel>::empty());
            return empty;
        },
    };
    if time_prop_exec(ps, "RECURRENCE-ID").is_some() || is_cancelled(ps) {
        assert(master_rows_with(cms, m, tz@, ws as int, we as int, ex) =~= Seq::<RowModel>::empty());
        return empty;
    }
    let all_day = match date_to_local(&start, tz) {
        Some((_, ad)) => ad,
        None => {
            assert(master_rows_with(cms, m, tz@, ws as int, we as int, ex) =~= Seq::<RowModel>::empty());
            return empty;
        },
    };
    let uid = match prop_value_of(ps, "UID") {
        Some(u) => u.clone(),
        None => literal(""),
    };
    proof {
        reveal_strlit("");
    }
    assert(uid@ == uid_of(m));
    let keys = override_keys(cs, uid.as_str(), tz);
    let ghost kspec = override_keys_of(cms, uid_of(m), tz@);
    let recurring = is_recurring(ps);
    let occ = expand_occurrences(ps, tz, ws, we);
    let ghost rd = choose|rd: Option<Seq<i64>>|
        (rule_start_fixed(m) ==> rd == expanded(m, tz@, ws as int, we as int))
            && occ@ == #[trigger] occurrences_with(m, tz@, ws as int, we as int, rd);
    let ghost ospec = occ@;
    let n = occ.len();
    let mut out: Vec<CalendarEvent> = Vec::new();
    let mut i: usize = 0;
    assert(ospec.take(0) =~= Seq::<i64>::empty());
    while i < n
        invariant
            n == occ@.len(),
            occ@ == ospec,
            i <= n,
            window_ok(ws as int, we as int),
            valid_date(from),
            day_number(from) < max_day(),
            keys@.len() == kspec.len(),
            forall|k: int| 0 <= k < keys@.len() ==> keys@[k] as int == #[trigger] kspec[k],
            rows_match(
                out@,
                occurrence_rows(ospec.take(i as int), ws as int, we as int, kspec, all_day, title@, recurring, tz@),
                from,
                tz@,
            ),
        decreases n - i,
    {
        assert(ospec.take(i + 1).drop_last() =~= ospec.take(i as int));
        assert(ospec.take(i + 1).last() == occ@[i as int]);
        let l = occ[i];
        let ghost before = occurrence_rows(ospec.take(i as int), ws as int, we as int, kspec, all_day, title@, recurring, tz@);
        if ws <= l && l < we {
            let key = occurrence_key(l, all_day, tz);
            let hit = contains_key(&keys, key);
            proof {
                if hit {
                    let j = choose|j: int| 0 <= j < keys@.len() && keys@[j] == key;
                    assert(kspec[j] == key as int);
                    assert(kspec.contains(occurrence_key_of(l, all_day, tz@)));
                } else {
                    if kspec.contains(occurrence_key_of(l, all_day, tz@)) {
                        let j = choose|j: int| 0 <= j < kspec.len() && kspec[j] == occurrence_key_of(l, all_day, tz@);
                        assert(keys@[j] as int == kspec[j]);
                        assert(false);
                    }
                }
            }
            if !hit {
                proof {
                    lemma_in_window_clock(l as int, ws as int, we as int);
                }
                let row = calendar_event(title.as_str(), l, all_day, from, recurring, tz);
                let ghost prev = out@;
                out.push(row);
                assert forall|k: int| 0 <= k < out@.len() implies row_event(
                    #[trigger] out@[k],
                    before.push(RowModel { title: title@, local: l, all_day, recurring })[k],
                    from,
                    tz@,
                ) by {
                    if k < prev.len() {
                        assert(out@[k] == prev[k]);
                    }
                }
            }
        }
        i = i + 1;
    }
    assert(ospec.take(n as int) =~= ospec);
    assert(master_rows_with(cms, m, tz@, ws as int, we as int, rd) == occurrence_rows(
        ospec, ws as int, we as int, kspec, all_day, title@, recurring, tz@));
    out
}

/// [`override_rows`] built.
fn override_rows_exec(ps: &Vec<IcsProp>, tz: &str, ws: i64, we: i64, from: Date) -> (r: Vec<CalendarEvent>)
    requires
        window_ok(ws as int, we as int),
        valid_date(from),
        day_number(from) < max_day(),
    ensures
        rows_match(r@, override_rows(prop_models(ps@), tz@, ws as int, we as int), from, tz@),
{
    let mut out: Vec<CalendarEvent> = Vec::new();
    let title = match prop_value_of(ps, "SUMMARY") {
        Some(t) => t,
        None => return out,
    };
    let start = match time_prop_exec(ps, "DTSTART") {
        Some(t) => t,
        None => return out,
    };
    if time_prop_exec(ps, "RECURRENCE-ID").is_none() || is_cancelled(ps) {
        return out;
    }
    if let Some((l, ad)) = date_to_local(&start, tz) {
        if ws <= l && l < we {
            proof {
                lemma_in_window_clock(l as int, ws as int, we as int);
            }
            let recurring = is_recurring(ps);
            out.push(calendar_event(title.as_str(), l, ad, from, recurring, tz));
        }
    }
    out
}

fn append_rows(out: &mut Vec<CalendarEvent>, more: Vec<CalendarEvent>)
    ensures
        final(out)@ == old(out)@ + more@,
{
    let mut more = more;
    let ghost start = out@;
    let ghost all = more@;
    let n = more.len();
    let mut i: usize = 0;
    while i < n
        invariant
            n == all.len(),
            i <= n,
            more@ == all.skip(i as int),
            out@ == start + all.take(i as int),
        decreases n - i,
    {
        let e = more.remove(0);
        assert(all.skip(i as int)[0] == all[i as int]);
        out.push(e);
        assert(all.take(i + 1) =~= all.take(i as int).push(all[i as int]));
        assert(all.skip(i as int).subrange(1, all.skip(i as int).len() as int) =~= all.skip(i + 1));
        i = i + 1;
    }
    assert(all.take(n as int) =~= all);
}

proof fn lemma_rows_match_concat(u: Seq<CalendarEvent>, a: Seq<RowModel>, v: Seq<CalendarEvent>, b: Seq<RowModel>, from: Date, tz: Seq<char>)
    requires
        rows_match(u, a, from, tz),
        rows_match(v, b, from, tz),
    ensures
        rows_match(u + v, a + b, from, tz),
{
    assert forall|i: int| 0 <= i < (a + b).len() implies row_event(#[trigger] (u + v)[i], (a + b)[i], from, tz) by {
        if i < a.len() {
            assert((u + v)[i] == u[i]);
            assert((a + b)[i] == a[i]);
        } else {
            assert((u + v)[i] == v[i - a.len()]);
            assert((a + b)[i] == b[i - a.len()]);
        }
    }
}

/// The window a calendar read can cover: `from` and `days` later, with a
/// couple of days to spare at either end of chrono's dates.
pub open spec fn horizon_ok(from: Date, days: i64) -> bool {
    &&& valid_date(from)
    &&& min_day() + 2 < day_number(from) + (if days < 0 { days as int } else { 0 })
    &&& day_number(from) + (if days > 0 { days as int } else { 0 }) + 2 < max_day()
}

/// Calendar rows for the `days` days from `from` (midnight in zone `tz`):
/// one-off events, the occurrences of repeating ones (minus `EXDATE`s and
/// the occurrences an override replaces), and the overrides themselves;
/// cancelled events are left out. Sorted by date, time and title; rows
/// that compare equal keep this order.
///
/// The rows are exactly those of the calendar for what rrule listed for
/// each series; for a series whose start names no zone, rrule reads it in
/// the machine's zone, so what it lists there is left open, but every row
/// still lies in the window, comes from a listed event that is not
/// cancelled, carries that event's title cut to one line, and is no
/// occurrence that an override replaces.
/// The events `v` that a calendar `cs` gives for the window from `ws` to
/// `we`: the rows of the calendar for what rrule listed for each series
/// (exactly [`expanded`] where the start names its zone), sorted; each
/// traced to its origin; and, when every start names its zone, exactly the
/// calendar's rows.
pub open spec fn calendar_events_of(
    v: Seq<CalendarEvent>,
    cs: Seq<Option<Seq<PropModel>>>,
    tz: Seq<char>,
    from: Date,
    ws: int,
    we: int,
) -> bool {
    &&& exists|ro: Seq<Option<Seq<i64>>>, u: Seq<CalendarEvent>|
        #![trigger calendar_rows_with(cs, tz, ws, we, ro), sort_events(u, true)]
        expansions_fit(cs, ro, tz, ws, we) && rows_match(u, calendar_rows_with(cs, tz, ws, we, ro), from, tz) && v
            == sort_events(u, true)
    &&& rows_traced(v, cs, from, tz, ws, we)
    &&& rules_fixed(cs) ==> exists|u: Seq<CalendarEvent>|
        rows_match(u, calendar_rows(cs, tz, ws, we), from, tz) && v == #[trigger] sort_events(u, true)
}

#[verifier::spinoff_prover]
#[verifier::rlimit(60)]
pub fn parse_events(ics: &str, tz: &str, from: Date, days: i64) -> (r: Result<Vec<CalendarEvent>, String>)
    requires
        horizon_ok(from, days),
    ensures
        match calendar_of(ics@) {
            Err(msg) => r matches Err(e) && e@ == "parsing ICS: "@ + msg,
            Ok(cs) => match single(local_instant_of(tz@, from.year, from.month, from.day, 0)) {
                None => r matches Err(e) && e@ == "invalid start date"@,
                Some(ws) => r matches Ok(v) && calendar_events_of(v@, cs, tz@, from, ws as int, ws + days * 86400),
            },
        },
        r matches Ok(v) ==> events_sorted(v@, true),
{
    let cs = match read_calendar(ics) {
        Ok(c) => c,
        Err(e) => {
            let mut m = literal("parsing ICS: ");
            push_str(&mut m, e.as_str());
            return Err(m);
        },
    };
    let ws = match local_to_utc(tz, from, 0) {
        LocalInstant::Single(t) => t,
        _ => return Err(literal("invalid start date")),
    };
    proof {
        crate::server::dates::lemma_day_bounds();
        vstd::arithmetic::div_mod::lemma_fundamental_div_mod(ws as int, 86400);
        vstd::arithmetic::div_mod::lemma_mod_bound(ws as int, 86400);
    }
    assert(-100_000_000_000_000 < ws < 100_000_000_000_000);
    let we = ws + days * 86400;
    proof {
        vstd::arithmetic::div_mod::lemma_fundamental_div_mod(we as int, 86400);
        vstd::arithmetic::div_mod::lemma_mod_bound(we as int, 86400);
    }
    assert(window_ok(ws as int, we as int));
    let ghost cms = components_model(cs@);
    let n = cs.len();
    let mut rows: Vec<CalendarEvent> = Vec::new();
    let mut i: usize = 0;
    let ghost mut ro: Seq<Option<Seq<i64>>> = Seq::empty();
    while i < n
        invariant
            n == cs@.len(),
            cms == components_model(cs@),
            i <= n,
            window_ok(ws as int, we as int),
            valid_date(from),
            day_number(from) < max_day(),
            ro.len() == i,
            forall|k: int| 0 <= k < i && (#[trigger] cms[k]) is Some && rule_start_fixed(cms[k]->0) ==> ro[k]
                == expanded(cms[k]->0, tz@, ws as int, we as int),
            rows_match(rows@, all_master_rows_with(cms, i as nat, tz@, ws as int, we as int, ro), from, tz@),
        decreases n - i,
    {
        proof {
            lemma_component_at(cs@, i as int);
        }
        let ghost before = rows@;
        let ghost prev = all_master_rows_with(cms, i as nat, tz@, ws as int, we as int, ro);
        if let Some(ps) = &cs[i] {
            let more = master_rows_exec(&cs, ps, tz, ws, we, from);
            let ghost pm = prop_models(ps@);
            let ghost rd = choose|rd: Option<Seq<i64>>|
                (rule_start_fixed(pm) ==> rd == expanded(pm, tz@, ws as int, we as int)) && rows_match(
                    more@,
                    #[trigger] master_rows_with(cms, pm, tz@, ws as int, we as int, rd),
                    from,
                    tz@,
                );
            proof {
                lemma_rows_match_concat(before, prev, more@, master_rows_with(cms, pm, tz@, ws as int, we as int, rd), from, tz@);
                lemma_master_rows_push(cms, i as nat, tz@, ws as int, we as int, ro, rd);
                ro = ro.push(rd);
            }
            append_rows(&mut rows, more);
        } else {
            assert(rows@ =~= before + Seq::<CalendarEvent>::empty());
            proof {
                lemma_rows_match_concat(before, prev, Seq::<CalendarEvent>::empty(), Seq::<RowModel>::empty(), from, tz@);
                lemma_master_rows_push(cms, i as nat, tz@, ws as int, we as int, ro, None);
                ro = ro.push(None);
            }
        }
        assert(all_master_rows_with(cms, (i + 1) as nat, tz@, ws as int, we as int, ro) == prev + match cms[i as int] {
            Some(ps) => master_rows_with(cms, ps, tz@, ws as int, we as int, ro[i as int]),
            None => Seq::<RowModel>::empty(),
        });
        i = i + 1;
    }
    let ghost masters = rows@;
    let mut tail: Vec<CalendarEvent> = Vec::new();
    let mut j: usize = 0;
    while j < n
        invariant
            n == cs@.len(),
            cms == components_model(cs@),
            j <= n,
            window_ok(ws as int, we as int),
            valid_date(from),
            day_number(from) < max_day(),
            rows_match(tail@, all_override_rows(cms, j as nat, tz@, ws as int, we as int), from, tz@),
        decreases n - j,
    {
        proof {
            lemma_component_at(cs@, j as int);
        }
        let ghost before = tail@;
        if let Some(ps) = &cs[j] {
            let more = override_rows_exec(ps, tz, ws, we, from);
            proof {
                lemma_rows_match_concat(before, all_override_rows(cms, j as nat, tz@, ws as int, we as int), more@,
                    override_rows(prop_models(ps@), tz@, ws as int, we as int), from, tz@);
            }
            append_rows(&mut tail, more);
        } else {
            assert(tail@ =~= before + Seq::<CalendarEvent>::empty());
            proof {
                lemma_rows_match_concat(before, all_override_rows(cms, j as nat, tz@, ws as int, we as int),
                    Seq::<CalendarEvent>::empty(), Seq::<RowModel>::empty(), from, tz@);
            }
        }
        j = j + 1;
    }
    let ghost crows = calendar_rows_with(cms, tz@, ws as int, we as int, ro);
    proof {
        lemma_rows_match_concat(masters, all_master_rows_with(cms, n as nat, tz@, ws as int, we as int, ro), tail@,
            all_override_rows(cms, n as nat, tz@, ws as int, we as int), from, tz@);
    }
    append_rows(&mut rows, tail);
    let ghost unsorted = rows@;
    assert(rows_match(unsorted, crows, from, tz@));
    crate::server::model::sort_event_list(&mut rows, true);
    proof {
        crate::server::model::lemma_sort_events(unsorted, true);
        assert(expansions_fit(cms, ro, tz@, ws as int, we as int));
        if rules_fixed(cms) {
            lemma_master_rows_fixed(cms, n as nat, tz@, ws as int, we as int, ro);
            assert(crows == calendar_rows(cms, tz@, ws as int, we as int));
        }
        lemma_calendar_rows_origin(cms, tz@, ws as int, we as int, ro);
        lemma_rows_traced(rows@, unsorted, crows, cms, from, tz@, ws as int, we as int);
        assert(rows_traced(rows@, cms, from, tz@, ws as int, we as int));
        assert(rows@ == sort_events(unsorted, true));
        assert(exists|ro2: Seq<Option<Seq<i64>>>, u: Seq<CalendarEvent>|
            #![trigger calendar_rows_with(cms, tz@, ws as int, we as int, ro2), sort_events(u, true)]
            expansions_fit(cms, ro2, tz@, ws as int, we as int)
                && rows_match(u, calendar_rows_with(cms, tz@, ws as int, we as int, ro2), from, tz@)
                && rows@ == sort_events(u, true));
        assert(rules_fixed(cms) ==> exists|u: Seq<CalendarEvent>|
            rows_match(u, calendar_rows(cms, tz@, ws as int, we as int), from, tz@)
            && rows@ == #[trigger] sort_events(u, true));
        assert(calendar_events_of(rows@, cms, tz@, from, ws as int, we as int));
    }
    Ok(rows)
}

proof fn lemma_rows_traced(
    sorted: Seq<CalendarEvent>,
    unsorted: Seq<CalendarEvent>,
    crows: Seq<RowModel>,
    cs: Seq<Option<Seq<PropModel>>>,
    from: Date,
    tz: Seq<char>,
    ws: int,
    we: int,
)
    requires
        sorted.to_multiset() == unsorted.to_multiset(),
        rows_match(unsorted, crows, from, tz),
        forall|i: int| 0 <= i < crows.len() ==> row_origin(cs, #[trigger] crows[i], tz, ws, we),
    ensures
        rows_traced(sorted, cs, from, tz, ws, we),
{
    broadcast use vstd::seq_lib::to_multiset_contains;

    assert forall|k: int| #![trigger sorted[k]] 0 <= k < sorted.len() implies row_traced(sorted[k], cs, from, tz, ws, we) by {
        assert(sorted.contains(sorted[k]));
        assert(sorted.to_multiset().count(sorted[k]) > 0);
        assert(unsorted.to_multiset().count(sorted[k]) > 0);
        assert(unsorted.contains(sorted[k]));
        let m = choose|m: int| 0 <= m < unsorted.len() && unsorted[m] == sorted[k];
        assert(row_event(unsorted[m], crows[m], from, tz));
        assert(row_origin(cs, crows[m], tz, ws, we));
    }
}

proof fn lemma_master_rows_push(
    cs: Seq<Option<Seq<PropModel>>>,
    n: nat,
    tz: Seq<char>,
    ws: int,
    we: int,
    ro: Seq<Option<Seq<i64>>>,
    x: Option<Seq<i64>>,
)
    requires
        n <= ro.len(),
    ensures
        all_master_rows_with(cs, n, tz, ws, we, ro.push(x)) == all_master_rows_with(cs, n, tz, ws, we, ro),
    decreases n,
{
    if n > 0 {
        lemma_master_rows_push(cs, (n - 1) as nat, tz, ws, we, ro, x);
        assert(ro.push(x)[n - 1] == ro[n - 1]);
    }
}

proof fn lemma_master_rows_fixed(
    cs: Seq<Option<Seq<PropModel>>>,
    n: nat,
    tz: Seq<char>,
    ws: int,
    we: int,
    ro: Seq<Option<Seq<i64>>>,
)
    requires
        n <= cs.len(),
        expansions_fit(cs, ro, tz, ws, we),
        rules_fixed(cs),
    ensures
        all_master_rows_with(cs, n, tz, ws, we, ro) == all_master_rows(cs, n, tz, ws, we),
    decreases n,
{
    if n > 0 {
        lemma_master_rows_fixed(cs, (n - 1) as nat, tz, ws, we, ro);
        let k = n - 1;
        if cs[k] is Some {
            assert(rule_start_fixed(cs[k]->0));
            assert(ro[k] == expanded(cs[k]->0, tz, ws, we));
        }
    }
}

proof fn lemma_occurrence_rows_origin(
    occ: Seq<i64>,
    ws: int,
    we: int,
    keys: Seq<int>,
    all_day: bool,
    title: Seq<char>,
    recurring: bool,
    tz: Seq<char>,
)
    ensures
        forall|i: int| 0 <= i < occurrence_rows(occ, ws, we, keys, all_day, title, recurring, tz).len() ==> {
            let row = #[trigger] occurrence_rows(occ, ws, we, keys, all_day, title, recurring, tz)[i];
            &&& in_window(row.local as int, ws, we)
            &&& row.title == title
            &&& row.all_day == all_day
            &&& !keys.contains(occurrence_key_of(row.local, row.all_day, tz))
        },
    decreases occ.len(),
{
    if occ.len() > 0 {
        lemma_occurrence_rows_origin(occ.drop_last(), ws, we, keys, all_day, title, recurring, tz);
        let rest = occurrence_rows(occ.drop_last(), ws, we, keys, all_day, title, recurring, tz);
        let all = occurrence_rows(occ, ws, we, keys, all_day, title, recurring, tz);
        assert forall|i: int| 0 <= i < all.len() implies {
            let row = #[trigger] all[i];
            &&& in_window(row.local as int, ws, we)
            &&& row.title == title
            &&& row.all_day == all_day
            &&& !keys.contains(occurrence_key_of(row.local, row.all_day, tz))
        } by {
            if i < rest.len() {
                assert(all[i] == rest[i]);
            }
        }
    }
}

proof fn lemma_master_rows_origin(
    cs: Seq<Option<Seq<PropModel>>>,
    n: nat,
    tz: Seq<char>,
    ws: int,
    we: int,
    ro: Seq<Option<Seq<i64>>>,
)
    requires
        n <= cs.len(),
    ensures
        forall|i: int| 0 <= i < all_master_rows_with(cs, n, tz, ws, we, ro).len() ==> row_origin(
            cs,
            #[trigger] all_master_rows_with(cs, n, tz, ws, we, ro)[i],
            tz,
            ws,
            we,
        ),
    decreases n,
{
    if n > 0 {
        lemma_master_rows_origin(cs, (n - 1) as nat, tz, ws, we, ro);
        let k = n - 1;
        let a = all_master_rows_with(cs, (n - 1) as nat, tz, ws, we, ro);
        let b = match cs[k] {
            Some(ps) => master_rows_with(cs, ps, tz, ws, we, ro[k]),
            None => Seq::<RowModel>::empty(),
        };
        if let Some(ps) = cs[k] {
            if is_master(ps) && !cancelled(ps) {
                if let Some((_, ad)) = to_local(time_prop(ps, "DTSTART"@)->0, tz) {
                    lemma_occurrence_rows_origin(
                        occurrences_with(ps, tz, ws, we, ro[k]),
                        ws,
                        we,
                        override_keys_of(cs, uid_of(ps), tz),
                        ad,
                        summary_of(ps)->0,
                        recurring_of(ps),
                        tz,
                    );
                }
            }
        }
        assert forall|i: int| 0 <= i < (a + b).len() implies row_origin(cs, #[trigger] (a + b)[i], tz, ws, we) by {
            if i >= a.len() {
                assert((a + b)[i] == b[i - a.len()]);
                assert(cs[k] is Some);
            } else {
                assert((a + b)[i] == a[i]);
            }
        }
    }
}

proof fn lemma_override_rows_origin(cs: Seq<Option<Seq<PropModel>>>, n: nat, tz: Seq<char>, ws: int, we: int)
    requires
        n <= cs.len(),
    ensures
        forall|i: int| 0 <= i < all_override_rows(cs, n, tz, ws, we).len() ==> row_origin(
            cs,
            #[trigger] all_override_rows(cs, n, tz, ws, we)[i],
            tz,
            ws,
            we,
        ),
    decreases n,
{
    if n > 0 {
        lemma_override_rows_origin(cs, (n - 1) as nat, tz, ws, we);
        let k = n - 1;
        let a = all_override_rows(cs, (n - 1) as nat, tz, ws, we);
        let b = match cs[k] {
            Some(ps) => override_rows(ps, tz, ws, we),
            None => Seq::<RowModel>::empty(),
        };
        assert forall|i: int| 0 <= i < (a + b).len() implies row_origin(cs, #[trigger] (a + b)[i], tz, ws, we) by {
            if i >= a.len() {
                assert((a + b)[i] == b[i - a.len()]);
                assert(cs[k] is Some);
            } else {
                assert((a + b)[i] == a[i]);
            }
        }
    }
}

/// Whatever rrule lists, every calendar row lies in the window (nothing
/// before its start or from its end on), belongs to a listed event that is
/// not cancelled and carries its title, and is no occurrence of a series
/// that an override replaces: overridden occurrences appear only as their
/// overrides.
pub proof fn lemma_calendar_rows_origin(
    cs: Seq<Option<Seq<PropModel>>>,
    tz: Seq<char>,
    ws: int,
    we: int,
    ro: Seq<Option<Seq<i64>>>,
)
    ensures
        forall|i: int| 0 <= i < calendar_rows_with(cs, tz, ws, we, ro).len() ==> row_origin(
            cs,
            #[trigger] calendar_rows_with(cs, tz, ws, we, ro)[i],
            tz,
            ws,
            we,
        ),
{
    lemma_master_rows_origin(cs, cs.len(), tz, ws, we, ro);
    lemma_override_rows_origin(cs, cs.len(), tz, ws, we);
    let a = all_master_rows_with(cs, cs.len(), tz, ws, we, ro);
    let b = all_override_rows(cs, cs.len(), tz, ws, we);
    assert forall|i: int| 0 <= i < (a + b).len() implies row_origin(cs, #[trigger] (a + b)[i], tz, ws, we) by {
        if i >= a.len() {
            assert((a + b)[i] == b[i - a.len()]);
        } else {
            assert((a + b)[i] == a[i]);
        }
    }
}

} // verus!
