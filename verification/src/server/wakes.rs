//! Wake-up clock times per weekday: how the config and the family UI spell
//! them, and the sorted, duplicate-free lists the scheduler reads.

use vstd::prelude::*;
use crate::server::config::{texts, PublicWakeDays};
use crate::text::{
    chars_of, digit_char, digit_string, find_char, find_char_in, lower_seq, parse_u64, parse_u64_exec,
    push_str, same_chars, string_in, string_of, to_lower, trim, trim_bounds, trim_char_end, trim_range,
};

verus! {

/// A wake-up time of day, to the minute.
#[derive(Clone, Copy, Debug, PartialEq, Eq)]
pub struct WakeTime {
    pub hour: u32,
    pub minute: u32,
}

/// A time of day `NaiveTime` holds: hour below 24, minute below 60.
pub open spec fn valid_time(t: WakeTime) -> bool {
    t.hour < 24 && t.minute < 60
}

/// Minutes since midnight: the order of times of day.
pub open spec fn key(t: WakeTime) -> int {
    t.hour * 60 + t.minute
}

/// Valid times, each later than the one before.
pub open spec fn sorted_distinct(s: Seq<WakeTime>) -> bool {
    &&& forall|i: int| 0 <= i < s.len() ==> valid_time(#[trigger] s[i])
    &&& forall|i: int, j: int| 0 <= i < j < s.len() ==> key(#[trigger] s[i]) < key(#[trigger] s[j])
}

/// `out` is `times` sorted with duplicates dropped.
pub open spec fn sorted_set_of(out: Seq<WakeTime>, times: Seq<WakeTime>) -> bool {
    &&& sorted_distinct(out)
    &&& forall|t: WakeTime| out.contains(t) <==> times.contains(t)
}

proof fn lemma_key_injective(a: WakeTime, b: WakeTime)
    requires
        valid_time(a),
        valid_time(b),
        key(a) == key(b),
    ensures
        a == b,
{
    assert(a.hour == b.hour) by (nonlinear_arith)
        requires
            a.hour * 60 + a.minute == b.hour * 60 + b.minute,
            a.minute < 60,
            b.minute < 60,
    ;
}

fn minutes(t: WakeTime) -> (r: u32)
    requires
        valid_time(t),
    ensures
        r == key(t),
{
    t.hour * 60 + t.minute
}

/// Sort valid times and drop duplicates (`sort` then `dedup`).
pub fn sort_dedup(times: &[WakeTime]) -> (r: Vec<WakeTime>)
    requires
        forall|i: int| 0 <= i < times@.len() ==> valid_time(#[trigger] times@[i]),
    ensures
        sorted_set_of(r@, times@),
{
    let n = times.len();
    let mut out: Vec<WakeTime> = Vec::new();
    let mut i: usize = 0;
    while i < n
        invariant
            n == times@.len(),
            i <= n,
            forall|k: int| 0 <= k < times@.len() ==> valid_time(#[trigger] times@[k]),
            sorted_distinct(out@),
            forall|t: WakeTime| out@.contains(t) <==> times@.take(i as int).contains(t),
        decreases n - i,
    {
        let t = times[i];
        let kt = minutes(t);
        let m = out.len();
        let mut j: usize = 0;
        while j < m && minutes(out[j]) < kt
            invariant
                m == out@.len(),
                j <= m,
                valid_time(t),
                kt == key(t),
                sorted_distinct(out@),
                forall|k: int| 0 <= k < j ==> key(#[trigger] out@[k]) < key(t),
            decreases m - j,
        {
            j = j + 1;
        }
        let ghost before = out@;
        let ghost pre = times@.take(i as int);
        let ghost post = times@.take(i + 1);
        assert(post =~= pre.push(t));
        if j < m && minutes(out[j]) == kt {
            proof {
                lemma_key_injective(out@[j as int], t);
                assert forall|x: WakeTime| out@.contains(x) <==> post.contains(x) by {
                    if post.contains(x) && x == t {
                        assert(out@[j as int] == x);
                    }
                    if post.contains(x) && x != t {
                        let w = choose|w: int| 0 <= w < i + 1 && #[trigger] post[w] == x;
                        assert(pre[w] == x);
                    }
                    if out@.contains(x) {
                        assert(pre.contains(x));
                        let w = choose|w: int| 0 <= w < i && #[trigger] pre[w] == x;
                        assert(post[w] == x);
                    }
                }
            }
        } else {
            out.insert(j, t);
            proof {
                assert forall|a: int, b: int| 0 <= a < b < out@.len() implies key(#[trigger] out@[a]) < key(
                    #[trigger] out@[b],
                ) by {
                    if b < j {
                        assert(out@[a] == before[a] && out@[b] == before[b]);
                    } else if b == j {
                        assert(out@[a] == before[a]);
                    } else if a < j {
                        assert(out@[a] == before[a] && out@[b] == before[b - 1]);
                    } else if a == j {
                        assert(out@[b] == before[b - 1]);
                        assert(key(before[j as int]) >= key(t));
                        assert(key(before[j as int]) != key(t));
                        if b - 1 > j {
                            assert(key(before[j as int]) < key(before[b - 1]));
                        }
                    } else {
                        assert(out@[a] == before[a - 1] && out@[b] == before[b - 1]);
                    }
                }
                assert forall|k: int| 0 <= k < out@.len() implies valid_time(#[trigger] out@[k]) by {
                    if k < j {
                        assert(out@[k] == before[k]);
                    } else if k > j {
                        assert(out@[k] == before[k - 1]);
                    }
                }
                assert forall|x: WakeTime| out@.contains(x) <==> post.contains(x) by {
                    if out@.contains(x) {
                        let w = choose|w: int| 0 <= w < out@.len() && #[trigger] out@[w] == x;
                        if w < j {
                            assert(before[w] == x);
                        } else if w > j {
                            assert(before[w - 1] == x);
                        }
                        if x != t {
                            assert(before.contains(x));
                            assert(pre.contains(x));
                            let v = choose|v: int| 0 <= v < i && #[trigger] pre[v] == x;
                            assert(post[v] == x);
                        } else {
                            assert(post[i as int] == x);
                        }
                    }
                    if post.contains(x) {
                        let v = choose|v: int| 0 <= v < i + 1 && #[trigger] post[v] == x;
                        if v == i {
                            assert(out@[j as int] == x);
                        } else {
                            assert(pre[v] == x);
                            assert(before.contains(x));
                            let w = choose|w: int| 0 <= w < before.len() && #[trigger] before[w] == x;
                            if w < j {
                                assert(out@[w] == x);
                            } else {
                                assert(out@[w + 1] == x);
                            }
                        }
                    }
                }
            }
        }
        i = i + 1;
    }
    assert(times@.take(n as int) =~= times@);
    out
}

/// `str::parse::<u32>`: an optional `+`, then decimal digits that fit.
pub open spec fn parse_u32(s: Seq<char>) -> Option<u32> {
    match parse_u64(s) {
        Some(v) => if v <= u32::MAX {
            Some(v as u32)
        } else {
            None
        },
        None => None,
    }
}

fn parse_u32_in(v: &[char], lo: usize, hi: usize) -> (r: Option<u32>)
    requires
        lo <= hi <= v@.len(),
    ensures
        r == parse_u32(v@.subrange(lo as int, hi as int)),
{
    match parse_u64_exec(v, lo, hi) {
        Some(x) => if x <= 0xffff_ffff {
            Some(x as u32)
        } else {
            None
        },
        None => None,
    }
}

/// A wake-up entry read as `HH:MM` (trimmed, each part trimmed and a
/// plain number), or the error naming the trimmed entry.
pub open spec fn wake_time_of(entry: Seq<char>) -> Result<WakeTime, Seq<char>> {
    let e = trim(entry);
    let quoted = "wake-up `"@ + e;
    match find_char(e, ':') {
        None => Err(quoted + "` should be HH:MM"@),
        Some(i) => {
            let ms = e.skip(i + 1);
            if find_char(ms, ':') is Some {
                Err(quoted + "` should be HH:MM"@)
            } else {
                match parse_u32(trim(e.take(i))) {
                    None => Err(quoted + "` has an invalid hour"@),
                    Some(h) => match parse_u32(trim(ms)) {
                        None => Err(quoted + "` has an invalid minute"@),
                        Some(m) => if h < 24 && m < 60 {
                            Ok(WakeTime { hour: h, minute: m })
                        } else {
                            Err(quoted + "` is not a valid time of day"@)
                        },
                    },
                }
            }
        },
    }
}

fn wake_error(e: &str, tail: &str) -> (r: String)
    ensures
        r@ == "wake-up `"@ + e@ + tail@,
{
    let mut s = String::new();
    push_str(&mut s, "wake-up `");
    push_str(&mut s, e);
    push_str(&mut s, tail);
    assert(Seq::<char>::empty() + "wake-up `"@ =~= "wake-up `"@);
    s
}

/// Read one wake-up time.
pub fn parse_wake_time(entry: &str) -> (r: Result<WakeTime, String>)
    ensures
        match (r, wake_time_of(entry@)) {
            (Ok(t), Ok(u)) => t == u && valid_time(t),
            (Err(m), Err(e)) => m@ == e,
            _ => false,
        },
{
    let v = chars_of(entry);
    let (i0, j0) = trim_bounds(&v);
    let e = string_in(&v, i0, j0);
    let w = chars_of(e.as_str());
    let n = w.len();
    assert(w@.subrange(0, n as int) =~= w@);
    let k = match find_char_in(&w, ':', 0, n) {
        None => return Err(wake_error(e.as_str(), "` should be HH:MM")),
        Some(k) => k,
    };
    assert(w@.subrange(k + 1, n as int) =~= w@.skip(k + 1));
    assert(w@.subrange(0, k as int) =~= w@.take(k as int));
    if find_char_in(&w, ':', k + 1, n).is_some() {
        return Err(wake_error(e.as_str(), "` should be HH:MM"));
    }
    let (a, b) = trim_range(&w, 0, k);
    let hour = match parse_u32_in(&w, a, b) {
        None => return Err(wake_error(e.as_str(), "` has an invalid hour")),
        Some(h) => h,
    };
    let (c, d) = trim_range(&w, k + 1, n);
    let minute = match parse_u32_in(&w, c, d) {
        None => return Err(wake_error(e.as_str(), "` has an invalid minute")),
        Some(m) => m,
    };
    if hour < 24 && minute < 60 {
        Ok(WakeTime { hour, minute })
    } else {
        Err(wake_error(e.as_str(), "` is not a valid time of day"))
    }
}

/// Every entry read, or the error of the first that is not a time.
pub open spec fn wake_list_of(entries: Seq<String>) -> Result<Seq<WakeTime>, Seq<char>>
    decreases entries.len(),
{
    if entries.len() == 0 {
        Ok(Seq::empty())
    } else {
        match wake_list_of(entries.drop_last()) {
            Err(e) => Err(e),
            Ok(front) => match wake_time_of(entries.last()@) {
                Err(e) => Err(e),
                Ok(t) => Ok(front.push(t)),
            },
        }
    }
}

proof fn lemma_wake_list_error_stays(entries: Seq<String>, k: int)
    requires
        0 <= k <= entries.len(),
        wake_list_of(entries.take(k)) is Err,
    ensures
        wake_list_of(entries) == wake_list_of(entries.take(k)),
    decreases entries.len() - k,
{
    if k < entries.len() {
        assert(entries.take(k + 1).drop_last() =~= entries.take(k));
        lemma_wake_list_error_stays(entries, k + 1);
    } else {
        assert(entries.take(k) =~= entries);
    }
}

/// Read a list of wake-up times, in order.
pub fn parse_wake_list(entries: &[String]) -> (r: Result<Vec<WakeTime>, String>)
    ensures
        match (r, wake_list_of(entries@)) {
            (Ok(v), Ok(ts)) => v@ == ts && forall|i: int| 0 <= i < v@.len() ==> valid_time(#[trigger] v@[i]),
            (Err(m), Err(e)) => m@ == e,
            _ => false,
        },
{
    let n = entries.len();
    let mut out: Vec<WakeTime> = Vec::new();
    let mut i: usize = 0;
    assert(entries@.take(0) =~= Seq::<String>::empty());
    while i < n
        invariant
            n == entries@.len(),
            i <= n,
            wake_list_of(entries@.take(i as int)) == Ok::<Seq<WakeTime>, Seq<char>>(out@),
            forall|k: int| 0 <= k < out@.len() ==> valid_time(#[trigger] out@[k]),
        decreases n - i,
    {
        assert(entries@.take(i + 1).drop_last() =~= entries@.take(i as int));
        assert(entries@.take(i + 1).last() == entries@[i as int]);
        match parse_wake_time(entries[i].as_str()) {
            Err(m) => {
                proof {
                    lemma_wake_list_error_stays(entries@, i + 1);
                }
                return Err(m);
            },
            Ok(t) => {
                out.push(t);
            },
        }
        i = i + 1;
    }
    assert(entries@.take(n as int) =~= entries@);
    Ok(out)
}

/// A weekday key of the `[wake-up]` table, Monday 0 to Sunday 6: short or
/// long English names, any ASCII case, trailing dots ignored.
pub open spec fn day_index_of(k: Seq<char>) -> Option<usize> {
    if k == "mon"@ || k == "monday"@ {
        Some(0)
    } else if k == "tue"@ || k == "tues"@ || k == "tuesday"@ {
        Some(1)
    } else if k == "wed"@ || k == "wednesday"@ {
        Some(2)
    } else if k == "thu"@ || k == "thur"@ || k == "thurs"@ || k == "thursday"@ {
        Some(3)
    } else if k == "fri"@ || k == "friday"@ {
        Some(4)
    } else if k == "sat"@ || k == "saturday"@ {
        Some(5)
    } else if k == "sun"@ || k == "sunday"@ {
        Some(6)
    } else {
        None
    }
}

/// The key as it is matched: trimmed, lowercase, trailing dots dropped.
pub open spec fn day_key_form(key: Seq<char>) -> Seq<char> {
    trim_char_end(lower_seq(trim(key)), '.')
}

fn is_word(k: &[char], w: &str) -> (r: bool)
    ensures
        r == (k@ == w@),
{
    let c = chars_of(w);
    same_chars(k, c.as_slice())
}

/// Pieces that [`WeeklyWakes::parse_day_key`] and the `[wake-up]` table
/// share.
impl WeeklyWakes {
    pub fn parse_day_key(key: &str) -> (r: Result<usize, String>)
        ensures
            match (r, day_index_of(day_key_form(key@))) {
                (Ok(i), Some(j)) => i == j,
                (Err(m), None) => m@ == "unknown wake-up day `"@ + day_key_form(key@)
                    + "` (use mon, tue, wed, thu, fri, sat, sun)"@,
                _ => false,
            },
    {
        let v = chars_of(key);
        let (i, j) = trim_bounds(&v);
        let t = vstd::slice::slice_subrange(v.as_slice(), i, j);
        let l = to_lower(t);
        let end = l.len();
        assert(l@.subrange(0, end as int) =~= l@);
        let e = crate::text::end_char(&l, '.', 0, end);
        let k = vstd::slice::slice_subrange(l.as_slice(), 0, e);
        if is_word(k, "mon") || is_word(k, "monday") {
            Ok(0)
        } else if is_word(k, "tue") || is_word(k, "tues") || is_word(k, "tuesday") {
            Ok(1)
        } else if is_word(k, "wed") || is_word(k, "wednesday") {
            Ok(2)
        } else if is_word(k, "thu") || is_word(k, "thur") || is_word(k, "thurs") || is_word(k, "thursday") {
            Ok(3)
        } else if is_word(k, "fri") || is_word(k, "friday") {
            Ok(4)
        } else if is_word(k, "sat") || is_word(k, "saturday") {
            Ok(5)
        } else if is_word(k, "sun") || is_word(k, "sunday") {
            Ok(6)
        } else {
            let mut m = String::new();
            push_str(&mut m, "unknown wake-up day `");
            let other = string_of(k);
            push_str(&mut m, other.as_str());
            push_str(&mut m, "` (use mon, tue, wed, thu, fri, sat, sun)");
            assert(Seq::<char>::empty() + "unknown wake-up day `"@ =~= "unknown wake-up day `"@);
            Err(m)
        }
    }
}

/// Wake times for each weekday, Monday first; each day sorted without
/// repeats. An empty day is skipped when scheduling.
pub struct WeeklyWakes {
    days: Vec<Vec<WakeTime>>,
}

impl View for WeeklyWakes {
    type V = Seq<Seq<WakeTime>>;

    closed spec fn view(&self) -> Seq<Seq<WakeTime>> {
        self.days@.map_values(|d: Vec<WakeTime>| d@)
    }
}

impl WeeklyWakes {
    #[verifier::type_invariant]
    spec fn inv(self) -> bool {
        &&& self.days@.len() == 7
        &&& forall|i: int| 0 <= i < 7 ==> sorted_distinct(#[trigger] self.days@[i]@)
    }

    /// No wake-up times on any day.
    pub fn empty() -> (w: Self)
        ensures
            w@.len() == 7,
            forall|i: int| 0 <= i < 7 ==> (#[trigger] w@[i]).len() == 0,
    {
        let mut days: Vec<Vec<WakeTime>> = Vec::new();
        let mut i: usize = 0;
        while i < 7
            invariant
                i <= 7,
                days@.len() == i,
                forall|k: int| 0 <= k < i ==> (#[trigger] days@[k])@.len() == 0,
            decreases 7 - i,
        {
            days.push(Vec::new());
            i = i + 1;
        }
        let w = WeeklyWakes { days };
        assert(w@.len() == 7);
        w
    }

    /// The given times for each weekday, each day sorted without repeats.
    pub fn from_days(days: Vec<Vec<WakeTime>>) -> (w: Self)
        requires
            days@.len() == 7,
            forall|i: int, k: int|
                0 <= i < 7 && 0 <= k < days@[i]@.len() ==> valid_time(#[trigger] days@[i]@[k]),
        ensures
            w@.len() == 7,
            forall|i: int| 0 <= i < 7 ==> sorted_set_of(#[trigger] w@[i], days@[i]@),
    {
        let mut out: Vec<Vec<WakeTime>> = Vec::new();
        let mut i: usize = 0;
        while i < 7
            invariant
                i <= 7,
                days@.len() == 7,
                forall|a: int, k: int|
                    0 <= a < 7 && 0 <= k < days@[a]@.len() ==> valid_time(#[trigger] days@[a]@[k]),
                out@.len() == i,
                forall|k: int| 0 <= k < i ==> sorted_set_of(#[trigger] out@[k]@, days@[k]@),
            decreases 7 - i,
        {
            let d = sort_dedup(days[i].as_slice());
            out.push(d);
            i = i + 1;
        }
        let w = WeeklyWakes { days: out };
        assert forall|k: int| 0 <= k < 7 implies sorted_set_of(#[trigger] w@[k], days@[k]@) by {
            assert(w@[k] == out@[k]@);
        }
        w
    }

    /// The same times every day, sorted without repeats.
    pub fn every_day(times: &[WakeTime]) -> (w: Self)
        requires
            forall|k: int| 0 <= k < times@.len() ==> valid_time(#[trigger] times@[k]),
        ensures
            w@.len() == 7,
            forall|i: int| 0 <= i < 7 ==> sorted_set_of(#[trigger] w@[i], times@),
    {
        let sorted = sort_dedup(times);
        let mut days: Vec<Vec<WakeTime>> = Vec::new();
        let mut i: usize = 0;
        while i < 7
            invariant
                i <= 7,
                days@.len() == i,
                sorted_set_of(sorted@, times@),
                forall|k: int| 0 <= k < i ==> (#[trigger] days@[k])@ == sorted@,
            decreases 7 - i,
        {
            days.push(sorted.clone());
            i = i + 1;
        }
        let w = WeeklyWakes { days };
        assert forall|k: int| 0 <= k < 7 implies sorted_set_of(#[trigger] w@[k], times@) by {
            assert(w@[k] == days@[k]@);
        }
        w
    }

    /// The times of weekday `idx` (Monday 0), sorted without repeats.
    pub fn get_index(&self, idx: usize) -> (r: &[WakeTime])
        requires
            idx < 7,
        ensures
            r@ == self@[idx as int],
            sorted_distinct(r@),
            self@.len() == 7,
    {
        proof {
            use_type_invariant(self);
        }
        self.days[idx].as_slice()
    }

    /// No day has a wake-up time.
    pub fn is_empty(&self) -> (r: bool)
        ensures
            r == forall|i: int| 0 <= i < 7 ==> (#[trigger] self@[i]).len() == 0,
    {
        proof {
            use_type_invariant(self);
        }
        let mut i: usize = 0;
        while i < 7
            invariant
                i <= 7,
                self.days@.len() == 7,
                forall|k: int| 0 <= k < i ==> (#[trigger] self@[k]).len() == 0,
            decreases 7 - i,
        {
            if self.days[i].len() != 0 {
                assert(self@[i as int].len() != 0);
                return false;
            }
            i = i + 1;
        }
        true
    }

    /// Every day has the same times.
    pub fn is_uniform(&self) -> (r: bool)
        ensures
            r == forall|i: int| 0 <= i < 6 ==> #[trigger] self@[i] == self@[i + 1],
    {
        proof {
            use_type_invariant(self);
        }
        let mut i: usize = 0;
        while i < 6
            invariant
                i <= 6,
                self.days@.len() == 7,
                forall|k: int| 0 <= k < i ==> #[trigger] self@[k] == self@[k + 1],
            decreases 6 - i,
        {
            if !same_times(self.days[i].as_slice(), self.days[i + 1].as_slice()) {
                assert(self@[i as int] != self@[i + 1]);
                return false;
            }
            i = i + 1;
        }
        true
    }

    /// A copy of the week.
    pub fn duplicate(&self) -> (r: Self)
        ensures
            r@ == self@,
    {
        proof {
            use_type_invariant(self);
        }
        let mut days: Vec<Vec<WakeTime>> = Vec::new();
        let mut i: usize = 0;
        while i < 7
            invariant
                i <= 7,
                self.days@.len() == 7,
                forall|k: int| 0 <= k < 7 ==> sorted_distinct(#[trigger] self.days@[k]@),
                days@.len() == i,
                forall|k: int| 0 <= k < i ==> (#[trigger] days@[k])@ == self.days@[k]@,
            decreases 7 - i,
        {
            days.push(self.days[i].clone());
            i = i + 1;
        }
        let r = WeeklyWakes { days };
        assert(r@ =~= self@);
        r
    }

    /// The shared list when every day is the same; otherwise `None`.
    pub fn shared_times(&self) -> (r: Option<&[WakeTime]>)
        ensures
            (forall|i: int| 0 <= i < 6 ==> #[trigger] self@[i] == self@[i + 1]) ==> (r matches Some(s)
                && s@ == self@[0]),
            !(forall|i: int| 0 <= i < 6 ==> #[trigger] self@[i] == self@[i + 1]) ==> r is None,
            r matches Some(s) ==> sorted_distinct(s@),
            self@.len() == 7,
    {
        let _ = self.get_index(0);
        if self.is_uniform() {
            Some(self.get_index(0))
        } else {
            None
        }
    }
}

fn same_times(a: &[WakeTime], b: &[WakeTime]) -> (r: bool)
    ensures
        r == (a@ == b@),
{
    if a.len() != b.len() {
        return false;
    }
    let n = a.len();
    let mut i: usize = 0;
    while i < n
        invariant
            n == a@.len(),
            n == b@.len(),
            i <= n,
            forall|k: int| 0 <= k < i ==> a@[k] == b@[k],
        decreases n - i,
    {
        if a[i].hour != b[i].hour || a[i].minute != b[i].minute {
            return false;
        }
        i = i + 1;
    }
    assert(a@ =~= b@);
    true
}

/// `NaiveTime::format("%H:%M")` of a time: two-digit hour, colon,
/// two-digit minute.
pub open spec fn hhmm(t: WakeTime) -> Seq<char> {
    seq![
        digit_char((t.hour / 10) as nat),
        digit_char((t.hour % 10) as nat),
        ':',
        digit_char((t.minute / 10) as nat),
        digit_char((t.minute % 10) as nat),
    ]
}

pub open spec fn hhmm_list(ts: Seq<WakeTime>) -> Seq<Seq<char>> {
    ts.map_values(|t: WakeTime| hhmm(t))
}

pub(crate) fn hhmm_text(t: WakeTime) -> (r: String)
    requires
        valid_time(t),
    ensures
        r@ == hhmm(t),
{
    let mut s = digit_string((t.hour / 10) as u64);
    let b = digit_string((t.hour % 10) as u64);
    let c = digit_string((t.minute / 10) as u64);
    let d = digit_string((t.minute % 10) as u64);
    push_str(&mut s, b.as_str());
    push_str(&mut s, ":");
    push_str(&mut s, c.as_str());
    push_str(&mut s, d.as_str());
    proof {
        reveal_strlit(":");
    }
    assert(s@ =~= hhmm(t));
    s
}

/// Each time as `HH:MM`.
pub fn format_wake_times(times: &[WakeTime]) -> (r: Vec<String>)
    requires
        forall|k: int| 0 <= k < times@.len() ==> valid_time(#[trigger] times@[k]),
    ensures
        texts(r@) == hhmm_list(times@),
{
    let n = times.len();
    let mut out: Vec<String> = Vec::new();
    let mut i: usize = 0;
    while i < n
        invariant
            n == times@.len(),
            i <= n,
            forall|k: int| 0 <= k < times@.len() ==> valid_time(#[trigger] times@[k]),
            texts(out@) == hhmm_list(times@.take(i as int)),
        decreases n - i,
    {
        let ghost before = out@;
        out.push(hhmm_text(times[i]));
        assert(texts(out@) =~= texts(before).push(hhmm(times@[i as int])));
        assert(hhmm_list(times@.take(i + 1)) =~= hhmm_list(times@.take(i as int)).push(hhmm(times@[i as int])));
        i = i + 1;
    }
    assert(times@.take(n as int) =~= times@);
    out
}

/// Every day's times, Monday first.
pub open spec fn all_days(w: Seq<Seq<WakeTime>>) -> Seq<WakeTime> {
    w[0] + w[1] + w[2] + w[3] + w[4] + w[5] + w[6]
}

/// The single wake-up list the family UI shows: the shared list when every
/// day agrees, else every time of the week, sorted without repeats.
pub fn format_public_wake_list(w: &WeeklyWakes) -> (r: Vec<String>)
    ensures
        (forall|i: int| 0 <= i < 6 ==> #[trigger] w@[i] == w@[i + 1]) ==> texts(r@) == hhmm_list(w@[0]),
        !(forall|i: int| 0 <= i < 6 ==> #[trigger] w@[i] == w@[i + 1]) ==> exists|all: Seq<WakeTime>|
            sorted_set_of(all, all_days(w@)) && texts(r@) == hhmm_list(all),
{
    if let Some(shared) = w.shared_times() {
        return format_wake_times(shared);
    }
    let mut joined: Vec<WakeTime> = Vec::new();
    let mut i: usize = 0;
    let _ = w.get_index(0);
    let ghost w0 = w@;
    while i < 7
        invariant
            i <= 7,
            w@ == w0,
            w0.len() == 7,
            joined@ == (if i == 0 { Seq::empty() } else if i == 1 { w0[0] } else if i == 2 { w0[0] + w0[1] } else if i == 3 {
                w0[0] + w0[1] + w0[2]
            } else if i == 4 { w0[0] + w0[1] + w0[2] + w0[3] } else if i == 5 {
                w0[0] + w0[1] + w0[2] + w0[3] + w0[4]
            } else if i == 6 { w0[0] + w0[1] + w0[2] + w0[3] + w0[4] + w0[5] } else { all_days(w0) }),
            forall|k: int| 0 <= k < joined@.len() ==> valid_time(#[trigger] joined@[k]),
        decreases 7 - i,
    {
        let day = w.get_index(i);
        let ghost before = joined@;
        let m = day.len();
        let mut j: usize = 0;
        while j < m
            invariant
                m == day@.len(),
                j <= m,
                sorted_distinct(day@),
                joined@ == before + day@.take(j as int),
                forall|k: int| 0 <= k < before.len() ==> valid_time(#[trigger] before[k]),
            decreases m - j,
        {
            joined.push(day[j]);
            assert(before + day@.take(j + 1) =~= (before + day@.take(j as int)).push(day@[j as int]));
            j = j + 1;
        }
        assert(day@.take(m as int) =~= day@);
        assert forall|k: int| 0 <= k < joined@.len() implies valid_time(#[trigger] joined@[k]) by {
            if k >= before.len() {
                assert(joined@[k] == day@[k - before.len()]);
            }
        }
        i = i + 1;
    }
    let all = sort_dedup(joined.as_slice());
    format_wake_times(all.as_slice())
}

/// Each weekday's times as the family UI edits them.
pub fn format_wake_days(w: &WeeklyWakes) -> (r: PublicWakeDays)
    ensures
        texts(r.mon@) == hhmm_list(w@[0]),
        texts(r.tue@) == hhmm_list(w@[1]),
        texts(r.wed@) == hhmm_list(w@[2]),
        texts(r.thu@) == hhmm_list(w@[3]),
        texts(r.fri@) == hhmm_list(w@[4]),
        texts(r.sat@) == hhmm_list(w@[5]),
        texts(r.sun@) == hhmm_list(w@[6]),
{
    PublicWakeDays {
        mon: format_wake_times(w.get_index(0)),
        tue: format_wake_times(w.get_index(1)),
        wed: format_wake_times(w.get_index(2)),
        thu: format_wake_times(w.get_index(3)),
        fri: format_wake_times(w.get_index(4)),
        sat: format_wake_times(w.get_index(5)),
        sun: format_wake_times(w.get_index(6)),
    }
}

/// The week a family-UI patch sets: each day's list read, Monday first;
/// the error of the first entry that is not a time.
pub open spec fn public_week_of(d: PublicWakeDays) -> Result<Seq<Seq<WakeTime>>, Seq<char>> {
    let lists = seq![d.mon@, d.tue@, d.wed@, d.thu@, d.fri@, d.sat@, d.sun@];
    week_lists_of(lists, 0, Seq::empty())
}

/// Read the lists from `i` on after `done`, stopping at the first error.
pub open spec fn week_lists_of(lists: Seq<Seq<String>>, i: int, done: Seq<Seq<WakeTime>>) -> Result<
    Seq<Seq<WakeTime>>,
    Seq<char>,
>
    decreases lists.len() - i,
{
    if i >= lists.len() {
        Ok(done)
    } else {
        match wake_list_of(lists[i]) {
            Err(e) => Err(e),
            Ok(ts) => week_lists_of(lists, i + 1, done.push(ts)),
        }
    }
}

/// The wake-up week a family-UI patch describes.
pub fn weekly_from_public_days(d: &PublicWakeDays) -> (r: Result<WeeklyWakes, String>)
    ensures
        match (r, public_week_of(*d)) {
            (Ok(w), Ok(lists)) => w@.len() == 7 && lists.len() == 7 && forall|i: int|
                0 <= i < 7 ==> sorted_set_of(#[trigger] w@[i], lists[i]),
            (Err(m), Err(e)) => m@ == e,
            _ => false,
        },
{
    let ghost lists = seq![d.mon@, d.tue@, d.wed@, d.thu@, d.fri@, d.sat@, d.sun@];
    let mut days: Vec<Vec<WakeTime>> = Vec::new();
    let mut i: usize = 0;
    assert(days@.map_values(|v: Vec<WakeTime>| v@) =~= Seq::<Seq<WakeTime>>::empty());
    while i < 7
        invariant
            i <= 7,
            lists == seq![d.mon@, d.tue@, d.wed@, d.thu@, d.fri@, d.sat@, d.sun@],
            days@.len() == i,
            week_lists_of(lists, 0, Seq::empty()) == week_lists_of(lists, i as int, days@.map_values(|v: Vec<WakeTime>| v@)),
            forall|a: int, k: int|
                0 <= a < i && 0 <= k < days@[a]@.len() ==> valid_time(#[trigger] days@[a]@[k]),
        decreases 7 - i,
    {
        let list = if i == 0 {
            &d.mon
        } else if i == 1 {
            &d.tue
        } else if i == 2 {
            &d.wed
        } else if i == 3 {
            &d.thu
        } else if i == 4 {
            &d.fri
        } else if i == 5 {
            &d.sat
        } else {
            &d.sun
        };
        assert(list@ == lists[i as int]);
        let ghost before = days@;
        match parse_wake_list(list.as_slice()) {
            Err(m) => {
                assert(week_lists_of(lists, i as int, before.map_values(|v: Vec<WakeTime>| v@)) == Err::<Seq<Seq<WakeTime>>, Seq<char>>(m@));
                return Err(m);
            },
            Ok(ts) => {
                let ghost tv = ts@;
                days.push(ts);
                assert(days@.map_values(|v: Vec<WakeTime>| v@) =~= before.map_values(|v: Vec<WakeTime>| v@).push(tv));
                assert forall|a: int, k: int|
                    0 <= a < i + 1 && 0 <= k < days@[a]@.len() implies valid_time(#[trigger] days@[a]@[k]) by {
                    if a < i {
                        assert(days@[a] == before[a]);
                    }
                }
            },
        }
        i = i + 1;
    }
    let ghost final_lists = days@.map_values(|v: Vec<WakeTime>| v@);
    assert(week_lists_of(lists, 7, final_lists) == Ok::<Seq<Seq<WakeTime>>, Seq<char>>(final_lists));
    let w = WeeklyWakes::from_days(days);
    assert forall|k: int| 0 <= k < 7 implies sorted_set_of(#[trigger] w@[k], final_lists[k]) by {}
    Ok(w)
}

/// A `wake-up` setting as the config file spells it: one list for every
/// day, or a table of weekday keys to lists (in the table's key order).
pub enum RawWeeklyWakes {
    Daily(Vec<String>),
    Weekly(Vec<(String, Vec<String>)>),
}

/// Read the `[wake-up]` table rows from the first on: each key names a
/// weekday not named before, each list is read; the first error stops it.
pub open spec fn table_week_of(rows: Seq<(String, Vec<String>)>, days: Seq<Seq<WakeTime>>, seen: Seq<bool>) -> Result<
    Seq<Seq<WakeTime>>,
    Seq<char>,
>
    decreases rows.len(),
{
    if rows.len() == 0 {
        Ok(days)
    } else {
        let key = rows[0].0@;
        match day_index_of(day_key_form(key)) {
            None => Err("unknown wake-up day `"@ + day_key_form(key) + "` (use mon, tue, wed, thu, fri, sat, sun)"@),
            Some(idx) => if seen[idx as int] {
                Err("wake-up day `"@ + key + "` specified more than once"@)
            } else {
                match wake_list_of(rows[0].1@) {
                    Err(e) => Err(e),
                    Ok(ts) => table_week_of(rows.drop_first(), days.update(idx as int, ts), seen.update(idx as int, true)),
                }
            },
        }
    }
}

/// The week a `wake-up` setting describes.
pub open spec fn raw_week_of(raw: RawWeeklyWakes) -> Result<Seq<Seq<WakeTime>>, Seq<char>> {
    match raw {
        RawWeeklyWakes::Daily(v) => match wake_list_of(v@) {
            Err(e) => Err(e),
            Ok(ts) => Ok(Seq::new(7, |i: int| ts)),
        },
        RawWeeklyWakes::Weekly(rows) => table_week_of(
            rows@,
            Seq::new(7, |i: int| Seq::<WakeTime>::empty()),
            Seq::new(7, |i: int| false),
        ),
    }
}

/// Read a `wake-up` setting into the week, each day sorted without repeats.
pub fn weekly_from_raw(raw: RawWeeklyWakes) -> (r: Result<WeeklyWakes, String>)
    ensures
        match (r, raw_week_of(raw)) {
            (Ok(w), Ok(lists)) => w@.len() == 7 && lists.len() == 7 && forall|i: int|
                0 <= i < 7 ==> sorted_set_of(#[trigger] w@[i], lists[i]),
            (Err(m), Err(e)) => m@ == e,
            _ => false,
        },
{
    match raw {
        RawWeeklyWakes::Daily(times) => {
            let parsed = parse_wake_list(times.as_slice())?;
            let w = WeeklyWakes::every_day(parsed.as_slice());
            proof {
                let ts = parsed@;
                assert forall|k: int| 0 <= k < 7 implies sorted_set_of(#[trigger] w@[k], Seq::new(7, |i: int| ts)[k]) by {}
            }
            Ok(w)
        },
        RawWeeklyWakes::Weekly(rows) => weekly_from_table(rows),
    }
}

/// Read the `[wake-up]` table rows.
fn weekly_from_table(rows: Vec<(String, Vec<String>)>) -> (r: Result<WeeklyWakes, String>)
    ensures
        match (r, table_week_of(rows@, Seq::new(7, |i: int| Seq::<WakeTime>::empty()), Seq::new(7, |i: int| false))) {
            (Ok(w), Ok(lists)) => w@.len() == 7 && lists.len() == 7 && forall|i: int|
                0 <= i < 7 ==> sorted_set_of(#[trigger] w@[i], lists[i]),
            (Err(m), Err(e)) => m@ == e,
            _ => false,
        },
{
    let ghost all = rows@;
    let mut days: Vec<Vec<WakeTime>> = Vec::new();
    let mut seen: Vec<bool> = Vec::new();
    let mut k: usize = 0;
    while k < 7
        invariant
            k <= 7,
            days@.len() == k,
            seen@.len() == k,
            forall|a: int| 0 <= a < k ==> (#[trigger] days@[a])@.len() == 0,
            forall|a: int| 0 <= a < k ==> !(#[trigger] seen@[a]),
        decreases 7 - k,
    {
        days.push(Vec::new());
        seen.push(false);
        k = k + 1;
    }
    let ghost dv = days@.map_values(|v: Vec<WakeTime>| v@);
    assert forall|a: int| 0 <= a < 7 implies #[trigger] dv[a] =~= Seq::<WakeTime>::empty() by {
        assert(days@[a]@.len() == 0);
    }
    assert(days@.map_values(|v: Vec<WakeTime>| v@) =~= Seq::new(7, |i: int| Seq::<WakeTime>::empty()));
    assert(seen@ =~= Seq::new(7, |i: int| false));
    let n = rows.len();
    let mut i: usize = 0;
    assert(all.skip(0) =~= all);
    while i < n
        invariant
            n == all.len(),
            all == rows@,
            i <= n,
            days@.len() == 7,
            seen@.len() == 7,
            forall|a: int, b: int|
                0 <= a < 7 && 0 <= b < days@[a]@.len() ==> valid_time(#[trigger] days@[a]@[b]),
            table_week_of(all, Seq::new(7, |i: int| Seq::<WakeTime>::empty()), Seq::new(7, |i: int| false))
                == table_week_of(
                all.skip(i as int),
                days@.map_values(|v: Vec<WakeTime>| v@),
                seen@,
            ),
        decreases n - i,
    {
        let ghost rest = all.skip(i as int);
        assert(rest[0] == all[i as int]);
        assert(rest.drop_first() =~= all.skip(i + 1));
        let idx = WeeklyWakes::parse_day_key(rows[i].0.as_str())?;
        if seen[idx] {
            let mut m = String::new();
            push_str(&mut m, "wake-up day `");
            push_str(&mut m, rows[i].0.as_str());
            push_str(&mut m, "` specified more than once");
            assert(Seq::<char>::empty() + "wake-up day `"@ =~= "wake-up day `"@);
            assert(table_week_of(rest, days@.map_values(|v: Vec<WakeTime>| v@), seen@) == Err::<
                Seq<Seq<WakeTime>>,
                Seq<char>,
            >("wake-up day `"@ + all[i as int].0@ + "` specified more than once"@));
            return Err(m);
        }
        let ts = parse_wake_list(rows[i].1.as_slice())?;
        let ghost tv = ts@;
        let ghost before = days@;
        seen.set(idx, true);
        days.set(idx, ts);
        assert(days@.map_values(|v: Vec<WakeTime>| v@) =~= before.map_values(|v: Vec<WakeTime>| v@).update(idx as int, tv));
        assert forall|a: int, b: int|
            0 <= a < 7 && 0 <= b < days@[a]@.len() implies valid_time(#[trigger] days@[a]@[b]) by {
            if a != idx {
                assert(days@[a] == before[a]);
            }
        }
        i = i + 1;
    }
    assert(all.skip(n as int) =~= Seq::<(String, Vec<String>)>::empty());
    let ghost lists = days@.map_values(|v: Vec<WakeTime>| v@);
    let w = WeeklyWakes::from_days(days);
    assert forall|k: int| 0 <= k < 7 implies sorted_set_of(#[trigger] w@[k], lists[k]) by {}
    Ok(w)
}

} // verus!
