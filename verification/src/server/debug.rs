//! The debug page's small rules: safe frame names, paging, labels.

use vstd::prelude::*;
use crate::server::frame::UtcStamp;
use crate::text::{byte_len, chars_of, decimal, decimal_string, digit_char, push_str, string_in, utf8_len};

verus! {

/// Polls the debug log keeps; older ones are dropped.
pub const MAX_POLLS: usize = 500;

/// Polls on one debug page.
pub const POLLS_PER_PAGE: usize = 20;

/// One Pico poll as the debug log records it.
pub struct Poll {
    pub t: UtcStamp,
    pub status: u16,
    pub offered: String,
    pub checksum: String,
    pub mv: u32,
    pub pct: u16,
    pub usb: bool,
    pub wake: String,
    /// Seconds the Pico was told to sleep after this poll.
    pub sleep_s: u64,
    /// Wall-clock instant that sleep was aiming for (not the POWMAN seconds).
    pub wake_at: Option<UtcStamp>,
}

/// One poll as the debug page lists it.
pub struct DebugPollView {
    pub when: String,
    pub status: u16,
    pub status_label: String,
    pub pct: u16,
    pub mv: u32,
    pub usb: bool,
    pub wake: String,
    pub sleep_s: u64,
    pub has_image: bool,
    pub image_url: String,
    pub checksum_short: String,
}

/// ASCII hex digit.
pub open spec fn hex_char(c: char) -> bool {
    ('0' <= c && c <= '9') || ('a' <= c && c <= 'f') || ('A' <= c && c <= 'F')
}

/// 1 to 64 ASCII hex digits: safe to use as a file name.
pub open spec fn hex_checksum(s: Seq<char>) -> bool {
    1 <= utf8_len(s) <= 64 && forall|i: int| 0 <= i < s.len() ==> hex_char(#[trigger] s[i])
}

pub fn is_hex_checksum(s: &str) -> (r: bool)
    ensures
        r == hex_checksum(s@),
{
    let n = byte_len(s);
    if n < 1 || n > 64 {
        return false;
    }
    let v = chars_of(s);
    let m = v.len();
    let mut i: usize = 0;
    while i < m
        invariant
            m == v@.len(),
            v@ == s@,
            1 <= utf8_len(s@) <= 64,
            i <= m,
            forall|j: int| 0 <= j < i ==> hex_char(#[trigger] v@[j]),
        decreases m - i,
    {
        let c = v[i];
        if !(('0' <= c && c <= '9') || ('a' <= c && c <= 'f') || ('A' <= c && c <= 'F')) {
            assert(!hex_char(v@[i as int]));
            return false;
        }
        i = i + 1;
    }
    true
}

/// `(poll_count, page, page_count)`: the page clamped to the pages there are
/// (page 1 when there are none).
pub fn page_bounds(poll_count: usize, page: usize) -> (r: (usize, usize, usize))
    ensures
        r.0 == poll_count,
        r.2 == (poll_count + POLLS_PER_PAGE - 1) / POLLS_PER_PAGE as int,
        r.2 == 0 ==> r.1 == 1,
        r.2 > 0 ==> r.1 == if page < 1 {
            1
        } else if page > r.2 {
            r.2
        } else {
            page
        },
{
    let page_count = poll_count / POLLS_PER_PAGE + if poll_count % POLLS_PER_PAGE == 0 {
        0
    } else {
        1
    };
    let page = if page_count == 0 {
        1
    } else if page < 1 {
        1
    } else if page > page_count {
        page_count
    } else {
        page
    };
    (poll_count, page, page_count)
}

/// Label of a poll's HTTP status.
pub open spec fn status_label_of(status: u16) -> Seq<char> {
    if status == 200 {
        "200 new frame"@
    } else if status == 204 {
        "204 unchanged"@
    } else if status == 304 {
        "304 unchanged"@
    } else {
        "other"@
    }
}

pub fn status_label(status: u16) -> (r: &'static str)
    ensures
        r@ == status_label_of(status),
{
    match status {
        200 => "200 new frame",
        204 => "204 unchanged",
        304 => "304 unchanged",
        _ => "other",
    }
}

/// The first eight characters of a checksum.
pub fn checksum_short(checksum: &str) -> (r: String)
    ensures
        r@ == if checksum@.len() <= 8 {
            checksum@
        } else {
            checksum@.take(8)
        },
{
    let v = chars_of(checksum);
    let k = if v.len() <= 8 {
        v.len()
    } else {
        8
    };
    assert(v@.subrange(0, v@.len() as int) =~= v@);
    string_in(&v, 0, k)
}

/// How a span of time is phrased.
#[derive(Clone, Copy, Debug, PartialEq, Eq)]
pub enum HumanTone {
    Until,
    Overdue,
    Ago,
}

/// A span rounded to its nearest whole minute, hour or day.
pub struct HumanUnit {
    pub n: i64,
    pub word: &'static str,
    /// The count was rounded up past the whole units elapsed.
    pub about: bool,
}

/// Nearest whole minutes (at least one) below 50 minutes, nearest hours
/// below 36 hours, nearest days beyond; halves round up, so 1 h 59 m reads
/// as "about 2 hours", not "1 hour". Returns `(n, word, about)`.
pub open spec fn unit_of(secs: int) -> (int, Seq<char>, bool) {
    if secs < 50 * 60 {
        (if secs < 30 { 1 } else { (secs + 30) / 60 }, "min"@, false)
    } else if secs < 36 * 3600 {
        let n = (secs + 1800) / 3600;
        (n, if n == 1 { "hour"@ } else { "hours"@ }, n != secs / 3600)
    } else {
        let n = (secs + 43200) / 86400;
        (n, if n == 1 { "day"@ } else { "days"@ }, n != secs / 86400)
    }
}

pub fn rounded_human_unit(secs: i64) -> (r: HumanUnit)
    ensures
        (r.n as int, r.word@, r.about) == unit_of(secs as int),
        r.n >= 1,
{
    if secs < 50 * 60 {
        let n: i64 = if secs < 30 { 1 } else { (secs + 30) / 60 };
        return HumanUnit { n, word: "min", about: false };
    }
    if secs < 36 * 3600 {
        let n: i64 = (secs + 1800) / 3600;
        let floored: i64 = secs / 3600;
        return HumanUnit { n, word: if n == 1 { "hour" } else { "hours" }, about: n != floored };
    }
    let q: i64 = secs / 86400;
    let n: i64 = if secs % 86400 >= 43200 { q + 1 } else { q };
    assert(n == (secs + 43200) / 86400) by (nonlinear_arith)
        requires
            secs >= 0,
            q == secs / 86400,
            n == if secs % 86400 >= 43200 { q + 1 } else { q as int },
    ;
    HumanUnit { n, word: if n == 1 { "day" } else { "days" }, about: n != q }
}

/// A span of `secs` seconds (negative counts as zero) phrased in `tone`:
/// under a minute `any moment` / `overdue` / `just now`, else the rounded
/// unit, with `about` when it was rounded up.
pub open spec fn span_text(secs: int, tone: HumanTone) -> Seq<char> {
    let s = if secs < 0 { 0 } else { secs };
    if s < 60 {
        match tone {
            HumanTone::Until => "any moment"@,
            HumanTone::Overdue => "overdue"@,
            HumanTone::Ago => "just now"@,
        }
    } else {
        let (n, word, about) = unit_of(s);
        let count = decimal(n as nat) + " "@ + word;
        match tone {
            HumanTone::Until => if about { "in about "@ + count } else { "in "@ + count },
            HumanTone::Overdue => if about { "about "@ + count + " overdue"@ } else { count + " overdue"@ },
            HumanTone::Ago => if about { "about "@ + count + " ago"@ } else { count + " ago"@ },
        }
    }
}

fn concat(parts: &[&str]) -> (r: String)
    ensures
        r@ == parts@.fold_left(Seq::<char>::empty(), |acc: Seq<char>, p: &str| acc + p@),
{
    let mut s = String::new();
    let n = parts.len();
    let mut i: usize = 0;
    while i < n
        invariant
            n == parts@.len(),
            i <= n,
            s@ == parts@.take(i as int).fold_left(Seq::<char>::empty(), |acc: Seq<char>, p: &str| acc + p@),
        decreases n - i,
    {
        push_str(&mut s, parts[i]);
        proof {
            let f = |acc: Seq<char>, p: &str| acc + p@;
            assert(parts@.take(i + 1).drop_last() =~= parts@.take(i as int));
            parts@.take(i + 1).lemma_fold_left_split(Seq::<char>::empty(), f, i as int);
            reveal_with_fuel(Seq::fold_left, 2);
            assert(parts@.take(i + 1).subrange(i as int, i + 1) =~= seq![parts@[i as int]]);
            assert(parts@.take(i + 1).subrange(0, i as int) =~= parts@.take(i as int));
        }
        i = i + 1;
    }
    assert(parts@.take(n as int) =~= parts@);
    s
}

pub fn format_human_span(secs: i64, tone: HumanTone) -> (r: String)
    ensures
        r@ == span_text(secs as int, tone),
{
    let s: i64 = if secs < 0 { 0 } else { secs };
    if s < 60 {
        return match tone {
            HumanTone::Until => "any moment".to_string(),
            HumanTone::Overdue => "overdue".to_string(),
            HumanTone::Ago => "just now".to_string(),
        };
    }
    let unit = rounded_human_unit(s);
    let n = decimal_string(unit.n as u64);
    let ns = n.as_str();
    let w = unit.word;
    let parts: Vec<&str> = match tone {
        HumanTone::Until => if unit.about { vec!["in about ", ns, " ", w] } else { vec!["in ", ns, " ", w] },
        HumanTone::Overdue => if unit.about {
            vec!["about ", ns, " ", w, " overdue"]
        } else {
            vec![ns, " ", w, " overdue"]
        },
        HumanTone::Ago => if unit.about { vec!["about ", ns, " ", w, " ago"] } else { vec![ns, " ", w, " ago"] },
    };
    let r = concat(parts.as_slice());
    proof {
        reveal_with_fuel(Seq::fold_left, 6);
    }
    r
}

/// How long until a moment `secs_until` seconds away (negative: past it).
pub fn format_until(secs_until: i64) -> (r: String)
    requires
        secs_until > i64::MIN,
    ensures
        r@ == if secs_until >= 0 {
            span_text(secs_until as int, HumanTone::Until)
        } else {
            span_text(-secs_until, HumanTone::Overdue)
        },
{
    if secs_until >= 0 {
        format_human_span(secs_until, HumanTone::Until)
    } else {
        format_human_span(-secs_until, HumanTone::Overdue)
    }
}

/// How long ago a moment `secs_since` seconds back was (a future moment
/// reads as now).
pub fn format_rel(secs_since: i64) -> (r: String)
    ensures
        r@ == span_text(if secs_since < 0 { 0 } else { secs_since as int }, HumanTone::Ago),
{
    format_human_span(if secs_since < 0 { 0 } else { secs_since }, HumanTone::Ago)
}

/// `a / d` rounded to nearest, halves to even (how `{:.N}` rounds).
pub open spec fn round_half_even(a: nat, d: nat) -> nat {
    let q = a / d;
    let r = a % d;
    if 2 * r > d {
        q + 1
    } else if 2 * r < d {
        q
    } else if q % 2 == 1 {
        q + 1
    } else {
        q
    }
}

fn round_even(a: u64, d: u64) -> (r: u64)
    requires
        d > 0,
        a / d < u64::MAX,
    ensures
        r == round_half_even(a as nat, d as nat),
{
    let q = a / d;
    let rem = a % d;
    if rem > d - rem {
        q + 1
    } else if rem < d - rem {
        q
    } else if q % 2 == 1 {
        q + 1
    } else {
        q
    }
}

/// Binary size unit: `B`, `KB`, `MB`, `GB` for powers of 1024.
pub open spec fn unit_name(k: int) -> Seq<char> {
    if k == 0 {
        "B"@
    } else if k == 1 {
        "KB"@
    } else if k == 2 {
        "MB"@
    } else {
        "GB"@
    }
}

/// The largest unit, up to GB, that `n` bytes fill at least once.
pub open spec fn unit_index(n: nat) -> int {
    if n >= 1073741824 {
        3
    } else if n >= 1048576 {
        2
    } else if n >= 1024 {
        1
    } else {
        0
    }
}

pub open spec fn unit_size(k: int) -> nat {
    if k == 3 {
        1073741824
    } else if k == 2 {
        1048576
    } else if k == 1 {
        1024
    } else {
        1
    }
}

/// A byte count in binary units: whole bytes under 1 KB, else the value in
/// the largest unit with one decimal below ten and none from ten up.
pub open spec fn bytes_text(n: nat) -> Seq<char> {
    let k = unit_index(n);
    let d = unit_size(k);
    if k == 0 {
        decimal(n) + " B"@
    } else if n >= 10 * d {
        decimal(round_half_even(n, d)) + " "@ + unit_name(k)
    } else {
        let t = round_half_even(10 * n, d);
        decimal(t / 10) + seq!['.', digit_char(t % 10)] + " "@ + unit_name(k)
    }
}

pub fn format_bytes(n: u64) -> (r: String)
    ensures
        r@ == bytes_text(n as nat),
{
    let (k, d, name): (usize, u64, &str) = if n >= 1073741824 {
        (3, 1073741824, "GB")
    } else if n >= 1048576 {
        (2, 1048576, "MB")
    } else if n >= 1024 {
        (1, 1024, "KB")
    } else {
        (0, 1, "B")
    };
    let mut s = String::new();
    if k == 0 {
        let ds = decimal_string(n);
        push_str(&mut s, ds.as_str());
        push_str(&mut s, " B");
        assert(Seq::<char>::empty() + decimal(n as nat) =~= decimal(n as nat));
        return s;
    }
    if n / 10 >= d {
        assert(n >= 10 * d);
        let q = round_even(n, d);
        let ds = decimal_string(q);
        push_str(&mut s, ds.as_str());
        push_str(&mut s, " ");
        push_str(&mut s, name);
        assert(Seq::<char>::empty() + decimal(q as nat) =~= decimal(q as nat));
        return s;
    }
    assert(n < 10 * d);
    let t = round_even(10 * n, d);
    let whole = decimal_string(t / 10);
    push_str(&mut s, whole.as_str());
    let frac = crate::text::digit_string(t % 10);
    push_str(&mut s, ".");
    push_str(&mut s, frac.as_str());
    push_str(&mut s, " ");
    push_str(&mut s, name);
    proof {
        reveal_strlit(".");
        assert(Seq::<char>::empty() + decimal((t / 10) as nat) =~= decimal((t / 10) as nat));
        assert("."@ + frac@ =~= seq!['.', digit_char((t % 10) as nat)]);
        assert(s@ =~= decimal((t / 10) as nat) + seq!['.', digit_char((t % 10) as nat)] + " "@ + name@);
    }
    s
}

/// The poll as recorded: its percent capped at 100.
pub open spec fn recorded(p: Poll) -> Poll {
    Poll { pct: if p.pct > 100 { 100 } else { p.pct }, ..p }
}

/// The log after recording `p`: appended, then the oldest dropped so that
/// at most [`MAX_POLLS`] stay.
pub open spec fn log_after(log: Seq<Poll>, p: Poll) -> Seq<Poll> {
    let all = log.push(recorded(p));
    if all.len() > MAX_POLLS {
        all.skip(all.len() - MAX_POLLS)
    } else {
        all
    }
}

/// Record a poll in the in-memory log (`DebugLog::record` without the
/// files): cap its percent, append it, and drop the oldest beyond
/// [`MAX_POLLS`]. Returns how many were dropped; the caller rewrites the
/// log file and prunes frames when that is not zero, else appends the line.
pub fn record_poll(log: &mut Vec<Poll>, poll: Poll) -> (dropped: usize)
    requires
        old(log)@.len() < usize::MAX,
    ensures
        final(log)@ == log_after(old(log)@, poll),
        dropped == (if old(log)@.len() + 1 > MAX_POLLS { old(log)@.len() + 1 - MAX_POLLS } else { 0 }),
{
    let mut poll = poll;
    if poll.pct > 100 {
        poll.pct = 100;
    }
    let ghost all = old(log)@.push(poll);
    log.push(poll);
    assert(log@ == all);
    let n = log.len();
    if n > MAX_POLLS {
        let drop_n = n - MAX_POLLS;
        let mut i: usize = 0;
        while i < drop_n
            invariant
                i <= drop_n,
                drop_n == n - MAX_POLLS,
                n == all.len(),
                log@ == all.skip(i as int),
            decreases drop_n - i,
        {
            log.remove(0);
            assert(all.skip(i as int).subrange(1, all.skip(i as int).len() as int) =~= all.skip(i + 1));
            i = i + 1;
        }
        drop_n
    } else {
        0
    }
}

/// The log never holds more than [`MAX_POLLS`] polls once full, and the
/// newest poll is always the one just recorded.
pub proof fn lemma_log_capped(log: Seq<Poll>, p: Poll)
    requires
        log.len() <= MAX_POLLS,
    ensures
        log_after(log, p).len() <= MAX_POLLS,
        log_after(log, p).len() > 0,
        log_after(log, p).last() == recorded(p),
{
}

/// A stored frame is still referenced by some poll.
pub open spec fn referenced(polls: Seq<Poll>, stem: Seq<char>) -> bool {
    exists|i: int| 0 <= i < polls.len() && (#[trigger] polls[i]).checksum@ == stem
}

/// The frame files to delete (`prune_frames`): those whose name stem no
/// kept poll references, in the order listed.
pub fn frames_to_prune(polls: &[Poll], stems: &[String]) -> (r: Vec<usize>)
    ensures
        forall|k: int| 0 <= k < r@.len() ==> (#[trigger] r@[k]) < stems@.len() && !referenced(polls@, stems@[r@[k] as int]@),
        forall|j: int| 0 <= j < stems@.len() && !referenced(polls@, #[trigger] stems@[j]@) ==> r@.contains(j as usize),
        forall|a: int, b: int| 0 <= a < b < r@.len() ==> r@[a] < r@[b],
{
    let n = stems.len();
    let m = polls.len();
    let mut out: Vec<usize> = Vec::new();
    let mut j: usize = 0;
    while j < n
        invariant
            n == stems@.len(),
            m == polls@.len(),
            j <= n,
            forall|k: int| 0 <= k < out@.len() ==> (#[trigger] out@[k]) < j && !referenced(polls@, stems@[out@[k] as int]@),
            forall|q: int| 0 <= q < j && !referenced(polls@, #[trigger] stems@[q]@) ==> out@.contains(q as usize),
            forall|a: int, b: int| 0 <= a < b < out@.len() ==> out@[a] < out@[b],
        decreases n - j,
    {
        let mut used = false;
        let mut i: usize = 0;
        while i < m
            invariant
                m == polls@.len(),
                j < n,
                n == stems@.len(),
                i <= m,
                used == exists|q: int| 0 <= q < i && (#[trigger] polls@[q]).checksum@ == stems@[j as int]@,
            decreases m - i,
        {
            if crate::text::same_text(polls[i].checksum.as_str(), stems[j].as_str()) {
                used = true;
            }
            i = i + 1;
        }
        if !used {
            let ghost before = out@;
            out.push(j);
            assert(out@[before.len() as int] == j);
            assert forall|q: int| 0 <= q < j + 1 && !referenced(polls@, #[trigger] stems@[q]@) implies out@.contains(q as usize) by {
                if q < j {
                    let w = choose|w: int| 0 <= w < before.len() && before[w] == q as usize;
                    assert(out@[w] == q as usize);
                } else {
                    assert(out@[before.len() as int] == q as usize);
                }
            }
        } else {
            assert forall|q: int| 0 <= q < j + 1 && !referenced(polls@, #[trigger] stems@[q]@) implies out@.contains(q as usize) by {
                if q == j {
                    let w = choose|w: int| 0 <= w < m && (#[trigger] polls@[w]).checksum@ == stems@[j as int]@;
                    assert(referenced(polls@, stems@[q]@));
                }
            }
        }
        j = j + 1;
    }
    out
}

/// Which polls a debug page lists, newest first: positions in the log,
/// skipping the newer pages.
pub open spec fn page_positions(poll_count: int, page: int) -> Seq<int> {
    let page_count = (poll_count + POLLS_PER_PAGE - 1) / POLLS_PER_PAGE as int;
    let p = if page_count == 0 {
        1
    } else if page < 1 {
        1
    } else if page > page_count {
        page_count
    } else {
        page
    };
    let skip = (p - 1) * POLLS_PER_PAGE;
    let shown = if poll_count - skip < POLLS_PER_PAGE { poll_count - skip } else { POLLS_PER_PAGE as int };
    Seq::new(if shown < 0 { 0 } else { shown as nat }, |k: int| poll_count - 1 - skip - k)
}

/// The log positions of the polls on `page`, newest first
/// (`iter().rev().skip(..).take(POLLS_PER_PAGE)`).
pub fn page_polls(poll_count: usize, page: usize) -> (r: Vec<usize>)
    ensures
        r@.len() == page_positions(poll_count as int, page as int).len(),
        forall|k: int| 0 <= k < r@.len() ==> (#[trigger] r@[k]) as int == page_positions(poll_count as int, page as int)[k],
{
    let (n, p, _) = page_bounds(poll_count, page);
    assert(p >= 1);
    let skip: usize = if p >= 1 && (p - 1) <= n / POLLS_PER_PAGE { (p - 1) * POLLS_PER_PAGE } else { n };
    assert(skip == (p - 1) * POLLS_PER_PAGE || skip >= n) by (nonlinear_arith)
        requires
            skip == (if p >= 1 && (p - 1) <= n / POLLS_PER_PAGE { (p - 1) * POLLS_PER_PAGE } else { n as int }),
            POLLS_PER_PAGE == 20,
    ;
    let mut out: Vec<usize> = Vec::new();
    if skip >= n {
        return out;
    }
    let shown = if n - skip < POLLS_PER_PAGE { n - skip } else { POLLS_PER_PAGE };
    let mut k: usize = 0;
    while k < shown
        invariant
            k <= shown,
            skip < n,
            shown <= n - skip,
            out@.len() == k,
            forall|q: int| 0 <= q < k ==> (#[trigger] out@[q]) as int == n - 1 - skip - q,
        decreases shown - k,
    {
        out.push(n - 1 - skip - k);
        k = k + 1;
    }
    out
}

} // verus!
