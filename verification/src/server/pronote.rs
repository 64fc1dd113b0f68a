//! Pronote settings and text clean-up: which space a URL opens, where its
//! root is, and how homework text and names are shortened for the panel.

use vstd::prelude::*;
use crate::text::{
    chars_of, end_char, find_char, find_char_in, find_seq, find_seq_from, find_ws, first_ws,
    lower_seq, push_char, push_str, rfind_char, rfind_char_exec, same_chars, skip_ws, starts_with,
    string_in, string_of, to_lower, trim, trim_bounds, trim_char_end, trim_start, trimmed, words,
};

verus! {

/// Which Pronote space to log into.
#[derive(Debug, Clone, Copy, PartialEq, Eq)]
pub enum Account {
    Student,
    Parent,
}

/// The account a setting names; when it names none, a URL mentioning
/// `parent` means a parent space.
pub open spec fn account_of(account: Seq<char>, url: Seq<char>) -> Account {
    let a = lower_seq(trim(account));
    if a == "parent"@ || a == "parents"@ {
        Account::Parent
    } else if a == "eleve"@ || a == "élève"@ || a == "student"@ {
        Account::Student
    } else if find_seq(lower_seq(url), "parent"@) is Some {
        Account::Parent
    } else {
        Account::Student
    }
}

fn is_lit(k: &Vec<char>, lit: &str) -> (r: bool)
    ensures
        r == (k@ == lit@),
{
    let w = chars_of(lit);
    same_chars(k.as_slice(), w.as_slice())
}

pub fn parse_account(account: &str, url: &str) -> (r: Account)
    ensures
        r == account_of(account@, url@),
{
    let v = chars_of(account);
    let t = trimmed(v.as_slice());
    let a = to_lower(t.as_slice());
    if is_lit(&a, "parent") || is_lit(&a, "parents") {
        return Account::Parent;
    }
    if is_lit(&a, "eleve") || is_lit(&a, "élève") || is_lit(&a, "student") {
        return Account::Student;
    }
    let u = chars_of(url);
    let l = to_lower(u.as_slice());
    let p = chars_of("parent");
    assert(l@.subrange(0, l@.len() as int) =~= l@);
    if find_seq_from(l.as_slice(), 0, p.as_slice()).is_some() {
        Account::Parent
    } else {
        Account::Student
    }
}

/// `s` before the first `c`, or all of `s`.
pub open spec fn before_char(s: Seq<char>, c: char) -> Seq<char> {
    match find_char(s, c) {
        Some(i) => s.take(i),
        None => s,
    }
}

/// `s` after the first `c`, or nothing.
pub open spec fn after_char(s: Seq<char>, c: char) -> Seq<char> {
    match find_char(s, c) {
        Some(i) => s.skip(i + 1),
        None => Seq::empty(),
    }
}

/// The path of a Pronote URL: no fragment, no query, no trailing slash.
pub open spec fn pronote_path(url: Seq<char>) -> Seq<char> {
    trim_char_end(before_char(before_char(trim(url), '#'), '?'), '/')
}

/// The query of a Pronote URL (after the first `?`, before any `#`).
pub open spec fn pronote_query(url: Seq<char>) -> Seq<char> {
    after_char(before_char(trim(url), '#'), '?')
}

/// The last `/`-separated segment of `s`.
pub open spec fn last_segment(s: Seq<char>) -> Seq<char> {
    match rfind_char(s, '/') {
        Some(i) => s.skip(i + 1),
        None => s,
    }
}

/// The path ends in a page (`….html`) with no `/` before it to split at.
pub open spec fn page_without_root(url: Seq<char>) -> bool {
    let p = pronote_path(url);
    find_seq(last_segment(p), ".html"@) is Some && rfind_char(p, '/') is None
}

/// Root and page of a Pronote URL; the page defaults to the account's space.
pub open spec fn root_page_of(url: Seq<char>, account: Account) -> (Seq<char>, Seq<char>) {
    let p = pronote_path(url);
    let q = pronote_query(url);
    if find_seq(last_segment(p), ".html"@) is Some {
        let i = rfind_char(p, '/')->0;
        let page = p.skip(i + 1);
        (p.take(i), if q.len() == 0 {
            page
        } else {
            page + "?"@ + q
        })
    } else {
        (p, match account {
            Account::Parent => "parent.html"@,
            Account::Student => "eleve.html"@,
        })
    }
}

/// Bounds of `v[lo..hi]` before the first `c`.
fn before_in(v: &[char], lo: usize, hi: usize, c: char) -> (r: usize)
    requires
        lo <= hi <= v@.len(),
    ensures
        lo <= r <= hi,
        before_char(v@.subrange(lo as int, hi as int), c) == v@.subrange(lo as int, r as int),
        r < hi ==> find_char(v@.subrange(lo as int, hi as int), c) == Some(r - lo),
        r == hi ==> find_char(v@.subrange(lo as int, hi as int), c) is None,
{
    match find_char_in(v, c, lo, hi) {
        Some(i) => {
            assert(v@.subrange(lo as int, hi as int).take(i - lo) =~= v@.subrange(lo as int, i as int));
            i
        },
        None => hi,
    }
}

/// Split a Pronote URL into its root and the page to open.
pub fn split_root_page(url: &str, account: Account) -> (r: (String, String))
    requires
        !page_without_root(url@),
    ensures
        r.0@ == root_page_of(url@, account).0,
        r.1@ == root_page_of(url@, account).1,
{
    let v = chars_of(url);
    let (i, j) = trim_bounds(&v);
    let h = before_in(&v, i, j, '#');
    let q = before_in(&v, i, h, '?');
    let e = end_char(&v, '/', i, q);
    let ghost t = v@.subrange(i as int, j as int);
    let ghost wh = v@.subrange(i as int, h as int);
    assert(before_char(t, '#') == wh);
    assert(wh.take(q - i) =~= v@.subrange(i as int, q as int) || q == h);
    let p = vstd::slice::slice_subrange(v.as_slice(), i, e);
    assert(p@ == pronote_path(url@));
    let query = if q < h {
        assert(wh.skip(q - i + 1) =~= v@.subrange(q + 1, h as int));
        string_in(&v, q + 1, h)
    } else {
        String::new()
    };
    assert(query@ == pronote_query(url@));
    let n = p.len();
    let (last_lo, slash) = match rfind_char_exec(p, '/', n) {
        Some(k) => (k + 1, Some(k)),
        None => (0, None),
    };
    let seg = vstd::slice::slice_subrange(p, last_lo, n);
    assert(seg@ == last_segment(p@)) by {
        if slash is Some {
            assert(p@.skip(last_lo as int) =~= p@.subrange(last_lo as int, n as int));
        } else {
            assert(p@.subrange(0, n as int) =~= p@);
        }
    }
    let pat = chars_of(".html");
    assert(seg@.subrange(0, seg@.len() as int) =~= seg@);
    if find_seq_from(seg, 0, pat.as_slice()).is_some() {
        let k = match slash {
            Some(k) => k,
            None => {
                return (String::new(), String::new());
            },
        };
        let root = string_in(p, 0, k);
        assert(p@.take(k as int) =~= p@.subrange(0, k as int));
        let mut page = string_in(p, k + 1, n);
        assert(p@.skip(k + 1) =~= p@.subrange(k + 1, n as int));
        if !query.as_str().is_empty() {
            push_str(&mut page, "?");
            push_str(&mut page, query.as_str());
        }
        (root, page)
    } else {
        let root = string_in(p, 0, n);
        assert(p@.subrange(0, n as int) =~= p@);
        let page = match account {
            Account::Parent => "parent.html".to_string(),
            Account::Student => "eleve.html".to_string(),
        };
        (root, page)
    }
}

/// `true`, `1` or `yes`, trimmed, in any ASCII case.
pub fn truthy(s: &str) -> (r: bool)
    ensures
        r == ({
            let k = lower_seq(trim(s@));
            k == "true"@ || k == "1"@ || k == "yes"@
        }),
{
    let v = chars_of(s);
    let t = trimmed(v.as_slice());
    let k = to_lower(t.as_slice());
    is_lit(&k, "true") || is_lit(&k, "1") || is_lit(&k, "yes")
}

/// The first word of a full name, or the (trimmed) name when it has none.
pub open spec fn first_name_of(full: Seq<char>) -> Seq<char> {
    if words(full).len() > 0 {
        trim(words(full)[0])
    } else {
        trim(full)
    }
}

pub fn first_name(full: &str) -> (r: String)
    ensures
        r@ == first_name_of(full@),
{
    let v = chars_of(full);
    let n = v.len();
    assert(v@.subrange(0, n as int) =~= v@);
    let a = skip_ws(&v, 0, n);
    if a == n {
        assert(trim_start(v@).len() == 0);
        let t = trimmed(v.as_slice());
        return string_of(t.as_slice());
    }
    let b = find_ws(&v, a, n);
    proof {
        crate::text::lemma_first_ws(v@.subrange(a as int, n as int));
        crate::text::lemma_trim_start_not_ws(v@);
        assert(v@.subrange(a as int, n as int)[0] == v@[a as int]);
        assert(v@.subrange(a as int, n as int).take(b - a) =~= v@.subrange(a as int, b as int));
    }
    let w = vstd::slice::slice_subrange(v.as_slice(), a, b);
    let t = trimmed(w);
    string_of(t.as_slice())
}

/// Tags dropped: characters between `<` and `>` are left out.
pub open spec fn untagged(s: Seq<char>, in_tag: bool) -> Seq<char>
    decreases s.len(),
{
    if s.len() == 0 {
        Seq::empty()
    } else if s[0] == '<' {
        untagged(s.drop_first(), true)
    } else if s[0] == '>' {
        untagged(s.drop_first(), false)
    } else if in_tag {
        untagged(s.drop_first(), in_tag)
    } else {
        seq![s[0]] + untagged(s.drop_first(), in_tag)
    }
}

/// Every `pat` in `s` (left to right, not overlapping) replaced by `rep`.
pub open spec fn replace_all(s: Seq<char>, pat: Seq<char>, rep: Seq<char>) -> Seq<char>
    decreases s.len(),
{
    if s.len() == 0 {
        Seq::empty()
    } else if pat.len() > 0 && starts_with(s, pat) {
        rep + replace_all(s.skip(pat.len() as int), pat, rep)
    } else {
        seq![s[0]] + replace_all(s.drop_first(), pat, rep)
    }
}

/// The HTML entities Pronote uses, decoded in this order.
pub open spec fn unescaped(s: Seq<char>) -> Seq<char> {
    replace_all(
        replace_all(
            replace_all(
                replace_all(
                    replace_all(
                        replace_all(replace_all(s, "&nbsp;"@, " "@), "&amp;"@, "&"@),
                        "&lt;"@,
                        "<"@,
                    ),
                    "&gt;"@,
                    ">"@,
                ),
                "&quot;"@,
                "\""@,
            ),
            "&#39;"@,
            "'"@,
        ),
        "&apos;"@,
        "'"@,
    )
}

/// `str::replace`.
fn replace_text(s: &str, pat: &str, rep: &str) -> (r: String)
    ensures
        r@ == replace_all(s@, pat@, rep@),
{
    let v = chars_of(s);
    let p = chars_of(pat);
    let n = v.len();
    let mut out = String::new();
    let mut i: usize = 0;
    assert(v@.skip(0) =~= v@);
    assert(out@ + replace_all(v@.skip(0), p@, rep@) =~= replace_all(v@, p@, rep@));
    while i < n
        invariant
            n == v@.len(),
            v@ == s@,
            p@ == pat@,
            i <= n,
            out@ + replace_all(v@.skip(i as int), p@, rep@) == replace_all(s@, pat@, rep@),
        decreases n - i,
    {
        let ghost rest = v@.skip(i as int);
        assert(rest.subrange(0, rest.len() as int) =~= rest);
        assert(v@.subrange(i as int, v@.len() as int) =~= rest);
        if p.len() > 0 && crate::text::has_prefix_at(&v, i, p.as_slice()) {
            let ghost before = out@;
            push_str(&mut out, rep);
            assert(rest.skip(p@.len() as int) =~= v@.skip(i + p@.len()));
            assert(out@ + replace_all(v@.skip(i + p@.len()), p@, rep@) =~= before + replace_all(rest, p@, rep@));
            i = i + p.len();
        } else {
            let ghost before = out@;
            push_char(&mut out, v[i]);
            assert(rest[0] == v@[i as int]);
            assert(rest.drop_first() =~= v@.skip(i + 1));
            assert(out@ + replace_all(v@.skip(i + 1), p@, rep@) =~= before + replace_all(rest, p@, rep@));
            i = i + 1;
        }
    }
    assert(v@.skip(n as int) =~= Seq::<char>::empty());
    assert(out@ + Seq::<char>::empty() =~= out@);
    out
}

pub fn html_unescape(s: &str) -> (r: String)
    ensures
        r@ == unescaped(s@),
{
    let a = replace_text(s, "&nbsp;", " ");
    let b = replace_text(a.as_str(), "&amp;", "&");
    let c = replace_text(b.as_str(), "&lt;", "<");
    let d = replace_text(c.as_str(), "&gt;", ">");
    let e = replace_text(d.as_str(), "&quot;", "\"");
    let f = replace_text(e.as_str(), "&#39;", "'");
    replace_text(f.as_str(), "&apos;", "'")
}

/// Homework text without tags, entities decoded.
pub fn strip_html(s: &str) -> (r: String)
    ensures
        r@ == unescaped(untagged(s@, false)),
{
    let v = chars_of(s);
    let n = v.len();
    let mut out = String::new();
    let mut in_tag = false;
    let mut i: usize = 0;
    assert(v@.skip(0) =~= v@);
    while i < n
        invariant
            n == v@.len(),
            i <= n,
            out@ + untagged(v@.skip(i as int), in_tag) == untagged(v@, false),
        decreases n - i,
    {
        let c = v[i];
        let ghost rest = v@.skip(i as int);
        let ghost before = out@;
        assert(rest[0] == c);
        assert(rest.drop_first() =~= v@.skip(i + 1));
        if c == '<' {
            in_tag = true;
        } else if c == '>' {
            in_tag = false;
        } else if !in_tag {
            push_char(&mut out, c);
            assert(out@ + untagged(v@.skip(i + 1), in_tag) =~= before + untagged(rest, in_tag));
        }
        i = i + 1;
    }
    assert(v@.skip(n as int) =~= Seq::<char>::empty());
    assert(out@ + Seq::<char>::empty() =~= out@);
    html_unescape(out.as_str())
}


/// Words joined by single spaces.
pub open spec fn join_words(ws: Seq<Seq<char>>) -> Seq<char>
    decreases ws.len(),
{
    if ws.len() == 0 {
        Seq::empty()
    } else if ws.len() == 1 {
        ws[0]
    } else {
        join_words(ws.drop_last()) + " "@ + ws.last()
    }
}

/// Whitespace collapsed, then cut to `max` characters with an ellipsis.
pub open spec fn clip_of(s: Seq<char>, max: nat) -> Seq<char> {
    let t = join_words(words(s));
    if t.len() <= max {
        t
    } else {
        trim_char_end(t.take(if max > 0 { max - 1 } else { 0 }), ' ').push('…')
    }
}

/// `s` with whitespace runs collapsed to single spaces (`split_whitespace` + `join`).
fn collapse_ws(s: &str) -> (r: Vec<char>)
    ensures
        r@ == join_words(words(s@)),
{
    let v = chars_of(s);
    let n = v.len();
    let mut out: Vec<char> = Vec::new();
    let mut p: usize = 0;
    let ghost mut done: Seq<Seq<char>> = Seq::empty();
    let mut any = false;
    assert(v@.subrange(0, n as int) =~= v@);
    while p < n
        invariant
            n == v@.len(),
            v@ == s@,
            p <= n,
            words(v@) == done + words(v@.subrange(p as int, n as int)),
            out@ == join_words(done),
            any == (done.len() > 0),
        ensures
            words(v@) == done,
            out@ == join_words(done),
        decreases n - p,
    {
        let a = skip_ws(&v, p, n);
        if a == n {
            assert(trim_start(v@.subrange(p as int, n as int)).len() == 0);
            assert(words(v@.subrange(p as int, n as int)) =~= Seq::<Seq<char>>::empty());
            assert(done + Seq::<Seq<char>>::empty() =~= done);
            p = n;
            break;
        }
        let b = find_ws(&v, a, n);
        proof {
            crate::text::lemma_first_ws(v@.subrange(a as int, n as int));
            crate::text::lemma_trim_start_not_ws(v@.subrange(p as int, n as int));
            assert(v@.subrange(a as int, n as int)[0] == v@[a as int]);
            let t = v@.subrange(a as int, n as int);
            assert(t.take(b - a) =~= v@.subrange(a as int, b as int));
            assert(t.skip(b - a) =~= v@.subrange(b as int, n as int));
        }
        let ghost w = v@.subrange(a as int, b as int);
        let ghost before = out@;
        if any {
            out.push(' ');
        }
        let mut k = a;
        while k < b
            invariant
                a <= k <= b <= n,
                n == v@.len(),
                out@ == (if any { before.push(' ') } else { before }) + v@.subrange(a as int, k as int),
            decreases b - k,
        {
            out.push(v[k]);
            assert(v@.subrange(a as int, k + 1) =~= v@.subrange(a as int, k as int).push(v@[k as int]));
            k = k + 1;
        }
        proof {
            let d2 = done.push(w);
            assert(d2.drop_last() =~= done);
            if done.len() == 0 {
                assert(out@ =~= w);
                assert(join_words(d2) == w);
            } else {
                reveal_strlit(" ");
                assert(out@ =~= join_words(done) + " "@ + w);
            }
            assert(done + words(v@.subrange(p as int, n as int)) =~= d2 + words(v@.subrange(b as int, n as int)));
            done = d2;
        }
        any = true;
        p = b;
    }
    out
}

pub fn clip(s: &str, max: usize) -> (r: String)
    ensures
        r@ == clip_of(s@, max as nat),
{
    let t = collapse_ws(s);
    if t.len() <= max {
        return string_of(t.as_slice());
    }
    let take = if max > 0 {
        max - 1
    } else {
        0
    };
    let k = end_char(t.as_slice(), ' ', 0, take);
    assert(t@.take(take as int) =~= t@.subrange(0, take as int));
    let mut out = string_in(t.as_slice(), 0, k);
    push_char(&mut out, '…');
    out
}

} // verus!
