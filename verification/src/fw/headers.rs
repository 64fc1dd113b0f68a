//! HTTP/1.1 response framing for `/frame.bin` (status, checksum, body).

use vstd::prelude::*;
use vstd::utf8::{decode_utf8, encode_utf8, valid_utf8};
use crate::text::{
    line_at,
    end_char, skip_char, trim_char, trim_char_end, trim_char_start,
    chars_of, eq_ignore_ascii_case, eq_ignore_case, find_char, find_char_in, find_ws, first_ws,
    lemma_find_char, lines, parse_u16, parse_u16_exec, skip_ws, string_of, strip_cr, trim,
    trim_bounds, trim_range, trim_start, utf8_text, words,
};

verus! {

pub const HEADER_MAX: usize = 2048;

/// `\r\n\r\n` starts at `b[i]`.
pub open spec fn is_blank_line(b: Seq<u8>, i: int) -> bool {
    b[i] == 13 && b[i + 1] == 10 && b[i + 2] == 13 && b[i + 3] == 10
}

pub open spec fn blank_from(b: Seq<u8>, i: int) -> Option<int>
    decreases b.len() - i,
{
    if i < 0 || i + 4 > b.len() {
        None
    } else if is_blank_line(b, i) {
        Some(i + 4)
    } else {
        blank_from(b, i + 1)
    }
}

/// Offset just past the first `\r\n\r\n` in `b`.
pub open spec fn header_end(b: Seq<u8>) -> Option<int> {
    blank_from(b, 0)
}

pub open spec fn min(a: int, b: int) -> int {
    if a <= b { a } else { b }
}

/// End of the header block of a response stream: only the first
/// [`HEADER_MAX`] bytes are searched.
pub open spec fn stream_header_end(s: Seq<u8>) -> Option<int> {
    header_end(s.take(min(s.len() as int, HEADER_MAX as int)))
}

/// What a reader has seen: every byte fed so far, and whether the body
/// outgrew the destination.
pub struct ReaderView {
    pub stream: Seq<u8>,
    pub overflow: bool,
}

/// The reader after `s` has been fed into a fresh one with a `dest_len`-byte body buffer.
pub open spec fn fresh_view(s: Seq<u8>, dest_len: nat) -> ReaderView {
    ReaderView {
        stream: s,
        overflow: stream_header_end(s) matches Some(e) && s.len() - e > dest_len,
    }
}

/// A feed succeeds: no overflow, and the headers have ended or can still end.
pub open spec fn accepts(v: ReaderView) -> bool {
    !v.overflow && (stream_header_end(v.stream) is Some || v.stream.len() < HEADER_MAX)
}

/// `dest` starts with every body byte seen so far.
pub open spec fn body_in(v: ReaderView, dest: Seq<u8>) -> bool {
    !v.overflow ==> (stream_header_end(v.stream) matches Some(e) ==> v.stream.len() - e
        <= dest.len() && dest.take(v.stream.len() - e) == v.stream.skip(e))
}

/// Body bytes in a response stream (none before the headers end).
pub open spec fn stream_body_len(s: Seq<u8>) -> int {
    match stream_header_end(s) {
        Some(e) => s.len() - e,
        None => 0,
    }
}

/// Body bytes seen so far.
pub open spec fn body_len_of(v: ReaderView) -> int {
    stream_body_len(v.stream)
}

/// The headers end within `data`, fed after `s`.
pub open spec fn ends_headers(s: Seq<u8>, data: Seq<u8>) -> bool {
    stream_header_end(s) is None && stream_header_end(s + data) is Some
}

/// `a` and `b` agree outside `[lo, hi)`.
pub open spec fn same_outside(a: Seq<u8>, b: Seq<u8>, lo: int, hi: int) -> bool {
    &&& a.len() == b.len()
    &&& forall|k: int| 0 <= k < a.len() && (k < lo || k >= hi) ==> a[k] == b[k]
}

/// Buffers agreeing outside two adjacent ranges agree outside their union:
/// how the contracts of successive feeds compose.
pub proof fn lemma_same_outside_join(a: Seq<u8>, b: Seq<u8>, c: Seq<u8>, lo: int, mid: int, hi: int)
    requires
        lo <= mid <= hi,
        same_outside(a, b, mid, hi),
        same_outside(b, c, lo, mid),
    ensures
        same_outside(a, c, lo, hi),
{
}

/// The status code on the first line (`HTTP/1.1 200 OK` → 200).
pub open spec fn status_of(text: Seq<char>) -> Option<u16> {
    let ls = lines(text);
    if ls.len() == 0 {
        None
    } else {
        let w = words(ls[0]);
        if w.len() < 2 {
            None
        } else {
            parse_u16(w[1])
        }
    }
}

/// Value of the first header line whose name matches, ASCII case-insensitively.
pub open spec fn value_in_lines(ls: Seq<Seq<char>>, name: Seq<char>) -> Option<Seq<char>>
    decreases ls.len(),
{
    if ls.len() == 0 {
        None
    } else {
        match find_char(ls[0], ':') {
            Some(j) => if eq_ignore_case(ls[0].take(j), name) {
                Some(trim(ls[0].skip(j + 1)))
            } else {
                value_in_lines(ls.drop_first(), name)
            },
            None => value_in_lines(ls.drop_first(), name),
        }
    }
}

pub open spec fn header_value_of(text: Seq<char>, name: Seq<char>) -> Option<Seq<char>> {
    value_in_lines(lines(text), name)
}

/// The frame checksum a response offers: `X-Frame-Checksum`, else `ETag`,
/// unquoted; empty when missing or longer than 80 bytes.
pub open spec fn checksum_of(text: Seq<char>) -> Seq<char> {
    let v = match header_value_of(text, "x-frame-checksum"@) {
        Some(v) => v,
        None => match header_value_of(text, "etag"@) {
            Some(v) => v,
            None => Seq::empty(),
        },
    };
    let t = trim_char(trim(v), '"');
    if encode_utf8(t).len() <= 80 {
        t
    } else {
        Seq::empty()
    }
}

/// Status, body length and checksum of a finished response.
pub open spec fn finish_spec(v: ReaderView) -> Option<(u16, nat, Seq<char>)> {
    if v.overflow {
        None
    } else {
        match stream_header_end(v.stream) {
            None => None,
            Some(e) => {
                let h = v.stream.take(e);
                if !valid_utf8(h) {
                    None
                } else {
                    match status_of(decode_utf8(h)) {
                        None => None,
                        Some(st) => Some((st, (v.stream.len() - e) as nat, checksum_of(decode_utf8(h)))),
                    }
                }
            },
        }
    }
}

proof fn lemma_blank_prefix(s: Seq<u8>, n: int, m: int, i: int)
    requires
        0 <= i,
        0 <= n <= m <= s.len(),
        blank_from(s.take(n), i) is Some,
    ensures
        blank_from(s.take(m), i) == blank_from(s.take(n), i),
    decreases n - i,
{
    if i + 4 <= n && !is_blank_line(s.take(n), i) {
        lemma_blank_prefix(s, n, m, i + 1);
    }
}

proof fn lemma_blank_bound(b: Seq<u8>, i: int)
    requires
        0 <= i,
    ensures
        blank_from(b, i) matches Some(e) ==> 4 <= e <= b.len(),
    decreases b.len() - i,
{
    if i + 4 <= b.len() && !is_blank_line(b, i) {
        lemma_blank_bound(b, i + 1);
    }
}

/// Cutting a response into two chunks changes nothing: a reader that would
/// accept the whole response accepts its first chunk, and one that overflowed
/// on the first chunk overflows on the whole and finishes with nothing.
pub proof fn lemma_chunking(a: Seq<u8>, b: Seq<u8>, d: nat)
    ensures
        accepts(fresh_view(a + b, d)) ==> accepts(fresh_view(a, d)),
        fresh_view(a, d).overflow ==> fresh_view(a + b, d).overflow && finish_spec(
            fresh_view(a + b, d),
        ) is None,
{
    let s = a + b;
    let ma = min(a.len() as int, HEADER_MAX as int);
    let ms = min(s.len() as int, HEADER_MAX as int);
    assert(s.take(ma) =~= a.take(ma));
    if stream_header_end(a) is Some {
        lemma_blank_prefix(s, ma, ms, 0);
        assert(s.take(ms).take(ma) =~= s.take(ma));
    } else if a.len() >= HEADER_MAX {
        assert(ma == ms);
    }
}

/// A reader's buffer is fixed by the bytes fed: the body seen so far in
/// front, everything else as it was. So two readers fed the same bytes, in
/// any chunks with every feed accepted, from equal buffers hold equal
/// buffers (each feed's contract gives the `same_outside` of one step, and
/// [`lemma_same_outside_join`] joins the steps).
pub proof fn lemma_dest_determined(v: ReaderView, d0: Seq<u8>, d1: Seq<u8>, d2: Seq<u8>)
    requires
        !v.overflow,
        body_in(v, d1),
        body_in(v, d2),
        same_outside(d1, d0, 0, body_len_of(v)),
        same_outside(d2, d0, 0, body_len_of(v)),
    ensures
        d1 == d2,
{
    let b = body_len_of(v);
    assert forall|k: int| 0 <= k < d1.len() implies d1[k] == d2[k] by {
        if k < b {
            assert(d1.take(b)[k] == d1[k]);
            assert(d2.take(b)[k] == d2[k]);
        }
    }
    assert(d1 =~= d2);
}

/// The chunks joined in order.
pub open spec fn joined(cs: Seq<Seq<u8>>) -> Seq<u8>
    decreases cs.len(),
{
    if cs.len() == 0 {
        Seq::empty()
    } else {
        joined(cs.drop_last()) + cs.last()
    }
}

/// Feeding a response in chunks is feeding it whole: a fresh reader with a
/// `d`-byte buffer accepts every chunk exactly when it would accept the
/// whole response in one feed (each feed's reader view is the bytes so far,
/// so the views, the buffers by [`lemma_dest_determined`], and what
/// `finish` gives agree too).
pub proof fn lemma_chunks_accepted(cs: Seq<Seq<u8>>, d: nat)
    requires
        cs.len() > 0,
    ensures
        accepts(fresh_view(joined(cs), d)) <==> forall|i: int|
            1 <= i <= cs.len() ==> #[trigger] accepts(fresh_view(joined(cs.take(i)), d)),
    decreases cs.len(),
{
    assert(cs.take(cs.len() as int) =~= cs);
    if cs.len() > 1 {
        let p = cs.drop_last();
        lemma_chunks_accepted(p, d);
        assert(joined(cs) == joined(p) + cs.last());
        lemma_chunking(joined(p), cs.last(), d);
        assert forall|i: int| 1 <= i <= p.len() implies cs.take(i) == p.take(i) by {
            assert(cs.take(i) =~= p.take(i));
        }
    }
}

/// The reader after feeding the chunks one by one into a fresh reader with
/// a `d`-byte buffer, as each feed's contract gives it: an overflowed
/// reader stays as it is; any other has seen the bytes so far.
pub open spec fn fold_feeds(cs: Seq<Seq<u8>>, d: nat) -> ReaderView
    decreases cs.len(),
{
    if cs.len() == 0 {
        fresh_view(Seq::empty(), d)
    } else {
        let v = fold_feeds(cs.drop_last(), d);
        if v.overflow {
            v
        } else {
            fresh_view(v.stream + cs.last(), d)
        }
    }
}

/// A reader that has not overflowed holds no more body than its buffer,
/// so the next feed's contract fixes the next reader.
pub proof fn lemma_fresh_fits(s: Seq<u8>, d: nat)
    ensures
        !fresh_view(s, d).overflow ==> body_len_of(fresh_view(s, d)) <= d,
{
}

/// Feeding a response in chunks ends where feeding it whole does: the
/// same reader when neither overflows, an overflowed one (that `finish`
/// gives nothing for) when either does, so `finish` agrees.
pub proof fn lemma_feeds_fold(cs: Seq<Seq<u8>>, d: nat)
    ensures
        fold_feeds(cs, d).overflow == fresh_view(joined(cs), d).overflow,
        !fold_feeds(cs, d).overflow ==> fold_feeds(cs, d) == fresh_view(joined(cs), d),
        finish_spec(fold_feeds(cs, d)) == finish_spec(fresh_view(joined(cs), d)),
    decreases cs.len(),
{
    if cs.len() == 0 {
        assert(joined(cs) =~= Seq::<u8>::empty());
    } else {
        let p = cs.drop_last();
        lemma_feeds_fold(p, d);
        lemma_chunking(joined(p), cs.last(), d);
        assert(joined(cs) == joined(p) + cs.last());
    }
}

/// A refusal is for good: once the body outgrew the buffer, or the first
/// `HEADER_MAX` bytes held no blank line, no later feed is accepted and
/// `finish` gives nothing.
pub proof fn lemma_refusal_sticks(v: ReaderView, more: Seq<u8>, d: nat)
    ensures
        v.overflow ==> !accepts(v) && finish_spec(v) is None,
        stream_header_end(v.stream) is None && v.stream.len() >= HEADER_MAX ==> {
            &&& stream_header_end(v.stream + more) is None
            &&& !accepts(fresh_view(v.stream + more, d))
            &&& finish_spec(fresh_view(v.stream + more, d)) is None
        },
{
    let s = v.stream + more;
    if v.stream.len() >= HEADER_MAX {
        assert(s.take(HEADER_MAX as int) =~= v.stream.take(HEADER_MAX as int));
    }
}

/// Incremental TCP → header / body split. Binary bodies are not parsed as text.
pub struct ResponseReader {
    hdr: [u8; HEADER_MAX],
    hdr_len: usize,
    hdr_end: Option<usize>,
    body_len: usize,
    overflow: bool,
    stream: Ghost<Seq<u8>>,
}

impl View for ResponseReader {
    type V = ReaderView;

    closed spec fn view(&self) -> ReaderView {
        ReaderView { stream: self.stream@, overflow: self.overflow }
    }
}

impl ResponseReader {
    /// The header buffer, lengths and flags agree with the bytes seen so far.
    pub closed spec fn wf(&self) -> bool {
        let s = self.stream@;
        &&& self.hdr_len <= HEADER_MAX
        &&& self.hdr_len <= s.len()
        &&& self.hdr@.subrange(0, self.hdr_len as int) == s.take(self.hdr_len as int)
        &&& match self.hdr_end {
            None => stream_header_end(s) is None,
            Some(e) => stream_header_end(s) == Some(e as int),
        }
        &&& (self.hdr_end is None ==> self.hdr_len == min(s.len() as int, HEADER_MAX as int)
            && self.body_len == 0 && !self.overflow)
        &&& (self.hdr_end matches Some(e) ==> 4 <= e <= self.hdr_len && (!self.overflow
            ==> self.body_len == s.len() - e))
    }

    pub fn new() -> (r: Self)
        ensures
            r.wf(),
            r@.stream == Seq::<u8>::empty(),
            !r@.overflow,
    {
        let r = Self {
            hdr: [0u8; HEADER_MAX],
            hdr_len: 0,
            hdr_end: None,
            body_len: 0,
            overflow: false,
            stream: Ghost(Seq::empty()),
        };
        assert(r.hdr@.subrange(0, 0) =~= Seq::<u8>::empty().take(0));
        assert(Seq::<u8>::empty().take(0) =~= Seq::<u8>::empty());
        r
    }

    /// Consume the next socket chunk into `dest`. `false` = overflow or huge headers.
    #[verifier::rlimit(60)]
    pub fn feed(&mut self, data: &[u8], dest: &mut [u8]) -> (r: bool)
        requires
            old(self).wf(),
        ensures
            final(self).wf(),
            final(dest)@.len() == old(dest)@.len(),
            r == accepts(final(self)@),
            old(self)@.overflow ==> final(self)@ == old(self)@,
            !old(self)@.overflow ==> final(self)@.stream == old(self)@.stream + data@,
            !old(self)@.overflow && body_len_of(old(self)@) <= old(dest)@.len() ==> final(self)@ == fresh_view(
                old(self)@.stream + data@,
                old(dest)@.len(),
            ),
            !old(self)@.overflow && body_in(old(self)@, old(dest)@) ==> body_in(final(self)@, final(dest)@),
            old(self)@.overflow ==> final(dest)@ =~= old(dest)@,
            !old(self)@.overflow ==> same_outside(final(dest)@, old(dest)@, body_len_of(old(self)@),
                stream_body_len(old(self)@.stream + data@)),
            !r && !ends_headers(old(self)@.stream, data@) ==> final(dest)@ =~= old(dest)@,
    {
        if self.overflow {
            return false;
        }
        let ghost s0 = self.stream@;
        let ghost s1 = s0 + data@;
        let ghost d0 = dest@;
        let dlen = dest.len();
        let n = data.len();
        let mut off: usize = 0;
        if self.hdr_end.is_none() {
            let room = HEADER_MAX - self.hdr_len;
            let take = if n < room { n } else { room };
            let start = self.hdr_len;
            copy_in(&mut self.hdr, start, data, 0, take);
            self.hdr_len = start + take;
            let hl = self.hdr_len;
            proof {
                if start < HEADER_MAX {
                    assert(start == s0.len());
                    assert(s1.take(hl as int) =~= s0 + data@.take(take as int));
                } else {
                    assert(take == 0);
                    assert(s1.take(hl as int) =~= s0.take(hl as int));
                }
                assert(self.hdr@.subrange(0, hl as int) =~= s1.take(hl as int));
                assert(hl == min(s1.len() as int, HEADER_MAX as int));
            }
            self.stream = Ghost(s1);
            let hs = vstd::slice::slice_subrange(vstd::array::array_as_slice(&self.hdr), 0, hl);
            assert(hs@ =~= s1.take(hl as int));
            match find_header_end(hs) {
                Some(end) => {
                    proof {
                        lemma_blank_bound(hs@, 0);
                        if start == HEADER_MAX {
                            assert(s1.take(hl as int) =~= s0.take(min(s0.len() as int, HEADER_MAX as int)));
                        }
                        assert(start < HEADER_MAX);
                    }
                    self.hdr_end = Some(end);
                    let extra = hl - end;
                    if extra > dlen {
                        self.overflow = true;
                        return false;
                    }
                    copy_out(dest, 0, vstd::array::array_as_slice(&self.hdr), end, extra);
                    self.body_len = extra;
                    off = take;
                    assert(same_outside(dest@, d0, 0, extra as int));
                    proof {
                        assert(dest@.take(extra as int) =~= s1.subrange(end as int, hl as int));
                        assert(data@.skip(take as int) =~= s1.skip(hl as int));
                    }
                }
                None => {
                    return hl < HEADER_MAX;
                }
            }
        } else {
            let ghost e = self.hdr_end.unwrap() as int;
            proof {
                let m0 = min(s0.len() as int, HEADER_MAX as int);
                let m1 = min(s1.len() as int, HEADER_MAX as int);
                assert(s1.take(m0) =~= s0.take(m0));
                lemma_blank_prefix(s1, m0, m1, 0);
                assert(s1.take(self.hdr_len as int) =~= s0.take(self.hdr_len as int));
            }
            self.stream = Ghost(s1);
        }
        let ghost e = self.hdr_end.unwrap() as int;
        let ghost b0 = dest@;
        assert(same_outside(dest@, d0, body_len_of(old(self)@), self.body_len as int));
        let rest = n - off;
        assert(self.body_len + rest == s1.len() - e);
        if rest > 0 {
            if self.body_len > dlen || rest > dlen - self.body_len {
                self.overflow = true;
                return false;
            }
            let base = self.body_len;
            let ghost before_copy = dest@;
            copy_out(dest, base, data, off, rest);
            self.body_len = base + rest;
            assert(same_outside(dest@, before_copy, base as int, (base + rest) as int));
            proof {
                lemma_same_outside_join(dest@, before_copy, d0, body_len_of(old(self)@), base as int, (base + rest) as int);
            }
            proof {
                if body_in(old(self)@, d0) || old(self).hdr_end is None {
                    assert(b0.take(base as int) == s1.subrange(e, e + base));
                    assert(dest@.take((base + rest) as int) =~= s1.skip(e));
                }
            }
        } else {
            proof {
                if body_in(old(self)@, d0) || old(self).hdr_end is None {
                    assert(s1.skip(e) =~= s1.subrange(e, e + self.body_len));
                    assert(dest@.take(self.body_len as int) =~= s1.skip(e));
                }
            }
        }
        true
    }

    /// Status, body length and checksum once the headers are complete.
    pub fn finish(&self) -> (r: Option<(u16, usize, String)>)
        requires
            self.wf(),
        ensures
            match r {
                None => finish_spec(self@) is None,
                Some(t) => finish_spec(self@) == Some((t.0, t.1 as nat, t.2@)),
            },
    {
        if self.overflow {
            return None;
        }
        let end = match self.hdr_end {
            Some(e) => e,
            None => {
                return None;
            },
        };
        let ghost s = self.stream@;
        let hs = vstd::slice::slice_subrange(vstd::array::array_as_slice(&self.hdr), 0, end);
        assert(hs@ =~= s.take(end as int));
        let text = match utf8_text(hs) {
            Some(t) => t,
            None => {
                return None;
            },
        };
        let status = match parse_status(text.as_str()) {
            Some(st) => st,
            None => {
                return None;
            },
        };
        let cs = copy_checksum(text.as_str());
        Some((status, self.body_len, cs))
    }
}

/// One-shot helper for tests and complete-in-one-buffer responses.
pub fn parse_response(raw: &[u8], dest: &mut [u8]) -> (r: Option<(u16, usize, String)>)
    ensures
        final(dest)@.len() == old(dest)@.len(),
        !accepts(fresh_view(raw@, old(dest)@.len())) ==> r is None,
        accepts(fresh_view(raw@, old(dest)@.len())) ==> match r {
            None => finish_spec(fresh_view(raw@, old(dest)@.len())) is None,
            Some(t) => finish_spec(fresh_view(raw@, old(dest)@.len())) == Some(
                (t.0, t.1 as nat, t.2@),
            ),
        },
        r is Some ==> body_in(fresh_view(raw@, old(dest)@.len()), final(dest)@),
{
    let mut reader = ResponseReader::new();
    assert(Seq::<u8>::empty() + raw@ =~= raw@);
    if !reader.feed(raw, dest) {
        return None;
    }
    reader.finish()
}

fn copy_in(dst: &mut [u8; HEADER_MAX], at: usize, src: &[u8], from: usize, len: usize)
    requires
        at + len <= HEADER_MAX,
        from + len <= src@.len(),
    ensures
        final(dst)@ == old(dst)@.subrange(0, at as int) + src@.subrange(from as int, from + len)
            + old(dst)@.subrange(at + len, HEADER_MAX as int),
{
    let sl = src.len();
    let mut i: usize = 0;
    while i < len
        invariant
            sl == src@.len(),
            dst@.len() == HEADER_MAX,
            at + len <= HEADER_MAX,
            from + len <= src@.len(),
            i <= len,
            dst@ == old(dst)@.subrange(0, at as int) + src@.subrange(from as int, from + i)
                + old(dst)@.subrange(at + i, HEADER_MAX as int),
        decreases len - i,
    {
        dst[at + i] = src[from + i];
        i = i + 1;
        assert(dst@ =~= old(dst)@.subrange(0, at as int) + src@.subrange(from as int, from + i)
            + old(dst)@.subrange(at + i, HEADER_MAX as int));
    }
}

fn copy_out(dst: &mut [u8], at: usize, src: &[u8], from: usize, len: usize)
    requires
        at + len <= old(dst)@.len(),
        from + len <= src@.len(),
    ensures
        final(dst)@ == old(dst)@.subrange(0, at as int) + src@.subrange(from as int, from + len)
            + old(dst)@.subrange(at + len, old(dst)@.len() as int),
{
    let n = dst.len();
    let sl = src.len();
    let mut i: usize = 0;
    while i < len
        invariant
            sl == src@.len(),
            n == old(dst)@.len(),
            dst@.len() == n,
            at + len <= n,
            from + len <= src@.len(),
            i <= len,
            dst@ == old(dst)@.subrange(0, at as int) + src@.subrange(from as int, from + i)
                + old(dst)@.subrange(at + i, n as int),
        decreases len - i,
    {
        dst[at + i] = src[from + i];
        i = i + 1;
        assert(dst@ =~= old(dst)@.subrange(0, at as int) + src@.subrange(from as int, from + i)
            + old(dst)@.subrange(at + i, n as int));
    }
}

/// Offset just past the first `\r\n\r\n`.
pub fn find_header_end(buf: &[u8]) -> (r: Option<usize>)
    ensures
        r matches Some(e) ==> header_end(buf@) == Some(e as int),
        r is None ==> header_end(buf@) is None,
{
    let n = buf.len();
    let mut i: usize = 0;
    while i < n && n - i >= 4
        invariant
            i <= n,
            n == buf@.len(),
            blank_from(buf@, 0) == blank_from(buf@, i as int),
        decreases n - i,
    {
        if buf[i] == 13 && buf[i + 1] == 10 && buf[i + 2] == 13 && buf[i + 3] == 10 {
            return Some(i + 4);
        }
        i = i + 1;
    }
    None
}


/// The status code on the first line: `HTTP/1.1 200 OK` gives 200.
pub fn parse_status(headers: &str) -> (r: Option<u16>)
    ensures
        r == status_of(headers@),
{
    let v = chars_of(headers);
    let n = v.len();
    if n == 0 {
        return None;
    }
    let (end, _next) = line_at(&v, 0);
    assert(v@.subrange(0, n as int) =~= v@);
    let ghost line = v@.subrange(0, end as int);
    assert(lines(headers@)[0] == line);
    let a = skip_ws(&v, 0, end);
    if a == end {
        assert(trim_start(line).len() == 0);
        return None;
    }
    let b = find_ws(&v, a, end);
    let ghost t = v@.subrange(a as int, end as int);
    assert(t.skip(b - a) =~= v@.subrange(b as int, end as int));
    assert(t.take(b - a) =~= v@.subrange(a as int, b as int));
    assert(words(line) == seq![v@.subrange(a as int, b as int)] + words(
        v@.subrange(b as int, end as int),
    ));
    let c = skip_ws(&v, b, end);
    if c == end {
        assert(words(v@.subrange(b as int, end as int)) =~= Seq::<Seq<char>>::empty());
        assert(words(line).len() == 1);
        return None;
    }
    let d = find_ws(&v, c, end);
    let ghost t2 = v@.subrange(c as int, end as int);
    assert(t2.take(d - c) =~= v@.subrange(c as int, d as int));
    assert(words(v@.subrange(b as int, end as int))[0] == v@.subrange(c as int, d as int));
    assert(words(line)[1] == v@.subrange(c as int, d as int));
    parse_u16_exec(&v, c, d)
}

/// Value of the first header line whose name matches `name`, ASCII case-insensitively.
pub fn header_value(headers: &str, name: &str) -> (r: Option<String>)
    ensures
        match r {
            Some(s) => header_value_of(headers@, name@) == Some(s@),
            None => header_value_of(headers@, name@) is None,
        },
{
    let v = chars_of(headers);
    let key = chars_of(name);
    let n = v.len();
    let mut pos: usize = 0;
    assert(v@.subrange(0, n as int) =~= headers@);
    while pos < n
        invariant
            n == v@.len(),
            v@ == headers@,
            key@ == name@,
            pos <= n,
            header_value_of(headers@, name@) == value_in_lines(
                lines(v@.subrange(pos as int, n as int)),
                name@,
            ),
        decreases n - pos,
    {
        let (end, next) = line_at(&v, pos);
        let ghost line = v@.subrange(pos as int, end as int);
        let ghost ls = lines(v@.subrange(pos as int, n as int));
        assert(ls[0] == line);
        assert(ls.drop_first() =~= lines(v@.subrange(next as int, n as int)));
        proof {
            lemma_find_char(line, ':');
        }
        match find_char_in(&v, ':', pos, end) {
            Some(j) => {
                let k = vstd::slice::slice_subrange(v.as_slice(), pos, j);
                assert(k@ =~= line.take(j - pos));
                if eq_ignore_ascii_case(k, key.as_slice()) {
                    let (a, b) = trim_range(&v, j + 1, end);
                    assert(line.skip(j - pos + 1) =~= v@.subrange(j + 1, end as int));
                    let val = vstd::slice::slice_subrange(v.as_slice(), a, b);
                    return Some(string_of(val));
                }
            },
            None => {},
        }
        pos = next;
    }
    assert(v@.subrange(pos as int, n as int) =~= Seq::<char>::empty());
    None
}

/// Bounds of `trim_char(trim(v), '"')` inside `v`.
fn trim_bounds_char(v: &[char]) -> (r: (usize, usize))
    ensures
        r.0 <= r.1 <= v@.len(),
        trim_char(trim(v@), '"') =~= v@.subrange(r.0 as int, r.1 as int),
{
    let (i, j) = trim_bounds(v);
    let a = skip_char(v, '"', i, j);
    let b = end_char(v, '"', a, j);
    (a, b)
}

/// The frame checksum a response offers: `X-Frame-Checksum`, else `ETag`,
/// without quotes; empty when it would not fit the 80-byte field.
pub fn copy_checksum(headers: &str) -> (r: String)
    ensures
        r@ == checksum_of(headers@),
{
    let found = match header_value(headers, "x-frame-checksum") {
        Some(v) => Some(v),
        None => header_value(headers, "etag"),
    };
    let value = match found {
        Some(v) => v,
        None => String::new(),
    };
    let v = chars_of(value.as_str());
    let (a, b) = trim_bounds_char(&v);
    let t = string_of(vstd::slice::slice_subrange(v.as_slice(), a, b));
    if t.as_str().as_bytes().len() <= 80 {
        t
    } else {
        String::new()
    }
}

} // verus!
