//! Server URL shaping: same `host:port/path` form as the laser-tag nodes,
//! then append `/api/frame.bin`. Checksum rides on `If-None-Match`; battery
//! diagnostics ride on the POST body.
//!
//! Every output is bounded the way the firmware's fixed-capacity strings
//! bound it: a value that would not fit is refused (or, for the telemetry
//! form, each piece that would not fit is left out, as `write!` stops).

use vstd::prelude::*;
use crate::fw::config::{SERVER_MAX, WAKE_AT_MAX};
use crate::text::{
    all_digits, all_digits_in, byte_len, chars_of, decimal, decimal_string, end_char,
    find_char, find_char_in, has_prefix_at, lemma_encode_concat, lemma_find_char, parse_u16,
    parse_u16_exec, push_decimal, push_str, rfind_char, rfind_char_exec, skip_char, starts_with,
    string_in, trim, trim_bounds, trim_char, trim_char_end, utf8_len,
};

verus! {

/// Capacity of [`ServerTarget::host`], in bytes.
pub const HOST_MAX: usize = 64;
/// Capacity of [`ServerTarget::path`], in bytes.
pub const PATH_MAX: usize = 96;
/// Capacity of the telemetry form body, in bytes.
pub const FORM_MAX: usize = 96;
/// Capacity of the URL that [`frame_target`] builds, in bytes.
pub const FRAME_URL_MAX: usize = 192;

/// Host, TCP port, and URL path parsed from the `server` setting.
#[derive(Clone, Debug, PartialEq, Eq)]
pub struct ServerTarget {
    pub host: String,
    pub port: u16,
    pub path: String,
}

/// `t` without a leading `http://`.
pub open spec fn strip_scheme(t: Seq<char>) -> Seq<char> {
    if starts_with(t, "http://"@) {
        t.skip("http://"@.len() as int)
    } else {
        t
    }
}

/// Host and port of a `host[:port]` part; the port defaults to 80 when the
/// text after the last `:` is not all digits.
pub open spec fn host_port_of(hp: Seq<char>) -> Option<(Seq<char>, u16)> {
    match rfind_char(hp, ':') {
        Some(c) => {
            let ps = hp.skip(c + 1);
            if c == 0 {
                None
            } else if ps.len() > 0 && all_digits(ps) {
                match parse_u16(ps) {
                    Some(p) => Some((hp.take(c), p)),
                    None => None,
                }
            } else {
                Some((hp, 80))
            }
        },
        None => Some((hp, 80)),
    }
}

/// Host, port and path of a server setting, when it is well formed and fits.
pub open spec fn server_of(raw: Seq<char>) -> Option<(Seq<char>, u16, Seq<char>)> {
    let s = strip_scheme(trim(raw));
    if s.len() == 0 || utf8_len(s) > SERVER_MAX {
        None
    } else {
        let hp = match find_char(s, '/') {
            Some(i) => s.take(i),
            None => s,
        };
        let path = match find_char(s, '/') {
            Some(i) => s.skip(i),
            None => "/"@,
        };
        if hp.len() == 0 {
            None
        } else {
            match host_port_of(hp) {
                None => None,
                Some(hp2) => if utf8_len(hp2.0) > HOST_MAX || utf8_len(path) > PATH_MAX {
                    None
                } else {
                    Some((hp2.0, hp2.1, path))
                },
            }
        }
    }
}

/// The server setting with surrounding whitespace and trailing slashes removed.
pub open spec fn url_base(base: Seq<char>) -> Seq<char> {
    trim_char_end(trim(base), '/')
}

/// `{base}/api/frame.bin`, when the base is not empty and the URL fits `cap` bytes.
pub open spec fn frame_url_of(base: Seq<char>, cap: nat) -> Option<Seq<char>> {
    let s = url_base(base);
    if s.len() == 0 || utf8_len(s + "/api/frame.bin"@) > cap {
        None
    } else {
        Some(s + "/api/frame.bin"@)
    }
}

/// Graphic ASCII other than the form separators `&` and `=`.
pub open spec fn is_token_char(c: char) -> bool {
    '!' <= c && c <= '~' && c != '&' && c != '='
}

/// The wake slot the Pico may store and echo: unquoted, trimmed, 1 to
/// [`WAKE_AT_MAX`] token characters.
pub open spec fn wake_at_of(raw: Seq<char>) -> Option<Seq<char>> {
    let v = trim_char(trim(raw), '"');
    if v.len() == 0 || v.len() > WAKE_AT_MAX || !(forall|i: int|
        0 <= i < v.len() ==> is_token_char(#[trigger] v[i])) {
        None
    } else {
        Some(v)
    }
}

/// Appends the pieces in order while each fits within `cap` bytes; stops at
/// the first that does not.
pub open spec fn fit_pieces(acc: Seq<char>, pieces: Seq<Seq<char>>, cap: nat) -> Seq<char>
    decreases pieces.len(),
{
    if pieces.len() == 0 {
        acc
    } else if utf8_len(acc + pieces[0]) <= cap {
        fit_pieces(acc + pieces[0], pieces.drop_first(), cap)
    } else {
        acc
    }
}

/// The telemetry form: `mv=…&pct=…&usb=…&wake=…`, then `&wake_at=…` when the
/// stored slot is a valid token, each piece kept only while it fits.
pub open spec fn telemetry_of(mv: u32, pct: u16, usb: bool, wake: Seq<char>, wake_at: Seq<char>) -> Seq<char> {
    let head = fit_pieces(
        Seq::empty(),
        seq![
            "mv="@,
            decimal(mv as nat),
            "&pct="@,
            decimal(pct as nat),
            "&usb="@,
            if usb { "1"@ } else { "0"@ },
            "&wake="@,
            wake,
        ],
        FORM_MAX as nat,
    );
    match wake_at_of(wake_at) {
        Some(slot) => fit_pieces(head, seq!["&wake_at="@, slot], FORM_MAX as nat),
        None => head,
    }
}

/// The raw HTTP/1.1 POST for `path` on `host:port`.
pub open spec fn request_of(
    host: Seq<char>,
    port: u16,
    path: Seq<char>,
    checksum: Seq<char>,
    body: Seq<char>,
) -> Seq<char> {
    "POST "@ + path + " HTTP/1.1\r\nHost: "@ + host + (if port == 80 {
        Seq::empty()
    } else {
        ":"@ + decimal(port as nat)
    }) + "\r\n"@ + "Connection: close\r\n"@ + (if checksum.len() == 0 {
        Seq::empty()
    } else {
        "If-None-Match: "@ + checksum + "\r\n"@
    }) + "Content-Type: application/x-www-form-urlencoded\r\nContent-Length: "@ + decimal(
        utf8_len(body),
    ) + "\r\n\r\n"@ + body
}

/// Host and port of `v[lo..hi]`, as [`host_port_of`] gives them, as bounds.
fn split_host_port(v: &[char], lo: usize, hi: usize) -> (r: Option<(usize, u16)>)
    requires
        lo < hi <= v@.len(),
    ensures
        match r {
            Some(t) => lo < t.0 <= hi && host_port_of(v@.subrange(lo as int, hi as int)) == Some(
                (v@.subrange(lo as int, t.0 as int), t.1),
            ),
            None => host_port_of(v@.subrange(lo as int, hi as int)) is None,
        },
{
    let hp = vstd::slice::slice_subrange(v, lo, hi);
    let ghost s = v@.subrange(lo as int, hi as int);
    assert(hp@ == s);
    match rfind_char_exec(hp, ':', hp.len()) {
        Some(c) => {
            if c == 0 {
                return None;
            }
            let n = hp.len();
            assert(s.skip(c + 1) =~= hp@.subrange(c + 1, n as int));
            if c + 1 < n && all_digits_in(hp, c + 1, n) {
                match parse_u16_exec(hp, c + 1, n) {
                    Some(p) => {
                        assert(s.take(c as int) =~= v@.subrange(lo as int, lo + c));
                        Some((lo + c, p))
                    },
                    None => None,
                }
            } else {
                Some((hi, 80))
            }
        },
        None => Some((hi, 80)),
    }
}

/// Parse `host:port/path`, `http://host:port/path`, or `host/path` (port 80).
pub fn parse_server(raw: &str) -> (r: Option<ServerTarget>)
    ensures
        match r {
            Some(t) => server_of(raw@) == Some((t.host@, t.port, t.path@)),
            None => server_of(raw@) is None,
        },
{
    let v = chars_of(raw);
    let (i0, j) = trim_bounds(&v);
    let scheme = chars_of("http://");
    let ghost t = v@.subrange(i0 as int, j as int);
    let mut i = i0;
    let tv = vstd::slice::slice_subrange(v.as_slice(), i0, j);
    assert(tv@.subrange(0, tv@.len() as int) =~= t);
    if has_prefix_at(tv, 0, &scheme) {
        i = i0 + scheme.len();
        assert(t.skip("http://"@.len() as int) =~= v@.subrange(i as int, j as int));
    }
    let ghost s = v@.subrange(i as int, j as int);
    assert(s == strip_scheme(trim(raw@)));
    if i == j {
        return None;
    }
    let whole = string_in(&v, i, j);
    if byte_len(whole.as_str()) > SERVER_MAX {
        return None;
    }
    proof {
        lemma_find_char(s, '/');
    }
    let (k, path) = match find_char_in(&v, '/', i, j) {
        Some(k) => {
            assert(s.take(k - i) =~= v@.subrange(i as int, k as int));
            assert(s.skip(k - i) =~= v@.subrange(k as int, j as int));
            (k, string_in(&v, k, j))
        },
        None => {
            let mut p = String::new();
            push_str(&mut p, "/");
            assert(Seq::<char>::empty() + "/"@ =~= "/"@);
            (j, p)
        },
    };
    if k == i {
        return None;
    }
    match split_host_port(&v, i, k) {
        None => None,
        Some((h, port)) => {
            let host = string_in(&v, i, h);
            if byte_len(host.as_str()) > HOST_MAX || byte_len(path.as_str()) > PATH_MAX {
                return None;
            }
            Some(ServerTarget { host, port, path })
        },
    }
}

/// `http://host:port/api/frame.bin`, trailing slashes stripped; `None` when
/// the base is empty or the URL would not fit `N` bytes.
pub fn frame_url<const N: usize>(base: &str) -> (r: Option<String>)
    ensures
        match r {
            Some(u) => frame_url_of(base@, N as nat) == Some(u@),
            None => frame_url_of(base@, N as nat) is None,
        },
{
    let v = chars_of(base);
    let (i, j0) = trim_bounds(&v);
    let j = end_char(&v, '/', i, j0);
    if i == j {
        return None;
    }
    let mut out = string_in(&v, i, j);
    push_str(&mut out, "/api/frame.bin");
    if byte_len(out.as_str()) > N {
        return None;
    }
    Some(out)
}

/// POST target after appending `/api/frame.bin` to the provisioned server string.
pub fn frame_target(server: &str) -> (r: Option<ServerTarget>)
    ensures
        match r {
            Some(t) => match frame_url_of(server@, FRAME_URL_MAX as nat) {
                Some(u) => server_of(u) == Some((t.host@, t.port, t.path@)),
                None => false,
            },
            None => match frame_url_of(server@, FRAME_URL_MAX as nat) {
                Some(u) => server_of(u) is None,
                None => true,
            },
        },
{
    match frame_url::<FRAME_URL_MAX>(server) {
        Some(url) => parse_server(url.as_str()),
        None => None,
    }
}

/// Token the Pico may store and echo: graphic ASCII, no form separators.
pub fn sanitize_wake_at(raw: &str) -> (r: Option<String>)
    ensures
        match r {
            Some(s) => wake_at_of(raw@) == Some(s@),
            None => wake_at_of(raw@) is None,
        },
{
    let v = chars_of(raw);
    let (i0, j0) = trim_bounds(&v);
    let i = skip_char(&v, '"', i0, j0);
    let j = end_char(&v, '"', i, j0);
    let ghost t = v@.subrange(i as int, j as int);
    assert(t == trim_char(trim(raw@), '"'));
    if i == j || j - i > WAKE_AT_MAX {
        return None;
    }
    let mut k = i;
    while k < j
        invariant
            i <= k <= j <= v@.len(),
            t == v@.subrange(i as int, j as int),
            t == trim_char(trim(raw@), '"'),
            0 < j - i <= WAKE_AT_MAX,
            forall|m: int| 0 <= m < k - i ==> is_token_char(#[trigger] t[m]),
        decreases j - k,
    {
        let c = v[k];
        if !('!' <= c && c <= '~' && c != '&' && c != '=') {
            assert(t[k - i] == c);
            assert(!is_token_char(t[k - i]));
            return None;
        }
        k = k + 1;
    }
    assert(forall|m: int| 0 <= m < t.len() ==> is_token_char(#[trigger] t[m]));
    Some(string_in(&v, i, j))
}

/// Appends `piece` when the result fits `cap` bytes; says whether it did.
fn push_fit(out: &mut String, piece: &str, cap: usize) -> (ok: bool)
    requires
        utf8_len(old(out)@) <= cap,
    ensures
        ok == (utf8_len(old(out)@ + piece@) <= cap),
        ok ==> final(out)@ == old(out)@ + piece@,
        !ok ==> final(out)@ == old(out)@,
        utf8_len(final(out)@) <= cap,
{
    let have = byte_len(out.as_str());
    let add = byte_len(piece);
    proof {
        lemma_encode_concat(old(out)@, piece@);
    }
    if add > cap - have {
        return false;
    }
    push_str(out, piece);
    true
}

/// The text of each piece.
pub open spec fn piece_texts(pieces: Seq<&str>) -> Seq<Seq<char>> {
    pieces.map_values(|p: &str| p@)
}

/// Appends the pieces in order while each fits `cap` bytes, as `write!`
/// into a bounded string does.
pub(crate) fn push_pieces(out: &mut String, pieces: &[&str], cap: usize)
    requires
        utf8_len(old(out)@) <= cap,
    ensures
        final(out)@ == fit_pieces(old(out)@, piece_texts(pieces@), cap as nat),
        utf8_len(final(out)@) <= cap,
{
    let ghost all = piece_texts(pieces@);
    let n = pieces.len();
    let mut i: usize = 0;
    assert(all.skip(0) =~= all);
    while i < n
        invariant
            n == pieces@.len(),
            i <= n,
            all == piece_texts(pieces@),
            utf8_len(out@) <= cap,
            fit_pieces(old(out)@, all, cap as nat) == fit_pieces(out@, all.skip(i as int), cap as nat),
        decreases n - i,
    {
        let ghost before = out@;
        let ghost rest = all.skip(i as int);
        assert(rest[0] == pieces@[i as int]@);
        assert(rest.drop_first() =~= all.skip(i + 1));
        if !push_fit(out, pieces[i], cap) {
            return;
        }
        i = i + 1;
    }
    assert(all.skip(n as int) =~= Seq::<Seq<char>>::empty());
}

/// `application/x-www-form-urlencoded` body for a Pico poll, at most
/// [`FORM_MAX`] bytes.
pub fn telemetry_form(mv: u32, pct: u16, usb: bool, wake: &str, wake_at: &str) -> (r: String)
    ensures
        r@ == telemetry_of(mv, pct, usb, wake@, wake_at@),
{
    let mv_s = decimal_string(mv as u64);
    let pct_s = decimal_string(pct as u64);
    let usb_s = if usb { "1" } else { "0" };
    let head: Vec<&str> = vec![
        "mv=",
        mv_s.as_str(),
        "&pct=",
        pct_s.as_str(),
        "&usb=",
        usb_s,
        "&wake=",
        wake,
    ];
    assert(piece_texts(head@) =~= seq![
        "mv="@,
        decimal(mv as nat),
        "&pct="@,
        decimal(pct as nat),
        "&usb="@,
        if usb { "1"@ } else { "0"@ },
        "&wake="@,
        wake@,
    ]);
    let mut body = String::new();
    assert(utf8_len(body@) == 0);
    push_pieces(&mut body, head.as_slice(), FORM_MAX);
    match sanitize_wake_at(wake_at) {
        Some(slot) => {
            let tail: Vec<&str> = vec!["&wake_at=", slot.as_str()];
            assert(piece_texts(tail@) =~= seq!["&wake_at="@, slot@]);
            push_pieces(&mut body, tail.as_slice(), FORM_MAX);
        },
        None => {},
    }
    body
}

/// Raw HTTP/1.1 POST for `/api/frame.bin` with telemetry in the body;
/// `None` when it would not fit `N` bytes.
pub fn post_frame_request<const N: usize>(
    host: &str,
    port: u16,
    path: &str,
    checksum: &str,
    body: &str,
) -> (r: Option<String>)
    ensures
        match r {
            Some(req) => req@ == request_of(host@, port, path@, checksum@, body@) && utf8_len(
                req@,
            ) <= N,
            None => utf8_len(request_of(host@, port, path@, checksum@, body@)) > N,
        },
{
    let mut req = String::new();
    push_str(&mut req, "POST ");
    push_str(&mut req, path);
    push_str(&mut req, " HTTP/1.1\r\nHost: ");
    push_str(&mut req, host);
    let ghost a = req@;
    if port != 80 {
        push_str(&mut req, ":");
        push_decimal(&mut req, port as u64);
    }
    let ghost b = req@;
    push_str(&mut req, "\r\n");
    push_str(&mut req, "Connection: close\r\n");
    let ghost c = req@;
    if !checksum.is_empty() {
        push_str(&mut req, "If-None-Match: ");
        push_str(&mut req, checksum);
        push_str(&mut req, "\r\n");
    }
    let ghost d = req@;
    push_str(&mut req, "Content-Type: application/x-www-form-urlencoded\r\nContent-Length: ");
    push_decimal(&mut req, byte_len(body) as u64);
    push_str(&mut req, "\r\n\r\n");
    push_str(&mut req, body);
    proof {
        let tail80 = if port == 80 {
            Seq::empty()
        } else {
            ":"@ + decimal(port as nat)
        };
        assert(b =~= a + tail80);
        let ck = if checksum@.len() == 0 {
            Seq::empty()
        } else {
            "If-None-Match: "@ + checksum@ + "\r\n"@
        };
        assert(d =~= c + ck);
        assert(req@ =~= request_of(host@, port, path@, checksum@, body@));
    }
    if byte_len(req.as_str()) > N {
        return None;
    }
    Some(req)
}

/// Capacity of the request buffer a frame poll is written into, in bytes.
pub const REQUEST_MAX: usize = 384;

/// The poll of the frame endpoint for a `server` setting: its target and
/// the whole request, when the URL parses and the request fits
/// [`REQUEST_MAX`] bytes.
pub open spec fn frame_request_of(server: Seq<char>, checksum: Seq<char>, body: Seq<char>) -> Option<
    (Seq<char>, u16, Seq<char>, Seq<char>),
> {
    match frame_url_of(server, FRAME_URL_MAX as nat) {
        None => None,
        Some(u) => match server_of(u) {
            None => None,
            Some((h, p, path)) => {
                let req = request_of(h, p, path, checksum, body);
                if utf8_len(req) <= REQUEST_MAX {
                    Some((h, p, path, req))
                } else {
                    None
                }
            },
        },
    }
}

/// Target and request of one frame poll, before any socket is opened.
pub fn frame_request(server: &str, checksum: &str, body: &str) -> (r: Option<(ServerTarget, String)>)
    ensures
        match r {
            Some((t, req)) => frame_request_of(server@, checksum@, body@) == Some(
                (t.host@, t.port, t.path@, req@),
            ),
            None => frame_request_of(server@, checksum@, body@) is None,
        },
{
    let t = match frame_target(server) {
        Some(t) => t,
        None => return None,
    };
    match post_frame_request::<REQUEST_MAX>(t.host.as_str(), t.port, t.path.as_str(), checksum, body) {
        Some(req) => Some((t, req)),
        None => None,
    }
}

/// `part` stands in `s` from position `i` on.
pub open spec fn holds_at(s: Seq<char>, part: Seq<char>, i: int) -> bool {
    0 <= i && i + part.len() <= s.len() && s.subrange(i, i + part.len()) == part
}

/// A frame poll asks for the frame only if it changed: whenever a poll is
/// built for a non-empty stored checksum `c`, its request carries the line
/// `If-None-Match: c`, so the server can answer "unchanged"; with no
/// checksum it carries no such header. Either way it is a POST of the
/// target's path that ends with the telemetry body.
pub proof fn lemma_poll_sends_checksum(server: Seq<char>, c: Seq<char>, body: Seq<char>)
    ensures
        frame_request_of(server, c, body) matches Some((h, p, path, req)) ==> {
            &&& c.len() > 0 ==> exists|i: int| #[trigger] holds_at(req, "If-None-Match: "@ + c + "\r\n"@, i)
            &&& c.len() == 0 ==> req == request_of(h, p, path, Seq::empty(), body)
            &&& holds_at(req, "POST "@ + path + " "@, 0)
            &&& holds_at(req, "\r\nHost: "@ + h, (path.len() + 14) as int)
            &&& holds_at(
                req,
                "Content-Length: "@ + decimal(utf8_len(body)) + "\r\n\r\n"@ + body,
                req.len() - body.len() - decimal(utf8_len(body)).len() - 20,
            )
        },
{
    if let Some((h, p, path, req)) = frame_request_of(server, c, body) {
        reveal_strlit("POST ");
        reveal_strlit(" ");
        reveal_strlit(" HTTP/1.1\r\nHost: ");
        let port_part = if p == 80 { Seq::<char>::empty() } else { ":"@ + decimal(p as nat) };
        let pre = "POST "@ + path + " HTTP/1.1\r\nHost: "@ + h + port_part + "\r\n"@ + "Connection: close\r\n"@;
        let line = "If-None-Match: "@ + c + "\r\n"@;
        let ck = if c.len() == 0 { Seq::<char>::empty() } else { line };
        let tail = "Content-Type: application/x-www-form-urlencoded\r\nContent-Length: "@ + decimal(utf8_len(body))
            + "\r\n\r\n"@;
        assert(req =~= pre + ck + tail + body);
        if c.len() > 0 {
            assert(req.subrange(pre.len() as int, (pre.len() + line.len()) as int) =~= line);
            assert(holds_at(req, line, pre.len() as int));
        }
        assert(req.subrange(0, (path.len() + 6) as int) =~= "POST "@ + path + " "@);
        reveal_strlit("\r\nHost: ");
        reveal_strlit("Content-Length: ");
        reveal_strlit("\r\n\r\n");
        reveal_strlit("Content-Type: application/x-www-form-urlencoded\r\nContent-Length: ");
        assert(req.subrange((path.len() + 14) as int, (path.len() + 14 + 8 + h.len()) as int) =~= "\r\nHost: "@ + h);
        let cl = "Content-Length: "@ + decimal(utf8_len(body)) + "\r\n\r\n"@ + body;
        reveal_strlit("Content-Type: application/x-www-form-urlencoded\r\n");
        assert(tail + body =~= "Content-Type: application/x-www-form-urlencoded\r\n"@ + cl);
        assert(req.subrange(req.len() - cl.len(), req.len() as int) =~= cl);
    }
}

} // verus!
