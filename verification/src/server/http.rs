//! Decisions of the HTTP endpoints: query flags, which checksum a request
//! offers, the Pico poll's status, asset and image types, and the picture
//! and rotation edits. The router, bodies and headers are the caller's part.

use vstd::prelude::*;
use crate::server::config::FrameMode;
use crate::server::pictures::{contains_id, listed, PictureListItem};
use crate::text::{
    chars_of, decimal, decimal_string, end_char, eq_ignore_ascii_case, eq_ignore_case, find_seq,
    find_seq_from, lower_seq, push_str, same_chars, same_text, skip_char, string_in, to_lower, trim,
    trim_bounds, trim_char, trimmed,
};

verus! {

/// Query of `/api/frame.bin`.
pub struct FrameQuery {
    pub checksum: Option<String>,
    /// Layout simulator: skip the dashboard cache and re-run Chrome.
    pub fresh: Option<String>,
}

/// A query value that turns a flag on: empty, `1`, `true`, `yes` or `on`,
/// trimmed, in any ASCII case.
pub open spec fn flag_on(value: Seq<char>) -> bool {
    let k = lower_seq(trim(value));
    k.len() == 0 || k == "1"@ || k == "true"@ || k == "yes"@ || k == "on"@
}

fn is_lit(k: &Vec<char>, lit: &str) -> (r: bool)
    ensures
        r == (k@ == lit@),
{
    let w = chars_of(lit);
    same_chars(k.as_slice(), w.as_slice())
}

/// Whether a query flag such as `?fresh` is set.
pub fn query_flag(value: Option<&str>) -> (r: bool)
    ensures
        r == match value {
            Some(v) => flag_on(v@),
            None => false,
        },
{
    match value {
        None => false,
        Some(v) => {
            let c = chars_of(v);
            let t = trimmed(c.as_slice());
            let k = to_lower(t.as_slice());
            k.len() == 0 || is_lit(&k, "1") || is_lit(&k, "true") || is_lit(&k, "yes") || is_lit(
                &k,
                "on",
            )
        },
    }
}

/// The checksum a GET offers: the `checksum` query value, else `If-None-Match`.
pub fn offered_checksum<'a>(query: Option<&'a str>, if_none_match: Option<&'a str>) -> (r: Option<&'a str>)
    ensures
        r == match query {
            Some(q) => Some(q),
            None => if_none_match,
        },
{
    match query {
        Some(q) => Some(q),
        None => if_none_match,
    }
}

/// A poll woken by the Pico's button: wake reason `button` in any ASCII case.
pub open spec fn button_wake(wake: Seq<char>) -> bool {
    eq_ignore_case(wake, "button"@)
}

pub fn is_button_wake(wake: &str) -> (r: bool)
    ensures
        r == button_wake(wake@),
{
    let w = chars_of(wake);
    let b = chars_of("button");
    eq_ignore_ascii_case(w.as_slice(), b.as_slice())
}

/// The checksum a Pico POST offers: `If-None-Match` trimmed and unquoted,
/// empty when absent.
pub open spec fn offered_etag_of(if_none_match: Option<Seq<char>>) -> Seq<char> {
    match if_none_match {
        Some(h) => trim_char(trim(h), '"'),
        None => Seq::empty(),
    }
}

pub fn offered_etag(if_none_match: Option<&str>) -> (r: String)
    ensures
        r@ == offered_etag_of(
            match if_none_match {
                Some(h) => Some(h@),
                None => None,
            },
        ),
{
    match if_none_match {
        None => String::new(),
        Some(h) => {
            let v = chars_of(h);
            let (i0, j0) = trim_bounds(&v);
            let i = skip_char(&v, '"', i0, j0);
            let j = end_char(&v, '"', i, j0);
            assert(v@.subrange(i as int, j as int) == trim_char(v@.subrange(i0 as int, j0 as int), '"'));
            string_in(&v, i, j)
        },
    }
}

/// Status of a Pico poll: `204` when it already shows the frame, else `200`.
pub fn poll_status(unchanged: bool) -> (r: u16)
    ensures
        r == if unchanged { 204u16 } else { 200u16 },
{
    if unchanged { 204 } else { 200 }
}

/// Which bundled asset a `/static/{path}` names, with its content type.
#[derive(Clone, Copy, Debug, PartialEq, Eq)]
pub enum StaticAsset {
    DashboardCss,
    AtkinsonRegularWoff2,
    AtkinsonBoldWoff2,
    AtkinsonRegularTtf,
    AtkinsonBoldTtf,
    Trmnl12RegularWoff2,
    Trmnl12BoldWoff2,
    Trmnl12RegularTtf,
    Trmnl12BoldTtf,
    Trmnl16RegularWoff2,
    Trmnl16BoldWoff2,
    Trmnl16RegularTtf,
    Trmnl16BoldTtf,
    Trmnl21RegularWoff2,
    Trmnl21BoldWoff2,
    Trmnl21RegularTtf,
    Trmnl21BoldTtf,
}

/// The asset at `path` and its content type; `None` is a 404.
pub open spec fn static_asset_of(path: Seq<char>) -> Option<(StaticAsset, Seq<char>)> {
    if path == "dashboard.css"@ {
        Some((StaticAsset::DashboardCss, "text/css; charset=utf-8"@))
    } else if path == "fonts/AtkinsonHyperlegible-Regular.woff2"@ {
        Some((StaticAsset::AtkinsonRegularWoff2, "font/woff2"@))
    } else if path == "fonts/AtkinsonHyperlegible-Bold.woff2"@ {
        Some((StaticAsset::AtkinsonBoldWoff2, "font/woff2"@))
    } else if path == "fonts/AtkinsonHyperlegible-Regular.ttf"@ {
        Some((StaticAsset::AtkinsonRegularTtf, "font/ttf"@))
    } else if path == "fonts/AtkinsonHyperlegible-Bold.ttf"@ {
        Some((StaticAsset::AtkinsonBoldTtf, "font/ttf"@))
    } else if path == "fonts/TRMNL12-Regular.woff2"@ {
        Some((StaticAsset::Trmnl12RegularWoff2, "font/woff2"@))
    } else if path == "fonts/TRMNL12-Bold.woff2"@ {
        Some((StaticAsset::Trmnl12BoldWoff2, "font/woff2"@))
    } else if path == "fonts/TRMNL12-Regular.ttf"@ {
        Some((StaticAsset::Trmnl12RegularTtf, "font/ttf"@))
    } else if path == "fonts/TRMNL12-Bold.ttf"@ {
        Some((StaticAsset::Trmnl12BoldTtf, "font/ttf"@))
    } else if path == "fonts/TRMNL16-Regular.woff2"@ {
        Some((StaticAsset::Trmnl16RegularWoff2, "font/woff2"@))
    } else if path == "fonts/TRMNL16-Bold.woff2"@ {
        Some((StaticAsset::Trmnl16BoldWoff2, "font/woff2"@))
    } else if path == "fonts/TRMNL16-Regular.ttf"@ {
        Some((StaticAsset::Trmnl16RegularTtf, "font/ttf"@))
    } else if path == "fonts/TRMNL16-Bold.ttf"@ {
        Some((StaticAsset::Trmnl16BoldTtf, "font/ttf"@))
    } else if path == "fonts/TRMNL21-Regular.woff2"@ {
        Some((StaticAsset::Trmnl21RegularWoff2, "font/woff2"@))
    } else if path == "fonts/TRMNL21-Bold.woff2"@ {
        Some((StaticAsset::Trmnl21BoldWoff2, "font/woff2"@))
    } else if path == "fonts/TRMNL21-Regular.ttf"@ {
        Some((StaticAsset::Trmnl21RegularTtf, "font/ttf"@))
    } else if path == "fonts/TRMNL21-Bold.ttf"@ {
        Some((StaticAsset::Trmnl21BoldTtf, "font/ttf"@))
    } else {
        None
    }
}

pub fn static_asset(path: &str) -> (r: Option<(StaticAsset, &'static str)>)
    ensures
        match r {
            Some((a, t)) => static_asset_of(path@) == Some((a, t@)),
            None => static_asset_of(path@) is None,
        },
{
    if same_text(path, "dashboard.css") {
        Some((StaticAsset::DashboardCss, "text/css; charset=utf-8"))
    } else if same_text(path, "fonts/AtkinsonHyperlegible-Regular.woff2") {
        Some((StaticAsset::AtkinsonRegularWoff2, "font/woff2"))
    } else if same_text(path, "fonts/AtkinsonHyperlegible-Bold.woff2") {
        Some((StaticAsset::AtkinsonBoldWoff2, "font/woff2"))
    } else if same_text(path, "fonts/AtkinsonHyperlegible-Regular.ttf") {
        Some((StaticAsset::AtkinsonRegularTtf, "font/ttf"))
    } else if same_text(path, "fonts/AtkinsonHyperlegible-Bold.ttf") {
        Some((StaticAsset::AtkinsonBoldTtf, "font/ttf"))
    } else if same_text(path, "fonts/TRMNL12-Regular.woff2") {
        Some((StaticAsset::Trmnl12RegularWoff2, "font/woff2"))
    } else if same_text(path, "fonts/TRMNL12-Bold.woff2") {
        Some((StaticAsset::Trmnl12BoldWoff2, "font/woff2"))
    } else if same_text(path, "fonts/TRMNL12-Regular.ttf") {
        Some((StaticAsset::Trmnl12RegularTtf, "font/ttf"))
    } else if same_text(path, "fonts/TRMNL12-Bold.ttf") {
        Some((StaticAsset::Trmnl12BoldTtf, "font/ttf"))
    } else if same_text(path, "fonts/TRMNL16-Regular.woff2") {
        Some((StaticAsset::Trmnl16RegularWoff2, "font/woff2"))
    } else if same_text(path, "fonts/TRMNL16-Bold.woff2") {
        Some((StaticAsset::Trmnl16BoldWoff2, "font/woff2"))
    } else if same_text(path, "fonts/TRMNL16-Regular.ttf") {
        Some((StaticAsset::Trmnl16RegularTtf, "font/ttf"))
    } else if same_text(path, "fonts/TRMNL16-Bold.ttf") {
        Some((StaticAsset::Trmnl16BoldTtf, "font/ttf"))
    } else if same_text(path, "fonts/TRMNL21-Regular.woff2") {
        Some((StaticAsset::Trmnl21RegularWoff2, "font/woff2"))
    } else if same_text(path, "fonts/TRMNL21-Bold.woff2") {
        Some((StaticAsset::Trmnl21BoldWoff2, "font/woff2"))
    } else if same_text(path, "fonts/TRMNL21-Regular.ttf") {
        Some((StaticAsset::Trmnl21RegularTtf, "font/ttf"))
    } else if same_text(path, "fonts/TRMNL21-Bold.ttf") {
        Some((StaticAsset::Trmnl21BoldTtf, "font/ttf"))
    } else {
        None
    }
}

/// Content type of a stored original, by its file extension.
pub open spec fn original_type_of(ext: Option<Seq<char>>) -> Seq<char> {
    match ext {
        Some(e) => if e == "png"@ {
            "image/png"@
        } else if e == "webp"@ {
            "image/webp"@
        } else {
            "image/jpeg"@
        },
        None => "image/jpeg"@,
    }
}

pub fn original_content_type(ext: Option<&str>) -> (r: &'static str)
    ensures
        r@ == original_type_of(
            match ext {
                Some(e) => Some(e@),
                None => None,
            },
        ),
{
    match ext {
        Some(e) => if same_text(e, "png") {
            "image/png"
        } else if same_text(e, "webp") {
            "image/webp"
        } else {
            "image/jpeg"
        },
        None => "image/jpeg",
    }
}

/// The checksum a `/api/debug/frames/{name}` asks for: the name without `.png`.
pub open spec fn frame_name_checksum_of(name: Seq<char>) -> Seq<char> {
    let n = name.len();
    if n >= 4 && name.subrange(n - 4, n as int) == ".png"@ {
        name.take(n - 4)
    } else {
        name
    }
}

pub fn frame_name_checksum(name: &str) -> (r: String)
    ensures
        r@ == frame_name_checksum_of(name@),
{
    let v = chars_of(name);
    let n = v.len();
    proof {
        reveal_strlit(".png");
    }
    if n >= 4 && v[n - 4] == '.' && v[n - 3] == 'p' && v[n - 2] == 'n' && v[n - 1] == 'g' {
        assert(v@.subrange(n - 4, n as int) =~= ".png"@);
        return string_in(&v, 0, n - 4);
    }
    assert(n >= 4 ==> v@.subrange(n - 4, n as int) != ".png"@) by {
        if n >= 4 && v@.subrange(n - 4, n as int) == ".png"@ {
            assert(v@.subrange(n - 4, n as int)[0] == v@[n - 4]);
            assert(v@.subrange(n - 4, n as int)[1] == v@[n - 3]);
            assert(v@.subrange(n - 4, n as int)[2] == v@[n - 2]);
            assert(v@.subrange(n - 4, n as int)[3] == v@[n - 1]);
        }
    }
    assert(v@.subrange(0, n as int) =~= v@);
    string_in(&v, 0, n)
}

/// HTTP status for a failed picture request: 404 when the error says a
/// picture was not found, else 500.
pub open spec fn error_status_of(err: Seq<char>) -> u16 {
    if find_seq(err, "not found"@) is Some { 404 } else { 500 }
}

pub fn error_status(err: &str) -> (r: u16)
    ensures
        r == error_status_of(err@),
{
    let v = chars_of(err);
    let p = chars_of("not found");
    assert(v@.subrange(0, v@.len() as int) =~= v@);
    if find_seq_from(v.as_slice(), 0, p.as_slice()).is_some() { 404 } else { 500 }
}

/// A multipart field that carries the upload: `file`, `photo`, or unnamed.
pub open spec fn upload_field_of(name: Seq<char>) -> bool {
    name == "file"@ || name == "photo"@ || name.len() == 0
}

pub fn is_upload_field(name: &str) -> (r: bool)
    ensures
        r == upload_field_of(name@),
{
    same_text(name, "file") || same_text(name, "photo") || name.is_empty()
}

/// An upload is refused when no file field came or it was empty.
pub open spec fn upload_error_of(bytes: Option<Seq<u8>>) -> Option<Seq<char>> {
    match bytes {
        None => Some("missing file field"@),
        Some(b) => if b.len() == 0 { Some("empty upload"@) } else { None },
    }
}

pub fn check_upload(bytes: Option<&[u8]>) -> (r: Result<(), String>)
    ensures
        match upload_error_of(
            match bytes {
                Some(b) => Some(b@),
                None => None,
            },
        ) {
            None => r is Ok,
            Some(e) => r matches Err(m) && m@ == e,
        },
{
    match bytes {
        None => Err("missing file field".to_string()),
        Some(b) => if b.len() == 0 { Err("empty upload".to_string()) } else { Ok(()) },
    }
}

/// A settings change that leaves picture mode without photos is refused.
pub open spec fn picture_mode_error_of(next_mode: FrameMode, rotation_len: nat) -> Option<Seq<char>> {
    if next_mode == FrameMode::Picture && rotation_len == 0 {
        Some("picture mode needs at least one photo in the rotation"@)
    } else {
        None
    }
}

pub fn picture_mode_check(next_mode: FrameMode, rotation: &[String]) -> (r: Result<(), String>)
    ensures
        match picture_mode_error_of(next_mode, rotation@.len()) {
            None => r is Ok,
            Some(e) => r matches Err(m) && m@ == e,
        },
{
    match next_mode {
        FrameMode::Picture => if rotation.len() == 0 {
            Err("picture mode needs at least one photo in the rotation".to_string())
        } else {
            Ok(())
        },
        FrameMode::Dashboard => Ok(()),
    }
}

/// Rotation ids that still name a listed photo, in rotation order.
pub open spec fn rotation_listed(rotate: Seq<String>, items: Seq<PictureListItem>) -> Seq<String> {
    rotate.filter(|id: String| exists|i: int| 0 <= i < items.len() && (#[trigger] items[i]).id@ == id@)
}

fn listed_item(items: &[PictureListItem], id: &str) -> (r: bool)
    ensures
        r == exists|i: int| 0 <= i < items@.len() && (#[trigger] items@[i]).id@ == id@,
{
    let n = items.len();
    let mut i: usize = 0;
    while i < n
        invariant
            n == items@.len(),
            i <= n,
            forall|k: int| 0 <= k < i ==> (#[trigger] items@[k]).id@ != id@,
        decreases n - i,
    {
        if same_text(items[i].id.as_str(), id) {
            return true;
        }
        i = i + 1;
    }
    false
}

/// The rotation as the picture manager shows it: only ids still in the library.
pub fn rotation_in_library(rotate: &[String], items: &[PictureListItem]) -> (r: Vec<String>)
    ensures
        r@ == rotation_listed(rotate@, items@),
{
    let ghost pred = |id: String| exists|i: int| 0 <= i < items@.len() && (#[trigger] items@[i]).id@ == id@;
    let n = rotate.len();
    let mut out: Vec<String> = Vec::new();
    let mut i: usize = 0;
    assert(rotate@.take(0).filter(pred) =~= Seq::<String>::empty()) by {
        reveal(Seq::filter);
    }
    while i < n
        invariant
            n == rotate@.len(),
            i <= n,
            out@ == rotate@.take(i as int).filter(pred),
            pred == (|id: String| exists|i: int| 0 <= i < items@.len() && (#[trigger] items@[i]).id@ == id@),
        decreases n - i,
    {
        assert(rotate@.take(i + 1).drop_last() =~= rotate@.take(i as int));
        assert(rotate@.take(i + 1).last() == rotate@[i as int]);
        if listed_item(items, rotate[i].as_str()) {
            out.push(rotate[i].clone());
            assert(rotate@.take(i + 1).filter(pred) == rotate@.take(i as int).filter(pred).push(rotate@[i as int])) by {
                reveal(Seq::filter);
            }
        } else {
            assert(rotate@.take(i + 1).filter(pred) == rotate@.take(i as int).filter(pred)) by {
                reveal(Seq::filter);
            }
        }
        i = i + 1;
    }
    assert(rotate@.take(n as int) =~= rotate@);
    out
}

/// After a photo is deleted: the rotation without it, and picture mode
/// falls back to the dashboard when no photo is left to rotate. Returns
/// whether the rotation changed and whether the mode changed (each needs
/// the settings saved).
pub fn forget_picture(rotate: &mut Vec<String>, mode: &mut FrameMode, id: &str) -> (r: (bool, bool))
    ensures
        final(rotate)@ == old(rotate)@.filter(|x: String| x@ != id@),
        r.0 == (final(rotate)@.len() != old(rotate)@.len()),
        r.1 == (*old(mode) == FrameMode::Picture && final(rotate)@.len() == 0),
        *final(mode) == if r.1 { FrameMode::Dashboard } else { *old(mode) },
{
    let ghost before = rotate@;
    let ghost pred = |x: String| x@ != id@;
    let mut rest: Vec<String> = Vec::new();
    core::mem::swap(rotate, &mut rest);
    let n = rest.len();
    let mut i: usize = 0;
    assert(before.take(0).filter(pred) =~= Seq::<String>::empty()) by {
        reveal(Seq::filter);
    }
    assert(before.skip(0) =~= before);
    while i < n
        invariant
            n == before.len(),
            i <= n,
            rest@ == before.skip(i as int),
            rotate@ == before.take(i as int).filter(pred),
            pred == (|x: String| x@ != id@),
        decreases n - i,
    {
        let x = rest.remove(0);
        assert(x == before[i as int]) by {
            assert(before.skip(i as int)[0] == before[i as int]);
        }
        assert(before.skip(i as int).subrange(1, before.skip(i as int).len() as int) =~= before.skip(i + 1));
        assert(before.take(i + 1).drop_last() =~= before.take(i as int));
        assert(before.take(i + 1).last() == x);
        if !same_text(x.as_str(), id) {
            rotate.push(x);
            assert(before.take(i + 1).filter(pred) == before.take(i as int).filter(pred).push(before[i as int])) by {
                reveal(Seq::filter);
            }
        } else {
            assert(before.take(i + 1).filter(pred) == before.take(i as int).filter(pred)) by {
                reveal(Seq::filter);
            }
        }
        i = i + 1;
    }
    assert(before.take(n as int) =~= before);
    let changed = rotate.len() != n;
    let picture = match *mode {
        FrameMode::Picture => true,
        FrameMode::Dashboard => false,
    };
    let fallback = picture && rotate.len() == 0;
    if fallback {
        *mode = FrameMode::Dashboard;
    }
    (changed, fallback)
}

} // verus!
