//! Uploaded photo library: the listing, the rotation playlist, and the file
//! naming rules. Reading and writing `library.json`, `.state.json` and the
//! image files is the caller's part; these functions decide what to write.

use vstd::prelude::*;
use crate::server::meross::{begins, ends_with, finishes};
use crate::server::photo::DITHER_VERSION;
use crate::text::{
    chars_of, find_char, find_char_in, lower_seq, push_str, same_text, starts_with, to_lower,
};

verus! {


/// One uploaded photo in `library.json`.
#[derive(Debug, Clone, PartialEq, Eq)]
pub struct PictureMeta {
    pub id: String,
    pub filename: String,
    pub uploaded_at: String,
    pub dither_version: u32,
}

/// A photo as the picture manager lists it.
#[derive(Debug, Clone, PartialEq, Eq)]
pub struct PictureListItem {
    pub id: String,
    pub filename: String,
    pub uploaded_at: String,
    pub in_rotate: bool,
    pub thumb_url: String,
    pub dither_url: String,
    pub original_url: String,
}

/// `id` is one of `ids`.
pub open spec fn listed(ids: Seq<String>, id: Seq<char>) -> bool {
    exists|i: int| 0 <= i < ids.len() && (#[trigger] ids[i])@ == id
}

/// `/api/pictures/{id}/{leaf}`.
pub open spec fn picture_url(id: Seq<char>, leaf: Seq<char>) -> Seq<char> {
    "/api/pictures/"@ + id + "/"@ + leaf
}

/// The listing entry for `p`.
pub open spec fn list_item_ok(item: PictureListItem, p: PictureMeta, rotate: Seq<String>) -> bool {
    &&& item.id@ == p.id@
    &&& item.filename@ == p.filename@
    &&& item.uploaded_at@ == p.uploaded_at@
    &&& item.in_rotate == listed(rotate, p.id@)
    &&& item.thumb_url@ == picture_url(p.id@, "thumb.jpg"@)
    &&& item.dither_url@ == picture_url(p.id@, "dither.png"@)
    &&& item.original_url@ == picture_url(p.id@, "original"@)
}

/// Whether `id` is one of `ids`.
pub fn contains_id(ids: &[String], id: &str) -> (r: bool)
    ensures
        r == listed(ids@, id@),
{
    let n = ids.len();
    let mut i: usize = 0;
    while i < n
        invariant
            n == ids@.len(),
            i <= n,
            forall|j: int| 0 <= j < i ==> (#[trigger] ids@[j])@ != id@,
        decreases n - i,
    {
        if same_text(ids[i].as_str(), id) {
            return true;
        }
        i = i + 1;
    }
    false
}

fn picture_url_of(id: &str, leaf: &str) -> (r: String)
    ensures
        r@ == picture_url(id@, leaf@),
{
    let mut s = String::new();
    push_str(&mut s, "/api/pictures/");
    push_str(&mut s, id);
    push_str(&mut s, "/");
    push_str(&mut s, leaf);
    assert(Seq::<char>::empty() + "/api/pictures/"@ =~= "/api/pictures/"@);
    s
}

fn copy_text(s: &String) -> (r: String)
    ensures
        r@ == s@,
{
    let mut t = String::new();
    push_str(&mut t, s.as_str());
    assert(Seq::<char>::empty() + s@ =~= s@);
    t
}

/// The picture manager's listing: every photo of the library in order,
/// with its image URLs and whether the rotation holds it.
pub fn list_items(pictures: &[PictureMeta], rotate: &[String]) -> (r: Vec<PictureListItem>)
    ensures
        r@.len() == pictures@.len(),
        forall|i: int| 0 <= i < r@.len() ==> list_item_ok(#[trigger] r@[i], pictures@[i], rotate@),
{
    let n = pictures.len();
    let mut out: Vec<PictureListItem> = Vec::new();
    let mut i: usize = 0;
    while i < n
        invariant
            n == pictures@.len(),
            i <= n,
            out@.len() == i,
            forall|k: int| 0 <= k < i ==> list_item_ok(#[trigger] out@[k], pictures@[k], rotate@),
        decreases n - i,
    {
        let p = &pictures[i];
        let id = p.id.as_str();
        let item = PictureListItem {
            id: copy_text(&p.id),
            filename: copy_text(&p.filename),
            uploaded_at: copy_text(&p.uploaded_at),
            in_rotate: contains_id(rotate, id),
            thumb_url: picture_url_of(id, "thumb.jpg"),
            dither_url: picture_url_of(id, "dither.png"),
            original_url: picture_url_of(id, "original"),
        };
        out.push(item);
        i = i + 1;
    }
    out
}

/// The playlist entry at `index`, wrapping; `None` for an empty playlist.
pub fn current_id(rotate: &[String], index: usize) -> (r: Option<String>)
    ensures
        rotate@.len() == 0 ==> r is None,
        rotate@.len() > 0 ==> (r matches Some(id) && id@ == rotate@[(index as int) % (rotate@.len() as int)]@),
{
    if rotate.len() == 0 {
        return None;
    }
    let k = index % rotate.len();
    Some(copy_text(&rotate[k]))
}

/// The stored playlist index after one advance: the next entry, wrapping;
/// unchanged for an empty playlist.
pub fn advance_index(rotate_len: usize, index: usize) -> (r: usize)
    ensures
        rotate_len == 0 ==> r == index,
        rotate_len > 0 ==> r == (index + 1) % (rotate_len as int),
{
    if rotate_len == 0 {
        return index;
    }
    let k = index % rotate_len;
    proof {
        let m = rotate_len as int;
        vstd::arithmetic::div_mod::lemma_add_mod_noop(index as int, 1, m);
        if rotate_len > 1 {
            vstd::arithmetic::div_mod::lemma_small_mod(1, rotate_len as nat);
        }
        vstd::arithmetic::div_mod::lemma_add_mod_noop(k as int, 1, m);
        vstd::arithmetic::div_mod::lemma_mod_twice(index as int, m);
    }
    (k + 1) % rotate_len
}

/// Advancing a non-empty playlist shows the entry after the current one,
/// and after as many advances as the playlist is long it is back where it was.
pub proof fn lemma_advance_cycles(len: int, index: int)
    requires
        len > 0,
        index >= 0,
    ensures
        ((index + 1) % len) % len == ((index % len) + 1) % len,
        (index + len) % len == index % len,
{
    let m = len;
    let i = index;
    vstd::arithmetic::div_mod::lemma_mod_twice(i + 1, m);
    vstd::arithmetic::div_mod::lemma_add_mod_noop(i, 1, m);
    if len > 1 {
        vstd::arithmetic::div_mod::lemma_small_mod(1, len as nat);
    }
    vstd::arithmetic::div_mod::lemma_add_mod_noop(i % m, 1, m);
    vstd::arithmetic::div_mod::lemma_mod_twice(i, m);
    vstd::arithmetic::div_mod::lemma_mod_add_multiples_vanish(i, m);
}

/// `ids` in order without the entries equal to `id`.
pub open spec fn without_id(pictures: Seq<PictureMeta>, id: Seq<char>) -> Seq<PictureMeta> {
    pictures.filter(|p: PictureMeta| p.id@ != id)
}

/// Some picture of `pictures` has this id.
pub open spec fn has_picture(pictures: Seq<PictureMeta>, id: Seq<char>) -> bool {
    exists|i: int| 0 <= i < pictures.len() && (#[trigger] pictures[i]).id@ == id
}

/// "picture `{id}` not found".
pub open spec fn not_found(id: Seq<char>) -> Seq<char> {
    "picture `"@ + id + "` not found"@
}

fn not_found_text(id: &str) -> (r: String)
    ensures
        r@ == not_found(id@),
{
    let mut s = String::new();
    push_str(&mut s, "picture `");
    push_str(&mut s, id);
    push_str(&mut s, "` not found");
    assert(Seq::<char>::empty() + "picture `"@ =~= "picture `"@);
    s
}

/// Delete every library entry with this id; an error when there was none.
pub fn remove_picture(pictures: &mut Vec<PictureMeta>, id: &str) -> (r: Result<(), String>)
    ensures
        final(pictures)@ == without_id(old(pictures)@, id@),
        r is Ok <==> has_picture(old(pictures)@, id@),
        r matches Err(e) ==> e@ == not_found(id@),
{
    let ghost before = pictures@;
    let ghost pred = |q: PictureMeta| q.id@ != id@;
    let mut removed = false;
    let mut i: usize = 0;
    let ghost mut j: int = 0;
    assert(before.take(0).filter(pred) =~= Seq::<PictureMeta>::empty()) by {
        reveal(Seq::filter);
    }
    assert(before.skip(0) =~= before);
    while i < pictures.len()
        invariant
            0 <= j <= before.len(),
            pictures@ == before.take(j).filter(pred) + before.skip(j),
            i == before.take(j).filter(pred).len(),
            removed == has_picture(before.take(j), id@),
            pred == (|q: PictureMeta| q.id@ != id@),
        decreases pictures@.len() - i,
    {
        let ghost x = before[j];
        assert(pictures@[i as int] == x);
        assert(before.take(j + 1).drop_last() =~= before.take(j));
        assert(before.take(j + 1).last() == x);
        assert(before.skip(j) =~= seq![x] + before.skip(j + 1));
        if same_text(pictures[i].id.as_str(), id) {
            pictures.remove(i);
            removed = true;
            assert(before.take(j + 1).filter(pred) == before.take(j).filter(pred)) by {
                reveal(Seq::filter);
            }
            assert(has_picture(before.take(j + 1), id@)) by {
                assert(before.take(j + 1)[j] == x);
            }
            assert(pictures@ =~= before.take(j + 1).filter(pred) + before.skip(j + 1));
        } else {
            i = i + 1;
            assert(before.take(j + 1).filter(pred) == before.take(j).filter(pred).push(x)) by {
                reveal(Seq::filter);
            }
            assert(has_picture(before.take(j + 1), id@) == has_picture(before.take(j), id@)) by {
                if has_picture(before.take(j + 1), id@) {
                    let k = choose|k: int| 0 <= k < j + 1 && (#[trigger] before.take(j + 1)[k]).id@ == id@;
                    assert(k != j);
                    assert(before.take(j)[k] == before.take(j + 1)[k]);
                }
                if has_picture(before.take(j), id@) {
                    let k = choose|k: int| 0 <= k < j && (#[trigger] before.take(j)[k]).id@ == id@;
                    assert(before.take(j)[k] == before.take(j + 1)[k]);
                }
            }
            assert(pictures@ =~= before.take(j + 1).filter(pred) + before.skip(j + 1));
        }
        proof {
            j = j + 1;
        }
    }
    assert(j == before.len()) by {
        if j < before.len() {
            assert(pictures@.len() > i);
        }
    }
    assert(before.take(j) =~= before);
    assert(before.skip(j) =~= Seq::<PictureMeta>::empty());
    assert(pictures@ =~= before.filter(pred));
    if removed {
        Ok(())
    } else {
        Err(not_found_text(id))
    }
}

/// Position of the first library entry with this id.
pub open spec fn first_picture(pictures: Seq<PictureMeta>, id: Seq<char>, i: int) -> bool {
    0 <= i < pictures.len() && pictures[i].id@ == id && forall|k: int|
        0 <= k < i ==> (#[trigger] pictures[k]).id@ != id
}

/// The library entry for `id` (the first, should ids repeat), or the
/// "not found" error.
pub fn find_picture(pictures: &[PictureMeta], id: &str) -> (r: Result<usize, String>)
    ensures
        r matches Ok(i) ==> first_picture(pictures@, id@, i as int),
        r is Err <==> !has_picture(pictures@, id@),
        r matches Err(e) ==> e@ == not_found(id@),
{
    let n = pictures.len();
    let mut i: usize = 0;
    while i < n
        invariant
            n == pictures@.len(),
            i <= n,
            forall|k: int| 0 <= k < i ==> (#[trigger] pictures@[k]).id@ != id@,
        decreases n - i,
    {
        if same_text(pictures[i].id.as_str(), id) {
            return Ok(i);
        }
        i = i + 1;
    }
    Err(not_found_text(id))
}

/// "unknown picture id `{id}`".
pub open spec fn unknown_id(id: Seq<char>) -> Seq<char> {
    "unknown picture id `"@ + id + "`"@
}

/// Every playlist id names a photo of the library; otherwise the error for
/// the first that does not.
pub fn validate_rotate_ids(pictures: &[PictureMeta], ids: &[String]) -> (r: Result<(), String>)
    ensures
        r is Ok <==> forall|i: int| 0 <= i < ids@.len() ==> has_picture(pictures@, (#[trigger] ids@[i])@),
        r matches Err(e) ==> exists|i: int|
            0 <= i < ids@.len() && !has_picture(pictures@, (#[trigger] ids@[i])@) && e@ == unknown_id(ids@[i]@)
                && forall|k: int| 0 <= k < i ==> has_picture(pictures@, (#[trigger] ids@[k])@),
{
    let n = ids.len();
    let mut i: usize = 0;
    while i < n
        invariant
            n == ids@.len(),
            i <= n,
            forall|k: int| 0 <= k < i ==> has_picture(pictures@, (#[trigger] ids@[k])@),
        decreases n - i,
    {
        if find_picture(pictures, ids[i].as_str()).is_err() {
            let mut e = String::new();
            push_str(&mut e, "unknown picture id `");
            push_str(&mut e, ids[i].as_str());
            push_str(&mut e, "`");
            assert(Seq::<char>::empty() + "unknown picture id `"@ =~= "unknown picture id `"@);
            return Err(e);
        }
        i = i + 1;
    }
    Ok(())
}

/// Record that the cached dither of `id` is current: the first entry with
/// that id gets [`DITHER_VERSION`]; nothing else changes.
pub fn mark_dithered(pictures: &mut Vec<PictureMeta>, id: &str)
    ensures
        final(pictures)@.len() == old(pictures)@.len(),
        !has_picture(old(pictures)@, id@) ==> final(pictures)@ == old(pictures)@,
        forall|i: int| #![trigger final(pictures)@[i]]
            first_picture(old(pictures)@, id@, i) ==> final(pictures)@[i] == (PictureMeta {
                dither_version: DITHER_VERSION,
                ..old(pictures)@[i]
            }) && forall|k: int|
                0 <= k < old(pictures)@.len() && k != i ==> final(pictures)@[k] == old(pictures)@[k],
{
    match find_picture(pictures.as_slice(), id) {
        Ok(i) => {
            let mut p = pictures.remove(i);
            p.dither_version = DITHER_VERSION;
            pictures.insert(i, p);
            assert forall|j: int| first_picture(old(pictures)@, id@, j) implies j == i by {
                if j < i {
                    assert(old(pictures)@[j].id@ != id@);
                } else if j > i {
                    assert(old(pictures)@[i as int].id@ != id@);
                }
            }
        },
        Err(_) => {},
    }
}

/// The cached `.bin` and `.png` of a photo can be served as they are.
pub open spec fn cache_current(bin_exists: bool, png_exists: bool, dither_version: u32) -> bool {
    bin_exists && png_exists && dither_version == DITHER_VERSION
}

/// Whether a photo's dither must be rebuilt before it is served.
pub fn needs_redither(bin_exists: bool, png_exists: bool, dither_version: u32) -> (r: bool)
    ensures
        r == !cache_current(bin_exists, png_exists, dither_version),
{
    !(bin_exists && png_exists && dither_version == DITHER_VERSION)
}

/// File extension to store an upload under: by name first, then by the
/// leading magic bytes, `jpg` when neither tells.
pub open spec fn extension_of(filename: Seq<char>, bytes: Seq<u8>) -> Seq<char> {
    let l = lower_seq(filename);
    if ends_with(l, ".png"@) {
        "png"@
    } else if ends_with(l, ".webp"@) {
        "webp"@
    } else if ends_with(l, ".jpg"@) || ends_with(l, ".jpeg"@) {
        "jpg"@
    } else if bytes.len() >= 8 && bytes.take(8) == seq![0x89u8, 0x50u8, 0x4eu8, 0x47u8, 0x0du8, 0x0au8, 0x1au8, 0x0au8] {
        "png"@
    } else if bytes.len() >= 3 && bytes[0] == 0xffu8 && bytes[1] == 0xd8u8 && bytes[2] == 0xffu8 {
        "jpg"@
    } else if bytes.len() >= 12 && bytes.take(4) == seq![0x52u8, 0x49u8, 0x46u8, 0x46u8]
        && bytes.subrange(8, 12) == seq![0x57u8, 0x45u8, 0x42u8, 0x50u8] {
        "webp"@
    } else {
        "jpg"@
    }
}

pub fn extension_for(filename: &str, bytes: &[u8]) -> (r: &'static str)
    ensures
        r@ == extension_of(filename@, bytes@),
{
    let l = to_lower(chars_of(filename).as_slice());
    if finishes(&l, ".png") {
        return "png";
    }
    if finishes(&l, ".webp") {
        return "webp";
    }
    if finishes(&l, ".jpg") || finishes(&l, ".jpeg") {
        return "jpg";
    }
    let n = bytes.len();
    if n >= 8 && bytes[0] == 0x89 && bytes[1] == 0x50 && bytes[2] == 0x4e && bytes[3] == 0x47
        && bytes[4] == 0x0d && bytes[5] == 0x0a && bytes[6] == 0x1a && bytes[7] == 0x0a {
        assert(bytes@.take(8) =~= seq![0x89u8, 0x50u8, 0x4eu8, 0x47u8, 0x0du8, 0x0au8, 0x1au8, 0x0au8]);
        return "png";
    }
    assert(n >= 8 ==> bytes@.take(8) != seq![0x89u8, 0x50u8, 0x4eu8, 0x47u8, 0x0du8, 0x0au8, 0x1au8, 0x0au8]) by {
        if n >= 8 && bytes@.take(8) == seq![0x89u8, 0x50u8, 0x4eu8, 0x47u8, 0x0du8, 0x0au8, 0x1au8, 0x0au8] {
            assert(bytes@.take(8)[0] == bytes@[0]);
            assert(bytes@.take(8)[1] == bytes@[1]);
            assert(bytes@.take(8)[2] == bytes@[2]);
            assert(bytes@.take(8)[3] == bytes@[3]);
            assert(bytes@.take(8)[4] == bytes@[4]);
            assert(bytes@.take(8)[5] == bytes@[5]);
            assert(bytes@.take(8)[6] == bytes@[6]);
            assert(bytes@.take(8)[7] == bytes@[7]);
        }
    }
    if n >= 3 && bytes[0] == 0xff && bytes[1] == 0xd8 && bytes[2] == 0xff {
        return "jpg";
    }
    if n >= 12 && bytes[0] == 0x52 && bytes[1] == 0x49 && bytes[2] == 0x46 && bytes[3] == 0x46
        && bytes[8] == 0x57 && bytes[9] == 0x45 && bytes[10] == 0x42 && bytes[11] == 0x50 {
        assert(bytes@.take(4) =~= seq![0x52u8, 0x49u8, 0x46u8, 0x46u8]);
        assert(bytes@.subrange(8, 12) =~= seq![0x57u8, 0x45u8, 0x42u8, 0x50u8]);
        return "webp";
    }
    assert(n >= 12 ==> !(bytes@.take(4) == seq![0x52u8, 0x49u8, 0x46u8, 0x46u8]
        && bytes@.subrange(8, 12) == seq![0x57u8, 0x45u8, 0x42u8, 0x50u8])) by {
        if n >= 12 && bytes@.take(4) == seq![0x52u8, 0x49u8, 0x46u8, 0x46u8]
            && bytes@.subrange(8, 12) == seq![0x57u8, 0x45u8, 0x42u8, 0x50u8] {
            assert(bytes@.take(4)[0] == bytes@[0]);
            assert(bytes@.take(4)[1] == bytes@[1]);
            assert(bytes@.take(4)[2] == bytes@[2]);
            assert(bytes@.take(4)[3] == bytes@[3]);
            assert(bytes@.subrange(8, 12)[0] == bytes@[8]);
            assert(bytes@.subrange(8, 12)[1] == bytes@[9]);
            assert(bytes@.subrange(8, 12)[2] == bytes@[10]);
            assert(bytes@.subrange(8, 12)[3] == bytes@[11]);
        }
    }
    "jpg"
}

/// A file in the library folder that belongs to photo `id` (its original
/// upload or a leftover): starts with the id, has an extension, not hidden.
pub open spec fn belongs_to(name: Seq<char>, id: Seq<char>) -> bool {
    starts_with(name, id) && find_char(name, '.') is Some && !(name.len() > 0 && name[0] == '.')
}

pub fn is_picture_file(name: &str, id: &str) -> (r: bool)
    ensures
        r == belongs_to(name@, id@),
{
    let v = chars_of(name);
    let n = v.len();
    assert(v@.subrange(0, n as int) =~= v@);
    begins(&v, id) && find_char_in(&v, '.', 0, n).is_some() && !(n > 0 && v[0] == '.')
}

/// The stored original of photo `id`: `{id}.{ext}` with a non-empty
/// extension and no `-` anywhere (which marks the cache variants).
pub open spec fn original_name(name: Seq<char>, id: Seq<char>) -> bool {
    starts_with(name, id + "."@) && name.len() > id.len() + 1 && find_char(name, '-') is None
}

pub fn is_original_file(name: &str, id: &str) -> (r: bool)
    ensures
        r == original_name(name@, id@),
{
    let v = chars_of(name);
    let n = v.len();
    let mut prefix = String::new();
    push_str(&mut prefix, id);
    push_str(&mut prefix, ".");
    assert(Seq::<char>::empty() + id@ =~= id@);
    assert(prefix@ =~= id@ + "."@);
    proof {
        reveal_strlit(".");
    }
    let plen = chars_of(prefix.as_str()).len();
    assert(v@.subrange(0, n as int) =~= v@);
    begins(&v, prefix.as_str()) && n > plen && find_char_in(&v, '-', 0, n).is_none()
}

} // verus!
