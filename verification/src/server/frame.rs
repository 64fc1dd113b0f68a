//! The frame the Pico is served and the rules around its caches: when a
//! rendered dashboard may be reused, which cache key a mode is served
//! under, and whether the Pico's checksum names the current frame.
//! Rendering, screenshots and the files themselves are the caller's part.

use vstd::prelude::*;
pub use crate::hashing::sha256_hex;
use crate::server::model::Dashboard;
use crate::server::debug::hex_char;
use crate::text::{
    chars_of, decimal, decimal_string, eq_ignore_ascii_case, eq_ignore_case, end_char, is_ws,
    push_str, skip_char, starts_with, string_in, trim, trim_bounds, trim_char, trim_char_end,
    trim_char_start, trim_end, trim_start,
};

verus! {

/// Reuse a previously rendered dashboard for this long when switching back
/// (Chrome raster is slow); older than this, render a fresh one. Seconds.
pub const DASHBOARD_CACHE_MAX_AGE_SECS: i64 = 600;

/// An instant as `chrono::DateTime<Utc>` holds it: seconds since the Unix
/// epoch and nanoseconds past that second.
#[derive(Clone, Copy, Debug, PartialEq, Eq)]
pub struct UtcStamp {
    pub secs: i64,
    pub nanos: u32,
}

/// Nanoseconds from `a` to `b` (negative when `b` is earlier).
pub open spec fn nanos_between(a: UtcStamp, b: UtcStamp) -> int {
    (b.secs - a.secs) * 1_000_000_000 + (b.nanos - a.nanos)
}

/// A dashboard rendered at `generated_at` is fresh at `now`: not from the
/// future and at most ten minutes old.
pub open spec fn cache_fresh(generated_at: UtcStamp, now: UtcStamp) -> bool {
    0 <= nanos_between(generated_at, now) <= DASHBOARD_CACHE_MAX_AGE_SECS * 1_000_000_000
}

pub fn dashboard_cache_fresh(generated_at: UtcStamp, now: UtcStamp) -> (r: bool)
    ensures
        r == cache_fresh(generated_at, now),
{
    let age: i128 = (now.secs as i128 - generated_at.secs as i128) * 1_000_000_000i128 + (now.nanos as i128
        - generated_at.nanos as i128);
    0 <= age && age <= (DASHBOARD_CACHE_MAX_AGE_SECS as i128) * 1_000_000_000i128
}

/// Serve the dashboard cached in memory: no button refresh, the cached
/// frame is a dashboard, and it is fresh.
pub fn reuse_memory_dashboard(bypass_cache: bool, cached_key: &str, generated_at: UtcStamp, now: UtcStamp) -> (r: bool)
    ensures
        r == (!bypass_cache && starts_with(cached_key@, "dashboard:"@) && cache_fresh(generated_at, now)),
{
    if bypass_cache {
        return false;
    }
    let v = chars_of(cached_key);
    crate::server::meross::begins(&v, "dashboard:") && dashboard_cache_fresh(generated_at, now)
}

/// Serve the last dashboard saved to disk: no button refresh and it is fresh.
pub fn reuse_disk_dashboard(bypass_cache: bool, generated_at: UtcStamp, now: UtcStamp) -> (r: bool)
    ensures
        r == (!bypass_cache && cache_fresh(generated_at, now)),
{
    !bypass_cache && dashboard_cache_fresh(generated_at, now)
}

/// On a button refresh, keep the saved dashboard when the sources produced
/// the same layout hash.
pub fn reuse_unchanged_dashboard(bypass_cache: bool, disk_content_hash: &str, content_hash: &str) -> (r: bool)
    ensures
        r == (bypass_cache && disk_content_hash@ == content_hash@),
{
    bypass_cache && crate::text::same_text(disk_content_hash, content_hash)
}

fn join_text(a: &str, b: &str) -> (r: String)
    ensures
        r@ == a@ + b@,
{
    let mut s = String::new();
    push_str(&mut s, a);
    push_str(&mut s, b);
    assert(Seq::<char>::empty() + a@ =~= a@);
    s
}

/// Cache key of dashboard mode: `dashboard:{interval}`.
pub fn dashboard_mode_key(interval_secs: u64) -> (r: String)
    ensures
        r@ == "dashboard:"@ + decimal(interval_secs as nat),
{
    let d = decimal_string(interval_secs);
    join_text("dashboard:", d.as_str())
}

/// The ids joined with commas (`[String]::join(",")`).
pub open spec fn comma_joined(ids: Seq<String>) -> Seq<char>
    decreases ids.len(),
{
    if ids.len() == 0 {
        Seq::empty()
    } else if ids.len() == 1 {
        ids[0]@
    } else {
        comma_joined(ids.drop_last()) + ","@ + ids.last()@
    }
}

/// Cache key of picture mode: `picture:{id}:{rotation joined by commas}`.
pub fn picture_mode_key(id: &str, rotate: &[String]) -> (r: String)
    ensures
        r@ == "picture:"@ + id@ + ":"@ + comma_joined(rotate@),
{
    let mut s = join_text("picture:", id);
    push_str(&mut s, ":");
    let ghost head = s@;
    let n = rotate.len();
    let mut i: usize = 0;
    assert(rotate@.take(0) =~= Seq::<String>::empty());
    while i < n
        invariant
            n == rotate@.len(),
            i <= n,
            s@ == head + comma_joined(rotate@.take(i as int)),
        decreases n - i,
    {
        if i > 0 {
            push_str(&mut s, ",");
        }
        push_str(&mut s, rotate[i].as_str());
        proof {
            assert(rotate@.take(i + 1).drop_last() =~= rotate@.take(i as int));
            assert(rotate@.take(i + 1).last() == rotate@[i as int]);
            if i == 0 {
                assert(comma_joined(rotate@.take(0)) =~= Seq::<char>::empty());
            }
        }
        i = i + 1;
    }
    assert(rotate@.take(n as int) =~= rotate@);
    s
}

/// Layout hash of a photo frame: `picture:{id}:{checksum}`.
pub fn picture_content_hash(id: &str, checksum: &str) -> (r: String)
    ensures
        r@ == "picture:"@ + id@ + ":"@ + checksum@,
{
    let mut s = join_text("picture:", id);
    push_str(&mut s, ":");
    push_str(&mut s, checksum);
    s
}

/// The frame the Pico is served: packed panel bytes, screenshots, and the
/// names it is known by.
pub struct Frame {
    pub bin: Vec<u8>,
    pub png: Vec<u8>,
    pub preview_png: Vec<u8>,
    pub checksum: String,
    pub content_hash: String,
    pub generated_at: UtcStamp,
    pub dashboard: Dashboard,
}

/// What the settings page shows about the current frame.
pub struct FrameInfo {
    pub checksum: String,
    pub bytes: usize,
    pub generated_at: UtcStamp,
    pub content_hash: String,
    pub source_note: String,
}

impl Frame {
    pub fn info(&self) -> (r: FrameInfo)
        ensures
            r.checksum@ == self.checksum@,
            r.bytes == self.bin@.len(),
            r.generated_at == self.generated_at,
            r.content_hash@ == self.content_hash@,
            r.source_note@ == self.dashboard.source_note@,
    {
        FrameInfo {
            checksum: self.checksum.clone(),
            bytes: self.bin.len(),
            generated_at: self.generated_at,
            content_hash: self.content_hash.clone(),
            source_note: self.dashboard.source_note.clone(),
        }
    }
}

/// The Pico's `If-None-Match` names this frame: trimmed, non-empty, quotes
/// dropped, equal to its checksum or layout hash with ASCII case ignored.
pub open spec fn offered_matches(checksum: Seq<char>, content_hash: Seq<char>, offered: Option<Seq<char>>) -> bool {
    match offered {
        None => false,
        Some(o) => {
            let t = trim(o);
            t.len() > 0 && (eq_ignore_case(trim_char(t, '"'), checksum) || eq_ignore_case(
                trim_char(t, '"'),
                content_hash,
            ))
        },
    }
}

pub fn checksum_matches(frame: &Frame, offered: Option<&str>) -> (r: bool)
    ensures
        r == offered_matches(
            frame.checksum@,
            frame.content_hash@,
            match offered {
                Some(o) => Some(o@),
                None => None,
            },
        ),
{
    let o = match offered {
        Some(o) => o,
        None => return false,
    };
    let v = chars_of(o);
    let (i0, j0) = trim_bounds(&v);
    if i0 == j0 {
        return false;
    }
    let i = skip_char(&v, '"', i0, j0);
    let j = end_char(&v, '"', i, j0);
    let ghost t = v@.subrange(i0 as int, j0 as int);
    assert(v@.subrange(i as int, j as int) == trim_char(t, '"'));
    let u = vstd::slice::slice_subrange(v.as_slice(), i, j);
    let c = chars_of(frame.checksum.as_str());
    let h = chars_of(frame.content_hash.as_str());
    eq_ignore_ascii_case(u, c.as_slice()) || eq_ignore_ascii_case(u, h.as_slice())
}

/// The checksum a frame is served with, echoed back bare or quoted (as
/// `If-None-Match` carries an ETag), always names that frame: an unchanged
/// frame is answered "not modified" and the Pico keeps the glass as it is.
pub proof fn lemma_etag_round_trip(checksum: Seq<char>, content_hash: Seq<char>)
    requires
        checksum.len() > 0,
        forall|i: int| 0 <= i < checksum.len() ==> hex_char(#[trigger] checksum[i]),
    ensures
        offered_matches(checksum, content_hash, Some(checksum)),
        offered_matches(checksum, content_hash, Some(seq!['"'] + checksum + seq!['"'])),
{
    let n = checksum.len();
    let q = seq!['"'] + checksum + seq!['"'];
    assert(!is_ws(checksum[0]) && !is_ws(checksum[n - 1]));
    assert(checksum[0] != '"' && checksum[n - 1] != '"');
    assert(trim_start(checksum) == checksum);
    assert(trim_end(checksum) == checksum);
    assert(trim_char_start(checksum, '"') == checksum);
    assert(trim_char_end(checksum, '"') == checksum);
    assert(trim_start(q) == q);
    assert(trim_end(q) == q);
    assert(q.drop_first() =~= checksum + seq!['"']);
    assert((checksum + seq!['"'])[0] == checksum[0]);
    assert(trim_char_start(checksum + seq!['"'], '"') == checksum + seq!['"']);
    assert(trim_char_start(q, '"') == checksum + seq!['"']);
    assert((checksum + seq!['"']).drop_last() =~= checksum);
    assert(trim_char_end(checksum + seq!['"'], '"') == trim_char_end(checksum, '"'));
    assert(trim_char(q, '"') == checksum);
}

} // verus!
