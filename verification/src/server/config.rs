//! Server settings: display modes, schedule kinds, the household sources
//! and the family UI's patches, with the rules that clean what people type.

use vstd::prelude::*;
use crate::server::dates::{date_text, format_date, parse_date, parsed_date, valid_date, Date};
use crate::text::{
    all_digits, all_digits_in, chars_of, digits_end, drop_ws, find_seq, find_seq_from,
    leading_digits, lower_seq, push_str, rfind_char, rfind_char_exec, same_chars, same_text,
    starts_with, string_in, string_of, to_lower, trim, trim_bounds, trim_range, trimmed, upper_seq,
    without_ws,
};

verus! {

/// Which stored schedule a display mode uses. The other value is kept.
#[derive(Debug, Clone, Copy, PartialEq, Eq, Default)]
pub enum ScheduleKind {
    #[default]
    Interval,
    Times,
}

/// The trimmed, ASCII-lowercased form a setting is matched in.
pub open spec fn setting_key(s: Seq<char>) -> Seq<char> {
    lower_seq(trim(s))
}

/// The schedule kind a setting names, with its aliases.
pub open spec fn schedule_kind_of(s: Seq<char>) -> Option<ScheduleKind> {
    let k = setting_key(s);
    if k == "interval"@ || k == "every"@ || k == "poll"@ {
        Some(ScheduleKind::Interval)
    } else if k == "times"@ || k == "time"@ || k == "wake"@ || k == "wake-up"@ || k == "wakeup"@
        || k == "wake_up"@ {
        Some(ScheduleKind::Times)
    } else {
        None
    }
}

/// The display mode a setting names, with its aliases.
pub open spec fn frame_mode_of(s: Seq<char>) -> Option<FrameMode> {
    let k = setting_key(s);
    if k == "dashboard"@ {
        Some(FrameMode::Dashboard)
    } else if k == "picture"@ || k == "pictures"@ || k == "photo"@ || k == "photos"@ {
        Some(FrameMode::Picture)
    } else {
        None
    }
}

proof fn lemma_plain_word(w: Seq<char>)
    requires
        w.len() > 0,
        forall|i: int| 0 <= i < w.len() ==> 'a' <= #[trigger] w[i] && w[i] <= 'z',
    ensures
        setting_key(w) == w,
{
    assert(!crate::text::is_ws(w[0]));
    assert(!crate::text::is_ws(w.last()));
    assert(crate::text::trim_start(w) == w);
    assert(crate::text::trim_end(w) == w);
    assert(lower_seq(w) =~= w);
}

/// Each schedule kind reads back as itself from its name.
pub proof fn lemma_schedule_kind_round_trip(k: ScheduleKind)
    ensures
        schedule_kind_of(k.name()) == Some(k),
{
    reveal_strlit("interval");
    reveal_strlit("every");
    reveal_strlit("poll");
    reveal_strlit("times");
    lemma_plain_word(k.name());
    match k {
        ScheduleKind::Interval => {},
        ScheduleKind::Times => {
            assert("times"@[0] != "interval"@[0]);
            assert("times"@ != "every"@);
            assert("times"@ != "poll"@);
        },
    }
}

/// Each display mode reads back as itself from its name.
pub proof fn lemma_frame_mode_round_trip(m: FrameMode)
    ensures
        frame_mode_of(m.name()) == Some(m),
{
    reveal_strlit("dashboard");
    reveal_strlit("picture");
    lemma_plain_word(m.name());
    match m {
        FrameMode::Dashboard => {},
        FrameMode::Picture => {
            assert("picture"@.len() != "dashboard"@.len());
        },
    }
}

/// The lowered, trimmed characters of `s`.
fn key_chars(s: &str) -> (r: Vec<char>)
    ensures
        r@ == setting_key(s@),
{
    let v = chars_of(s);
    let t = trimmed(v.as_slice());
    to_lower(t.as_slice())
}

/// `k` is the literal `lit`.
fn is_word(k: &Vec<char>, lit: &str) -> (r: bool)
    ensures
        r == (k@ == lit@),
{
    let w = chars_of(lit);
    same_chars(k.as_slice(), w.as_slice())
}

impl ScheduleKind {
    pub open spec fn name(self) -> Seq<char> {
        match self {
            ScheduleKind::Interval => "interval"@,
            ScheduleKind::Times => "times"@,
        }
    }

    pub fn as_str(self) -> (r: &'static str)
        ensures
            r@ == self.name(),
    {
        match self {
            ScheduleKind::Interval => "interval",
            ScheduleKind::Times => "times",
        }
    }

    /// `interval` (or `every`, `poll`) and `times` (or `time`, `wake`,
    /// `wake-up`, `wakeup`, `wake_up`), in any ASCII case.
    pub fn parse(s: &str) -> (r: Result<Self, String>)
        ensures
            match r {
                Ok(k) => schedule_kind_of(s@) == Some(k),
                Err(msg) => schedule_kind_of(s@) is None && msg@ == "unknown schedule_kind `"@
                    + setting_key(s@) + "` (use interval or times)"@,
            },
    {
        let k = key_chars(s);
        if is_word(&k, "interval") || is_word(&k, "every") || is_word(&k, "poll") {
            Ok(ScheduleKind::Interval)
        } else if is_word(&k, "times") || is_word(&k, "time") || is_word(&k, "wake") || is_word(
            &k,
            "wake-up",
        ) || is_word(&k, "wakeup") || is_word(&k, "wake_up") {
            Ok(ScheduleKind::Times)
        } else {
            let mut msg = String::new();
            push_str(&mut msg, "unknown schedule_kind `");
            let other = string_of(k.as_slice());
            push_str(&mut msg, other.as_str());
            push_str(&mut msg, "` (use interval or times)");
            assert(msg@ =~= "unknown schedule_kind `"@ + setting_key(s@) + "` (use interval or times)"@);
            Err(msg)
        }
    }
}

#[derive(Debug, Clone, Copy, PartialEq, Eq, Default)]
pub enum FrameMode {
    #[default]
    Dashboard,
    Picture,
}

impl FrameMode {
    pub open spec fn name(self) -> Seq<char> {
        match self {
            FrameMode::Dashboard => "dashboard"@,
            FrameMode::Picture => "picture"@,
        }
    }

    pub fn as_str(self) -> (r: &'static str)
        ensures
            r@ == self.name(),
    {
        match self {
            FrameMode::Dashboard => "dashboard",
            FrameMode::Picture => "picture",
        }
    }

    /// `dashboard`, and `picture` (or `pictures`, `photo`, `photos`), in any ASCII case.
    pub fn parse(s: &str) -> (r: Result<Self, String>)
        ensures
            match r {
                Ok(m) => frame_mode_of(s@) == Some(m),
                Err(msg) => frame_mode_of(s@) is None && msg@ == "unknown mode `"@ + setting_key(
                    s@,
                ) + "` (use dashboard or picture)"@,
            },
    {
        let k = key_chars(s);
        if is_word(&k, "dashboard") {
            Ok(FrameMode::Dashboard)
        } else if is_word(&k, "picture") || is_word(&k, "pictures") || is_word(&k, "photo")
            || is_word(&k, "photos") {
            Ok(FrameMode::Picture)
        } else {
            let mut msg = String::new();
            push_str(&mut msg, "unknown mode `");
            let other = string_of(k.as_slice());
            push_str(&mut msg, other.as_str());
            push_str(&mut msg, "` (use dashboard or picture)");
            assert(msg@ =~= "unknown mode `"@ + setting_key(s@) + "` (use dashboard or picture)"@);
            Err(msg)
        }
    }
}

pub struct TodoistConfig {
    /// Personal API token from Todoist → Settings → Integrations → Developer.
    pub token: String,
    /// Shared project name or id. Invite the family to this project.
    pub project: String,
}

pub struct MerossConfig {
    pub email: String,
    pub password: String,
    pub mfa_code: String,
    pub api_base_url: String,
    pub country_code: String,
    pub hub_hosts: Vec<String>,
    pub rooms: Vec<String>,
    /// Device name → room label, as pairs.
    pub labels: Vec<(String, String)>,
}

pub struct WeatherConfig {
    /// GeoNames id from `https://www.bbc.co.uk/weather/<id>`.
    /// Empty disables the live BBC fetch and shows demo weather.
    pub location_id: String,
}

pub struct PronoteConfig {
    /// Direct PRONOTE space URL (`eleve.html` or `parent.html`), not an ENT portal.
    pub url: String,
    pub username: String,
    pub password: String,
    /// `"eleve"` or `"parent"`. Empty = infer from the URL.
    pub account: String,
    /// Parent accounts: child's name as Pronote shows it. Empty = first child.
    pub child: String,
    /// First name on Today / next school-day hours. Empty = Pronote / child name.
    pub student: String,
    /// Optional 2FA PIN if Pronote asks for one.
    pub pin: String,
    /// Homework / grades quarter-columns. Hours still merge when the source runs.
    pub show_sections: bool,
}

pub struct CalendarSourceConfig {
    pub ics_urls: Vec<String>,
}

pub struct BinsSourceConfig {
    /// Wandsworth Unique Property Reference Number, or a My Property URL.
    pub uprn: String,
}

pub struct TflLineConfig {
    pub id: String,
    pub name: String,
    pub colour: String,
}

pub struct TflConfig {
    pub enabled: bool,
    pub lines: Vec<TflLineConfig>,
}

pub struct ToggleConfig {
    pub enabled: bool,
}

/// Wake times for each weekday, Monday first.
pub struct PublicWakeDays {
    pub mon: Vec<String>,
    pub tue: Vec<String>,
    pub wed: Vec<String>,
    pub thu: Vec<String>,
    pub fri: Vec<String>,
    pub sat: Vec<String>,
    pub sun: Vec<String>,
}

/// Public schedule for one display mode. Both values are always present;
/// `schedule_kind` says which one the Pico currently follows.
pub struct PublicSchedule {
    pub poll_interval_secs: u64,
    /// Same list every day, or the unique union when days differ (older clients).
    pub wake_up: Vec<String>,
    pub wake_up_by_day: PublicWakeDays,
    pub schedule_kind: String,
}

/// Birthday as shown and edited in the family UI.
pub struct PublicBirthday {
    pub name: String,
    pub dob: String,
}

pub struct PublicCalendar {
    pub ics_urls: Vec<String>,
}

pub struct PublicBins {
    pub uprn: String,
}

pub struct PublicTodoist {
    pub token: String,
    pub project: String,
}

pub struct PublicWeather {
    pub location_id: String,
}

/// Patchable fields from the family UI.
pub struct SettingsPatch {
    pub mode: Option<String>,
    pub poll_interval_secs: Option<u64>,
    /// When present (including empty), replaces every weekday with this list.
    pub wake_up: Option<Vec<String>>,
    /// When present, replaces the whole week. Missing days are empty.
    pub wake_up_by_day: Option<PublicWakeDays>,
    /// `"interval"` or `"times"`. When omitted, inferred from a wake-up patch.
    pub schedule_kind: Option<String>,
    /// Which mode's schedule to patch. Defaults to the (possibly newly set) mode.
    pub schedule_for: Option<String>,
    pub rotate: Option<Vec<String>>,
    pub family_name: Option<String>,
    pub timezone: Option<String>,
    pub battery_mah: Option<u32>,
    pub calendar: Option<CalendarPatch>,
    pub bins: Option<BinsPatch>,
    pub birthdays: Option<Vec<PublicBirthday>>,
    pub todoist: Option<TodoistPatch>,
    pub weather: Option<WeatherPatch>,
}

pub struct CalendarPatch {
    pub ics_urls: Option<Vec<String>>,
}

pub struct BinsPatch {
    pub uprn: Option<String>,
}

pub struct TodoistPatch {
    pub token: Option<String>,
    pub project: Option<String>,
}

pub struct WeatherPatch {
    pub location_id: Option<String>,
}

impl SettingsPatch {
    /// Household fields that change what the dashboard paints.
    pub fn touches_household(&self) -> (r: bool)
        ensures
            r == (self.family_name is Some || self.timezone is Some || self.calendar is Some
                || self.bins is Some || self.birthdays is Some || self.todoist is Some
                || self.weather is Some),
    {
        self.family_name.is_some() || self.timezone.is_some() || self.calendar.is_some()
            || self.bins.is_some() || self.birthdays.is_some() || self.todoist.is_some()
            || self.weather.is_some()
    }
}

fn tfl_line(id: &str, name: &str, colour: &str) -> (r: TflLineConfig)
    ensures
        r.id@ == id@,
        r.name@ == name@,
        r.colour@ == colour@,
{
    TflLineConfig { id: id.to_string(), name: name.to_string(), colour: colour.to_string() }
}

/// The Tube lines shown when the config names none.
pub fn default_tfl_lines() -> (r: Vec<TflLineConfig>)
    ensures
        r@.len() == 4,
        r@[0].id@ == "northern"@ && r@[0].name@ == "Northern"@ && r@[0].colour@ == "black"@,
        r@[1].id@ == "circle"@ && r@[1].name@ == "Circle"@ && r@[1].colour@ == "yellow"@,
        r@[2].id@ == "district"@ && r@[2].name@ == "District"@ && r@[2].colour@ == "green"@,
        r@[3].id@ == "victoria"@ && r@[3].name@ == "Victoria"@ && r@[3].colour@ == "blue"@,
{
    vec![
        tfl_line("northern", "Northern", "black"),
        tfl_line("circle", "Circle", "yellow"),
        tfl_line("district", "District", "green"),
        tfl_line("victoria", "Victoria", "blue"),
    ]
}

/// What a UPRN setting becomes: the digits after `UPRN=` in a My Property
/// URL, else the setting without whitespace when that is all digits; empty
/// stays empty. `None` when it is neither.
pub open spec fn uprn_of(raw: Seq<char>) -> Option<Seq<char>> {
    let t = trim(raw);
    if t.len() == 0 {
        Some(Seq::empty())
    } else {
        let from_url = match find_seq(upper_seq(t), "UPRN="@) {
            Some(i) => leading_digits(t.skip(i + "UPRN="@.len())),
            None => Seq::empty(),
        };
        if from_url.len() > 0 {
            Some(from_url)
        } else if without_ws(t).len() > 0 && all_digits(without_ws(t)) {
            Some(without_ws(t))
        } else {
            None
        }
    }
}

/// Digits, or a Wandsworth My Property URL containing `UPRN=`.
pub fn normalize_uprn(raw: &str) -> (r: Result<String, String>)
    ensures
        match r {
            Ok(s) => uprn_of(raw@) == Some(s@),
            Err(msg) => uprn_of(raw@) is None && msg@
                == "UPRN should be digits, or a Wandsworth My Property URL"@,
        },
{
    let v = chars_of(raw);
    let t = trimmed(v.as_slice());
    let n = t.len();
    if n == 0 {
        return Ok(String::new());
    }
    let mut up: Vec<char> = Vec::new();
    let mut i: usize = 0;
    while i < n
        invariant
            n == t@.len(),
            i <= n,
            up@ == upper_seq(t@.take(i as int)),
        decreases n - i,
    {
        let c = t[i];
        let u = if 'a' <= c && c <= 'z' {
            ((c as u8) - 32u8) as char
        } else {
            c
        };
        up.push(u);
        assert(upper_seq(t@.take(i + 1)) =~= upper_seq(t@.take(i as int)).push(crate::text::upper(t@[i as int])));
        i = i + 1;
    }
    assert(t@.take(n as int) =~= t@);
    assert(up@.subrange(0, n as int) =~= up@);
    let key = chars_of("UPRN=");
    match find_seq_from(up.as_slice(), 0, key.as_slice()) {
        Some(idx) => {
            let start = idx + key.len();
            let end = digits_end(t.as_slice(), start);
            assert(t@.skip(start as int) =~= t@.subrange(start as int, n as int));
            if end > start {
                return Ok(string_in(t.as_slice(), start, end));
            }
        },
        None => {},
    }
    let d = drop_ws(t.as_slice());
    if d.len() > 0 && all_digits_in(d.as_slice(), 0, d.len()) {
        assert(d@.subrange(0, d@.len() as int) =~= d@);
        return Ok(string_of(d.as_slice()));
    }
    assert(d@.subrange(0, d@.len() as int) =~= d@);
    let mut msg = String::new();
    push_str(&mut msg, "UPRN should be digits, or a Wandsworth My Property URL");
    assert(msg@ =~= "UPRN should be digits, or a Wandsworth My Property URL"@);
    Err(msg)
}


/// BBC Weather URL forms a location setting may be pasted as.
pub open spec fn bbc_prefixes() -> Seq<Seq<char>> {
    seq![
        "https://www.bbc.co.uk/weather/"@,
        "http://www.bbc.co.uk/weather/"@,
        "https://bbc.co.uk/weather/"@,
        "http://bbc.co.uk/weather/"@,
        "www.bbc.co.uk/weather/"@,
        "bbc.co.uk/weather/"@,
    ]
}

/// Index of the first of `ps` that `l` starts with.
pub open spec fn first_prefix(l: Seq<char>, ps: Seq<Seq<char>>) -> Option<int>
    decreases ps.len(),
{
    if ps.len() == 0 {
        None
    } else if starts_with(l, ps[0]) {
        Some(0)
    } else {
        match first_prefix(l, ps.drop_first()) {
            Some(i) => Some(i + 1),
            None => None,
        }
    }
}

/// Length of the part of `s` before the first `/`, `?` or `#`.
pub open spec fn segment_len(s: Seq<char>) -> int
    decreases s.len(),
{
    if s.len() == 0 || s[0] == '/' || s[0] == '?' || s[0] == '#' {
        0
    } else {
        1 + segment_len(s.drop_first())
    }
}

/// A weather location setting as stored: the id from a pasted BBC Weather
/// URL, else the trimmed setting.
pub open spec fn weather_id_of(raw: Seq<char>) -> Seq<char> {
    let t = trim(raw);
    match first_prefix(lower_seq(t), bbc_prefixes()) {
        Some(k) => {
            let rest = t.skip(bbc_prefixes()[k].len() as int);
            trim(rest.take(segment_len(rest)))
        },
        None => t,
    }
}

fn segment_end(v: &[char], lo: usize) -> (r: usize)
    requires
        lo <= v@.len(),
    ensures
        lo <= r <= v@.len(),
        r - lo == segment_len(v@.subrange(lo as int, v@.len() as int)),
    decreases v@.len() - lo,
{
    if lo == v.len() || v[lo] == '/' || v[lo] == '?' || v[lo] == '#' {
        lo
    } else {
        assert(v@.subrange(lo as int, v@.len() as int).drop_first() =~= v@.subrange(lo + 1, v@.len() as int));
        segment_end(v, lo + 1)
    }
}

/// The BBC GeoNames id from a location setting or a pasted weather URL.
pub fn normalize_weather_location_id(raw: &str) -> (r: String)
    ensures
        r@ == weather_id_of(raw@),
{
    let v = chars_of(raw);
    let t = trimmed(v.as_slice());
    let low = to_lower(t.as_slice());
    let prefixes: Vec<&str> = vec![
        "https://www.bbc.co.uk/weather/",
        "http://www.bbc.co.uk/weather/",
        "https://bbc.co.uk/weather/",
        "http://bbc.co.uk/weather/",
        "www.bbc.co.uk/weather/",
        "bbc.co.uk/weather/",
    ];
    let ghost ps = bbc_prefixes();
    assert(prefixes@.map_values(|p: &str| p@) =~= ps);
    let mut k: usize = 0;
    assert(ps.skip(0) =~= ps);
    assert(low@.subrange(0, low@.len() as int) =~= low@);
    while k < prefixes.len()
        invariant
            prefixes@.len() == 6,
            ps == bbc_prefixes(),
            forall|j: int| 0 <= j < 6 ==> #[trigger] prefixes@[j]@ == ps[j],
            k <= 6,
            low@ == lower_seq(t@),
            t@ == trim(raw@),
            first_prefix(low@, ps) == match first_prefix(low@, ps.skip(k as int)) {
                Some(i) => Some(i + k),
                None => None,
            },
        decreases 6 - k,
    {
        let p = chars_of(prefixes[k]);
        assert(ps.skip(k as int)[0] == ps[k as int]);
        assert(p@ == ps[k as int]);
        assert(low@.subrange(0, low@.len() as int) =~= low@);
        if crate::text::has_prefix_at(low.as_slice(), 0, p.as_slice()) {
            let start = p.len();
            let end = segment_end(t.as_slice(), start);
            assert(t@.skip(start as int) =~= t@.subrange(start as int, t@.len() as int));
            assert(t@.skip(start as int).take(end - start) =~= t@.subrange(start as int, end as int));
            let seg = vstd::slice::slice_subrange(t.as_slice(), start, end);
            let out = trimmed(seg);
            return string_of(out.as_slice());
        }
        assert(ps.skip(k as int).drop_first() =~= ps.skip(k + 1));
        k = k + 1;
    }
    assert(ps.skip(6) =~= Seq::<Seq<char>>::empty());
    string_of(t.as_slice())
}

/// The text of each string.
pub open spec fn texts(v: Seq<String>) -> Seq<Seq<char>> {
    v.map_values(|s: String| s@)
}

/// The scheme of a calendar URL is one the fetcher reads.
pub open spec fn ics_scheme_ok(scheme: Seq<char>) -> bool {
    let l = lower_seq(scheme);
    l == "http"@ || l == "https"@ || l == "webcal"@ || l == "webcals"@
}

/// Calendar URLs as stored: trimmed, blanks dropped, duplicates dropped, in
/// order; `None` when one has no `scheme://` or an unknown scheme.
pub open spec fn ics_urls_of(urls: Seq<Seq<char>>, out: Seq<Seq<char>>) -> Option<Seq<Seq<char>>>
    decreases urls.len(),
{
    if urls.len() == 0 {
        Some(out)
    } else {
        let u = trim(urls[0]);
        if u.len() == 0 {
            ics_urls_of(urls.drop_first(), out)
        } else {
            match find_seq(u, "://"@) {
                None => None,
                Some(i) => if !ics_scheme_ok(u.take(i)) {
                    None
                } else if out.contains(u) {
                    ics_urls_of(urls.drop_first(), out)
                } else {
                    ics_urls_of(urls.drop_first(), out.push(u))
                },
            }
        }
    }
}

/// `u` is one of `out`.
fn contains_text(out: &Vec<String>, u: &str) -> (r: bool)
    ensures
        r == texts(out@).contains(u@),
{
    let n = out.len();
    let mut i: usize = 0;
    while i < n
        invariant
            n == out@.len(),
            i <= n,
            forall|j: int| 0 <= j < i ==> out@[j]@ != u@,
        decreases n - i,
    {
        if same_text(out[i].as_str(), u) {
            assert(texts(out@)[i as int] == u@);
            return true;
        }
        i = i + 1;
    }
    proof {
        if texts(out@).contains(u@) {
            let j = choose|j: int| 0 <= j < texts(out@).len() && texts(out@)[j] == u@;
            assert(out@[j]@ == u@);
        }
    }
    false
}

/// Trim, validate and de-duplicate calendar URLs.
pub fn normalize_ics_urls(urls: &[String]) -> (r: Result<Vec<String>, String>)
    ensures
        match r {
            Ok(v) => ics_urls_of(texts(urls@), Seq::empty()) == Some(texts(v@)),
            Err(msg) => ics_urls_of(texts(urls@), Seq::empty()) is None && msg@
                == "calendar URL should start with webcal:// or https://"@,
        },
{
    let n = urls.len();
    let mut out: Vec<String> = Vec::new();
    let mut i: usize = 0;
    let ghost all = texts(urls@);
    assert(all.skip(0) =~= all);
    assert(texts(out@) =~= Seq::<Seq<char>>::empty());
    let sep = chars_of("://");
    while i < n
        invariant
            n == urls@.len(),
            i <= n,
            all == texts(urls@),
            sep@ == "://"@,
            ics_urls_of(all, Seq::empty()) == ics_urls_of(all.skip(i as int), texts(out@)),
        decreases n - i,
    {
        assert(all.skip(i as int)[0] == urls@[i as int]@);
        assert(all.skip(i as int).drop_first() =~= all.skip(i + 1));
        let v = chars_of(urls[i].as_str());
        let t = trimmed(v.as_slice());
        if t.len() == 0 {
            i = i + 1;
            continue;
        }
        assert(t@.subrange(0, t@.len() as int) =~= t@);
        match find_seq_from(t.as_slice(), 0, sep.as_slice()) {
            None => {
                let mut msg = String::new();
                push_str(&mut msg, "calendar URL should start with webcal:// or https://");
                assert(msg@ =~= "calendar URL should start with webcal:// or https://"@);
                return Err(msg);
            },
            Some(j) => {
                let scheme = vstd::slice::slice_subrange(t.as_slice(), 0, j);
                assert(scheme@ =~= t@.take(j as int));
                let l = to_lower(scheme);
                if !(is_word(&l, "http") || is_word(&l, "https") || is_word(&l, "webcal")
                    || is_word(&l, "webcals")) {
                    let mut msg = String::new();
                    push_str(&mut msg, "calendar URL should start with webcal:// or https://");
                    assert(msg@ =~= "calendar URL should start with webcal:// or https://"@);
                    return Err(msg);
                }
                let u = string_of(t.as_slice());
                if !contains_text(&out, u.as_str()) {
                    let ghost before = out@;
                    out.push(u);
                    assert(texts(out@) =~= texts(before).push(t@));
                }
            },
        }
        i = i + 1;
    }
    assert(all.skip(n as int) =~= Seq::<Seq<char>>::empty());
    Ok(out)
}

/// A family birthday: a name and a date of birth.
pub struct Birthday {
    pub name: String,
    pub dob: Date,
}

/// Format of a date of birth in the config and the family UI.
pub open spec fn dob_format() -> Seq<char> {
    "%Y-%m-%d"@
}

/// `Name,YYYY-MM-DD` read as a birthday: the date is the last
/// comma-separated field so names may contain commas; the name and the
/// date are trimmed. Each refusal quotes the trimmed entry.
pub open spec fn birthday_of(entry: Seq<char>) -> Result<(Seq<char>, (i32, u32, u32)), Seq<char>> {
    let e = trim(entry);
    match rfind_char(e, ',') {
        None => Err("birthday `"@ + e + "` should be `Name,YYYY-MM-DD`"@),
        Some(i) => {
            let name = trim(e.take(i));
            if name.len() == 0 {
                Err("birthday `"@ + e + "` is missing a name"@)
            } else {
                match parsed_date(trim(e.skip(i + 1)), dob_format()) {
                    None => Err("birthday `"@ + e + "` has an invalid date (use YYYY-MM-DD)"@),
                    Some(d) => Ok((name, d)),
                }
            }
        },
    }
}

fn birthday_error(e: &str, tail: &str) -> (r: String)
    ensures
        r@ == "birthday `"@ + e@ + tail@,
{
    let mut s = String::new();
    push_str(&mut s, "birthday `");
    push_str(&mut s, e);
    push_str(&mut s, tail);
    assert(Seq::<char>::empty() + "birthday `"@ =~= "birthday `"@);
    s
}

impl Birthday {
    /// Parse `Name,YYYY-MM-DD`.
    pub fn parse(entry: &str) -> (r: Result<Self, String>)
        ensures
            match (r, birthday_of(entry@)) {
                (Ok(b), Ok((name, d))) => b.name@ == name && (b.dob.year, b.dob.month, b.dob.day) == d
                    && valid_date(b.dob),
                (Err(m), Err(e)) => m@ == e,
                _ => false,
            },
    {
        let v = chars_of(entry);
        let (i0, j0) = trim_bounds(&v);
        let e = string_in(&v, i0, j0);
        let ev = chars_of(e.as_str());
        let n = ev.len();
        match rfind_char_exec(&ev, ',', n) {
            None => Err(birthday_error(e.as_str(), "` should be `Name,YYYY-MM-DD`")),
            Some(k) => {
                let (a, b) = trim_range(&ev, 0, k);
                assert(ev@.subrange(0, k as int) =~= ev@.take(k as int));
                if a == b {
                    return Err(birthday_error(e.as_str(), "` is missing a name"));
                }
                let name = string_in(&ev, a, b);
                let (c, d) = trim_range(&ev, k + 1, n);
                assert(ev@.subrange(k + 1, n as int) =~= ev@.skip(k + 1));
                let dob_text = string_in(&ev, c, d);
                match parse_date(dob_text.as_str(), "%Y-%m-%d") {
                    None => Err(birthday_error(e.as_str(), "` has an invalid date (use YYYY-MM-DD)")),
                    Some(dob) => Ok(Birthday { name, dob }),
                }
            },
        }
    }

    /// The `Name,YYYY-MM-DD` entry the config stores.
    pub fn to_entry(&self) -> (r: String)
        requires
            valid_date(self.dob),
        ensures
            r@ == self.name@ + ","@ + date_text(self.dob.year, self.dob.month, self.dob.day, dob_format()),
    {
        let mut s = String::new();
        push_str(&mut s, self.name.as_str());
        push_str(&mut s, ",");
        let d = format_date(self.dob, "%Y-%m-%d");
        push_str(&mut s, d.as_str());
        assert(Seq::<char>::empty() + self.name@ =~= self.name@);
        s
    }
}

impl PublicBirthday {
    /// The family-UI row of a birthday: its name, and its date as
    /// `YYYY-MM-DD`.
    pub fn from_birthday(person: &Birthday) -> (r: PublicBirthday)
        requires
            valid_date(person.dob),
        ensures
            r.name@ == person.name@,
            r.dob@ == date_text(person.dob.year, person.dob.month, person.dob.day, "%Y-%m-%d"@),
    {
        PublicBirthday { name: person.name.clone(), dob: format_date(person.dob, "%Y-%m-%d") }
    }

    /// The birthday a family-UI row describes: trimmed name and date joined
    /// as a config entry and parsed.
    pub fn into_birthday(&self) -> (r: Result<Birthday, String>)
        ensures
            match (r, birthday_of(trim(self.name@) + ","@ + trim(self.dob@))) {
                (Ok(b), Ok((name, d))) => b.name@ == name && (b.dob.year, b.dob.month, b.dob.day) == d
                    && valid_date(b.dob),
                (Err(m), Err(e)) => m@ == e,
                _ => false,
            },
    {
        let nv = chars_of(self.name.as_str());
        let (a, b) = trim_bounds(&nv);
        let dv = chars_of(self.dob.as_str());
        let (c, d) = trim_bounds(&dv);
        let mut entry = string_in(&nv, a, b);
        push_str(&mut entry, ",");
        let dob = string_in(&dv, c, d);
        push_str(&mut entry, dob.as_str());
        Birthday::parse(entry.as_str())
    }
}

} // verus!
