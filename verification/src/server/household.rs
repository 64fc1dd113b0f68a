//! The household part of the settings the family UI edits: name, time
//! zone, battery size and the dashboard's sources, and how a patch from the
//! UI changes them.

use vstd::prelude::*;
use crate::server::config::{
    birthday_of, ics_urls_of, normalize_ics_urls, normalize_uprn, normalize_weather_location_id,
    texts, uprn_of, weather_id_of, Birthday, BinsSourceConfig, CalendarSourceConfig,
    PublicBirthday, SettingsPatch, TodoistConfig, WeatherConfig,
};
use crate::server::dates::valid_date;
use crate::server::display::{display_error, display_patched, DisplayConfig};
use crate::text::{chars_of, push_str, string_in, trim, trim_bounds};

verus! {

/// Whether `name` is a time zone of the IANA table `chrono_tz` bundles.
pub uninterp spec fn tz_known(name: Seq<char>) -> bool;

/// `chrono_tz::Tz::from_str`: whether `name` parses as a bundled time zone.
#[verifier::external_body]
pub(crate) fn is_known_timezone(name: &str) -> (r: bool)
    ensures
        r == tz_known(name@),
{
    name.parse::<chrono_tz::Tz>().is_ok()
}

/// The household settings: what the dashboard shows and for whom, with the
/// source tables the config file stores them under.
pub struct HouseholdConfig {
    pub family_name: String,
    pub timezone: String,
    pub battery_mah: u32,
    pub ics_urls: Vec<String>,
    pub calendar: Option<CalendarSourceConfig>,
    pub bins: BinsSourceConfig,
    pub birthdays: Vec<Birthday>,
    /// The `[sources.birthdays]` table: `Some` once the UI has set birthdays.
    pub birthdays_source: Option<Vec<Birthday>>,
    pub todoist: TodoistConfig,
    pub todoist_source: Option<TodoistConfig>,
    pub weather: WeatherConfig,
    pub weather_source: Option<WeatherConfig>,
}

/// A birthday as name and date.
pub open spec fn birthday_view(b: Birthday) -> (Seq<char>, (i32, u32, u32)) {
    (b.name@, (b.dob.year, b.dob.month, b.dob.day))
}

pub open spec fn birthday_views(bs: Seq<Birthday>) -> Seq<(Seq<char>, (i32, u32, u32))> {
    bs.map_values(|b: Birthday| birthday_view(b))
}

/// The config entry a family-UI birthday row stands for.
pub open spec fn row_entry(row: PublicBirthday) -> Seq<char> {
    trim(row.name@) + ","@ + trim(row.dob@)
}

/// Every row read as a birthday, or the error of the first that is not one.
pub open spec fn birthdays_of(rows: Seq<PublicBirthday>) -> Result<Seq<(Seq<char>, (i32, u32, u32))>, Seq<char>>
    decreases rows.len(),
{
    if rows.len() == 0 {
        Ok(Seq::empty())
    } else {
        match birthdays_of(rows.drop_last()) {
            Err(e) => Err(e),
            Ok(front) => match birthday_of(row_entry(rows.last())) {
                Err(e) => Err(e),
                Ok(b) => Ok(front.push(b)),
            },
        }
    }
}

/// Why each household field of a patch is refused, in the order they apply.
pub open spec fn family_error(p: SettingsPatch) -> Option<Seq<char>> {
    match p.family_name {
        Some(n) => if trim(n@).len() == 0 {
            Some("family_name must not be empty"@)
        } else {
            None
        },
        None => None,
    }
}

pub open spec fn timezone_error(p: SettingsPatch) -> Option<Seq<char>> {
    match p.timezone {
        Some(t) => if !tz_known(trim(t@)) {
            Some("unknown timezone `"@ + trim(t@) + "` (use an IANA name like Europe/London)"@)
        } else {
            None
        },
        None => None,
    }
}

pub open spec fn calendar_error(p: SettingsPatch) -> Option<Seq<char>> {
    match p.calendar {
        Some(c) => match c.ics_urls {
            Some(u) => if ics_urls_of(texts(u@), Seq::empty()) is None {
                Some("calendar URL should start with webcal:// or https://"@)
            } else {
                None
            },
            None => None,
        },
        None => None,
    }
}

pub open spec fn bins_error(p: SettingsPatch) -> Option<Seq<char>> {
    match p.bins {
        Some(b) => match b.uprn {
            Some(u) => if uprn_of(u@) is None {
                Some("UPRN should be digits, or a Wandsworth My Property URL"@)
            } else {
                None
            },
            None => None,
        },
        None => None,
    }
}

pub open spec fn birthdays_error(p: SettingsPatch) -> Option<Seq<char>> {
    match p.birthdays {
        Some(rows) => match birthdays_of(rows@) {
            Err(e) => Some(e),
            Ok(_) => None,
        },
        None => None,
    }
}

/// The stage (1 name, 2 time zone, 3 calendar, 4 bins, 5 birthdays) whose
/// refusal stops the patch, with its message; `None` when nothing is refused.
pub open spec fn first_error(p: SettingsPatch) -> Option<(int, Seq<char>)> {
    if family_error(p) is Some {
        Some((1, family_error(p)->0))
    } else if timezone_error(p) is Some {
        Some((2, timezone_error(p)->0))
    } else if calendar_error(p) is Some {
        Some((3, calendar_error(p)->0))
    } else if bins_error(p) is Some {
        Some((4, bins_error(p)->0))
    } else if birthdays_error(p) is Some {
        Some((5, birthdays_error(p)->0))
    } else {
        None
    }
}

/// The patch got past stage `k`: every field up to it was applied.
pub open spec fn applied(p: SettingsPatch, k: int) -> bool {
    match first_error(p) {
        None => true,
        Some((s, _)) => s > k,
    }
}

/// The calendar URLs, bins UPRN, Todoist token and project, and weather
/// location a patch sets, if any.
pub open spec fn patch_urls(p: SettingsPatch) -> Option<Vec<String>> {
    match p.calendar {
        Some(c) => c.ics_urls,
        None => None,
    }
}

pub open spec fn patch_uprn(p: SettingsPatch) -> Option<String> {
    match p.bins {
        Some(b) => b.uprn,
        None => None,
    }
}

pub open spec fn patch_token(p: SettingsPatch) -> Option<String> {
    match p.todoist {
        Some(t) => t.token,
        None => None,
    }
}

pub open spec fn patch_project(p: SettingsPatch) -> Option<String> {
    match p.todoist {
        Some(t) => t.project,
        None => None,
    }
}

pub open spec fn patch_location(p: SettingsPatch) -> Option<String> {
    match p.weather {
        Some(w) => w.location_id,
        None => None,
    }
}

/// The project a Todoist patch names: trimmed, `Family` when blank.
pub open spec fn project_of(project: Seq<char>) -> Seq<char> {
    if trim(project).len() == 0 {
        "Family"@
    } else {
        trim(project)
    }
}

fn trimmed_string(s: &str) -> (r: String)
    ensures
        r@ == trim(s@),
{
    let v = chars_of(s);
    let (i, j) = trim_bounds(&v);
    string_in(&v, i, j)
}

fn copy_strings(v: &Vec<String>) -> (r: Vec<String>)
    ensures
        r@ == v@,
{
    let n = v.len();
    let mut out: Vec<String> = Vec::new();
    let mut i: usize = 0;
    while i < n
        invariant
            n == v@.len(),
            i <= n,
            out@ == v@.take(i as int),
        decreases n - i,
    {
        out.push(v[i].clone());
        assert(v@.take(i + 1) =~= v@.take(i as int).push(v@[i as int]));
        i = i + 1;
    }
    assert(v@.take(n as int) =~= v@);
    out
}

/// Parse every row; on success the birthdays twice (one for each table).
fn parse_rows(rows: &Vec<PublicBirthday>) -> (r: Result<(Vec<Birthday>, Vec<Birthday>), String>)
    ensures
        match (r, birthdays_of(rows@)) {
            (Ok((a, b)), Ok(bs)) => birthday_views(a@) == bs && birthday_views(b@) == bs
                && forall|i: int| 0 <= i < a@.len() ==> valid_date(#[trigger] a@[i].dob),
            (Err(m), Err(e)) => m@ == e,
            _ => false,
        },
{
    let n = rows.len();
    let mut a: Vec<Birthday> = Vec::new();
    let mut b: Vec<Birthday> = Vec::new();
    let mut i: usize = 0;
    assert(rows@.take(0) =~= Seq::<PublicBirthday>::empty());
    assert(birthday_views(a@) =~= Seq::<(Seq<char>, (i32, u32, u32))>::empty());
    while i < n
        invariant
            n == rows@.len(),
            i <= n,
            birthdays_of(rows@.take(i as int)) == Ok::<_, Seq<char>>(birthday_views(a@)),
            birthday_views(b@) == birthday_views(a@),
            forall|k: int| 0 <= k < a@.len() ==> valid_date(#[trigger] a@[k].dob),
        decreases n - i,
    {
        assert(rows@.take(i + 1).drop_last() =~= rows@.take(i as int));
        assert(rows@.take(i + 1).last() == rows@[i as int]);
        match rows[i].into_birthday() {
            Err(m) => {
                proof {
                    lemma_birthdays_error_stays(rows@, i as int + 1);
                }
                return Err(m);
            },
            Ok(x) => {
                let y = Birthday { name: x.name.clone(), dob: x.dob };
                let ghost va = a@;
                let ghost vb = b@;
                a.push(x);
                b.push(y);
                assert(birthday_views(a@) =~= birthday_views(va).push(birthday_view(a@.last())));
                assert(birthday_views(b@) =~= birthday_views(vb).push(birthday_view(b@.last())));
            },
        }
        i = i + 1;
    }
    assert(rows@.take(n as int) =~= rows@);
    Ok((a, b))
}

/// Once a prefix of the rows fails, every longer prefix fails the same way.
proof fn lemma_birthdays_error_stays(rows: Seq<PublicBirthday>, k: int)
    requires
        0 <= k <= rows.len(),
        birthdays_of(rows.take(k)) is Err,
    ensures
        birthdays_of(rows) == birthdays_of(rows.take(k)),
    decreases rows.len() - k,
{
    if k < rows.len() {
        assert(rows.take(k + 1).drop_last() =~= rows.take(k));
        lemma_birthdays_error_stays(rows, k + 1);
    } else {
        assert(rows.take(k) =~= rows);
    }
}

/// The household fields after a patch: each field the patch names and
/// reaches before any refusal takes its new value; the others stay.
pub open spec fn household_patched(old: HouseholdConfig, new: HouseholdConfig, patch: SettingsPatch) -> bool {
    &&& new.family_name@ == (if applied(patch, 1) && patch.family_name is Some {
            trim(patch.family_name->0@)
        } else {
            old.family_name@
        })
    &&& new.timezone@ == (if applied(patch, 2) && patch.timezone is Some {
            trim(patch.timezone->0@)
        } else {
            old.timezone@
        })
    &&& new.battery_mah == (if applied(patch, 2) && patch.battery_mah is Some {
            if patch.battery_mah->0 < 1 { 1 } else { patch.battery_mah->0 }
        } else {
            old.battery_mah
        })
    &&& (applied(patch, 3) && patch_urls(patch) is Some) ==> ({
            let urls = ics_urls_of(texts(patch_urls(patch)->0@), Seq::empty())->0;
            &&& texts(new.ics_urls@) == urls
            &&& new.calendar matches Some(cs) && texts(cs.ics_urls@) == urls
        })
    &&& !(applied(patch, 3) && patch_urls(patch) is Some) ==> (
        new.ics_urls == old.ics_urls && new.calendar == old.calendar)
    &&& new.bins.uprn@ == (if applied(patch, 4) && patch_uprn(patch) is Some {
            uprn_of(patch_uprn(patch)->0@)->0
        } else {
            old.bins.uprn@
        })
    &&& (applied(patch, 5) && patch.birthdays is Some) ==> ({
            let bs = birthdays_of(patch.birthdays->0@)->Ok_0;
            &&& birthday_views(new.birthdays@) == bs
            &&& new.birthdays_source matches Some(src) && birthday_views(src@) == bs
            &&& forall|i: int| 0 <= i < new.birthdays@.len() ==> valid_date(
                #[trigger] new.birthdays@[i].dob,
            )
        })
    &&& !(applied(patch, 5) && patch.birthdays is Some) ==> (new.birthdays
            == old.birthdays && new.birthdays_source == old.birthdays_source)
    &&& new.todoist.token@ == (if applied(patch, 5) && patch_token(patch) is Some {
            trim(patch_token(patch)->0@)
        } else {
            old.todoist.token@
        })
    &&& new.todoist.project@ == (if applied(patch, 5) && patch_project(patch) is Some {
            project_of(patch_project(patch)->0@)
        } else {
            old.todoist.project@
        })
    &&& new.todoist_source == (if applied(patch, 5) && patch.todoist is Some {
            Some(new.todoist)
        } else {
            old.todoist_source
        })
    &&& new.weather.location_id@ == (if applied(patch, 5) && patch_location(patch) is Some {
            weather_id_of(patch_location(patch)->0@)
        } else {
            old.weather.location_id@
        })
    &&& new.weather_source == (if applied(patch, 5) && patch.weather is Some {
            Some(new.weather)
        } else {
            old.weather_source
        })
}

impl HouseholdConfig {
    /// The zone the household's clocks follow: its `timezone` when chrono-tz
    /// knows that name, else `Europe/London`.
    pub fn tz(&self) -> (r: String)
        ensures
            r@ == (if tz_known(self.timezone@) {
                self.timezone@
            } else {
                "Europe/London"@
            }),
    {
        if is_known_timezone(self.timezone.as_str()) {
            self.timezone.clone()
        } else {
            "Europe/London".to_string()
        }
    }

    /// Apply the household fields of a UI patch, in order: family name,
    /// time zone, battery size, calendar URLs, bins UPRN, birthdays,
    /// Todoist, weather. The first refused field stops the patch with its
    /// message; the fields before it stay applied.
    pub fn apply_household_patch(&mut self, patch: &SettingsPatch) -> (r: Result<(), String>)
        ensures
            r is Ok <==> first_error(*patch) is None,
            r matches Err(e) ==> first_error(*patch) matches Some((_, m)) && e@ == m,
            household_patched(*old(self), *final(self), *patch),
    {
        if let Some(name) = &patch.family_name {
            let t = trimmed_string(name.as_str());
            if t.as_str().is_empty() {
                return Err("family_name must not be empty".to_string());
            }
            self.family_name = t;
        }
        if let Some(tz) = &patch.timezone {
            let t = trimmed_string(tz.as_str());
            if !is_known_timezone(t.as_str()) {
                let mut e = String::new();
                push_str(&mut e, "unknown timezone `");
                push_str(&mut e, t.as_str());
                push_str(&mut e, "` (use an IANA name like Europe/London)");
                assert(Seq::<char>::empty() + "unknown timezone `"@ =~= "unknown timezone `"@);
                return Err(e);
            }
            self.timezone = t;
        }
        if let Some(mah) = patch.battery_mah {
            self.battery_mah = if mah < 1 { 1 } else { mah };
        }
        if let Some(calendar) = &patch.calendar {
            if let Some(urls) = &calendar.ics_urls {
                let list = normalize_ics_urls(urls.as_slice())?;
                let copy = copy_strings(&list);
                self.ics_urls = list;
                self.calendar = Some(CalendarSourceConfig { ics_urls: copy });
            }
        }
        if let Some(bins) = &patch.bins {
            if let Some(uprn) = &bins.uprn {
                let u = normalize_uprn(uprn.as_str())?;
                self.bins.uprn = u;
            }
        }
        if let Some(rows) = &patch.birthdays {
            let (people, source) = parse_rows(rows)?;
            self.birthdays = people;
            self.birthdays_source = Some(source);
        }
        if let Some(todoist) = &patch.todoist {
            if let Some(token) = &todoist.token {
                self.todoist.token = trimmed_string(token.as_str());
            }
            if let Some(project) = &todoist.project {
                let p = trimmed_string(project.as_str());
                self.todoist.project = if p.as_str().is_empty() {
                    "Family".to_string()
                } else {
                    p
                };
            }
            self.todoist_source = Some(
                TodoistConfig { token: self.todoist.token.clone(), project: self.todoist.project.clone() },
            );
        }
        if let Some(weather) = &patch.weather {
            if let Some(id) = &weather.location_id {
                self.weather.location_id = normalize_weather_location_id(id.as_str());
            }
            self.weather_source = Some(WeatherConfig { location_id: self.weather.location_id.clone() });
        }
        Ok(())
    }
}

/// Apply a family-UI patch to both halves of the settings: the display
/// fields first (rotation, mode, schedule, the photo check), then the
/// household ones. The first refusal stops the patch with its message;
/// what came before it stays applied. Saving is the caller's part.
pub fn apply_patch(display: &mut DisplayConfig, household: &mut HouseholdConfig, patch: &SettingsPatch) -> (r: Result<(), String>)
    ensures
        display_patched(*old(display), *final(display), *patch),
        match display_error(*old(display), *patch) {
            Some(e) => r matches Err(m) && m@ == e && *final(household) == *old(household),
            None => {
                &&& (r is Ok <==> first_error(*patch) is None)
                &&& (r matches Err(m) ==> first_error(*patch) matches Some((_, e)) && m@ == e)
                &&& household_patched(*old(household), *final(household), *patch)
            },
        },
{
    display.apply_display_patch(patch)?;
    household.apply_household_patch(patch)
}

} // verus!
