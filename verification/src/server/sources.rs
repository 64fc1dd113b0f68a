//! Calendar source URLs, how fetched events join the dashboard, and the
//! order in which the dashboard's sources are loaded with their fallbacks.

use vstd::prelude::*;
use crate::server::model::{event_title_of, CalendarEvent, Dashboard, truncate_event_title};
use crate::server::ics::{literal, texts_of};
use crate::text::{chars_of, find_seq, find_seq_from, lower_seq, push_str, same_chars, string_in, to_lower};

verus! {

/// Calendar.app copies `webcal://…`: that is HTTPS with a scheme HTTP
/// clients do not speak.
pub open spec fn http_ics_url_of(url: Seq<char>) -> Seq<char> {
    match find_seq(url, "://"@) {
        Some(i) => {
            let l = lower_seq(url.take(i));
            if l == "webcal"@ || l == "webcals"@ {
                "https://"@ + url.skip(i + "://"@.len())
            } else {
                url
            }
        },
        None => url,
    }
}

fn is_lit(k: &Vec<char>, lit: &str) -> (r: bool)
    ensures
        r == (k@ == lit@),
{
    let w = chars_of(lit);
    same_chars(k.as_slice(), w.as_slice())
}

/// The URL to fetch for a calendar setting.
pub fn http_ics_url(url: &str) -> (r: String)
    ensures
        r@ == http_ics_url_of(url@),
{
    let v = chars_of(url);
    let sep = chars_of("://");
    let sp = sep.as_slice();
    assert(v@.subrange(0, v@.len() as int) =~= v@);
    match find_seq_from(v.as_slice(), 0, sp) {
        Some(i) => {
            let scheme = vstd::slice::slice_subrange(v.as_slice(), 0, i);
            assert(scheme@ =~= v@.take(i as int));
            let l = to_lower(scheme);
            if is_lit(&l, "webcal") || is_lit(&l, "webcals") {
                let mut out = String::new();
                push_str(&mut out, "https://");
                let sl = sp.len();
                let n = v.len();
                let rest = string_in(v.as_slice(), i + sl, n);
                push_str(&mut out, rest.as_str());
                assert(v@.skip(i + sep@.len()) =~= v@.subrange(i + sep@.len(), v@.len() as int));
                return out;
            }
            url.to_string()
        },
        None => url.to_string(),
    }
}

/// Fetched events, titles cut to one line, appended to Today (those labelled
/// `Today`) or Coming next.
pub fn merge_events(dash: &mut Dashboard, events: Vec<CalendarEvent>)
    ensures
        *final(dash) == (Dashboard {
            events_today: final(dash).events_today,
            events_coming: final(dash).events_coming,
            ..*old(dash)
        }),
        final(dash).events_today@.len() + final(dash).events_coming@.len()
            == old(dash).events_today@.len() + old(dash).events_coming@.len() + events@.len(),
        final(dash).events_today@.take(old(dash).events_today@.len() as int)
            == old(dash).events_today@,
        final(dash).events_coming@.take(old(dash).events_coming@.len() as int)
            == old(dash).events_coming@,
        forall|i: int|
            old(dash).events_today@.len() <= i < final(dash).events_today@.len()
                ==> (#[trigger] final(dash).events_today@[i]).day_label@ == "Today"@,
        forall|i: int|
            old(dash).events_coming@.len() <= i < final(dash).events_coming@.len()
                ==> (#[trigger] final(dash).events_coming@[i]).day_label@ != "Today"@,
{
    let mut rest = events;
    let ghost t0 = dash.events_today@;
    let ghost c0 = dash.events_coming@;
    let ghost n0 = rest@.len();
    while rest.len() > 0
        invariant
            *dash == (Dashboard {
                events_today: dash.events_today,
                events_coming: dash.events_coming,
                ..*old(dash)
            }),
            dash.events_today@.len() + dash.events_coming@.len() + rest@.len() == t0.len()
                + c0.len() + n0,
            t0 == old(dash).events_today@,
            c0 == old(dash).events_coming@,
            n0 == events@.len(),
            dash.events_today@.take(t0.len() as int) == t0,
            dash.events_coming@.take(c0.len() as int) == c0,
            dash.events_today@.len() >= t0.len(),
            dash.events_coming@.len() >= c0.len(),
            forall|i: int|
                t0.len() <= i < dash.events_today@.len() ==> (#[trigger] dash.events_today@[i]).day_label@
                    == "Today"@,
            forall|i: int|
                c0.len() <= i < dash.events_coming@.len() ==> (#[trigger] dash.events_coming@[i]).day_label@
                    != "Today"@,
        decreases rest@.len(),
    {
        let mut ev = rest.remove(0);
        ev.title = truncate_event_title(ev.title.as_str());
        let today = chars_of("Today");
        let label = chars_of(ev.day_label.as_str());
        if same_chars(label.as_slice(), today.as_slice()) {
            let ghost before = dash.events_today@;
            dash.events_today.push(ev);
            assert(dash.events_today@.take(t0.len() as int) =~= before.take(t0.len() as int));
        } else {
            let ghost before = dash.events_coming@;
            dash.events_coming.push(ev);
            assert(dash.events_coming@.take(c0.len() as int) =~= before.take(c0.len() as int));
        }
    }
}

/// Which sources the configuration enables.
pub struct LoadPlan {
    pub todoist: bool,
    pub todoist_project: String,
    pub meross: bool,
    pub ics_urls: usize,
    pub icloud: bool,
    pub weather: bool,
}

/// Where loading has got to: each source in turn, then the demo-room
/// check, and done.
#[derive(Debug, Clone, Copy, PartialEq, Eq)]
pub enum LoadStage {
    Todoist,
    Meross,
    /// The public calendar with this index.
    Ics(usize),
    ICloud,
    Rooms,
    Weather,
    Tube,
    Done,
}

/// Loading so far: the stage, the source notes, and whether the calendar
/// and the rooms hold anything yet.
pub struct LoadState {
    pub plan: LoadPlan,
    pub stage: LoadStage,
    pub notes: Vec<String>,
    pub have_events: bool,
    pub have_rooms: bool,
}

/// What the current stage's fetch gave.
pub enum SourceOutcome {
    /// Nothing was fetched (the source is not set up, or the stage fetches nothing).
    Skipped,
    /// The fetch failed.
    Failed,
    /// To-dos arrived.
    Todos,
    /// This many room readings arrived.
    Rooms(usize),
    /// A public calendar was fetched and parsed into this many events, or
    /// did not parse.
    Ics(Result<usize, String>),
    /// iCloud gave this many events and these notes.
    ICloud(usize, Vec<String>),
    /// The forecast arrived with this many days, for this place.
    Weather(usize, String),
    /// This many Tube lines arrived.
    Tube(usize),
}

/// What to do with the stage's data.
#[derive(Debug, PartialEq, Eq)]
pub enum LoadApply {
    Keep,
    /// Put the fetched data in place.
    UseFetched,
    /// Put the demo data in place.
    UseDemo,
    /// Add the fetched events to the calendar.
    MergeEvents,
    /// Clear the calendar and put the fetched events in it.
    ReplaceEvents,
    /// Stop loading with this error.
    Abort(String),
}

/// The stage after the public calendar `i`.
pub open spec fn after_ics(plan: LoadPlan, i: int) -> LoadStage {
    if i + 1 < plan.ics_urls { LoadStage::Ics((i + 1) as usize) } else { LoadStage::ICloud }
}

/// One step of loading: from the stage and what its fetch gave, the next
/// stage, the notes to add, whether calendar and rooms now hold anything,
/// and what to do with the data. Demo data stands in for to-dos, weather
/// and Tube when their source is off, fails or comes back empty; demo rooms
/// when Meross is off and no rooms came; a demo calendar when iCloud is off
/// and no calendar gave events. iCloud events replace the calendar. A public
/// calendar that does not parse stops everything.
pub open spec fn load_step_of(st: LoadState, o: SourceOutcome) -> (LoadStage, Seq<Seq<char>>, bool, bool, LoadApply) {
    let plan = st.plan;
    let ev = st.have_events;
    let ro = st.have_rooms;
    match st.stage {
        LoadStage::Todoist => {
            let next = LoadStage::Meross;
            if !plan.todoist {
                (next, seq!["demo to-dos (no Todoist token)"@], ev, ro, LoadApply::UseDemo)
            } else {
                match o {
                    SourceOutcome::Todos => (next, seq!["Todoist “"@ + plan.todoist_project@ + "”"@], ev, ro, LoadApply::UseFetched),
                    _ => (next, seq!["Todoist unavailable"@], ev, ro, LoadApply::UseDemo),
                }
            }
        },
        LoadStage::Meross => {
            let next = if plan.ics_urls > 0 { LoadStage::Ics(0) } else { LoadStage::ICloud };
            if !plan.meross {
                (next, Seq::empty(), ev, ro, LoadApply::Keep)
            } else {
                match o {
                    SourceOutcome::Rooms(n) => if n > 0 {
                        (next, seq!["Meross sensors"@], ev, true, LoadApply::UseFetched)
                    } else {
                        (next, seq!["Meross: no sensor readings"@], ev, ro, LoadApply::Keep)
                    },
                    _ => (next, seq!["Meross unavailable"@], ev, ro, LoadApply::Keep),
                }
            }
        },
        LoadStage::Ics(i) => match o {
            SourceOutcome::Ics(Ok(n)) => (after_ics(plan, i as int), seq!["public ICS"@], ev || n > 0, ro, LoadApply::MergeEvents),
            SourceOutcome::Ics(Err(e)) => (LoadStage::Done, Seq::empty(), ev, ro, LoadApply::Abort(e)),
            _ => (after_ics(plan, i as int), Seq::empty(), ev, ro, LoadApply::Keep),
        },
        LoadStage::ICloud => {
            let next = LoadStage::Rooms;
            if plan.icloud {
                match o {
                    SourceOutcome::ICloud(n, ns) => if n > 0 {
                        (next, texts_of(ns@), true, ro, LoadApply::ReplaceEvents)
                    } else {
                        (next, texts_of(ns@), ev, ro, LoadApply::Keep)
                    },
                    _ => (next, seq!["iCloud unavailable"@], ev, ro, LoadApply::Keep),
                }
            } else if !ev {
                (next, seq!["demo calendar (no iCloud credentials)"@], true, ro, LoadApply::UseDemo)
            } else {
                (next, Seq::empty(), ev, ro, LoadApply::Keep)
            }
        },
        LoadStage::Rooms => if !ro && !plan.meross {
            (LoadStage::Weather, seq!["demo rooms (no Meross credentials)"@], ev, true, LoadApply::UseDemo)
        } else {
            (LoadStage::Weather, Seq::empty(), ev, ro, LoadApply::Keep)
        },
        LoadStage::Weather => {
            let next = LoadStage::Tube;
            if !plan.weather {
                (next, seq!["demo weather (no BBC location)"@], ev, ro, LoadApply::UseDemo)
            } else {
                match o {
                    SourceOutcome::Weather(n, loc) => if n > 0 {
                        (next, seq!["BBC weather “"@ + loc@ + "”"@], ev, ro, LoadApply::UseFetched)
                    } else {
                        (next, seq!["BBC weather empty — demo forecast"@], ev, ro, LoadApply::UseDemo)
                    },
                    _ => (next, seq!["BBC weather unavailable"@], ev, ro, LoadApply::UseDemo),
                }
            }
        },
        LoadStage::Tube => match o {
            SourceOutcome::Tube(n) => if n > 0 {
                (LoadStage::Done, seq!["TfL tube"@], ev, ro, LoadApply::UseFetched)
            } else {
                (LoadStage::Done, seq!["TfL empty — demo tube"@], ev, ro, LoadApply::UseDemo)
            },
            _ => (LoadStage::Done, seq!["TfL unavailable"@], ev, ro, LoadApply::UseDemo),
        },
        LoadStage::Done => (LoadStage::Done, Seq::empty(), ev, ro, LoadApply::Keep),
    }
}

impl LoadState {
    /// Loading starts with Todoist, no notes, an empty calendar and no rooms.
    pub fn start(plan: LoadPlan) -> (r: LoadState)
        ensures
            r.plan == plan,
            r.stage == LoadStage::Todoist,
            r.notes@.len() == 0,
            !r.have_events,
            !r.have_rooms,
    {
        LoadState { plan, stage: LoadStage::Todoist, notes: Vec::new(), have_events: false, have_rooms: false }
    }
}

fn note(notes: &mut Vec<String>, text: String)
    ensures
        texts_of(final(notes)@) == texts_of(old(notes)@) + seq![text@],
{
    notes.push(text);
    assert(texts_of(notes@) =~= texts_of(old(notes)@) + seq![text@]);
}

fn quoted_note(notes: &mut Vec<String>, head: &str, name: &str)
    ensures
        texts_of(final(notes)@) == texts_of(old(notes)@) + seq![head@ + name@ + "”"@],
{
    let mut t = literal(head);
    push_str(&mut t, name);
    push_str(&mut t, "”");
    note(notes, t);
}

/// One step of loading the dashboard: takes what the current stage's fetch
/// gave and says what to do with it; the new state's stage says what to
/// fetch next.
pub fn load_step(state: LoadState, outcome: SourceOutcome) -> (r: (LoadState, LoadApply))
    ensures
        ({
            let (stage, added, ev, ro, apply) = load_step_of(state, outcome);
            &&& r.0.stage == stage
            &&& texts_of(r.0.notes@) == texts_of(state.notes@) + added
            &&& r.0.have_events == ev
            &&& r.0.have_rooms == ro
            &&& r.0.plan == state.plan
            &&& r.1 == apply
        }),
{
    let ghost st0 = state;
    let LoadState { plan, stage, mut notes, have_events, have_rooms } = state;
    let mut ev = have_events;
    let mut ro = have_rooms;
    let next: LoadStage;
    let apply: LoadApply;
    match stage {
        LoadStage::Todoist => {
            next = LoadStage::Meross;
            if !plan.todoist {
                note(&mut notes, literal("demo to-dos (no Todoist token)"));
                apply = LoadApply::UseDemo;
            } else {
                match outcome {
                    SourceOutcome::Todos => {
                        quoted_note(&mut notes, "Todoist “", plan.todoist_project.as_str());
                        apply = LoadApply::UseFetched;
                    },
                    _ => {
                        note(&mut notes, literal("Todoist unavailable"));
                        apply = LoadApply::UseDemo;
                    },
                }
            }
        },
        LoadStage::Meross => {
            next = if plan.ics_urls > 0 { LoadStage::Ics(0) } else { LoadStage::ICloud };
            if !plan.meross {
                apply = LoadApply::Keep;
            } else {
                match outcome {
                    SourceOutcome::Rooms(n) => {
                        if n > 0 {
                            note(&mut notes, literal("Meross sensors"));
                            ro = true;
                            apply = LoadApply::UseFetched;
                        } else {
                            note(&mut notes, literal("Meross: no sensor readings"));
                            apply = LoadApply::Keep;
                        }
                    },
                    _ => {
                        note(&mut notes, literal("Meross unavailable"));
                        apply = LoadApply::Keep;
                    },
                }
            }
        },
        LoadStage::Ics(i) => {
            let after = if i < usize::MAX && i + 1 < plan.ics_urls { LoadStage::Ics(i + 1) } else { LoadStage::ICloud };
            match outcome {
                SourceOutcome::Ics(Ok(n)) => {
                    note(&mut notes, literal("public ICS"));
                    ev = ev || n > 0;
                    next = after;
                    apply = LoadApply::MergeEvents;
                },
                SourceOutcome::Ics(Err(e)) => {
                    next = LoadStage::Done;
                    apply = LoadApply::Abort(e);
                },
                _ => {
                    next = after;
                    apply = LoadApply::Keep;
                },
            }
        },
        LoadStage::ICloud => {
            next = LoadStage::Rooms;
            if plan.icloud {
                match outcome {
                    SourceOutcome::ICloud(n, ns) => {
                        let ghost before = texts_of(notes@);
                        let mut ns = ns;
                        let ghost all = ns@;
                        let m = ns.len();
                        let mut k: usize = 0;
                        while k < m
                            invariant
                                m == all.len(),
                                k <= m,
                                ns@ == all.skip(k as int),
                                texts_of(notes@) == before + texts_of(all.take(k as int)),
                            decreases m - k,
                        {
                            let t = ns.remove(0);
                            assert(all.skip(k as int)[0] == all[k as int]);
                            note(&mut notes, t);
                            assert(texts_of(all.take(k + 1)) =~= texts_of(all.take(k as int)).push(all[k as int]@));
                            assert(all.skip(k as int).subrange(1, all.skip(k as int).len() as int) =~= all.skip(k + 1));
                            k = k + 1;
                        }
                        assert(all.take(m as int) =~= all);
                        if n > 0 {
                            ev = true;
                            apply = LoadApply::ReplaceEvents;
                        } else {
                            apply = LoadApply::Keep;
                        }
                    },
                    _ => {
                        note(&mut notes, literal("iCloud unavailable"));
                        apply = LoadApply::Keep;
                    },
                }
            } else if !ev {
                note(&mut notes, literal("demo calendar (no iCloud credentials)"));
                ev = true;
                apply = LoadApply::UseDemo;
            } else {
                apply = LoadApply::Keep;
            }
        },
        LoadStage::Rooms => {
            next = LoadStage::Weather;
            if !ro && !plan.meross {
                note(&mut notes, literal("demo rooms (no Meross credentials)"));
                ro = true;
                apply = LoadApply::UseDemo;
            } else {
                apply = LoadApply::Keep;
            }
        },
        LoadStage::Weather => {
            next = LoadStage::Tube;
            if !plan.weather {
                note(&mut notes, literal("demo weather (no BBC location)"));
                apply = LoadApply::UseDemo;
            } else {
                match outcome {
                    SourceOutcome::Weather(n, loc) => {
                        if n > 0 {
                            quoted_note(&mut notes, "BBC weather “", loc.as_str());
                            apply = LoadApply::UseFetched;
                        } else {
                            note(&mut notes, literal("BBC weather empty — demo forecast"));
                            apply = LoadApply::UseDemo;
                        }
                    },
                    _ => {
                        note(&mut notes, literal("BBC weather unavailable"));
                        apply = LoadApply::UseDemo;
                    },
                }
            }
        },
        LoadStage::Tube => {
            next = LoadStage::Done;
            match outcome {
                SourceOutcome::Tube(n) => {
                    if n > 0 {
                        note(&mut notes, literal("TfL tube"));
                        apply = LoadApply::UseFetched;
                    } else {
                        note(&mut notes, literal("TfL empty — demo tube"));
                        apply = LoadApply::UseDemo;
                    }
                },
                _ => {
                    note(&mut notes, literal("TfL unavailable"));
                    apply = LoadApply::UseDemo;
                },
            }
        },
        LoadStage::Done => {
            next = LoadStage::Done;
            apply = LoadApply::Keep;
        },
    }
    (LoadState { plan, stage: next, notes, have_events: ev, have_rooms: ro }, apply)
}

/// The notes joined with ` · `.
pub open spec fn joined_notes(ns: Seq<Seq<char>>) -> Seq<char>
    decreases ns.len(),
{
    if ns.len() == 0 {
        Seq::empty()
    } else if ns.len() == 1 {
        ns[0]
    } else {
        joined_notes(ns.drop_last()) + " · "@ + ns.last()
    }
}

/// The dashboard's source line: the notes joined with ` · `.
pub fn source_note(notes: &[String]) -> (r: String)
    ensures
        r@ == joined_notes(texts_of(notes@)),
{
    let mut out = String::new();
    let n = notes.len();
    let mut i: usize = 0;
    assert(texts_of(notes@).take(0) =~= Seq::<Seq<char>>::empty());
    while i < n
        invariant
            n == notes@.len(),
            i <= n,
            out@ == joined_notes(texts_of(notes@).take(i as int)),
        decreases n - i,
    {
        let ghost before = out@;
        assert(texts_of(notes@).take(i + 1).drop_last() =~= texts_of(notes@).take(i as int));
        assert(texts_of(notes@).take(i + 1).last() == notes@[i as int]@);
        if i > 0 {
            push_str(&mut out, " · ");
        } else {
            assert(before =~= Seq::<char>::empty());
        }
        push_str(&mut out, notes[i].as_str());
        if i == 0 {
            assert(out@ =~= notes@[0]@);
        }
        i = i + 1;
    }
    assert(texts_of(notes@).take(n as int) =~= texts_of(notes@));
    out
}

/// Position of a stage in the loading order.
pub open spec fn stage_rank(plan: LoadPlan, s: LoadStage) -> int {
    match s {
        LoadStage::Todoist => 0,
        LoadStage::Meross => 1,
        LoadStage::Ics(i) => 2 + i,
        LoadStage::ICloud => 2 + plan.ics_urls,
        LoadStage::Rooms => 3 + plan.ics_urls,
        LoadStage::Weather => 4 + plan.ics_urls,
        LoadStage::Tube => 5 + plan.ics_urls,
        LoadStage::Done => 6 + plan.ics_urls,
    }
}

/// A public-calendar stage names one of the configured calendars.
pub open spec fn stage_ok(plan: LoadPlan, s: LoadStage) -> bool {
    s matches LoadStage::Ics(i) ==> i < plan.ics_urls
}

/// Loading always moves on: every step before the end goes to a later
/// stage, whatever the fetch gave, so a load with `n` public calendars is
/// done after at most `n + 6` steps, and once done it stays done.
pub proof fn lemma_load_progress(st: LoadState, o: SourceOutcome)
    requires
        stage_ok(st.plan, st.stage),
    ensures
        stage_ok(st.plan, load_step_of(st, o).0),
        st.stage != LoadStage::Done ==> stage_rank(st.plan, load_step_of(st, o).0) > stage_rank(st.plan, st.stage),
        stage_rank(st.plan, load_step_of(st, o).0) <= stage_rank(st.plan, LoadStage::Done),
        st.stage == LoadStage::Done ==> load_step_of(st, o).0 == LoadStage::Done && load_step_of(st, o).1.len() == 0,
{
}

/// The demo calendar only stands in for an empty one: at the iCloud stage
/// the demo events are put in exactly when iCloud is off and no public
/// calendar gave events, and then the note says so; a calendar that
/// already holds events is kept as it is, with no note. No step forgets
/// that the calendar holds events.
pub proof fn lemma_demo_calendar_only_when_empty(st: LoadState, o: SourceOutcome)
    ensures
        st.have_events ==> load_step_of(st, o).2,
        st.stage == LoadStage::ICloud && st.have_events ==> load_step_of(st, o).4 != LoadApply::UseDemo,
        st.stage == LoadStage::ICloud && !st.plan.icloud ==> {
            &&& (load_step_of(st, o).4 == LoadApply::UseDemo <==> !st.have_events)
            &&& st.have_events ==> load_step_of(st, o).4 == LoadApply::Keep && load_step_of(st, o).1.len() == 0
            &&& !st.have_events ==> load_step_of(st, o).1 == seq!["demo calendar (no iCloud credentials)"@]
                && load_step_of(st, o).2
            &&& load_step_of(st, o).0 == LoadStage::Rooms
        },
{
}

/// Demo data stands in only where real data is missing: to-dos when Todoist
/// is off or gave none, the calendar when iCloud is off and no calendar gave
/// events, rooms when Meross is off and none came, the forecast when it is
/// off or came back empty or failed, Tube lines when none came. Fetched data
/// is put in place only when the fetch gave some.
pub proof fn lemma_demo_only_when_missing(st: LoadState, o: SourceOutcome)
    ensures
        load_step_of(st, o).4 == LoadApply::UseDemo ==> match st.stage {
            LoadStage::Todoist => !st.plan.todoist || !(o is Todos),
            LoadStage::ICloud => !st.plan.icloud && !st.have_events,
            LoadStage::Rooms => !st.have_rooms && !st.plan.meross,
            LoadStage::Weather => !st.plan.weather || !(o matches SourceOutcome::Weather(n, _) && n > 0),
            LoadStage::Tube => !(o matches SourceOutcome::Tube(n) && n > 0),
            _ => false,
        },
        load_step_of(st, o).4 == LoadApply::UseFetched ==> match st.stage {
            LoadStage::Todoist => st.plan.todoist && o is Todos,
            LoadStage::Meross => st.plan.meross && (o matches SourceOutcome::Rooms(n) && n > 0),
            LoadStage::Weather => st.plan.weather && (o matches SourceOutcome::Weather(n, _) && n > 0),
            LoadStage::Tube => o matches SourceOutcome::Tube(n) && n > 0,
            _ => false,
        },
{
}

} // verus!
