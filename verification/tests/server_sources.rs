use family_frame::server::sources::{
    load_step, source_note, LoadApply, LoadPlan, LoadStage, LoadState, SourceOutcome,
};

fn plan(todoist: bool, meross: bool, ics: usize, icloud: bool, weather: bool) -> LoadPlan {
    LoadPlan { todoist, todoist_project: "Famille".to_string(), meross, ics_urls: ics, icloud, weather }
}

fn step(st: LoadState, o: SourceOutcome) -> (LoadState, LoadApply) {
    load_step(st, o)
}

#[test]
fn everything_off_loads_demo_data() {
    let st = LoadState::start(plan(false, false, 0, false, false));
    let (st, a) = step(st, SourceOutcome::Skipped);
    assert_eq!(a, LoadApply::UseDemo);
    assert_eq!(st.stage, LoadStage::Meross);
    let (st, a) = step(st, SourceOutcome::Skipped);
    assert_eq!(a, LoadApply::Keep);
    assert_eq!(st.stage, LoadStage::ICloud);
    let (st, a) = step(st, SourceOutcome::Skipped);
    assert_eq!(a, LoadApply::UseDemo);
    assert_eq!(st.stage, LoadStage::Rooms);
    let (st, a) = step(st, SourceOutcome::Skipped);
    assert_eq!(a, LoadApply::UseDemo);
    let (st, a) = step(st, SourceOutcome::Skipped);
    assert_eq!(a, LoadApply::UseDemo);
    assert_eq!(st.stage, LoadStage::Tube);
    let (st, a) = step(st, SourceOutcome::Failed);
    assert_eq!(a, LoadApply::UseDemo);
    assert_eq!(st.stage, LoadStage::Done);
    assert_eq!(
        source_note(&st.notes),
        "demo to-dos (no Todoist token) · demo calendar (no iCloud credentials) · demo rooms (no Meross credentials) · demo weather (no BBC location) · TfL unavailable"
    );
}

#[test]
fn live_sources_and_fallbacks() {
    let st = LoadState::start(plan(true, true, 2, true, true));
    let (st, a) = step(st, SourceOutcome::Todos);
    assert_eq!(a, LoadApply::UseFetched);
    let (st, a) = step(st, SourceOutcome::Rooms(0));
    assert_eq!(a, LoadApply::Keep);
    assert_eq!(st.stage, LoadStage::Ics(0));
    let (st, a) = step(st, SourceOutcome::Ics(Ok(3)));
    assert_eq!(a, LoadApply::MergeEvents);
    assert_eq!(st.stage, LoadStage::Ics(1));
    let (st, a) = step(st, SourceOutcome::Failed);
    assert_eq!(a, LoadApply::Keep);
    assert_eq!(st.stage, LoadStage::ICloud);
    let (st, a) = step(st, SourceOutcome::ICloud(4, vec!["iCloud “Home”".to_string()]));
    assert_eq!(a, LoadApply::ReplaceEvents);
    let (st, a) = step(st, SourceOutcome::Skipped);
    assert_eq!(a, LoadApply::Keep);
    let (st, a) = step(st, SourceOutcome::Weather(0, "London".to_string()));
    assert_eq!(a, LoadApply::UseDemo);
    let (st, a) = step(st, SourceOutcome::Tube(11));
    assert_eq!(a, LoadApply::UseFetched);
    assert!(st.have_events);
    assert!(!st.have_rooms);
    assert_eq!(
        source_note(&st.notes),
        "Todoist “Famille” · Meross: no sensor readings · public ICS · iCloud “Home” · BBC weather empty — demo forecast · TfL tube"
    );
}

#[test]
fn weather_and_rooms_notes() {
    let st = LoadState::start(plan(true, true, 0, false, true));
    let (st, a) = step(st, SourceOutcome::Failed);
    assert_eq!(a, LoadApply::UseDemo);
    let (st, a) = step(st, SourceOutcome::Rooms(2));
    assert_eq!(a, LoadApply::UseFetched);
    let (st, _) = step(st, SourceOutcome::Skipped);
    let (st, a) = step(st, SourceOutcome::Skipped);
    assert_eq!(a, LoadApply::Keep);
    let (st, a) = step(st, SourceOutcome::Weather(3, "Putney".to_string()));
    assert_eq!(a, LoadApply::UseFetched);
    let (st, _) = step(st, SourceOutcome::Tube(0));
    assert_eq!(
        source_note(&st.notes),
        "Todoist unavailable · Meross sensors · demo calendar (no iCloud credentials) · BBC weather “Putney” · TfL empty — demo tube"
    );
}

#[test]
fn broken_calendar_stops_loading() {
    let st = LoadState::start(plan(false, false, 1, false, false));
    let (st, _) = step(st, SourceOutcome::Skipped);
    let (st, _) = step(st, SourceOutcome::Skipped);
    let (st, a) = step(st, SourceOutcome::Ics(Err("parsing ICS: bad".to_string())));
    assert_eq!(a, LoadApply::Abort("parsing ICS: bad".to_string()));
    assert_eq!(st.stage, LoadStage::Done);
    let (st, a) = step(st, SourceOutcome::Tube(3));
    assert_eq!(a, LoadApply::Keep);
    assert_eq!(st.stage, LoadStage::Done);
}

#[test]
fn loading_ends_within_its_stage_count() {
    for n in 0..4usize {
        let mut st = LoadState::start(plan(true, true, n, true, true));
        let mut steps = 0;
        while st.stage != LoadStage::Done {
            st = step(st, SourceOutcome::Failed).0;
            steps += 1;
        }
        assert!(steps <= n + 6);
    }
}

#[test]
fn empty_note_list() {
    assert_eq!(source_note(&[]), "");
    assert_eq!(source_note(&["one".to_string()]), "one");
}
