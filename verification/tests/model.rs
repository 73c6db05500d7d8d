//! The model layer.
use chrono::NaiveDate;
use squallar_overlays::controls::{ControlEffect, ControlItem, ControlUpdate, ControlValue};
use squallar_overlays::fetch::FetchError;
use squallar_overlays::frames::{FrameListing, FrameStamp};
use squallar_overlays::instant::{Instant, FIRST_SECOND};
use squallar_overlays::jobs::coords::{GridCoords, LambertGrid};
use squallar_overlays::jobs::gridded::{FieldGrid, GridValues, GriddedInput};
use squallar_overlays::layers::{LayerId, TimeAxis};
use squallar_overlays::model::axis::{forecast_horizon, ModelAxis};
use squallar_overlays::model::grids::{
    frame_label, grid_bytes, GridKey, ModelFrameCache, ModelGrid, ModelGridCache,
    DESKTOP_MODEL_GRID_BUDGET_BYTES, HRRR_CONUS_GRID_BYTES, MAX_PANES_DESKTOP, MAX_PANES_MOBILE,
    MOBILE_MODEL_GRID_BUDGET_BYTES, WASM_MODEL_GRID_BUDGET_BYTES,
};
use squallar_overlays::model::parameter::{Catalogue, ModelParameter, ParameterRow};
use squallar_overlays::model::runs::{
    decode_run_choice, encode_run_choice, f_hour_token, latest_run_at, parse_f_hour, run_token,
    EARLIEST_CLOCK, MAX_RUN_OFFSET, RUN_CHOICES,
};
use squallar_overlays::model::settings::{deserialize_pane_state, serialize_pane_state};
use squallar_overlays::model::{
    is_clock_sound, fetch_frame, ListingTask, ModelDataHandler, ModelFrameFetch, ModelListing, ModelPaneState,
    ModelScope,
};
use squallar_overlays::pane::Pane;
use squallar_overlays::state::RasterizeContext;
use std::sync::Arc;

const RUN_HOUR: u32 = 3;

fn minute(y: i32, m: u32, d: u32, h: u32, min: u32, s: u32) -> Instant {
    let t = NaiveDate::from_ymd_opt(y, m, d).unwrap().and_hms_opt(h, min, s).unwrap();
    Instant::at(t.and_utc().timestamp())
}

fn at(y: i32, m: u32, d: u32, h: u32) -> Instant {
    minute(y, m, d, h, 0, 0)
}

fn hours(t: Instant, h: i64) -> Instant {
    Instant::at(t.secs + 3600 * h)
}

/// The clock these tests are read on.
fn now() -> Instant {
    minute(2026, 8, 21, 14, 30, 0)
}

fn hhmmz(t: Instant) -> String {
    let day = t.secs.rem_euclid(86_400);
    format!("{:02}:{:02}z", day / 3600, day % 3600 / 60)
}

const CAPE: ModelParameter = ModelParameter { place: 0, floor: 0, windowed: false };
const CIN: ModelParameter = ModelParameter { place: 1, floor: 0, windowed: false };
const ML_CIN: ModelParameter = ModelParameter { place: 2, floor: 0, windowed: false };
const UH: ModelParameter = ModelParameter { place: 3, floor: 1, windowed: true };
const COUNT: u8 = 16;

fn all() -> Vec<ModelParameter> {
    (0..COUNT)
        .map(|place| match place {
            3 => UH,
            4 => ModelParameter { place: 4, floor: 1, windowed: true },
            _ => ModelParameter { place, floor: 0, windowed: false },
        })
        .collect()
}

fn code(p: ModelParameter) -> String {
    match p.place {
        0 => "sbcape".to_owned(),
        1 => "sbcin".to_owned(),
        2 => "mlcin".to_owned(),
        3 => "uh2-5".to_owned(),
        n => format!("field-{n}"),
    }
}

fn name(p: ModelParameter) -> String {
    match p.place {
        0 => "Surface-Based CAPE".to_owned(),
        1 => "Surface-Based CIN".to_owned(),
        n => format!("Field {n}"),
    }
}

fn catalogue() -> Catalogue {
    let rows =
        all().into_iter().map(|p| ParameterRow { parameter: p, code: code(p), name: name(p) });
    Catalogue { rows: rows.collect(), usual: CIN }
}

fn run_time() -> Instant {
    at(2026, 7, 25, RUN_HOUR)
}

fn grid_with(parameter: ModelParameter, values: &[f32], coords: GridCoords) -> ModelGrid {
    ModelGrid {
        parameter,
        ref_time: run_time(),
        forecast_hour: parameter.min_forecast_hour(),
        field: Arc::new(FieldGrid {
            field: code(parameter),
            ni: values.len() as u32,
            nj: 1,
            coords,
            values: GridValues::F32(values.iter().map(|v| v.to_bits()).collect()),
        }),
        notice: None,
    }
}

fn grid(parameter: ModelParameter, values: &[f32]) -> ModelGrid {
    let coords = GridCoords::Explicit {
        lats: vec![35.0f64.to_bits(); values.len()],
        lons: vec![(-97.0f64).to_bits(); values.len()],
    };
    grid_with(parameter, values, coords)
}

fn grid_at(parameter: ModelParameter, run: Instant, f_hour: u8, value: f32) -> ModelGrid {
    ModelGrid { ref_time: run, forecast_hour: f_hour, ..grid(parameter, &[value]) }
}

const CACHE_ENTRIES: usize = 6;

fn one_fixture_grid() -> usize {
    grid_bytes(&grid(all()[0], &[300.0]))
}

fn new_handler() -> ModelDataHandler {
    let mut h = ModelDataHandler::new(catalogue(), DESKTOP_MODEL_GRID_BUDGET_BYTES);
    h.cached_grids = ModelGridCache::with_budget(CACHE_ENTRIES * one_fixture_grid());
    h.frame_grids = ModelFrameCache::with_budget(one_fixture_grid());
    h
}

fn bare() -> Pane<ModelPaneState> {
    Pane::bare()
}

fn arrive(h: &mut ModelDataHandler, grid: ModelGrid) {
    h.apply_fetch_result(Ok(grid), &bare(), 0);
}

fn deliver(h: &mut ModelDataHandler, parameter: ModelParameter) {
    arrive(h, grid(parameter, &[300.0]));
}

fn handler(parameter: ModelParameter, values: &[f32]) -> ModelDataHandler {
    let mut h = new_handler();
    h.defaults.enabled = true;
    h.defaults.selected_param = parameter;
    arrive(&mut h, grid(parameter, values));
    h
}

fn pane_state(param: ModelParameter) -> ModelPaneState {
    ModelPaneState { selected_param: param, ..ModelPaneState::new(true, CIN) }
}

fn toggle_label(h: &mut ModelDataHandler) -> String {
    h.controls(&bare(), now(), 0)
        .into_iter()
        .find_map(|i| match i {
            ControlItem::Toggle { label, .. } => Some(label),
            _ => None,
        })
        .expect("a toggle")
}

fn info_lines(h: &mut ModelDataHandler) -> Vec<String> {
    h.controls(&bare(), now(), 0)
        .into_iter()
        .filter_map(|i| match i {
            ControlItem::InfoText { text } => Some(text),
            _ => None,
        })
        .collect()
}

fn key(param: ModelParameter) -> GridKey {
    GridKey { param, run: run_time(), f_hour: param.min_forecast_hour() }
}

fn recency(h: &ModelDataHandler) -> Vec<ModelParameter> {
    (0..h.cached_grids.len()).map(|i| h.cached_grids.key_at(i).param).collect()
}

fn fill_order() -> Vec<ModelParameter> {
    all()[..CACHE_ENTRIES + 1].to_vec()
}

fn resident_order() -> Vec<ModelParameter> {
    all()[..CACHE_ENTRIES].to_vec()
}

fn oldest() -> ModelParameter {
    all()[0]
}

fn next_oldest() -> ModelParameter {
    all()[1]
}

fn overflow() -> ModelParameter {
    all()[CACHE_ENTRIES]
}

fn full_cache() -> ModelDataHandler {
    let mut h = new_handler();
    h.defaults.enabled = true;
    for p in resident_order() {
        h.defaults.selected_param = p;
        deliver(&mut h, p);
    }
    assert_eq!(h.cached_grids.len(), CACHE_ENTRIES);
    assert_eq!(recency(&h), resident_order());
    h
}

fn rasterize_ctx() -> RasterizeContext {
    RasterizeContext {
        is_dark: false,
        zoom: 5.0f64.to_bits(),
        device_scale: 1.0f32.to_bits(),
        now: run_time(),
        as_of: run_time(),
        frame: None,
    }
}

fn job_field(job: &GriddedInput) -> &Arc<FieldGrid> {
    match job {
        GriddedInput::Whole(grid) => grid,
        other => panic!("the model layer carries the whole grid, not {other:?}"),
    }
}

fn job_value(job: &GriddedInput) -> f32 {
    f32::from_bits(job_field(job).values.sample(0))
}

fn text(id: &'static str, value: &str) -> ControlUpdate {
    ControlUpdate { id, value: ControlValue::Text(value.to_owned()) }
}

fn turn_on() -> ControlUpdate {
    ControlUpdate { id: "enabled", value: ControlValue::Bool(true) }
}

fn stamp(run: Instant, f_hour: i64) -> FrameStamp {
    FrameStamp { valid: hours(run, f_hour), run: Some(run) }
}

#[test]
fn an_absolute_run_ignores_the_clock() {
    let derecho = at(2020, 8, 10, 17);
    for now in [at(2020, 8, 10, 18), at(2021, 8, 10, 18), at(2026, 1, 1, 0)] {
        assert_eq!(decode_run_choice("at:2020-08-10T17:00:00", now), Some(derecho));
    }
}

#[test]
fn a_relative_run_still_tracks_the_clock() {
    let now = at(2026, 8, 24, 18);
    let latest = latest_run_at(now);
    assert_eq!(decode_run_choice("latest", now), Some(latest));
    assert_eq!(decode_run_choice("latest-6", now), Some(hours(latest, -6)));
    let past = format!("latest-{}", u16::from(MAX_RUN_OFFSET) + 1);
    assert_eq!(decode_run_choice(&past, now), None);
}

#[test]
fn saving_never_writes_an_absolute_run() {
    let now = at(2026, 8, 24, 18);
    let token = encode_run_choice(hours(latest_run_at(now), -6), now).expect("six hours back");
    assert_eq!(token, "latest-6");
    assert!(token.starts_with("latest"));
}

#[test]
fn a_bare_instant_is_still_refused() {
    assert_eq!(decode_run_choice("2020-08-10T17:00:00", at(2026, 8, 24, 18)), None);
}

#[test]
fn an_absolute_run_snaps_to_the_hour() {
    let now = at(2026, 8, 24, 18);
    assert_eq!(decode_run_choice("at:2020-08-10T17:43:21", now), Some(at(2020, 8, 10, 17)));
}

/// Every offset a control can write reads back as itself, and nothing else does.
#[test]
fn run_and_hour_choices_read_back() {
    let latest = latest_run_at(now());
    for back in 0..=MAX_RUN_OFFSET {
        let run = hours(latest, -i64::from(back));
        assert_eq!(encode_run_choice(run, now()), Some(run_token(back)));
        assert_eq!(decode_run_choice(&run_token(back), now()), Some(run));
    }
    assert_eq!(encode_run_choice(hours(latest, 1), now()), None);
    for hour in 0..=255u8 {
        assert_eq!(parse_f_hour(&f_hour_token(hour)), Some(hour));
    }
    assert_eq!(parse_f_hour("18"), None);
    assert_eq!(parse_f_hour("f256"), None);
    assert_eq!(parse_f_hour("f"), None);
    for text in ["latest-0x", "latest-", "at:", "at:tomorrow", "newest"] {
        assert_eq!(decode_run_choice(text, now()), None, "{text}");
    }
}

#[test]
fn the_current_field_is_this_panes_own_parameter_as_the_registry_spells_it() {
    let h = handler(CAPE, &[1.0]);
    let field = h.current_field(&Pane::of(pane_state(CIN))).to_owned();
    assert_eq!(field, code(CIN));
    assert_eq!(h.catalogue.parse(&field), Some(CIN));
}

#[test]
fn a_forecast_hour_is_visible_in_the_toggle_label() {
    let label = toggle_label(&mut handler(UH, &[120.0]));
    assert!(label.contains("F01"), "{label}");
    assert!(label.contains("04:00z"), "{label}");
    assert!(!label.contains("03:00z"), "{label}");
}

#[test]
fn an_analysis_field_is_labelled_with_its_run_time_only() {
    let label = toggle_label(&mut handler(CIN, &[-400.0]));
    assert!(label.contains("03:00z"), "{label}");
    assert!(!label.contains("F0"), "{label}");
    assert_eq!(frame_label(&grid(CIN, &[-400.0])), "03:00z");
}

#[test]
fn a_windowed_parameter_states_its_accumulation_window() {
    let lines = info_lines(&mut handler(UH, &[120.0]));
    let note = lines.iter().find(|l| l.contains("Maximum over")).expect("a window note");
    assert!(note.contains("03:00z"), "{note}");
    assert!(note.contains("04:00z"), "{note}");
    assert!(note.contains("not an analysis"), "{note}");
}

#[test]
fn an_analysis_field_has_no_window_note() {
    let lines = info_lines(&mut handler(CIN, &[-400.0]));
    assert!(!lines.iter().any(|l| l.contains("Maximum over")), "{lines:?}");
}

#[test]
fn a_blank_overlay_explains_itself_in_the_controls() {
    let mut h = new_handler();
    h.defaults.enabled = true;
    h.defaults.selected_param = UH;
    let mut blank = grid(UH, &[0.0; 8]);
    blank.notice = Some("UH2-5 is uniformly 0 m\u{b2}/s\u{b2}".to_owned());
    arrive(&mut h, blank);
    let lines = info_lines(&mut h);
    let notice = lines.iter().find(|l| l.contains("uniformly")).expect("a notice");
    assert!(notice.contains("UH2-5"), "{notice}");
    assert!(notice.contains("0 m\u{b2}/s\u{b2}"), "{notice}");
}

#[test]
fn a_populated_overlay_reports_no_problem() {
    let lines = info_lines(&mut handler(UH, &[120.0, 0.0]));
    assert!(!lines.iter().any(|l| l.contains('\u{26a0}')), "{lines:?}");
}

#[test]
fn a_fetch_error_is_reported_in_the_controls() {
    let mut h = new_handler();
    h.defaults.enabled = true;
    h.defaults.selected_param = UH;
    h.apply_fetch_result(Err(FetchError::transient("HTTP 500")), &bare(), 0);
    let lines = info_lines(&mut h);
    assert!(lines.iter().any(|l| l.contains("HTTP 500")), "{lines:?}");
}

#[test]
fn a_successful_fetch_clears_a_previous_error() {
    let mut h = new_handler();
    h.defaults.enabled = true;
    h.defaults.selected_param = UH;
    h.apply_fetch_result(Err(FetchError::transient("HTTP 500")), &bare(), 0);
    arrive(&mut h, grid(UH, &[120.0]));
    let lines = info_lines(&mut h);
    assert!(!lines.iter().any(|l| l.contains("HTTP 500")), "{lines:?}");
}

#[test]
fn a_named_frame_is_rasterized_from_that_frames_grid_and_not_the_panes() {
    let run = run_time();
    let mut h = new_handler();
    h.defaults.enabled = true;
    h.defaults.selected_param = CAPE;
    h.defaults.axis = ModelAxis::Forecast;
    for (f_hour, value) in [(0u8, 1.0f32), (1, 2.0)] {
        let grid = Arc::new(grid_at(CAPE, run, f_hour, value));
        h.cached_grids.insert(GridKey { param: CAPE, run, f_hour }, grid, &vec![]);
    }
    h.defaults.selected_frame = Some((run, 0));
    let live = h.prepare_job(&rasterize_ctx(), &bare()).expect("the pane's own grid");
    assert_eq!(job_value(&live), 1.0);
    let mut ask = |f_hour: i64| {
        let ctx = RasterizeContext { frame: Some(stamp(run, f_hour)), ..rasterize_ctx() };
        h.prepare_job(&ctx, &bare())
    };
    assert_eq!(job_value(&ask(0).expect("f00 is resident")), 1.0);
    assert_eq!(job_value(&ask(1).expect("f01 is resident")), 2.0);
    assert!(ask(2).is_none());
}

#[test]
fn every_pane_of_a_full_desktop_layout_keeps_a_drawable_grid() {
    let panes = &all()[..MAX_PANES_DESKTOP];
    let mut h = new_handler();
    h.defaults.enabled = true;
    for &p in panes {
        h.defaults.selected_param = p;
        deliver(&mut h, p);
    }
    for &p in panes {
        h.defaults.selected_param = p;
        assert!(h.has_data(&bare()));
        assert!(h.prepare_job(&rasterize_ctx(), &bare()).is_some());
    }
    assert_eq!(h.cached_grids.len(), MAX_PANES_DESKTOP);
}

#[test]
fn an_overflowing_parameter_evicts_the_least_recently_touched() {
    let mut h = full_cache();
    h.defaults.selected_param = overflow();
    deliver(&mut h, overflow());
    assert!(!h.cached_grids.is_resident(key(oldest())));
    for &p in &fill_order()[1..] {
        assert!(h.cached_grids.is_resident(key(p)));
    }
    assert_eq!(h.cached_grids.len(), CACHE_ENTRIES);
    assert_eq!(recency(&h), fill_order()[1..].to_vec());
}

#[test]
fn cycling_every_parameter_leaves_exactly_the_cap_resident() {
    let mut h = new_handler();
    h.defaults.enabled = true;
    for (i, p) in all().into_iter().enumerate() {
        h.defaults.selected_param = p;
        deliver(&mut h, p);
        let expected = (i + 1).min(CACHE_ENTRIES);
        assert_eq!(h.cached_grids.len(), expected);
        assert!(h.cached_grids.is_resident(key(p)));
        assert_eq!(recency(&h).len(), expected);
    }
    assert_eq!(recency(&h), all()[all().len() - CACHE_ENTRIES..].to_vec());
}

#[test]
fn every_read_path_counts_as_a_use() {
    fn counted_as_a_use(h: &ModelDataHandler, read: ModelParameter, path: &str) {
        let order = recency(h);
        assert_eq!(order.len(), CACHE_ENTRIES, "{path}");
        assert_eq!(order.last(), Some(&read), "{path}");
    }
    let mut h = full_cache();

    let p = recency(&h)[0];
    h.defaults.selected_param = p;
    assert!(h.grid_of(&bare()).is_some());
    counted_as_a_use(&h, p, "grid_of");

    let p = recency(&h)[0];
    h.defaults.selected_param = p;
    assert!(h.prepare_job(&rasterize_ctx(), &bare()).is_some());
    counted_as_a_use(&h, p, "prepare_job");

    let p = recency(&h)[0];
    h.defaults.selected_param = p;
    assert_ne!(toggle_label(&mut h), "Model Data");
    counted_as_a_use(&h, p, "controls");

    let p = recency(&h)[0];
    h.defaults.selected_param = p;
    assert!(h.has_data(&bare()));
    counted_as_a_use(&h, p, "has_data");

    let p = recency(&h)[0];
    assert_ne!(p, h.defaults.selected_param);
    let effect = h.apply_control(&text("parameter", &code(p)), &mut bare(), now());
    assert_eq!(effect, ControlEffect::Nothing);
    counted_as_a_use(&h, p, "apply_control(parameter)");
}

#[test]
fn a_hovered_parameter_outlives_one_that_was_only_fetched() {
    let mut h = full_cache();
    h.defaults.selected_param = oldest();
    assert!(h.grid_of(&bare()).is_some());
    h.defaults.selected_param = overflow();
    deliver(&mut h, overflow());
    assert!(h.cached_grids.is_resident(key(oldest())));
    assert!(!h.cached_grids.is_resident(key(next_oldest())));
    assert_eq!(h.cached_grids.len(), CACHE_ENTRIES);
}

#[test]
fn hover_is_silent_before_any_data_arrives() {
    assert!(new_handler().grid_of(&bare()).is_none());
}

#[test]
fn the_selected_parameter_survives_an_insert_that_would_evict_it() {
    let mut h = full_cache();
    h.defaults.selected_param = oldest();
    assert_eq!(recency(&h), resident_order());
    deliver(&mut h, overflow());
    assert!(h.cached_grids.is_resident(key(oldest())));
    assert!(!h.cached_grids.is_resident(key(next_oldest())));
    assert!(h.cached_grids.is_resident(key(overflow())));
    assert_eq!(h.cached_grids.len(), CACHE_ENTRIES);
}

#[test]
fn a_refetch_of_a_resident_parameter_replaces_its_own_run() {
    let mut h = full_cache();
    h.defaults.selected_param = oldest();
    deliver(&mut h, oldest());
    assert_eq!(h.cached_grids.len(), CACHE_ENTRIES);
    for p in resident_order() {
        assert!(h.cached_grids.is_resident(key(p)));
    }
    let order = recency(&h);
    assert_eq!(order.last(), Some(&oldest()));
    assert_eq!(order.first(), Some(&next_oldest()));
    let later = hours(run_time(), 1);
    let mut grid = grid(oldest(), &[300.0]);
    grid.ref_time = later;
    arrive(&mut h, grid);
    assert!(h.cached_grids.is_resident(GridKey { run: later, ..key(oldest()) }));
    assert!(h.cached_grids.is_resident(key(oldest())));
}

#[test]
fn two_forecast_hours_of_one_parameter_are_both_resident() {
    let mut h = new_handler();
    h.defaults.enabled = true;
    h.defaults.selected_param = CAPE;
    for (f_hour, value) in [(0u8, 11.0f32), (6, 22.0)] {
        arrive(&mut h, grid_at(CAPE, run_time(), f_hour, value));
    }
    for (f_hour, value) in [(0u8, 11.0f32), (6, 22.0)] {
        let resident = h
            .cached_grids
            .get(GridKey { param: CAPE, run: run_time(), f_hour })
            .expect("resident");
        assert_eq!(resident.field.values.sample(0), value.to_bits());
    }
    assert_eq!(h.cached_grids.len(), 2);
}

#[test]
fn the_cache_never_evicts_a_pinned_key() {
    let params = all()[..CACHE_ENTRIES].to_vec();
    let panes = || Pane::across(params.iter().map(|p| pane_state(*p)).collect());
    let mut h = new_handler();
    h.cached_grids = ModelGridCache::with_budget(one_fixture_grid());
    for p in &params {
        h.apply_fetch_result(Ok(grid(*p, &[300.0])), &panes(), 0);
    }
    assert!(h.cached_grids.len() > 1);
    for p in &params {
        assert!(h.cached_grids.is_resident(key(*p)));
    }
    assert_eq!(h.cached_grids.len(), CACHE_ENTRIES);
    h.apply_fetch_result(Ok(grid(overflow(), &[300.0])), &panes(), 0);
    h.apply_fetch_result(Ok(grid(overflow(), &[300.0])), &panes(), 0);
    assert_eq!(h.cached_grids.len(), CACHE_ENTRIES + 1);
}

#[test]
fn the_byte_budget_holds_at_least_one_grid_per_pane() {
    let one = grid_bytes(&grid(all()[0], &[0.0]));
    let two = grid_bytes(&grid(all()[0], &[0.0, 0.0]));
    assert_eq!(two - one, std::mem::size_of::<f32>() + 2 * std::mem::size_of::<f64>());
    let d = |v: f64| v.to_bits();
    let conus = LambertGrid {
        a: d(6_371_229.0),
        e: d(0.0),
        n: d(0.615_661_5),
        big_f: d(1.5),
        rho0: d(1.0),
        lon0: d(-97.5),
        x0: d(0.0),
        y0: d(0.0),
        dx: d(3000.0),
        dy: d(3000.0),
        ni: 1799,
        nj: 1059,
        i_consecutive: true,
        alternating: false,
        wraps_longitude: false,
    };
    let whole = grid_with(all()[0], &vec![0.0; 1799 * 1059], GridCoords::Lambert(conus));
    assert_eq!(
        grid_bytes(&whole) - std::mem::size_of::<ModelGrid>(),
        HRRR_CONUS_GRID_BYTES,
    );
    for (budget, panes) in [
        (WASM_MODEL_GRID_BUDGET_BYTES, MAX_PANES_DESKTOP),
        (MOBILE_MODEL_GRID_BUDGET_BYTES, MAX_PANES_MOBILE),
        (DESKTOP_MODEL_GRID_BUDGET_BYTES, MAX_PANES_DESKTOP),
    ] {
        assert!(budget / HRRR_CONUS_GRID_BYTES >= panes);
    }
    assert_eq!(
        (
            WASM_MODEL_GRID_BUDGET_BYTES / HRRR_CONUS_GRID_BYTES,
            MOBILE_MODEL_GRID_BUDGET_BYTES / HRRR_CONUS_GRID_BYTES,
            DESKTOP_MODEL_GRID_BUDGET_BYTES / HRRR_CONUS_GRID_BYTES,
        ),
        (8, 8, 13),
    );
}

fn frame_fetch(f_hour: u8, grid: Option<ModelGrid>) -> ModelFrameFetch {
    ModelFrameFetch { key: GridKey { param: CAPE, run: run_time(), f_hour }, grid }
}

#[test]
fn a_loop_of_any_length_leaves_the_live_cache_alone() {
    let run = run_time();
    let mut h = new_handler();
    h.defaults.enabled = true;
    h.defaults.selected_param = CAPE;
    h.defaults.axis = ModelAxis::Forecast;
    h.defaults.selected_frame = Some((run, 0));
    let own = Arc::new(grid_at(CAPE, run, 0, 1.0));
    h.cached_grids.insert(GridKey { param: CAPE, run, f_hour: 0 }, own, &vec![]);
    let before = (h.cached_grids.len(), h.cached_grids.resident_bytes());
    for f_hour in 1..=48u8 {
        let grid = grid_at(CAPE, run, f_hour, f32::from(f_hour));
        h.apply_frame(frame_fetch(f_hour, Some(grid)));
    }
    assert_eq!((h.cached_grids.len(), h.cached_grids.resident_bytes()), before);
    assert_eq!(h.frame_grids.len(), 1);
    assert!(h.frame_grids.resident_bytes() <= one_fixture_grid());
}

fn seeded(parameter: ModelParameter, f_hour: u8) -> ModelDataHandler {
    let mut h = new_handler();
    h.defaults.enabled = true;
    h.defaults.selected_param = parameter;
    arrive(&mut h, grid_at(parameter, run_time(), f_hour, 10.0));
    h
}

#[test]
fn a_layer_no_pane_draws_gives_back_every_grid_and_says_so_once() {
    let run = run_time();
    let mut h = seeded(CAPE, 0);
    h.defaults.selected_frame = Some((run, 0));
    h.apply_frame(frame_fetch(6, Some(grid_at(CAPE, run, 6, 6.0))));
    assert!(h.cached_grids.len() > 0 && h.frame_grids.len() > 0);
    let parked = h.defaults.selected_frame;
    assert!(h.release_data());
    assert_eq!(h.resident_source_bytes(), 0);
    assert_eq!((h.cached_grids.len(), h.frame_grids.len()), (0, 0));
    assert_eq!(h.defaults.selected_frame, parked);
    assert!(!h.release_data());
}

#[test]
fn the_budget_counts_bytes_and_not_entries() {
    const POINTS: usize = 10_000;
    let param = all()[0];
    let small = grid_bytes(&grid(param, &[0.0; POINTS]));
    let mut cache = ModelGridCache::with_budget(small * 4);
    let key = |f_hour: u8| GridKey { param, run: run_time(), f_hour };
    for f_hour in 0..4u8 {
        cache.insert(key(f_hour), Arc::new(grid(param, &[0.0; POINTS])), &vec![]);
    }
    assert_eq!(cache.len(), 4);
    cache.insert(key(9), Arc::new(grid(param, &vec![0.0; POINTS * 4])), &vec![]);
    assert_eq!(cache.len(), 1);
}

#[test]
fn an_evicted_parameter_refetches_when_the_layer_is_toggled_back_on() {
    let mut h = full_cache();
    h.defaults.selected_param = overflow();
    deliver(&mut h, overflow());
    h.defaults.selected_param = oldest();
    assert!(!h.has_data(&bare()));
    h.defaults.enabled = false;
    assert_eq!(h.apply_control(&turn_on(), &mut bare(), now()), ControlEffect::Fetch);
    h.defaults.selected_param = overflow();
    assert!(h.has_data(&bare()));
    h.defaults.enabled = false;
    assert_eq!(h.apply_control(&turn_on(), &mut bare(), now()), ControlEffect::Nothing);
}

#[test]
fn two_panes_hold_different_hrrr_parameters_and_the_registry_keeps_neither() {
    let (left, right) = (all()[0], all()[1]);
    let mut h = new_handler();
    deliver(&mut h, left);
    deliver(&mut h, right);
    let a = Pane::of(pane_state(left));
    let mut b = Pane { state: Some(pane_state(left)), peers: vec![pane_state(left)] };
    assert_eq!(h.status_line(&a), h.status_line(&b));
    let effect = h.apply_control(&text("parameter", &code(right)), &mut b, now());
    assert!(matches!(effect, ControlEffect::Nothing), "{effect:?}");
    let row_of = |p: ModelParameter| format!("{} - {}", name(p), hhmmz(run_time()));
    assert_eq!(h.status_line(&a), Some(row_of(left)));
    assert_eq!(h.status_line(&b), Some(row_of(right)));
    assert_ne!(h.legend_signature(&a), h.legend_signature(&b));
    let saved = |pane: &Pane<ModelPaneState>| {
        serialize_pane_state(&catalogue(), &pane.state.unwrap(), now())["parameter"].clone()
    };
    assert_eq!(saved(&a), serde_json::Value::String(code(left)));
    assert_eq!(saved(&b), serde_json::Value::String(code(right)));
    assert_eq!(h.defaults.selected_param, CIN);
}

#[test]
fn two_panes_on_two_parameters_do_not_share_a_cache_token() {
    let h = new_handler();
    let token = |p: ModelParameter| h.content_signature(&Pane::of(pane_state(p)));
    assert_eq!(token(all()[0]), token(all()[0]));
    assert_ne!(token(all()[0]), token(all()[1]));
}

#[test]
fn an_arrival_evicts_no_parameter_that_any_pane_is_showing() {
    let mut h = full_cache();
    assert_eq!(recency(&h)[..2], [oldest(), next_oldest()]);
    let panes = Pane::across(vec![pane_state(oldest()), pane_state(next_oldest())]);
    h.apply_fetch_result(Ok(grid(overflow(), &[300.0])), &panes, 0);
    assert!(h.cached_grids.is_resident(key(oldest())));
    assert!(h.cached_grids.is_resident(key(next_oldest())));
    assert!(h.cached_grids.is_resident(key(overflow())));
    assert_eq!(h.cached_grids.len(), CACHE_ENTRIES);
}

fn disabled_pane_state(param: ModelParameter) -> ModelPaneState {
    ModelPaneState { enabled: false, ..pane_state(param) }
}

#[test]
fn a_disabled_panes_key_is_not_pinned() {
    let h = full_cache();
    let panes = Pane::across(vec![pane_state(oldest()), disabled_pane_state(next_oldest())]);
    assert_eq!(h.pinned_keys(&panes), vec![key(oldest())]);
}

#[test]
fn every_pane_disabled_pins_nothing() {
    let h = full_cache();
    let panes =
        Pane::across(vec![disabled_pane_state(oldest()), disabled_pane_state(next_oldest())]);
    assert!(h.pinned_keys(&panes).is_empty());
}

#[test]
fn an_arrival_evicts_the_grid_of_a_pane_whose_layer_is_switched_off() {
    let mut h = full_cache();
    let bystander = all()[2];
    assert_eq!(recency(&h)[..3], [oldest(), next_oldest(), bystander]);
    let panes = Pane::across(vec![pane_state(oldest()), disabled_pane_state(next_oldest())]);
    h.apply_fetch_result(Ok(grid(overflow(), &[300.0])), &panes, 0);
    assert!(h.cached_grids.is_resident(key(oldest())));
    assert!(!h.cached_grids.is_resident(key(next_oldest())));
    assert!(h.cached_grids.is_resident(key(bystander)));
    assert!(h.cached_grids.is_resident(key(overflow())));
    assert_eq!(h.cached_grids.len(), CACHE_ENTRIES);
}

#[test]
fn a_resident_grid_is_one_frame_stamped_at_its_run_plus_its_forecast_hour() {
    for f_hour in [0u8, 2, 5] {
        let h = seeded(CAPE, f_hour);
        assert_eq!(h.frames_resident(&bare()), vec![stamp(run_time(), i64::from(f_hour))]);
    }
}

#[test]
fn a_pane_on_a_parameter_with_no_grid_holds_no_frames() {
    let mut h = seeded(CAPE, 2);
    h.defaults.selected_param = ML_CIN;
    assert_eq!(h.frames_resident(&bare()), Vec::new());
}

#[test]
fn the_forecast_listing_clips_to_its_window_and_is_complete() {
    let h = seeded(CAPE, 2);
    let run = run_time();
    assert_eq!(forecast_horizon(run), 18);
    let inside = (hours(run, 1), hours(run, 3));
    let before = (hours(run, -4), hours(run, -1));
    let listing = h.list_frames(&bare(), now(), inside);
    assert_eq!(listing.range, inside);
    assert_eq!(listing.frames, (1..=3).map(|f| stamp(run, f)).collect::<Vec<_>>());
    assert!(listing.complete);
    assert!(h.list_frames(&bare(), now(), before).frames.is_empty());
}

#[test]
fn the_forecast_listing_is_the_runs_own_published_hours() {
    let whole = |run: Instant| {
        let mut h = new_handler();
        h.defaults.enabled = true;
        h.defaults.selected_param = CAPE;
        h.defaults.selected_frame = Some((run, 0));
        h.list_frames(&bare(), now(), (run, hours(run, 96))).frames.len()
    };
    let cycle = at(2026, 8, 20, 12);
    let off_cycle = hours(cycle, 1);
    assert_eq!(whole(cycle), 49);
    assert_eq!(whole(off_cycle), 19);
    assert_ne!(whole(cycle), whole(off_cycle));
}

#[test]
fn the_forecast_horizon_is_the_runs_own_cycle() {
    for hour in 0..24u32 {
        let expected = if matches!(hour, 0 | 6 | 12 | 18) { 48 } else { 18 };
        assert_eq!(forecast_horizon(at(2026, 8, 20, hour)), expected, "{hour:02}Z");
    }
}

#[test]
fn a_forecast_listing_is_complete_without_a_network_round_trip() {
    let h = seeded(CAPE, 2);
    assert_eq!(h.id(), LayerId::ModelData);
    let run = run_time();
    let range = (run, hours(run, 6));
    match h.create_frame_list_task(&bare(), now(), range) {
        ListingTask::Known(listing, asked) => {
            assert!(listing.complete);
            assert_eq!(listing.frames.len(), 7);
            assert_eq!(asked.scope.axis, ModelAxis::Forecast);
            assert_eq!(asked.scope.run, run);
            assert!(asked.runs.is_empty());
        }
        ListingTask::Ask(..) => panic!("a forecast asks nobody"),
    }
}

fn analysis_scope(run: Instant) -> ModelScope {
    ModelScope { param: CAPE, run, axis: ModelAxis::Analysis }
}

#[test]
fn an_analysis_listing_is_incomplete_until_the_bucket_answers() {
    let run = run_time();
    let range = (hours(run, -3), run);
    let mut h = seeded(CAPE, 0);
    h.defaults.axis = ModelAxis::Analysis;
    let before = h.list_frames(&bare(), now(), range);
    assert!(!before.complete);
    assert!(before.frames.is_empty());
    assert!(matches!(
        h.create_frame_list_task(&bare(), now(), range),
        ListingTask::Ask(scope, window) if scope == analysis_scope(run) && window == range,
    ));

    let (listing, asked) = ModelDataHandler::analysis_listing(analysis_scope(run), range, None);
    assert!(!listing.complete);
    h.apply_frame_listing(&listing, &asked);
    assert!(!h.list_frames(&bare(), now(), range).complete);

    let runs: Vec<Instant> = (1..=3).map(|back| hours(run, -back)).collect();
    let (listing, asked) =
        ModelDataHandler::analysis_listing(analysis_scope(run), range, Some(runs));
    assert!(listing.complete);
    h.apply_frame_listing(&listing, &asked);
    let answered = h.list_frames(&bare(), now(), range);
    assert!(answered.complete);
    let expected: Vec<FrameStamp> = (-3..=-1).map(|h| stamp(hours(run, h), 0)).collect();
    assert_eq!(answered.frames, expected);
}

#[test]
fn a_listing_files_under_the_run_it_was_dispatched_for_not_the_panes_current_run() {
    let dispatched = run_time();
    let rolled = hours(dispatched, 1);
    let range = (hours(dispatched, -3), dispatched);
    let mut h = new_handler();
    h.defaults.enabled = true;
    h.defaults.selected_param = CAPE;
    h.defaults.axis = ModelAxis::Analysis;
    h.defaults.selected_frame = Some((rolled, 0));
    h.apply_frame_listing(
        &FrameListing { range, frames: Vec::new(), complete: true },
        &ModelListing {
            scope: analysis_scope(dispatched),
            range,
            runs: vec![hours(dispatched, -1)],
        },
    );
    let ask = |run: Instant| {
        let pane = Pane::of(ModelPaneState { selected_frame: Some((run, 0)), ..h.defaults });
        h.list_frames(&pane, now(), range)
    };
    assert!(ask(dispatched).complete);
    assert!(!ask(rolled).complete);
    assert!(!ask(rolled).frames.iter().any(|f| f.run == Some(hours(dispatched, -1))));
}

#[test]
fn a_stamp_no_listing_named_is_not_fetched() {
    let h = seeded(CAPE, 2);
    let run = run_time();
    assert!(h.fetch_frame(&bare(), now(), &stamp(run, 6)).is_some());
    for (stamp, why) in [
        (stamp(run, 19), "past the horizon of an off-cycle run"),
        (
            FrameStamp { valid: hours(run, 2), run: Some(hours(run, 1)) },
            "off another run than the one this pane is on",
        ),
        (FrameStamp { valid: hours(run, 2), run: None }, "carrying no run at all"),
        (stamp(run, -1), "before its own run"),
    ] {
        assert!(h.fetch_frame(&bare(), now(), &stamp).is_none(), "{why}");
    }
}

#[test]
fn a_stamp_maps_back_to_its_parameter_run_and_forecast_hour() {
    let h = seeded(CAPE, 0);
    let run = run_time();
    for f_hour in [0u8, 1, 6, 18] {
        assert_eq!(
            h.frame_target(&h.defaults, hours(run, 2), &stamp(run, i64::from(f_hour))),
            Some(GridKey { param: CAPE, run, f_hour }),
        );
    }
}

#[test]
fn an_arriving_frame_stages_under_its_own_key() {
    let mut h = seeded(CAPE, 0);
    let generation = h.state.data_generation;
    let live_before = h.cached_grids.len();
    let target = GridKey { param: CAPE, run: run_time(), f_hour: 9 };
    assert!(!h.frame_grids.is_staged(target) && !h.cached_grids.is_resident(target));
    h.apply_frame(frame_fetch(9, Some(grid_at(CAPE, run_time(), 9, 10.0))));
    assert!(h.frame_grids.is_staged(target));
    assert!(!h.cached_grids.is_resident(target));
    assert_eq!(h.cached_grids.len(), live_before);
    assert_eq!(h.state.data_generation, generation);
}

#[test]
fn a_failed_frame_installs_nothing() {
    let mut h = seeded(CAPE, 0);
    let before = h.cached_grids.len();
    h.apply_frame(frame_fetch(9, None));
    assert_eq!(h.cached_grids.len(), before);
    assert_eq!(h.frame_grids.len(), 0);
}

/// Only what the pane's own frames no longer need is let go.
#[test]
fn retained_frames_stay_staged() {
    let run = run_time();
    let mut h = seeded(CAPE, 0);
    h.frame_grids = ModelFrameCache::with_budget(4 * one_fixture_grid());
    for f_hour in 1..=3u8 {
        h.apply_frame(frame_fetch(f_hour, Some(grid_at(CAPE, run, f_hour, 1.0))));
    }
    h.retain_frames(&bare(), &vec![stamp(run, 2)]);
    let staged = |f_hour: u8| h.frame_grids.is_staged(GridKey { param: CAPE, run, f_hour });
    assert!(!staged(1) && staged(2) && !staged(3));
}

#[test]
fn the_axis_survives_a_control_round_trip_and_a_reopen() {
    let mut h = new_handler();
    let mut pane = Pane::of(ModelPaneState::new(true, CIN));
    assert_eq!(pane.state.unwrap().axis, ModelAxis::Forecast);
    h.apply_control(&text("axis", "analysis"), &mut pane, now());
    let state = pane.state.unwrap();
    assert_eq!(state.axis, ModelAxis::Analysis);
    let json = serialize_pane_state(&catalogue(), &state, now());
    assert_eq!(json["axis"], serde_json::Value::String("analysis".to_owned()));
    let back = deserialize_pane_state(&catalogue(), &json, true, now());
    assert_eq!(back.axis, ModelAxis::Analysis);
}

fn dropdown_of(
    h: &mut ModelDataHandler,
    state: &ModelPaneState,
    want: &str,
) -> (Vec<(String, String)>, String) {
    h.controls(&Pane::of(*state), now(), 0)
        .into_iter()
        .find_map(|item| match item {
            ControlItem::Dropdown { id, options, selected, .. } if id == want => {
                Some((options, selected))
            }
            _ => None,
        })
        .expect("the dropdown")
}

#[test]
fn the_axis_dropdown_offers_both_axes() {
    let mut h = new_handler();
    let state = ModelPaneState { axis: ModelAxis::Analysis, ..pane_state(CAPE) };
    let (options, selected) = dropdown_of(&mut h, &state, "axis");
    let values: Vec<String> = options.into_iter().map(|(v, _)| v).collect();
    assert_eq!(values, vec!["forecast".to_owned(), "analysis".to_owned()]);
    assert_eq!(selected, "analysis");
    for axis in ModelAxis::all() {
        assert_eq!(ModelAxis::parse(axis.as_str()), Some(axis));
    }
    assert_eq!(ModelAxis::parse("hindcast"), None);
}

#[test]
fn a_parked_frame_survives_a_reopen() {
    let run = latest_run_at(now());
    let state = ModelPaneState { selected_frame: Some((run, 12)), ..pane_state(CIN) };
    let json = serialize_pane_state(&catalogue(), &state, now());
    assert_eq!(json["run"], serde_json::Value::String(run_token(0)));
    assert_eq!(json["forecast_hour"].as_u64(), Some(12));
    let back = deserialize_pane_state(&catalogue(), &json, true, now());
    assert_eq!(back.selected_frame, Some((run, 12)));
    assert_eq!(back, state);
    let json = serialize_pane_state(&catalogue(), &ModelPaneState::new(true, CIN), now());
    assert!(json.get("run").is_none());
    assert_eq!(deserialize_pane_state(&catalogue(), &json, true, now()).selected_frame, None);
}

fn pick(
    h: &mut ModelDataHandler,
    pane: &mut Pane<ModelPaneState>,
    id: &'static str,
    value: &str,
) -> ControlEffect {
    h.apply_control(&text(id, value), pane, now())
}

fn frame_of(pane: &Pane<ModelPaneState>) -> Option<(Instant, u8)> {
    pane.state.unwrap().selected_frame
}

#[test]
fn picking_a_run_and_an_hour_fetches_exactly_that_grid() {
    assert_eq!(CAPE.min_forecast_hour(), 0);
    let latest = latest_run_at(now());
    let mut h = new_handler();
    let mut pane = Pane::of(pane_state(CAPE));
    assert_eq!(frame_of(&pane), None);
    let mut keys = Vec::new();
    let mut objects = Vec::new();
    for (token, back, hour) in [("latest", 0i64, 3u8), ("latest-2", 2, 6), ("latest-5", 5, 12)] {
        assert_eq!(pick(&mut h, &mut pane, "run", token), ControlEffect::Fetch);
        assert_eq!(pick(&mut h, &mut pane, "f_hour", &f_hour_token(hour)), ControlEffect::Fetch);
        let run = hours(latest, -back);
        assert_eq!(frame_of(&pane), Some((run, hour)));
        let asked = fetch_frame(&pane.state.unwrap(), now());
        assert_eq!(asked, (run, hour));
        keys.push(h.key_of(&pane.state.unwrap()).expect("a parked pane names its grid"));
        objects.push(asked);
    }
    for (i, j) in [(0, 1), (0, 2), (1, 2)] {
        assert_ne!(keys[i], keys[j]);
        assert_ne!(objects[i], objects[j]);
    }
    let (run, hour) = (hours(latest, -5), 12u8);
    let arrived = grid_at(CAPE, run, hour, 512.0);
    let field = Arc::clone(&arrived.field);
    arrive(&mut h, arrived);
    let key = Some(GridKey { param: CAPE, run, f_hour: hour });
    assert_eq!(h.key_of(&pane.state.unwrap()), key);
    let job = h.prepare_job(&rasterize_ctx(), &pane).expect("the picked grid is resident");
    assert!(Arc::ptr_eq(job_field(&job), &field));
    pick(&mut h, &mut pane, "run", "");
    assert_eq!(frame_of(&pane), None);
    assert_eq!(fetch_frame(&pane.state.unwrap(), now()), (latest, CAPE.min_forecast_hour()));
}

#[test]
fn the_pane_states_the_forecast_hour_it_is_drawing() {
    let run = latest_run_at(now());
    let mut h = new_handler();
    let mut pane = Pane::of(pane_state(CAPE));
    pick(&mut h, &mut pane, "run", "latest");
    pick(&mut h, &mut pane, "f_hour", &f_hour_token(6));
    arrive(&mut h, grid_at(CAPE, run, 6, 300.0));
    let line = h.status_line(&pane).expect("a row");
    assert!(line.contains("F06"), "{line}");
    assert!(line.contains(&hhmmz(hours(run, 6))), "{line}");
    assert!(line.contains(&name(CAPE)), "{line}");
    pick(&mut h, &mut pane, "f_hour", &f_hour_token(12));
    assert_eq!(frame_of(&pane), Some((run, 12)));
    let line = h.status_line(&pane).expect("a row");
    assert!(!line.contains("F12"), "{line}");
    assert!(!line.contains("F06"), "{line}");
    assert_eq!(line, name(CAPE));
    arrive(&mut h, grid_at(CAPE, run, 12, 300.0));
    assert!(h.status_line(&pane).expect("a row").contains("F12"));
}

fn saved(run: &str, f_hour: u64) -> serde_json::Value {
    let mut map = serde_json::Map::new();
    map.insert("enabled".into(), serde_json::Value::Bool(true));
    map.insert("parameter".into(), serde_json::Value::String(code(CAPE)));
    map.insert("axis".into(), serde_json::Value::String("forecast".into()));
    map.insert("run".into(), serde_json::Value::String(run.into()));
    map.insert("forecast_hour".into(), serde_json::Value::Number(f_hour.into()));
    serde_json::Value::Object(map)
}

fn restored(value: &serde_json::Value) -> Option<(Instant, u8)> {
    deserialize_pane_state(&catalogue(), value, true, now()).selected_frame
}

#[test]
fn a_stale_absolute_run_does_not_survive_a_restart() {
    assert_eq!(restored(&saved("2026-07-25T03:00:00", 6)), None);
    let latest = latest_run_at(now());
    assert_eq!(restored(&saved("latest-2", 6)), Some((hours(latest, -2), 6)));
    assert_eq!(hhmmz(latest), "12:00z");
    assert_eq!(encode_run_choice(latest, now()).as_deref(), Some("latest"));
    assert_eq!(encode_run_choice(hours(latest, -3), now()).as_deref(), Some("latest-3"));
    assert_eq!(encode_run_choice(hours(latest, -72), now()), None);
    assert_eq!(decode_run_choice("latest-3", now()), Some(hours(latest, -3)));
    assert_eq!(decode_run_choice("", now()), None);
    assert_eq!(decode_run_choice("2026-08-21T12:00:00", now()), None);
    let old = ModelPaneState { selected_frame: Some((hours(now(), -72), 6)), ..pane_state(CIN) };
    let json = serialize_pane_state(&catalogue(), &old, now());
    assert!(json.get("run").is_none());
    assert!(json.get("forecast_hour").is_none());
}

#[test]
fn the_run_menu_offers_latest_and_the_runs_behind_it() {
    let mut h = new_handler();
    let (options, selected) = dropdown_of(&mut h, &pane_state(CAPE), "run");
    assert_eq!(options.len(), usize::from(RUN_CHOICES) + 2);
    assert_eq!(options[0], (String::new(), "Latest".to_owned()));
    assert_eq!(options[1].0, "latest");
    assert_eq!(options[2].0, "latest-1");
    assert_eq!(selected, "");
    assert!(options[1..].iter().any(|(_, label)| label.contains("f00-f48")));
    assert!(options[1..].iter().any(|(_, label)| label.contains("f00-f18")));
}

#[test]
fn a_forecast_hour_list_spans_the_runs_own_horizon() {
    let mut h = new_handler();
    let mut pane = Pane::of(pane_state(CAPE));
    let latest = latest_run_at(now());
    let mut seen: Vec<usize> = Vec::new();
    for back in 0..6u8 {
        pick(&mut h, &mut pane, "run", &run_token(back));
        let run = hours(latest, -i64::from(back));
        let (options, _) = dropdown_of(&mut h, &pane.state.unwrap(), "f_hour");
        assert_eq!(options.len(), usize::from(forecast_horizon(run)) + 1);
        seen.push(options.len());
        assert_eq!(options[0].0, "f00");
        assert!(options[0].1.starts_with("F00 ("), "{:?}", options[0]);
    }
    assert!(seen.contains(&49) && seen.contains(&19), "{seen:?}");
}

#[test]
fn a_forecast_hour_never_falls_below_the_parameters_floor() {
    assert_eq!(UH.min_forecast_hour(), 1);
    let mut h = new_handler();
    let mut pane = Pane::of(pane_state(UH));
    let (options, selected) = dropdown_of(&mut h, &pane.state.unwrap(), "f_hour");
    assert_eq!(options[0].0, "f01");
    assert_eq!(selected, "f01");
    pick(&mut h, &mut pane, "run", "latest");
    pick(&mut h, &mut pane, "f_hour", &f_hour_token(0));
    assert_eq!(frame_of(&pane).map(|(_, f_hour)| f_hour), Some(1));
    pick(&mut h, &mut pane, "f_hour", &f_hour_token(18));
    assert_eq!(frame_of(&pane).map(|(_, f_hour)| f_hour), Some(18));
    assert_eq!(fetch_frame(&pane.state.unwrap(), now()).1, 18);
}

#[test]
fn a_restored_hour_cannot_outrun_the_run_it_lands_on() {
    let mut off_cycle = 0u8;
    while forecast_horizon(hours(latest_run_at(now()), -i64::from(off_cycle))) != 18 {
        off_cycle += 1;
        assert!(off_cycle < 6);
    }
    let hour_of = |hour: u64| restored(&saved(&run_token(off_cycle), hour)).map(|(_, h)| h);
    assert_eq!(hour_of(36), Some(18));
    assert_eq!(hour_of(12), Some(12));
}

#[test]
fn the_model_layer_declares_an_hourly_forecast_axis() {
    assert_eq!(
        new_handler().time_axis(),
        TimeAxis::FrameSeries { step: 3600, extends_future: true },
    );
    assert_eq!(new_handler().min_loop_frames(), 13);
}

#[test]
fn a_parked_pane_resolves_its_run_from_the_instant_it_depicts() {
    let h = new_handler();
    let as_of = at(2026, 4, 27, 6);
    let range = (hours(as_of, -6), hours(as_of, 6));
    assert!(matches!(
        h.create_frame_list_task(&bare(), as_of, range),
        ListingTask::Known(listing, _) if !listing.frames.is_empty(),
    ));
    let listing = h.list_frames(&bare(), as_of, range);
    assert!(!listing.frames.is_empty());
    for stamp in &listing.frames {
        let run = stamp.run.expect("a model frame names its run");
        assert!((run.secs - as_of.secs).abs() <= 6 * 3600);
    }
    let (run, _) = fetch_frame(&h.defaults, as_of);
    assert!(run.same_day(&as_of));
    assert!(run.hour() <= 6);
}

/// The grid that last arrived is counted once where a store holds that very
/// allocation, and on its own where one only holds an equal.
#[test]
fn a_carried_grid_is_counted_by_its_allocation() {
    let run = run_time();
    let mut h = seeded(CAPE, 0);
    let one = grid_bytes(&grid_at(CAPE, run, 0, 10.0)) as u64;
    assert_eq!(h.resident_source_bytes(), one);
    assert_eq!(h.resident_bytes(true), one);
    assert_eq!(h.resident_bytes(false), 2 * one);
    h.state.data = Some(Arc::new(grid_at(CAPE, run, 0, 10.0)));
    assert_eq!(h.resident_source_bytes(), 2 * one);
    let carried = Arc::clone(h.state.data.as_ref().expect("carried"));
    h.frame_grids.insert(GridKey { param: CAPE, run, f_hour: 0 }, carried);
    assert_eq!(h.resident_source_bytes(), 2 * one);
    assert!(h.cached_grids.release_all());
    assert_eq!(h.resident_source_bytes(), one);
    assert!(h.frame_grids.release_all());
    assert_eq!(h.resident_source_bytes(), one);
}

/// A pane of another catalogue and an instant at the calendar's end are told from
/// those the layer takes.
#[test]
fn what_the_layer_takes_can_be_asked_for() {
    let h = seeded(CAPE, 0);
    assert!(h.is_pane_sound(&bare()));
    let mut own = h.defaults;
    assert!(h.is_pane_sound(&Pane::of(own)));
    own.selected_param.floor += 1;
    assert!(!h.is_pane_sound(&Pane::of(own)));
    assert!(is_clock_sound(&run_time()));
    assert!(!is_clock_sound(&Instant::at(i64::MAX)));
}

/// On the earliest clock the furthest run that can be spelled is the calendar's
/// first hour.
#[test]
fn the_earliest_clock_reaches_back_to_the_first_hour() {
    let earliest = Instant::at(EARLIEST_CLOCK);
    assert!(is_clock_sound(&earliest));
    assert!(!is_clock_sound(&Instant::at(EARLIEST_CLOCK - 1)));
    let run = decode_run_choice("latest-48", earliest).expect("a run on the calendar");
    assert_eq!(run, Instant::at(FIRST_SECOND));
    assert_eq!(encode_run_choice(run, earliest).as_deref(), Some("latest-48"));
    assert_eq!(latest_run_at(Instant::at(FIRST_SECOND + 7_200)), Instant::at(FIRST_SECOND));
}
