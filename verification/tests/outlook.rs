//! The outlook layer.
use chrono::NaiveDate;
use squallar_overlays::controls::{ControlEffect, ControlItem, ControlUpdate, ControlValue};
use squallar_overlays::fetch::{FetchError, FetchHealth};
use squallar_overlays::instant::Instant;
use squallar_overlays::jobs::outlooks::OutlooksInput;
use squallar_overlays::jobs::shapes::{HatchPattern, OverlayFeature};
use squallar_overlays::jobs::JobRow;
use squallar_overlays::layers::{LayerId, RenderMode, TimeAxis};
use squallar_overlays::outlook::selection::{
    deserialize_pane_state, save_selection, OutlookDay, OutlookKey, OutlookPaneState,
    OutlookProduct, ProductSet,
};
use squallar_overlays::outlook::{
    outlook_page_url, OutlookItem, Retired, SpcOutlook, SpcOutlookFetchResult, SpcOutlookHandler,
};
use squallar_overlays::pane::Pane;
use squallar_overlays::popup::{PopupContent, PopupSection, TimezonePreference};
use squallar_overlays::state::RasterizeContext;
use std::sync::Arc;

const CAT: OutlookProduct = OutlookProduct::Categorical;
const TOR: OutlookProduct = OutlookProduct::Tornado;
const WIND: OutlookProduct = OutlookProduct::Wind;
const HAIL: OutlookProduct = OutlookProduct::Hail;
const PROB: OutlookProduct = OutlookProduct::Probabilistic;
const CIG: OutlookProduct = OutlookProduct::ConditionalIntensity;

fn bare() -> Pane<OutlookPaneState> {
    Pane::bare()
}

fn key(day: OutlookDay, product: OutlookProduct) -> OutlookKey {
    OutlookKey { day, product }
}

fn held(set: &ProductSet) -> Vec<OutlookProduct> {
    set.among(&OutlookProduct::all())
}

fn toggle(handler: &mut SpcOutlookHandler, id: &'static str, on: bool) -> ControlEffect {
    handler.apply_control(&ControlUpdate { id, value: ControlValue::Bool(on) }, &mut bare())
}

#[test]
fn the_master_toggle_restores_a_product_the_day_actually_publishes() {
    let mut h = SpcOutlookHandler::new();
    assert!(!h.is_enabled(&bare()));
    h.set_enabled(true, &mut bare());
    assert_eq!(held(&h.defaults.enabled_products), vec![CAT]);
    h.set_enabled(false, &mut bare());
    assert!(!h.is_enabled(&bare()));
    h.defaults.selected_day = OutlookDay::Day5;
    h.set_enabled(true, &mut bare());
    assert_eq!(held(&h.defaults.enabled_products), vec![PROB]);
}

fn day3_probabilistic() -> SpcOutlookHandler {
    let mut h = SpcOutlookHandler::new();
    h.defaults.selected_day = OutlookDay::Day3;
    toggle(&mut h, "prob", true);
    h
}

fn issued(day: OutlookDay, product: OutlookProduct) -> SpcOutlook {
    SpcOutlook { day, product, valid: None, expire: None, features: Vec::new() }
}

fn land_on(
    handler: &mut SpcOutlookHandler,
    day: OutlookDay,
    product: OutlookProduct,
    result: Result<SpcOutlook, FetchError>,
) {
    handler.apply_fetch_result(SpcOutlookFetchResult { day, product, result }, &bare(), 0);
}

#[test]
fn the_significant_area_is_fetched_but_has_no_toggle_of_its_own() {
    let h = day3_probabilistic();
    assert!(h.defaults.enabled_products.contains(CIG));
    let ids: Vec<&str> = h
        .controls(&bare())
        .into_iter()
        .filter_map(|item| match item {
            ControlItem::Toggle { id, .. } => Some(id),
            _ => None,
        })
        .collect();
    assert_eq!(ids, vec!["cat", "prob"]);
    assert_eq!(h.status_line(&bare()).as_deref(), Some("Day 3 - Probabilistic"));
}

fn transient() -> FetchError {
    FetchError::transient("HTTP 500")
}

#[test]
fn the_significant_area_is_its_own_task_and_its_own_ledger_entry() {
    let mut h = day3_probabilistic();
    assert_eq!(h.create_fetch_tasks(&bare()).len(), 2);
    h.set_fetching(true, &bare());
    land_on(&mut h, OutlookDay::Day3, PROB, Ok(issued(OutlookDay::Day3, PROB)));
    land_on(&mut h, OutlookDay::Day3, CIG, Err(transient()));
    assert!(h.per_product_error.contains_key(&key(OutlookDay::Day3, CIG)));
    assert!(h.state.retry.is_incomplete());
}

#[test]
fn every_path_that_enables_the_parent_brings_the_significant_area() {
    assert!(day3_probabilistic().defaults.enabled_products.contains(CIG));

    let mut from_day5 = SpcOutlookHandler::new();
    from_day5.defaults.selected_day = OutlookDay::Day5;
    from_day5.set_enabled(true, &mut bare());
    assert_eq!(held(&from_day5.defaults.enabled_products), vec![PROB]);
    toggle(&mut from_day5, "day3", true);
    assert!(from_day5.defaults.enabled_products.contains(CIG));

    let mut map = serde_json::Map::new();
    map.insert("selected_day".into(), serde_json::Value::String("Day3".into()));
    map.insert(
        "enabled_products".into(),
        serde_json::Value::Array(vec![serde_json::Value::String("Probabilistic".into())]),
    );
    let reopened = deserialize_pane_state(&serde_json::Value::Object(map), true);
    assert!(reopened.enabled_products.contains(CIG));
}

#[test]
fn the_significant_area_leaves_when_its_parent_or_its_day_does() {
    let mut h = day3_probabilistic();
    toggle(&mut h, "prob", false);
    assert!(!h.defaults.enabled_products.contains(CIG));
    let mut h = day3_probabilistic();
    toggle(&mut h, "day1", true);
    assert!(!h.defaults.enabled_products.contains(CIG));
}

fn feature(label: &str) -> Arc<OverlayFeature> {
    Arc::new(OverlayFeature {
        polygons: Vec::new(),
        fill_rgba: [0, 0, 0, 0],
        stroke_rgba: [0, 0, 0, 0],
        label: label.to_owned(),
        label2: String::new(),
        hatch: HatchPattern::Unhatched,
        geo_bounds: None,
    })
}

#[test]
fn the_outlooks_paint_in_publication_order_not_hash_order() {
    let mut h = day3_probabilistic();
    toggle(&mut h, "cat", true);
    for (product, label) in [(CIG, "cig"), (CAT, "cat"), (PROB, "prob")] {
        let mut o = issued(OutlookDay::Day3, product);
        o.features.push(feature(label));
        h.state.data.insert(key(OutlookDay::Day3, product), o);
    }
    let order: Vec<String> = h
        .features_in_paint_order(&h.defaults, &Instant::at(0))
        .iter()
        .map(|f| f.label.clone())
        .collect();
    assert_eq!(order, vec!["cat", "prob", "cig"]);
}

fn at(d: u32, h: u32) -> Instant {
    let t = NaiveDate::from_ymd_opt(2026, 8, d).unwrap().and_hms_opt(h, 0, 0).unwrap();
    Instant::at(t.and_utc().timestamp())
}

fn grid_row(content: &PopupContent, key: &str) -> String {
    content
        .sections
        .iter()
        .find_map(|s| match s {
            PopupSection::KeyValueGrid(rows) => {
                rows.iter().find(|(k, _)| k == key).map(|(_, v)| v.clone())
            }
            _ => None,
        })
        .expect("the row")
}

fn link(content: &PopupContent) -> String {
    content
        .sections
        .iter()
        .find_map(|s| match s {
            PopupSection::Link { url, .. } => Some(url.clone()),
            _ => None,
        })
        .expect("a link")
}

#[test]
fn the_popup_states_the_outlooks_window_and_links_to_spc() {
    let item = OutlookItem {
        label: "SLGT".into(),
        day: OutlookDay::Day1,
        product: CAT,
        valid: Some(at(10, 12)),
        expire: Some(at(11, 12)),
    };
    let content = item.popup_content(TimezonePreference::Utc, "here", "there");
    assert_eq!(content.title, "SPC Day 1 Categorical Outlook");
    assert_eq!(grid_row(&content, "Day"), "Day 1");
    assert_eq!(grid_row(&content, "Product"), "Categorical");
    assert!(grid_row(&content, "Valid").starts_with("Aug 10 2026"));
    assert!(grid_row(&content, "Expires").starts_with("Aug 11 2026"));
    assert_eq!(grid_row(&content, "Valid"), "Aug 10 2026 12:00 UTC");
    assert_eq!(link(&content), "https://www.spc.noaa.gov/products/outlook/day1otlk.html");
    let local = item.popup_content(TimezonePreference::Local, "here", "there");
    assert_eq!(grid_row(&local, "Valid"), "here");
    assert_eq!(grid_row(&local, "Expires"), "there");
}

#[test]
fn an_extended_day_links_to_the_shared_page_and_owns_its_gaps() {
    let item = OutlookItem {
        label: "15%".into(),
        day: OutlookDay::Day5,
        product: PROB,
        valid: None,
        expire: None,
    };
    let content = item.popup_content(TimezonePreference::Local, "here", "there");
    assert_eq!(content.title, "SPC Day 5 Probabilistic Outlook");
    assert_eq!(link(&content), "https://www.spc.noaa.gov/products/exper/day4-8/");
    assert_eq!(link(&content), outlook_page_url(OutlookDay::Day8));
    assert_eq!(grid_row(&content, "Valid"), "Unknown");
}

#[test]
fn a_band_matches_only_its_own_days_product() {
    let band = |product: OutlookProduct| OutlookItem {
        label: "5%".into(),
        day: OutlookDay::Day1,
        product,
        valid: None,
        expire: None,
    };
    assert!(band(TOR).matches(&band(TOR)));
    assert!(!band(TOR).matches(&band(WIND)));
}

#[test]
fn the_status_line_names_the_day_and_its_enabled_products() {
    let mut h = SpcOutlookHandler::new();
    assert_eq!(h.status_line(&bare()), None);
    h.defaults.enabled_products.insert(TOR);
    h.defaults.enabled_products.insert(CAT);
    assert_eq!(h.status_line(&bare()).as_deref(), Some("Day 1 - Categorical, Tornado"));
}

fn outlook(product: OutlookProduct) -> SpcOutlook {
    issued(OutlookDay::Day1, product)
}

fn land(h: &mut SpcOutlookHandler, product: OutlookProduct, result: Result<SpcOutlook, FetchError>) {
    land_on(h, OutlookDay::Day1, product, result);
}

fn loaded(product: OutlookProduct) -> (OutlookProduct, Result<SpcOutlook, FetchError>) {
    (product, Ok(outlook(product)))
}

fn failed(product: OutlookProduct) -> (OutlookProduct, Result<SpcOutlook, FetchError>) {
    (product, Err(transient()))
}

fn round(h: &mut SpcOutlookHandler, results: Vec<(OutlookProduct, Result<SpcOutlook, FetchError>)>) {
    h.set_fetching(true, &bare());
    for (product, result) in results {
        land(h, product, result);
    }
}

fn asking_for(products: &[OutlookProduct]) -> SpcOutlookHandler {
    let mut h = SpcOutlookHandler::new();
    for &p in products {
        h.defaults.enabled_products.insert(p);
    }
    h
}

fn four_product_handler() -> SpcOutlookHandler {
    asking_for(&OutlookDay::Day1.products())
}

#[test]
fn a_partly_failed_round_reads_the_same_whichever_task_lands_last() {
    let mut first = four_product_handler();
    round(&mut first, vec![failed(TOR), loaded(CAT), loaded(WIND), loaded(HAIL)]);
    let mut last = four_product_handler();
    round(&mut last, vec![loaded(CAT), loaded(WIND), loaded(HAIL), failed(TOR)]);
    assert_eq!(first.state.retry.health(), last.state.retry.health());
    let note = first.state.retry.status_note().expect("one of four failed");
    assert!(note.contains("Tornado"), "{note}");
    assert!(note.contains("1 of 4"), "{note}");
    assert_eq!(first.state.data.len(), 3);
    assert_eq!(last.state.data.len(), 3);
}

#[test]
fn a_round_with_two_failures_is_one_attempt_whichever_order_they_land_in() {
    let mut first = four_product_handler();
    round(&mut first, vec![failed(TOR), failed(WIND), loaded(CAT), loaded(HAIL)]);
    let mut last = four_product_handler();
    round(&mut last, vec![loaded(CAT), loaded(HAIL), failed(TOR), failed(WIND)]);
    assert_eq!(first.state.retry.failures(), last.state.retry.failures());
    assert_eq!(first.state.retry.failures(), 1);
    assert_eq!(first.state.retry.status_note(), last.state.retry.status_note());
    let note = first.state.retry.status_note().expect("two of four failed");
    assert!(note.contains("2 of 4"), "{note}");
}

#[test]
fn a_round_of_refusals_is_believed_only_when_a_second_round_repeats_it() {
    let all_four = || {
        [CAT, TOR, WIND, HAIL].map(|p| (p, Err(FetchError::permanent("HTTP 400")))).into()
    };
    let mut h = four_product_handler();
    round(&mut h, all_four());
    assert!(h.state.retry.is_unhealthy());
    assert!(!h.state.retry.is_broken());
    round(&mut h, all_four());
    assert!(h.state.retry.is_broken());
}

#[test]
fn a_recovered_product_clears_the_layers_verdict() {
    let mut h = four_product_handler();
    round(&mut h, vec![loaded(CAT), loaded(WIND), loaded(HAIL), failed(TOR)]);
    assert!(h.state.retry.is_unhealthy());
    round(&mut h, vec![loaded(CAT), loaded(WIND), loaded(HAIL), loaded(TOR)]);
    assert_eq!(h.state.retry.status_note(), None);
}

#[test]
fn an_absent_product_is_not_reported_as_the_layer_being_stale() {
    let absent = || Err(FetchError::absent("HTTP 404"));
    let mut h = four_product_handler();
    round(&mut h, vec![loaded(CAT), loaded(WIND), loaded(HAIL), (TOR, absent())]);
    assert!(!h.state.retry.is_unhealthy());
    assert_eq!(h.state.retry.status_note(), None);
    let mut alone = asking_for(&[TOR]);
    round(&mut alone, vec![(TOR, absent())]);
    assert_eq!(alone.state.retry.health(), FetchHealth::Absent);
    assert_eq!(alone.state.retry.failures(), 0);
}

#[test]
fn unticking_the_product_that_failed_stops_the_layer_reading_as_stale() {
    let mut h = asking_for(&[CAT, TOR]);
    round(&mut h, vec![loaded(CAT), failed(TOR)]);
    assert!(h.state.retry.is_unhealthy());
    assert_eq!(toggle(&mut h, "tor", false), ControlEffect::Nothing);
    assert!(!h.state.retry.is_unhealthy());
    assert_eq!(h.state.retry.status_note(), None);
    assert!(h.state.data.contains_key(&key(OutlookDay::Day1, CAT)));
}

#[test]
fn navigating_to_another_day_leaves_the_old_days_failure_behind() {
    let mut h = asking_for(&[CAT]);
    round(&mut h, vec![failed(CAT)]);
    assert!(h.state.retry.is_unhealthy());
    let update = ControlUpdate { id: "day2", value: ControlValue::Action };
    assert_eq!(h.apply_control(&update, &mut bare()), ControlEffect::Fetch);
    assert!(!h.state.retry.is_unhealthy());
}

#[test]
fn a_failure_that_lands_after_its_product_was_unticked_still_reaches_the_ladder() {
    let mut h = asking_for(&[TOR]);
    h.set_fetching(true, &bare());
    assert!(h.is_fetching());
    assert_eq!(toggle(&mut h, "tor", false), ControlEffect::Nothing);
    land(&mut h, TOR, Err(transient()));
    assert!(!h.is_fetching());
    assert_eq!(h.state.retry.failures(), 1);
    assert!(h.state.retry.is_unhealthy());
    assert_ne!(h.state.retry.backoff_remaining(120), 0);
}

#[test]
fn a_stray_failure_does_not_condemn_a_round_that_otherwise_answered() {
    let mut h = four_product_handler();
    h.set_fetching(true, &bare());
    assert_eq!(toggle(&mut h, "tor", false), ControlEffect::Nothing);
    for p in [CAT, WIND, HAIL] {
        land(&mut h, p, Ok(outlook(p)));
    }
    land(&mut h, TOR, Err(transient()));
    assert!(!h.state.retry.is_unhealthy());
}

#[test]
fn a_product_that_would_not_load_is_missing_from_the_map_and_not_merely_stale() {
    let mut h = four_product_handler();
    round(&mut h, vec![loaded(CAT), loaded(WIND), loaded(HAIL), failed(TOR)]);
    assert!(h.state.retry.is_unhealthy());
    assert!(h.state.retry.is_incomplete());
    let note = h.state.retry.coverage().status_note().expect("what is not drawn");
    for expected in ["missing 1 of 4 outlook products", "Tornado"] {
        assert!(note.contains(expected), "{note}");
    }
    let mut drawn = four_product_handler();
    round(&mut drawn, OutlookDay::Day1.products().into_iter().map(loaded).collect());
    assert!(!drawn.state.retry.is_incomplete());
    round(&mut drawn, vec![loaded(CAT), loaded(WIND), loaded(HAIL), failed(TOR)]);
    assert!(drawn.state.retry.is_unhealthy());
    assert!(!drawn.state.retry.is_incomplete());
    assert_eq!(toggle(&mut h, "tor", false), ControlEffect::Nothing);
    assert!(!h.state.retry.is_incomplete());
}

#[test]
fn a_round_that_lands_wholly_out_of_scope_still_retires_its_coverage_report() {
    let mut h = asking_for(&[CAT, TOR]);
    round(&mut h, vec![loaded(CAT), failed(TOR)]);
    assert!(h.state.retry.is_incomplete());
    h.set_fetching(true, &bare());
    assert_eq!(toggle(&mut h, "tor", false), ControlEffect::Nothing);
    assert_eq!(toggle(&mut h, "cat", false), ControlEffect::Nothing);
    land(&mut h, CAT, Ok(outlook(CAT)));
    land(&mut h, TOR, Err(transient()));
    assert!(!h.state.retry.is_incomplete());
    assert_eq!(h.state.retry.coverage().status_note(), None);
}

#[test]
fn the_outstanding_count_is_the_number_of_tasks_actually_built() {
    for products in 1..=OutlookDay::Day1.products().len() {
        let mut h = asking_for(&OutlookDay::Day1.products()[..products]);
        let built = h.create_fetch_tasks(&bare()).len();
        h.set_fetching(true, &bare());
        assert_eq!(h.outstanding, built);
        assert_eq!(built, products);
    }
}

fn outlook_pane(day: OutlookDay, products: &[OutlookProduct]) -> OutlookPaneState {
    let mut enabled_products = ProductSet::new();
    for &p in products {
        enabled_products.insert(p);
    }
    let mut state = OutlookPaneState { selected_day: day, enabled_products };
    state.sync_implied_products();
    state
}

#[test]
fn two_panes_hold_different_outlook_days_and_the_registry_keeps_neither() {
    let mut h = SpcOutlookHandler::new();
    let state = outlook_pane(OutlookDay::Day1, &[CAT]);
    let a = Pane::of(state);
    let mut b = Pane { state: Some(state), peers: vec![state] };
    assert_eq!(h.status_line(&a), h.status_line(&b));
    let update = ControlUpdate { id: "day3", value: ControlValue::Bool(true) };
    h.apply_control(&update, &mut b);
    let starts = |h: &SpcOutlookHandler, pane: &Pane<OutlookPaneState>, day: OutlookDay| {
        h.status_line(pane).is_some_and(|line| line.starts_with(&day.to_text()))
    };
    assert!(starts(&h, &a, OutlookDay::Day1));
    assert!(starts(&h, &b, OutlookDay::Day3));
    assert_ne!(h.content_signature(&a), h.content_signature(&b));
    let day = |pane: &Pane<OutlookPaneState>| {
        save_selection(&pane.state.unwrap())["selected_day"].clone()
    };
    assert_eq!(day(&a), serde_json::Value::String("Day1".into()));
    assert_eq!(day(&b), serde_json::Value::String("Day3".into()));
    assert_eq!(h.defaults.selected_day, OutlookDay::Day1);
    assert!(h.defaults.enabled_products.is_empty());
}

#[test]
fn an_edit_in_one_pane_keeps_the_failure_another_panes_selection_carries() {
    let mut h = SpcOutlookHandler::new();
    let a = outlook_pane(OutlookDay::Day1, &[CAT]);
    let b = outlook_pane(OutlookDay::Day1, &[TOR]);
    let failing = key(OutlookDay::Day1, TOR);
    h.per_product_error.insert(failing, transient());
    h.state.retry.record_failure(&transient());
    assert!(h.state.retry.failures() > 0);
    let update = ControlUpdate { id: "hail", value: ControlValue::Bool(true) };
    h.apply_control(&update, &mut Pane { state: Some(a), peers: vec![b] });
    assert!(h.per_product_error.contains_key(&failing));
    assert!(h.state.retry.failures() > 0);
}

fn paint_ctx(as_of: Instant) -> RasterizeContext {
    RasterizeContext {
        is_dark: false,
        zoom: 6.0f64.to_bits(),
        device_scale: 1.0f32.to_bits(),
        now: as_of,
        as_of,
        frame: None,
    }
}

fn day1_with_window(valid: Option<Instant>, expire: Option<Instant>) -> SpcOutlookHandler {
    let mut h = SpcOutlookHandler::new();
    h.defaults = OutlookPaneState::new(true);
    let mut outlook = outlook(CAT);
    outlook.valid = valid;
    outlook.expire = expire;
    outlook.features.push(feature("SLGT"));
    h.state.data.insert(key(OutlookDay::Day1, CAT), outlook);
    h
}

fn labels(input: Option<OutlooksInput>) -> Vec<String> {
    input.map(|i| i.features.iter().map(|f| f.label.clone()).collect()).unwrap_or_default()
}

#[test]
fn an_outlook_draws_only_while_its_issuance_is_in_force() {
    let h = day1_with_window(Some(at(22, 13)), Some(at(23, 12)));
    let labels_at = |as_of: Instant| labels(h.paint_input(&paint_ctx(as_of), &h.defaults));
    assert_eq!(labels_at(at(22, 11)), Vec::<String>::new());
    assert_eq!(labels_at(at(22, 18)), vec!["SLGT".to_owned()]);
    assert_eq!(labels_at(at(23, 12)), Vec::<String>::new());
    assert_eq!(labels_at(at(23, 18)), Vec::<String>::new());
}

#[test]
fn a_live_pane_paints_the_unwindowed_picture() {
    let now = at(22, 18);
    let windowed = day1_with_window(Some(at(22, 12)), Some(at(23, 0)));
    let unwindowed = day1_with_window(None, None);
    let live = windowed.paint_input(&paint_ctx(now), &windowed.defaults).expect("a picture");
    assert!(!live.features.is_empty());
    let plain = unwindowed.paint_input(&paint_ctx(now), &unwindowed.defaults).expect("a picture");
    assert_eq!(format!("{live:?}"), format!("{plain:?}"));
}

#[test]
fn the_built_input_is_reused_until_a_term_of_the_picture_moves() {
    let mut h = day1_with_window(Some(at(22, 13)), Some(at(23, 12)));
    let first = h.prepare_job(&paint_ctx(at(22, 14)), &bare()).unwrap();
    let second = h.prepare_job(&paint_ctx(at(22, 20)), &bare()).unwrap();
    assert!(Arc::ptr_eq(&first, &second));
    assert!(h.prepare_job(&paint_ctx(at(23, 12)), &bare()).is_none());
    let back = h.prepare_job(&paint_ctx(at(22, 21)), &bare()).unwrap();
    assert!(Arc::ptr_eq(&first, &back));
    let dark = RasterizeContext { is_dark: true, ..paint_ctx(at(22, 21)) };
    let night = h.prepare_job(&dark, &bare()).unwrap();
    assert!(!Arc::ptr_eq(&first, &night));
    assert_ne!(first.hatch_color, night.hatch_color);
    h.defaults.enabled_products.remove(CAT);
    assert!(h.prepare_job(&dark, &bare()).is_none());
    h.defaults.enabled_products.insert(CAT);
    let again = h.prepare_job(&dark, &bare()).unwrap();
    assert!(Arc::ptr_eq(&night, &again));
    land(&mut h, CAT, Ok(outlook(CAT)));
    assert!(h.prepare_job(&dark, &bare()).is_none());
    assert!(!h.take_retired().is_empty());
    assert!(h.take_retired().is_empty());
}

/// Each stop is asked for on its own.
#[test]
fn every_outlook_stop_is_its_own_stretch() {
    let h = SpcOutlookHandler::new();
    let stops: Vec<Instant> = (0..13).map(|i| at(22, i)).collect();
    let residency = h.residency_for(&stops);
    assert_eq!(residency.ranges().len(), 13);
    assert_eq!(residency.extent(), Some((at(22, 0), at(22, 12))));
    assert!(residency.covers(&at(22, 5)));
    assert!(!residency.covers(&Instant::at(at(22, 5).secs + 1)));
    assert!(h.residency_for(&Vec::new()).extent().is_none());
}

/// Every selection a pane can hold reopens as it was.
#[test]
fn a_saved_selection_reopens() {
    for day in OutlookDay::all() {
        for products in [vec![], day.products(), vec![day.products()[0]]] {
            let state = outlook_pane(day, &products);
            let on = !products.is_empty();
            let back = deserialize_pane_state(&save_selection(&state), on);
            assert_eq!(back, state);
            let off = deserialize_pane_state(&save_selection(&state), false);
            assert_eq!(off.selected_day, day);
            assert!(off.enabled_products.is_empty());
        }
    }
}

#[test]
fn the_outlook_layer_declares_itself() {
    let h = SpcOutlookHandler::new();
    assert_eq!(h.id(), LayerId::SpcOutlook);
    assert_eq!(h.draw_order_weight(), 20);
    assert_eq!(h.display_name(), "SPC Outlooks");
    assert_eq!(h.time_axis(), TimeAxis::EventLifetime);
    assert_eq!(h.render_mode(), RenderMode::Texture);
    assert_eq!(h.job_codec(), Some(JobRow::Outlooks));
    assert!(h.theme_sensitive());
}

/// What the layer lets go is handed over, and what it held draws no more.
#[test]
fn released_outlooks_are_handed_over() {
    let mut h = day1_with_window(None, None);
    assert!(h.has_data(&bare()));
    assert_eq!(h.clickable_items(&bare()).len(), 1);
    let clicked = h.clickable_items(&bare());
    assert_eq!(clicked[0].item.label, "SLGT");
    let held = h.state.data.get(&key(OutlookDay::Day1, CAT)).expect("held");
    assert!(Arc::ptr_eq(&clicked[0].feature, &held.features[0]));
    assert_eq!(h.item_count(), 1);
    h.state.fetch_time = Some(7);
    assert!(h.prepare_job(&paint_ctx(at(22, 14)), &bare()).is_some());
    assert!(h.release_data());
    assert_eq!(h.item_count(), 0);
    assert!(h.state.fetch_time.is_none());
    assert_eq!(h.state.data_generation, 1);
    assert!(!h.has_data(&bare()));
    assert!(h.prepare_job(&paint_ctx(at(22, 14)), &bare()).is_none());
    assert!(!h.release_data());
    let retired = h.take_retired();
    assert_eq!(retired.len(), 2);
    assert!(matches!(&retired[0], Retired::Outlooks(table) if table.len() == 1));
    assert!(matches!(&retired[1], Retired::Input(input) if input.features.len() == 1));
    assert!(h.take_retired().is_empty());
}

/// An outlook that arrives moves the generation by one, and so does a turn of the
/// layer; a refusal leaves it.
#[test]
fn an_arrival_moves_the_generation_by_one() {
    let mut h = SpcOutlookHandler::new();
    h.defaults = OutlookPaneState::new(true);
    assert_eq!(h.combined_generation(), 0);
    let token = h.content_signature(&bare());
    land(&mut h, CAT, Ok(outlook(CAT)));
    assert_eq!(h.combined_generation(), 1);
    assert_ne!(h.content_signature(&bare()), token);
    land(&mut h, CAT, Ok(outlook(CAT)));
    land_on(&mut h, OutlookDay::Day8, PROB, Ok(issued(OutlookDay::Day8, PROB)));
    assert_eq!(h.combined_generation(), 3);
    land(&mut h, TOR, Err(transient()));
    assert_eq!(h.combined_generation(), 3);
    h.set_enabled(false, &mut bare());
    assert_eq!(h.combined_generation(), 4);
}

/// An input that was built is not handed out once the data it was built from has
/// been replaced.
#[test]
fn a_replaced_outlook_is_not_drawn_from_the_held_input() {
    let mut h = day1_with_window(None, None);
    let before = h.prepare_job(&paint_ctx(at(22, 14)), &bare()).unwrap();
    let mut next = outlook(CAT);
    next.features.push(feature("MDT"));
    land(&mut h, CAT, Ok(next));
    let after = h.prepare_job(&paint_ctx(at(22, 14)), &bare()).unwrap();
    assert_eq!(before.features[0].label, "SLGT");
    assert_eq!(after.features[0].label, "MDT");
}

/// A whole round ends the same in every order its four answers can land in.
#[test]
fn a_whole_round_ends_alike_in_any_order() {
    let answers = |order: &[usize]| {
        let mut all = vec![
            Some(loaded(CAT)),
            Some(failed(TOR)),
            Some(failed(WIND)),
            Some(loaded(HAIL)),
        ];
        order.iter().map(|&i| all[i].take().expect("once")).collect::<Vec<_>>()
    };
    let mut ends = Vec::new();
    for order in [[0, 1, 2, 3], [3, 2, 1, 0], [1, 0, 3, 2], [2, 3, 0, 1]] {
        let mut h = four_product_handler();
        round(&mut h, answers(&order));
        assert!(!h.is_fetching());
        assert_eq!(h.state.retry.failures(), 1);
        assert_eq!(h.item_count(), 2);
        ends.push((h.state.retry.status_note(), h.combined_generation()));
    }
    assert!(ends.iter().all(|end| *end == ends[0]));
}

fn null_member(name: &str) -> serde_json::Value {
    let mut map = serde_json::Map::new();
    map.insert(name.into(), serde_json::Value::Null);
    serde_json::Value::Object(map)
}

fn saved(day: serde_json::Value, products: Vec<serde_json::Value>) -> serde_json::Value {
    let mut map = serde_json::Map::new();
    map.insert("selected_day".into(), day);
    map.insert("enabled_products".into(), serde_json::Value::Array(products));
    serde_json::Value::Object(map)
}

/// A day or a product is spelled by a text, or by an object whose one member is
/// null.
#[test]
fn a_saved_choice_is_read_in_both_of_its_spellings() {
    let text = |t: &str| serde_json::Value::String(t.into());
    let value = saved(null_member("Day2"), vec![null_member("Wind"), text("Hail")]);
    let state = deserialize_pane_state(&value, true);
    assert_eq!(state.selected_day, OutlookDay::Day2);
    assert_eq!(held(&state.enabled_products), vec![WIND, HAIL]);
    let plain = saved(text("Day2"), vec![text("Wind"), text("Hail")]);
    assert_eq!(state, deserialize_pane_state(&plain, true));
}

/// An object spells nothing with a member that is not null, with more members, or
/// with none. A product that is not spelled leaves the whole list unread.
#[test]
fn an_object_that_is_no_name_spells_no_choice() {
    let mut valued = serde_json::Map::new();
    valued.insert("Day2".into(), serde_json::Value::Bool(true));
    let mut two = serde_json::Map::new();
    two.insert("Day2".into(), serde_json::Value::Null);
    two.insert("Day3".into(), serde_json::Value::Null);
    let refused = [
        serde_json::Value::Object(valued),
        serde_json::Value::Object(two),
        serde_json::Value::Object(serde_json::Map::new()),
        null_member("Day9"),
        serde_json::Value::Null,
    ];
    for day in refused {
        let state = deserialize_pane_state(&saved(day.clone(), vec![null_member("Hail")]), true);
        assert_eq!(state.selected_day, OutlookDay::Day1, "{day:?}");
        assert_eq!(held(&state.enabled_products), vec![HAIL], "{day:?}");
    }
    let bad = saved(null_member("Day1"), vec![null_member("Hail"), null_member("Snow")]);
    assert_eq!(held(&deserialize_pane_state(&bad, true).enabled_products), vec![CAT]);
}

/// Answers, toggles and asking leave the count of releases where it was.
#[test]
fn only_a_release_moves_the_data_generation() {
    let mut h = four_product_handler();
    let before = h.state.data_generation;
    round(&mut h, vec![failed(TOR), failed(WIND), loaded(CAT), loaded(HAIL)]);
    h.set_enabled(false, &mut bare());
    h.set_enabled(true, &mut bare());
    toggle(&mut h, "day2", true);
    assert_eq!(h.state.data_generation, before);
    assert!(h.release_data());
    assert_ne!(h.state.data_generation, before);
}

/// A round keeps what loaded, and its note counts what failed.
#[test]
fn a_failed_round_keeps_what_loaded() {
    let mut h = four_product_handler();
    round(&mut h, vec![failed(WIND), loaded(CAT), failed(TOR), loaded(HAIL)]);
    let has = |p: OutlookProduct| h.state.data.contains_key(&key(OutlookDay::Day1, p));
    assert_eq!([CAT, TOR, WIND, HAIL].map(has), [true, false, false, true]);
    assert_eq!(h.item_count(), 2);
    assert_eq!(h.outstanding, 0);
    assert_eq!(h.state.retry.failures(), 1);
    assert!(h.state.retry.status_note().unwrap().contains("2 of 4"));
}
