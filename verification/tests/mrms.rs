//! The mosaic layer.
use squallar_overlays::controls::{ControlEffect, ControlItem, ControlUpdate, ControlValue};
use squallar_overlays::fetch::FetchError;
use squallar_overlays::frames::FrameStamp;
use squallar_overlays::instant::Instant;
use squallar_overlays::jobs::coords::{GridCoords, RegularGrid};
use squallar_overlays::jobs::gridded::{FieldGrid, GridValues, GriddedInput, ScaledU16};
use squallar_overlays::jobs::JobRow;
use squallar_overlays::layers::{LayerId, RenderMode, TimeAxis};
use squallar_overlays::mrms::grids::{MrmsFrameCache, MrmsGridCache};
use squallar_overlays::mrms::product::{
    summarize, MrmsGrid, MrmsProduct, ProductRow, ProductTable,
};
use squallar_overlays::mrms::settings::{deserialize_pane_state, serialize_pane_state};
use squallar_overlays::mrms::staging::{
    StagingPool, StagingTotals, CONUS_GRID_BYTES, DESKTOP_GRID_HISTORY_ENTRIES, FRAME_STAGING_BYTES,
    STAGING_POINTS, WASM_GRID_HISTORY_ENTRIES,
};
use squallar_overlays::mrms::{listing_of, MrmsFrameFetch, MrmsHandler, MrmsPaneState};
use squallar_overlays::pane::Pane;
use squallar_overlays::state::RasterizeContext;
use std::sync::Arc;

const COMPOSITE: MrmsProduct = MrmsProduct::ReflectivityComposite;
const RATE: MrmsProduct = MrmsProduct::PrecipRate;
const BUDGET: usize = 2 * CONUS_GRID_BYTES;

fn products() -> ProductTable {
    ProductTable {
        composite: ProductRow {
            code: "mrms_reflectivity_composite".to_owned(),
            name: "Composite Reflectivity".to_owned(),
            lowest_band: 5.0f32.to_bits(),
        },
        rate: ProductRow {
            code: "mrms_precip_rate".to_owned(),
            name: "Precipitation Rate".to_owned(),
            lowest_band: 0.1f32.to_bits(),
        },
    }
}

fn handler() -> MrmsHandler {
    MrmsHandler::new(products(), BUDGET, DESKTOP_GRID_HISTORY_ENTRIES)
}

fn bits(values: &[f32]) -> Vec<u32> {
    values.iter().map(|v| v.to_bits()).collect()
}

fn shaped(product: MrmsProduct, n: usize, values: GridValues) -> Arc<FieldGrid> {
    let ni = n.max(2) as u32;
    let code = products().row(product).code.clone();
    Arc::new(FieldGrid {
        field: code,
        ni,
        nj: 1,
        coords: GridCoords::Regular(RegularGrid {
            lat0: 36.0f64.to_bits(),
            lon0: (-99.0f64).to_bits(),
            dlat: (-0.01f64).to_bits(),
            dlon: 0.01f64.to_bits(),
            ni,
            nj: 1,
            scan_mode: 0,
        }),
        values,
    })
}

/// 2026-08-21 00:00:39.
const OPEN: i64 = 1_787_270_439;

fn grid_of(product: MrmsProduct, values: &[f32]) -> MrmsGrid {
    let bits = bits(values);
    let (visible_points, value_range) = summarize(&bits, products().row(product).lowest_band);
    MrmsGrid {
        product,
        grid: shaped(product, bits.len(), GridValues::F32(bits)),
        valid: Instant::at(OPEN),
        visible_points,
        value_range,
    }
}

/// A mosaic of `n` wide values, all drawable, which costs `4n` bytes.
fn sized(product: MrmsProduct, n: usize) -> Arc<MrmsGrid> {
    Arc::new(grid_of(product, &vec![45.0; n]))
}

fn bare() -> Pane<MrmsPaneState> {
    Pane::bare()
}

fn state(product: MrmsProduct) -> MrmsPaneState {
    MrmsPaneState { enabled: true, selected_product: product }
}

fn handler_with(product: MrmsProduct, values: &[f32]) -> MrmsHandler {
    let mut h = handler();
    h.defaults = state(product);
    h.apply_fetch_result(Ok(grid_of(product, values)), &bare(), 0);
    h
}

fn with_frame_budget(budget: usize) -> MrmsHandler {
    let mut h = handler();
    h.defaults = state(COMPOSITE);
    h.frame_grids = MrmsFrameCache::new(budget);
    h
}

fn byte_budget_cache(budget: usize) -> MrmsGridCache {
    MrmsGridCache::new(budget, DESKTOP_GRID_HISTORY_ENTRIES)
}

#[test]
fn the_budget_is_spent_in_bytes_and_a_grid_that_fits_is_kept() {
    let mut cache = byte_budget_cache(400);
    let a = sized(COMPOSITE, 100);
    assert_eq!(a.resident_bytes(), 400);
    cache.insert(COMPOSITE, a, &vec![]);
    assert_eq!(cache.len(), 1);
    assert_eq!(cache.resident_bytes(), 400);
}

#[test]
fn a_grid_that_does_not_fit_evicts_the_least_recently_used_one() {
    let mut cache = byte_budget_cache(400);
    cache.insert(COMPOSITE, sized(COMPOSITE, 100), &vec![]);
    let gone = cache.insert(RATE, sized(RATE, 100), &vec![]);
    assert_eq!(gone.len(), 1);
    assert_eq!(cache.len(), 1);
    assert!(cache.contains(RATE));
    assert!(!cache.contains(COMPOSITE));
    assert!(cache.resident_bytes() <= 400);
}

#[test]
fn a_wider_budget_holds_both_grids() {
    let mut cache = byte_budget_cache(800);
    cache.insert(COMPOSITE, sized(COMPOSITE, 100), &vec![]);
    cache.insert(RATE, sized(RATE, 100), &vec![]);
    assert_eq!(cache.len(), 2);
    assert_eq!(cache.resident_bytes(), 800);
}

#[test]
fn the_cache_never_evicts_a_pinned_product() {
    let mut cache = byte_budget_cache(400);
    cache.insert(COMPOSITE, sized(COMPOSITE, 100), &vec![]);
    cache.insert(RATE, sized(RATE, 100), &vec![COMPOSITE]);
    assert!(cache.contains(COMPOSITE));
    assert!(cache.contains(RATE));
    assert!(cache.resident_bytes() > 400);
}

#[test]
fn a_refetch_of_a_resident_product_replaces_its_own_key() {
    let mut cache = byte_budget_cache(400);
    cache.insert(COMPOSITE, sized(COMPOSITE, 100), &vec![]);
    cache.insert(COMPOSITE, sized(COMPOSITE, 100), &vec![]);
    assert_eq!(cache.len(), 1);
    assert_eq!(cache.resident_bytes(), 400);
}

const WIDE: usize = 8_000;

fn wide_cache(history: usize) -> MrmsGridCache {
    MrmsGridCache::new(WIDE, history)
}

#[test]
fn a_single_pane_that_cycles_products_keeps_what_the_arm_history_says() {
    let (a, b) = (COMPOSITE, RATE);
    let mut wasm = wide_cache(WASM_GRID_HISTORY_ENTRIES);
    wasm.insert(a, sized(a, 100), &vec![a]);
    wasm.insert(b, sized(b, 100), &vec![b]);
    assert!(wasm.contains(b));
    assert!(!wasm.contains(a));
    assert_eq!(wasm.len(), 1);

    let mut desktop = wide_cache(DESKTOP_GRID_HISTORY_ENTRIES);
    desktop.insert(a, sized(a, 100), &vec![a]);
    desktop.insert(b, sized(b, 100), &vec![b]);
    assert_eq!(desktop.len(), 2);
    assert!(desktop.resident_bytes() <= WIDE);
}

#[test]
fn two_panes_on_two_products_keep_both_under_a_zero_history() {
    let (a, b) = (COMPOSITE, RATE);
    let mut cache = wide_cache(0);
    cache.insert(a, sized(a, 100), &vec![a, b]);
    cache.insert(b, sized(b, 100), &vec![a, b]);
    assert_eq!(cache.len(), 2);
    assert!(cache.contains(a) && cache.contains(b));
}

#[test]
fn lowering_the_history_evicts_the_excess_at_once_and_raising_evicts_nothing() {
    let (a, b) = (COMPOSITE, RATE);
    let mut cache = wide_cache(DESKTOP_GRID_HISTORY_ENTRIES);
    cache.insert(a, sized(a, 100), &vec![b]);
    cache.insert(b, sized(b, 100), &vec![b]);
    assert_eq!(cache.len(), 2);

    cache.set_history(0, &vec![b]);
    assert_eq!(cache.history(), 0);
    assert_eq!(cache.len(), 1);
    assert!(cache.contains(b));
    assert!(!cache.contains(a));

    cache.set_history(DESKTOP_GRID_HISTORY_ENTRIES, &vec![b]);
    assert_eq!(cache.history(), DESKTOP_GRID_HISTORY_ENTRIES);
    assert_eq!(cache.len(), 1);
}

#[test]
fn the_pin_rule_holds_against_both_budgets_at_once() {
    let (a, b) = (COMPOSITE, RATE);
    let mut cache = MrmsGridCache::new(400, 0);
    cache.insert(a, sized(a, 100), &vec![a, b]);
    cache.insert(b, sized(b, 100), &vec![a, b]);
    assert_eq!(cache.len(), 2);
    assert!(cache.contains(a) && cache.contains(b));
    assert!(cache.resident_bytes() > 400);
}

#[test]
fn an_unpinned_arrival_is_held_for_its_own_insert_and_counted_on_the_next() {
    let (a, b) = (COMPOSITE, RATE);
    let mut cache = wide_cache(0);
    cache.insert(a, sized(a, 100), &vec![b]);
    assert!(cache.contains(a));
    cache.insert(b, sized(b, 100), &vec![b]);
    assert!(!cache.contains(a));
    assert!(cache.contains(b));
}

#[test]
fn the_shipped_handler_opens_at_the_arm_history() {
    for history in [DESKTOP_GRID_HISTORY_ENTRIES, WASM_GRID_HISTORY_ENTRIES] {
        let h = MrmsHandler::new(products(), BUDGET, history);
        assert_eq!(h.cached_grids.history(), history);
    }
}

#[test]
fn the_shipped_budget_admits_a_full_conus_grid() {
    assert!(handler().cached_grids.budget() >= CONUS_GRID_BYTES);
}

fn rctx() -> RasterizeContext {
    let clock = Instant::at(OPEN + 600);
    RasterizeContext {
        device_scale: 1.0f32.to_bits(),
        is_dark: false,
        zoom: 7.0f64.to_bits(),
        now: clock,
        as_of: clock,
        frame: None,
    }
}

fn job_grid(job: &GriddedInput) -> &Arc<FieldGrid> {
    match job {
        GriddedInput::Resident(grid) => grid,
        other => panic!("a mosaic is described as a resident grid, not {other:?}"),
    }
}

#[test]
fn prepare_job_describes_the_resident_grid_without_copying_it() {
    let mut h = handler_with(COMPOSITE, &[45.0; 8]);
    let resident = h.cached_grids.get(COMPOSITE).expect("seeded");
    let job = h.prepare_job(&rctx(), &bare()).expect("a resident product describes a job");
    assert!(Arc::ptr_eq(job_grid(&job), &resident.grid));
}

#[test]
fn a_pane_with_no_resident_mosaic_describes_no_job() {
    let mut h = handler();
    assert!(h.prepare_job(&rctx(), &bare()).is_none());
}

#[test]
fn the_current_field_is_this_panes_own_product_as_the_registry_spells_it() {
    let h = handler_with(COMPOSITE, &[45.0; 4]);
    let pane = Pane::of(state(RATE));
    assert_eq!(h.current_field(&pane), products().rate.code);
    assert_eq!(h.products.parse(h.current_field(&pane)), Some(RATE));
}

#[test]
fn the_layer_declares_the_weight_and_the_cadence_it_was_registered_with() {
    let h = handler();
    assert_eq!(h.id(), LayerId::Mrms);
    assert_eq!(h.draw_order_weight(), 15);
    assert_eq!(h.auto_poll_interval(), Some(120));
    assert_eq!(h.time_axis(), TimeAxis::FrameSeries { step: 120, extends_future: false });
    assert_eq!(h.min_loop_frames(), 0);
    assert_eq!(h.frame_horizon(), 0);
    assert_eq!(h.render_mode(), RenderMode::Texture);
    assert_eq!(h.job_codec().map(|row| row.label()), Some("overlay/model"));
    assert_eq!(h.job_codec(), Some(JobRow::Gridded));
    assert_eq!(h.display_name(), "MRMS Mosaic");
    assert!(!h.theme_sensitive());
}

#[test]
fn every_pane_state_field_survives_a_save_and_a_reload() {
    for enabled in [true, false] {
        for product in MrmsProduct::all() {
            let saved = MrmsPaneState { enabled, selected_product: product };
            let json = serialize_pane_state(&products(), &saved);
            assert_eq!(deserialize_pane_state(&products(), &json, !enabled), saved);
        }
    }
}

#[test]
fn an_empty_saved_state_falls_back_to_the_panes_slot_flag() {
    let empty = serde_json::Value::Object(serde_json::Map::new());
    let restored = deserialize_pane_state(&products(), &empty, true);
    assert!(restored.enabled);
    assert_eq!(restored.selected_product, COMPOSITE);
}

/// A product this build does not know is the default one, and a value that is no
/// object holds nothing.
#[test]
fn a_saved_product_nobody_registers_is_the_default() {
    let mut map = serde_json::Map::new();
    map.insert("product".into(), serde_json::Value::String("mrms_from_the_future".into()));
    map.insert("enabled".into(), serde_json::Value::Bool(false));
    let restored = deserialize_pane_state(&products(), &serde_json::Value::Object(map), true);
    assert_eq!(restored, MrmsPaneState { enabled: false, selected_product: COMPOSITE });
    let restored = deserialize_pane_state(&products(), &serde_json::Value::Null, true);
    assert_eq!(restored, MrmsPaneState { enabled: true, selected_product: COMPOSITE });
}

#[test]
fn the_summary_excludes_missing_points_from_the_range() {
    let mut h = handler_with(COMPOSITE, &[f32::NAN, 12.0, f32::NAN, 48.0]);
    let grid = h.cached_grids.get(COMPOSITE).unwrap();
    assert_eq!(grid.value_range, Some((12.0f32.to_bits(), 48.0f32.to_bits())));
    assert_eq!(grid.visible_points, 2);
    assert_eq!(grid.blank_notice(), None);
}

/// The order of readings is the order of the numbers, across zero too.
#[test]
fn the_summary_orders_readings_as_numbers() {
    let values = bits(&[-3.5, 7.0, -20.25, 0.0, f32::NAN, 6.0]);
    let (visible, range) = summarize(&values, 5.0f32.to_bits());
    assert_eq!(visible, 2);
    assert_eq!(range, Some(((-20.25f32).to_bits(), 7.0f32.to_bits())));
    assert_eq!(summarize(&bits(&[f32::NAN, f32::NAN]), 5.0f32.to_bits()), (0, None));
    assert_eq!(summarize(&Vec::new(), 5.0f32.to_bits()), (0, None));
}

#[test]
fn a_mosaic_with_nothing_above_the_first_band_explains_itself() {
    let mut h = handler_with(COMPOSITE, &[1.0, 2.0, 3.0]);
    let notice = h
        .cached_grids
        .get(COMPOSITE)
        .unwrap()
        .blank_notice()
        .expect("a blank mosaic explains itself");
    assert!(notice.contains("lowest colour band"), "{notice}");
    assert!(h
        .controls(&bare(), 0)
        .iter()
        .any(|item| matches!(item, ControlItem::InfoText { text } if text == &notice)));
}

fn pick(code: &str) -> ControlUpdate {
    ControlUpdate { id: "product", value: ControlValue::Text(code.to_owned()) }
}

#[test]
fn switching_products_fetches_only_what_is_not_already_in_hand() {
    let mut h = handler_with(COMPOSITE, &[45.0; 4]);
    let before = h.state.data_generation;
    let effect = h.apply_control(&pick(&products().rate.code), &mut bare());
    assert!(matches!(effect, ControlEffect::Fetch));
    let effect = h.apply_control(&pick(&products().composite.code), &mut bare());
    assert!(matches!(effect, ControlEffect::Nothing));
    assert_ne!(h.state.data_generation, before);
}

#[test]
fn an_unknown_product_id_is_ignored() {
    let mut h = handler_with(COMPOSITE, &[45.0; 4]);
    let effect = h.apply_control(&pick("mrms_from_the_future"), &mut bare());
    assert!(matches!(effect, ControlEffect::Nothing));
    assert_eq!(h.defaults.selected_product, COMPOSITE);
}

#[test]
fn the_product_dropdown_offers_the_registered_field_ids() {
    let mut h = handler_with(COMPOSITE, &[45.0; 4]);
    let options: Vec<String> = h
        .controls(&bare(), 0)
        .into_iter()
        .find_map(|item| match item {
            ControlItem::Dropdown { id: "product", options, .. } => {
                Some(options.into_iter().map(|(v, _)| v).collect())
            }
            _ => None,
        })
        .expect("the product dropdown");
    let registered = vec![products().composite.code, products().rate.code];
    assert_eq!(options, registered);
}

fn toggle_label(items: Vec<ControlItem>) -> String {
    items
        .into_iter()
        .find_map(|item| match item {
            ControlItem::Toggle { label, .. } => Some(label),
            _ => None,
        })
        .expect("a toggle")
}

#[test]
fn the_toggle_label_carries_the_mosaics_valid_time() {
    let mut h = handler_with(COMPOSITE, &[45.0; 4]);
    assert_eq!(toggle_label(h.controls(&bare(), 0)), "MRMS Mosaic (00:00z)");
    assert_eq!(toggle_label(handler().controls(&bare(), 0)), "MRMS Mosaic");
}

#[test]
fn two_panes_on_two_products_do_not_share_a_content_signature() {
    let h = handler_with(COMPOSITE, &[45.0; 4]);
    let a = Pane::of(state(COMPOSITE));
    let b = Pane::of(state(RATE));
    assert_ne!(h.content_signature(&a), h.content_signature(&b));
}

#[test]
fn an_arrival_pins_every_panes_product_not_just_its_own() {
    let h = handler_with(COMPOSITE, &[45.0; 4]);
    let pinned = h.pinned_products(&Pane::across(vec![state(COMPOSITE), state(RATE)]));
    assert!(pinned.contains(&COMPOSITE));
    assert!(pinned.contains(&RATE));
    assert_eq!(pinned.len(), 2);
}

/// Stamps are neither on the clock's minutes nor two minutes apart.
fn t(k: i64) -> Instant {
    Instant::at(OPEN + 121 * k)
}

fn stamp(k: i64) -> FrameStamp {
    FrameStamp { valid: t(k), run: None }
}

fn granule_at(product: MrmsProduct, k: i64, n: usize) -> MrmsGrid {
    let mut g = grid_of(product, &vec![k as f32; n]);
    g.valid = t(k);
    g
}

fn file_listing(h: &mut MrmsHandler, product: MrmsProduct, count: i64, complete: bool) {
    let range = (t(0), t(count - 1));
    let keys = (0..count).map(|k| (t(k), format!("{product:?}/{}", t(k).secs))).collect();
    let (listing, asked) = listing_of(product, range, keys, complete);
    assert_eq!(listing.frames.len(), count as usize);
    assert_eq!(listing.complete, complete);
    h.apply_frame_listing(&asked);
}

fn file_frame(h: &mut MrmsHandler, product: MrmsProduct, k: i64, n: usize) {
    h.apply_frame(MrmsFrameFetch {
        product,
        valid: t(k),
        grid: Some(granule_at(product, k, n)),
    });
}

fn frame_ctx(k: i64) -> RasterizeContext {
    RasterizeContext { frame: Some(stamp(k)), ..rctx() }
}

fn job_values(job: &GriddedInput) -> Vec<f32> {
    match &job_grid(job).values {
        GridValues::F32(bits) => bits.iter().map(|b| f32::from_bits(*b)).collect(),
        GridValues::Scaled(_) => panic!("the fixtures are wide"),
    }
}

#[test]
fn a_named_frame_is_rasterized_from_that_frames_granule_and_not_the_panes() {
    let mut h = handler_with(COMPOSITE, &[77.0; 8]);
    file_listing(&mut h, COMPOSITE, 13, true);
    h.frame_grids = MrmsFrameCache::new(4 * 8 * 4);
    file_frame(&mut h, COMPOSITE, 3, 8);
    file_frame(&mut h, COMPOSITE, 9, 8);

    let third = job_values(&h.prepare_job(&frame_ctx(3), &bare()).expect("staged"));
    let ninth = job_values(&h.prepare_job(&frame_ctx(9), &bare()).expect("staged"));
    assert_eq!(third, vec![3.0f32; 8]);
    assert_eq!(ninth, vec![9.0f32; 8]);
    assert_ne!(third, ninth);
    let live = job_values(&h.prepare_job(&rctx(), &bare()).expect("the live picture"));
    assert_eq!(live, vec![77.0f32; 8]);
    assert!(h.prepare_job(&frame_ctx(5), &bare()).is_none());
}

#[test]
fn the_layer_stages_one_granule_however_many_frames_the_loop_holds() {
    let mut h = with_frame_budget(4 * 8);
    file_listing(&mut h, COMPOSITE, 30, true);
    assert_eq!(h.list_frames(&bare(), (t(0), t(29))).frames.len(), 30);
    for k in 0..30 {
        file_frame(&mut h, COMPOSITE, k, 8);
        assert_eq!(h.frame_grids.len(), 1);
        assert_eq!(h.frames_resident(&bare()), vec![stamp(k)]);
    }
    assert_eq!(FRAME_STAGING_BYTES, CONUS_GRID_BYTES);
    assert_eq!(30 * CONUS_GRID_BYTES, 1_470_000_000);
}

#[test]
fn a_granule_evicted_after_its_job_is_described_still_paints_that_frame() {
    let mut h = with_frame_budget(4 * 8);
    file_listing(&mut h, COMPOSITE, 13, true);
    let mut described: Vec<GriddedInput> = Vec::new();
    for k in 0..13 {
        file_frame(&mut h, COMPOSITE, k, 8);
        described.push(h.prepare_job(&frame_ctx(k), &bare()).expect("just landed"));
    }
    let pictures: Vec<Vec<f32>> = described.iter().map(job_values).collect();
    assert_eq!(pictures, (0..13).map(|k| vec![k as f32; 8]).collect::<Vec<_>>());
    assert_eq!(h.frame_grids.len(), 1);
}

#[test]
fn a_frame_fetch_is_declined_where_there_is_no_key_and_where_the_granule_is_held() {
    let mut h = with_frame_budget(4 * 8);
    assert!(h.fetch_frame(&bare(), &stamp(3)).is_none());
    file_listing(&mut h, COMPOSITE, 13, true);
    assert_eq!(
        h.fetch_frame(&bare(), &stamp(3)),
        Some(format!("ReflectivityComposite/{}", t(3).secs)),
    );
    assert!(h.fetch_frame(&bare(), &stamp(99)).is_none());
    file_frame(&mut h, COMPOSITE, 3, 8);
    assert!(h.fetch_frame(&bare(), &stamp(3)).is_none());
}

#[test]
fn an_incomplete_listing_never_settles_the_window() {
    let mut h = handler();
    h.defaults = state(COMPOSITE);
    file_listing(&mut h, COMPOSITE, 13, false);
    let listed = h.list_frames(&bare(), (t(0), t(12)));
    assert_eq!(listed.frames.len(), 13);
    assert!(!listed.complete);
    file_listing(&mut h, COMPOSITE, 13, true);
    assert!(h.list_frames(&bare(), (t(0), t(12))).complete);
    assert!(!h.list_frames(&bare(), (t(0), t(40))).complete);
}

#[test]
fn one_products_frames_are_not_offered_to_a_pane_on_another() {
    let mut h = with_frame_budget(4 * 8 * 4);
    file_listing(&mut h, COMPOSITE, 13, true);
    file_listing(&mut h, RATE, 13, true);
    file_frame(&mut h, COMPOSITE, 3, 8);
    file_frame(&mut h, RATE, 4, 8);
    assert_eq!(h.frames_resident(&Pane::of(state(COMPOSITE))), vec![stamp(3)]);
    assert_eq!(h.frames_resident(&Pane::of(state(RATE))), vec![stamp(4)]);
    assert_eq!(h.frame_grids.len(), 2);
}

#[test]
fn retain_frames_drops_this_products_unkept_granules_and_no_others() {
    let mut h = with_frame_budget(4 * 8 * 8);
    file_listing(&mut h, COMPOSITE, 13, true);
    for k in 0..3 {
        file_frame(&mut h, COMPOSITE, k, 8);
    }
    file_frame(&mut h, RATE, 7, 8);
    assert_eq!(h.frame_grids.len(), 4);
    h.retain_frames(&bare(), &vec![stamp(1)]);
    assert_eq!(h.frames_resident(&bare()), vec![stamp(1)]);
    assert_eq!(h.frame_grids.len(), 2);
}

#[test]
fn latest_at_answers_the_frame_series_rule() {
    let mut h = handler();
    h.defaults = state(COMPOSITE);
    file_listing(&mut h, COMPOSITE, 30, true);
    assert_eq!(h.latest_at(&bare(), Instant::at(t(0).secs - 1)), None);
    assert_eq!(h.latest_at(&bare(), Instant::at(t(29).secs + 3600)), Some(stamp(29)));
    for k in 0..30 {
        assert_eq!(h.latest_at(&bare(), t(k)), Some(stamp(k)));
    }
    assert_eq!(h.latest_at(&bare(), Instant::at(t(7).secs + 1)), Some(stamp(7)));
}

#[test]
fn a_listing_carries_the_mosaic_the_window_opened_after() {
    let mut h = handler();
    h.defaults = state(COMPOSITE);
    file_listing(&mut h, COMPOSITE, 30, true);
    let valid = |range| {
        h.list_frames(&bare(), range).frames.into_iter().map(|f| f.valid).collect::<Vec<_>>()
    };
    let after = |k: i64| Instant::at(t(k).secs + 1);
    assert_eq!(valid((after(3), t(5))), vec![t(3), t(4), t(5)]);
    assert_eq!(valid((t(3), t(5))), vec![t(3), t(4), t(5)]);
    assert_eq!(valid((after(28), t(29))), vec![t(28), t(29)]);
    assert_eq!(valid((t(3), after(5))), vec![t(3), t(4), t(5)]);
}

/// A mosaic of the real shape, stored in codes, whose buffer can be used again.
fn mosaic_grid(product: MrmsProduct, valid: Instant) -> MrmsGrid {
    let values = GridValues::Scaled(ScaledU16 {
        codes: vec![0; STAGING_POINTS],
        ref_val: 45.0f32.to_bits(),
        two_pow: 0.0f32.to_bits(),
        dig_factor: 1.0f32.to_bits(),
        nan_codes: Vec::new(),
    });
    MrmsGrid {
        product,
        grid: shaped(product, STAGING_POINTS, values),
        valid,
        visible_points: STAGING_POINTS,
        value_range: Some((45.0f32.to_bits(), 45.0f32.to_bits())),
    }
}

const NONE_COUNTED: StagingTotals = StagingTotals { allocated: 0, reused: 0, declined: 0 };

fn stage(h: &mut MrmsHandler, valid: Instant) {
    h.apply_frame(MrmsFrameFetch {
        product: COMPOSITE,
        valid,
        grid: Some(mosaic_grid(COMPOSITE, valid)),
    });
}

#[test]
fn an_evicted_frame_granule_is_offered_to_the_staging_pool() {
    let mut h = with_frame_budget(FRAME_STAGING_BYTES);
    stage(&mut h, t(0));
    assert_eq!(h.pool.totals(), NONE_COUNTED);
    stage(&mut h, t(2));
    assert_eq!(h.frame_grids.len(), 1);
    let staged = h.pool.take(STAGING_POINTS);
    assert_eq!(h.pool.totals(), StagingTotals { allocated: 0, reused: 1, declined: 0 });
    assert_eq!(staged.capacity(), STAGING_POINTS);
    assert!(staged.is_empty());
}

#[test]
fn a_retained_frame_set_offers_the_dropped_granules_to_the_staging_pool() {
    let mut h = with_frame_budget(FRAME_STAGING_BYTES);
    stage(&mut h, t(0));
    h.retain_frames(&bare(), &vec![]);
    assert_eq!(h.frame_grids.len(), 0);
    assert_eq!(h.pool.totals(), NONE_COUNTED);
    assert_eq!(h.pool.take(STAGING_POINTS).capacity(), STAGING_POINTS);
    assert_eq!(h.pool.totals().reused, 1);
}

#[test]
fn the_live_mosaic_a_poll_replaces_is_offered_to_the_staging_pool() {
    let mut h = handler();
    h.defaults = state(COMPOSITE);
    h.apply_fetch_result(Ok(mosaic_grid(COMPOSITE, t(0))), &bare(), 0);
    assert_eq!(h.pool.totals(), NONE_COUNTED);
    h.apply_fetch_result(Ok(mosaic_grid(COMPOSITE, Instant::at(OPEN + 120))), &bare(), 120);
    assert_eq!(h.pool.totals(), NONE_COUNTED);
    assert_eq!(h.pool.take(STAGING_POINTS).capacity(), STAGING_POINTS);
    assert_eq!(h.pool.totals().reused, 1);
}

/// A mosaic that a painter still holds cannot be taken apart, and is declined.
#[test]
fn a_mosaic_still_being_painted_is_not_taken_apart() {
    let mut h = with_frame_budget(FRAME_STAGING_BYTES);
    stage(&mut h, t(0));
    let job = h.prepare_job(&RasterizeContext { frame: Some(stamp(0)), ..rctx() }, &bare());
    stage(&mut h, t(2));
    assert_eq!(h.pool.totals().declined, 1);
    assert!(job.is_some());
}

#[test]
fn the_registry_sums_what_each_handler_is_holding() {
    let mut h = handler();
    h.defaults = state(COMPOSITE);
    assert_eq!(h.resident_source_bytes(), 0);
    h.apply_fetch_result(Ok(grid_of(COMPOSITE, &[45.0; 100])), &bare(), 0);
    assert_eq!(h.resident_source_bytes(), 400);
    let total: u64 = vec![h, handler()].iter().map(|each| each.resident_source_bytes()).sum();
    assert_eq!(total, 400);
}

/// A failed poll says so and keeps the picture; letting the data go empties every
/// store and says that there was something.
#[test]
fn a_failed_poll_keeps_the_picture_and_a_release_drops_it() {
    let mut h = handler_with(COMPOSITE, &[45.0; 4]);
    h.apply_fetch_result(Err(FetchError::transient("HTTP 500")), &bare(), 5);
    assert!(h.has_data(&bare()));
    assert_eq!(h.state.retry.failures(), 1);
    assert!(h.controls(&bare(), 0).iter().any(
        |item| matches!(item, ControlItem::InfoText { text } if text.contains("HTTP 500")),
    ));
    assert!(h.release_data());
    assert!(!h.has_data(&bare()));
    assert_eq!(h.resident_source_bytes(), 0);
    assert!(!h.release_data());
}

/// The mosaic that last arrived is counted once where the cache holds that very
/// allocation, and on its own where it only holds an equal.
#[test]
fn a_carried_mosaic_is_counted_by_its_allocation() {
    let mut h = handler();
    h.defaults = state(COMPOSITE);
    h.apply_fetch_result(Ok(grid_of(COMPOSITE, &[45.0; 100])), &bare(), 0);
    assert_eq!(h.resident_source_bytes(), 400);
    assert_eq!((h.resident_bytes(true), h.resident_bytes(false)), (400, 800));
    h.state.data = Some(Arc::new(grid_of(COMPOSITE, &[45.0; 100])));
    assert_eq!(h.resident_source_bytes(), 800);
    assert!(h.cached_grids.release_all());
    assert_eq!(h.resident_source_bytes(), 400);
}

/// A field that could not be had, and one that is not stored in codes, are
/// declined; a full one in codes is kept once.
#[test]
fn a_reclaimed_field_is_kept_or_declined() {
    let mut pool = StagingPool::new();
    pool.reclaim(None);
    let wide = grid_of(COMPOSITE, &[45.0; 4]);
    pool.reclaim(Arc::into_inner(wide.grid));
    assert_eq!(pool.totals(), StagingTotals { allocated: 0, reused: 0, declined: 2 });
    pool.reclaim(Arc::into_inner(mosaic_grid(COMPOSITE, t(0)).grid));
    assert_eq!(pool.totals().declined, 2);
    pool.reclaim(Arc::into_inner(mosaic_grid(COMPOSITE, t(0)).grid));
    assert_eq!(pool.totals().declined, 3);
    assert_eq!(pool.take(STAGING_POINTS).capacity(), STAGING_POINTS);
}
