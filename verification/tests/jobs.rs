//! The job rows' bytes.
use squallar_overlays::instant::Instant;
use squallar_overlays::jobs::alerts::{id_set, AlertPaint, AlertsInput, AlertsJob};
use squallar_overlays::jobs::coords::{
    GridCoords, LambertGrid, RegularGrid, GRID_COORDS_EXPLICIT, GRID_COORDS_LAMBERT,
    GRID_COORDS_REGULAR, GRID_COORDS_SEPARABLE,
};
use squallar_overlays::jobs::coverage::{CoverageInput, CoverageJob, CoverageSite};
use squallar_overlays::jobs::discussions::{DiscussionPaint, DiscussionsInput, DiscussionsJob};
use squallar_overlays::jobs::glm::{FlashPaint, GlmJob, GlmStrikesInput};
use squallar_overlays::jobs::gridded::{
    encode_f32s, f32s_from_bytes, FieldGrid, GridValues, GridWindow, GriddedInput, GriddedJob,
    ScaledU16, WireValues,
};
use squallar_overlays::jobs::metar::{
    CloudLayer, FlightCategory, MetarInput, MetarJob, MetarOb, Visibility, WindDir,
};
use squallar_overlays::jobs::outlooks::{OutlooksInput, OutlooksJob};
use squallar_overlays::jobs::reply::{
    decode_overlay_out, decode_raster_reply, encode_overlay_out, encode_raster_reply, AlphaMode,
    HitCellMap, HitCells, RasterizeOutput,
};
use squallar_overlays::jobs::reports::{ReportPaint, ReportsInput, ReportsJob};
use squallar_overlays::jobs::shapes::{
    AlertCategory, GeoBounds, HatchPattern, MdType, OverlayFeature, StormReportKind,
};
use squallar_overlays::jobs::{
    job_codecs, EncodeCtx, IndexWindow, JobCost, JobGeometry, JobRow,
};
use squallar_overlays::wire::{Reader, Wire};
use std::sync::Arc;

fn d(v: f64) -> u64 {
    v.to_bits()
}

fn s(v: f32) -> u32 {
    v.to_bits()
}

fn test_geometry() -> JobGeometry {
    JobGeometry {
        width: 64,
        height: 32,
        bounds: GeoBounds {
            min_lat: d(30.0),
            max_lat: d(40.0),
            min_lon: d(-100.0),
            max_lon: d(-90.0),
        },
        side_ceiling_px: 0,
    }
}

fn test_ctx() -> EncodeCtx {
    EncodeCtx {
        geometry: test_geometry(),
        reach: IndexWindow { i0: 0, i1: u32::MAX, j0: 0, j1: u32::MAX },
    }
}

fn registry() -> Vec<String> {
    vec!["vis".to_owned(), "sbcape".to_owned(), "mlcin".to_owned()]
}

fn feature_fixture() -> OverlayFeature {
    OverlayFeature {
        polygons: vec![vec![
            vec![(d(35.0), d(-97.5)), (d(36.25), d(-97.5)), (d(36.25), d(-96.0))],
            vec![(d(35.5), d(-97.0)), (d(35.75), d(-97.0)), (d(35.75), d(-96.75))],
        ]],
        fill_rgba: [255, 40, 0, 80],
        stroke_rgba: [255, 40, 0, 255],
        label: "Tornado Warning".to_owned(),
        label2: "until 22:00 UTC".to_owned(),
        hatch: HatchPattern::Unhatched,
        geo_bounds: Some(GeoBounds {
            min_lat: d(35.0),
            max_lat: d(36.25),
            min_lon: d(-97.5),
            max_lon: d(-96.0),
        }),
    }
}

fn hatched_boundless_feature_fixture() -> OverlayFeature {
    OverlayFeature {
        polygons: vec![vec![vec![(d(40.0), d(-90.0)), (d(41.0), d(-90.0)), (d(41.0), d(-89.0))]]],
        fill_rgba: [0, 0, 0, 0],
        stroke_rgba: [128, 0, 128, 255],
        label: "SIG".to_owned(),
        label2: String::new(),
        hatch: HatchPattern::Cig3,
        geo_bounds: None,
    }
}

fn ts(secs: i64, nanos: u32) -> Instant {
    Instant { secs, nanos }
}

#[test]
fn the_registry_is_the_seven_rows_in_dispatch_order() {
    let labels: Vec<&str> = job_codecs().iter().map(|row| row.label()).collect();
    assert_eq!(
        labels,
        [
            "overlay/coverage",
            "overlay/alerts",
            "overlay/outlooks",
            "overlay/discussions",
            "overlay/reports",
            "overlay/glm",
            "overlay/model",
            "overlay/metar",
        ],
    );
    for row in job_codecs() {
        assert_eq!(row.cost(), JobCost::Raster);
        assert_eq!(JobRow::named(row.label()), Some(row));
    }
    assert_eq!(JobRow::named("overlay/sites"), None);
}

#[test]
fn the_coverage_row_round_trips() {
    let input = CoverageInput {
        sites: vec![
            CoverageSite { lat: d(35.333), lon: d(-97.278) },
            CoverageSite { lat: d(34.362), lon: d(-98.976) },
        ],
        device_scale: s(2.0),
    };
    let mut bytes = Vec::new();
    CoverageJob::encode(&input, &test_ctx(), &mut bytes);
    let mut r = Reader::new(&bytes);
    let (back, geo) = CoverageJob::decode(&mut r, test_geometry()).expect("its own bytes");
    assert_eq!(format!("{back:?}"), format!("{input:?}"));
    assert_eq!(geo, test_geometry());
    assert!(r.at_end());
}

fn alerts_fixture(hidden: &[&str]) -> AlertsInput {
    AlertsInput {
        alerts: vec![
            AlertPaint {
                id: "urn:oid:2.49.0.1.840.0001".to_owned(),
                category: AlertCategory::Warning,
                features: Arc::new(vec![feature_fixture()]),
            },
            AlertPaint {
                id: "urn:oid:2.49.0.1.840.0002".to_owned(),
                category: AlertCategory::Other,
                features: Arc::new(vec![hatched_boundless_feature_fixture()]),
            },
        ],
        enabled_categories: vec![AlertCategory::Warning, AlertCategory::Watch],
        hidden_ids: id_set(&hidden.iter().map(|id| (*id).to_owned()).collect()),
        device_scale: s(1.0),
    }
}

#[test]
fn the_alerts_row_round_trips() {
    let input = alerts_fixture(&["urn:oid:2.49.0.1.840.0002"]);
    let mut bytes = Vec::new();
    AlertsJob::encode(&input, &test_ctx(), &mut bytes);
    let mut r = Reader::new(&bytes);
    let (back, geo) = AlertsJob::decode(&mut r, test_geometry()).expect("its own bytes");
    assert_eq!(format!("{back:?}"), format!("{input:?}"));
    assert_eq!(geo, test_geometry());
    assert!(r.at_end());
}

/// One set of hidden ids has one byte string, however it was gathered.
#[test]
fn hidden_ids_encode_alike_in_any_order() {
    let mut a = Vec::new();
    AlertsJob::encode(&alerts_fixture(&["x", "a", "m", "a"]), &test_ctx(), &mut a);
    let mut b = Vec::new();
    AlertsJob::encode(&alerts_fixture(&["m", "x", "a"]), &test_ctx(), &mut b);
    assert_eq!(a, b);
}

#[test]
fn the_outlooks_row_round_trips() {
    let input = OutlooksInput {
        features: vec![Arc::new(feature_fixture()), Arc::new(hatched_boundless_feature_fixture())],
        hatch_color: [10, 20, 30, 40],
        device_scale: s(1.5),
    };
    let mut bytes = Vec::new();
    OutlooksJob::encode(&input, &test_ctx(), &mut bytes);
    let mut r = Reader::new(&bytes);
    let (back, geo) = OutlooksJob::decode(&mut r, test_geometry()).expect("its own bytes");
    assert_eq!(format!("{back:?}"), format!("{input:?}"));
    assert_eq!(geo, test_geometry());
    assert!(r.at_end());
}

#[test]
fn the_discussions_row_round_trips() {
    let input = DiscussionsInput {
        discussions: vec![
            DiscussionPaint {
                md_type: MdType::Convective,
                polygon: vec![vec![(d(33.0), d(-98.0)), (d(34.0), d(-98.0)), (d(34.0), d(-97.0))]],
            },
            DiscussionPaint {
                md_type: MdType::WinterWeather,
                polygon: vec![vec![(d(41.0), d(-94.0)), (d(42.0), d(-94.0)), (d(42.0), d(-93.0))]],
            },
        ],
        device_scale: s(1.0),
    };
    let mut bytes = Vec::new();
    DiscussionsJob::encode(&input, &test_ctx(), &mut bytes);
    let mut r = Reader::new(&bytes);
    let (back, geo) = DiscussionsJob::decode(&mut r, test_geometry()).expect("its own bytes");
    assert_eq!(format!("{back:?}"), format!("{input:?}"));
    assert_eq!(geo, test_geometry());
    assert!(r.at_end());
}

fn reports_fixture() -> ReportsInput {
    ReportsInput {
        reports: vec![
            ReportPaint {
                kind: StormReportKind::Wind,
                lat: d(35.5),
                lon: d(-97.5),
                valid: Some(ts(1_755_216_000, 0)),
            },
            ReportPaint {
                kind: StormReportKind::Tornado,
                lat: d(35.25),
                lon: d(-97.75),
                valid: None,
            },
            ReportPaint {
                kind: StormReportKind::Hail,
                lat: d(36.0),
                lon: d(-96.5),
                valid: Some(ts(1_755_219_600, 0)),
            },
        ],
        zoom: d(6.0),
        is_dark: false,
        device_scale: s(1.0),
        as_of: ts(1_755_220_000, 0),
    }
}

#[test]
fn the_reports_row_round_trips_in_order() {
    let input = reports_fixture();
    let mut bytes = Vec::new();
    ReportsJob::encode(&input, &test_ctx(), &mut bytes);
    let mut r = Reader::new(&bytes);
    let (back, geo) = ReportsJob::decode(&mut r, test_geometry()).expect("its own bytes");
    assert_eq!(format!("{back:?}"), format!("{input:?}"));
    assert_eq!(geo, test_geometry());
    assert!(r.at_end());
}

/// Every prefix of a row's bytes is refused, and so is a flag or a kind that this
/// build does not have, or an instant off the calendar.
#[test]
fn a_short_or_foreign_row_is_refused() {
    let mut bytes = Vec::new();
    ReportsJob::encode(&reports_fixture(), &test_ctx(), &mut bytes);
    for cut in 0..bytes.len() {
        assert!(ReportsJob::decode(&mut Reader::new(&bytes[..cut]), test_geometry()).is_none());
    }
    let mut foreign = bytes.clone();
    foreign[8] = 2; // The theme flag, after eight bytes of zoom.
    assert!(ReportsJob::decode(&mut Reader::new(&foreign), test_geometry()).is_none());
    let mut off = bytes.clone();
    off[13..21].copy_from_slice(&i64::MAX.to_le_bytes()); // The depicted instant.
    assert!(ReportsJob::decode(&mut Reader::new(&off), test_geometry()).is_none());
    let mut odd = bytes.clone();
    odd[29] = 3; // The first row's kind, after a count of four bytes.
    assert!(ReportsJob::decode(&mut Reader::new(&odd), test_geometry()).is_none());
}

#[test]
fn the_glm_row_round_trips_in_order() {
    let input = GlmStrikesInput {
        flashes: vec![
            FlashPaint {
                lat: d(34.5),
                lon: d(-99.0),
                time: ts(1_755_216_000, 250_000_000),
                energy: Some(s(1.5)),
            },
            FlashPaint {
                lat: d(34.75),
                lon: d(-98.5),
                time: ts(1_755_215_400, 0),
                energy: None,
            },
        ],
        zoom: d(5.0),
        is_dark: true,
        time_window_secs: d(600.0),
        now: ts(1_755_216_030, 0),
        device_scale: s(2.0),
    };
    let mut bytes = Vec::new();
    GlmJob::encode(&input, &test_ctx(), &mut bytes);
    let mut r = Reader::new(&bytes);
    let (back, geo) = GlmJob::decode(&mut r, test_geometry()).expect("its own bytes");
    assert_eq!(format!("{back:?}"), format!("{input:?}"));
    assert_eq!(geo, test_geometry());
    assert!(r.at_end());
}

fn a_full_station() -> MetarOb {
    MetarOb {
        station_id: "KTLX".into(),
        name: "Oklahoma City".into(),
        lat: d(35.33),
        lon: d(-97.28),
        elev_m: Some(d(390.0)),
        temp_c: Some(d(21.5)),
        dewp_c: Some(d(-3.5)),
        wind_dir: Some(WindDir::Degrees(230)),
        wind_speed_kt: Some(17),
        wind_gust_kt: Some(25),
        visibility: Some(Visibility { miles: d(10.0), or_greater: true }),
        altimeter_hpa: Some(d(1013.2)),
        mslp_hpa: Some(d(1011.8)),
        flight_category: Some(FlightCategory::MVFR),
        raw_ob: "KTLX 121953Z 23017KT 10SM BKN025 22/M04 A2992".into(),
        clouds: vec![
            CloudLayer { cover: "BKN".into(), base_ft: Some(2500) },
            CloudLayer { cover: "CLR".into(), base_ft: None },
        ],
        wx_string: Some("RA".into()),
        obs_time: "2026-09-04T19:53:00Z".into(),
    }
}

#[test]
fn a_metar_job_round_trips_every_field_the_picture_reads() {
    let input = MetarInput {
        obs: vec![a_full_station()],
        zoom: d(8.5),
        is_dark: true,
        device_scale: s(2.0),
    };
    let mut out = Vec::new();
    MetarJob::encode(&input, &test_ctx(), &mut out);
    let mut r = Reader::new(&out);
    let (back, _) = MetarJob::decode(&mut r, test_geometry()).expect("its own bytes");
    assert!(r.rest().is_empty());
    assert_eq!(back.zoom, input.zoom);
    assert_eq!(back.is_dark, input.is_dark);
    assert_eq!(back.device_scale, input.device_scale);
    let (a, b) = (&input.obs[0], &back.obs[0]);
    assert_eq!(b.station_id, a.station_id);
    assert_eq!((b.lat, b.lon), (a.lat, a.lon));
    assert_eq!((b.temp_c, b.dewp_c, b.mslp_hpa), (a.temp_c, a.dewp_c, a.mslp_hpa));
    assert_eq!(b.wind_dir, a.wind_dir);
    assert_eq!(b.wind_speed_kt, a.wind_speed_kt);
    assert_eq!(format!("{:?}", b.visibility), format!("{:?}", a.visibility));
    assert_eq!(b.flight_category, a.flight_category);
    assert_eq!(b.wx_string, a.wx_string);
    assert_eq!(format!("{:?}", b.clouds), format!("{:?}", a.clouds));
}

/// What the picture does not read does not travel.
#[test]
fn what_a_station_model_does_not_draw_comes_back_empty() {
    let input = MetarInput {
        obs: vec![a_full_station()],
        zoom: d(8.5),
        is_dark: true,
        device_scale: s(2.0),
    };
    let mut stripped = a_full_station();
    stripped.name = String::new();
    stripped.elev_m = None;
    stripped.wind_gust_kt = None;
    stripped.altimeter_hpa = None;
    stripped.raw_ob = String::new();
    stripped.obs_time = String::new();
    let mut a = Vec::new();
    MetarJob::encode(&input, &test_ctx(), &mut a);
    let (back, _) = MetarJob::decode(&mut Reader::new(&a), test_geometry()).expect("its own bytes");
    assert_eq!(format!("{:?}", back.obs[0]), format!("{stripped:?}"));
    let mut b = Vec::new();
    let other = MetarInput { obs: vec![stripped], ..input };
    MetarJob::encode(&other, &test_ctx(), &mut b);
    assert_eq!(a, b);
}

fn regular(ni: u32, nj: u32, scan_mode: u8) -> GridCoords {
    GridCoords::Regular(RegularGrid {
        lat0: d(30.0),
        lon0: d(-100.0),
        dlat: d(0.5),
        dlon: d(0.5),
        ni,
        nj,
        scan_mode,
    })
}

fn written<T: Wire>(value: &T) -> Vec<u8> {
    let mut bytes = Vec::new();
    value.encode(&mut bytes);
    bytes
}

fn head(field: &str, ni: u32, nj: u32, coords: &GridCoords, win: [u32; 4], repr: &WireValues) -> Vec<u8> {
    let mut head = Vec::new();
    head.extend_from_slice(&(field.len() as u16).to_le_bytes());
    head.extend_from_slice(field.as_bytes());
    head.extend_from_slice(&ni.to_le_bytes());
    head.extend_from_slice(&nj.to_le_bytes());
    head.extend_from_slice(&written(coords));
    for edge in win {
        head.extend_from_slice(&edge.to_le_bytes());
    }
    head.extend_from_slice(&written(repr));
    head
}

fn window_of(input: GriddedInput) -> GridWindow {
    match input {
        GriddedInput::Window(window) => window,
        other => panic!("a lent grid decodes to the cut window, not {other:?}"),
    }
}

fn samples(values: &GridValues) -> Vec<u32> {
    (0..values.len()).map(|i| values.sample(i)).collect()
}

#[test]
fn a_lent_grid_is_cut_to_the_window_its_head_names() {
    let (ni, nj) = (6u32, 5u32);
    let values: Vec<f32> =
        (0..nj).flat_map(|j| (0..ni).map(move |i| (j * 10 + i) as f32)).collect();
    let head = head("vis", ni, nj, &regular(ni, nj, 0), [2, 5, 1, 4], &WireValues::F32);
    let band: Vec<u8> = values[6..24].iter().flat_map(|v| v.to_le_bytes()).collect();
    let mut r = Reader::new(&head);
    let (input, geo) = GriddedJob::decode_resident(&mut r, test_geometry(), &band, &registry())
        .expect("a band and the window naming part of it decode");
    assert_eq!(geo, test_geometry());
    let window = window_of(input);
    let want: Vec<u32> =
        [12.0f32, 13.0, 14.0, 22.0, 23.0, 24.0, 32.0, 33.0, 34.0].map(f32::to_bits).to_vec();
    assert_eq!(samples(&window.values), want);
    assert_eq!((window.win.i0, window.win.j0), (2, 1));
    // A band of another length is not this head's.
    let short = &band[..band.len() - 4];
    assert!(GriddedJob::decode_resident(&mut Reader::new(&head), test_geometry(), short, &registry())
        .is_none());
    // Nor is a field that this build cannot paint.
    assert!(GriddedJob::decode_resident(&mut Reader::new(&head), test_geometry(), &band, &vec![])
        .is_none());
}

fn narrow() -> ScaledU16 {
    ScaledU16 {
        codes: (0..30u16).map(|c| if c == 15 { 0 } else { c }).collect(),
        ref_val: s(-9990.0),
        two_pow: s(1.0),
        dig_factor: s(0.1),
        nan_codes: vec![0],
    }
}

#[test]
fn a_narrow_grid_crosses_the_wire_at_its_own_width_bit_for_bit() {
    let (ni, nj) = (6u32, 5u32);
    let scaled = narrow();
    let repr = WireValues::of(&GridValues::Scaled(narrow()));
    let head = head("vis", ni, nj, &regular(ni, nj, 0), [2, 5, 1, 4], &repr);
    let band: Vec<u8> = scaled.codes[6..24].iter().flat_map(|c| c.to_le_bytes()).collect();
    assert_eq!(band.len(), 3 * 6 * 2);
    let mut r = Reader::new(&head);
    let (input, _) = GriddedJob::decode_resident(&mut r, test_geometry(), &band, &registry())
        .expect("a narrow grid and the window naming part of it decode");
    let window = window_of(input);
    let far = match &window.values {
        GridValues::Scaled(far) => far,
        GridValues::F32(_) => panic!("the far copy must stay narrow"),
    };
    assert_eq!(
        (far.ref_val, far.two_pow, far.dig_factor, far.nan_codes.clone()),
        (scaled.ref_val, scaled.two_pow, scaled.dig_factor, vec![0]),
    );
    let reads = |grid: &ScaledU16, code: u16| -> u32 {
        if grid.nan_codes.contains(&code) {
            return f32::NAN.to_bits();
        }
        let reference = f32::from_bits(grid.ref_val);
        let scale = f32::from_bits(grid.two_pow);
        ((reference + f32::from(code) * scale) * f32::from_bits(grid.dig_factor)).to_bits()
    };
    let (mut readings, mut sentinels) = (0usize, 0usize);
    for j in 1..4usize {
        for i in 2..5usize {
            let there = far.codes[(j - 1) * 3 + (i - 2)];
            let here = scaled.codes[j * 6 + i];
            assert_eq!(reads(far, there), reads(&scaled, here), "point ({i}, {j})");
            if f32::from_bits(reads(&scaled, here)).is_finite() {
                readings += 1;
            } else {
                sentinels += 1;
            }
        }
    }
    assert!(readings > 0);
    assert!(sentinels > 0);
}

/// The lent rows and the envelope beside them read back as the copied message
/// does.
#[test]
fn lending_and_copying_read_back_alike() {
    let grid = Arc::new(FieldGrid {
        field: "vis".to_owned(),
        ni: 6,
        nj: 5,
        coords: regular(6, 5, 0),
        values: GridValues::Scaled(narrow()),
    });
    let ctx = EncodeCtx {
        geometry: test_geometry(),
        reach: IndexWindow { i0: 2, i1: 5, j0: 1, j1: 4 },
    };
    let input = GriddedInput::Resident(Arc::clone(&grid));
    let mut copied = Vec::new();
    GriddedJob::encode(&input, &ctx, &mut copied);
    let (a, _) = GriddedJob::decode(&mut Reader::new(&copied), test_geometry(), &registry())
        .expect("the copied message");
    let mut head = Vec::new();
    GriddedJob::encode_resident_head(&input, &ctx, &mut head);
    let rows = GriddedJob::resident_payload(&input, &ctx).expect("a held grid lends its rows");
    let rows = rows.to_vec();
    assert_eq!(rows.len(), 3 * 6 * 2);
    let mut r = Reader::new(&head);
    let (b, _) = GriddedJob::decode_resident(&mut r, test_geometry(), &rows, &registry())
        .expect("the lent message");
    assert_eq!(format!("{a:?}"), format!("{b:?}"));
    assert!(GriddedJob::resident_payload(&a, &ctx).is_none());
    // A build that does not register the field refuses both.
    let none = vec![];
    assert!(GriddedJob::decode(&mut Reader::new(&copied), test_geometry(), &none).is_none());
    assert!(GriddedJob::decode_resident(&mut Reader::new(&head), test_geometry(), &rows, &none)
        .is_none());
}

#[test]
fn the_bulk_f32_encoding_is_byte_identical_to_the_value_at_a_time_form() {
    let values = [
        0.0f32,
        -0.0,
        1.0,
        -1.0,
        f32::MIN,
        f32::MAX,
        f32::EPSILON,
        f32::INFINITY,
        f32::NEG_INFINITY,
        f32::NAN,
        f32::from_bits(0x0000_0001),
        f32::from_bits(0x7FC0_0001),
        35.7,
        -122.4,
    ];
    let bits: Vec<u32> = values.iter().map(|v| v.to_bits()).collect();
    for take in 0..=values.len() {
        let mut bulk = Vec::new();
        encode_f32s(&mut bulk, &bits[..take]);
        let reference: Vec<u8> = values[..take].iter().flat_map(|v| v.to_le_bytes()).collect();
        assert_eq!(bulk, reference, "at len {take}");
        assert_eq!(bulk.len(), take * 4);
    }
}

#[test]
fn the_bulk_encoded_values_decode_back_to_the_same_bits() {
    let values = [f32::NAN, -0.0f32, f32::INFINITY, 1.5, f32::from_bits(1)].map(f32::to_bits);
    let mut buf = Vec::new();
    encode_f32s(&mut buf, &values);
    let mut r = Reader::new(&buf);
    let back = f32s_from_bytes(r.take(values.len() * 4).expect("decodes"));
    assert_eq!(back, values.to_vec());
}

fn window(field: &str, coords: GridCoords, win: [u32; 4], values: &[f32]) -> GriddedInput {
    GriddedInput::Window(GridWindow {
        field: field.to_owned(),
        ni: 4,
        nj: 3,
        coords,
        win: IndexWindow { i0: win[0], i1: win[1], j0: win[2], j1: win[3] },
        values: GridValues::F32(values.iter().map(|v| v.to_bits()).collect()),
    })
}

fn explicit() -> GridCoords {
    GridCoords::Explicit {
        lats: vec![d(30.0), d(30.5), d(31.0), d(31.5)],
        lons: vec![d(-99.0), d(-98.5), d(-98.0), d(-97.5)],
    }
}

fn gridded_bytes(input: &GriddedInput) -> Vec<u8> {
    let mut bytes = Vec::new();
    GriddedJob::encode(input, &test_ctx(), &mut bytes);
    bytes
}

fn assert_gridded_round_trips(input: GriddedInput) {
    let bytes = gridded_bytes(&input);
    let mut r = Reader::new(&bytes);
    let (back, geo) =
        GriddedJob::decode(&mut r, test_geometry(), &registry()).expect("its own bytes");
    assert_eq!(format!("{back:?}"), format!("{input:?}"));
    assert_eq!(geo, test_geometry());
    assert!(r.at_end());
}

#[test]
fn a_gridded_job_reserves_exactly_the_payload_it_then_writes() {
    let wide = IndexWindow { i0: 1, i1: 3, j0: 0, j1: 2 };
    let narrow = IndexWindow { i0: 1, i1: 3, j0: 0, j1: 1 };
    assert_eq!((wide.area(), narrow.area()), (4, 2));
    let values = [100.0, 250.0, 500.0, 1250.0];
    let big = gridded_bytes(&window("sbcape", explicit(), [1, 3, 0, 2], &values)).len();
    let small = gridded_bytes(&window("sbcape", explicit(), [1, 3, 0, 1], &values[..2])).len();
    assert_eq!((big - small) as u64, (wide.area() - narrow.area()) * 4);
}

#[test]
fn a_gridded_job_encodes_to_the_wire_bytes_its_fields_name() {
    let lats = [30.0f64, 30.5, 31.0, 31.5];
    let lons = [-99.0f64, -98.5, -98.0, -97.5];
    let values = [100.0f32, 250.0, 500.0, 1250.0];
    let bytes = gridded_bytes(&window("sbcape", explicit(), [1, 3, 0, 2], &values));
    let code = "sbcape";
    let mut want: Vec<u8> = Vec::new();
    want.extend_from_slice(&(code.len() as u16).to_le_bytes());
    want.extend_from_slice(code.as_bytes());
    want.extend_from_slice(&4u32.to_le_bytes());
    want.extend_from_slice(&3u32.to_le_bytes());
    want.push(2);
    want.extend_from_slice(&(lats.len() as u32).to_le_bytes());
    for v in lats {
        want.extend_from_slice(&v.to_le_bytes());
    }
    want.extend_from_slice(&(lons.len() as u32).to_le_bytes());
    for v in lons {
        want.extend_from_slice(&v.to_le_bytes());
    }
    for edge in [1u32, 3, 0, 2] {
        want.extend_from_slice(&edge.to_le_bytes());
    }
    want.push(0);
    for v in values {
        want.extend_from_slice(&v.to_le_bytes());
    }
    assert_eq!(bytes, want);
}

#[test]
fn the_model_row_round_trips_an_explicit_grid_window() {
    let values = [100.0, 250.0, 500.0, 1250.0];
    assert_gridded_round_trips(window("sbcape", explicit(), [1, 3, 0, 2], &values));
}

#[test]
fn the_model_row_round_trips_lambert_constants() {
    let grid = LambertGrid {
        a: d(6371229.0),
        e: d(0.0),
        n: d(0.5),
        big_f: d(1.5),
        rho0: d(2.5),
        lon0: d(-1.75),
        x0: d(-2500.0),
        y0: d(1500.0),
        dx: d(3000.0),
        dy: d(2000.0),
        ni: 4,
        nj: 3,
        i_consecutive: true,
        alternating: false,
        wraps_longitude: false,
    };
    let values = [-25.0, -50.0, 0.0, -12.5, -75.0, -100.0, -6.25, -3.0];
    assert_gridded_round_trips(window("mlcin", GridCoords::Lambert(grid), [0, 4, 1, 3], &values));
}

fn mosaic_coords(scan_mode: u8) -> GridCoords {
    GridCoords::Regular(RegularGrid {
        lat0: d(54.995),
        lon0: d(-129.995),
        dlat: d(-0.01),
        dlon: d(0.01),
        ni: 4,
        nj: 3,
        scan_mode,
    })
}

#[test]
fn a_regular_grid_coords_round_trips() {
    for scan_mode in [0b0100_0000u8, 0b0110_0000, 0b0101_0000] {
        let values = [100.0, 250.0, 500.0, 1250.0];
        assert_gridded_round_trips(window("sbcape", mosaic_coords(scan_mode), [1, 3, 0, 2], &values));
    }
}

fn separable() -> GridCoords {
    GridCoords::Separable {
        lat_axis: vec![d(55.0), d(54.5), d(53.0)],
        lon_axis: vec![d(-129.995), d(-129.0), d(-128.5), d(-120.25)],
    }
}

#[test]
fn a_separable_grid_coords_round_trips() {
    let values = [100.0, 250.0, 500.0, 1250.0];
    assert_gridded_round_trips(window("sbcape", separable(), [1, 3, 0, 2], &values));
    let bytes = written(&separable());
    assert_eq!(bytes[0], GRID_COORDS_SEPARABLE);
    let back = GridCoords::decode(&mut Reader::new(&bytes)).expect("the arm this build writes");
    match back {
        GridCoords::Separable { lat_axis, lon_axis } => {
            assert_eq!(lat_axis, [55.0, 54.5, 53.0].map(d).to_vec());
            assert_eq!(lon_axis, [-129.995, -129.0, -128.5, -120.25].map(d).to_vec());
        }
        other => panic!("tag 4 must decode as two axes, not {other:?}"),
    }
}

#[test]
fn the_separable_tag_is_appended_and_displaces_no_older_tag() {
    assert_eq!(GRID_COORDS_LAMBERT, 1);
    assert_eq!(GRID_COORDS_EXPLICIT, 2);
    assert_eq!(GRID_COORDS_REGULAR, 3);
    assert_eq!(GRID_COORDS_SEPARABLE, 4);
    let explicit =
        GridCoords::Explicit { lats: vec![d(30.0), d(30.5)], lons: vec![d(-99.0), d(-98.5)] };
    let bytes = written(&explicit);
    assert_eq!(bytes[0], GRID_COORDS_EXPLICIT);
    let back = GridCoords::decode(&mut Reader::new(&bytes)).expect("an older tag");
    assert_eq!(format!("{back:?}"), format!("{explicit:?}"));
    assert!(GridCoords::decode(&mut Reader::new(&[5u8])).is_none());
}

#[test]
fn a_regular_grid_with_a_degenerate_shape_or_step_is_refused() {
    let honest = |scalars: [f64; 4], ni: u32, nj: u32| {
        let mut bytes = vec![GRID_COORDS_REGULAR];
        for v in scalars {
            bytes.extend_from_slice(&v.to_le_bytes());
        }
        bytes.extend_from_slice(&ni.to_le_bytes());
        bytes.extend_from_slice(&nj.to_le_bytes());
        bytes.push(0b0100_0000);
        bytes
    };
    let good = honest([54.995, -129.995, -0.01, 0.01], 4, 3);
    assert!(GridCoords::decode(&mut Reader::new(&good)).is_some());
    for (what, bytes) in [
        ("ni == 0", honest([54.995, -129.995, -0.01, 0.01], 0, 3)),
        ("nj == 0", honest([54.995, -129.995, -0.01, 0.01], 4, 0)),
        ("dlat == 0", honest([54.995, -129.995, 0.0, 0.01], 4, 3)),
        ("dlon == 0", honest([54.995, -129.995, -0.01, 0.0], 4, 3)),
        ("dlon is NaN", honest([54.995, -129.995, -0.01, f64::NAN], 4, 3)),
        ("lat0 is infinite", honest([f64::INFINITY, -129.995, -0.01, 0.01], 4, 3)),
        ("a short buffer", good[..good.len() - 1].to_vec()),
    ] {
        assert!(GridCoords::decode(&mut Reader::new(&bytes)).is_none(), "{what} was accepted");
    }
}

fn hits(width: u32, height: u32, rows: &[(u32, Vec<u32>)]) -> HitCells {
    let mut cells = HitCellMap::new();
    for (idx, ids) in rows {
        cells.insert(*idx, ids.clone());
    }
    HitCells { width, height, cells }
}

fn assert_reply_round_trips(rgba: Vec<u8>, hit_cells: Option<HitCells>) {
    let reply = RasterizeOutput { rgba, hit_cells, alpha: AlphaMode::Premultiplied, blank: None };
    let mut head = Vec::new();
    encode_raster_reply(&reply, &mut head);
    let back = decode_raster_reply(&head, &Vec::new()).expect("its own reply");
    assert_eq!(back.rgba, reply.rgba);
    assert_eq!(back.blank, None);
    assert_eq!(format!("{:?}", back.hit_cells), format!("{:?}", reply.hit_cells));
    assert_eq!(back.alpha, AlphaMode::Premultiplied);
    assert!(decode_raster_reply(&head, &vec![vec![0]]).is_none());
}

#[test]
fn the_reply_round_trips_with_hit_cells() {
    let cells = hits(2, 2, &[(0, vec![0, 2]), (3, vec![1])]);
    assert_reply_round_trips(vec![1, 2, 3, 4, 5, 6, 7, 8], Some(cells));
}

#[test]
fn the_reply_round_trips_without_hit_cells() {
    assert_reply_round_trips(vec![9, 8, 7, 6], None);
}

/// A picture settled as blank travels as its length alone.
#[test]
fn a_blank_reply_travels_as_its_length() {
    let mut bytes = Vec::new();
    encode_overlay_out(&[], Some(64), None, &mut bytes);
    let (rgba, blank, cells) = decode_overlay_out(&bytes).expect("its own reply");
    assert!(rgba.is_empty());
    assert_eq!(blank, Some(64));
    assert!(cells.is_none());
}

#[test]
fn two_encodes_of_one_reply_value_agree() {
    let indices = [21u32, 3, 17, 8, 30, 11, 26, 5];
    let rows: Vec<(u32, Vec<u32>)> = indices.iter().map(|&idx| (idx, vec![idx * 2])).collect();
    let back: Vec<(u32, Vec<u32>)> = rows.iter().rev().cloned().collect();
    let rgba = [0u8; 4];
    let mut a = Vec::new();
    encode_overlay_out(&rgba, None, Some(&hits(8, 4, &rows)), &mut a);
    let mut b = Vec::new();
    encode_overlay_out(&rgba, None, Some(&hits(8, 4, &back)), &mut b);
    assert_eq!(a, b);
}

/// The envelope reads no values: a grid short of them has one all the same.
#[test]
fn an_envelope_needs_no_values() {
    let ctx = EncodeCtx {
        geometry: test_geometry(),
        reach: IndexWindow { i0: 2, i1: 5, j0: 1, j1: 4 },
    };
    let head_of = |values: Vec<u32>| {
        let grid = FieldGrid {
            field: "vis".to_owned(),
            ni: 6,
            nj: 5,
            coords: regular(6, 5, 0),
            values: GridValues::F32(values),
        };
        let mut head = Vec::new();
        GriddedJob::encode_resident_head(&GriddedInput::Whole(Arc::new(grid)), &ctx, &mut head);
        head
    };
    assert_eq!(head_of(Vec::new()), head_of(vec![0; 30]));
    assert!(!head_of(Vec::new()).is_empty());
}
