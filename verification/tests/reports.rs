//! The storm-reports and radar-sites layers.
use chrono::NaiveDate;
use squallar_overlays::controls::{ControlEffect, ControlItem, ControlUpdate, ControlValue};
use squallar_overlays::fetch::{DataCompleteness, FetchError};
use squallar_overlays::instant::{Instant, FIRST_SECOND};
use squallar_overlays::jobs::shapes::StormReportKind;
use squallar_overlays::jobs::JobRow;
use squallar_overlays::layers::{LayerId, RenderMode, TimeAxis};
use squallar_overlays::pane::{Pane, PaneToggle};
use squallar_overlays::popup::{PopupContent, PopupSection, TimezonePreference};
use squallar_overlays::reports::{
    convective_day_start, Selection, StormReport, StormReportItem, StormReportRound,
    StormReportsFetchResult, StormReportsHandler,
};
use squallar_overlays::residency::Residency;
use squallar_overlays::sites::{RadarSitesFetchResult, RadarSitesHandler, SiteRow};
use squallar_overlays::state::RasterizeContext;

fn report(kind: StormReportKind, time: &str, magnitude: Option<f64>) -> StormReport {
    StormReport {
        kind,
        time: time.into(),
        valid: None,
        magnitude: magnitude.map(f64::to_bits),
        location: "NORMAN".into(),
        county: "CLEVELAND".into(),
        state: "OK".into(),
        lat: 35.22f64.to_bits(),
        lon: (-97.44f64).to_bits(),
        comments: String::new(),
    }
}

fn item(report: StormReport) -> StormReportItem {
    StormReportItem { report, index: 0 }
}

fn texts(content: &PopupContent) -> Vec<String> {
    content
        .sections
        .iter()
        .filter_map(|section| match section {
            PopupSection::Text(text) => Some(text.clone()),
            _ => None,
        })
        .collect()
}

#[test]
fn a_hail_reports_size_reads_in_the_users_hail_size_unit() {
    let item = item(report(StormReportKind::Hail, "2015", Some(175.0)));
    for (size, expected) in
        [("1.75\"", "Size: 1.75\""), ("4.4cm", "Size: 4.4cm"), ("44mm", "Size: 44mm")]
    {
        let content = item.popup_content(TimezonePreference::Utc, "", size);
        match content.sections.get(1) {
            Some(PopupSection::Text(text)) => assert_eq!(text, expected),
            _ => panic!("the magnitude line is the second section"),
        }
    }
}

#[test]
fn a_report_whose_time_is_multibyte_still_opens_its_popup() {
    for time in ["1é2", "éé", "é", "🌀", "12é4", "20:5"] {
        for timezone in [TimezonePreference::Utc, TimezonePreference::Local] {
            let item = item(report(StormReportKind::Tornado, time, None));
            let content = item.popup_content(timezone, "14:15 CDT", "");
            assert!(texts(&content).iter().any(|text| text.contains(time)), "{time:?}");
        }
    }
}

#[test]
fn an_ordinary_hhmm_still_reads_as_a_clock() {
    let item = item(report(StormReportKind::Tornado, "2015", None));
    let content = item.popup_content(TimezonePreference::Utc, "15:15 CDT", "");
    assert!(texts(&content).iter().any(|text| text.contains("20:15")));
    assert_eq!(texts(&content), vec!["20:15 UTC - NORMAN, CLEVELAND OK"]);
}

/// The local clock is used where there is such a minute, and only then.
#[test]
fn a_local_clock_reads_only_real_minutes() {
    let line = |time: &str| {
        let item = item(report(StormReportKind::Wind, time, None));
        texts(&item.popup_content(TimezonePreference::Local, "15:15 CDT", ""))[0].clone()
    };
    assert!(line("2015").starts_with("15:15 CDT - "));
    assert!(line("2359").starts_with("15:15 CDT - "));
    assert!(line("2400").starts_with("24:00 UTC - "));
    assert!(line("1260").starts_with("12:60 UTC - "));
    assert!(line("930").starts_with("930 UTC - "));
}

#[test]
fn a_popup_has_its_kinds_title_and_all_its_lines() {
    let mut wind = report(StormReportKind::Wind, "0005", Some(60.0));
    wind.comments = "TREES DOWN".into();
    let content = item(wind).popup_content(TimezonePreference::Utc, "", "69 mph");
    assert_eq!(content.title, "SPC Storm Report: Wind");
    assert_eq!(content.accent_rgb, [40, 80, 220]);
    assert_eq!(content.width, 350);
    assert_eq!(
        texts(&content),
        vec!["00:05 UTC - NORMAN, CLEVELAND OK", "Speed: 69 mph", "TREES DOWN"],
    );
    let tornado = item(report(StormReportKind::Tornado, "0005", Some(2.0)));
    let content = tornado.popup_content(TimezonePreference::Utc, "", "2");
    assert_eq!(texts(&content)[1], "F/EF Scale: 2");
    assert_eq!(content.accent_rgb, [220, 40, 40]);
}

fn at(h: u32, m: u32) -> Instant {
    on(22, h, m)
}

fn on(day: u32, h: u32, m: u32) -> Instant {
    let t = NaiveDate::from_ymd_opt(2026, 8, day).unwrap().and_hms_opt(h, m, 0).unwrap();
    Instant::at(t.and_utc().timestamp())
}

fn total(residency: &Residency) -> i64 {
    residency.ranges().iter().map(|(start, end)| end.secs - start.secs).sum()
}

#[test]
fn a_report_stop_asks_for_the_convective_day_behind_it() {
    let handler = StormReportsHandler::new();
    let one = handler.residency_for(&vec![at(20, 0)]);
    assert_eq!(one.ranges().len(), 1);
    assert_eq!(total(&one), 8 * 3600);
    assert!(one.covers(&at(12, 0)));
    assert!(!one.covers(&at(11, 59)));
    let looped: Vec<Instant> = (13..=23).map(|h| at(h, 0)).collect();
    let many = handler.residency_for(&looped);
    assert_eq!(many.ranges().len(), 1);
    assert_eq!(total(&many), 11 * 3600);
    for stop in &looped {
        assert!(many.covers(stop));
    }
}

#[test]
fn a_small_hours_stop_belongs_to_yesterdays_convective_day() {
    let handler = StormReportsHandler::new();
    let residency = handler.residency_for(&vec![at(2, 30)]);
    assert_eq!(residency.extent(), Some((on(21, 12, 0), at(2, 30))));
}

/// Stretches that meet run together whatever order they come in; others stay
/// apart, from the earliest on.
#[test]
fn stretches_run_together_where_they_meet() {
    let spans = vec![
        (at(9, 0), at(10, 0)),
        (at(1, 0), at(2, 0)),
        (at(10, 0), at(11, 0)),
        (at(5, 0), at(4, 0)),
        (at(1, 30), at(3, 0)),
    ];
    let residency = Residency::over(&spans);
    assert_eq!(*residency.ranges(), vec![(at(1, 0), at(3, 0)), (at(9, 0), at(11, 0))]);
    assert!(!residency.covers(&at(4, 30)));
    let all = Residency::over(&vec![
        (at(1, 0), at(2, 0)),
        (at(5, 0), at(6, 0)),
        (at(3, 0), at(4, 0)),
        (at(0, 0), at(23, 0)),
    ]);
    assert_eq!(*all.ranges(), vec![(at(0, 0), at(23, 0))]);
}

#[test]
fn a_convective_day_opens_at_noon() {
    assert_eq!(convective_day_start(&at(12, 0)), Some(at(12, 0)));
    assert_eq!(convective_day_start(&at(11, 59)), Some(on(21, 12, 0)));
    assert_eq!(convective_day_start(&Instant::at(-1)), Some(Instant::at(-43_200)));
    assert_eq!(convective_day_start(&Instant::at(FIRST_SECOND + 43_199)), None);
    let residency =
        StormReportsHandler::new().residency_for(&vec![Instant::at(FIRST_SECOND), at(13, 0)]);
    assert_eq!(*residency.ranges(), vec![(at(12, 0), at(13, 0))]);
}

fn ctx(as_of: Instant) -> RasterizeContext {
    RasterizeContext {
        is_dark: false,
        zoom: 6.5f64.to_bits(),
        device_scale: 1.0f32.to_bits(),
        now: as_of,
        as_of,
        frame: None,
    }
}

fn round(reports: Vec<StormReport>, coverage: DataCompleteness) -> StormReportsFetchResult {
    StormReportsFetchResult(Ok(StormReportRound { reports, coverage }))
}

fn handler_with(reports: Vec<StormReport>) -> StormReportsHandler {
    let mut h = StormReportsHandler::new();
    h.apply_fetch_result(round(reports, DataCompleteness::none()), 100);
    h
}

/// A row travels before its instant too, with the depicted instant beside it: the
/// painter leaves it out, so that places stay those of the items.
#[test]
fn every_report_travels_with_the_instant_it_is_seen_from() {
    let mut first = report(StormReportKind::Tornado, "2130", None);
    first.valid = Some(at(21, 30));
    let h = handler_with(vec![first, report(StormReportKind::Hail, "2145", Some(175.0))]);
    let early = h.paint_input(&ctx(at(21, 29))).expect("data is present");
    let late = h.paint_input(&ctx(at(21, 31))).expect("data is present");
    assert_eq!(early.reports, late.reports);
    assert_eq!(early.reports.len(), 2);
    assert_eq!((early.as_of, late.as_of), (at(21, 29), at(21, 31)));
    assert_eq!(early.reports[0].valid, Some(at(21, 30)));
    assert_eq!(early.reports[1].kind, StormReportKind::Hail);
    let items = h.hit_items().expect("data is present");
    for (place, item) in items.iter().enumerate() {
        assert_eq!(item.index, place);
        assert_eq!(item.report.kind, early.reports[place].kind);
    }
    assert!(items[0].matches(&items[0]) && !items[0].matches(&items[1]));
}

#[test]
fn an_empty_layer_describes_nothing() {
    let h = StormReportsHandler::new();
    assert!(h.paint_input(&ctx(at(21, 0))).is_none());
    assert!(h.hit_items().is_none());
    assert!(!h.has_data());
}

/// One kind's feed missing is a gap in the map and no failure; all of them missing
/// is a failure, and what was on the map stays.
#[test]
fn a_missing_kind_is_a_gap_and_a_failed_round_keeps_the_map() {
    let mut h = StormReportsHandler::new();
    h.enabled = true;
    let missing = DataCompleteness {
        expected: 3,
        missing: 1,
        unit: "report kinds",
        reasons: vec!["tornado: HTTP 503".to_owned()],
    };
    let two = vec![
        report(StormReportKind::Hail, "2015", None),
        report(StormReportKind::Wind, "2020", None),
    ];
    h.apply_fetch_result(round(two, missing), 100);
    assert!(h.state.retry.is_incomplete());
    assert!(!h.state.retry.is_unhealthy());
    let note = h.state.retry.coverage().status_note().expect("a note");
    assert!(note.contains("missing 1 of 3 report kinds"), "{note}");
    assert!(note.contains("tornado") && note.contains("503"), "{note}");
    assert_eq!(h.status_line().as_deref(), Some("2 reports"));
    let generation = h.state.data_generation;

    h.set_fetching(true);
    h.apply_fetch_result(StormReportsFetchResult(Err(FetchError::transient("HTTP 503"))), 200);
    assert!(!h.is_fetching());
    assert!(h.state.retry.is_unhealthy());
    assert_eq!((h.item_count(), h.state.data_generation), (2, generation));
    assert_eq!(h.state.fetch_time, Some(100));

    h.apply_fetch_result(round(Vec::new(), DataCompleteness::none()), 300);
    assert!(!h.state.retry.is_unhealthy() && !h.state.retry.is_incomplete());
    assert_eq!(h.status_line().as_deref(), Some("0 reports"));
    assert_ne!(h.state.data_generation, generation);
}

#[test]
fn selections_outlive_a_round_that_still_has_their_place() {
    let h = handler_with(vec![report(StormReportKind::Hail, "2015", None)]);
    let pick = |layer, index| Selection { layer, index };
    let mut selections = vec![
        pick(LayerId::StormReports, 0),
        pick(LayerId::StormReports, 1),
        pick(LayerId::NwsAlerts, 7),
    ];
    h.retain_selections(&mut selections);
    assert_eq!(selections, vec![pick(LayerId::StormReports, 0), pick(LayerId::NwsAlerts, 7)]);
}

fn lines(items: &[ControlItem]) -> Vec<String> {
    items
        .iter()
        .map(|item| match item {
            ControlItem::Toggle { id, label, enabled } => format!("{id}|{label}|{enabled}"),
            ControlItem::ButtonRow { buttons } => {
                format!("{}|{}|{}", buttons[0].id, buttons[0].label, buttons[0].enabled)
            }
            ControlItem::InfoText { text } => text.clone(),
            other => panic!("an unexpected row: {other:?}"),
        })
        .collect()
}

#[test]
fn the_reports_panel_counts_and_dates_what_it_holds() {
    let mut h = StormReportsHandler::new();
    let pane = Pane::of(PaneToggle { enabled: true });
    assert_eq!(
        lines(&h.controls(&pane, 0)),
        vec!["enabled|SPC Storm Reports|true", "refresh|\u{21bb} Refresh|true"],
    );
    h.apply_fetch_result(
        round(vec![report(StormReportKind::Hail, "2015", None)], DataCompleteness::none()),
        100,
    );
    h.set_fetching(true);
    assert_eq!(
        lines(&h.controls(&Pane::bare(), 221)),
        vec![
            "enabled|SPC Storm Reports (1)|false",
            "refresh|\u{21bb} Refresh|false",
            "Fetching...",
            "Updated 2m ago",
        ],
    );
    assert_eq!(lines(&h.controls(&pane, 159))[3], "Updated 59s ago");
}

fn switch(on: bool) -> ControlUpdate {
    ControlUpdate { id: "enabled", value: ControlValue::Bool(on) }
}

#[test]
fn turning_an_empty_reports_layer_on_fetches() {
    let mut h = StormReportsHandler::new();
    assert_eq!(h.status_line(), None);
    assert_eq!(h.apply_control(&switch(true)), ControlEffect::Fetch);
    assert!(h.enabled);
    assert_eq!(h.apply_control(&switch(false)), ControlEffect::Nothing);
    let mut h = handler_with(vec![report(StormReportKind::Hail, "2015", None)]);
    assert_eq!(h.apply_control(&switch(true)), ControlEffect::Nothing);
    let refresh = ControlUpdate { id: "refresh", value: ControlValue::Action };
    assert_eq!(h.apply_control(&refresh), ControlEffect::Fetch);
    let other = ControlUpdate { id: "product", value: ControlValue::Action };
    assert_eq!(h.apply_control(&other), ControlEffect::Nothing);
    assert!(h.enabled);
}

#[test]
fn a_panes_toggle_is_its_own() {
    let mut h = StormReportsHandler::new();
    let mut pane = Pane::of(PaneToggle { enabled: false });
    h.set_enabled(true, &mut pane);
    assert!(h.is_enabled(&pane) && !h.enabled);
    h.set_enabled(true, &mut Pane::bare());
    assert!(h.enabled);
    for enabled in [true, false] {
        let saved = PaneToggle { enabled }.save();
        assert_eq!(PaneToggle::restore(&saved, !enabled), PaneToggle { enabled });
        let empty = serde_json::Value::Object(serde_json::Map::new());
        assert_eq!(PaneToggle::restore(&empty, enabled), PaneToggle { enabled });
    }
}

#[test]
fn the_reports_layer_declares_itself() {
    let h = StormReportsHandler::new();
    assert_eq!(h.id(), LayerId::StormReports);
    assert_eq!(h.draw_order_weight(), 60);
    assert_eq!(h.display_name(), "SPC Storm Reports");
    assert_eq!(h.time_axis(), TimeAxis::EventLifetime);
    assert_eq!(h.auto_poll_interval(), Some(300));
    assert_eq!(h.render_mode(), RenderMode::Texture);
    assert_eq!(h.job_codec(), Some(JobRow::Reports));
    assert!(h.theme_sensitive());
}

fn site(name: &str) -> SiteRow {
    SiteRow { name: name.to_owned(), lat: 35.333f64.to_bits(), lon: (-97.278f64).to_bits() }
}

#[test]
fn installed_sites_replace_and_set_aside_the_old() {
    let mut h = RadarSitesHandler::new();
    assert!(!h.has_data());
    h.apply_fetch_result(RadarSitesFetchResult(vec![site("KTLX")]), 1);
    assert!(h.has_data());
    h.apply_fetch_result(RadarSitesFetchResult(vec![site("KFDR"), site("KVNX")]), 2);
    assert_eq!(h.state.data[0].name, "KFDR");
    assert_eq!(h.state.data_generation, 2);
    assert_eq!(h.take_retired().map(|rows| rows[0].name.clone()), Some("KTLX".to_owned()));
    assert!(h.take_retired().is_none());
}

#[test]
fn the_sites_panel_is_one_toggle() {
    let mut h = RadarSitesHandler::new();
    let mut pane = Pane::of(PaneToggle { enabled: false });
    assert_eq!(lines(&h.controls(&pane)), vec!["enabled|Radar Sites|false"]);
    assert_eq!(h.apply_control(&switch(true), &mut pane), ControlEffect::Nothing);
    assert!(h.is_enabled(&pane) && !h.enabled);
    assert_eq!(h.apply_control(&switch(true), &mut Pane::bare()), ControlEffect::Nothing);
    assert!(h.enabled);
    assert_eq!(h.id(), LayerId::RadarSites);
    assert_eq!(h.draw_order_weight(), 100);
    assert_eq!(h.display_name(), "Radar Sites");
    assert_eq!(h.time_axis(), TimeAxis::Live);
    assert_eq!(h.render_mode(), RenderMode::PerFrameDirect);
    assert!(h.theme_sensitive());
}
