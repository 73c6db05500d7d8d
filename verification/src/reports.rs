//! The storm-reports layer: the day's tornado, hail and wind reports.
use std::sync::Arc;
use vstd::prelude::*;
use crate::controls::{
    fetch_lines, push_fetch_lines, push_item, refresh_buttons, refresh_row, ControlEffect,
    ControlItem, ControlUpdate, ControlValue, ItemView,
};
use crate::fetch::{DataCompleteness, FetchError, LedgerView};
use crate::instant::{Instant, DAY, FIRST_SECOND};
use crate::jobs::reports::{ReportPaint, ReportsInput};
use crate::jobs::shapes::StormReportKind;
use crate::jobs::{law_labels_tell_rows_apart, JobRow};
use crate::layers::{LayerId, RenderMode, TimeAxis};
use crate::pane::{Pane, PaneToggle};
use crate::popup::{
    push_section, PopupContent, PopupSection, PopupView, SectionView, TimezonePreference,
};
use crate::residency::{all_joined, in_any, law_joining_keeps_instants, lemma_in_push, Residency};
use crate::state::{next_generation, OverlayState, RasterizeContext};
use crate::text::{all_digits, byte_number, decimal, decimal_text, is_digit, parse_byte, same_text};

verus! {

/// One report of the feed.
#[derive(Debug)]
pub struct StormReport {
    pub kind: StormReportKind,
    /// What the feed says of when, most often four digits.
    pub time: String,
    /// When it happened, where that can be told.
    pub valid: Option<Instant>,
    /// An `f64` bit pattern: a scale, hundredths of an inch or knots.
    pub magnitude: Option<u64>,
    pub location: String,
    pub county: String,
    pub state: String,
    /// `f64` bit patterns.
    pub lat: u64,
    pub lon: u64,
    pub comments: String,
}

/// A round of the feed that answered, and what of it is missing.
#[derive(Debug)]
pub struct StormReportRound {
    pub reports: Vec<StormReport>,
    pub coverage: DataCompleteness,
}

/// What a fetch of the feed came to.
#[derive(Debug)]
pub struct StormReportsFetchResult(pub Result<StormReportRound, FetchError>);

/// A report, and its place in the round it came in. The feed carries no names, so
/// the place is all that tells two reports apart.
#[derive(Debug)]
pub struct StormReportItem {
    pub report: StormReport,
    pub index: usize,
}

/// Something selected on the map.
#[derive(Clone, Copy, Debug, PartialEq, Eq, Structural)]
pub struct Selection {
    pub layer: LayerId,
    /// Its place among the layer's items.
    pub index: usize,
}

/// Whether a text is a clock reading of four digits.
pub open spec fn is_clock(time: Seq<char>) -> bool {
    time.len() == 4 && all_digits(time)
}

/// Whether four digits name a minute of a day.
pub open spec fn is_minute_of_day(time: Seq<char>) -> bool {
    match (byte_number(time.take(2)), byte_number(time.skip(2))) {
        (Some(hour), Some(minute)) => hour < 24 && minute < 60,
        _ => false,
    }
}

/// What a report's time reads as. The feed gives no date; `local` is what the
/// machine's own clock makes of the time today.
pub open spec fn clock_text(
    time: Seq<char>,
    timezone: TimezonePreference,
    local: Seq<char>,
) -> Seq<char> {
    if !is_clock(time) {
        time + " UTC"@
    } else if timezone == TimezonePreference::Local && is_minute_of_day(time) {
        local
    } else {
        time.take(2) + ":"@ + time.skip(2) + " UTC"@
    }
}

/// Four decimal digits, and nothing else.
fn reads_as_clock(time: &str) -> (b: bool)
    ensures
        b == is_clock(time@),
{
    if time.unicode_len() != 4 {
        return false;
    }
    let mut at: usize = 0;
    while at < 4
        invariant
            at <= 4,
            time@.len() == 4,
            forall|i: int| 0 <= i < at ==> is_digit(#[trigger] time@[i]),
        decreases 4 - at,
    {
        let c = time.get_char(at);
        if !('0' <= c && c <= '9') {
            assert(!is_digit(time@[at as int]));
            return false;
        }
        at = at + 1;
    }
    true
}

fn time_line(time: &str, timezone: TimezonePreference, local: &str) -> (text: String)
    ensures
        text@ == clock_text(time@, timezone, local@),
{
    if !reads_as_clock(time) {
        let mut text = time.to_owned();
        text.append(" UTC");
        return text;
    }
    let hour = time.substring_char(0, 2);
    let minute = time.substring_char(2, 4);
    assert(hour@ =~= time@.take(2));
    assert(minute@ =~= time@.skip(2));
    if timezone == TimezonePreference::Local {
        if let (Some(h), Some(m)) = (parse_byte(hour), parse_byte(minute)) {
            if h < 24 && m < 60 {
                return local.to_owned();
            }
        }
    }
    let mut text = hour.to_owned();
    text.append(":");
    text.append(minute);
    text.append(" UTC");
    text
}

/// What a kind of report is called.
pub open spec fn kind_text(kind: StormReportKind) -> Seq<char> {
    match kind {
        StormReportKind::Tornado => "Tornado"@,
        StormReportKind::Hail => "Hail"@,
        StormReportKind::Wind => "Wind"@,
    }
}

fn kind_name(kind: StormReportKind) -> (name: &'static str)
    ensures
        name@ == kind_text(kind),
{
    match kind {
        StormReportKind::Tornado => "Tornado",
        StormReportKind::Hail => "Hail",
        StormReportKind::Wind => "Wind",
    }
}

/// What stands in front of a magnitude.
pub open spec fn magnitude_text(kind: StormReportKind) -> Seq<char> {
    match kind {
        StormReportKind::Tornado => "F/EF Scale: "@,
        StormReportKind::Hail => "Size: "@,
        StormReportKind::Wind => "Speed: "@,
    }
}

fn magnitude_name(kind: StormReportKind) -> (name: &'static str)
    ensures
        name@ == magnitude_text(kind),
{
    match kind {
        StormReportKind::Tornado => "F/EF Scale: ",
        StormReportKind::Hail => "Size: ",
        StormReportKind::Wind => "Speed: ",
    }
}

pub open spec fn accent(kind: StormReportKind) -> Seq<u8> {
    match kind {
        StormReportKind::Tornado => seq![220u8, 40, 40],
        StormReportKind::Hail => seq![40u8, 180, 40],
        StormReportKind::Wind => seq![40u8, 80, 220],
    }
}

impl StormReport {
    /// Where and when, on one line.
    pub open spec fn headline(
        &self,
        timezone: TimezonePreference,
        local: Seq<char>,
    ) -> Seq<char> {
        clock_text(self.time@, timezone, local) + " - "@ + self.location@ + ", "@ + self.county@
            + " "@ + self.state@
    }

    /// The parts of the dialog. `size` is what the magnitude reads as in the units
    /// asked for.
    pub open spec fn sections(
        &self,
        timezone: TimezonePreference,
        local: Seq<char>,
        size: Seq<char>,
    ) -> Seq<SectionView> {
        seq![SectionView::Text(self.headline(timezone, local))] + (if self.magnitude is Some {
            seq![SectionView::Text(magnitude_text(self.kind) + size)]
        } else {
            Seq::empty()
        }) + (if self.comments@.len() > 0 {
            seq![SectionView::Text(self.comments@)]
        } else {
            Seq::empty()
        })
    }
}

impl StormReportItem {
    /// The dialog the report opens. `local` is what the machine's own clock makes
    /// of the time, and `size` what the magnitude reads as in the units asked for.
    pub fn popup_content(
        &self,
        timezone: TimezonePreference,
        local: &str,
        size: &str,
    ) -> (content: PopupContent)
        ensures
            content.deep_view() == (PopupView {
                title: "SPC Storm Report: "@ + kind_text(self.report.kind),
                accent_rgb: accent(self.report.kind),
                width: 350,
                sections: self.report.sections(timezone, local@, size@),
            }),
    {
        let report = &self.report;
        let mut headline = time_line(report.time.as_str(), timezone, local);
        headline.append(" - ");
        headline.append(report.location.as_str());
        headline.append(", ");
        headline.append(report.county.as_str());
        headline.append(" ");
        headline.append(report.state.as_str());
        let mut sections: Vec<PopupSection> = Vec::new();
        assert(sections.deep_view() =~= Seq::empty());
        push_section(&mut sections, PopupSection::Text(headline));
        if report.magnitude.is_some() {
            let mut text = magnitude_name(report.kind).to_owned();
            text.append(size);
            push_section(&mut sections, PopupSection::Text(text));
        }
        if report.comments.as_str().unicode_len() > 0 {
            push_section(
                &mut sections,
                PopupSection::Text(report.comments.as_str().to_owned()),
            );
        }
        assert(sections.deep_view() =~= report.sections(timezone, local@, size@));
        let mut title = "SPC Storm Report: ".to_owned();
        title.append(kind_name(report.kind));
        let accent_rgb: [u8; 3] = match report.kind {
            StormReportKind::Tornado => [220, 40, 40],
            StormReportKind::Hail => [40, 180, 40],
            StormReportKind::Wind => [40, 80, 220],
        };
        assert(accent_rgb@ =~= accent(report.kind));
        PopupContent { title, accent_rgb, width: 350, sections }
    }

    /// Whether two items are the report at one place of a round.
    pub fn matches(&self, other: &StormReportItem) -> (b: bool)
        ensures
            b == (self.index == other.index),
    {
        self.index == other.index
    }
}

/// The row a report travels as.
pub open spec fn paint_of(report: StormReport) -> ReportPaint {
    ReportPaint { kind: report.kind, lat: report.lat, lon: report.lon, valid: report.valid }
}

/// Whether items are reports in their order, each knowing its place.
pub open spec fn filed(items: Seq<Arc<StormReportItem>>, reports: Seq<StormReport>) -> bool {
    &&& items.len() == reports.len()
    &&& forall|i: int|
        0 <= i < items.len() ==> (#[trigger] items[i]).report == reports[i] && items[i].index == i
}

/// The rows that reports travel as.
pub open spec fn painted(items: Seq<Arc<StormReportItem>>) -> Seq<ReportPaint> {
    items.map_values(|item: Arc<StormReportItem>| paint_of(item.report))
}

/// The second at which the convective day of an instant opened: the last twelve
/// o'clock UTC before it, or at it.
pub open spec fn day_open(stop: Instant) -> int {
    let past = stop.secs - 43_200;
    past - past % (DAY as int) + 43_200
}

/// When the convective day of an instant opened, where that is on the calendar.
pub open spec fn day_start(stop: Instant) -> Option<Instant> {
    if day_open(stop) >= FIRST_SECOND {
        Some(Instant { secs: day_open(stop) as i64, nanos: 0 })
    } else {
        None
    }
}

pub fn convective_day_start(stop: &Instant) -> (start: Option<Instant>)
    ensures
        start == day_start(*stop),
{
    if stop.secs < FIRST_SECOND + 43_200 {
        return None;
    }
    let past: i64 = stop.secs - 43_200;
    match past.checked_rem_euclid(DAY) {
        Some(into) => Some(Instant { secs: past - into + 43_200, nanos: 0 }),
        None => None,
    }
}

/// The stretches behind some stops: each from its convective day's start.
pub open spec fn days_behind(stops: Seq<Instant>) -> Seq<(Instant, Instant)>
    decreases stops.len(),
{
    if stops.len() == 0 {
        Seq::empty()
    } else {
        match day_start(stops.last()) {
            Some(start) => days_behind(stops.drop_last()).push((start, stops.last())),
            None => days_behind(stops.drop_last()),
        }
    }
}

/// Which selections outlive a round of so many reports: those of other layers, and
/// reports whose place the round still has.
pub open spec fn still_selected(selections: Seq<Selection>, count: nat) -> Seq<Selection>
    decreases selections.len(),
{
    if selections.len() == 0 {
        Seq::empty()
    } else {
        let rest = still_selected(selections.drop_last(), count);
        let last = selections.last();
        if last.layer != LayerId::StormReports || last.index < count {
            rest.push(last)
        } else {
            rest
        }
    }
}

/// The options panel.
pub open spec fn panel(count: nat, on: bool, fetching: bool, age: Option<u64>) -> Seq<ItemView> {
    seq![
        ItemView::Toggle {
            id: "enabled"@,
            label: if count == 0 {
                "SPC Storm Reports"@
            } else {
                "SPC Storm Reports ("@ + decimal(count) + ")"@
            },
            enabled: on,
        },
        refresh_row(!fetching),
    ] + fetch_lines(fetching, age)
}

/// The layer.
#[derive(Debug)]
pub struct StormReportsHandler {
    pub state: OverlayState<Vec<Arc<StormReportItem>>>,
    /// Whether the layer is on, for a caller without a pane.
    pub enabled: bool,
}

impl StormReportsHandler {
    pub fn new() -> (handler: StormReportsHandler)
        ensures
            handler.state.data@.len() == 0,
            handler.state.data_generation == 0,
            !handler.state.fetching,
            handler.state.fetch_time is None,
            handler.state.retry@.failures == 0,
            handler.state.retry@.last is None,
            handler.state.retry@.coverage.missing == 0,
            !handler.enabled,
    {
        StormReportsHandler { state: OverlayState::new(Vec::new()), enabled: false }
    }

    /// What the painter is asked for: every report, a row each, whenever it was.
    /// Those later than the depicted instant are left out by the painter, so that
    /// a row's place is the report's.
    pub fn paint_input(&self, ctx: &RasterizeContext) -> (input: Option<ReportsInput>)
        ensures
            input is Some == (self.state.data@.len() > 0),
            input matches Some(asked) ==> {
                &&& asked.reports@ == painted(self.state.data@)
                &&& asked.zoom == ctx.zoom
                &&& asked.is_dark == ctx.is_dark
                &&& asked.device_scale == ctx.device_scale
                &&& asked.as_of == ctx.as_of
            },
    {
        if self.state.data.len() == 0 {
            return None;
        }
        let mut reports: Vec<ReportPaint> = Vec::new();
        let mut at: usize = 0;
        while at < self.state.data.len()
            invariant
                at <= self.state.data@.len(),
                reports@ == painted(self.state.data@.take(at as int)),
            decreases self.state.data@.len() - at,
        {
            let report = &self.state.data[at].report;
            reports.push(
                ReportPaint {
                    kind: report.kind,
                    lat: report.lat,
                    lon: report.lon,
                    valid: report.valid,
                },
            );
            at = at + 1;
            assert(reports@ =~= painted(self.state.data@.take(at as int)));
        }
        assert(self.state.data@.take(at as int) =~= self.state.data@);
        Some(
            ReportsInput {
                reports,
                zoom: ctx.zoom,
                is_dark: ctx.is_dark,
                device_scale: ctx.device_scale,
                as_of: ctx.as_of,
            },
        )
    }

    /// The items that rows of [`StormReportsHandler::paint_input`] stand for, place
    /// by place.
    pub fn hit_items(&self) -> (items: Option<Vec<Arc<StormReportItem>>>)
        ensures
            items is Some == (self.state.data@.len() > 0),
            items matches Some(all) ==> all@ == self.state.data@,
    {
        if self.state.data.len() == 0 {
            return None;
        }
        let mut items: Vec<Arc<StormReportItem>> = Vec::new();
        let mut at: usize = 0;
        while at < self.state.data.len()
            invariant
                at <= self.state.data@.len(),
                items@ == self.state.data@.take(at as int),
            decreases self.state.data@.len() - at,
        {
            items.push(self.state.data[at].clone());
            at = at + 1;
            assert(items@ =~= self.state.data@.take(at as int));
        }
        assert(items@ =~= self.state.data@);
        Some(items)
    }

    /// The stretches of source time a walk through `stops` needs: the picture at a
    /// stop is every report of its convective day so far. A stop whose day opened
    /// off the calendar adds none.
    pub fn residency_for(&self, stops: &Vec<Instant>) -> (residency: Residency)
        ensures
            residency@ == all_joined(days_behind(stops@)),
    {
        let mut spans: Vec<(Instant, Instant)> = Vec::new();
        let mut at: usize = 0;
        while at < stops.len()
            invariant
                at <= stops@.len(),
                spans@ == days_behind(stops@.take(at as int)),
            decreases stops@.len() - at,
        {
            assert(stops@.take(at + 1).drop_last() =~= stops@.take(at as int));
            if let Some(start) = convective_day_start(&stops[at]) {
                spans.push((start, stops[at]));
            }
            at = at + 1;
        }
        assert(stops@.take(at as int) =~= stops@);
        Residency::over(&spans)
    }

    pub fn is_enabled(&self, pane: &Pane<PaneToggle>) -> (on: bool)
        ensures
            on == PaneToggle::on(*pane, self.enabled),
    {
        PaneToggle::is_on(pane, self.enabled)
    }

    /// Turns the layer on or off in a pane, or for everyone where there is none.
    pub fn set_enabled(&mut self, enabled: bool, pane: &mut Pane<PaneToggle>)
        ensures
            final(self).state == old(self).state,
            final(pane).peers == old(pane).peers,
            old(pane).state is Some ==> final(pane).state == Some(PaneToggle { enabled })
                && final(self).enabled == old(self).enabled,
            old(pane).state is None ==> final(pane).state is None && final(self).enabled
                == enabled,
    {
        if !PaneToggle::set(pane, enabled) {
            self.enabled = enabled;
        }
    }

    /// How many reports there are, while the layer is on.
    pub fn status_line(&self) -> (line: Option<String>)
        ensures
            line.deep_view() == (if self.enabled {
                Some(decimal(self.state.data@.len()) + " reports"@)
            } else {
                None
            }),
    {
        if !self.enabled {
            return None;
        }
        let mut text = decimal_text(self.state.data.len() as u64);
        text.append(" reports");
        Some(text)
    }

    pub fn has_data(&self) -> (b: bool)
        ensures
            b == (self.state.data@.len() > 0),
    {
        self.state.data.len() > 0
    }

    pub fn item_count(&self) -> (count: usize)
        ensures
            count == self.state.data@.len(),
    {
        self.state.data.len()
    }

    pub fn is_fetching(&self) -> (b: bool)
        ensures
            b == self.state.fetching,
    {
        self.state.fetching
    }

    pub fn set_fetching(&mut self, fetching: bool)
        ensures
            final(self).state == (OverlayState { fetching, ..old(self).state }),
            final(self).enabled == old(self).enabled,
    {
        self.state.fetching = fetching;
    }

    /// Files what a fetch came to. A round that answered replaces the reports,
    /// with what of it is missing beside them; one that failed leaves them on the
    /// map.
    pub fn apply_fetch_result(&mut self, fetch: StormReportsFetchResult, now: u64)
        ensures
            final(self).enabled == old(self).enabled,
            !final(self).state.fetching,
            match fetch.0 {
                Ok(round) => {
                    &&& filed(final(self).state.data@, round.reports@)
                    &&& final(self).state.data_generation == next_generation(
                        old(self).state.data_generation,
                    )
                    &&& final(self).state.fetch_time == Some(now)
                    &&& final(self).state.retry@ == (LedgerView {
                        coverage: round.coverage@,
                        ..old(self).state.retry@.clean()
                    })
                },
                Err(e) => {
                    &&& final(self).state.data == old(self).state.data
                    &&& final(self).state.data_generation == old(self).state.data_generation
                    &&& final(self).state.fetch_time == old(self).state.fetch_time
                    &&& final(self).state.retry@ == old(self).state.retry@.failed(e@)
                },
            },
    {
        match fetch.0 {
            Ok(round) => {
                let StormReportRound { mut reports, coverage } = round;
                let ghost all = reports@;
                let mut items: Vec<Arc<StormReportItem>> = Vec::new();
                let mut at: usize = reports.len();
                let ghost count = at as int;
                while at > 0
                    invariant
                        at == reports@.len(),
                        at <= count,
                        count == all.len(),
                        reports@ == all.take(at as int),
                        items@.len() == count - at,
                        forall|i: int|
                            0 <= i < items@.len() ==> (#[trigger] items@[i]).report == all[count - 1
                                - i] && items@[i].index == count - 1 - i,
                    decreases at,
                {
                    at = at - 1;
                    if let Some(report) = reports.pop() {
                        assert(report == all[at as int]);
                        items.push(Arc::new(StormReportItem { report, index: at }));
                    }
                    assert(reports@ =~= all.take(at as int));
                }
                let mut ordered: Vec<Arc<StormReportItem>> = Vec::new();
                let ghost back = items@;
                let mut left: usize = items.len();
                while left > 0
                    invariant
                        left == items@.len(),
                        left <= count,
                        count == all.len(),
                        back.len() == count,
                        items@ == back.take(left as int),
                        ordered@.len() == count - left,
                        forall|i: int|
                            0 <= i < count ==> (#[trigger] back[i]).report == all[count - 1 - i]
                                && back[i].index == count - 1 - i,
                        forall|i: int|
                            0 <= i < ordered@.len() ==> #[trigger] ordered@[i] == back[count - 1
                                - i],
                    decreases left,
                {
                    left = left - 1;
                    if let Some(item) = items.pop() {
                        assert(item == back[left as int]);
                        ordered.push(item);
                    }
                    assert(items@ =~= back.take(left as int));
                }
                assert forall|i: int| 0 <= i < ordered@.len() implies (
                #[trigger] ordered@[i]).report == all[i] && ordered@[i].index == i by {
                    assert(back[count - 1 - i].report == all[count - 1 - (count - 1 - i)]);
                }
                let _ = self.state.set_data(ordered, now);
                self.state.record_coverage(coverage);
            },
            Err(e) => {
                self.state.record_failure(&e);
            },
        }
    }

    /// Drops the selected reports that the round no longer has.
    pub fn retain_selections(&self, selections: &mut Vec<Selection>)
        ensures
            final(selections)@ == still_selected(old(selections)@, self.state.data@.len()),
    {
        let count: usize = self.state.data.len();
        let mut kept: Vec<Selection> = Vec::new();
        let mut at: usize = 0;
        while at < selections.len()
            invariant
                at <= selections@.len(),
                count == self.state.data@.len(),
                kept@ == still_selected(selections@.take(at as int), count as nat),
            decreases selections@.len() - at,
        {
            assert(selections@.take(at + 1).drop_last() =~= selections@.take(at as int));
            let selection = selections[at];
            if selection.layer != LayerId::StormReports || selection.index < count {
                kept.push(selection);
            }
            at = at + 1;
        }
        assert(selections@.take(at as int) =~= selections@);
        *selections = kept;
    }

    /// The options panel.
    pub fn controls(&self, pane: &Pane<PaneToggle>, clock: u64) -> (items: Vec<ControlItem>)
        ensures
            items.deep_view() == panel(
                self.state.data@.len(),
                PaneToggle::on(*pane, self.enabled),
                self.state.fetching,
                self.state.age(clock),
            ),
    {
        let count: usize = self.state.data.len();
        let mut label = "SPC Storm Reports".to_owned();
        if count > 0 {
            label = "SPC Storm Reports (".to_owned();
            label.append(decimal_text(count as u64).as_str());
            label.append(")");
        }
        let mut items: Vec<ControlItem> = Vec::new();
        assert(items.deep_view() =~= Seq::empty());
        push_item(
            &mut items,
            ControlItem::Toggle { id: "enabled", label, enabled: self.is_enabled(pane) },
        );
        push_item(&mut items, refresh_buttons(!self.state.fetching));
        push_fetch_lines(&mut items, self.state.fetching, self.state.elapsed(clock));
        assert(items.deep_view() =~= panel(
            self.state.data@.len(),
            PaneToggle::on(*pane, self.enabled),
            self.state.fetching,
            self.state.age(clock),
        ));
        items
    }

    /// Acts on a control. Turned on while it holds nothing, the layer asks for a
    /// fetch.
    pub fn apply_control(&mut self, update: &ControlUpdate) -> (effect: ControlEffect)
        ensures
            final(self).state == old(self).state,
            final(self).enabled == match update.value {
                ControlValue::Bool(on) if update.id@ == "enabled"@ => on,
                _ => old(self).enabled,
            },
            effect == (if update.id@ == "enabled"@ {
                match update.value {
                    ControlValue::Bool(true) if old(self).state.data@.len() == 0 => {
                        ControlEffect::Fetch
                    },
                    _ => ControlEffect::Nothing,
                }
            } else if update.id@ == "refresh"@ {
                ControlEffect::Fetch
            } else {
                ControlEffect::Nothing
            }),
    {
        if same_text(update.id, "enabled") {
            if let ControlValue::Bool(on) = update.value {
                self.enabled = on;
                if on && self.state.data.len() == 0 {
                    return ControlEffect::Fetch;
                }
            }
            return ControlEffect::Nothing;
        }
        if same_text(update.id, "refresh") {
            return ControlEffect::Fetch;
        }
        ControlEffect::Nothing
    }
}

/// The report that a row stands for is the hit item at the row's place.
pub proof fn law_rows_and_items_line_up(
    items: Seq<Arc<StormReportItem>>,
    reports: Seq<StormReport>,
    i: int,
)
    requires
        filed(items, reports),
        0 <= i < reports.len(),
    ensures
        painted(items).len() == items.len(),
        painted(items)[i] == paint_of(reports[i]),
        items[i].report == reports[i],
        items[i].index == i,
{
}

/// A stop's convective day opens at most a day before it and never after it, at a
/// twelve o'clock.
pub proof fn law_convective_day_opens_at_noon(stop: Instant)
    ensures
        day_open(stop) <= stop.secs < day_open(stop) + DAY,
        day_open(stop) % (DAY as int) == 43_200,
{
}

/// Of two stops in one convective day, the later one's stretch holds the earlier's.
pub proof fn law_a_day_is_held_once(a: Instant, b: Instant, t: Instant)
    requires
        day_start(a) is Some,
        day_open(a) == day_open(b),
        a.not_after(b),
        crate::frames::within((day_start(a)->0, a), t),
    ensures
        day_start(b) == day_start(a),
        crate::frames::within((day_start(b)->0, b), t),
{
}

/// What the layer says of itself, whatever it holds.
impl StormReportsHandler {
    pub fn id(&self) -> (id: LayerId)
        ensures
            id == LayerId::StormReports,
    {
        LayerId::StormReports
    }

    pub fn render_mode(&self) -> (mode: RenderMode)
        ensures
            mode == RenderMode::Texture,
    {
        RenderMode::Texture
    }

    /// Whether a picture belongs to one theme.
    pub fn theme_sensitive(&self) -> (b: bool)
        ensures
            b,
    {
        true
    }

    /// Heavier layers are drawn over lighter ones.
    pub fn draw_order_weight(&self) -> (weight: u32)
        ensures
            weight == 60,
    {
        60
    }

    pub fn display_name(&self) -> (name: &'static str)
        ensures
            name@ == "SPC Storm Reports"@,
    {
        "SPC Storm Reports"
    }

    pub fn time_axis(&self) -> (axis: TimeAxis)
        ensures
            axis == (TimeAxis::EventLifetime),
    {
        TimeAxis::EventLifetime
    }

    /// Seconds between polls.
    pub fn auto_poll_interval(&self) -> (secs: Option<u64>)
        ensures
            secs == Some(300u64),
    {
        Some(300)
    }

    /// The job row its pictures are asked for through.
    pub fn job_codec(&self) -> (row: Option<JobRow>)
        ensures
            row == Some(JobRow::Reports),
    {
        let row = JobRow::named("overlay/reports");
        proof {
            assert(JobRow::Reports.label_view() == "overlay/reports"@);
            if let Some(found) = row {
                law_labels_tell_rows_apart(found, JobRow::Reports);
            }
        }
        row
    }
}

/// The source time a loop needs is the convective day behind each of its stops: an
/// instant is held exactly where, for some stop, it is not later than the stop and
/// not earlier than the twelve o'clock UTC that opened the stop's day. A stop
/// whose day opened off the calendar adds nothing.
pub proof fn law_every_stops_day_is_held(stops: Seq<Instant>, t: Instant)
    ensures
        ({
            let held = all_joined(days_behind(stops));
            (exists|k: int|
                0 <= k < held.len() && !t.before((#[trigger] held[k]).0) && !held[k].1.before(t))
                == (exists|i: int|
                0 <= i < stops.len() && opened_since(#[trigger] stops[i], t.secs as int)
                    && !stops[i].before(t))
        }),
{
    let held = all_joined(days_behind(stops));
    law_joining_keeps_instants(days_behind(stops), t);
    lemma_days_behind(stops, t);
    assert(in_any(held, t) == exists|k: int|
        0 <= k < held.len() && !t.before((#[trigger] held[k]).0) && !held[k].1.before(t)) by {
        if in_any(held, t) {
            let k = choose|k: int|
                0 <= k < held.len() && crate::frames::within(#[trigger] held[k], t);
            assert(!t.before(held[k].0) && !held[k].1.before(t));
        }
        if exists|k: int|
            0 <= k < held.len() && !t.before((#[trigger] held[k]).0) && !held[k].1.before(t) {
            let k = choose|k: int|
                0 <= k < held.len() && !t.before((#[trigger] held[k]).0) && !held[k].1.before(t);
            assert(crate::frames::within(held[k], t));
        }
    }
}

/// Whether a second is a twelve o'clock UTC.
pub open spec fn is_noon(sec: int) -> bool {
    sec % 86_400 == 43_200
}

/// Whether a second is in a stop's convective day or later: some twelve o'clock
/// UTC, on the calendar and less than a day before the stop, is not past it.
pub open spec fn opened_since(stop: Instant, sec: int) -> bool {
    exists|noon: int| #[trigger]
        is_noon(noon) && noon <= stop.secs < noon + 86_400 && FIRST_SECOND <= noon <= sec
}

proof fn lemma_days_behind(stops: Seq<Instant>, t: Instant)
    ensures
        in_any(days_behind(stops), t) == exists|i: int|
            0 <= i < stops.len() && opened_since(#[trigger] stops[i], t.secs as int)
                && !stops[i].before(t),
    decreases stops.len(),
{
    let spans = days_behind(stops);
    if stops.len() > 0 {
        let fewer = stops.drop_last();
        let last = stops[stops.len() - 1];
        lemma_days_behind(fewer, t);
        let before = days_behind(fewer);
        law_convective_day_opens_at_noon(last);
        let own = opened_since(last, t.secs as int) && !last.before(t);
        assert(opened_since(last, t.secs as int) == (FIRST_SECOND <= day_open(last) <= t.secs)) by {
            if opened_since(last, t.secs as int) {
                let noon = choose|noon: int| #[trigger]
                    is_noon(noon) && noon <= last.secs < noon + 86_400 && FIRST_SECOND <= noon
                        <= t.secs;
                assert(noon == day_open(last));
            }
            if FIRST_SECOND <= day_open(last) <= t.secs {
                assert(is_noon(day_open(last)));
            }
        }
        if let Some(start) = day_start(last) {
            lemma_in_push(before, (start, last), t);
        }
        assert(in_any(spans, t) == (in_any(before, t) || own));
        if exists|i: int|
            0 <= i < fewer.len() && opened_since(#[trigger] fewer[i], t.secs as int)
                && !fewer[i].before(t) {
            let i = choose|i: int|
                0 <= i < fewer.len() && opened_since(#[trigger] fewer[i], t.secs as int)
                    && !fewer[i].before(t);
            assert(stops[i] == fewer[i]);
        }
        if exists|i: int|
            0 <= i < stops.len() && opened_since(#[trigger] stops[i], t.secs as int)
                && !stops[i].before(t) {
            let i = choose|i: int|
                0 <= i < stops.len() && opened_since(#[trigger] stops[i], t.secs as int)
                    && !stops[i].before(t);
            if i < fewer.len() {
                assert(fewer[i] == stops[i]);
            }
        }
    }
}

/// A selection outlives a round unless it is a report past the round's last; those
/// that do keep their order.
pub proof fn law_only_lost_reports_are_unselected(
    selections: Seq<Selection>,
    count: nat,
    selection: Selection,
)
    ensures
        still_selected(selections, count).contains(selection) == (selections.contains(selection)
            && !(selection.layer == LayerId::StormReports && selection.index >= count)),
        still_selected(selections, count) == selections.filter(
            |s: Selection| !(s.layer == LayerId::StormReports && s.index >= count),
        ),
    decreases selections.len(),
{
    reveal(Seq::filter);
    let keep = |s: Selection| !(s.layer == LayerId::StormReports && s.index >= count);
    if selections.len() > 0 {
        law_only_lost_reports_are_unselected(selections.drop_last(), count, selection);
    }
    if selections.contains(selection) && keep(selection) {
        selections.lemma_filter_contains(keep, selections.index_of(selection));
    }
    if selections.filter(keep).contains(selection) {
        selections.lemma_filter_contains_rev(keep, selection);
        selections.lemma_filter_pred(keep, selections.filter(keep).index_of(selection));
    }
}

/// A row is painted for every report, with the report's own kind, place and time.
pub proof fn law_every_report_is_painted(items: Seq<Arc<StormReportItem>>)
    ensures
        painted(items).len() == items.len(),
        forall|i: int|
            0 <= i < items.len() ==> {
                let row = #[trigger] painted(items)[i];
                let report = items[i].report;
                &&& row.kind == report.kind
                &&& row.lat == report.lat
                &&& row.lon == report.lon
                &&& row.valid == report.valid
            },
{
}

/// A time of four digits is shown with a colon, and on the machine's own clock
/// where that is asked for and the digits are a minute of a day; any other text is
/// shown as it came. A dialog says a report's magnitude and comments where it has
/// them, and always when and where.
pub proof fn law_a_report_reads_as_it_was_filed(
    report: &StormReport,
    timezone: TimezonePreference,
    local: Seq<char>,
    size: Seq<char>,
)
    ensures
        ({
            let time = report.time@;
            let four = time.len() == 4 && forall|i: int|
                0 <= i < 4 ==> '0' <= #[trigger] time[i] && time[i] <= '9';
            let minute = 10 * (time[0] as int - 48) + (time[1] as int - 48) < 24 && 10 * (
            time[2] as int - 48) + (time[3] as int - 48) < 60;
            let shown = clock_text(time, timezone, local);
            let sections = report.sections(timezone, local, size);
            &&& !four ==> shown == time + " UTC"@
            &&& four && timezone == TimezonePreference::Local && minute ==> shown == local
            &&& four && (timezone == TimezonePreference::Utc || !minute) ==> shown == time.take(2)
                + ":"@ + time.skip(2) + " UTC"@
            &&& sections[0] == SectionView::Text(
                shown + " - "@ + report.location@ + ", "@ + report.county@ + " "@ + report.state@,
            )
            &&& sections.len() == 1 + (if report.magnitude is Some {
                1int
            } else {
                0
            }) + (if report.comments@.len() > 0 {
                1int
            } else {
                0
            })
            &&& report.magnitude is Some ==> sections[1] == SectionView::Text(
                magnitude_text(report.kind) + size,
            )
            &&& report.comments@.len() > 0 ==> sections.last() == SectionView::Text(
                report.comments@,
            )
        }),
{
    let time = report.time@;
    let four = time.len() == 4 && forall|i: int|
        0 <= i < 4 ==> '0' <= #[trigger] time[i] && time[i] <= '9';
    if four {
        assert forall|i: int| 0 <= i < time.len() implies is_digit(#[trigger] time[i]) by {
            assert('0' <= time[i] && time[i] <= '9');
        }
        lemma_two_digits(time.take(2));
        lemma_two_digits(time.skip(2));
        assert(time.take(2)[0] == time[0] && time.take(2)[1] == time[1]);
        assert(time.skip(2)[0] == time[2] && time.skip(2)[1] == time[3]);
    }
    if is_clock(time) {
        assert forall|i: int| 0 <= i < 4 implies '0' <= #[trigger] time[i] && time[i] <= '9' by {
            assert(is_digit(time[i]));
        }
    }
}

proof fn lemma_two_digits(text: Seq<char>)
    requires
        text.len() == 2,
        is_digit(text[0]),
        is_digit(text[1]),
    ensures
        byte_number(text) == Some((10 * (text[0] as int - 48) + (text[1] as int - 48)) as u8),
{
    let tens = text.drop_last();
    assert(text[0] != '+');
    assert(tens.drop_last() =~= Seq::<char>::empty());
    assert(crate::text::spelled_number(Seq::<char>::empty()) == 0);
    assert(crate::text::spelled_number(tens) == text[0] as int - 48);
    assert(crate::text::spelled_number(text) == 10 * (text[0] as int - 48) + (text[1] as int
        - 48));
}

/// The panel's toggle says how many reports there are, where there are any, and
/// whether the pane draws them; a refresh is offered while none is under way.
pub proof fn law_the_panel_counts_the_reports(
    count: nat,
    on: bool,
    fetching: bool,
    age: Option<u64>,
)
    ensures
        ({
            let items = panel(count, on, fetching, age);
            &&& items[0] is Toggle
            &&& items[0]->Toggle_enabled == on
            &&& count > 0 ==> items[0]->Toggle_label == "SPC Storm Reports ("@ + decimal(count)
                + ")"@
            &&& count == 0 ==> items[0]->Toggle_label == "SPC Storm Reports"@
            &&& items[1] is ButtonRow
            &&& items[1]->buttons[0].id == "refresh"@
            &&& items[1]->buttons[0].enabled == !fetching
            &&& items.skip(2) == fetch_lines(fetching, age)
        }),
{
    assert(panel(count, on, fetching, age).skip(2) =~= fetch_lines(fetching, age));
}

} // verus!
