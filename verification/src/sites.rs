//! The radar-sites layer: where the network's stations are.
use vstd::prelude::*;
use crate::controls::{push_item, ControlEffect, ControlItem, ControlUpdate, ControlValue, ItemView};
use crate::layers::{LayerId, RenderMode, TimeAxis};
use crate::pane::{Pane, PaneToggle};
use crate::state::{next_generation, OverlayState};
use crate::text::same_text;

verus! {

/// One station. The position is `f64` bit patterns.
#[derive(Debug)]
pub struct SiteRow {
    pub name: String,
    pub lat: u64,
    pub lon: u64,
}

/// The stations, as whoever owns the table hands them over.
#[derive(Debug)]
pub struct RadarSitesFetchResult(pub Vec<SiteRow>);

/// The layer. It asks for no pictures: its painter reads the stations each frame.
#[derive(Debug)]
pub struct RadarSitesHandler {
    pub state: OverlayState<Vec<SiteRow>>,
    /// Whether the layer is on, for a caller without a pane.
    pub enabled: bool,
    /// The stations last replaced, until they are taken to be freed.
    pub retired: Option<Vec<SiteRow>>,
}

impl RadarSitesHandler {
    pub fn new() -> (handler: RadarSitesHandler)
        ensures
            handler.state.data@.len() == 0,
            handler.state.data_generation == 0,
            !handler.enabled,
            handler.retired is None,
    {
        RadarSitesHandler { state: OverlayState::new(Vec::new()), enabled: false, retired: None }
    }

    pub fn is_enabled(&self, pane: &Pane<PaneToggle>) -> (on: bool)
        ensures
            on == PaneToggle::on(*pane, self.enabled),
    {
        PaneToggle::is_on(pane, self.enabled)
    }

    /// Turns the layer on or off in a pane, or for everyone where there is none.
    pub fn set_enabled(&mut self, enabled: bool, pane: &mut Pane<PaneToggle>)
        ensures
            final(self).state == old(self).state,
            final(self).retired == old(self).retired,
            final(pane).peers == old(pane).peers,
            old(pane).state is Some ==> final(pane).state == Some(PaneToggle { enabled })
                && final(self).enabled == old(self).enabled,
            old(pane).state is None ==> final(pane).state is None && final(self).enabled
                == enabled,
    {
        if !PaneToggle::set(pane, enabled) {
            self.enabled = enabled;
        }
    }

    pub fn has_data(&self) -> (b: bool)
        ensures
            b == (self.state.data@.len() > 0),
    {
        self.state.data.len() > 0
    }

    /// Installs the stations, and sets those replaced aside.
    pub fn apply_fetch_result(&mut self, rows: RadarSitesFetchResult, now: u64)
        ensures
            final(self).state.data == rows.0,
            final(self).state.data_generation == next_generation(old(self).state.data_generation),
            final(self).state.fetch_time == Some(now),
            !final(self).state.fetching,
            final(self).state.retry@ == old(self).state.retry@.clean(),
            final(self).retired == Some(old(self).state.data),
            final(self).enabled == old(self).enabled,
    {
        self.retired = Some(self.state.set_data(rows.0, now));
    }

    /// Hands over the stations set aside.
    pub fn take_retired(&mut self) -> (retired: Option<Vec<SiteRow>>)
        ensures
            retired == old(self).retired,
            final(self).retired is None,
            final(self).state == old(self).state,
            final(self).enabled == old(self).enabled,
    {
        let mut retired: Option<Vec<SiteRow>> = None;
        std::mem::swap(&mut retired, &mut self.retired);
        retired
    }

    /// The options panel: one toggle.
    pub fn controls(&self, pane: &Pane<PaneToggle>) -> (items: Vec<ControlItem>)
        ensures
            items.deep_view() == seq![
                ItemView::Toggle {
                    id: "enabled"@,
                    label: "Radar Sites"@,
                    enabled: PaneToggle::on(*pane, self.enabled),
                },
            ],
    {
        let mut items: Vec<ControlItem> = Vec::new();
        assert(items.deep_view() =~= Seq::empty());
        push_item(
            &mut items,
            ControlItem::Toggle {
                id: "enabled",
                label: "Radar Sites".to_owned(),
                enabled: self.is_enabled(pane),
            },
        );
        items
    }

    /// Acts on a control: the toggle, in the pane or else for everyone. Nothing is
    /// ever fetched.
    pub fn apply_control(
        &mut self,
        update: &ControlUpdate,
        pane: &mut Pane<PaneToggle>,
    ) -> (effect: ControlEffect)
        ensures
            effect == ControlEffect::Nothing,
            final(self).state == old(self).state,
            final(self).retired == old(self).retired,
            final(pane).peers == old(pane).peers,
            match update.value {
                ControlValue::Bool(on) if update.id@ == "enabled"@ => {
                    &&& old(pane).state is Some ==> final(pane).state == Some(
                        PaneToggle { enabled: on },
                    ) && final(self).enabled == old(self).enabled
                    &&& old(pane).state is None ==> final(pane).state is None
                        && final(self).enabled == on
                },
                _ => final(pane).state == old(pane).state && final(self).enabled
                    == old(self).enabled,
            },
    {
        if same_text(update.id, "enabled") {
            if let ControlValue::Bool(on) = update.value {
                self.set_enabled(on, pane);
            }
        }
        ControlEffect::Nothing
    }
}

/// What the layer says of itself, whatever it holds.
impl RadarSitesHandler {
    pub fn id(&self) -> (id: LayerId)
        ensures
            id == LayerId::RadarSites,
    {
        LayerId::RadarSites
    }

    pub fn render_mode(&self) -> (mode: RenderMode)
        ensures
            mode == RenderMode::PerFrameDirect,
    {
        RenderMode::PerFrameDirect
    }

    /// Whether a picture belongs to one theme.
    pub fn theme_sensitive(&self) -> (b: bool)
        ensures
            b,
    {
        true
    }

    /// Heavier layers are drawn over lighter ones.
    pub fn draw_order_weight(&self) -> (weight: u32)
        ensures
            weight == 100,
    {
        100
    }

    pub fn display_name(&self) -> (name: &'static str)
        ensures
            name@ == "Radar Sites"@,
    {
        "Radar Sites"
    }

    pub fn time_axis(&self) -> (axis: TimeAxis)
        ensures
            axis == (TimeAxis::Live),
    {
        TimeAxis::Live
    }
}

} // verus!
