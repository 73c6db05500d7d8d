//! The model layer: one field of a forecast model, off one run, at one forecast
//! hour, or a loop of them.
pub mod axis;
pub mod grids;
pub mod panel;
pub mod parameter;
pub mod runs;
pub mod settings;

use std::sync::Arc;
use vstd::prelude::*;
use crate::fetch::FetchError;
use crate::frames::{
    any_spans,
    by_valid,
    clip,
    clipped,
    dedup,
    deduped,
    is_spanned,
    law_clip_keeps_the_window,
    law_dedup_keeps_every_frame,
    law_newest_is_newest,
    law_newest_is_the_last_reached,
    law_ordering_holds_the_same_frames,
    law_ordering_keeps_frames,
    newest_at,
    newest_at_or_before,
    ordered,
    sort_by_valid,
    FrameListing,
    FrameStamp,
};
use crate::instant::{law_hours_on_are_hours_since, Instant, LAST_SECOND};
use crate::jobs::gridded::{FieldGrid, GriddedInput, GridValues};
use crate::jobs::{law_labels_tell_rows_apart, JobRow};
use crate::layers::{LayerId, RenderMode, TimeAxis};
use crate::model::axis::{forecast_horizon, horizon, ModelAxis};
use crate::model::grids::{
    frame_label,
    grid_bytes,
    grid_entry,
    latest_key,
    law_a_use_makes_the_latest,
    law_the_latest_is_the_most_recently_used,
    price,
    shared_price,
    GridEntries,
    GridKey,
    ModelFrameCache,
    ModelGrid,
    ModelGridCache,
};
use crate::model::parameter::{Catalogue, ModelParameter};
use crate::model::runs::{latest_run, latest_run_at, EARLIEST_CLOCK};
use crate::pane::Pane;
use crate::price::{at_most_u64, cap_u64, capped};
use crate::recency::{
    arrived,
    held,
    keeps,
    keyed_once,
    law_arrival_is_held,
    law_eviction,
    law_touch_keeps_values,
    lemma_arrived,
    lemma_place,
    lemma_removed,
    lists,
    looked_up,
    price_sum,
    touched,
    Entry,
    Key,
};
use crate::state::{
    next_generation,
    turn_left,
    turned_left,
    OverlayState,
    RasterizeContext,
};
use crate::table::Table;

verus! {

/// What a pane asks of the model layer: whether it draws it, which field, which
/// way time runs, and the frame it is parked on.
#[derive(Clone, Copy, Debug, PartialEq, Eq)]
pub struct ModelPaneState {
    pub enabled: bool,
    pub selected_param: ModelParameter,
    pub axis: ModelAxis,
    /// The run and the forecast hour, or `None` for a pane that follows the
    /// latest run: it shows the most recently used grid of its field.
    pub selected_frame: Option<(Instant, u8)>,
}

impl ModelPaneState {
    /// A pane that has saved nothing.
    pub open spec fn fresh(enabled: bool, usual: ModelParameter) -> ModelPaneState {
        ModelPaneState {
            enabled,
            selected_param: usual,
            axis: ModelAxis::Forecast,
            selected_frame: None,
        }
    }

    pub fn new(enabled: bool, usual: ModelParameter) -> (state: ModelPaneState)
        ensures
            state == Self::fresh(enabled, usual),
    {
        ModelPaneState {
            enabled,
            selected_param: usual,
            axis: ModelAxis::Forecast,
            selected_frame: None,
        }
    }

    /// The field is one of the catalogue's, and the run is on the calendar.
    pub open spec fn sound(self, catalogue: &Catalogue) -> bool {
        &&& catalogue.lists(self.selected_param)
        &&& self.selected_frame matches Some((run, _)) ==> run.steady()
    }

    pub fn is_sound(&self, catalogue: &Catalogue) -> (b: bool)
        ensures
            b == self.sound(catalogue),
    {
        let dated = match self.selected_frame {
            Some((run, _)) => run.is_steady(),
            None => true,
        };
        let place: usize = self.selected_param.place as usize;
        dated && place < catalogue.rows.len() && catalogue.rows[place].parameter
            == self.selected_param
    }
}

/// Whether a clock reading leaves room on the calendar for every run that can be
/// spelled behind it.
pub open spec fn clock_sound(now: Instant) -> bool {
    EARLIEST_CLOCK <= now.secs <= LAST_SECOND
}

pub fn is_clock_sound(now: &Instant) -> (b: bool)
    ensures
        b == clock_sound(*now),
{
    EARLIEST_CLOCK <= now.secs && now.secs <= LAST_SECOND
}

/// What a listing of frames is filed under.
#[derive(Clone, Copy, Debug, PartialEq, Eq, Structural, Hash)]
pub struct ModelScope {
    pub param: ModelParameter,
    pub run: Instant,
    pub axis: ModelAxis,
}

impl Key for ModelScope {
    fn same(&self, other: &ModelScope) -> (b: bool) {
        *self == *other
    }
}

/// What a listing was asked for, carried with the answer: by the time it lands
/// the pane may be on another run or another axis.
#[derive(Debug)]
pub struct ModelListing {
    pub scope: ModelScope,
    pub range: (Instant, Instant),
    /// The runs the listing named; none for a forecast, whose frames follow from
    /// its run.
    pub runs: Vec<Instant>,
}

/// How a pane's frames are to be listed.
#[derive(Debug)]
pub enum ListingTask {
    /// They follow from the run: here they are, without asking anybody.
    Known(FrameListing, ModelListing),
    /// The archive must be asked for the runs of the window.
    Ask(ModelScope, (Instant, Instant)),
}

/// One frame's grid on its way back, under the key it was asked for.
#[derive(Debug)]
pub struct ModelFrameFetch {
    pub key: GridKey,
    pub grid: Option<ModelGrid>,
}

/// The model layer.
#[derive(Debug)]
pub struct ModelDataHandler {
    pub catalogue: Catalogue,
    /// The grid that last arrived.
    pub state: OverlayState<Option<Arc<ModelGrid>>>,
    /// What is used where there is no pane.
    pub defaults: ModelPaneState,
    pub cached_grids: ModelGridCache,
    pub frame_grids: ModelFrameCache,
    /// The runs an analysis listing named, by what it was asked for.
    pub frame_listings: Table<ModelScope, Vec<Instant>>,
    /// The windows a listing covered, by what it was asked for.
    pub covered: Table<ModelScope, Vec<(Instant, Instant)>>,
    pub last_error: Option<String>,
}

/// Every grid is filed under its own field, run and hour, at a run on the
/// calendar.
pub open spec fn filed_right(entries: GridEntries) -> bool {
    forall|key: GridKey| #[trigger]
        held(entries, key) ==> key.run.steady() && GridKey::of_grid(*looked_up(entries, key)->0)
            == key
}

/// Every key is at a run on the calendar.
pub open spec fn runs_on_calendar(entries: GridEntries) -> bool {
    forall|key: GridKey| #[trigger] held(entries, key) ==> key.run.steady()
}

/// Whether runs are each once, from the earliest on.
pub open spec fn runs_ascend(runs: Seq<Instant>) -> bool {
    forall|i: int, j: int|
        0 <= i < j < runs.len() ==> (#[trigger] runs[i]).before(#[trigger] runs[j])
}

/// Whether runs are all on the calendar.
pub open spec fn runs_dated(runs: Seq<Instant>) -> bool {
    forall|i: int| 0 <= i < runs.len() ==> (#[trigger] runs[i]).steady()
}

/// The runs every listing named are on the calendar, each once, from the earliest
/// on.
pub open spec fn listings_sound(listings: Map<ModelScope, Vec<Instant>>) -> bool {
    forall|scope: ModelScope| #[trigger]
        listings.contains_key(scope) ==> runs_dated(listings[scope]@) && runs_ascend(
            listings[scope]@,
        )
}

/// Runs with a later one put where it belongs.
pub open spec fn run_slotted(runs: Seq<Instant>, run: Instant) -> Seq<Instant>
    decreases runs.len(),
{
    if runs.len() == 0 || runs.last().before(run) {
        runs.push(run)
    } else {
        run_slotted(runs.drop_last(), run).push(runs.last())
    }
}

/// Runs with some more put where they belong, where they are not there yet.
pub open spec fn with_runs(runs: Seq<Instant>, more: Seq<Instant>) -> Seq<Instant>
    decreases more.len(),
{
    if more.len() == 0 {
        runs
    } else {
        let before = with_runs(runs, more.drop_last());
        if before.contains(more.last()) {
            before
        } else {
            run_slotted(before, more.last())
        }
    }
}

/// The key a pane's picture is under. A parked pane names its own, whether or
/// not its grid is held: one that has not landed is what makes the fetch happen.
pub open spec fn key_for(entries: GridEntries, view: ModelPaneState) -> Option<GridKey> {
    match view.selected_frame {
        Some((run, f_hour)) => Some(GridKey { param: view.selected_param, run, f_hour }),
        None => latest_key(entries, view.selected_param, None),
    }
}

/// The grid a pane shows, where it is held.
pub open spec fn shown(entries: GridEntries, view: ModelPaneState) -> Option<Arc<ModelGrid>> {
    match key_for(entries, view) {
        Some(key) => looked_up(entries, key),
        None => None,
    }
}

/// The live cache once a pane's picture was looked at.
pub open spec fn looked_at(entries: GridEntries, view: ModelPaneState) -> GridEntries {
    match key_for(entries, view) {
        Some(key) => touched(entries, key),
        None => entries,
    }
}

/// A list with one more, where it does not hold it yet.
pub open spec fn listed_once(keys: Seq<GridKey>, key: Option<GridKey>) -> Seq<GridKey> {
    match key {
        Some(k) => if keys.contains(k) {
            keys
        } else {
            keys.push(k)
        },
        None => keys,
    }
}

/// The keys of the panes that draw the layer, each once.
pub open spec fn pins(entries: GridEntries, states: Seq<ModelPaneState>) -> Seq<GridKey>
    decreases states.len(),
{
    if states.len() == 0 {
        Seq::empty()
    } else {
        let before = pins(entries, states.drop_last());
        if states.last().enabled {
            listed_once(before, key_for(entries, states.last()))
        } else {
            before
        }
    }
}

/// What must not be evicted: what some pane that draws the layer shows. Where
/// there is no pane at all, what the defaults would show.
pub open spec fn pinned_for(
    entries: GridEntries,
    states: Seq<ModelPaneState>,
    defaults: ModelPaneState,
) -> Seq<GridKey> {
    if states.len() == 0 {
        listed_once(Seq::empty(), key_for(entries, defaults))
    } else {
        pins(entries, states)
    }
}

/// The run a pane's frames belong to, where anything tells: the run it is parked
/// on, or that of its most recently used grid. The wall clock does not tell, or
/// a pane parked in the past would be walked forward.
pub open spec fn run_known(entries: GridEntries, view: ModelPaneState) -> Option<Instant> {
    match view.selected_frame {
        Some((run, _)) => Some(run),
        None => match latest_key(entries, view.selected_param, None) {
            Some(key) => Some(key.run),
            None => None,
        },
    }
}

/// The run a pane's frames belong to, as of the instant it depicts.
pub open spec fn run_as_of(entries: GridEntries, view: ModelPaneState, as_of: Instant) -> Instant {
    match view.selected_frame {
        Some((run, _)) => run,
        None => match latest_key(entries, view.selected_param, Some(latest_run(as_of))) {
            Some(key) => key.run,
            None => latest_run(as_of),
        },
    }
}

/// What a pane's listing is filed under, as of the instant it depicts.
pub open spec fn scope_as_of(entries: GridEntries, view: ModelPaneState,
    as_of: Instant) -> ModelScope {
    ModelScope {
        param: view.selected_param,
        run: run_as_of(entries, view, as_of),
        axis: view.axis,
    }
}

/// The frame of a run at an hour.
pub open spec fn stamp_of(run: Instant, f_hour: int) -> FrameStamp {
    FrameStamp { valid: run.hours_on(f_hour), run: Some(run) }
}

/// The forecast hours of one run: every hour from the field's first to the run's
/// last.
pub open spec fn forecast_frames(param: ModelParameter, run: Instant) -> Seq<FrameStamp> {
    Seq::new((horizon(run) + 1 - param.floor) as nat, |i: int| stamp_of(run, param.floor + i))
}

/// The first hour of some runs.
pub open spec fn analysis_frames(param: ModelParameter, runs: Seq<Instant>) -> Seq<FrameStamp> {
    Seq::new(runs.len(), |i: int| stamp_of(runs[i], param.floor as int))
}

/// The runs a scope's listing named.
pub open spec fn runs_listed(listings: Map<ModelScope, Vec<Instant>>, scope: ModelScope) -> Seq<
    Instant,
> {
    if listings.contains_key(scope) {
        listings[scope]@
    } else {
        Seq::empty()
    }
}

/// Every frame a scope names.
pub open spec fn frames_of(listings: Map<ModelScope, Vec<Instant>>, scope: ModelScope) -> Seq<
    FrameStamp,
> {
    match scope.axis {
        ModelAxis::Forecast => forecast_frames(scope.param, scope.run),
        ModelAxis::Analysis => analysis_frames(scope.param, runs_listed(listings, scope)),
    }
}

/// The field, run and hour a stamp names for a pane, where a listing named it.
pub open spec fn target_for(
    entries: GridEntries,
    listings: Map<ModelScope, Vec<Instant>>,
    view: ModelPaneState,
    as_of: Instant,
    stamp: FrameStamp,
) -> Option<GridKey> {
    match stamp.run {
        None => None,
        Some(run) => {
            let hours = stamp.valid.hours_since(run);
            let scope = scope_as_of(entries, view, as_of);
            let named = match view.axis {
                ModelAxis::Forecast => run == scope.run && hours <= horizon(run),
                ModelAxis::Analysis => hours == view.selected_param.floor && runs_listed(
                    listings,
                    scope,
                ).contains(run),
            };
            if view.selected_param.floor <= hours <= u8::MAX && named {
                Some(GridKey { param: view.selected_param, run, f_hour: hours as u8 })
            } else {
                None
            }
        },
    }
}

/// Whether a key is one of a scope's frames.
pub open spec fn in_scope(key: GridKey, scope: ModelScope) -> bool {
    &&& key.param == scope.param
    &&& match scope.axis {
        ModelAxis::Forecast => key.run == scope.run,
        ModelAxis::Analysis => key.f_hour == scope.param.floor,
    }
}

/// The frames of a store that are in a scope, in the store's order.
pub open spec fn stamps_held(entries: GridEntries, scope: ModelScope) -> Seq<FrameStamp>
    decreases entries.len(),
{
    if entries.len() == 0 {
        Seq::empty()
    } else {
        let before = stamps_held(entries.drop_last(), scope);
        let key = entries.last().key;
        if in_scope(key, scope) {
            before.push(stamp_of(key.run, key.f_hour as int))
        } else {
            before
        }
    }
}

/// Whether some frames name a key's grid, by run and valid time.
pub open spec fn named_by(key: GridKey, keep: Seq<FrameStamp>) -> bool {
    keep.contains(stamp_of(key.run, key.f_hour as int))
}

/// What is left of a staging area when a pane keeps some frames: the grids of
/// other fields, and those the frames name.
pub open spec fn kept_frames(
    entries: GridEntries,
    param: ModelParameter,
    keep: Seq<FrameStamp>,
) -> GridEntries
    decreases entries.len(),
{
    if entries.len() == 0 {
        Seq::empty()
    } else {
        let before = kept_frames(entries.drop_last(), param, keep);
        let key = entries.last().key;
        if key.param != param || named_by(key, keep) {
            before.push(entries.last())
        } else {
            before
        }
    }
}

impl ModelDataHandler {
    /// The stores are well keyed and rightly filed, every run is on the calendar,
    /// and where the cache holds the key of the grid that last arrived, it holds
    /// that very grid.
    pub open spec fn wf(&self) -> bool {
        &&& self.catalogue.wf()
        &&& self.cached_grids.wf()
        &&& self.frame_grids.wf()
        &&& self.frame_listings.wf()
        &&& self.covered.wf()
        &&& filed_right(self.cached_grids.entries())
        &&& runs_on_calendar(self.frame_grids.entries())
        &&& listings_sound(self.frame_listings@)
        &&& self.defaults.sound(&self.catalogue)
        &&& self.state.data matches Some(grid) ==> held(
            self.cached_grids.entries(),
            GridKey::of_grid(*grid),
        ) ==> looked_up(self.cached_grids.entries(), GridKey::of_grid(*grid)) == Some(grid)
    }

    /// A pane's field is one of the catalogue's, and so are its peers'.
    pub open spec fn pane_sound(&self, pane: &Pane<ModelPaneState>) -> bool {
        &&& pane.state matches Some(own) ==> own.sound(&self.catalogue)
        &&& forall|i: int|
            0 <= i < pane.peers@.len() ==> (#[trigger] pane.peers@[i]).sound(&self.catalogue)
    }

    pub fn is_pane_sound(&self, pane: &Pane<ModelPaneState>) -> (b: bool)
        ensures
            b == self.pane_sound(pane),
    {
        if let Some(own) = &pane.state {
            if !own.is_sound(&self.catalogue) {
                return false;
            }
        }
        let mut at: usize = 0;
        while at < pane.peers.len()
            invariant
                at <= pane.peers@.len(),
                forall|i: int|
                    0 <= i < at ==> (#[trigger] pane.peers@[i]).sound(&self.catalogue),
            decreases pane.peers@.len() - at,
        {
            if !pane.peers[at].is_sound(&self.catalogue) {
                assert(!pane.peers@[at as int].sound(&self.catalogue));
                return false;
            }
            at = at + 1;
        }
        true
    }

    /// What everything but the live cache's order of use, the pictures' counter
    /// and the defaults is.
    pub open spec fn same_but_use(&self, other: &ModelDataHandler) -> bool {
        &&& self.catalogue == other.catalogue
        &&& self.state.data == other.state.data
        &&& self.state.fetching == other.state.fetching
        &&& self.state.fetch_time == other.state.fetch_time
        &&& self.state.retry == other.state.retry
        &&& self.cached_grids.budget() == other.cached_grids.budget()
        &&& self.frame_grids == other.frame_grids
        &&& self.frame_listings == other.frame_listings
        &&& self.covered == other.covered
        &&& self.last_error == other.last_error
    }

    pub fn new(catalogue: Catalogue, budget: usize) -> (h: ModelDataHandler)
        requires
            catalogue.wf(),
        ensures
            h.wf(),
            h.catalogue == catalogue,
            h.defaults == ModelPaneState::fresh(false, catalogue.usual),
            h.cached_grids.entries() == GridEntries::empty(),
            h.cached_grids.budget() == budget,
            h.frame_grids.entries() == GridEntries::empty(),
            h.frame_grids.budget() == crate::model::grids::MODEL_FRAME_STAGING_BYTES,
            h.frame_listings@ == Map::<ModelScope, Vec<Instant>>::empty(),
            h.covered@ == Map::<ModelScope, Vec<(Instant, Instant)>>::empty(),
            h.state.data is None,
            h.state.data_generation == 0,
            !h.state.fetching,
            h.last_error is None,
    {
        let usual = catalogue.usual;
        ModelDataHandler {
            catalogue,
            state: OverlayState::new(None),
            defaults: ModelPaneState::new(false, usual),
            cached_grids: ModelGridCache::with_budget(budget),
            frame_grids: ModelFrameCache::with_budget(
                crate::model::grids::MODEL_FRAME_STAGING_BYTES,
            ),
            frame_listings: Table::new(),
            covered: Table::new(),
            last_error: None,
        }
    }

    /// The key a pane's picture is under.
    pub fn key_of(&self, view: &ModelPaneState) -> (key: Option<GridKey>)
        ensures
            key == key_for(self.cached_grids.entries(), *view),
    {
        match view.selected_frame {
            Some((run, f_hour)) => Some(GridKey { param: view.selected_param, run, f_hour }),
            None => self.cached_grids.latest_of(view.selected_param),
        }
    }

    /// The grid of a pane's picture, marked as just used.
    fn look(&mut self, view: &ModelPaneState) -> (grid: Option<Arc<ModelGrid>>)
        requires
            old(self).wf(),
        ensures
            final(self).wf(),
            final(self).same_but_use(old(self)),
            final(self).state == old(self).state,
            final(self).defaults == old(self).defaults,
            final(self).cached_grids.entries() == looked_at(
                old(self).cached_grids.entries(),
                *view,
            ),
            grid == shown(old(self).cached_grids.entries(), *view),
            grid matches Some(g) ==> g.ref_time.steady() && g.parameter == view.selected_param,
    {
        match self.key_of(view) {
            Some(key) => {
                proof {
                    law_touch_keeps_values(self.cached_grids.entries(), key);
                    lemma_latest_key(self.cached_grids.entries(), view.selected_param, None);
                }
                self.cached_grids.get(key)
            },
            None => None,
        }
    }

    /// The grid of a pane's picture, marked as just used.
    pub fn grid_of(&mut self, pane: &Pane<ModelPaneState>) -> (grid: Option<Arc<ModelGrid>>)
        requires
            old(self).wf(),
        ensures
            final(self).wf(),
            final(self).same_but_use(old(self)),
            final(self).state == old(self).state,
            final(self).defaults == old(self).defaults,
            final(self).cached_grids.entries() == looked_at(
                old(self).cached_grids.entries(),
                pane.own_or(old(self).defaults),
            ),
            grid == shown(old(self).cached_grids.entries(), pane.own_or(old(self).defaults)),
    {
        let view = pane.view_or(&self.defaults);
        self.look(&view)
    }

    /// Whether a pane's grid is held. To ask is a use.
    pub fn has_data(&mut self, pane: &Pane<ModelPaneState>) -> (b: bool)
        requires
            old(self).wf(),
        ensures
            final(self).wf(),
            final(self).same_but_use(old(self)),
            final(self).state == old(self).state,
            final(self).defaults == old(self).defaults,
            final(self).cached_grids.entries() == looked_at(
                old(self).cached_grids.entries(),
                pane.own_or(old(self).defaults),
            ),
            b == (shown(old(self).cached_grids.entries(), pane.own_or(old(self).defaults)) is Some),
    {
        self.grid_of(pane).is_some()
    }

    /// Every key some pane that draws the layer shows.
    pub fn pinned_keys(&self, pane: &Pane<ModelPaneState>) -> (keys: Vec<GridKey>)
        ensures
            keys@ == pinned_for(self.cached_grids.entries(), pane.all(), self.defaults),
    {
        let states = pane.states();
        let ghost entries = self.cached_grids.entries();
        let mut keys: Vec<GridKey> = Vec::new();
        if states.len() == 0 {
            if let Some(key) = self.key_of(&self.defaults) {
                keys.push(key);
            }
            assert(keys@ =~= listed_once(Seq::empty(), key_for(entries, self.defaults)));
            return keys;
        }
        let mut at: usize = 0;
        while at < states.len()
            invariant
                at <= states@.len(),
                entries == self.cached_grids.entries(),
                keys@ == pins(entries, states@.take(at as int)),
            decreases states@.len() - at,
        {
            assert(states@.take(at + 1).drop_last() =~= states@.take(at as int));
            if states[at].enabled {
                if let Some(key) = self.key_of(&states[at]) {
                    if !lists(&keys, &key) {
                        keys.push(key);
                    }
                }
            }
            at = at + 1;
        }
        assert(states@.take(at as int) =~= states@);
        keys
    }

    /// The run a pane's frames belong to, where anything tells.
    pub fn run_of(&self, view: &ModelPaneState) -> (run: Option<Instant>)
        ensures
            run == run_known(self.cached_grids.entries(), *view),
    {
        match view.selected_frame {
            Some((run, _)) => Some(run),
            None => match self.cached_grids.latest_of(view.selected_param) {
                Some(key) => Some(key.run),
                None => None,
            },
        }
    }

    /// The run a pane's frames belong to, as of the instant it depicts.
    pub fn run_at(&self, view: &ModelPaneState, as_of: Instant) -> (run: Instant)
        requires
            self.wf(),
            view.sound(&self.catalogue),
            clock_sound(as_of),
        ensures
            run == run_as_of(self.cached_grids.entries(), *view, as_of),
            run.steady(),
    {
        let ceiling = latest_run_at(as_of);
        match view.selected_frame {
            Some((run, _)) => run,
            None => match self.cached_grids.latest_not_after(view.selected_param, ceiling) {
                Some(key) => {
                    proof {
                        lemma_latest_key(
                            self.cached_grids.entries(),
                            view.selected_param,
                            Some(ceiling),
                        );
                    }
                    key.run
                },
                None => ceiling,
            },
        }
    }

    /// What a pane's listing is filed under, where its run is known.
    pub fn scope_of(&self, view: &ModelPaneState) -> (scope: Option<ModelScope>)
        requires
            self.wf(),
            view.sound(&self.catalogue),
        ensures
            scope == (match run_known(self.cached_grids.entries(), *view) {
                Some(run) => Some(ModelScope { param: view.selected_param, run, axis: view.axis }),
                None => None,
            }),
            scope matches Some(s) ==> s.run.steady(),
    {
        proof {
            lemma_latest_key(self.cached_grids.entries(), view.selected_param, None);
        }
        match self.run_of(view) {
            Some(run) => Some(ModelScope { param: view.selected_param, run, axis: view.axis }),
            None => None,
        }
    }

    /// What a pane's listing is filed under, as of the instant it depicts.
    pub fn scope_at(&self, view: &ModelPaneState, as_of: Instant) -> (scope: ModelScope)
        requires
            self.wf(),
            view.sound(&self.catalogue),
            clock_sound(as_of),
        ensures
            scope == scope_as_of(self.cached_grids.entries(), *view, as_of),
            scope.run.steady(),
    {
        ModelScope {
            param: view.selected_param,
            run: self.run_at(view, as_of),
            axis: view.axis,
        }
    }

    /// The forecast hours of one run.
    pub fn forecast_stamps(param: ModelParameter, run: Instant) -> (frames: Vec<FrameStamp>)
        requires
            param.sound(),
            run.steady(),
        ensures
            frames@ == forecast_frames(param, run),
    {
        let last: u8 = forecast_horizon(run);
        let ghost wanted = forecast_frames(param, run);
        let mut frames: Vec<FrameStamp> = Vec::new();
        let mut f_hour: u8 = param.min_forecast_hour();
        assert(frames@ =~= wanted.take(0));
        while f_hour <= last
            invariant
                param.floor <= f_hour <= last + 1,
                last == horizon(run),
                run.steady(),
                wanted == forecast_frames(param, run),
                frames@ == wanted.take(f_hour - param.floor),
            decreases last + 1 - f_hour,
        {
            frames.push(FrameStamp { valid: run.plus_hours(f_hour), run: Some(run) });
            assert(frames@ =~= wanted.take(f_hour - param.floor + 1));
            f_hour = f_hour + 1;
        }
        assert(wanted.take(f_hour - param.floor) =~= wanted);
        frames
    }

    /// The first hour of some runs.
    pub fn analysis_stamps(param: ModelParameter, runs: &Vec<Instant>) -> (frames: Vec<FrameStamp>)
        requires
            runs_dated(runs@),
        ensures
            frames@ == analysis_frames(param, runs@),
    {
        let ghost wanted = analysis_frames(param, runs@);
        let mut frames: Vec<FrameStamp> = Vec::new();
        let mut at: usize = 0;
        while at < runs.len()
            invariant
                at <= runs@.len(),
                runs_dated(runs@),
                wanted == analysis_frames(param, runs@),
                frames@ == wanted.take(at as int),
            decreases runs@.len() - at,
        {
            let run = runs[at];
            frames.push(
                FrameStamp { valid: run.plus_hours(param.min_forecast_hour()), run: Some(run) },
            );
            at = at + 1;
            assert(frames@ =~= wanted.take(at as int));
        }
        assert(wanted.take(at as int) =~= wanted);
        frames
    }

    /// Every frame a scope names, whatever the window.
    pub fn stamps_of(&self, scope: &ModelScope) -> (frames: Vec<FrameStamp>)
        requires
            self.wf(),
            scope.param.sound(),
            scope.run.steady(),
        ensures
            frames@ == frames_of(self.frame_listings@, *scope),
    {
        match scope.axis {
            ModelAxis::Forecast => Self::forecast_stamps(scope.param, scope.run),
            ModelAxis::Analysis => match self.frame_listings.get(scope) {
                Some(runs) => {
                    Self::analysis_stamps(scope.param, runs)
                },
                None => {
                    let frames: Vec<FrameStamp> = Vec::new();
                    assert(frames@ =~= analysis_frames(scope.param, Seq::empty()));
                    frames
                },
            },
        }
    }

    /// Whether a listing covered the whole of a window.
    pub open spec fn covers_view(&self, scope: ModelScope, range: (Instant, Instant)) -> bool {
        self.covered@.contains_key(scope) && any_spans(self.covered@[scope]@, range)
    }

    pub fn covers(&self, scope: &ModelScope, range: (Instant, Instant)) -> (b: bool)
        requires
            self.wf(),
        ensures
            b == self.covers_view(*scope, range),
    {
        match self.covered.get(scope) {
            Some(windows) => is_spanned(windows, &range),
            None => false,
        }
    }

    /// The field, run and hour a stamp names for a pane.
    pub fn frame_target(
        &self,
        view: &ModelPaneState,
        as_of: Instant,
        stamp: &FrameStamp,
    ) -> (key: Option<GridKey>)
        requires
            self.wf(),
            view.sound(&self.catalogue),
            clock_sound(as_of),
            stamp.valid.steady(),
            stamp.run matches Some(run) ==> run.steady(),
        ensures
            key == target_for(
                self.cached_grids.entries(),
                self.frame_listings@,
                *view,
                as_of,
                *stamp,
            ),
    {
        let run = match stamp.run {
            Some(run) => run,
            None => return None,
        };
        let f_hour: u8 = match stamp.valid.byte_hours_since(&run) {
            Some(f_hour) => f_hour,
            None => return None,
        };
        if f_hour < view.selected_param.min_forecast_hour() {
            return None;
        }
        let scope = self.scope_at(view, as_of);
        let named = match view.axis {
            ModelAxis::Forecast => run == scope.run && f_hour <= forecast_horizon(run),
            ModelAxis::Analysis => f_hour == view.selected_param.min_forecast_hour()
                && match self.frame_listings.get(&scope) {
                Some(runs) => has_run(runs, &run),
                None => false,
            },
        };
        if named {
            Some(GridKey { param: view.selected_param, run, f_hour })
        } else {
            None
        }
    }

    /// How many hours past the clock a pane's frames reach: its run's horizon on
    /// the forecast axis, and none on the analysis axis.
    pub fn frame_horizon(&self, pane: &Pane<ModelPaneState>, now: Instant) -> (hours: u8)
        requires
            clock_sound(now),
        ensures
            ({
                let view = pane.own_or(self.defaults);
                hours == (match view.axis {
                    ModelAxis::Forecast => horizon(
                        match run_known(self.cached_grids.entries(), view) {
                            Some(run) => run,
                            None => latest_run(now),
                        },
                    ),
                    ModelAxis::Analysis => 0,
                })
            }),
    {
        let view = pane.view_or(&self.defaults);
        match view.axis {
            ModelAxis::Forecast => {
                let run = match self.run_of(&view) {
                    Some(run) => run,
                    None => latest_run_at(now),
                };
                forecast_horizon(run)
            },
            ModelAxis::Analysis => 0,
        }
    }

    /// The frames a pane holds, in either store, each once from the earliest on.
    pub fn frames_resident(&self, pane: &Pane<ModelPaneState>) -> (frames: Vec<FrameStamp>)
        requires
            self.wf(),
            self.pane_sound(pane),
        ensures
            ({
                let view = pane.own_or(self.defaults);
                frames@ == (match run_known(self.cached_grids.entries(), view) {
                    Some(run) => {
                        let scope = ModelScope {
                            param: view.selected_param,
                            run,
                            axis: view.axis,
                        };
                        deduped(
                            by_valid(
                                stamps_held(self.frame_grids.entries(), scope) + stamps_held(
                                    self.cached_grids.entries(),
                                    scope,
                                ),
                            ),
                        )
                    },
                    None => Seq::empty(),
                })
            }),
    {
        let view = pane.view_or(&self.defaults);
        let scope = match self.scope_of(&view) {
            Some(scope) => scope,
            None => return Vec::new(),
        };
        let mut frames: Vec<FrameStamp> = Vec::new();
        let ghost staged = self.frame_grids.entries();
        let ghost live = self.cached_grids.entries();
        let mut at: usize = 0;
        while at < self.frame_grids.len()
            invariant
                self.wf(),
                staged == self.frame_grids.entries(),
                at <= staged.len(),
                frames@ == stamps_held(staged.take(at as int), scope),
            decreases staged.len() - at,
        {
            let key = self.frame_grids.key_at(at);
            proof {
                assert(staged.take(at + 1).drop_last() =~= staged.take(at as int));
                lemma_place(staged, key, at as int);
            }
            push_in_scope(&mut frames, &key, &scope);
            at = at + 1;
        }
        assert(staged.take(at as int) =~= staged);
        let ghost from_staged = frames@;
        let mut i: usize = 0;
        assert(from_staged + stamps_held(live.take(0), scope) =~= from_staged);
        while i < self.cached_grids.len()
            invariant
                self.wf(),
                live == self.cached_grids.entries(),
                i <= live.len(),
                frames@ == from_staged + stamps_held(live.take(i as int), scope),
            decreases live.len() - i,
        {
            let key = self.cached_grids.key_at(i);
            proof {
                assert(live.take(i + 1).drop_last() =~= live.take(i as int));
                lemma_place(live, key, i as int);
            }
            push_in_scope(&mut frames, &key, &scope);
            assert(frames@ =~= from_staged + stamps_held(live.take(i + 1), scope));
            i = i + 1;
        }
        assert(live.take(i as int) =~= live);
        dedup(&sort_by_valid(&frames))
    }

    /// The newest frame a pane's scope reaches at or before an instant.
    pub fn latest_at(&self, pane: &Pane<ModelPaneState>, t: Instant) -> (frame: Option<FrameStamp>)
        requires
            self.wf(),
            self.pane_sound(pane),
            clock_sound(t),
        ensures
            frame == newest_at(
                by_valid(
                    frames_of(
                        self.frame_listings@,
                        scope_as_of(
                            self.cached_grids.entries(),
                            pane.own_or(self.defaults),
                            t,
                        ),
                    ),
                ),
                t,
            ),
    {
        let view = pane.view_or(&self.defaults);
        let scope = self.scope_at(&view, t);
        let frames = sort_by_valid(&self.stamps_of(&scope));
        newest_at_or_before(&frames, &t)
    }

    /// The frames there are over a window. A forecast's follow from its run and
    /// are all there are; an analysis window is settled only where a listing
    /// covered it.
    pub fn list_frames(
        &self,
        pane: &Pane<ModelPaneState>,
        as_of: Instant,
        range: (Instant, Instant),
    ) -> (listing: FrameListing)
        requires
            self.wf(),
            self.pane_sound(pane),
            clock_sound(as_of),
        ensures
            ({
                let scope = scope_as_of(
                    self.cached_grids.entries(),
                    pane.own_or(self.defaults),
                    as_of,
                );
                &&& listing.range == range
                &&& listing.frames@ == by_valid(
                    clipped(frames_of(self.frame_listings@, scope), range),
                )
                &&& listing.complete == (scope.axis == ModelAxis::Forecast || self.covers_view(
                    scope,
                    range,
                ))
            }),
    {
        let view = pane.view_or(&self.defaults);
        let scope = self.scope_at(&view, as_of);
        let complete = match scope.axis {
            ModelAxis::Forecast => true,
            ModelAxis::Analysis => self.covers(&scope, range),
        };
        let frames = sort_by_valid(&clip(&self.stamps_of(&scope), &range));
        FrameListing { range, frames, complete }
    }

    /// How a pane's frames are to be listed, under the scope it has now.
    pub fn create_frame_list_task(
        &self,
        pane: &Pane<ModelPaneState>,
        as_of: Instant,
        range: (Instant, Instant),
    ) -> (task: ListingTask)
        requires
            self.wf(),
            self.pane_sound(pane),
            clock_sound(as_of),
        ensures
            ({
                let now = scope_as_of(
                    self.cached_grids.entries(),
                    pane.own_or(self.defaults),
                    as_of,
                );
                match task {
                    ListingTask::Known(listing, asked) => {
                        &&& now.axis == ModelAxis::Forecast
                        &&& listing.range == range
                        &&& listing.complete
                        &&& listing.frames@ == clipped(
                            forecast_frames(now.param, now.run),
                            range,
                        )
                        &&& asked.scope == now
                        &&& asked.range == range
                        &&& asked.runs@ == Seq::<Instant>::empty()
                    },
                    ListingTask::Ask(scope, window) => {
                        &&& now.axis == ModelAxis::Analysis
                        &&& scope == now
                        &&& window == range
                    },
                }
            }),
    {
        let view = pane.view_or(&self.defaults);
        let scope = self.scope_at(&view, as_of);
        match scope.axis {
            ModelAxis::Forecast => {
                let frames = clip(&Self::forecast_stamps(scope.param, scope.run), &range);
                ListingTask::Known(
                    FrameListing { range, frames, complete: true },
                    ModelListing { scope, range, runs: Vec::new() },
                )
            },
            ModelAxis::Analysis => ListingTask::Ask(scope, range),
        }
    }

    /// What the archive's answer comes to. A failed listing is empty, and is not
    /// complete: that nothing was found does not say that nothing exists.
    pub fn analysis_listing(
        scope: ModelScope,
        range: (Instant, Instant),
        answer: Option<Vec<Instant>>,
    ) -> (listed: (FrameListing, ModelListing))
        requires
            answer matches Some(runs) ==> runs_dated(runs@),
        ensures
            ({
                let runs = match answer {
                    Some(runs) => runs@,
                    None => Seq::empty(),
                };
                &&& listed.0.range == range
                &&& listed.0.complete == (answer is Some)
                &&& listed.0.frames@ == analysis_frames(scope.param, runs)
                &&& listed.1.scope == scope
                &&& listed.1.range == range
                &&& listed.1.runs@ == runs
            }),
    {
        let complete = answer.is_some();
        let runs = match answer {
            Some(runs) => runs,
            None => Vec::new(),
        };
        let frames = Self::analysis_stamps(scope.param, &runs);
        (FrameListing { range, frames, complete }, ModelListing { scope, range, runs })
    }

    /// The grid a frame must be fetched for: one that a listing named, and that
    /// neither store holds.
    pub fn fetch_frame(
        &self,
        pane: &Pane<ModelPaneState>,
        as_of: Instant,
        stamp: &FrameStamp,
    ) -> (key: Option<GridKey>)
        requires
            self.wf(),
            self.pane_sound(pane),
            clock_sound(as_of),
            stamp.valid.steady(),
            stamp.run matches Some(run) ==> run.steady(),
        ensures
            key == (match target_for(
                self.cached_grids.entries(),
                self.frame_listings@,
                pane.own_or(self.defaults),
                as_of,
                *stamp,
            ) {
                Some(target) => if held(self.frame_grids.entries(), target) || held(
                    self.cached_grids.entries(),
                    target,
                ) {
                    None
                } else {
                    Some(target)
                },
                None => None,
            }),
    {
        let view = pane.view_or(&self.defaults);
        match self.frame_target(&view, as_of, stamp) {
            Some(key) => if self.frame_grids.is_staged(key) || self.cached_grids.is_resident(key) {
                None
            } else {
                Some(key)
            },
            None => None,
        }
    }
}

/// Whether a list holds a run.
fn has_run(runs: &Vec<Instant>, run: &Instant) -> (b: bool)
    ensures
        b == runs@.contains(*run),
{
    let mut at: usize = 0;
    while at < runs.len()
        invariant
            at <= runs@.len(),
            forall|i: int| 0 <= i < at ==> runs@[i] != *run,
        decreases runs@.len() - at,
    {
        if runs[at] == *run {
            assert(runs@[at as int] == *run);
            return true;
        }
        at = at + 1;
    }
    false
}

/// Appends the frame a key is, where it is in scope.
fn push_in_scope(frames: &mut Vec<FrameStamp>, key: &GridKey, scope: &ModelScope)
    requires
        key.run.steady(),
    ensures
        final(frames)@ == (if in_scope(*key, *scope) {
            old(frames)@.push(stamp_of(key.run, key.f_hour as int))
        } else {
            old(frames)@
        }),
{
    if key.param != scope.param {
        return;
    }
    let on_axis = match scope.axis {
        ModelAxis::Forecast => key.run == scope.run,
        ModelAxis::Analysis => key.f_hour == scope.param.min_forecast_hour(),
    };
    if on_axis {
        frames.push(FrameStamp { valid: key.run.plus_hours(key.f_hour), run: Some(key.run) });
    }
}

proof fn lemma_latest_key(entries: GridEntries, param: ModelParameter, ceiling: Option<Instant>)
    ensures
        latest_key(entries, param, ceiling) matches Some(key) ==> key.param == param && held(
            entries,
            key,
        ),
    decreases entries.len(),
{
    if entries.len() > 0 {
        lemma_latest_key(entries.drop_last(), param, ceiling);
        let key = latest_key(entries, param, ceiling);
        if key is Some {
            if key->0 == entries.last().key {
                assert(entries[entries.len() - 1].key == key->0);
            } else {
                let i = crate::recency::place(entries.drop_last(), key->0);
                assert(entries[i] == entries.drop_last()[i]);
            }
        }
    }
}

/// What a fetch asks for: a parked pane's own run and hour, or the latest run
/// that the instant it depicts could name, at the field's first hour.
pub open spec fn fetch_view(view: ModelPaneState, as_of: Instant) -> (Instant, u8) {
    match view.selected_frame {
        Some((run, f_hour)) => (run.hour_start(), f_hour),
        None => (latest_run(as_of), view.selected_param.floor),
    }
}

pub fn fetch_frame(view: &ModelPaneState, as_of: Instant) -> (target: (Instant, u8))
    requires
        clock_sound(as_of),
        view.selected_frame matches Some((run, _)) ==> run.steady(),
    ensures
        target == fetch_view(*view, as_of),
{
    match view.selected_frame {
        Some((run, f_hour)) => (run.on_the_hour(), f_hour),
        None => (latest_run_at(as_of), view.selected_param.min_forecast_hour()),
    }
}

/// Whether a job carries a grid's field, and is none where there is no grid.
pub open spec fn carries(job: Option<GriddedInput>, grid: Option<Arc<ModelGrid>>) -> bool {
    match grid {
        Some(g) => job == Some(GriddedInput::Whole(g.field)),
        None => job is None,
    }
}

/// How many values a grid has.
pub open spec fn value_count(field: FieldGrid) -> nat {
    match field.values {
        GridValues::F32(bits) => bits@.len(),
        GridValues::Scaled(scaled) => scaled.codes@.len(),
    }
}

/// The frame's part of a picture's token.
pub open spec fn frame_token(key: Option<GridKey>) -> u64 {
    match key {
        Some(k) => turned_left(k.run.secs as u64, 16) ^ (k.f_hour + 1) as u64,
        None => 0,
    }
}

/// The token a picture is grouped by: the field and the frame are in it.
pub open spec fn picture_token(generation: u64, param: ModelParameter, key: Option<GridKey>) -> u64 {
    generation ^ turned_left((param.place + 1) as u64, 32) ^ frame_token(key)
}

/// Two panes on two fields never share a picture, nor do two on one field at two
/// runs or two hours, for runs from the epoch on.
pub proof fn law_tokens_tell_pictures_apart(
    generation: u64,
    param: ModelParameter,
    other: ModelParameter,
    a: GridKey,
    b: GridKey,
)
    ensures
        param.place != other.place ==> picture_token(generation, param, Some(a)) != picture_token(
            generation,
            other,
            Some(a),
        ) && picture_token(generation, param, None) != picture_token(generation, other, None),
        0 <= a.run.secs <= LAST_SECOND && 0 <= b.run.secs <= LAST_SECOND && (a.run.secs
            != b.run.secs || a.f_hour != b.f_hour) ==> picture_token(generation, param, Some(a))
            != picture_token(generation, param, Some(b)),
{
    let (p, q) = ((param.place + 1) as u64, (other.place + 1) as u64);
    let (fa, fb) = (frame_token(Some(a)), frame_token(Some(b)));
    assert(p <= 256 && q <= 256 && p != q ==> generation ^ ((p << 32u64) | (p >> 32u64)) ^ fa
        != generation ^ ((q << 32u64) | (q >> 32u64)) ^ fa) by (bit_vector);
    assert(p <= 256 && q <= 256 && p != q ==> generation ^ ((p << 32u64) | (p >> 32u64)) ^ 0u64
        != generation ^ ((q << 32u64) | (q >> 32u64)) ^ 0u64) by (bit_vector);
    let (ra, rb) = (a.run.secs as u64, b.run.secs as u64);
    let (ha, hb) = ((a.f_hour + 1) as u64, (b.f_hour + 1) as u64);
    let turned = turned_left(p, 32);
    if 0 <= a.run.secs <= LAST_SECOND && 0 <= b.run.secs <= LAST_SECOND {
        assert(ra < 0x1_0000_0000_0000 && rb < 0x1_0000_0000_0000 && ha <= 256 && hb <= 256 && (ra
            != rb || ha != hb) ==> generation ^ turned ^ (((ra << 16u64) | (ra >> 48u64)) ^ ha)
            != generation ^ turned ^ (((rb << 16u64) | (rb >> 48u64)) ^ hb)) by (bit_vector);
    }
}

impl ModelDataHandler {
    /// Files a listing under what it was asked for. A forecast's frames follow
    /// from its run, so nothing of one is kept; an analysis listing's runs are,
    /// and its window only where it was really covered.
    pub fn apply_frame_listing(&mut self, listing: &FrameListing, asked: &ModelListing)
        requires
            old(self).wf(),
            runs_dated(asked.runs@),
        ensures
            final(self).wf(),
            final(self).cached_grids == old(self).cached_grids,
            final(self).frame_grids == old(self).frame_grids,
            final(self).state == old(self).state,
            final(self).defaults == old(self).defaults,
            final(self).catalogue == old(self).catalogue,
            final(self).last_error == old(self).last_error,
            asked.scope.axis == ModelAxis::Forecast ==> final(self).frame_listings == old(
                self,
            ).frame_listings && final(self).covered == old(self).covered,
            asked.scope.axis == ModelAxis::Analysis ==> {
                &&& forall|scope: ModelScope| #[trigger]
                    final(self).frame_listings@.contains_key(scope) == (old(
                        self,
                    ).frame_listings@.contains_key(scope) || scope == asked.scope)
                &&& forall|scope: ModelScope| #[trigger]
                    runs_listed(final(self).frame_listings@, scope) == (if scope == asked.scope {
                        with_runs(
                            runs_listed(old(self).frame_listings@, scope),
                            asked.runs@,
                        )
                    } else {
                        runs_listed(old(self).frame_listings@, scope)
                    })
                &&& forall|scope: ModelScope, range: (Instant, Instant)| #[trigger]
                    final(self).covers_view(scope, range) == (old(self).covers_view(scope, range)
                        || (scope == asked.scope && listing.complete && crate::frames::spans(
                        asked.range,
                        range,
                    )))
            },
    {
        if asked.scope.axis == ModelAxis::Forecast {
            return;
        }
        let mut runs: Vec<Instant> = match self.frame_listings.get(&asked.scope) {
            Some(known) => copy_runs(known),
            None => Vec::new(),
        };
        let ghost known = runs@;
        assert(known =~= runs_listed(self.frame_listings@, asked.scope));
        let mut at: usize = 0;
        while at < asked.runs.len()
            invariant
                at <= asked.runs@.len(),
                runs_dated(asked.runs@),
                runs_dated(runs@),
                runs_ascend(runs@),
                runs@ == with_runs(known, asked.runs@.take(at as int)),
            decreases asked.runs@.len() - at,
        {
            assert(asked.runs@.take(at + 1).drop_last() =~= asked.runs@.take(at as int));
            if !has_run(&runs, &asked.runs[at]) {
                slot_run(&mut runs, asked.runs[at]);
            }
            at = at + 1;
        }
        assert(asked.runs@.take(at as int) =~= asked.runs@);
        self.frame_listings.insert(asked.scope, runs);
        if listing.complete && !self.covers(&asked.scope, asked.range) {
            let mut windows: Vec<(Instant, Instant)> = match self.covered.get(&asked.scope) {
                Some(known) => copy_windows(known),
                None => Vec::new(),
            };
            let ghost before = windows@;
            windows.push(asked.range);
            proof {
                assert forall|range: (Instant, Instant)| #[trigger]
                    any_spans(windows@, range) == (any_spans(before, range)
                        || crate::frames::spans(asked.range, range)) by {
                    crate::frames::lemma_one_more_window(before, asked.range, range);
                }
            }
            self.covered.insert(asked.scope, windows);
        } else if listing.complete {
            proof {
                assert forall|range: (Instant, Instant)| crate::frames::spans(
                    asked.range,
                    range,
                ) implies #[trigger] any_spans(self.covered@[asked.scope]@, range) by {
                    crate::frames::lemma_wider_window_spans(self.covered@[asked.scope]@,
                        asked.range, range);
                }
            }
        }
    }

    /// Stages one frame's grid under the key it was asked for. A failed one
    /// stages nothing. The live picture is not moved.
    pub fn apply_frame(&mut self, frame: ModelFrameFetch)
        requires
            old(self).wf(),
            frame.key.run.steady(),
        ensures
            final(self).wf(),
            final(self).cached_grids == old(self).cached_grids,
            final(self).state == old(self).state,
            final(self).defaults == old(self).defaults,
            final(self).catalogue == old(self).catalogue,
            final(self).frame_listings == old(self).frame_listings,
            final(self).covered == old(self).covered,
            final(self).last_error == old(self).last_error,
            final(self).frame_grids.budget() == old(self).frame_grids.budget(),
            final(self).frame_grids.entries() == (match frame.grid {
                Some(grid) => old(self).frame_grids.staged(frame.key, Arc::new(grid)),
                None => old(self).frame_grids.entries(),
            }),
    {
        match frame.grid {
            Some(grid) => {
                let grid = Arc::new(grid);
                proof {
                    let entry = grid_entry(frame.key, grid);
                    let grown = arrived(self.frame_grids.entries(), entry);
                    lemma_arrived(self.frame_grids.entries(), entry);
                    law_eviction(
                        grown,
                        self.frame_grids.budget() as nat,
                        usize::MAX as nat,
                        Some(frame.key),
                        Seq::empty(),
                    );
                }
                self.frame_grids.insert(frame.key, grid);
            },
            None => {},
        }
    }

    /// Lets go of the staged grids of a pane's field that no frame of `keep`
    /// names. The live cache is held by its own budget.
    pub fn retain_frames(&mut self, pane: &Pane<ModelPaneState>, keep: &Vec<FrameStamp>)
        requires
            old(self).wf(),
            old(self).pane_sound(pane),
        ensures
            final(self).wf(),
            final(self).cached_grids == old(self).cached_grids,
            final(self).state == old(self).state,
            final(self).defaults == old(self).defaults,
            final(self).catalogue == old(self).catalogue,
            final(self).frame_listings == old(self).frame_listings,
            final(self).covered == old(self).covered,
            final(self).last_error == old(self).last_error,
            final(self).frame_grids.budget() == old(self).frame_grids.budget(),
            ({
                let view = pane.own_or(old(self).defaults);
                final(self).frame_grids.entries() == (if run_known(
                    old(self).cached_grids.entries(),
                    view,
                ) is Some {
                    kept_frames(old(self).frame_grids.entries(), view.selected_param, keep@)
                } else {
                    old(self).frame_grids.entries()
                })
            }),
    {
        let view = pane.view_or(&self.defaults);
        let param = match self.scope_of(&view) {
            Some(scope) => scope.param,
            None => return,
        };
        let ghost before = self.frame_grids.entries();
        let mut at: usize = self.frame_grids.len();
        assert(before.take(at as int) =~= before);
        assert(kept_frames(before, param, keep@) =~= kept_frames(before.take(at as int), param, keep@)
            + Seq::<crate::recency::Entry<GridKey, Arc<ModelGrid>>>::empty());
        let ghost mut tail: GridEntries = Seq::empty();
        while at > 0
            invariant
                self.wf(),
                at <= before.len(),
                param == view.selected_param,
                self.cached_grids == old(self).cached_grids,
                self.state == old(self).state,
                self.defaults == old(self).defaults,
                self.catalogue == old(self).catalogue,
                self.frame_listings == old(self).frame_listings,
                self.covered == old(self).covered,
                self.last_error == old(self).last_error,
                self.frame_grids.budget() == old(self).frame_grids.budget(),
                self.frame_grids.entries() == before.take(at as int) + tail,
                kept_frames(before, param, keep@) == kept_frames(
                    before.take(at as int),
                    param,
                    keep@,
                ) + tail,
            decreases at,
        {
            let ghost entries = self.frame_grids.entries();
            let key = self.frame_grids.key_at(at - 1);
            proof {
                lemma_place(entries, key, at - 1);
                assert(before.take(at as int).last() == before[at - 1]);
                assert(before.take(at as int).drop_last() =~= before.take(at - 1));
                assert(entries[at - 1] == before[at - 1]);
            }
            let stays = key.param != param || names_key(keep, &key);
            if stays {
                proof {
                    tail = seq![before[at - 1]] + tail;
                    assert(entries =~= before.take(at - 1) + tail);
                    assert(kept_frames(before, param, keep@) =~= kept_frames(
                        before.take(at - 1),
                        param,
                        keep@,
                    ) + tail);
                }
            } else {
                proof {
                    lemma_removed(entries, at - 1);
                    assert(entries.remove(at - 1) =~= before.take(at - 1) + tail);
                }
                self.frame_grids.drop_at(at - 1);
            }
            at = at - 1;
        }
        assert(self.frame_grids.entries() =~= tail);
        assert(kept_frames(before, param, keep@) =~= tail);
    }

    /// Takes a fetch's answer in. A grid is filed under its own field, run and
    /// hour, and no pane's picture is evicted for it.
    pub fn apply_fetch_result(
        &mut self,
        result: Result<ModelGrid, FetchError>,
        pane: &Pane<ModelPaneState>,
        clock: u64,
    )
        requires
            old(self).wf(),
            result matches Ok(grid) ==> grid.ref_time.steady(),
        ensures
            final(self).wf(),
            final(self).defaults == old(self).defaults,
            final(self).catalogue == old(self).catalogue,
            final(self).frame_grids == old(self).frame_grids,
            final(self).frame_listings == old(self).frame_listings,
            final(self).covered == old(self).covered,
            final(self).cached_grids.budget() == old(self).cached_grids.budget(),
            !final(self).state.fetching,
            match result {
                Ok(grid) => {
                    &&& final(self).cached_grids.entries() == old(self).cached_grids.installed(
                        GridKey::of_grid(grid),
                        Arc::new(grid),
                        pinned_for(
                            old(self).cached_grids.entries(),
                            pane.all(),
                            old(self).defaults,
                        ),
                    )
                    &&& final(self).state.data == Some(Arc::new(grid))
                    &&& final(self).state.data_generation == next_generation(
                        old(self).state.data_generation,
                    )
                    &&& final(self).state.fetch_time == Some(clock)
                    &&& final(self).state.retry@ == old(self).state.retry@.clean()
                    &&& final(self).last_error is None
                },
                Err(e) => {
                    &&& final(self).cached_grids == old(self).cached_grids
                    &&& final(self).state.data == old(self).state.data
                    &&& final(self).state.data_generation == old(self).state.data_generation
                    &&& final(self).state.fetch_time == old(self).state.fetch_time
                    &&& final(self).state.retry@ == old(self).state.retry@.failed(e@)
                    &&& final(self).last_error.deep_view() == Some(e.message@)
                },
            },
    {
        match result {
            Ok(grid) => {
                let key = GridKey::of(&grid);
                let grid = Arc::new(grid);
                let pinned = self.pinned_keys(pane);
                proof {
                    let entry = grid_entry(key, grid);
                    let grown = arrived(self.cached_grids.entries(), entry);
                    let budget = self.cached_grids.budget() as nat;
                    lemma_arrived(self.cached_grids.entries(), entry);
                    law_eviction(grown, budget, usize::MAX as nat, Some(key), pinned@);
                    law_arrival_is_held(
                        self.cached_grids.entries(),
                        entry,
                        budget,
                        usize::MAX as nat,
                        pinned@,
                    );
                }
                self.cached_grids.insert(key, Arc::clone(&grid), &pinned);
                self.state.set_data(Some(grid), clock);
                self.last_error = None;
            },
            Err(e) => {
                self.last_error = Some(e.message.clone());
                self.state.record_failure(&e);
            },
        }
    }

    /// The token a pane's picture is grouped by.
    pub fn content_signature(&self, pane: &Pane<ModelPaneState>) -> (token: u64)
        ensures
            ({
                let view = pane.own_or(self.defaults);
                token == picture_token(
                    self.state.data_generation,
                    view.selected_param,
                    key_for(self.cached_grids.entries(), view),
                )
            }),
    {
        let view = pane.view_or(&self.defaults);
        let frame: u64 = match self.key_of(&view) {
            Some(key) => turn_left(key.run.secs as u64, 16) ^ (key.f_hour as u64 + 1),
            None => 0,
        };
        self.state.data_generation ^ turn_left(view.selected_param.place as u64 + 1, 32) ^ frame
    }

    pub fn is_enabled(&self, pane: &Pane<ModelPaneState>) -> (b: bool)
        ensures
            b == pane.own_or(self.defaults).enabled,
    {
        pane.view_or(&self.defaults).enabled
    }

    pub fn set_enabled(&mut self, enabled: bool, pane: &mut Pane<ModelPaneState>)
        requires
            old(self).wf(),
        ensures
            final(self).wf(),
            final(self).same_but_use(old(self)),
            final(self).state == old(self).state,
            final(self).cached_grids == old(self).cached_grids,
            final(pane).peers == old(pane).peers,
            old(pane).state is Some ==> final(self).defaults == old(self).defaults,
            (final(pane).state is Some) == (old(pane).state is Some),
            final(pane).own_or(final(self).defaults) == (ModelPaneState {
                enabled,
                ..old(pane).own_or(old(self).defaults)
            }),
    {
        let mut view = pane.view_or(&self.defaults);
        view.enabled = enabled;
        pane.put(&mut self.defaults, view);
    }

    /// The field a pane shows, as the catalogue spells it.
    pub fn current_field(&self, pane: &Pane<ModelPaneState>) -> (code: &str)
        requires
            self.wf(),
            self.pane_sound(pane),
        ensures
            code@ == self.catalogue.code_of(pane.own_or(self.defaults).selected_param),
    {
        self.catalogue.code(pane.view_or(&self.defaults).selected_param)
    }

    /// A pane's field, and the frame on the glass: that of the grid that is held,
    /// never that of the selection.
    pub fn status_line(&mut self, pane: &Pane<ModelPaneState>) -> (line: Option<String>)
        requires
            old(self).wf(),
            old(self).pane_sound(pane),
        ensures
            final(self).wf(),
            final(self).same_but_use(old(self)),
            final(self).state == old(self).state,
            final(self).defaults == old(self).defaults,
            ({
                let view = pane.own_or(old(self).defaults);
                let entries = old(self).cached_grids.entries();
                let name = old(self).catalogue.name_of(view.selected_param);
                &&& final(self).cached_grids.entries() == (if view.enabled {
                    looked_at(entries, view)
                } else {
                    entries
                })
                &&& line.deep_view() == (if !view.enabled {
                    None
                } else {
                    Some(
                        match shown(entries, view) {
                            Some(grid) => name + " - "@ + grid.label(),
                            None => name,
                        },
                    )
                })
            }),
    {
        let view = pane.view_or(&self.defaults);
        if !view.enabled {
            return None;
        }
        let grid = self.look(&view);
        let mut line = self.catalogue.name(view.selected_param).to_owned();
        if let Some(g) = grid {
            line.append(" - ");
            line.append(frame_label(&g).as_str());
        }
        Some(line)
    }

    pub fn set_fetching(&mut self, fetching: bool)
        requires
            old(self).wf(),
        ensures
            final(self).wf(),
            final(self).state.fetching == fetching,
            final(self).state.data == old(self).state.data,
            final(self).state.data_generation == old(self).state.data_generation,
            final(self).state.fetch_time == old(self).state.fetch_time,
            final(self).state.retry == old(self).state.retry,
            final(self).cached_grids == old(self).cached_grids,
            final(self).frame_grids == old(self).frame_grids,
            final(self).frame_listings == old(self).frame_listings,
            final(self).covered == old(self).covered,
            final(self).defaults == old(self).defaults,
            final(self).catalogue == old(self).catalogue,
            final(self).last_error == old(self).last_error,
    {
        self.state.fetching = fetching;
    }

    /// How many values the grid that last arrived has.
    pub fn item_count(&self) -> (count: usize)
        ensures
            count == (match self.state.data {
                Some(grid) => value_count(*grid.field),
                None => 0,
            }),
    {
        match &self.state.data {
            Some(grid) => match &grid.field.values {
                GridValues::F32(bits) => bits.len(),
                GridValues::Scaled(scaled) => scaled.codes.len(),
            },
            None => 0,
        }
    }

    /// What a colour bar is told apart by: the field alone, and not the counter
    /// that every fetch moves.
    pub fn legend_signature(&self, pane: &Pane<ModelPaneState>) -> (signature: Option<u64>)
        ensures
            ({
                let view = pane.own_or(self.defaults);
                signature == (if view.enabled {
                    Some((view.selected_param.place + 1) as u64)
                } else {
                    None
                })
            }),
    {
        let view = pane.view_or(&self.defaults);
        if view.enabled {
            Some(view.selected_param.place as u64 + 1)
        } else {
            None
        }
    }

    /// The grid a picture is made from. A named frame wins over the pane's own
    /// selection, and one that is in neither store describes nothing: any other
    /// grid would be another instant's.
    pub fn prepare_job(&mut self, ctx: &RasterizeContext, pane: &Pane<ModelPaneState>) -> (job:
        Option<GriddedInput>)
        requires
            old(self).wf(),
            old(self).pane_sound(pane),
            clock_sound(ctx.as_of),
            ctx.frame matches Some(stamp) ==> stamp.valid.steady() && (stamp.run matches Some(run)
                ==> run.steady()),
        ensures
            final(self).wf(),
            final(self).state == old(self).state,
            final(self).defaults == old(self).defaults,
            final(self).catalogue == old(self).catalogue,
            final(self).frame_listings == old(self).frame_listings,
            final(self).covered == old(self).covered,
            final(self).last_error == old(self).last_error,
            final(self).cached_grids.budget() == old(self).cached_grids.budget(),
            final(self).frame_grids.budget() == old(self).frame_grids.budget(),
            ({
                let view = pane.own_or(old(self).defaults);
                let live = old(self).cached_grids.entries();
                let staged = old(self).frame_grids.entries();
                match ctx.frame {
                    None => {
                        &&& carries(job, shown(live, view))
                        &&& final(self).cached_grids.entries() == looked_at(live, view)
                        &&& final(self).frame_grids == old(self).frame_grids
                    },
                    Some(stamp) => match target_for(
                        live,
                        old(self).frame_listings@,
                        view,
                        ctx.as_of,
                        stamp,
                    ) {
                        None => job is None && *final(self) == *old(self),
                        Some(key) => {
                            &&& final(self).frame_grids.entries() == touched(staged, key)
                            &&& held(staged, key) ==> carries(job, looked_up(staged, key))
                                && final(self).cached_grids == old(self).cached_grids
                            &&& !held(staged, key) ==> carries(job, looked_up(live, key))
                                && final(self).cached_grids.entries() == touched(live, key)
                        },
                    },
                }
            }),
    {
        let view = pane.view_or(&self.defaults);
        let grid = match &ctx.frame {
            Some(stamp) => {
                let key = match self.frame_target(&view, ctx.as_of, stamp) {
                    Some(key) => key,
                    None => return None,
                };
                proof {
                    law_touch_keeps_values(self.frame_grids.entries(), key);
                    law_touch_keeps_values(self.cached_grids.entries(), key);
                }
                match self.frame_grids.get(key) {
                    Some(grid) => Some(grid),
                    None => self.cached_grids.get(key),
                }
            },
            None => self.look(&view),
        };
        match grid {
            Some(grid) => Some(GriddedInput::Whole(Arc::clone(&grid.field))),
            None => None,
        }
    }

    /// What the two stores hold costs.
    pub open spec fn stored(&self) -> nat {
        capped(price_sum(self.cached_grids.entries(), shared_price())) as nat + capped(
            price_sum(self.frame_grids.entries(), shared_price()),
        ) as nat
    }

    /// What the grid that last arrived costs.
    pub open spec fn carried(&self) -> nat {
        match self.state.data {
            Some(grid) => capped(price(*grid)) as nat,
            None => 0,
        }
    }

    /// What the grids cost. The grid that last arrived is counted with the store
    /// that still holds it, or on its own where none does.
    pub open spec fn resident(&self, held: bool) -> nat {
        self.stored() + if held {
            0
        } else {
            self.carried()
        }
    }

    /// What the grids cost, once it is known whether a store still holds the one
    /// that last arrived.
    pub fn resident_bytes(&self, held: bool) -> (bytes: u64)
        requires
            self.wf(),
        ensures
            bytes == at_most_u64(self.resident(held)),
    {
        let mut carried: usize = 0;
        if let Some(grid) = &self.state.data {
            if !held {
                carried = grid_bytes(grid);
            }
        }
        cap_u64(
            self.cached_grids.resident_bytes() as u128 + self.frame_grids.resident_bytes() as u128
                + carried as u128,
        )
    }

    /// What the grids cost: both stores, and the grid that last arrived where
    /// neither store holds that very allocation. No key can tell that, and equal
    /// grids can be two: where a store keeps a grid equal to the one that last
    /// arrived, which of the two figures it is rests on where they lie.
    pub fn resident_source_bytes(&self) -> (bytes: u64)
        requires
            self.wf(),
        ensures
            exists|held: bool|
                bytes == at_most_u64(#[trigger] self.resident(held)) && (held
                    ==> self.state.data is Some && (keeps(
                    self.cached_grids.entries(),
                    self.state.data->0,
                ) || keeps(self.frame_grids.entries(), self.state.data->0))),
    {
        let held = match &self.state.data {
            Some(grid) => self.cached_grids.holds(grid) || self.frame_grids.holds(grid),
            None => false,
        };
        self.resident_bytes(held)
    }

    /// Lets every grid go, and says whether there was any. A pane keeps the frame
    /// it is parked on.
    pub fn release_data(&mut self) -> (any: bool)
        requires
            old(self).wf(),
        ensures
            final(self).wf(),
            any == (old(self).cached_grids.entries().len() > 0 || old(
                self,
            ).frame_grids.entries().len() > 0 || old(self).state.data is Some),
            final(self).cached_grids.entries() == GridEntries::empty(),
            final(self).frame_grids.entries() == GridEntries::empty(),
            final(self).state.data is None,
            final(self).resident(false) == 0,
            final(self).defaults == old(self).defaults,
            final(self).catalogue == old(self).catalogue,
            final(self).frame_listings == old(self).frame_listings,
            final(self).covered == old(self).covered,
            final(self).last_error == old(self).last_error,
            final(self).state.data_generation == (if old(self).state.data is Some {
                next_generation(old(self).state.data_generation)
            } else {
                old(self).state.data_generation
            }),
            final(self).state.fetch_time == (if old(self).state.data is Some {
                None
            } else {
                old(self).state.fetch_time
            }),
            final(self).state.fetching == old(self).state.fetching,
            final(self).state.retry == old(self).state.retry,
            final(self).cached_grids.budget() == old(self).cached_grids.budget(),
            final(self).frame_grids.budget() == old(self).frame_grids.budget(),
    {
        let staged = self.frame_grids.release_all();
        let live = self.cached_grids.release_all();
        let carried = self.state.release_data();
        staged || live || carried
    }
}

/// A grid that last arrived and has left the cache since is counted on its own:
/// nothing the cache keeps is that grid.
pub proof fn law_a_grid_that_left_is_counted(entries: GridEntries, grid: Arc<ModelGrid>)
    requires
        keyed_once(entries),
        filed_right(entries),
        !held(entries, GridKey::of_grid(*grid)),
    ensures
        !keeps(entries, grid),
{
    if keeps(entries, grid) {
        let i = choose|i: int| 0 <= i < entries.len() && (#[trigger] entries[i]).value == grid;
        lemma_place(entries, entries[i].key, i);
    }
}

/// A copy of some runs.
fn copy_runs(runs: &Vec<Instant>) -> (copy: Vec<Instant>)
    ensures
        copy@ == runs@,
{
    let mut copy: Vec<Instant> = Vec::new();
    let mut at: usize = 0;
    while at < runs.len()
        invariant
            at <= runs@.len(),
            copy@ == runs@.take(at as int),
        decreases runs@.len() - at,
    {
        copy.push(runs[at]);
        at = at + 1;
        assert(copy@ =~= runs@.take(at as int));
    }
    assert(copy@ =~= runs@);
    copy
}

/// A copy of some windows.
fn copy_windows(windows: &Vec<(Instant, Instant)>) -> (copy: Vec<(Instant, Instant)>)
    ensures
        copy@ == windows@,
{
    let mut copy: Vec<(Instant, Instant)> = Vec::new();
    let mut at: usize = 0;
    while at < windows.len()
        invariant
            at <= windows@.len(),
            copy@ == windows@.take(at as int),
        decreases windows@.len() - at,
    {
        copy.push(windows[at]);
        at = at + 1;
        assert(copy@ =~= windows@.take(at as int));
    }
    assert(copy@ =~= windows@);
    copy
}

/// Puts a run where it belongs.
fn slot_run(runs: &mut Vec<Instant>, run: Instant)
    requires
        runs_ascend(old(runs)@),
        runs_dated(old(runs)@),
        run.steady(),
        !old(runs)@.contains(run),
    ensures
        final(runs)@ == run_slotted(old(runs)@, run),
        runs_ascend(final(runs)@),
        runs_dated(final(runs)@),
{
    let ghost before = runs@;
    let mut slot: usize = runs.len();
    assert(before.take(slot as int) =~= before);
    assert(run_slotted(before.take(slot as int), run) + before.skip(slot as int) =~= run_slotted(
        before,
        run,
    ));
    while slot > 0 && !runs[slot - 1].is_before(&run)
        invariant
            slot <= before.len(),
            runs@ == before,
            !before.contains(run),
            forall|i: int| slot <= i < before.len() ==> run.before(#[trigger] before[i]),
            run_slotted(before, run) == run_slotted(before.take(slot as int), run) + before.skip(
                slot as int,
            ),
        decreases slot,
    {
        proof {
            let shorter = before.take(slot as int);
            assert(before[slot - 1] != run);
            assert(shorter.drop_last() =~= before.take(slot - 1));
            assert(before.skip(slot - 1) =~= seq![before[slot - 1]] + before.skip(slot as int));
            assert(run_slotted(shorter, run) + before.skip(slot as int) =~= run_slotted(
                before.take(slot - 1),
                run,
            ) + before.skip(slot - 1));
        }
        slot = slot - 1;
    }
    runs.insert(slot, run);
    proof {
        assert(runs@ =~= before.take(slot as int).push(run) + before.skip(slot as int));
        if slot > 0 {
            assert forall|i: int| 0 <= i < slot implies (#[trigger] before[i]).before(run) by {
                if i < slot - 1 {
                    assert(before[i].before(before[slot - 1]));
                }
            }
        }
        assert forall|i: int, j: int| 0 <= i < j < runs@.len() implies (#[trigger] runs@[i]).before(
            #[trigger] runs@[j],
        ) by {
            let p = if i < slot {
                i
            } else {
                i - 1
            };
            let q = if j < slot {
                j
            } else {
                j - 1
            };
            if i != slot && j != slot {
                assert(before[p].before(before[q]));
            }
        }
    }
}

/// Whether some frames name a key's grid.
fn names_key(keep: &Vec<FrameStamp>, key: &GridKey) -> (b: bool)
    requires
        key.run.steady(),
    ensures
        b == named_by(*key, keep@),
{
    let stamp = FrameStamp { valid: key.run.plus_hours(key.f_hour), run: Some(key.run) };
    let mut at: usize = 0;
    while at < keep.len()
        invariant
            at <= keep@.len(),
            stamp == stamp_of(key.run, key.f_hour as int),
            forall|i: int| 0 <= i < at ==> keep@[i] != stamp,
        decreases keep@.len() - at,
    {
        if keep[at] == stamp {
            assert(keep@[at as int] == stamp);
            return true;
        }
        at = at + 1;
    }
    false
}

/// An analysis listing's runs are kept whatever they are filed beside: what was
/// known stays known, and what was named is known.
pub proof fn law_listed_runs_add_up(runs: Seq<Instant>, more: Seq<Instant>, run: Instant)
    ensures
        with_runs(runs, more).contains(run) == (runs.contains(run) || more.contains(run)),
    decreases more.len(),
{
    if more.len() > 0 {
        let fewer = more.drop_last();
        law_listed_runs_add_up(runs, fewer, run);
        let before = with_runs(runs, fewer);
        lemma_run_slotted_holds(before, more.last(), run);
        if more.contains(run) {
            let i = more.index_of(run);
            if i < fewer.len() {
                assert(fewer[i] == run);
            }
        }
        if fewer.contains(run) {
            let i = fewer.index_of(run);
            assert(more[i] == run);
        }
        assert(more[more.len() - 1] == more.last());
    }
}

proof fn lemma_run_slotted_holds(runs: Seq<Instant>, added: Instant, run: Instant)
    ensures
        run_slotted(runs, added).contains(run) == (runs.contains(run) || run == added),
    decreases runs.len(),
{
    let after = run_slotted(runs, added);
    if runs.len() == 0 || runs.last().before(added) {
        assert(after[runs.len() as int] == added);
        if runs.contains(run) {
            let i = runs.index_of(run);
            assert(after[i] == run);
        }
    } else {
        let shorter = runs.drop_last();
        lemma_run_slotted_holds(shorter, added, run);
        let inner = run_slotted(shorter, added);
        assert(after[inner.len() as int] == runs.last());
        assert(runs[runs.len() - 1] == runs.last());
        if inner.contains(run) {
            let i = inner.index_of(run);
            assert(after[i] == run);
        }
        if runs.contains(run) {
            let i = runs.index_of(run);
            if i < shorter.len() {
                assert(shorter[i] == run);
            }
        }
        if shorter.contains(run) {
            let i = shorter.index_of(run);
            assert(runs[i] == run);
        }
        if after.contains(run) {
            let i = after.index_of(run);
            if i < inner.len() {
                assert(inner[i] == run);
            }
        }
    }
}

/// The frames of a forecast are all of one run, one an hour from the field's
/// first to the run's last, in order.
pub proof fn law_forecast_is_the_runs_hours(param: ModelParameter, run: Instant, f_hour: u8)
    requires
        param.sound(),
        run.steady(),
    ensures
        forecast_frames(param, run).contains(stamp_of(run, f_hour as int)) == (param.floor
            <= f_hour <= horizon(run)),
        ordered(forecast_frames(param, run)),
{
    let frames = forecast_frames(param, run);
    let stamp = stamp_of(run, f_hour as int);
    if param.floor <= f_hour <= horizon(run) {
        assert(frames[f_hour - param.floor] == stamp);
    }
    if frames.contains(stamp) {
        let i = frames.index_of(stamp);
        assert(frames[i].valid == stamp.valid);
    }
}

/// A frame a listing of a pane names is one the pane can be asked for: its stamp
/// names the field, run and hour it came from.
pub proof fn law_listed_forecast_is_fetchable(
    entries: GridEntries,
    listings: Map<ModelScope, Vec<Instant>>,
    view: ModelPaneState,
    as_of: Instant,
    f_hour: u8,
)
    requires
        view.axis == ModelAxis::Forecast,
        view.selected_param.floor <= f_hour <= horizon(run_as_of(entries, view, as_of)),
        run_as_of(entries, view, as_of).steady(),
    ensures
        ({
            let run = run_as_of(entries, view, as_of);
            target_for(entries, listings, view, as_of, stamp_of(run, f_hour as int)) == Some(
                GridKey { param: view.selected_param, run, f_hour },
            )
        }),
{
    let run = run_as_of(entries, view, as_of);
    let valid = run.hours_on(f_hour as int);
    assert(valid.secs - run.secs == f_hour * 3_600);
    assert((f_hour * 3_600) * 1_000_000_000 == f_hour * 3_600_000_000_000);
    assert(f_hour * 3_600_000_000_000 / 3_600_000_000_000 == f_hour) by (nonlinear_arith);
}

/// What the layer says of itself, whatever it holds.
impl ModelDataHandler {
    pub fn id(&self) -> (id: LayerId)
        ensures
            id == LayerId::ModelData,
    {
        LayerId::ModelData
    }

    pub fn render_mode(&self) -> (mode: RenderMode)
        ensures
            mode == RenderMode::Texture,
    {
        RenderMode::Texture
    }

    /// Heavier layers are drawn over lighter ones.
    pub fn draw_order_weight(&self) -> (weight: u32)
        ensures
            weight == 10,
    {
        10
    }

    pub fn display_name(&self) -> (name: &'static str)
        ensures
            name@ == "Model Data"@,
    {
        "Model Data"
    }

    pub fn time_axis(&self) -> (axis: TimeAxis)
        ensures
            axis == (TimeAxis::FrameSeries { step: 3_600, extends_future: true }),
    {
        TimeAxis::FrameSeries { step: 3_600, extends_future: true }
    }

    /// Seconds between polls.
    pub fn auto_poll_interval(&self) -> (secs: Option<u64>)
        ensures
            secs == Some(3600u64),
    {
        Some(3600)
    }

    /// The fewest frames that make a loop: half a day of hours, both ends drawn.
    pub fn min_loop_frames(&self) -> (frames: usize)
        ensures
            frames == 13,
    {
        13
    }

    /// The job row its pictures are asked for through.
    pub fn job_codec(&self) -> (row: Option<JobRow>)
        ensures
            row == Some(JobRow::Gridded),
    {
        let row = JobRow::named("overlay/model");
        proof {
            assert(JobRow::Gridded.label_view() == "overlay/model"@);
            if let Some(found) = row {
                law_labels_tell_rows_apart(found, JobRow::Gridded);
            }
        }
        row
    }
}

/// A live pane shows the grid of its field that was used last: one that just
/// arrived, or was just looked at, is the one it shows. A parked pane names its
/// own frame whatever arrives.
pub proof fn law_a_live_pane_shows_what_arrived(
    cache: &ModelGridCache,
    key: GridKey,
    grid: Arc<ModelGrid>,
    pinned: Seq<GridKey>,
    view: ModelPaneState,
)
    requires
        cache.wf(),
        view.selected_param == key.param,
    ensures
        ({
            let after = cache.installed(key, grid, pinned);
            match view.selected_frame {
                None => {
                    &&& key_for(after, view) == Some(key)
                    &&& shown(after, view) == Some(grid)
                    &&& run_known(after, view) == Some(key.run)
                    &&& held(cache.entries(), key) ==> key_for(
                        touched(cache.entries(), key),
                        view,
                    ) == Some(key)
                },
                Some((run, f_hour)) => {
                    &&& key_for(after, view) == Some(GridKey { param: key.param, run, f_hour })
                    &&& run_known(after, view) == Some(run)
                },
            }
        }),
{
    law_a_use_makes_the_latest(cache, key, grid, pinned);
    law_arrival_is_held(
        cache.entries(),
        grid_entry(key, grid),
        cache.budget() as nat,
        usize::MAX as nat,
        pinned,
    );
}

/// A pane shows a grid of its own field or none, and nothing of that field was
/// used after it unless the pane is parked.
pub proof fn law_a_pane_shows_its_own_field(entries: GridEntries, view: ModelPaneState)
    requires
        keyed_once(entries),
    ensures
        key_for(entries, view) matches Some(key) ==> {
            &&& key.param == view.selected_param
            &&& shown(entries, view) == looked_up(entries, key)
            &&& view.selected_frame is None ==> exists|i: int|
                0 <= i < entries.len() && (#[trigger] entries[i]).key == key && forall|j: int|
                    i < j < entries.len() ==> (#[trigger] entries[j]).key.param
                        != view.selected_param
        },
        key_for(entries, view) is None ==> view.selected_frame is None && forall|j: int|
            0 <= j < entries.len() ==> (#[trigger] entries[j]).key.param != view.selected_param,
{
    law_the_latest_is_the_most_recently_used(entries, view.selected_param, None);
}

/// The run a live pane's frames belong to is never past what the depicted instant
/// could name: it is that of the most recently used grid of its field that is not,
/// or the latest that instant could name.
pub proof fn law_a_live_run_is_not_past_the_instant(
    entries: GridEntries,
    view: ModelPaneState,
    as_of: Instant,
)
    ensures
        view.selected_frame matches Some((run, _)) ==> run_as_of(entries, view, as_of) == run,
        view.selected_frame is None ==> ({
            let run = run_as_of(entries, view, as_of);
            let latest = latest_run(as_of);
            &&& !latest.before(run)
            &&& (run == latest && forall|j: int|
                0 <= j < entries.len() ==> (#[trigger] entries[j]).key.param
                    != view.selected_param || latest.before(entries[j].key.run)) || (exists|i: int|
                0 <= i < entries.len() && (#[trigger] entries[i]).key.run == run
                    && entries[i].key.param == view.selected_param && forall|j: int|
                    i < j < entries.len() ==> (#[trigger] entries[j]).key.param
                        != view.selected_param || latest.before(entries[j].key.run))
        }),
        scope_as_of(entries, view, as_of).param == view.selected_param,
        scope_as_of(entries, view, as_of).axis == view.axis,
        scope_as_of(entries, view, as_of).run == run_as_of(entries, view, as_of),
{
    let latest = latest_run(as_of);
    law_the_latest_is_the_most_recently_used(entries, view.selected_param, Some(latest));
    if let Some(key) = latest_key(entries, view.selected_param, Some(latest)) {
        let i = choose|i: int|
            0 <= i < entries.len() && (#[trigger] entries[i]).key == key && forall|j: int|
                i < j < entries.len() ==> (#[trigger] entries[j]).key.param != view.selected_param
                    || latest.before(entries[j].key.run);
        assert(entries[i].key == key);
    }
}

/// The frames of a run's forecast are its own hours, one after the other from the
/// field's first to the run's last.
pub proof fn law_forecast_frames_are_hourly(param: ModelParameter, run: Instant)
    requires
        param.sound(),
        run.steady(),
    ensures
        forecast_frames(param, run).len() == horizon(run) + 1 - param.floor,
        forall|i: int|
            0 <= i < forecast_frames(param, run).len() ==> {
                let frame = #[trigger] forecast_frames(param, run)[i];
                &&& frame.run == Some(run)
                &&& frame.valid.secs == run.secs + (param.floor + i) * 3_600
                &&& frame.valid.nanos == run.nanos
            },
{
}

/// The frames of an analysis are the first hour of each run listed, in their
/// order and no other.
pub proof fn law_analysis_frames_are_the_runs_first_hours(
    param: ModelParameter,
    runs: Seq<Instant>,
)
    requires
        runs_dated(runs),
    ensures
        analysis_frames(param, runs).len() == runs.len(),
        forall|i: int|
            0 <= i < runs.len() ==> {
                let frame = #[trigger] analysis_frames(param, runs)[i];
                &&& frame.run == Some(runs[i])
                &&& frame.valid.secs == runs[i].secs + param.floor * 3_600
                &&& frame.valid.nanos == runs[i].nanos
            },
{
    assert forall|i: int| 0 <= i < runs.len() implies {
        let frame = #[trigger] analysis_frames(param, runs)[i];
        &&& frame.run == Some(runs[i])
        &&& frame.valid.secs == runs[i].secs + param.floor * 3_600
        &&& frame.valid.nanos == runs[i].nanos
    } by {
        assert(runs[i].steady());
    }
}

/// Every frame that a listing names for a pane can be fetched and drawn: on either
/// axis its stamp names the pane's field at the stamp's own run and hour.
pub proof fn law_every_listed_frame_has_a_target(
    entries: GridEntries,
    listings: Map<ModelScope, Vec<Instant>>,
    view: ModelPaneState,
    as_of: Instant,
    stamp: FrameStamp,
)
    requires
        view.selected_param.sound(),
        run_as_of(entries, view, as_of).steady(),
        listings_sound(listings),
        frames_of(listings, scope_as_of(entries, view, as_of)).contains(stamp),
    ensures
        target_for(entries, listings, view, as_of, stamp) matches Some(key) && key.param
            == view.selected_param && stamp.run == Some(key.run) && stamp.valid.secs
            == key.run.secs + key.f_hour * 3_600 && stamp.valid.nanos == key.run.nanos,
{
    let scope = scope_as_of(entries, view, as_of);
    let floor = view.selected_param.floor;
    let frames = frames_of(listings, scope);
    let i = frames.index_of(stamp);
    if view.axis == ModelAxis::Forecast {
        law_forecast_frames_are_hourly(scope.param, scope.run);
        law_hours_on_are_hours_since(scope.run, floor + i, 0);
    } else {
        let runs = runs_listed(listings, scope);
        assert(runs_dated(runs));
        law_analysis_frames_are_the_runs_first_hours(scope.param, runs);
        assert(runs[i].steady());
        law_hours_on_are_hours_since(runs[i], floor as int, 0);
        assert(runs.contains(runs[i]));
    }
}

/// On the analysis axis a stamp names the first hour of any run that a listing
/// under the pane's scope named, whatever run the pane itself is on, and a stamp
/// of any other run names nothing.
pub proof fn law_analysis_is_the_first_hour_of_listed_runs(
    entries: GridEntries,
    listings: Map<ModelScope, Vec<Instant>>,
    view: ModelPaneState,
    as_of: Instant,
    run: Instant,
    stamp: FrameStamp,
)
    requires
        view.axis == ModelAxis::Analysis,
        run.steady(),
        stamp.run == Some(run),
    ensures
        ({
            let scope = ModelScope {
                param: view.selected_param,
                run: run_as_of(entries, view, as_of),
                axis: ModelAxis::Analysis,
            };
            let listed = listings.contains_key(scope) && listings[scope]@.contains(run);
            let floor = view.selected_param.floor;
            let target = target_for(entries, listings, view, as_of, stamp);
            &&& listed && stamp.valid.secs == run.secs + floor * 3_600 && stamp.valid.nanos
                == run.nanos ==> target == Some(
                GridKey { param: view.selected_param, run, f_hour: floor },
            )
            &&& !listed ==> target is None
            &&& target matches Some(key) ==> key.f_hour == floor && key.run == run && key.param
                == view.selected_param
        }),
{
    let floor = view.selected_param.floor;
    law_hours_on_are_hours_since(run, floor as int, 0);
    if stamp.valid.secs == run.secs + floor * 3_600 && stamp.valid.nanos == run.nanos {
        assert(stamp.valid == run.hours_on(floor as int));
    }
}

/// On the forecast axis a stamp names an hour of the pane's own run, from the
/// field's first to the run's last, and nothing else does. A stamp without a run
/// names nothing on either axis.
pub proof fn law_forecast_is_the_panes_own_run(
    entries: GridEntries,
    listings: Map<ModelScope, Vec<Instant>>,
    view: ModelPaneState,
    as_of: Instant,
    stamp: FrameStamp,
)
    ensures
        stamp.run is None ==> target_for(entries, listings, view, as_of, stamp) is None,
        view.axis == ModelAxis::Forecast ==> (target_for(
            entries,
            listings,
            view,
            as_of,
            stamp,
        ) matches Some(key) ==> {
            &&& key.param == view.selected_param
            &&& stamp.run == Some(key.run)
            &&& key.run == run_as_of(entries, view, as_of)
            &&& view.selected_param.floor <= key.f_hour <= horizon(key.run)
            &&& key.f_hour == stamp.valid.hours_since(key.run)
        }),
{
}

/// The frames held of a scope are one for each grid of its field in the store that
/// is on its axis: of its run on the forecast axis, at the first hour on the
/// analysis axis.
pub proof fn law_held_frames_are_the_scopes(
    entries: GridEntries,
    scope: ModelScope,
    stamp: FrameStamp,
)
    ensures
        stamps_held(entries, scope).contains(stamp) == exists|i: int|
            0 <= i < entries.len() && (#[trigger] entries[i]).key.param == scope.param && (
            if scope.axis == ModelAxis::Forecast {
                entries[i].key.run == scope.run
            } else {
                entries[i].key.f_hour == scope.param.floor
            }) && stamp == stamp_of(entries[i].key.run, entries[i].key.f_hour as int),
        stamps_held(entries, scope).len() == entries.filter(
            |e: Entry<GridKey, Arc<ModelGrid>>|
                e.key.param == scope.param && if scope.axis == ModelAxis::Forecast {
                    e.key.run == scope.run
                } else {
                    e.key.f_hour == scope.param.floor
                },
        ).len(),
    decreases entries.len(),
{
    reveal(Seq::filter);
    let ours = |e: Entry<GridKey, Arc<ModelGrid>>|
        e.key.param == scope.param && if scope.axis == ModelAxis::Forecast {
            e.key.run == scope.run
        } else {
            e.key.f_hour == scope.param.floor
        };
    if entries.len() > 0 {
        let fewer = entries.drop_last();
        law_held_frames_are_the_scopes(fewer, scope, stamp);
        let (before, after) = (stamps_held(fewer, scope), stamps_held(entries, scope));
        let last = entries[entries.len() - 1];
        assert(forall|i: int| 0 <= i < fewer.len() ==> #[trigger] entries[i] == fewer[i]);
        if after.contains(stamp) {
            let i = after.index_of(stamp);
            if i < before.len() {
                assert(before[i] == stamp);
                let k = choose|k: int|
                    0 <= k < fewer.len() && ours(#[trigger] fewer[k]) && stamp == stamp_of(
                        fewer[k].key.run,
                        fewer[k].key.f_hour as int,
                    );
                assert(ours(entries[k]));
            } else {
                assert(ours(last));
            }
        }
        if exists|i: int|
            0 <= i < entries.len() && ours(#[trigger] entries[i]) && stamp == stamp_of(
                entries[i].key.run,
                entries[i].key.f_hour as int,
            ) {
            let i = choose|i: int|
                0 <= i < entries.len() && ours(#[trigger] entries[i]) && stamp == stamp_of(
                    entries[i].key.run,
                    entries[i].key.f_hour as int,
                );
            if i < fewer.len() {
                assert(ours(fewer[i]));
                assert(after[before.index_of(stamp)] == stamp);
            } else {
                assert(after[before.len() as int] == stamp);
            }
        }
    }
}

/// What a pane's loop lists as held is what either store holds of it, from the
/// earliest on, and no frame stands beside itself.
pub proof fn law_resident_frames_are_either_stores(
    staged: GridEntries,
    live: GridEntries,
    scope: ModelScope,
    stamp: FrameStamp,
)
    ensures
        ({
            let frames = deduped(by_valid(stamps_held(staged, scope) + stamps_held(live, scope)));
            &&& frames.contains(stamp) == (stamps_held(staged, scope).contains(stamp)
                || stamps_held(live, scope).contains(stamp))
            &&& forall|i: int| 0 < i < frames.len() ==> #[trigger] frames[i] != frames[i - 1]
        }),
{
    let (a, b) = (stamps_held(staged, scope), stamps_held(live, scope));
    law_ordering_holds_the_same_frames(a + b, stamp);
    law_dedup_keeps_every_frame(by_valid(a + b), stamp);
    if (a + b).contains(stamp) {
        let i = (a + b).index_of(stamp);
        if i < a.len() {
            assert(a[i] == stamp);
        } else {
            assert(b[i - a.len()] == stamp);
        }
    }
    if a.contains(stamp) {
        assert((a + b)[a.index_of(stamp)] == stamp);
    }
    if b.contains(stamp) {
        assert((a + b)[a.len() + b.index_of(stamp)] == stamp);
    }
}

/// What a pane is listed over a window is every frame of its scope that the window
/// holds and no other, from the earliest on; the one an instant shows is the
/// newest that is not later.
pub proof fn law_a_pane_is_listed_its_scope(
    listings: Map<ModelScope, Vec<Instant>>,
    scope: ModelScope,
    range: (Instant, Instant),
    t: Instant,
    stamp: FrameStamp,
)
    ensures
        by_valid(clipped(frames_of(listings, scope), range)).contains(stamp) == (frames_of(
            listings,
            scope,
        ).contains(stamp) && !stamp.valid.before(range.0) && !range.1.before(stamp.valid)),
        ordered(by_valid(clipped(frames_of(listings, scope), range))),
        newest_at(by_valid(frames_of(listings, scope)), t) matches Some(frame) ==> frames_of(
            listings,
            scope,
        ).contains(frame) && !t.before(frame.valid),
        frames_of(listings, scope).contains(stamp) && !t.before(stamp.valid) ==> (newest_at(
            by_valid(frames_of(listings, scope)),
            t,
        ) matches Some(frame) && !frame.valid.before(stamp.valid)),
{
    let all = frames_of(listings, scope);
    law_clip_keeps_the_window(all, range, stamp);
    law_ordering_holds_the_same_frames(clipped(all, range), stamp);
    law_ordering_keeps_frames(clipped(all, range));
    law_ordering_keeps_frames(all);
    law_ordering_holds_the_same_frames(all, stamp);
    law_newest_is_the_last_reached(by_valid(all), t);
    if let Some(frame) = newest_at(by_valid(all), t) {
        law_ordering_holds_the_same_frames(all, frame);
    }
    if all.contains(stamp) && !t.before(stamp.valid) {
        law_newest_is_newest(by_valid(all), t, stamp);
    }
}

/// Keeping some frames drops a staged grid exactly where it is of the pane's field
/// and no frame kept is of its run and valid time; the rest stay in their order.
pub proof fn law_only_unkept_frames_are_dropped(
    entries: GridEntries,
    param: ModelParameter,
    keep: Seq<FrameStamp>,
)
    ensures
        kept_frames(entries, param, keep) == entries.filter(
            |e: Entry<GridKey, Arc<ModelGrid>>|
                e.key.param == param ==> exists|i: int|
                    0 <= i < keep.len() && (#[trigger] keep[i]).run == Some(e.key.run)
                        && keep[i].valid == e.key.run.hours_on(e.key.f_hour as int),
        ),
    decreases entries.len(),
{
    reveal(Seq::filter);
    let stays = |e: Entry<GridKey, Arc<ModelGrid>>|
        e.key.param == param ==> exists|i: int|
            0 <= i < keep.len() && (#[trigger] keep[i]).run == Some(e.key.run) && keep[i].valid
                == e.key.run.hours_on(e.key.f_hour as int);
    if entries.len() > 0 {
        let last = entries.last();
        law_only_unkept_frames_are_dropped(entries.drop_last(), param, keep);
        let stamp = stamp_of(last.key.run, last.key.f_hour as int);
        if keep.contains(stamp) {
            assert(keep[keep.index_of(stamp)] == stamp);
        }
        if exists|i: int|
            0 <= i < keep.len() && (#[trigger] keep[i]).run == Some(last.key.run) && keep[i].valid
                == last.key.run.hours_on(last.key.f_hour as int) {
            let i = choose|i: int|
                0 <= i < keep.len() && (#[trigger] keep[i]).run == Some(last.key.run)
                    && keep[i].valid == last.key.run.hours_on(last.key.f_hour as int);
            assert(keep[i] == stamp);
        }
        assert(stays(last) == (last.key.param != param || named_by(last.key, keep)));
    }
}

/// What is pinned is what each pane that draws the layer shows, each once; a pane
/// that is off pins nothing, and where there is no pane the defaults' picture is
/// pinned.
pub proof fn law_every_drawn_picture_is_pinned(
    entries: GridEntries,
    states: Seq<ModelPaneState>,
    defaults: ModelPaneState,
    key: GridKey,
)
    ensures
        pinned_for(entries, states, defaults).no_duplicates(),
        pinned_for(entries, states, defaults).contains(key) == (if states.len() == 0 {
            key_for(entries, defaults) == Some(key)
        } else {
            exists|i: int|
                0 <= i < states.len() && (#[trigger] states[i]).enabled && key_for(
                    entries,
                    states[i],
                ) == Some(key)
        }),
{
    lemma_pins(entries, states, key);
    if states.len() == 0 {
        if let Some(own) = key_for(entries, defaults) {
            assert(pinned_for(entries, states, defaults) =~= seq![own]);
            assert(seq![own][0] == own);
        }
    }
}

proof fn lemma_pins(entries: GridEntries, states: Seq<ModelPaneState>, key: GridKey)
    ensures
        pins(entries, states).no_duplicates(),
        pins(entries, states).contains(key) == exists|i: int|
            0 <= i < states.len() && (#[trigger] states[i]).enabled && key_for(entries, states[i])
                == Some(key),
    decreases states.len(),
{
    if states.len() > 0 {
        let fewer = states.drop_last();
        lemma_pins(entries, fewer, key);
        let (before, after) = (pins(entries, fewer), pins(entries, states));
        assert(states[states.len() - 1] == states.last());
        if exists|i: int|
            0 <= i < states.len() && (#[trigger] states[i]).enabled && key_for(entries, states[i])
                == Some(key) {
            let i = choose|i: int|
                0 <= i < states.len() && (#[trigger] states[i]).enabled && key_for(
                    entries,
                    states[i],
                ) == Some(key);
            if i < fewer.len() {
                assert(fewer[i].enabled);
                assert(after[before.index_of(key)] == key);
            } else if !before.contains(key) {
                assert(after[before.len() as int] == key);
            }
        }
        if after.contains(key) {
            let i = after.index_of(key);
            if i < before.len() {
                assert(before[i] == key);
                let k = choose|k: int|
                    0 <= k < fewer.len() && (#[trigger] fewer[k]).enabled && key_for(
                        entries,
                        fewer[k],
                    ) == Some(key);
                assert(states[k].enabled);
            } else {
                assert(states[states.len() - 1].enabled);
            }
        }
    }
}

/// A fetch asks for a run on the hour: a parked pane's own hour, or for a live one
/// the newest run that is two hours old at the instant, at the field's first hour.
pub proof fn law_a_fetch_asks_for_a_published_run(view: ModelPaneState, as_of: Instant)
    requires
        clock_sound(as_of),
        as_of.nanos < 1_000_000_000,
        view.selected_frame matches Some((run, _)) ==> run.steady(),
    ensures
        fetch_view(view, as_of).0.secs % 3_600 == 0,
        fetch_view(view, as_of).0.nanos == 0,
        match view.selected_frame {
            Some((run, f_hour)) => {
                &&& fetch_view(view, as_of).0.secs <= run.secs < fetch_view(view, as_of).0.secs
                    + 3_600
                &&& fetch_view(view, as_of).1 == f_hour
            },
            None => {
                &&& as_of.secs - 3 * 3_600 < fetch_view(view, as_of).0.secs <= as_of.secs - 2
                    * 3_600
                &&& fetch_view(view, as_of).1 == view.selected_param.floor
            },
        },
{
}

/// What is resident is what both stores' grids cost, each grid once, and what the
/// grid that last arrived costs where neither store holds it any more.
pub proof fn law_every_grid_is_priced_once(handler: &ModelDataHandler)
    ensures
        ({
            let sum = |sum: nat, e: crate::recency::Entry<GridKey, Arc<ModelGrid>>|
                sum + capped(price(*e.value)) as nat;
            let live = handler.cached_grids.entries().fold_left(0nat, sum);
            let staged = handler.frame_grids.entries().fold_left(0nat, sum);
            &&& live <= usize::MAX && staged <= usize::MAX ==> handler.resident(true) == live
                + staged
            &&& handler.resident(false) == handler.resident(true) + (match handler.state.data {
                Some(grid) => capped(price(*grid)) as nat,
                None => 0,
            })
        }),
{
    let sum = |sum: nat, e: crate::recency::Entry<GridKey, Arc<ModelGrid>>|
        sum + capped(price(*e.value)) as nat;
    let each = |sum: nat, e: crate::recency::Entry<GridKey, Arc<ModelGrid>>|
        sum + shared_price()(e.value) as nat;
    assert(sum =~= each);
    crate::recency::law_each_value_is_counted_once(
        handler.cached_grids.entries(),
        handler.frame_grids.entries(),
        shared_price(),
    );
    crate::recency::law_each_value_is_counted_once(
        handler.frame_grids.entries(),
        handler.cached_grids.entries(),
        shared_price(),
    );
}

/// Listed runs come in the order of their times and none twice: of two different
/// runs the earlier is listed first.
pub proof fn law_listed_runs_are_in_order(runs: Seq<Instant>, i: int, j: int)
    requires
        runs_ascend(runs),
        0 <= i < runs.len(),
        0 <= j < runs.len(),
    ensures
        runs.no_duplicates(),
        i < j <==> runs[i].before(runs[j]),
        i == j <==> runs[i] == runs[j],
{
    if i < j {
        assert(runs[i].before(runs[j]));
    }
    if j < i {
        assert(runs[j].before(runs[i]));
    }
    assert forall|a: int, b: int| 0 <= a < runs.len() && 0 <= b < runs.len() && a != b implies runs[a]
        != runs[b] by {
        if a < b {
            assert(runs[a].before(runs[b]));
        } else {
            assert(runs[b].before(runs[a]));
        }
    }
}

} // verus!
