//! The model layer's options panel: what it shows, and what a change of it does.
use std::sync::Arc;
use vstd::prelude::*;
use crate::controls::{
    error_lines,
    fetch_lines,
    line,
    push_error,
    push_fetch_lines,
    push_info,
    push_item,
    refresh_buttons,
    refresh_row,
    ControlEffect,
    ControlItem,
    ControlUpdate,
    ControlValue,
    ItemView,
};
use crate::instant::Instant;
use crate::model::axis::{horizon, ModelAxis};
use crate::model::grids::{frame_label, ModelGrid};
use crate::model::parameter::{Catalogue};
use crate::model::runs::{
    chosen_run,
    decode_run_choice,
    encode_run_choice,
    f_hour_token,
    held_hour,
    hold_hour,
    hour_of_token,
    hour_options,
    hour_options_view,
    hour_token,
    latest_run,
    latest_run_at,
    parse_f_hour,
    run_choice,
    run_options,
    run_options_view,
};
use crate::model::{clock_sound, looked_at, shown, ModelDataHandler, ModelPaneState};
use crate::pane::Pane;
use crate::state::{bump, next_generation};
use crate::text::same_text;

verus! {

/// The layer's name, and what of it is on the glass.
pub open spec fn toggle_label(grid: Option<Arc<ModelGrid>>) -> Seq<char> {
    match grid {
        Some(g) => "Model Data ("@ + g.label() + ")"@,
        None => "Model Data"@,
    }
}

/// The two axes as the options of a dropdown.
pub open spec fn axis_options_view() -> Seq<(Seq<char>, Seq<char>)> {
    seq![
        (ModelAxis::Forecast.code(), ModelAxis::Forecast.name()),
        (ModelAxis::Analysis.code(), ModelAxis::Analysis.name()),
    ]
}

fn axis_options() -> (options: Vec<(String, String)>)
    ensures
        options.deep_view() == axis_options_view(),
{
    let axes = ModelAxis::all();
    let mut options: Vec<(String, String)> = Vec::new();
    options.push((axes[0].as_str().to_owned(), axes[0].label().to_owned()));
    options.push((axes[1].as_str().to_owned(), axes[1].label().to_owned()));
    assert(options.deep_view() =~= axis_options_view());
    options
}

/// The run a pane is parked on.
pub open spec fn picked_run(view: ModelPaneState) -> Option<Instant> {
    match view.selected_frame {
        Some((run, _)) => Some(run),
        None => None,
    }
}

/// The forecast hour a pane is parked on, or its field's first.
pub open spec fn picked_hour(view: ModelPaneState) -> u8 {
    match view.selected_frame {
        Some((_, f_hour)) => f_hour,
        None => view.selected_param.floor,
    }
}

/// The run whose hours a pane picks from.
pub open spec fn hours_run(view: ModelPaneState, now: Instant) -> Instant {
    match picked_run(view) {
        Some(run) => run,
        None => latest_run(now),
    }
}

/// The rows that pick: the field, the axis, the run and the forecast hour.
pub open spec fn pickers(catalogue: &Catalogue, view: ModelPaneState, now: Instant) -> Seq<ItemView> {
    seq![
        ItemView::Dropdown {
            id: "parameter"@,
            label: "Parameter"@,
            options: catalogue.options_view(),
            selected: catalogue.code_of(view.selected_param),
        },
        ItemView::Dropdown {
            id: "axis"@,
            label: "Time axis"@,
            options: axis_options_view(),
            selected: view.axis.code(),
        },
        ItemView::Dropdown {
            id: "run"@,
            label: "Model run"@,
            options: run_options_view(picked_run(view), now),
            selected: choice_view(picked_run(view), now),
        },
        ItemView::Dropdown {
            id: "f_hour"@,
            label: "Forecast hour"@,
            options: hour_options_view(view.selected_param.floor, hours_run(view, now)),
            selected: hour_token(
                held_hour(picked_hour(view), view.selected_param.floor, hours_run(view, now)),
            ),
        },
    ]
}

/// What is said of the grid on the glass: the window it is a maximum over, and
/// why nothing of it shows.
pub open spec fn grid_lines(view: ModelPaneState, grid: Option<Arc<ModelGrid>>) -> Seq<ItemView> {
    match grid {
        Some(g) => (if g.forecast_hour > 0 && view.selected_param.windowed {
            seq![
                line(
                    "Maximum over "@ + g.ref_time.clock_view() + "-"@ + g.valid().clock_view()
                        + ", not an analysis field"@,
                ),
            ]
        } else {
            Seq::empty()
        }) + match g.notice {
            Some(notice) => seq![line(notice@)],
            None => Seq::empty(),
        },
        None => Seq::empty(),
    }
}

/// The whole panel.
pub open spec fn panel(
    catalogue: &Catalogue,
    view: ModelPaneState,
    grid: Option<Arc<ModelGrid>>,
    fetching: bool,
    age: Option<u64>,
    error: Option<Seq<char>>,
    now: Instant,
) -> Seq<ItemView> {
    seq![
        ItemView::Toggle { id: "enabled"@, label: toggle_label(grid), enabled: view.enabled },
    ] + pickers(catalogue, view, now) + seq![refresh_row(!fetching)] + fetch_lines(fetching, age)
        + error_lines(error) + grid_lines(view, grid)
}

/// What a change of the panel asks for.
#[derive(Debug)]
pub enum PanelStep {
    Ignored,
    /// The layer is turned on or off.
    Switched(bool),
    /// The pane is to show something else.
    Moved(ModelPaneState),
    Refreshed,
}

/// The text a control was set to.
pub open spec fn set_text(update: ControlUpdate) -> Option<Seq<char>> {
    match update.value {
        ControlValue::Text(text) => Some(text@),
        _ => None,
    }
}

/// A pane parked elsewhere, where that is a move.
pub open spec fn parked(view: ModelPaneState, frame: Option<(Instant, u8)>) -> PanelStep {
    if frame != view.selected_frame {
        PanelStep::Moved(ModelPaneState { selected_frame: frame, ..view })
    } else {
        PanelStep::Ignored
    }
}

/// A pane on another axis. The analysis axis has one hour a run, so a pane that
/// is parked keeps its run and goes to that hour.
pub open spec fn turned_to(view: ModelPaneState, axis: ModelAxis) -> ModelPaneState {
    ModelPaneState {
        axis,
        selected_frame: match view.selected_frame {
            Some((run, f_hour)) => if axis == ModelAxis::Analysis {
                Some((run, view.selected_param.floor))
            } else {
                Some((run, f_hour))
            },
            None => None,
        },
        ..view
    }
}

/// What a change of the panel asks of a pane. A run carries the hour picked
/// before, held to what the run publishes, and the choice that names no run
/// unparks the pane. An hour parks the pane on a definite run.
pub open spec fn step(
    catalogue: &Catalogue,
    view: ModelPaneState,
    update: ControlUpdate,
    now: Instant,
) -> PanelStep {
    let floor = view.selected_param.floor;
    if update.id@ == "enabled"@ {
        match update.value {
            ControlValue::Bool(on) => PanelStep::Switched(on),
            _ => PanelStep::Ignored,
        }
    } else if update.id@ == "parameter"@ {
        match set_text(update) {
            Some(text) => match catalogue.of_code(text) {
                Some(param) => if param != view.selected_param {
                    PanelStep::Moved(ModelPaneState { selected_param: param, ..view })
                } else {
                    PanelStep::Ignored
                },
                None => PanelStep::Ignored,
            },
            None => PanelStep::Ignored,
        }
    } else if update.id@ == "axis"@ {
        match set_text(update) {
            Some(text) => match ModelAxis::of_code(text) {
                Some(axis) => if axis != view.axis {
                    PanelStep::Moved(turned_to(view, axis))
                } else {
                    PanelStep::Ignored
                },
                None => PanelStep::Ignored,
            },
            None => PanelStep::Ignored,
        }
    } else if update.id@ == "run"@ {
        match set_text(update) {
            Some(text) => parked(
                view,
                match chosen_run(text, now) {
                    Some(run) => Some((run, held_hour(picked_hour(view), floor, run))),
                    None => None,
                },
            ),
            None => PanelStep::Ignored,
        }
    } else if update.id@ == "f_hour"@ {
        match set_text(update) {
            Some(text) => match hour_of_token(text) {
                Some(picked) => {
                    let run = hours_run(view, now);
                    parked(view, Some((run, held_hour(picked, floor, run))))
                },
                None => PanelStep::Ignored,
            },
            None => PanelStep::Ignored,
        }
    } else if update.id@ == "refresh"@ {
        PanelStep::Refreshed
    } else {
        PanelStep::Ignored
    }
}

/// Whether two frames are the same.
fn same_frame(a: &Option<(Instant, u8)>, b: &Option<(Instant, u8)>) -> (same: bool)
    ensures
        same == (*a == *b),
{
    match (a, b) {
        (Some((run, f_hour)), Some((other, hour))) => *run == *other && *f_hour == *hour,
        (None, None) => true,
        _ => false,
    }
}

/// The layer's name, and what of it is on the glass.
fn label_of(grid: &Option<Arc<ModelGrid>>) -> (label: String)
    requires
        grid matches Some(g) ==> g.ref_time.steady(),
    ensures
        label@ == toggle_label(*grid),
{
    match grid {
        Some(g) => {
            let mut label = "Model Data (".to_owned();
            label.append(frame_label(g).as_str());
            label.append(")");
            label
        },
        None => "Model Data".to_owned(),
    }
}

/// The run control's value for the run a pane is parked on.
pub open spec fn choice_view(picked: Option<Instant>, now: Instant) -> Seq<char> {
    match picked {
        Some(run) => match run_choice(run, now) {
            Some(choice) => choice,
            None => Seq::empty(),
        },
        None => Seq::empty(),
    }
}

fn choice_of(picked: &Option<Instant>, now: Instant) -> (choice: String)
    requires
        picked matches Some(run) ==> run.steady(),
        clock_sound(now),
    ensures
        choice@ == choice_view(*picked, now),
{
    match picked {
        Some(run) => match encode_run_choice(*run, now) {
            Some(choice) => choice,
            None => String::new(),
        },
        None => String::new(),
    }
}

fn push_grid_lines(
    items: &mut Vec<ControlItem>,
    view: &ModelPaneState,
    grid: &Option<Arc<ModelGrid>>,
)
    requires
        grid matches Some(g) ==> g.ref_time.steady(),
    ensures
        final(items).deep_view() == old(items).deep_view() + grid_lines(*view, *grid),
{
    if let Some(g) = grid {
        if g.forecast_hour > 0 && view.selected_param.is_windowed() {
            let mut text = "Maximum over ".to_owned();
            text.append(g.ref_time.clock().as_str());
            text.append("-");
            text.append(g.valid_time().clock().as_str());
            text.append(", not an analysis field");
            push_info(items, text);
        }
        if let Some(notice) = &g.notice {
            push_info(items, notice.clone());
        }
    }
    assert(items.deep_view() =~= old(items).deep_view() + grid_lines(*view, *grid));
}

impl ModelDataHandler {
    /// The options panel. It is shown whether or not the layer is: a hidden
    /// layer's options can still be set.
    pub fn controls(&mut self, pane: &Pane<ModelPaneState>, now: Instant, clock: u64) -> (items: Vec<
        ControlItem,
    >)
        requires
            old(self).wf(),
            old(self).pane_sound(pane),
            clock_sound(now),
        ensures
            final(self).wf(),
            final(self).same_but_use(old(self)),
            final(self).state == old(self).state,
            final(self).defaults == old(self).defaults,
            ({
                let view = pane.own_or(old(self).defaults);
                let entries = old(self).cached_grids.entries();
                &&& final(self).cached_grids.entries() == looked_at(entries, view)
                &&& items.deep_view() == panel(
                    &old(self).catalogue,
                    view,
                    shown(entries, view),
                    old(self).state.fetching,
                    old(self).state.age(clock),
                    old(self).last_error.deep_view(),
                    now,
                )
            }),
    {
        let view = pane.view_or(&self.defaults);
        let grid = self.look(&view);
        let mut items: Vec<ControlItem> = Vec::new();
        assert(items.deep_view() =~= Seq::empty());
        push_item(
            &mut items,
            ControlItem::Toggle {
                id: "enabled",
                label: label_of(&grid),
                enabled: view.enabled,
            },
        );
        assert(items.deep_view() =~= seq![
            ItemView::Toggle { id: "enabled"@, label: toggle_label(grid), enabled: view.enabled },
        ]);
        self.push_pickers(&mut items, &view, now);
        let ghost picking = items.deep_view();
        push_item(&mut items, refresh_buttons(!self.state.fetching));
        assert(items.deep_view() =~= picking + seq![refresh_row(!self.state.fetching)]);
        push_fetch_lines(&mut items, self.state.fetching, self.state.elapsed(clock));
        push_error(&mut items, &self.last_error);
        push_grid_lines(&mut items, &view, &grid);
        items
    }

    /// Appends the rows that pick.
    fn push_pickers(&self, items: &mut Vec<ControlItem>, view: &ModelPaneState, now: Instant)
        requires
            self.wf(),
            view.sound(&self.catalogue),
            clock_sound(now),
        ensures
            final(items).deep_view() == old(items).deep_view() + pickers(
                &self.catalogue,
                *view,
                now,
            ),
    {
        let floor: u8 = view.selected_param.min_forecast_hour();
        let mut picked: Option<Instant> = None;
        let mut hour: u8 = floor;
        if let Some((run, f_hour)) = view.selected_frame {
            picked = Some(run);
            hour = f_hour;
        }
        let run = match picked {
            Some(run) => run,
            None => latest_run_at(now),
        };
        push_item(
            items,
            ControlItem::Dropdown {
                id: "parameter",
                label: "Parameter".to_owned(),
                options: self.catalogue.options(),
                selected: self.catalogue.code(view.selected_param).to_owned(),
            },
        );
        push_item(
            items,
            ControlItem::Dropdown {
                id: "axis",
                label: "Time axis".to_owned(),
                options: axis_options(),
                selected: view.axis.as_str().to_owned(),
            },
        );
        push_item(
            items,
            ControlItem::Dropdown {
                id: "run",
                label: "Model run".to_owned(),
                options: run_options(picked, now),
                selected: choice_of(&picked, now),
            },
        );
        push_item(
            items,
            ControlItem::Dropdown {
                id: "f_hour",
                label: "Forecast hour".to_owned(),
                options: hour_options(floor, run),
                selected: f_hour_token(hold_hour(hour, floor, run)),
            },
        );
        assert(items.deep_view() =~= old(items).deep_view() + pickers(&self.catalogue, *view, now));
    }

    /// Puts a pane where it was moved to. Where the grid of that is held, only
    /// the picture is out of date; where it is not, it must be fetched.
    fn settle(&mut self, next: ModelPaneState, pane: &mut Pane<ModelPaneState>) -> (effect:
        ControlEffect)
        requires
            old(self).wf(),
            next.sound(&old(self).catalogue),
        ensures
            final(self).wf(),
            final(self).same_but_use(old(self)),
            final(pane).peers == old(pane).peers,
            (final(pane).state is Some) == (old(pane).state is Some),
            old(pane).state is Some ==> final(self).defaults == old(self).defaults,
            final(pane).own_or(final(self).defaults) == next,
            final(self).cached_grids.entries() == looked_at(
                old(self).cached_grids.entries(),
                next,
            ),
            ({
                let resident = shown(old(self).cached_grids.entries(), next) is Some;
                &&& effect == (if resident {
                    ControlEffect::Nothing
                } else {
                    ControlEffect::Fetch
                })
                &&& final(self).state.data_generation == (if resident {
                    next_generation(old(self).state.data_generation)
                } else {
                    old(self).state.data_generation
                })
            }),
    {
        pane.put(&mut self.defaults, next);
        if self.has_data(pane) {
            self.state.data_generation = bump(self.state.data_generation);
            ControlEffect::Nothing
        } else {
            ControlEffect::Fetch
        }
    }

    /// Takes a change of the panel in. A field comes from the catalogue's own
    /// list.
    pub fn apply_control(
        &mut self,
        update: &ControlUpdate,
        pane: &mut Pane<ModelPaneState>,
        now: Instant,
    ) -> (effect: ControlEffect)
        requires
            old(self).wf(),
            old(self).pane_sound(old(pane)),
            clock_sound(now),
            update.id@ == "parameter"@ ==> (set_text(*update) matches Some(text) ==> old(
                self,
            ).catalogue.of_code(text) is Some),
        ensures
            final(self).wf(),
            final(self).same_but_use(old(self)),
            final(pane).peers == old(pane).peers,
            (final(pane).state is Some) == (old(pane).state is Some),
            old(pane).state is Some ==> final(self).defaults == old(self).defaults,
            ({
                let view = old(pane).own_or(old(self).defaults);
                let after = final(pane).own_or(final(self).defaults);
                let entries = old(self).cached_grids.entries();
                let generation = old(self).state.data_generation;
                match step(&old(self).catalogue, view, *update, now) {
                    PanelStep::Ignored => {
                        &&& after == view
                        &&& effect == ControlEffect::Nothing
                        &&& final(self).cached_grids.entries() == entries
                        &&& final(self).state.data_generation == generation
                    },
                    PanelStep::Refreshed => {
                        &&& after == view
                        &&& effect == ControlEffect::Fetch
                        &&& final(self).cached_grids.entries() == entries
                        &&& final(self).state.data_generation == generation
                    },
                    PanelStep::Switched(on) => {
                        let next = ModelPaneState { enabled: on, ..view };
                        &&& after == next
                        &&& effect == (if on && shown(entries, next) is None {
                            ControlEffect::Fetch
                        } else {
                            ControlEffect::Nothing
                        })
                        &&& final(self).cached_grids.entries() == (if on {
                            looked_at(entries, next)
                        } else {
                            entries
                        })
                        &&& final(self).state.data_generation == generation
                    },
                    PanelStep::Moved(next) => {
                        let resident = shown(entries, next) is Some;
                        &&& after == next
                        &&& effect == (if resident {
                            ControlEffect::Nothing
                        } else {
                            ControlEffect::Fetch
                        })
                        &&& final(self).cached_grids.entries() == looked_at(entries, next)
                        &&& final(self).state.data_generation == (if resident {
                            next_generation(generation)
                        } else {
                            generation
                        })
                    },
                }
            }),
    {
        let view = pane.view_or(&self.defaults);
        let floor: u8 = view.selected_param.min_forecast_hour();
        if same_text(update.id, "enabled") {
            if let ControlValue::Bool(on) = update.value {
                let mut next = view;
                next.enabled = on;
                pane.put(&mut self.defaults, next);
                if on && !self.has_data(pane) {
                    return ControlEffect::Fetch;
                }
            }
            return ControlEffect::Nothing;
        }
        if same_text(update.id, "parameter") {
            if let ControlValue::Text(text) = &update.value {
                if let Some(param) = self.catalogue.parse(text.as_str()) {
                    if param != view.selected_param {
                        let mut next = view;
                        next.selected_param = param;
                        return self.settle(next, pane);
                    }
                }
            }
            return ControlEffect::Nothing;
        }
        if same_text(update.id, "axis") {
            if let ControlValue::Text(text) = &update.value {
                if let Some(axis) = ModelAxis::parse(text.as_str()) {
                    if axis != view.axis {
                        let mut next = view;
                        next.axis = axis;
                        if axis == ModelAxis::Analysis {
                            if let Some((run, _)) = view.selected_frame {
                                next.selected_frame = Some((run, floor));
                            }
                        }
                        return self.settle(next, pane);
                    }
                }
            }
            return ControlEffect::Nothing;
        }
        if same_text(update.id, "run") {
            if let ControlValue::Text(text) = &update.value {
                let hour: u8 = match view.selected_frame {
                    Some((_, f_hour)) => f_hour,
                    None => floor,
                };
                let frame = match decode_run_choice(text.as_str(), now) {
                    Some(run) => Some((run, hold_hour(hour, floor, run))),
                    None => None,
                };
                if !same_frame(&frame, &view.selected_frame) {
                    let mut next = view;
                    next.selected_frame = frame;
                    return self.settle(next, pane);
                }
            }
            return ControlEffect::Nothing;
        }
        if same_text(update.id, "f_hour") {
            if let ControlValue::Text(text) = &update.value {
                if let Some(picked) = parse_f_hour(text.as_str()) {
                    let run = match view.selected_frame {
                        Some((run, _)) => run,
                        None => latest_run_at(now),
                    };
                    let frame = Some((run, hold_hour(picked, floor, run)));
                    if !same_frame(&frame, &view.selected_frame) {
                        let mut next = view;
                        next.selected_frame = frame;
                        return self.settle(next, pane);
                    }
                }
            }
            return ControlEffect::Nothing;
        }
        if same_text(update.id, "refresh") {
            return ControlEffect::Fetch;
        }
        ControlEffect::Nothing
    }
}

/// Whatever is set in the panel, a pane is only ever parked by it on an hour the
/// run publishes of the field.
pub proof fn law_panel_parks_on_published_hours(
    catalogue: &Catalogue,
    view: ModelPaneState,
    update: ControlUpdate,
    now: Instant,
)
    requires
        catalogue.wf(),
        view.sound(catalogue),
        update.id@ == "run"@ || update.id@ == "f_hour"@,
    ensures
        step(catalogue, view, update, now) matches PanelStep::Moved(next) ==> (
        next.selected_frame matches Some((run, f_hour)) ==> next.selected_param.floor <= f_hour
            <= horizon(run)),
{
    reveal_strlit("run");
    reveal_strlit("f_hour");
    reveal_strlit("enabled");
    reveal_strlit("parameter");
    reveal_strlit("axis");
    assert("run"@.len() == 3 && "f_hour"@.len() == 6 && "enabled"@.len() == 7);
    assert("parameter"@.len() == 9 && "axis"@.len() == 4);
    assert(view.selected_param.sound());
}

/// Each control moves what it is of and nothing else: the field, the axis, or the
/// frame a pane is parked on. Another axis keeps the run, and the analysis axis
/// goes to the field's first hour. A run keeps the hour picked before where it
/// publishes it, and the choice of no run unparks; an hour parks on the run the
/// pane is on, or the latest.
pub proof fn law_a_control_moves_only_its_own(
    catalogue: &Catalogue,
    view: ModelPaneState,
    update: ControlUpdate,
    now: Instant,
)
    requires
        catalogue.wf(),
        view.sound(catalogue),
    ensures
        step(catalogue, view, update, now) matches PanelStep::Moved(next) ==> {
            let text = update.value->Text_0@;
            &&& update.value is Text
            &&& next.enabled == view.enabled
            &&& next != view
            &&& next.selected_param != view.selected_param ==> update.id@ == "parameter"@
                && catalogue.of_code(text) == Some(next.selected_param)
            &&& next.axis != view.axis ==> update.id@ == "axis"@ && ModelAxis::of_code(text)
                == Some(next.axis)
            &&& update.id@ == "parameter"@ ==> next.axis == view.axis && next.selected_frame
                == view.selected_frame
            &&& update.id@ == "axis"@ ==> next.selected_param == view.selected_param && match (
                view.selected_frame,
                next.selected_frame,
            ) {
                (Some((run, hour)), Some((kept, held))) => kept == run && held == (if next.axis
                    == ModelAxis::Analysis {
                    view.selected_param.floor
                } else {
                    hour
                }),
                (a, b) => a is None && b is None,
            }
            &&& update.id@ == "run"@ ==> match (chosen_run(text, now), next.selected_frame) {
                (Some(run), Some((kept, held))) => {
                    let hour = match view.selected_frame {
                        Some((_, f_hour)) => f_hour,
                        None => view.selected_param.floor,
                    };
                    &&& kept == run
                    &&& view.selected_param.floor <= held <= horizon(run)
                    &&& view.selected_param.floor <= hour <= horizon(run) ==> held == hour
                },
                (a, b) => a is None && b is None,
            }
            &&& update.id@ == "f_hour"@ ==> (next.selected_frame matches Some((kept, held)) && {
                let hour = hour_of_token(text)->0;
                &&& hour_of_token(text) is Some
                &&& kept == (match view.selected_frame {
                    Some((run, _)) => run,
                    None => latest_run(now),
                })
                &&& view.selected_param.floor <= held <= horizon(kept)
                &&& view.selected_param.floor <= hour <= horizon(kept) ==> held == hour
            })
        },
        update.id@ == "refresh"@ ==> step(catalogue, view, update, now) is Refreshed,
        update.id@ == "enabled"@ ==> match update.value {
            ControlValue::Bool(on) => step(catalogue, view, update, now) == PanelStep::Switched(
                on,
            ),
            _ => step(catalogue, view, update, now) is Ignored,
        },
{
    reveal_strlit("run");
    reveal_strlit("f_hour");
    reveal_strlit("enabled");
    reveal_strlit("parameter");
    reveal_strlit("axis");
    reveal_strlit("refresh");
    assert("run"@.len() == 3 && "f_hour"@.len() == 6 && "enabled"@.len() == 7);
    assert("parameter"@.len() == 9 && "axis"@.len() == 4 && "refresh"@.len() == 7);
    assert("enabled"@[0] == 'e' && "refresh"@[0] == 'r');
    assert(view.selected_param.sound());
}

/// The panel's rows are told apart by their ids, and each shows what the pane has:
/// the field and axis it is on, the run it is parked on, and an hour the run
/// publishes.
pub proof fn law_the_panel_shows_the_pane(
    catalogue: &Catalogue,
    view: ModelPaneState,
    now: Instant,
)
    requires
        catalogue.wf(),
        view.sound(catalogue),
    ensures
        ({
            let rows = pickers(catalogue, view, now);
            &&& rows.len() == 4
            &&& catalogue.of_code(rows[0]->Dropdown_selected) == Some(view.selected_param)
            &&& ModelAxis::of_code(rows[1]->Dropdown_selected) == Some(view.axis)
            &&& view.selected_frame is None ==> rows[2]->Dropdown_selected.len() == 0
            &&& hour_of_token(rows[3]->Dropdown_selected) matches Some(hour) && match (
                view.selected_frame
            ) {
                Some((run, f_hour)) => view.selected_param.floor <= f_hour <= horizon(run) ==> hour
                    == f_hour,
                None => hour == view.selected_param.floor,
            }
        }),
{
    assert(view.selected_param.sound());
    catalogue.law_code_reads_back(view.selected_param);
    crate::model::axis::law_axis_reads_back(view.axis);
    crate::model::runs::law_forecast_hours_read_back(
        held_hour(picked_hour(view), view.selected_param.floor, hours_run(view, now)),
    );
}

/// A control that names something else than the pane has moves the pane there: a
/// field or an axis by its code, a run with an hour that it publishes, and an hour
/// of the run the pane is on. The choice of no run unparks a pane that is parked.
pub proof fn law_a_control_is_obeyed(
    catalogue: &Catalogue,
    view: ModelPaneState,
    update: ControlUpdate,
    now: Instant,
)
    requires
        catalogue.wf(),
        view.sound(catalogue),
        update.value is Text,
    ensures
        ({
            let text = update.value->Text_0@;
            let moved = step(catalogue, view, update, now);
            let hour = match view.selected_frame {
                Some((_, f_hour)) => f_hour,
                None => view.selected_param.floor,
            };
            let run = match view.selected_frame {
                Some((run, _)) => run,
                None => latest_run(now),
            };
            &&& update.id@ == "parameter"@ ==> (catalogue.of_code(text) matches Some(param)
                ==> param != view.selected_param ==> (moved matches PanelStep::Moved(next)
                && next.selected_param == param))
            &&& update.id@ == "axis"@ ==> (ModelAxis::of_code(text) matches Some(axis) ==> axis
                != view.axis ==> (moved matches PanelStep::Moved(next) && next.axis == axis))
            &&& update.id@ == "run"@ ==> (chosen_run(text, now) matches Some(picked)
                ==> view.selected_param.floor <= hour <= horizon(picked) ==> view.selected_frame
                != Some((picked, hour)) ==> (moved matches PanelStep::Moved(next)
                && next.selected_frame == Some((picked, hour))))
            &&& update.id@ == "run"@ && chosen_run(text, now) is None && view.selected_frame is Some
                ==> (moved matches PanelStep::Moved(next) && next.selected_frame is None)
            &&& update.id@ == "f_hour"@ ==> (hour_of_token(text) matches Some(picked)
                ==> view.selected_param.floor <= picked <= horizon(run) ==> view.selected_frame
                != Some((run, picked)) ==> (moved matches PanelStep::Moved(next)
                && next.selected_frame == Some((run, picked))))
        }),
{
    reveal_strlit("run");
    reveal_strlit("f_hour");
    reveal_strlit("enabled");
    reveal_strlit("parameter");
    reveal_strlit("axis");
    reveal_strlit("refresh");
    assert("run"@.len() == 3 && "f_hour"@.len() == 6 && "enabled"@.len() == 7);
    assert("parameter"@.len() == 9 && "axis"@.len() == 4 && "refresh"@.len() == 7);
    assert("enabled"@[0] == 'e' && "refresh"@[0] == 'r');
}

/// A field that is a maximum over some hours says which, past the run's first
/// hour and nowhere else, and a grid that has something to say says it last.
pub proof fn law_a_maximum_says_its_hours(view: ModelPaneState, grid: Arc<ModelGrid>)
    ensures
        ({
            let lines = grid_lines(view, Some(grid));
            let windowed = view.selected_param.windowed && grid.forecast_hour != 0;
            let hours = line(
                "Maximum over "@ + grid.ref_time.clock_view() + "-"@ + grid.valid().clock_view()
                    + ", not an analysis field"@,
            );
            &&& windowed ==> lines.len() > 0 && lines[0] == hours
            &&& lines.len() == (if windowed {
                1int
            } else {
                0
            }) + (if grid.notice is Some {
                1int
            } else {
                0
            })
            &&& grid.notice matches Some(notice) ==> lines.last() == line(notice@)
        }),
        grid_lines(view, None).len() == 0,
{
}

} // verus!
