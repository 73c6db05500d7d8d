//! A model pane's settings, saved and restored. The run is saved as a choice
//! relative to the clock, never as an instant: a pane closed on one day must not
//! reopen on a forecast days old.
use vstd::prelude::*;
use crate::instant::{Instant, HOUR};
use crate::json;
use crate::json::{
    bool_member,
    json_is_object,
    json_members,
    no_members,
    text_member,
    whole_member,
    Member,
};
use crate::model::axis::{horizon, law_axis_reads_back, ModelAxis};
use crate::model::parameter::Catalogue;
use crate::model::runs::{
    chosen_run,
    decode_run_choice,
    encode_run_choice,
    held_hour,
    hold_hour,
    law_run_choice_reads_back,
    run_choice,
};
use crate::model::{clock_sound, ModelPaneState};

verus! {

/// What every pane saves.
pub open spec fn saved_base(catalogue: &Catalogue, state: ModelPaneState) -> Map<Seq<char>, Member> {
    no_members().insert("enabled"@, Member::Bool(state.enabled)).insert(
        "parameter"@,
        Member::Text(catalogue.code_of(state.selected_param)),
    ).insert("axis"@, Member::Text(state.axis.code()))
}

/// What a pane saves. A pane that is not parked, or is parked further back than a
/// choice can say, saves neither half of a frame.
pub open spec fn saved(catalogue: &Catalogue, state: ModelPaneState, now: Instant) -> Map<
    Seq<char>,
    Member,
> {
    let base = saved_base(catalogue, state);
    match state.selected_frame {
        Some((run, f_hour)) => match run_choice(run, now) {
            Some(choice) => base.insert("run"@, Member::Text(choice)).insert(
                "forecast_hour"@,
                Member::Whole(f_hour as u64),
            ),
            None => base,
        },
        None => base,
    }
}

pub fn serialize_pane_state(catalogue: &Catalogue, state: &ModelPaneState, now: Instant) -> (value:
    serde_json::Value)
    requires
        catalogue.wf(),
        state.sound(catalogue),
        clock_sound(now),
    ensures
        json_is_object(value),
        json_members(value) == saved(catalogue, *state, now),
{
    let mut value = json::empty_object();
    json::put_bool(&mut value, "enabled", state.enabled);
    json::put_text(&mut value, "parameter", catalogue.code(state.selected_param));
    json::put_text(&mut value, "axis", state.axis.as_str());
    if let Some((run, f_hour)) = state.selected_frame {
        if let Some(choice) = encode_run_choice(run, now) {
            json::put_text(&mut value, "run", choice.as_str());
            json::put_whole(&mut value, "forecast_hour", f_hour as u64);
        }
    }
    value
}

/// The frame settings name on a clock: both halves or neither, with the hour held
/// to what the run publishes of the field.
pub open spec fn frame_in(value: serde_json::Value, floor: u8, now: Instant) -> Option<
    (Instant, u8),
> {
    match text_member(value, "run"@) {
        Some(text) => match chosen_run(text, now) {
            Some(run) => match whole_member(value, "forecast_hour"@) {
                Some(hour) => if hour <= u8::MAX {
                    Some((run, held_hour(hour as u8, floor, run)))
                } else {
                    None
                },
                None => None,
            },
            None => None,
        },
        None => None,
    }
}

/// The pane settings are restored to. What they do not name is a fresh pane's,
/// and whether it draws is then the pane's own.
pub open spec fn reopened(
    catalogue: &Catalogue,
    value: serde_json::Value,
    enabled: bool,
    now: Instant,
) -> ModelPaneState {
    let selected_param = match text_member(value, "parameter"@) {
        Some(text) => match catalogue.of_code(text) {
            Some(param) => param,
            None => catalogue.usual,
        },
        None => catalogue.usual,
    };
    ModelPaneState {
        enabled: match bool_member(value, "enabled"@) {
            Some(on) => on,
            None => enabled,
        },
        selected_param,
        axis: match text_member(value, "axis"@) {
            Some(text) => match ModelAxis::of_code(text) {
                Some(axis) => axis,
                None => ModelAxis::Forecast,
            },
            None => ModelAxis::Forecast,
        },
        selected_frame: frame_in(value, selected_param.floor, now),
    }
}

pub fn deserialize_pane_state(
    catalogue: &Catalogue,
    value: &serde_json::Value,
    enabled: bool,
    now: Instant,
) -> (state: ModelPaneState)
    requires
        catalogue.wf(),
        clock_sound(now),
    ensures
        state == reopened(catalogue, *value, enabled, now),
        state.sound(catalogue),
{
    let mut state = ModelPaneState::new(enabled, catalogue.usual);
    if let Some(on) = json::get_bool(value, "enabled") {
        state.enabled = on;
    }
    if let Some(text) = json::get_text(value, "parameter") {
        if let Some(param) = catalogue.parse(text.as_str()) {
            state.selected_param = param;
        }
    }
    if let Some(text) = json::get_text(value, "axis") {
        if let Some(axis) = ModelAxis::parse(text.as_str()) {
            state.axis = axis;
        }
    }
    if let Some(text) = json::get_text(value, "run") {
        if let Some(run) = decode_run_choice(text.as_str(), now) {
            if let Some(hour) = json::get_whole(value, "forecast_hour") {
                if hour <= 255 {
                    let floor: u8 = state.selected_param.min_forecast_hour();
                    assert(state.selected_param.sound());
                    state.selected_frame = Some((run, hold_hour(hour as u8, floor, run)));
                }
            }
        }
    }
    state
}

proof fn lemma_names_differ()
    ensures
        "enabled"@ != "parameter"@,
        "enabled"@ != "axis"@,
        "enabled"@ != "run"@,
        "enabled"@ != "forecast_hour"@,
        "parameter"@ != "axis"@,
        "parameter"@ != "run"@,
        "parameter"@ != "forecast_hour"@,
        "axis"@ != "run"@,
        "axis"@ != "forecast_hour"@,
        "run"@ != "forecast_hour"@,
{
    reveal_strlit("enabled");
    reveal_strlit("parameter");
    reveal_strlit("axis");
    reveal_strlit("run");
    reveal_strlit("forecast_hour");
    assert("enabled"@.len() == 7 && "parameter"@.len() == 9 && "axis"@.len() == 4);
    assert("run"@.len() == 3 && "forecast_hour"@.len() == 13);
}

/// Saving a pane and reopening it, by one clock, gives the pane back: its field,
/// its axis, whether it draws, and the frame it is parked on, where the run is an
/// hour the clock can spell and the hour is one the run publishes. A frame that
/// cannot be spelled comes back as none, and never as half of one.
pub proof fn law_reopen_is_exact(
    catalogue: &Catalogue,
    state: ModelPaneState,
    value: serde_json::Value,
    enabled: bool,
    now: Instant,
)
    requires
        catalogue.wf(),
        state.sound(catalogue),
        clock_sound(now),
        json_members(value) == saved(catalogue, state, now),
        state.selected_frame matches Some((run, f_hour)) ==> run.nanos == 0 && run.secs % HOUR == 0
            && state.selected_param.floor <= f_hour <= horizon(run),
    ensures
        ({
            let back = reopened(catalogue, value, enabled, now);
            &&& back.enabled == state.enabled
            &&& back.selected_param == state.selected_param
            &&& back.axis == state.axis
            &&& state.selected_frame is None ==> back == state
            &&& state.selected_frame matches Some((run, _)) ==> if run_choice(run, now) is Some {
                back == state
            } else {
                back.selected_frame is None
            }
        }),
{
    lemma_names_differ();
    catalogue.law_code_reads_back(state.selected_param);
    law_axis_reads_back(state.axis);
    if state.selected_frame is Some {
        let (run, f_hour) = state.selected_frame->0;
        if run_choice(run, now) is Some {
            law_run_choice_reads_back(run, now);
        }
    }
}

/// What is saved never holds an instant: whatever clock reads it, a run it names
/// is as far behind that clock's latest as it was when it was saved.
pub proof fn law_saved_run_follows_the_clock(
    catalogue: &Catalogue,
    state: ModelPaneState,
    value: serde_json::Value,
    now: Instant,
    later: Instant,
)
    requires
        json_members(value) == saved(catalogue, state, now),
    ensures
        ({
            let run = text_member(value, "run"@);
            run is Some ==> state.selected_frame is Some && chosen_run(run->0, later) == Some(
                crate::model::runs::latest_run(later).hours_on(
                    -crate::model::runs::spelled_back((state.selected_frame->0).0, now)->0,
                ),
            )
        }),
{
    lemma_names_differ();
    if text_member(value, "run"@) is Some {
        let (run, f_hour) = state.selected_frame->0;
        crate::model::runs::law_run_choice_follows_the_clock(run, now, later);
    }
}

/// What settings do not say, or do not say rightly, is a fresh pane's: the usual
/// field, the forecast axis, and no frame. A frame needs both its halves, and its
/// hour is one the run publishes of the field.
pub proof fn law_what_is_not_saved_is_fresh(
    catalogue: &Catalogue,
    value: serde_json::Value,
    enabled: bool,
    now: Instant,
)
    requires
        catalogue.wf(),
    ensures
        ({
            let state = reopened(catalogue, value, enabled, now);
            let param = text_member(value, "parameter"@);
            let axis = text_member(value, "axis"@);
            let run = text_member(value, "run"@);
            &&& bool_member(value, "enabled"@) is None ==> state.enabled == enabled
            &&& (param is None || catalogue.of_code(param->0) is None) ==> state.selected_param
                == catalogue.usual
            &&& (axis is None || ModelAxis::of_code(axis->0) is None) ==> state.axis
                == ModelAxis::Forecast
            &&& (run is None || whole_member(value, "forecast_hour"@) is None || chosen_run(
                run->0,
                now,
            ) is None) ==> state.selected_frame is None
            &&& state.selected_frame matches Some((at, hour)) ==> run is Some && chosen_run(
                run->0,
                now,
            ) == Some(at) && state.selected_param.floor <= hour <= horizon(at) && (
            state.selected_param.floor <= whole_member(value, "forecast_hour"@)->0 <= horizon(at)
                ==> hour == whole_member(value, "forecast_hour"@)->0)
        }),
{
    let state = reopened(catalogue, value, enabled, now);
    assert(state.selected_param.sound()) by {
        if let Some(text) = text_member(value, "parameter"@) {
            if let Some(param) = catalogue.of_code(text) {
                let at = choose|at: int| catalogue.spells(text, at);
                assert(catalogue.rows@[at].parameter.sound());
            }
        }
        assert(catalogue.rows@[catalogue.usual.place as int].parameter.sound());
    }
}

} // verus!
