//! Which way time runs for a model pane, and how far a run reaches.
use vstd::prelude::*;
use crate::instant::Instant;
use crate::text::same_text;

verus! {

/// Which way time runs for a pane's model layer: one run's forecast hours, or
/// one hour of many runs.
#[derive(Clone, Copy, Debug, PartialEq, Eq, Structural, Hash)]
pub enum ModelAxis {
    /// Every hour of one run. See [`forecast_horizon`].
    Forecast,
    /// The first hour of many runs, walking back through the archive.
    Analysis,
}

impl Default for ModelAxis {
    fn default() -> (axis: ModelAxis)
        ensures
            axis == ModelAxis::Forecast,
    {
        ModelAxis::Forecast
    }
}

impl ModelAxis {
    /// The saved spelling, which must not be reworded.
    pub open spec fn code(self) -> Seq<char> {
        match self {
            ModelAxis::Forecast => "forecast"@,
            ModelAxis::Analysis => "analysis"@,
        }
    }

    pub fn as_str(self) -> (text: &'static str)
        ensures
            text@ == self.code(),
    {
        match self {
            ModelAxis::Forecast => "forecast",
            ModelAxis::Analysis => "analysis",
        }
    }

    pub open spec fn name(self) -> Seq<char> {
        match self {
            ModelAxis::Forecast => "Forecast hours"@,
            ModelAxis::Analysis => "Past runs"@,
        }
    }

    pub fn label(self) -> (text: &'static str)
        ensures
            text@ == self.name(),
    {
        match self {
            ModelAxis::Forecast => "Forecast hours",
            ModelAxis::Analysis => "Past runs",
        }
    }

    /// The axis a saved spelling names. A spelling of a later version names none.
    pub open spec fn of_code(text: Seq<char>) -> Option<ModelAxis> {
        if text == ModelAxis::Forecast.code() {
            Some(ModelAxis::Forecast)
        } else if text == ModelAxis::Analysis.code() {
            Some(ModelAxis::Analysis)
        } else {
            None
        }
    }

    pub fn parse(text: &str) -> (axis: Option<ModelAxis>)
        ensures
            axis == Self::of_code(text@),
    {
        if same_text(text, "forecast") {
            Some(ModelAxis::Forecast)
        } else if same_text(text, "analysis") {
            Some(ModelAxis::Analysis)
        } else {
            None
        }
    }

    pub fn all() -> (axes: [ModelAxis; 2])
        ensures
            axes@ == seq![ModelAxis::Forecast, ModelAxis::Analysis],
    {
        let axes = [ModelAxis::Forecast, ModelAxis::Analysis];
        assert(axes@ =~= seq![ModelAxis::Forecast, ModelAxis::Analysis]);
        axes
    }
}

/// An axis reads back from its saved spelling.
pub proof fn law_axis_reads_back(axis: ModelAxis)
    ensures
        ModelAxis::of_code(axis.code()) == Some(axis),
{
    reveal_strlit("forecast");
    reveal_strlit("analysis");
    assert("forecast"@[0] == 'f' && "analysis"@[0] == 'a');
}

/// The last forecast hour a run publishes: 48 on the six-hourly cycles, 18 on
/// every other hour.
pub open spec fn horizon(run: Instant) -> u8 {
    if run.hour_of_day() % 6 == 0 {
        48
    } else {
        18
    }
}

pub fn forecast_horizon(run: Instant) -> (last: u8)
    ensures
        last == horizon(run),
{
    if run.hour() % 6 == 0 {
        48
    } else {
        18
    }
}

/// A run reaches two days on every sixth hour, and eighteen hours on the others.
pub proof fn law_every_sixth_run_reaches_two_days(run: Instant)
    ensures
        (run.secs as int / 3_600) % 6 == 0 ==> horizon(run) == 48,
        (run.secs as int / 3_600) % 6 != 0 ==> horizon(run) == 18,
{
    let (day, past) = (run.secs as int / 86_400, run.secs as int % 86_400);
    let hour = past / 3_600;
    assert(run.secs as int == 3_600 * (24 * day + hour) + past % 3_600);
    assert(run.secs as int / 3_600 == 24 * day + hour);
    assert((24 * day + hour) % 6 == hour % 6);
}

} // verus!
