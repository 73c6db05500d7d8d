//! The overlay job rows: what a rasterizer is asked for, as bytes.
//!
//! Every row's decoder refuses a flag or code outside this build's values, text
//! that is not UTF-8, and a buffer shorter than its own counts claim.
pub mod alerts;
pub mod coords;
pub mod coverage;
pub mod discussions;
pub mod glm;
pub mod gridded;
pub mod metar;
pub mod outlooks;
pub mod reply;
pub mod reports;
pub mod samples;
pub mod shapes;

use vstd::prelude::*;
use crate::jobs::shapes::GeoBounds;
use crate::text::same_text;

verus! {

/// The picture a job is asked for.
#[derive(Clone, Copy, Debug, PartialEq, Eq, Structural)]
pub struct JobGeometry {
    pub width: u32,
    pub height: u32,
    pub bounds: GeoBounds,
    pub side_ceiling_px: u32,
}

/// A half-open window of grid indices.
#[derive(Clone, Copy, Debug, PartialEq, Eq, Structural)]
pub struct IndexWindow {
    pub i0: u32,
    pub i1: u32,
    pub j0: u32,
    pub j1: u32,
}

/// What an encoder knows of the picture it encodes for.
#[derive(Clone, Copy, Debug, PartialEq, Eq, Structural)]
pub struct EncodeCtx {
    pub geometry: JobGeometry,
    /// The grid indices the picture's bounds reach, for a gridded input.
    pub reach: IndexWindow,
}

/// What kind of work a job is.
#[derive(Clone, Copy, Debug, PartialEq, Eq, Structural)]
pub enum JobCost {
    /// A picture is painted.
    Raster,
}

/// One row of the job table.
#[derive(Clone, Copy, Debug, PartialEq, Eq, Structural)]
pub enum JobRow {
    Coverage,
    Alerts,
    Outlooks,
    Discussions,
    Reports,
    Glm,
    Gridded,
    Metar,
}

/// The rows in the order that gives them their codes.
pub open spec fn job_rows() -> Seq<JobRow> {
    seq![
        JobRow::Coverage,
        JobRow::Alerts,
        JobRow::Outlooks,
        JobRow::Discussions,
        JobRow::Reports,
        JobRow::Glm,
        JobRow::Gridded,
        JobRow::Metar,
    ]
}

/// The rows in the order that gives them their codes.
pub fn job_codecs() -> (rows: Vec<JobRow>)
    ensures
        rows@ == job_rows(),
{
    vec![
        JobRow::Coverage,
        JobRow::Alerts,
        JobRow::Outlooks,
        JobRow::Discussions,
        JobRow::Reports,
        JobRow::Glm,
        JobRow::Gridded,
        JobRow::Metar,
    ]
}

impl JobRow {
    /// The name a row is known by.
    pub open spec fn label_view(self) -> Seq<char> {
        match self {
            JobRow::Coverage => "overlay/coverage"@,
            JobRow::Alerts => "overlay/alerts"@,
            JobRow::Outlooks => "overlay/outlooks"@,
            JobRow::Discussions => "overlay/discussions"@,
            JobRow::Reports => "overlay/reports"@,
            JobRow::Glm => "overlay/glm"@,
            JobRow::Gridded => "overlay/model"@,
            JobRow::Metar => "overlay/metar"@,
        }
    }

    pub fn label(self) -> (label: &'static str)
        ensures
            label@ == self.label_view(),
    {
        match self {
            JobRow::Coverage => "overlay/coverage",
            JobRow::Alerts => "overlay/alerts",
            JobRow::Outlooks => "overlay/outlooks",
            JobRow::Discussions => "overlay/discussions",
            JobRow::Reports => "overlay/reports",
            JobRow::Glm => "overlay/glm",
            JobRow::Gridded => "overlay/model",
            JobRow::Metar => "overlay/metar",
        }
    }

    /// Every row paints.
    pub fn cost(self) -> (cost: JobCost)
        ensures
            cost == JobCost::Raster,
    {
        JobCost::Raster
    }

    /// The row of a name.
    pub fn named(label: &str) -> (row: Option<JobRow>)
        ensures
            match row {
                Some(found) => found.label_view() == label@,
                None => forall|any: JobRow| #[trigger] any.label_view() != label@,
            },
    {
        let rows = job_codecs();
        let mut at: usize = 0;
        while at < rows.len()
            invariant
                at <= rows@.len(),
                rows@ == job_rows(),
                forall|i: int| 0 <= i < at ==> (#[trigger] rows@[i]).label_view() != label@,
            decreases rows@.len() - at,
        {
            if same_text(rows[at].label(), label) {
                return Some(rows[at]);
            }
            at = at + 1;
        }
        assert forall|any: JobRow| #[trigger] any.label_view() != label@ by {
            let all = job_rows();
            assert(all[0] == JobRow::Coverage && all[1] == JobRow::Alerts && all[2]
                == JobRow::Outlooks && all[3] == JobRow::Discussions && all[4] == JobRow::Reports
                && all[5] == JobRow::Glm && all[6] == JobRow::Gridded && all[7] == JobRow::Metar);
            assert(rows@.contains(any));
        }
        None
    }
}

/// No two rows share a name, so a name finds its own row.
pub proof fn law_labels_tell_rows_apart(a: JobRow, b: JobRow)
    ensures
        a.label_view() == b.label_view() ==> a == b,
        job_rows().contains(a),
        job_rows().no_duplicates(),
{
    reveal_strlit("overlay/coverage");
    reveal_strlit("overlay/alerts");
    reveal_strlit("overlay/outlooks");
    reveal_strlit("overlay/discussions");
    reveal_strlit("overlay/reports");
    reveal_strlit("overlay/glm");
    reveal_strlit("overlay/model");
    reveal_strlit("overlay/metar");
    let all = job_rows();
    assert(all[0] == JobRow::Coverage && all[1] == JobRow::Alerts && all[2] == JobRow::Outlooks
        && all[3] == JobRow::Discussions && all[4] == JobRow::Reports && all[5] == JobRow::Glm
        && all[6] == JobRow::Gridded && all[7] == JobRow::Metar);
    assert("overlay/coverage"@[8] == 'c' && "overlay/coverage"@.len() == 16);
    assert("overlay/alerts"@[8] == 'a' && "overlay/alerts"@.len() == 14);
    assert("overlay/outlooks"@[8] == 'o' && "overlay/outlooks"@.len() == 16);
    assert("overlay/discussions"@[8] == 'd');
    assert("overlay/reports"@[8] == 'r');
    assert("overlay/glm"@[8] == 'g');
    assert("overlay/model"@[8] == 'm' && "overlay/model"@[9] == 'o');
    assert("overlay/metar"@[8] == 'm' && "overlay/metar"@[9] == 'e');
}

} // verus!
