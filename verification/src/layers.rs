//! The layers: which there are, in what order they register, and what host memory
//! a gridded one is priced at.
use vstd::prelude::*;
use crate::model::grids::{
    DESKTOP_MODEL_GRID_BUDGET_BYTES,
    MOBILE_MODEL_GRID_BUDGET_BYTES,
    MODEL_FRAME_STAGING_BYTES,
    WASM_MODEL_GRID_BUDGET_BYTES,
};
use crate::mrms::staging::{CONUS_GRID_BYTES, FRAME_STAGING_BYTES};

verus! {

/// One layer of the map.
#[derive(Clone, Copy, Debug, PartialEq, Eq, Structural)]
pub enum LayerId {
    Radar,
    ModelData,
    Mrms,
    Gmgsi,
    SpcOutlook,
    SpcFireOutlook,
    SpcDiscussions,
    NwsAlerts,
    StormReports,
    Lightning,
    Metar,
    CityLabels,
    RadarCoverage,
    RadarSites,
    UserLocation,
    ColorScale,
}

/// One satellite granule: a byte a point, and the set of absent points beside
/// them.
pub const GMGSI_GRANULE_BYTES: u64 = 15_000_256;

/// The satellite layer's cache: one granule for each of four channels.
pub const GMGSI_GRID_CACHE_BYTES: u64 = 60_001_024;

/// The decode buffer the satellite layer keeps between granules.
pub const GMGSI_STAGING_BUFFER_BYTES: u64 = 15_000_000;

/// The cache budgets that depend on what the program is built for.
#[derive(Clone, Copy, Debug, PartialEq, Eq, Structural)]
pub struct GridArms {
    /// What the mosaic layer keeps decoded mosaics under.
    pub mrms_cache: u64,
    /// What the model layer keeps decoded grids under.
    pub model_cache: u64,
}

/// Whether a layer keeps decoded source grids.
pub open spec fn is_gridded(id: LayerId) -> bool {
    id == LayerId::Mrms || id == LayerId::Gmgsi || id == LayerId::ModelData
}

/// The bytes a gridded layer keeps its decoded source under, its cache alone, and
/// nothing for any other layer.
pub open spec fn cache_bytes(id: LayerId, arms: GridArms) -> u64 {
    match id {
        LayerId::Mrms => arms.mrms_cache,
        LayerId::Gmgsi => GMGSI_GRID_CACHE_BYTES,
        LayerId::ModelData => arms.model_cache,
        _ => 0,
    }
}

/// The bytes a gridded layer keeps beside its cache while a loop of it runs: one
/// staged granule, and on the mosaics the decode buffer kept between granules.
pub open spec fn staging_bytes(id: LayerId) -> u64 {
    match id {
        LayerId::Mrms => (FRAME_STAGING_BYTES + CONUS_GRID_BYTES) as u64,
        LayerId::Gmgsi => (GMGSI_GRANULE_BYTES + GMGSI_STAGING_BUFFER_BYTES) as u64,
        LayerId::ModelData => MODEL_FRAME_STAGING_BYTES as u64,
        _ => 0,
    }
}

/// The bytes a gridded layer keeps its decoded source under.
pub fn source_grid_budget_bytes(id: &LayerId, arms: &GridArms) -> (bytes: u64)
    ensures
        bytes == cache_bytes(*id, *arms),
{
    match *id {
        LayerId::Mrms => arms.mrms_cache,
        LayerId::Gmgsi => GMGSI_GRID_CACHE_BYTES,
        LayerId::ModelData => arms.model_cache,
        _ => 0,
    }
}

/// The bytes a gridded layer keeps beside its cache while a loop of it runs.
pub fn source_grid_staging_bytes(id: &LayerId) -> (bytes: u64)
    ensures
        bytes == staging_bytes(*id),
{
    match *id {
        LayerId::Mrms => FRAME_STAGING_BYTES as u64 + CONUS_GRID_BYTES as u64,
        LayerId::Gmgsi => GMGSI_GRANULE_BYTES + GMGSI_STAGING_BUFFER_BYTES,
        LayerId::ModelData => MODEL_FRAME_STAGING_BYTES as u64,
        _ => 0,
    }
}

/// The layers that keep a decoded source grid, each with its cache budget.
pub open spec fn gridded_rows(arms: GridArms) -> Seq<(LayerId, u64)> {
    seq![
        (LayerId::Mrms, cache_bytes(LayerId::Mrms, arms)),
        (LayerId::Gmgsi, cache_bytes(LayerId::Gmgsi, arms)),
        (LayerId::ModelData, cache_bytes(LayerId::ModelData, arms)),
    ]
}

/// Every layer that keeps a decoded source grid, with its cache budget.
pub fn gridded_layers(arms: &GridArms) -> (layers: [(LayerId, u64); 3])
    ensures
        layers@ == gridded_rows(*arms),
{
    [
        (LayerId::Mrms, source_grid_budget_bytes(&LayerId::Mrms, arms)),
        (LayerId::Gmgsi, source_grid_budget_bytes(&LayerId::Gmgsi, arms)),
        (LayerId::ModelData, source_grid_budget_bytes(&LayerId::ModelData, arms)),
    ]
}

/// Every layer but radar, in the order they register.
pub open spec fn registered() -> Seq<LayerId> {
    seq![
        LayerId::ModelData,
        LayerId::Mrms,
        LayerId::Gmgsi,
        LayerId::SpcOutlook,
        LayerId::SpcFireOutlook,
        LayerId::SpcDiscussions,
        LayerId::NwsAlerts,
        LayerId::StormReports,
        LayerId::Lightning,
        LayerId::Metar,
        LayerId::CityLabels,
        LayerId::RadarCoverage,
        LayerId::RadarSites,
        LayerId::UserLocation,
        LayerId::ColorScale,
    ]
}

/// Every layer but radar, which registers on its own.
pub fn sources() -> (layers: Vec<LayerId>)
    ensures
        layers@ == registered(),
{
    vec![
        LayerId::ModelData,
        LayerId::Mrms,
        LayerId::Gmgsi,
        LayerId::SpcOutlook,
        LayerId::SpcFireOutlook,
        LayerId::SpcDiscussions,
        LayerId::NwsAlerts,
        LayerId::StormReports,
        LayerId::Lightning,
        LayerId::Metar,
        LayerId::CityLabels,
        LayerId::RadarCoverage,
        LayerId::RadarSites,
        LayerId::UserLocation,
        LayerId::ColorScale,
    ]
}

/// Each layer registers once, and radar does not.
pub proof fn law_each_layer_registers_once(id: LayerId)
    ensures
        registered().no_duplicates(),
        registered().contains(id) == (id != LayerId::Radar),
{
    let all = registered();
    assert(all[0] == LayerId::ModelData && all[1] == LayerId::Mrms && all[2] == LayerId::Gmgsi
        && all[3] == LayerId::SpcOutlook && all[4] == LayerId::SpcFireOutlook && all[5]
        == LayerId::SpcDiscussions && all[6] == LayerId::NwsAlerts && all[7]
        == LayerId::StormReports && all[8] == LayerId::Lightning && all[9] == LayerId::Metar
        && all[10] == LayerId::CityLabels && all[11] == LayerId::RadarCoverage && all[12]
        == LayerId::RadarSites && all[13] == LayerId::UserLocation && all[14]
        == LayerId::ColorScale);
}

/// The table of gridded layers and the lookup agree on every layer and every
/// build: each row is priced as the lookup prices it, no layer has two rows, a
/// layer has a row exactly where it is gridded, and none without a row is priced.
/// Where a build gives its two caches anything at all, every row costs something.
/// A layer is priced for staging exactly where it is gridded.
pub proof fn law_gridded_layers_are_priced(id: LayerId, arms: GridArms)
    ensures
        forall|i: int|
            0 <= i < gridded_rows(arms).len() ==> (#[trigger] gridded_rows(arms)[i]).1
                == cache_bytes(gridded_rows(arms)[i].0, arms),
        forall|i: int, j: int|
            0 <= i < j < gridded_rows(arms).len() ==> (#[trigger] gridded_rows(arms)[i]).0 != (
            #[trigger] gridded_rows(arms)[j]).0,
        is_gridded(id) == exists|i: int|
            0 <= i < gridded_rows(arms).len() && (#[trigger] gridded_rows(arms)[i]).0 == id,
        cache_bytes(id, arms) > 0 ==> is_gridded(id),
        arms.mrms_cache > 0 && arms.model_cache > 0 ==> forall|i: int|
            0 <= i < gridded_rows(arms).len() ==> (#[trigger] gridded_rows(arms)[i]).1 > 0,
        arms.mrms_cache > 0 && arms.model_cache > 0 ==> (cache_bytes(id, arms) > 0) == is_gridded(
            id,
        ),
        (staging_bytes(id) > 0) == is_gridded(id),
        is_gridded(id) ==> registered().contains(id),
{
    law_each_layer_registers_once(id);
    let rows = gridded_rows(arms);
    assert(rows[0].0 == LayerId::Mrms && rows[1].0 == LayerId::Gmgsi && rows[2].0
        == LayerId::ModelData);
}

/// Every row of the table costs something on every build: with the model's cache
/// as a browser, a handheld or a desktop has it, and any mosaic cache at all.
pub proof fn law_every_gridded_row_costs(arms: GridArms)
    requires
        arms.mrms_cache > 0,
        arms.model_cache == WASM_MODEL_GRID_BUDGET_BYTES || arms.model_cache
            == MOBILE_MODEL_GRID_BUDGET_BYTES || arms.model_cache
            == DESKTOP_MODEL_GRID_BUDGET_BYTES,
    ensures
        forall|i: int|
            0 <= i < gridded_rows(arms).len() ==> (#[trigger] gridded_rows(arms)[i]).1 > 0,
        forall|id: LayerId| (#[trigger] cache_bytes(id, arms)) > 0 <==> is_gridded(id),
{
}

/// What is staged is planes of the layer's own shape, and no share of its cache:
/// the mosaic stages two planes, the satellite layer a granule and a smaller
/// buffer, the model one grid.
pub proof fn law_staging_is_the_layers_own_grids()
    ensures
        staging_bytes(LayerId::Mrms) == 2 * CONUS_GRID_BYTES,
        staging_bytes(LayerId::Gmgsi) == GMGSI_GRANULE_BYTES + GMGSI_STAGING_BUFFER_BYTES,
        GMGSI_STAGING_BUFFER_BYTES < GMGSI_GRANULE_BYTES,
        GMGSI_GRID_CACHE_BYTES == 4 * GMGSI_GRANULE_BYTES,
        staging_bytes(LayerId::ModelData) == crate::model::grids::HRRR_CONUS_GRID_BYTES,
{
}

/// How a layer reaches the screen.
#[derive(Clone, Copy, Debug, PartialEq, Eq, Structural)]
pub enum RenderMode {
    /// As a picture painted once and kept.
    Texture,
    /// Drawn anew each frame.
    PerFrameDirect,
}

/// What a pane's timeline means to a layer.
#[derive(Clone, Copy, Debug, PartialEq, Eq, Structural)]
pub enum TimeAxis {
    /// The layer has one picture, now.
    Live,
    /// The picture at an instant is what was in force then.
    EventLifetime,
    /// The layer is frames some seconds apart.
    FrameSeries { step: u64, extends_future: bool },
}

} // verus!
