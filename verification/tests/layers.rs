//! Which layers there are, and what the gridded ones are priced at.
use squallar_overlays::layers::{
    gridded_layers, source_grid_budget_bytes, source_grid_staging_bytes, sources, GridArms,
    LayerId, GMGSI_GRANULE_BYTES, GMGSI_GRID_CACHE_BYTES, GMGSI_STAGING_BUFFER_BYTES,
};
use squallar_overlays::model::grids::{
    DESKTOP_MODEL_GRID_BUDGET_BYTES, HRRR_CONUS_GRID_BYTES, MOBILE_MODEL_GRID_BUDGET_BYTES,
    WASM_MODEL_GRID_BUDGET_BYTES,
};
use squallar_overlays::mrms::staging::{
    CONUS_GRID_BYTES, FRAME_STAGING_BYTES, STAGING_POINTS,
};

/// A mosaic kept in tiles costs a little more than its plane.
const TILED_CEILING: u64 = 49_480_000;

fn arms() -> GridArms {
    GridArms {
        mrms_cache: 2 * TILED_CEILING,
        model_cache: DESKTOP_MODEL_GRID_BUDGET_BYTES as u64,
    }
}

const UNGRIDDED: [LayerId; 6] = [
    LayerId::Radar,
    LayerId::Metar,
    LayerId::NwsAlerts,
    LayerId::Lightning,
    LayerId::CityLabels,
    LayerId::SpcOutlook,
];

#[test]
fn a_gridded_layer_answers_its_handlers_budget_and_the_rest_answer_zero() {
    let mrms = source_grid_budget_bytes(&LayerId::Mrms, &arms());
    assert_eq!(mrms, arms().mrms_cache);
    assert!(mrms >= TILED_CEILING);
    assert_eq!(mrms % TILED_CEILING, 0);
    let gmgsi = source_grid_budget_bytes(&LayerId::Gmgsi, &arms());
    assert_eq!(gmgsi, GMGSI_GRID_CACHE_BYTES);
    assert!(gmgsi >= GMGSI_GRANULE_BYTES);
    assert_eq!(gmgsi % GMGSI_GRANULE_BYTES, 0);
    let hrrr = source_grid_budget_bytes(&LayerId::ModelData, &arms());
    assert_eq!(hrrr, DESKTOP_MODEL_GRID_BUDGET_BYTES as u64);
    assert!(hrrr >= HRRR_CONUS_GRID_BYTES as u64);
    for id in UNGRIDDED {
        assert_eq!(source_grid_budget_bytes(&id, &arms()), 0, "{id:?}");
    }
    assert_eq!(
        gridded_layers(&arms()),
        [(LayerId::Mrms, mrms), (LayerId::Gmgsi, gmgsi), (LayerId::ModelData, hrrr)],
    );
}

#[test]
fn a_staging_layer_answers_its_own_grids_and_no_ratio_of_its_budget() {
    let mrms = source_grid_staging_bytes(&LayerId::Mrms);
    assert_eq!(mrms, 2 * CONUS_GRID_BYTES as u64);
    assert_eq!(
        source_grid_staging_bytes(&LayerId::Gmgsi),
        GMGSI_GRANULE_BYTES + GMGSI_STAGING_BUFFER_BYTES,
    );
    assert_ne!(mrms, source_grid_budget_bytes(&LayerId::Mrms, &arms()));
    assert_eq!(
        GMGSI_GRANULE_BYTES * 4,
        source_grid_budget_bytes(&LayerId::Gmgsi, &arms()),
    );
    assert_eq!(
        source_grid_staging_bytes(&LayerId::ModelData),
        HRRR_CONUS_GRID_BYTES as u64,
    );
    for id in UNGRIDDED {
        assert_eq!(source_grid_staging_bytes(&id), 0, "{id:?}");
    }
}

#[test]
fn the_two_figures_together_cover_every_block_a_handler_sums() {
    for (id, cache, staged, slot) in [
        (
            LayerId::Mrms,
            arms().mrms_cache,
            FRAME_STAGING_BYTES as u64,
            (STAGING_POINTS * std::mem::size_of::<u16>()) as u64,
        ),
        (
            LayerId::Gmgsi,
            GMGSI_GRID_CACHE_BYTES,
            GMGSI_GRANULE_BYTES,
            GMGSI_STAGING_BUFFER_BYTES,
        ),
    ] {
        assert_eq!(
            source_grid_budget_bytes(&id, &arms()) + source_grid_staging_bytes(&id),
            cache + staged + slot,
            "{id:?}",
        );
    }
}

#[test]
fn every_registered_gridded_layer_is_priced() {
    let gridded = vec![LayerId::ModelData, LayerId::Mrms, LayerId::Gmgsi];
    let priced: Vec<LayerId> = sources()
        .into_iter()
        .filter(|id| source_grid_budget_bytes(id, &arms()) > 0)
        .collect();
    assert_eq!(priced, gridded);
    let staging: Vec<LayerId> =
        sources().into_iter().filter(|id| source_grid_staging_bytes(id) > 0).collect();
    assert_eq!(staging, gridded);
}

#[test]
fn fifteen_layers_register_and_radar_is_not_one_of_them() {
    assert_eq!(sources().len(), 15);
    assert!(!sources().contains(&LayerId::Radar));
    assert_eq!(sources()[3], LayerId::SpcOutlook);
    assert_eq!(sources()[14], LayerId::ColorScale);
}

/// Every row costs something on every build.
#[test]
fn every_gridded_row_costs_something_on_every_build() {
    for model in [
        WASM_MODEL_GRID_BUDGET_BYTES,
        MOBILE_MODEL_GRID_BUDGET_BYTES,
        DESKTOP_MODEL_GRID_BUDGET_BYTES,
    ] {
        let arms = GridArms { mrms_cache: 1, model_cache: model as u64 };
        for (id, bytes) in gridded_layers(&arms) {
            assert!(bytes > 0, "{id:?}");
        }
    }
}
