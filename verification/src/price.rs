//! What held grids cost.
use vstd::prelude::*;
use crate::jobs::coords::GridCoords;
use crate::jobs::gridded::GridValues;

verus! {

/// What a grid's values cost.
pub open spec fn values_price(values: GridValues) -> nat {
    match values {
        GridValues::F32(bits) => 4 * bits@.len(),
        GridValues::Scaled(scaled) => 2 * scaled.codes@.len(),
    }
}

/// What a grid's coordinates cost beyond their scalars: eight bytes an entry of
/// each list, and nothing for a closed form.
pub open spec fn coords_price(coords: GridCoords) -> nat {
    match coords {
        GridCoords::Explicit { lats, lons } => 8 * (lats@.len() + lons@.len()),
        GridCoords::Separable { lat_axis, lon_axis } => 8 * (lat_axis@.len() + lon_axis@.len()),
        GridCoords::Lambert(_) => 0,
        GridCoords::Regular(_) => 0,
    }
}

pub fn values_cost(values: &GridValues) -> (cost: u128)
    ensures
        cost == values_price(*values),
        cost <= 4 * usize::MAX,
{
    match values {
        GridValues::F32(bits) => 4 * (bits.len() as u128),
        GridValues::Scaled(scaled) => 2 * (scaled.codes.len() as u128),
    }
}

pub fn coords_cost(coords: &GridCoords) -> (cost: u128)
    ensures
        cost == coords_price(*coords),
        cost <= 16 * usize::MAX,
{
    match coords {
        GridCoords::Explicit { lats, lons } => 8 * (lats.len() as u128 + lons.len() as u128),
        GridCoords::Separable { lat_axis, lon_axis } => 8 * (lat_axis.len() as u128
            + lon_axis.len() as u128),
        GridCoords::Lambert(_) => 0,
        GridCoords::Regular(_) => 0,
    }
}

/// A count, as far as an index can count.
pub open spec fn capped(n: nat) -> usize {
    if n <= usize::MAX {
        n as usize
    } else {
        usize::MAX
    }
}

pub fn cap(n: u128) -> (count: usize)
    ensures
        count == capped(n as nat),
{
    if n <= usize::MAX as u128 {
        n as usize
    } else {
        usize::MAX
    }
}

/// A number, as far as 64 bits go.
pub open spec fn at_most_u64(n: nat) -> u64 {
    if n <= u64::MAX {
        n as u64
    } else {
        u64::MAX
    }
}

pub fn cap_u64(n: u128) -> (capped: u64)
    ensures
        capped == at_most_u64(n as nat),
{
    if n <= u64::MAX as u128 {
        n as u64
    } else {
        u64::MAX
    }
}

/// A list of coordinates costs eight bytes a number, a closed form none; a count
/// is cut at what an index or 64 bits can hold, and not before.
pub proof fn law_lists_cost_eight_bytes_a_number(coords: GridCoords, n: nat)
    ensures
        match coords {
            GridCoords::Explicit { lats, lons } => coords_price(coords) == 8 * lats@.len() + 8
                * lons@.len(),
            GridCoords::Separable { lat_axis, lon_axis } => coords_price(coords) == 8
                * lat_axis@.len() + 8 * lon_axis@.len(),
            _ => coords_price(coords) == 0,
        },
        n <= usize::MAX ==> capped(n) == n,
        n > usize::MAX ==> capped(n) == usize::MAX,
        n <= u64::MAX ==> at_most_u64(n) == n,
        n > u64::MAX ==> at_most_u64(n) == u64::MAX,
{
}

} // verus!
