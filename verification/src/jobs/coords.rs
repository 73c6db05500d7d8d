//! Where a grid's points are on the ground, and how that travels.
use vstd::prelude::*;
use crate::wire::{Parsed, Reader, Wire};

verus! {

/// Whether an `f64` bit pattern is a finite number: its exponent is not all
/// ones.
pub open spec fn finite(bits: u64) -> bool {
    (bits / 0x10_0000_0000_0000) % 0x800 != 0x7ff
}

/// Whether an `f64` bit pattern is a zero of either sign.
pub open spec fn zero(bits: u64) -> bool {
    bits % 0x8000_0000_0000_0000 == 0
}

fn is_finite(bits: u64) -> (b: bool)
    ensures
        b == finite(bits),
{
    (bits / 0x10_0000_0000_0000) % 0x800 != 0x7ff
}

fn is_zero(bits: u64) -> (b: bool)
    ensures
        b == zero(bits),
{
    bits % 0x8000_0000_0000_0000 == 0
}

/// A Lambert grid's stored constants, derived ones and the measured wrap flag
/// included: the far side restores bits and recomputes nothing. The ten numbers
/// are `f64` bit patterns.
#[derive(Clone, Copy, Debug, PartialEq, Eq, Structural)]
pub struct LambertGrid {
    pub a: u64,
    pub e: u64,
    pub n: u64,
    pub big_f: u64,
    pub rho0: u64,
    pub lon0: u64,
    pub x0: u64,
    pub y0: u64,
    pub dx: u64,
    pub dy: u64,
    pub ni: u32,
    pub nj: u32,
    pub i_consecutive: bool,
    pub alternating: bool,
    pub wraps_longitude: bool,
}

/// The constants in wire order.
pub type LambertParts = (u64, (u64, (u64, (u64, (u64, (u64, (u64, (u64, (u64, (u64, (u32, (u32,
    (bool, (bool, bool))))))))))))));

impl LambertGrid {
    pub open spec fn parts(self) -> LambertParts {
        (self.a, (self.e, (self.n, (self.big_f, (self.rho0, (self.lon0, (self.x0, (self.y0,
            (self.dx, (self.dy, (self.ni, (self.nj, (self.i_consecutive, (self.alternating,
            self.wraps_longitude))))))))))))))
    }

    pub open spec fn of_parts(parts: LambertParts) -> LambertGrid {
        let (a, (e, (n, (big_f, (rho0, (lon0, (x0, (y0, (dx, (dy, (ni, (nj, (i_consecutive,
            (alternating, wraps_longitude)))))))))))))) = parts;
        LambertGrid { a, e, n, big_f, rho0, lon0, x0, y0, dx, dy, ni, nj, i_consecutive,
            alternating, wraps_longitude }
    }

    /// Constants a grid can be computed from: finite, and a cone that is not
    /// flat.
    pub open spec fn usable(self) -> bool {
        &&& finite(self.a)
        &&& finite(self.e)
        &&& finite(self.n)
        &&& finite(self.big_f)
        &&& finite(self.rho0)
        &&& finite(self.lon0)
        &&& finite(self.x0)
        &&& finite(self.y0)
        &&& finite(self.dx)
        &&& finite(self.dy)
        &&& !zero(self.n)
    }

    /// The grid with these constants, or `None` where they are not usable.
    pub fn from_parts(parts: LambertGrid) -> (grid: Option<LambertGrid>)
        ensures
            grid == (if parts.usable() {
                Some(parts)
            } else {
                None
            }),
    {
        let whole = is_finite(parts.a) && is_finite(parts.e) && is_finite(parts.n)
            && is_finite(parts.big_f) && is_finite(parts.rho0) && is_finite(parts.lon0)
            && is_finite(parts.x0) && is_finite(parts.y0) && is_finite(parts.dx)
            && is_finite(parts.dy);
        if whole && !is_zero(parts.n) {
            Some(parts)
        } else {
            None
        }
    }
}

impl DeepView for LambertGrid {
    type V = LambertGrid;

    open spec fn deep_view(&self) -> LambertGrid {
        *self
    }
}

/// The bytes of a [`LambertGrid`].
#[verifier::opaque]
pub open spec fn lambert_bytes(grid: LambertGrid) -> Seq<u8> {
    LambertParts::encoded(grid.parts())
}

/// The [`LambertGrid`] at the front of `bytes`, where it is usable.
#[verifier::opaque]
pub open spec fn lambert_parsed(bytes: Seq<u8>) -> Parsed<LambertGrid> {
    match LambertParts::parsed(bytes) {
        Some((parts, rest)) => if LambertGrid::of_parts(parts).usable() {
            Some((LambertGrid::of_parts(parts), rest))
        } else {
            None
        },
        None => None,
    }
}

impl Wire for LambertGrid {
    open spec fn fits(view: LambertGrid) -> bool {
        view.usable()
    }

    open spec fn encoded(view: LambertGrid) -> Seq<u8> {
        lambert_bytes(view)
    }

    open spec fn parsed(bytes: Seq<u8>) -> Parsed<LambertGrid> {
        lambert_parsed(bytes)
    }

    open spec fn restored(&self) -> bool {
        true
    }

    fn encode(&self, out: &mut Vec<u8>) {
        reveal(lambert_bytes);
        (self.a, (self.e, (self.n, (self.big_f, (self.rho0, (self.lon0, (self.x0, (self.y0,
            (self.dx, (self.dy, (self.ni, (self.nj, (self.i_consecutive, (self.alternating,
            self.wraps_longitude)))))))))))))).encode(out);
    }

    fn decode(r: &mut Reader<'_>) -> (value: Option<LambertGrid>) {
        reveal(lambert_parsed);
        match LambertParts::decode(r) {
            Some((a, (e, (n, (big_f, (rho0, (lon0, (x0, (y0, (dx, (dy, (ni, (nj, (i_consecutive,
                (alternating, wraps_longitude))))))))))))))) => LambertGrid::from_parts(
                LambertGrid { a, e, n, big_f, rho0, lon0, x0, y0, dx, dy, ni, nj, i_consecutive,
                    alternating, wraps_longitude },
            ),
            None => None,
        }
    }

    proof fn law_round_trip(view: LambertGrid, tail: Seq<u8>) {
        reveal(lambert_bytes);
        reveal(lambert_parsed);
        LambertParts::law_round_trip(view.parts(), tail);
    }

    proof fn law_canonical(bytes: Seq<u8>) {
        reveal(lambert_bytes);
        reveal(lambert_parsed);
        LambertParts::law_canonical(bytes);
        if let Some((parts, rest)) = LambertParts::parsed(bytes) {
            assert(LambertGrid::of_parts(parts).parts() == parts);
        }
    }
}

/// A regular latitude-longitude grid. Its origin and steps are `f64` bit
/// patterns.
#[derive(Clone, Copy, Debug, PartialEq, Eq, Structural)]
pub struct RegularGrid {
    pub lat0: u64,
    pub lon0: u64,
    pub dlat: u64,
    pub dlon: u64,
    pub ni: u32,
    pub nj: u32,
    pub scan_mode: u8,
}

/// The seven scalars in wire order.
pub type RegularParts = (u64, (u64, (u64, (u64, (u32, (u32, u8))))));

impl RegularGrid {
    pub open spec fn parts(self) -> RegularParts {
        (
            self.lat0,
            (self.lon0, (self.dlat, (self.dlon, (self.ni, (self.nj, self.scan_mode))))),
        )
    }

    pub open spec fn of_parts(parts: RegularParts) -> RegularGrid {
        let (lat0, (lon0, (dlat, (dlon, (ni, (nj, scan_mode)))))) = parts;
        RegularGrid { lat0, lon0, dlat, dlon, ni, nj, scan_mode }
    }

    /// A shape with points in it, and finite steps that go somewhere.
    pub open spec fn usable(self) -> bool {
        &&& self.ni > 0
        &&& self.nj > 0
        &&& finite(self.lat0)
        &&& finite(self.lon0)
        &&& finite(self.dlat)
        &&& finite(self.dlon)
        &&& !zero(self.dlat)
        &&& !zero(self.dlon)
    }

    /// The grid with these scalars, or `None` where they are not usable. A zero
    /// step is refused rather than clamped: every point would sit on the origin.
    pub fn from_parts(parts: RegularGrid) -> (grid: Option<RegularGrid>)
        ensures
            grid == (if parts.usable() {
                Some(parts)
            } else {
                None
            }),
    {
        let shaped = parts.ni > 0 && parts.nj > 0;
        let placed = is_finite(parts.lat0) && is_finite(parts.lon0);
        let stepped = is_finite(parts.dlat) && is_finite(parts.dlon) && !is_zero(parts.dlat)
            && !is_zero(parts.dlon);
        if shaped && placed && stepped {
            Some(parts)
        } else {
            None
        }
    }
}

impl DeepView for RegularGrid {
    type V = RegularGrid;

    open spec fn deep_view(&self) -> RegularGrid {
        *self
    }
}

/// The bytes of a [`RegularGrid`].
#[verifier::opaque]
pub open spec fn regular_bytes(grid: RegularGrid) -> Seq<u8> {
    RegularParts::encoded(grid.parts())
}

/// The [`RegularGrid`] at the front of `bytes`, where it is usable.
#[verifier::opaque]
pub open spec fn regular_parsed(bytes: Seq<u8>) -> Parsed<RegularGrid> {
    match RegularParts::parsed(bytes) {
        Some((parts, rest)) => if RegularGrid::of_parts(parts).usable() {
            Some((RegularGrid::of_parts(parts), rest))
        } else {
            None
        },
        None => None,
    }
}

impl Wire for RegularGrid {
    open spec fn fits(view: RegularGrid) -> bool {
        view.usable()
    }

    open spec fn encoded(view: RegularGrid) -> Seq<u8> {
        regular_bytes(view)
    }

    open spec fn parsed(bytes: Seq<u8>) -> Parsed<RegularGrid> {
        regular_parsed(bytes)
    }

    open spec fn restored(&self) -> bool {
        true
    }

    fn encode(&self, out: &mut Vec<u8>) {
        reveal(regular_bytes);
        (self.lat0, (self.lon0, (self.dlat, (self.dlon, (self.ni, (self.nj,
            self.scan_mode)))))).encode(out);
    }

    fn decode(r: &mut Reader<'_>) -> (value: Option<RegularGrid>) {
        reveal(regular_parsed);
        match RegularParts::decode(r) {
            Some((lat0, (lon0, (dlat, (dlon, (ni, (nj, scan_mode))))))) => RegularGrid::from_parts(
                RegularGrid { lat0, lon0, dlat, dlon, ni, nj, scan_mode },
            ),
            None => None,
        }
    }

    proof fn law_round_trip(view: RegularGrid, tail: Seq<u8>) {
        reveal(regular_bytes);
        reveal(regular_parsed);
        RegularParts::law_round_trip(view.parts(), tail);
    }

    proof fn law_canonical(bytes: Seq<u8>) {
        reveal(regular_bytes);
        reveal(regular_parsed);
        RegularParts::law_canonical(bytes);
        if let Some((parts, rest)) = RegularParts::parsed(bytes) {
            assert(RegularGrid::of_parts(parts).parts() == parts);
        }
    }
}

/// Where a grid's points are. Latitudes and longitudes are `f64` bit patterns.
#[derive(Debug)]
pub enum GridCoords {
    /// Computed from a projection's constants.
    Lambert(LambertGrid),
    /// Computed from an origin and two steps.
    Regular(RegularGrid),
    /// Written out point by point; the two lists may differ in length.
    Explicit { lats: Vec<u64>, lons: Vec<u64> },
    /// One axis per dimension.
    Separable { lat_axis: Vec<u64>, lon_axis: Vec<u64> },
}

/// [`GridCoords`] with its lists as sequences.
pub enum CoordsView {
    Lambert(LambertGrid),
    Regular(RegularGrid),
    Explicit { lats: Seq<u64>, lons: Seq<u64> },
    Separable { lat_axis: Seq<u64>, lon_axis: Seq<u64> },
}

impl DeepView for GridCoords {
    type V = CoordsView;

    open spec fn deep_view(&self) -> CoordsView {
        match *self {
            GridCoords::Lambert(grid) => CoordsView::Lambert(grid),
            GridCoords::Regular(grid) => CoordsView::Regular(grid),
            GridCoords::Explicit { lats, lons } => CoordsView::Explicit {
                lats: lats.deep_view(),
                lons: lons.deep_view(),
            },
            GridCoords::Separable { lat_axis, lon_axis } => CoordsView::Separable {
                lat_axis: lat_axis.deep_view(),
                lon_axis: lon_axis.deep_view(),
            },
        }
    }
}

/// Tag of a Lambert grid.
pub const GRID_COORDS_LAMBERT: u8 = 1;

/// Tag of point-by-point coordinates.
pub const GRID_COORDS_EXPLICIT: u8 = 2;

/// Tag of a regular grid.
pub const GRID_COORDS_REGULAR: u8 = 3;

/// Tag of one axis per dimension.
pub const GRID_COORDS_SEPARABLE: u8 = 4;

/// Two counted lists: the counts are independent, so neither list is reshaped.
pub type AxesParts = (Vec<u64>, Vec<u64>);

impl Wire for GridCoords {
    open spec fn fits(view: CoordsView) -> bool {
        match view {
            CoordsView::Lambert(grid) => grid.usable(),
            CoordsView::Regular(grid) => grid.usable(),
            CoordsView::Explicit { lats, lons } => AxesParts::fits((lats, lons)),
            CoordsView::Separable { lat_axis, lon_axis } => AxesParts::fits((lat_axis, lon_axis)),
        }
    }

    open spec fn encoded(view: CoordsView) -> Seq<u8> {
        match view {
            CoordsView::Lambert(grid) => seq![GRID_COORDS_LAMBERT] + LambertGrid::encoded(grid),
            CoordsView::Regular(grid) => seq![GRID_COORDS_REGULAR] + RegularGrid::encoded(grid),
            CoordsView::Explicit { lats, lons } => seq![GRID_COORDS_EXPLICIT]
                + AxesParts::encoded((lats, lons)),
            CoordsView::Separable { lat_axis, lon_axis } => seq![GRID_COORDS_SEPARABLE]
                + AxesParts::encoded((lat_axis, lon_axis)),
        }
    }

    open spec fn parsed(bytes: Seq<u8>) -> Parsed<CoordsView> {
        match u8::parsed(bytes) {
            None => None,
            Some((tag, after)) => if tag == GRID_COORDS_LAMBERT {
                match LambertGrid::parsed(after) {
                    Some((grid, rest)) => Some((CoordsView::Lambert(grid), rest)),
                    None => None,
                }
            } else if tag == GRID_COORDS_REGULAR {
                match RegularGrid::parsed(after) {
                    Some((grid, rest)) => Some((CoordsView::Regular(grid), rest)),
                    None => None,
                }
            } else if tag == GRID_COORDS_EXPLICIT {
                match AxesParts::parsed(after) {
                    Some(((lats, lons), rest)) => Some((CoordsView::Explicit { lats, lons }, rest)),
                    None => None,
                }
            } else if tag == GRID_COORDS_SEPARABLE {
                match AxesParts::parsed(after) {
                    Some(((lat_axis, lon_axis), rest)) => Some(
                        (CoordsView::Separable { lat_axis, lon_axis }, rest),
                    ),
                    None => None,
                }
            } else {
                None
            },
        }
    }

    open spec fn restored(&self) -> bool {
        true
    }

    fn encode(&self, out: &mut Vec<u8>) {
        match self {
            GridCoords::Lambert(grid) => {
                out.push(GRID_COORDS_LAMBERT);
                grid.encode(out);
            },
            GridCoords::Regular(grid) => {
                out.push(GRID_COORDS_REGULAR);
                grid.encode(out);
            },
            GridCoords::Explicit { lats, lons } => {
                out.push(GRID_COORDS_EXPLICIT);
                lats.encode(out);
                lons.encode(out);
            },
            GridCoords::Separable { lat_axis, lon_axis } => {
                out.push(GRID_COORDS_SEPARABLE);
                lat_axis.encode(out);
                lon_axis.encode(out);
            },
        }
        assert(out@ =~= old(out)@ + Self::encoded(self.deep_view()));
    }

    fn decode(r: &mut Reader<'_>) -> (value: Option<GridCoords>) {
        let tag: u8 = match u8::decode(r) {
            Some(tag) => tag,
            None => return None,
        };
        if tag == GRID_COORDS_LAMBERT {
            match LambertGrid::decode(r) {
                Some(grid) => Some(GridCoords::Lambert(grid)),
                None => None,
            }
        } else if tag == GRID_COORDS_REGULAR {
            match RegularGrid::decode(r) {
                Some(grid) => Some(GridCoords::Regular(grid)),
                None => None,
            }
        } else if tag == GRID_COORDS_EXPLICIT {
            match AxesParts::decode(r) {
                Some((lats, lons)) => Some(GridCoords::Explicit { lats, lons }),
                None => None,
            }
        } else if tag == GRID_COORDS_SEPARABLE {
            match AxesParts::decode(r) {
                Some((lat_axis, lon_axis)) => Some(GridCoords::Separable { lat_axis, lon_axis }),
                None => None,
            }
        } else {
            None
        }
    }

    proof fn law_round_trip(view: CoordsView, tail: Seq<u8>) {
        match view {
            CoordsView::Lambert(grid) => {
                let body = LambertGrid::encoded(grid);
                u8::law_round_trip(GRID_COORDS_LAMBERT, body + tail);
                LambertGrid::law_round_trip(grid, tail);
                assert(Self::encoded(view) + tail =~= seq![GRID_COORDS_LAMBERT] + (body + tail));
            },
            CoordsView::Regular(grid) => {
                let body = RegularGrid::encoded(grid);
                u8::law_round_trip(GRID_COORDS_REGULAR, body + tail);
                RegularGrid::law_round_trip(grid, tail);
                assert(Self::encoded(view) + tail =~= seq![GRID_COORDS_REGULAR] + (body + tail));
            },
            CoordsView::Explicit { lats, lons } => {
                let body = AxesParts::encoded((lats, lons));
                u8::law_round_trip(GRID_COORDS_EXPLICIT, body + tail);
                AxesParts::law_round_trip((lats, lons), tail);
                assert(Self::encoded(view) + tail =~= seq![GRID_COORDS_EXPLICIT] + (body + tail));
            },
            CoordsView::Separable { lat_axis, lon_axis } => {
                let body = AxesParts::encoded((lat_axis, lon_axis));
                u8::law_round_trip(GRID_COORDS_SEPARABLE, body + tail);
                AxesParts::law_round_trip((lat_axis, lon_axis), tail);
                assert(Self::encoded(view) + tail =~= seq![GRID_COORDS_SEPARABLE] + (body + tail));
            },
        }
    }

    proof fn law_canonical(bytes: Seq<u8>) {
        u8::law_canonical(bytes);
        if let Some((tag, after)) = u8::parsed(bytes) {
            if tag == GRID_COORDS_LAMBERT {
                LambertGrid::law_canonical(after);
            } else if tag == GRID_COORDS_REGULAR {
                RegularGrid::law_canonical(after);
            } else {
                AxesParts::law_canonical(after);
            }
            if let Some((view, rest)) = Self::parsed(bytes) {
                assert(bytes =~= Self::encoded(view) + rest);
            }
        }
    }
}

/// Whether the counts of the lists fit their fields.
pub open spec fn coords_counted(view: CoordsView) -> bool {
    match view {
        CoordsView::Explicit { lats, lons } => lats.len() <= u32::MAX && lons.len() <= u32::MAX,
        CoordsView::Separable { lat_axis, lon_axis } => lat_axis.len() <= u32::MAX
            && lon_axis.len() <= u32::MAX,
        _ => true,
    }
}

proof fn lemma_lambert_refused(grid: LambertGrid, tail: Seq<u8>)
    requires
        !grid.usable(),
    ensures
        LambertGrid::parsed(LambertGrid::encoded(grid) + tail) is None,
{
    reveal(lambert_bytes);
    reveal(lambert_parsed);
    LambertParts::law_round_trip(grid.parts(), tail);
    assert(LambertGrid::of_parts(grid.parts()) == grid);
}

proof fn lemma_regular_refused(grid: RegularGrid, tail: Seq<u8>)
    requires
        !grid.usable(),
    ensures
        RegularGrid::parsed(RegularGrid::encoded(grid) + tail) is None,
{
    reveal(regular_bytes);
    reveal(regular_parsed);
    RegularParts::law_round_trip(grid.parts(), tail);
    assert(RegularGrid::of_parts(grid.parts()) == grid);
}

proof fn lemma_coords_refused(view: CoordsView, tail: Seq<u8>)
    requires
        coords_counted(view),
        !GridCoords::fits(view),
    ensures
        GridCoords::parsed(GridCoords::encoded(view) + tail) is None,
{
    match view {
        CoordsView::Lambert(grid) => {
            let bytes = LambertGrid::encoded(grid);
            lemma_lambert_refused(grid, tail);
            assert(GridCoords::encoded(view) + tail =~= seq![GRID_COORDS_LAMBERT] + (bytes + tail));
            u8::law_round_trip(GRID_COORDS_LAMBERT, bytes + tail);
        },
        CoordsView::Regular(grid) => {
            let bytes = RegularGrid::encoded(grid);
            lemma_regular_refused(grid, tail);
            assert(GridCoords::encoded(view) + tail =~= seq![GRID_COORDS_REGULAR] + (bytes + tail));
            u8::law_round_trip(GRID_COORDS_REGULAR, bytes + tail);
        },
        _ => {},
    }
}

/// Coordinates whose counts fit read back whole where they are usable, and are
/// refused where they are not, whatever follows.
pub proof fn lemma_coords_read_back(view: CoordsView, tail: Seq<u8>)
    requires
        coords_counted(view),
    ensures
        GridCoords::parsed(GridCoords::encoded(view) + tail) == (if GridCoords::fits(view) {
            Some((view, tail))
        } else {
            None
        }),
{
    if GridCoords::fits(view) {
        GridCoords::law_round_trip(view, tail);
    } else {
        lemma_coords_refused(view, tail);
    }
}

/// A finite number is one whose exponent bits are not all set, and a zero one
/// without any bit but the sign's.
pub proof fn law_finite_is_by_the_exponent(bits: u64)
    ensures
        finite(bits) == (bits & 0x7ff0_0000_0000_0000 != 0x7ff0_0000_0000_0000),
        zero(bits) == (bits & 0x7fff_ffff_ffff_ffff == 0),
{
    assert(((bits / 0x10_0000_0000_0000) % 0x800 != 0x7ff) == (bits & 0x7ff0_0000_0000_0000
        != 0x7ff0_0000_0000_0000)) by (bit_vector);
    assert((bits % 0x8000_0000_0000_0000 == 0) == (bits & 0x7fff_ffff_ffff_ffff == 0))
        by (bit_vector);
}

/// A grid that decodes can be computed on: every number of it is finite, a regular
/// one has points and steps that go somewhere, and a Lambert one a cone that is
/// not flat.
pub proof fn law_a_decoded_grid_is_usable(bytes: Seq<u8>)
    ensures
        regular_parsed(bytes) matches Some((grid, _)) ==> {
            &&& grid.ni > 0 && grid.nj > 0
            &&& grid.lat0 & 0x7ff0_0000_0000_0000 != 0x7ff0_0000_0000_0000
            &&& grid.lon0 & 0x7ff0_0000_0000_0000 != 0x7ff0_0000_0000_0000
            &&& grid.dlat & 0x7ff0_0000_0000_0000 != 0x7ff0_0000_0000_0000
            &&& grid.dlon & 0x7ff0_0000_0000_0000 != 0x7ff0_0000_0000_0000
            &&& grid.dlat & 0x7fff_ffff_ffff_ffff != 0
            &&& grid.dlon & 0x7fff_ffff_ffff_ffff != 0
        },
        lambert_parsed(bytes) matches Some((grid, _)) ==> {
            &&& grid.a & 0x7ff0_0000_0000_0000 != 0x7ff0_0000_0000_0000
            &&& grid.e & 0x7ff0_0000_0000_0000 != 0x7ff0_0000_0000_0000
            &&& grid.n & 0x7ff0_0000_0000_0000 != 0x7ff0_0000_0000_0000
            &&& grid.big_f & 0x7ff0_0000_0000_0000 != 0x7ff0_0000_0000_0000
            &&& grid.rho0 & 0x7ff0_0000_0000_0000 != 0x7ff0_0000_0000_0000
            &&& grid.lon0 & 0x7ff0_0000_0000_0000 != 0x7ff0_0000_0000_0000
            &&& grid.x0 & 0x7ff0_0000_0000_0000 != 0x7ff0_0000_0000_0000
            &&& grid.y0 & 0x7ff0_0000_0000_0000 != 0x7ff0_0000_0000_0000
            &&& grid.dx & 0x7ff0_0000_0000_0000 != 0x7ff0_0000_0000_0000
            &&& grid.dy & 0x7ff0_0000_0000_0000 != 0x7ff0_0000_0000_0000
            &&& grid.n & 0x7fff_ffff_ffff_ffff != 0
        },
{
    reveal(regular_parsed);
    reveal(lambert_parsed);
    if let Some((grid, _)) = regular_parsed(bytes) {
        law_finite_is_by_the_exponent(grid.lat0);
        law_finite_is_by_the_exponent(grid.lon0);
        law_finite_is_by_the_exponent(grid.dlat);
        law_finite_is_by_the_exponent(grid.dlon);
    }
    if let Some((grid, _)) = lambert_parsed(bytes) {
        law_finite_is_by_the_exponent(grid.a);
        law_finite_is_by_the_exponent(grid.e);
        law_finite_is_by_the_exponent(grid.n);
        law_finite_is_by_the_exponent(grid.big_f);
        law_finite_is_by_the_exponent(grid.rho0);
        law_finite_is_by_the_exponent(grid.lon0);
        law_finite_is_by_the_exponent(grid.x0);
        law_finite_is_by_the_exponent(grid.y0);
        law_finite_is_by_the_exponent(grid.dx);
        law_finite_is_by_the_exponent(grid.dy);
    }
}

} // verus!
