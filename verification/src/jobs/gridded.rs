//! The gridded row: a field's values on a grid, cut to the window a picture
//! reaches.
//!
//! A grid held on this side crosses in one of two ways. [`GriddedJob::encode`]
//! cuts it and writes the window's values. [`GriddedJob::resident_payload`]
//! lends the rows the window spans as they lie, and
//! [`GriddedJob::decode_resident`] cuts the columns on the far side. Both ways
//! give the far side the same window.
use std::sync::Arc;
use vstd::prelude::*;
use vstd::utf8::{decode_utf8, valid_utf8};
use crate::jobs::coords::{coords_counted, lemma_coords_read_back, CoordsView, GridCoords};
use crate::jobs::samples::{
    all_narrow,
    cut,
    law_a_cut_has_each_cell,
    law_band_cut,
    law_byte_cut,
    law_samples_canonical,
    law_samples_round_trip,
    lemma_cut_len,
    lemma_narrow_width,
    lemma_sample_bytes_len,
    lemma_sample_run,
    lemma_samples_step,
    push_sample,
    read_sample,
    sample_bytes,
    samples_of,
};
use crate::jobs::{EncodeCtx, IndexWindow, JobGeometry};
use crate::text::{carried_bytes, lemma_text_reads_back, same_text};
use crate::wire::{Parsed, Reader, Wire};

verus! {

impl IndexWindow {
    /// The edges in wire order.
    pub open spec fn parts(self) -> (u32, (u32, (u32, u32))) {
        (self.i0, (self.i1, (self.j0, self.j1)))
    }

    /// How many cells are inside.
    pub open spec fn cells(self) -> nat
        recommends
            self.i0 <= self.i1,
            self.j0 <= self.j1,
    {
        ((self.j1 - self.j0) * (self.i1 - self.i0)) as nat
    }

    /// Right side out, and inside a grid `ni` by `nj`. It may be empty.
    pub open spec fn inside(self, ni: u32, nj: u32) -> bool {
        self.i0 <= self.i1 <= ni && self.j0 <= self.j1 <= nj
    }

    fn is_inside(&self, ni: u32, nj: u32) -> (b: bool)
        ensures
            b == self.inside(ni, nj),
    {
        self.i0 <= self.i1 && self.i1 <= ni && self.j0 <= self.j1 && self.j1 <= nj
    }

    /// The part of this window that is on a grid `ni` by `nj`.
    pub open spec fn clamped(self, ni: u32, nj: u32) -> IndexWindow {
        let i1 = if self.i1 <= ni {
            self.i1
        } else {
            ni
        };
        let j1 = if self.j1 <= nj {
            self.j1
        } else {
            nj
        };
        IndexWindow {
            i0: if self.i0 <= i1 {
                self.i0
            } else {
                i1
            },
            i1,
            j0: if self.j0 <= j1 {
                self.j0
            } else {
                j1
            },
            j1,
        }
    }

    pub fn clamp_to(&self, ni: u32, nj: u32) -> (win: IndexWindow)
        ensures
            win == self.clamped(ni, nj),
            win.inside(ni, nj),
            self.inside(ni, nj) ==> win == *self,
    {
        let i1: u32 = if self.i1 <= ni {
            self.i1
        } else {
            ni
        };
        let j1: u32 = if self.j1 <= nj {
            self.j1
        } else {
            nj
        };
        IndexWindow {
            i0: if self.i0 <= i1 {
                self.i0
            } else {
                i1
            },
            i1,
            j0: if self.j0 <= j1 {
                self.j0
            } else {
                j1
            },
            j1,
        }
    }

    /// How many cells are inside.
    pub fn area(&self) -> (area: u64)
        requires
            self.i0 <= self.i1,
            self.j0 <= self.j1,
        ensures
            area == self.cells(),
    {
        let rows: u64 = (self.j1 - self.j0) as u64;
        let columns: u64 = (self.i1 - self.i0) as u64;
        assert(0 <= rows * columns <= 0xffff_ffff * 0xffff_ffff) by (nonlinear_arith)
            requires
                rows <= 0xffff_ffff,
                columns <= 0xffff_ffff,
        ;
        rows * columns
    }
}

impl DeepView for IndexWindow {
    type V = IndexWindow;

    open spec fn deep_view(&self) -> IndexWindow {
        *self
    }
}

/// The edges in wire order.
pub type WindowParts = (u32, (u32, (u32, u32)));

impl Wire for IndexWindow {
    open spec fn fits(view: IndexWindow) -> bool {
        true
    }

    open spec fn encoded(view: IndexWindow) -> Seq<u8> {
        WindowParts::encoded(view.parts())
    }

    open spec fn parsed(bytes: Seq<u8>) -> Parsed<IndexWindow> {
        match WindowParts::parsed(bytes) {
            Some(((i0, (i1, (j0, j1))), rest)) => Some((IndexWindow { i0, i1, j0, j1 }, rest)),
            None => None,
        }
    }

    open spec fn restored(&self) -> bool {
        true
    }

    fn encode(&self, out: &mut Vec<u8>) {
        (self.i0, (self.i1, (self.j0, self.j1))).encode(out);
    }

    fn decode(r: &mut Reader<'_>) -> (value: Option<IndexWindow>) {
        match WindowParts::decode(r) {
            Some((i0, (i1, (j0, j1)))) => Some(IndexWindow { i0, i1, j0, j1 }),
            None => None,
        }
    }

    proof fn law_round_trip(view: IndexWindow, tail: Seq<u8>) {
        WindowParts::law_round_trip(view.parts(), tail);
    }

    proof fn law_canonical(bytes: Seq<u8>) {
        WindowParts::law_canonical(bytes);
    }
}

/// How many codes a narrow store may reserve for "no value".
pub const MAX_NAN_CODES: usize = 8;

/// Tag of values that are one `f32` a point.
pub const WIRE_VALUES_F32: u8 = 0;

/// Tag of values that are one 16-bit code a point.
pub const WIRE_VALUES_SCALED_U16: u8 = 1;

/// How a grid's values are stored, which is how they travel: every length on
/// this row is built from it. The affine's operands travel as computed `f32` bit
/// patterns, so the far side's arithmetic is bit-identical.
#[derive(Debug)]
pub enum WireValues {
    F32,
    ScaledU16 { ref_val: u32, two_pow: u32, dig_factor: u32, nan_codes: Vec<u16> },
}

/// [`WireValues`] with its list as a sequence.
pub enum ReprView {
    F32,
    ScaledU16 { ref_val: u32, two_pow: u32, dig_factor: u32, nan_codes: Seq<u16> },
}

impl ReprView {
    /// Bytes a sample.
    pub open spec fn width(self) -> nat {
        match self {
            ReprView::F32 => 4,
            ReprView::ScaledU16 { .. } => 2,
        }
    }
}

/// The affine's operands and then the reserved codes, under a one-byte count.
pub open spec fn scaled_bytes(
    ref_val: u32,
    two_pow: u32,
    dig_factor: u32,
    nan_codes: Seq<u16>,
) -> Seq<u8> {
    <(u32, (u32, (u32, u8))) as Wire>::encoded(
        (ref_val, (two_pow, (dig_factor, nan_codes.len() as u8))),
    ) + crate::wire::encoded_all::<u16>(nan_codes)
}

impl DeepView for WireValues {
    type V = ReprView;

    open spec fn deep_view(&self) -> ReprView {
        match *self {
            WireValues::F32 => ReprView::F32,
            WireValues::ScaledU16 { ref_val, two_pow, dig_factor, nan_codes } => {
                ReprView::ScaledU16 {
                    ref_val,
                    two_pow,
                    dig_factor,
                    nan_codes: nan_codes.deep_view(),
                }
            },
        }
    }
}

/// The scalars and the count before the reserved codes.
pub type ScaledHead = (u32, (u32, (u32, u8)));

impl Wire for WireValues {
    open spec fn fits(view: ReprView) -> bool {
        view matches ReprView::ScaledU16 { nan_codes, .. } ==> nan_codes.len() <= MAX_NAN_CODES
    }

    open spec fn encoded(view: ReprView) -> Seq<u8> {
        match view {
            ReprView::F32 => seq![WIRE_VALUES_F32],
            ReprView::ScaledU16 { ref_val, two_pow, dig_factor, nan_codes } => seq![
                WIRE_VALUES_SCALED_U16,
            ] + scaled_bytes(ref_val, two_pow, dig_factor, nan_codes),
        }
    }

    open spec fn parsed(bytes: Seq<u8>) -> Parsed<ReprView> {
        match u8::parsed(bytes) {
            None => None,
            Some((tag, after)) => if tag == WIRE_VALUES_F32 {
                Some((ReprView::F32, after))
            } else if tag == WIRE_VALUES_SCALED_U16 {
                match ScaledHead::parsed(after) {
                    Some(((ref_val, (two_pow, (dig_factor, count))), codes)) => if count
                        > MAX_NAN_CODES {
                        None
                    } else {
                        match crate::wire::parsed_all::<u16>(codes, count as nat) {
                            Some((nan_codes, rest)) => Some(
                                (
                                    ReprView::ScaledU16 { ref_val, two_pow, dig_factor, nan_codes },
                                    rest,
                                ),
                            ),
                            None => None,
                        }
                    },
                    None => None,
                }
            } else {
                None
            },
        }
    }

    open spec fn restored(&self) -> bool {
        true
    }

    fn encode(&self, out: &mut Vec<u8>) {
        match self {
            WireValues::F32 => {
                out.push(WIRE_VALUES_F32);
            },
            WireValues::ScaledU16 { ref_val, two_pow, dig_factor, nan_codes } => {
                out.push(WIRE_VALUES_SCALED_U16);
                let count: u8 = #[verifier::truncate]
                (nan_codes.len() as u8);
                (*ref_val, (*two_pow, (*dig_factor, count))).encode(out);
                crate::wire::encode_run(nan_codes, out);
            },
        }
        assert(out@ =~= old(out)@ + Self::encoded(self.deep_view()));
    }

    fn decode(r: &mut Reader<'_>) -> (value: Option<WireValues>) {
        let tag: u8 = match u8::decode(r) {
            Some(tag) => tag,
            None => return None,
        };
        if tag == WIRE_VALUES_F32 {
            return Some(WireValues::F32);
        }
        if tag != WIRE_VALUES_SCALED_U16 {
            return None;
        }
        match ScaledHead::decode(r) {
            Some((ref_val, (two_pow, (dig_factor, count)))) => {
                if count as usize > MAX_NAN_CODES {
                    return None;
                }
                match crate::wire::decode_run::<u16>(r, count as usize) {
                    Some(nan_codes) => Some(
                        WireValues::ScaledU16 { ref_val, two_pow, dig_factor, nan_codes },
                    ),
                    None => None,
                }
            },
            None => None,
        }
    }

    proof fn law_round_trip(view: ReprView, tail: Seq<u8>) {
        match view {
            ReprView::F32 => {
                u8::law_round_trip(WIRE_VALUES_F32, tail);
            },
            ReprView::ScaledU16 { ref_val, two_pow, dig_factor, nan_codes } => {
                let head = (ref_val, (two_pow, (dig_factor, nan_codes.len() as u8)));
                let codes = crate::wire::encoded_all::<u16>(nan_codes);
                u8::law_round_trip(
                    WIRE_VALUES_SCALED_U16,
                    ScaledHead::encoded(head) + (codes + tail),
                );
                ScaledHead::law_round_trip(head, codes + tail);
                crate::wire::law_run_round_trip::<u16>(nan_codes, tail);
                assert(Self::encoded(view) + tail =~= seq![WIRE_VALUES_SCALED_U16] + (
                ScaledHead::encoded(head) + (codes + tail)));
            },
        }
    }

    proof fn law_canonical(bytes: Seq<u8>) {
        u8::law_canonical(bytes);
        if let Some((tag, after)) = u8::parsed(bytes) {
            if tag == WIRE_VALUES_SCALED_U16 {
                ScaledHead::law_canonical(after);
                if let Some(((ref_val, (two_pow, (dig_factor, count))), codes)) =
                    ScaledHead::parsed(after) {
                    crate::wire::law_run_canonical::<u16>(codes, count as nat);
                    if let Some((view, rest)) = Self::parsed(bytes) {
                        assert(bytes =~= Self::encoded(view) + rest);
                    }
                }
            }
        }
    }
}

/// Sixteen-bit codes and the affine they read back through.
#[derive(Debug)]
pub struct ScaledU16 {
    pub codes: Vec<u16>,
    /// An `f32` bit pattern.
    pub ref_val: u32,
    /// An `f32` bit pattern.
    pub two_pow: u32,
    /// An `f32` bit pattern.
    pub dig_factor: u32,
    /// Codes that stand for "no value".
    pub nan_codes: Vec<u16>,
}

/// A grid's values at the width they are stored in.
#[derive(Debug)]
pub enum GridValues {
    /// One `f32` bit pattern a point.
    F32(Vec<u32>),
    Scaled(ScaledU16),
}

/// A grid's values: how they are stored, and the stored samples.
#[verifier::ext_equal]
pub struct ValuesView {
    pub repr: ReprView,
    pub samples: Seq<u32>,
}

impl ValuesView {
    /// The samples as they lie in memory and on the wire.
    pub open spec fn bytes(self) -> Seq<u8> {
        sample_bytes(self.samples, self.repr.width())
    }
}

impl DeepView for GridValues {
    type V = ValuesView;

    open spec fn deep_view(&self) -> ValuesView {
        match *self {
            GridValues::F32(values) => ValuesView { repr: ReprView::F32, samples: values@ },
            GridValues::Scaled(s) => ValuesView {
                repr: ReprView::ScaledU16 {
                    ref_val: s.ref_val,
                    two_pow: s.two_pow,
                    dig_factor: s.dig_factor,
                    nan_codes: s.nan_codes.deep_view(),
                },
                samples: s.codes@.map_values(|code: u16| code as u32),
            },
        }
    }
}

impl GridValues {
    pub fn len(&self) -> (len: usize)
        ensures
            len == self.deep_view().samples.len(),
    {
        match self {
            GridValues::F32(values) => values.len(),
            GridValues::Scaled(s) => s.codes.len(),
        }
    }

    /// The stored sample at `at`.
    pub fn sample(&self, at: usize) -> (sample: u32)
        requires
            at < self.deep_view().samples.len(),
        ensures
            sample == self.deep_view().samples[at as int],
    {
        match self {
            GridValues::F32(values) => values[at],
            GridValues::Scaled(s) => s.codes[at] as u32,
        }
    }

    /// Bytes a sample.
    pub fn bytes_per_sample(&self) -> (width: usize)
        ensures
            width == self.deep_view().repr.width(),
            0 < width <= 4,
    {
        match self {
            GridValues::F32(_) => 4,
            GridValues::Scaled(_) => 2,
        }
    }

    /// How many bytes the samples take.
    pub fn resident_bytes(&self) -> (bytes: usize)
        requires
            self.deep_view().samples.len() * self.deep_view().repr.width() <= usize::MAX,
        ensures
            bytes == self.deep_view().samples.len() * self.deep_view().repr.width(),
    {
        self.len() * self.bytes_per_sample()
    }
}

impl WireValues {
    /// How `values` are stored.
    pub fn of(values: &GridValues) -> (repr: WireValues)
        ensures
            repr.deep_view() == values.deep_view().repr,
    {
        match values {
            GridValues::F32(_) => WireValues::F32,
            GridValues::Scaled(s) => {
                let nan_codes = copied(&s.nan_codes);
                assert(nan_codes.deep_view() =~= s.nan_codes.deep_view());
                WireValues::ScaledU16 {
                    ref_val: s.ref_val,
                    two_pow: s.two_pow,
                    dig_factor: s.dig_factor,
                    nan_codes,
                }
            },
        }
    }

    /// Bytes a sample.
    pub fn bytes_per_sample(&self) -> (width: usize)
        ensures
            width == self.deep_view().width(),
            0 < width <= 4,
    {
        match self {
            WireValues::F32 => 4,
            WireValues::ScaledU16 { .. } => 2,
        }
    }

    /// The values `bytes` spell at this width, or `None` where a sample is cut
    /// short.
    pub fn values_from(&self, bytes: &[u8]) -> (values: Option<GridValues>)
        ensures
            match values {
                Some(v) => {
                    &&& bytes@.len() % self.deep_view().width() == 0
                    &&& v.deep_view() == (ValuesView {
                        repr: self.deep_view(),
                        samples: samples_of(bytes@, self.deep_view().width()),
                    })
                },
                None => bytes@.len() % self.deep_view().width() != 0,
            },
    {
        let width: usize = self.bytes_per_sample();
        if bytes.len() % width != 0 {
            return None;
        }
        match self {
            WireValues::F32 => {
                let values = f32s_from_bytes(bytes);
                let held = GridValues::F32(values);
                assert(held.deep_view() =~= (ValuesView {
                    repr: self.deep_view(),
                    samples: samples_of(bytes@, 4),
                }));
                Some(held)
            },
            WireValues::ScaledU16 { ref_val, two_pow, dig_factor, nan_codes } => {
                let codes = codes_from_bytes(bytes);
                let kept = copied(nan_codes);
                assert(kept.deep_view() =~= nan_codes.deep_view());
                let held = GridValues::Scaled(
                    ScaledU16 {
                        codes,
                        ref_val: *ref_val,
                        two_pow: *two_pow,
                        dig_factor: *dig_factor,
                        nan_codes: kept,
                    },
                );
                assert(held.deep_view() =~= (ValuesView {
                    repr: self.deep_view(),
                    samples: samples_of(bytes@, 2),
                }));
                Some(held)
            },
        }
    }
}

fn copied(codes: &Vec<u16>) -> (copy: Vec<u16>)
    ensures
        copy@ == codes@,
{
    let mut copy: Vec<u16> = Vec::new();
    let mut at: usize = 0;
    while at < codes.len()
        invariant
            at <= codes@.len(),
            copy@ == codes@.take(at as int),
        decreases codes@.len() - at,
    {
        copy.push(codes[at]);
        assert(copy@ =~= codes@.take(at + 1));
        at = at + 1;
    }
    assert(copy@ =~= codes@);
    copy
}

/// Appends `f32` bit patterns, four bytes apiece.
pub fn encode_f32s(out: &mut Vec<u8>, values: &[u32])
    ensures
        final(out)@ == old(out)@ + sample_bytes(values@, 4),
{
    let ghost before = out@;
    let mut at: usize = 0;
    assert(before + sample_bytes(values@.take(0), 4) =~= before);
    while at < values.len()
        invariant
            at <= values@.len(),
            out@ == before + sample_bytes(values@.take(at as int), 4),
        decreases values@.len() - at,
    {
        push_sample(out, values[at], 4);
        assert(values@.take(at + 1).drop_last() =~= values@.take(at as int));
        assert(out@ =~= before + sample_bytes(values@.take(at + 1), 4));
        at = at + 1;
    }
    assert(values@.take(at as int) =~= values@);
}

/// The `f32` bit patterns `bytes` spell. Bytes past the last whole one are left.
pub fn f32s_from_bytes(bytes: &[u8]) -> (values: Vec<u32>)
    ensures
        values@ == samples_of(bytes@.take(bytes@.len() - bytes@.len() % 4), 4),
        bytes@.len() % 4 == 0 ==> values@ == samples_of(bytes@, 4),
{
    let count: usize = bytes.len() / 4;
    let mut values: Vec<u32> = Vec::new();
    let mut at: usize = 0;
    while at < count
        invariant
            at <= count,
            count * 4 <= bytes@.len(),
            values@ == samples_of(bytes@.take(at * 4), 4),
        decreases count - at,
    {
        proof {
            lemma_samples_step(bytes@, at as nat, 4);
        }
        values.push(read_sample(bytes, at, 4));
        at = at + 1;
    }
    assert(bytes@.take(count * 4) =~= bytes@.take(bytes@.len() - bytes@.len() % 4));
    assert(bytes@.len() % 4 == 0 ==> bytes@.take(count * 4) =~= bytes@);
    values
}

/// The 16-bit codes that whole pairs of `bytes` spell.
fn codes_from_bytes(bytes: &[u8]) -> (codes: Vec<u16>)
    requires
        bytes@.len() % 2 == 0,
    ensures
        codes@.map_values(|code: u16| code as u32) == samples_of(bytes@, 2),
{
    let count: usize = bytes.len() / 2;
    let mut codes: Vec<u16> = Vec::new();
    let mut at: usize = 0;
    let ghost widen = |code: u16| code as u32;
    assert(codes@.map_values(widen) =~= Seq::empty());
    while at < count
        invariant
            at <= count,
            count * 2 == bytes@.len(),
            widen == (|code: u16| code as u32),
            codes@.map_values(widen) == samples_of(bytes@.take(at * 2), 2),
        decreases count - at,
    {
        proof {
            lemma_samples_step(bytes@, at as nat, 2);
            lemma_narrow_width(2);
        }
        let sample: u32 = read_sample(bytes, at, 2);
        let ghost shorter = codes@;
        codes.push(sample as u16);
        assert(codes@.map_values(widen) =~= shorter.map_values(widen).push(sample));
        at = at + 1;
    }
    assert(bytes@.take(count * 2) =~= bytes@);
    codes
}

/// One field's values on one grid.
#[derive(Debug)]
pub struct FieldGrid {
    /// The code of the field, as its registry spells it.
    pub field: String,
    pub ni: u32,
    pub nj: u32,
    pub coords: GridCoords,
    pub values: GridValues,
}

impl FieldGrid {
    /// A value for every point.
    pub open spec fn whole(&self) -> bool {
        self.values.deep_view().samples.len() == self.nj * self.ni
    }
}

/// A field's values in one window of its grid.
#[derive(Debug)]
pub struct GridWindow {
    pub field: String,
    pub ni: u32,
    pub nj: u32,
    pub coords: GridCoords,
    pub win: IndexWindow,
    pub values: GridValues,
}

/// [`GridWindow`] over mathematical values: what the row carries.
pub struct WindowView {
    pub field: Seq<char>,
    pub ni: u32,
    pub nj: u32,
    pub coords: CoordsView,
    pub win: IndexWindow,
    pub values: ValuesView,
}

impl GridWindow {
    /// The window is on the grid, with a value for each of its cells.
    pub open spec fn whole(&self) -> bool {
        &&& self.win.inside(self.ni, self.nj)
        &&& self.values.deep_view().samples.len() == self.win.cells()
    }
}

impl DeepView for GridWindow {
    type V = WindowView;

    open spec fn deep_view(&self) -> WindowView {
        WindowView {
            field: self.field@,
            ni: self.ni,
            nj: self.nj,
            coords: self.coords.deep_view(),
            win: self.win,
            values: self.values.deep_view(),
        }
    }
}

/// What a gridded job draws.
#[derive(Debug)]
pub enum GriddedInput {
    /// A model grid, held whole and shared.
    Whole(Arc<FieldGrid>),
    /// A source's resident grid, held whole and shared.
    Resident(Arc<FieldGrid>),
    /// A window already cut; what a decoder hands out.
    Window(GridWindow),
}

impl GriddedInput {
    /// A value for every point the input says it has.
    pub open spec fn whole(&self) -> bool {
        match *self {
            GriddedInput::Whole(grid) => grid.whole(),
            GriddedInput::Resident(grid) => grid.whole(),
            GriddedInput::Window(window) => window.whole(),
        }
    }

    /// The window that travels: the reach of the picture on a grid held whole,
    /// and a carried window as it was cut.
    pub open spec fn window(&self, reach: IndexWindow) -> IndexWindow {
        match *self {
            GriddedInput::Whole(grid) => reach.clamped(grid.ni, grid.nj),
            GriddedInput::Resident(grid) => reach.clamped(grid.ni, grid.nj),
            GriddedInput::Window(window) => window.win.clamped(window.ni, window.nj),
        }
    }

    /// The window's worth of this input.
    pub open spec fn cut_to(&self, reach: IndexWindow) -> WindowView {
        match *self {
            GriddedInput::Whole(grid) => cut_grid(*grid, reach.clamped(grid.ni, grid.nj)),
            GriddedInput::Resident(grid) => cut_grid(*grid, reach.clamped(grid.ni, grid.nj)),
            GriddedInput::Window(window) => window.deep_view(),
        }
    }

    /// The envelope of what travels; it reads none of the values.
    pub open spec fn head(&self, reach: IndexWindow) -> HeadView {
        let win = self.window(reach);
        match *self {
            GriddedInput::Whole(grid) => cut_grid(*grid, win).head(),
            GriddedInput::Resident(grid) => cut_grid(*grid, win).head(),
            GriddedInput::Window(window) => (WindowView { win, ..window.deep_view() }).head(),
        }
    }

    /// The window that travels.
    pub fn window_for(&self, ctx: &EncodeCtx) -> (win: IndexWindow)
        ensures
            win == self.window(ctx.reach),
            self.whole() ==> win == self.cut_to(ctx.reach).win,
            win.i0 <= win.i1,
            win.j0 <= win.j1,
    {
        match self {
            GriddedInput::Whole(grid) => ctx.reach.clamp_to(grid.ni, grid.nj),
            GriddedInput::Resident(grid) => ctx.reach.clamp_to(grid.ni, grid.nj),
            GriddedInput::Window(window) => window.win.clamp_to(window.ni, window.nj),
        }
    }
}

/// A grid cut to a window.
pub open spec fn cut_grid(grid: FieldGrid, win: IndexWindow) -> WindowView {
    let values = grid.values.deep_view();
    WindowView {
        field: grid.field@,
        ni: grid.ni,
        nj: grid.nj,
        coords: grid.coords.deep_view(),
        win,
        values: ValuesView {
            repr: values.repr,
            samples: cut(
                values.samples,
                grid.ni as nat,
                win.i0 as nat,
                win.i1 as nat,
                win.j0 as nat,
                win.j1 as nat,
            ),
        },
    }
}

/// The envelope both encoders write: the field, the shape, the coordinates, the
/// window, and last how the values are stored.
pub type HeadParts = (String, (u32, (u32, (GridCoords, (IndexWindow, WireValues)))));

/// What the envelope says.
pub type HeadView = (Seq<char>, (u32, (u32, (CoordsView, (IndexWindow, ReprView)))));

impl WindowView {
    pub open spec fn head(self) -> HeadView {
        (self.field, (self.ni, (self.nj, (self.coords, (self.win, self.values.repr)))))
    }

    /// A window the row carries whole: a registered field, a window on the grid,
    /// and a value of the stored width for each cell.
    pub open spec fn carried(self, registry: Seq<Seq<char>>) -> bool {
        &&& HeadParts::fits(self.head())
        &&& registry.contains(self.field)
        &&& self.win.inside(self.ni, self.nj)
        &&& self.values.samples.len() == self.win.cells()
        &&& all_narrow(self.values.samples, self.values.repr.width())
    }
}

/// The bytes of an envelope.
#[verifier::opaque]
pub open spec fn head_bytes(head: HeadView) -> Seq<u8> {
    HeadParts::encoded(head)
}

/// The envelope at the front of `bytes`: refused for a field this build does not
/// register, and for a window past its grid or inside out.
#[verifier::opaque]
pub open spec fn head_parsed(bytes: Seq<u8>, registry: Seq<Seq<char>>) -> Parsed<HeadView> {
    match HeadParts::parsed(bytes) {
        Some(((field, (ni, (nj, (coords, (win, repr))))), rest)) => if registry.contains(field)
            && win.inside(ni, nj) {
            Some(((field, (ni, (nj, (coords, (win, repr))))), rest))
        } else {
            None
        },
        None => None,
    }
}

/// An envelope reads back as it was written.
pub proof fn law_head_round_trip(head: HeadView, registry: Seq<Seq<char>>, tail: Seq<u8>)
    requires
        HeadParts::fits(head),
        registry.contains(head.0),
        head.1.1.1.1.0.inside(head.1.0, head.1.1.0),
    ensures
        head_parsed(head_bytes(head) + tail, registry) == Some((head, tail)),
{
    reveal(head_bytes);
    reveal(head_parsed);
    HeadParts::law_round_trip(head, tail);
}

/// An envelope that decodes is the one its bytes spell.
pub proof fn law_head_canonical(bytes: Seq<u8>, registry: Seq<Seq<char>>)
    ensures
        head_parsed(bytes, registry) matches Some((head, rest)) ==> {
            &&& HeadParts::fits(head)
            &&& registry.contains(head.0)
            &&& head.1.1.1.1.0.inside(head.1.0, head.1.1.0)
            &&& bytes == head_bytes(head) + rest
        },
{
    reveal(head_bytes);
    reveal(head_parsed);
    HeadParts::law_canonical(bytes);
}

/// The window an envelope and its values make.
pub open spec fn window_of(head: HeadView, values: Seq<u32>) -> WindowView {
    let (field, (ni, (nj, (coords, (win, repr))))) = head;
    WindowView { field, ni, nj, coords, win, values: ValuesView { repr, samples: values } }
}

/// The bytes of a window: its envelope, and then its values with no count of
/// their own, since the window already says how many there are.
pub open spec fn window_bytes(window: WindowView) -> Seq<u8> {
    head_bytes(window.head()) + window.values.bytes()
}

/// The window at the front of `bytes`.
pub open spec fn window_parsed(bytes: Seq<u8>, registry: Seq<Seq<char>>) -> Parsed<WindowView> {
    match head_parsed(bytes, registry) {
        Some((head, after)) => {
            let width = head.1.1.1.1.1.width();
            let payload = head.1.1.1.1.0.cells() * width;
            if after.len() < payload {
                None
            } else {
                Some(
                    (
                        window_of(head, samples_of(after.take(payload as int), width)),
                        after.skip(payload as int),
                    ),
                )
            }
        },
        None => None,
    }
}

/// The window an envelope names, cut out of the rows that were lent with it.
/// Rows of any other length are another grid's.
pub open spec fn resident_parsed(
    bytes: Seq<u8>,
    registry: Seq<Seq<char>>,
    payload: Seq<u8>,
) -> Parsed<WindowView> {
    match head_parsed(bytes, registry) {
        Some((head, rest)) => {
            let (ni, win, width) = (head.1.0 as nat, head.1.1.1.1.0, head.1.1.1.1.1.width());
            let rows = (win.j1 - win.j0) as nat;
            if payload.len() != rows * ni * width {
                None
            } else {
                let columns = cut(
                    payload,
                    ni * width,
                    win.i0 as nat * width,
                    win.i1 as nat * width,
                    0,
                    rows,
                );
                Some((window_of(head, samples_of(columns, width)), rest))
            }
        },
        None => None,
    }
}

/// A window reads back as it was written and consumes exactly its bytes.
pub proof fn law_window_round_trip(window: WindowView, registry: Seq<Seq<char>>, tail: Seq<u8>)
    requires
        window.carried(registry),
    ensures
        window_parsed(window_bytes(window) + tail, registry) == Some((window, tail)),
{
    let (head, values) = (window.head(), window.values.bytes());
    let width = window.values.repr.width();
    law_head_round_trip(head, registry, values + tail);
    lemma_sample_bytes_len(window.values.samples, width);
    law_samples_round_trip(window.values.samples, width);
    assert(window_bytes(window) + tail =~= head_bytes(head) + (values + tail));
    assert((values + tail).take(values.len() as int) =~= values);
    assert((values + tail).skip(values.len() as int) =~= tail);
}

/// A window that decodes is the one its bytes spell.
pub proof fn law_window_canonical(bytes: Seq<u8>, registry: Seq<Seq<char>>)
    ensures
        window_parsed(bytes, registry) matches Some((window, rest)) ==> {
            &&& window.carried(registry)
            &&& bytes == window_bytes(window) + rest
        },
{
    law_head_canonical(bytes, registry);
    if let Some((head, after)) = head_parsed(bytes, registry) {
        let (win, width) = (head.1.1.1.1.0, head.1.1.1.1.1.width());
        let payload = (win.cells() * width) as int;
        if after.len() >= payload {
            assert(payload >= 0) by (nonlinear_arith)
                requires
                    payload == win.cells() * width,
            ;
            law_samples_canonical(after.take(payload), win.cells(), width);
            let window = window_of(head, samples_of(after.take(payload), width));
            assert(bytes =~= window_bytes(window) + after.skip(payload));
        }
    }
}

/// Stored samples fit the width they are stored in.
proof fn lemma_stored_narrow(values: &GridValues)
    ensures
        all_narrow(values.deep_view().samples, values.deep_view().repr.width()),
{
    lemma_narrow_width(4);
}

/// Every sample of a window cut out of a grid fits its width, and there is one
/// for each cell.
proof fn lemma_cut_is_carried(grid: &FieldGrid, win: IndexWindow, registry: Seq<Seq<char>>)
    requires
        grid.whole(),
        win.inside(grid.ni, grid.nj),
        HeadParts::fits(cut_grid(*grid, win).head()),
        registry.contains(grid.field@),
    ensures
        cut_grid(*grid, win).carried(registry),
{
    let values = grid.values.deep_view();
    lemma_stored_narrow(&grid.values);
    assert(win.j1 * grid.ni <= grid.nj * grid.ni) by (nonlinear_arith)
        requires
            win.j1 <= grid.nj,
    ;
    let (ni, i0, i1) = (grid.ni as nat, win.i0 as nat, win.i1 as nat);
    lemma_cut_len(values.samples, ni, i0, i1, win.j0 as nat, win.j1 as nat);
    lemma_cut_narrow(values.samples, values.repr.width(), ni, i0, i1, win.j0 as nat, win.j1 as nat);
}

proof fn lemma_cut_narrow(
    samples: Seq<u32>,
    width: nat,
    ni: nat,
    i0: nat,
    i1: nat,
    j0: nat,
    j1: nat,
)
    requires
        all_narrow(samples, width),
        i0 <= i1 <= ni,
        j1 * ni <= samples.len(),
    ensures
        all_narrow(cut(samples, ni, i0, i1, j0, j1), width),
    decreases j1,
{
    if j0 < j1 {
        let row = (j1 - 1) * ni;
        assert(row + ni == j1 * ni && row >= 0) by (nonlinear_arith)
            requires
                row == (j1 - 1) * ni,
                j1 > 0,
        ;
        lemma_cut_narrow(samples, width, ni, i0, i1, j0, (j1 - 1) as nat);
        let cells = samples.subrange(row + i0, row + i1);
        assert forall|i: int| 0 <= i < cells.len() implies (#[trigger] cells[i] as nat)
            < crate::wire::span(width) by {
            assert(cells[i] == samples[row + i0 + i]);
        }
    }
}

/// Encoding an input and decoding it gives the window's worth of it, whatever
/// way it was held, and consumes exactly its bytes.
pub proof fn law_input_round_trip(
    input: GriddedInput,
    reach: IndexWindow,
    registry: Seq<Seq<char>>,
    tail: Seq<u8>,
)
    requires
        input.whole(),
        HeadParts::fits(input.cut_to(reach).head()),
        registry.contains(input.cut_to(reach).field),
    ensures
        window_parsed(window_bytes(input.cut_to(reach)) + tail, registry) == Some(
            (input.cut_to(reach), tail),
        ),
{
    match input {
        GriddedInput::Whole(grid) => lemma_cut_is_carried(
            &*grid,
            reach.clamped(grid.ni, grid.nj),
            registry,
        ),
        GriddedInput::Resident(grid) => lemma_cut_is_carried(
            &*grid,
            reach.clamped(grid.ni, grid.nj),
            registry,
        ),
        GriddedInput::Window(window) => lemma_stored_narrow(&window.values),
    }
    law_window_round_trip(input.cut_to(reach), registry, tail);
}

/// Whether the counts of an envelope's lists fit their fields.
pub open spec fn head_counted(head: HeadView) -> bool {
    &&& coords_counted(head.1.1.1.0)
    &&& head.1.1.1.1.1 matches ReprView::ScaledU16 { nan_codes, .. } ==> nan_codes.len() <= u8::MAX
}

/// What an envelope reads back as: its field as far as its count carries it, and
/// nothing for coordinates or a store that a decoder refuses.
pub open spec fn head_read(head: HeadView) -> Option<HeadView> {
    if valid_utf8(carried_bytes(head.0)) && GridCoords::fits(head.1.1.1.0) && WireValues::fits(
        head.1.1.1.1.1,
    ) {
        Some((decode_utf8(carried_bytes(head.0)), head.1))
    } else {
        None
    }
}

proof fn lemma_repr_reads_back(repr: ReprView, tail: Seq<u8>)
    requires
        repr matches ReprView::ScaledU16 { nan_codes, .. } ==> nan_codes.len() <= u8::MAX,
    ensures
        WireValues::parsed(WireValues::encoded(repr) + tail) == (if WireValues::fits(repr) {
            Some((repr, tail))
        } else {
            None
        }),
{
    if WireValues::fits(repr) {
        WireValues::law_round_trip(repr, tail);
    } else if let ReprView::ScaledU16 { ref_val, two_pow, dig_factor, nan_codes } = repr {
        let head = (ref_val, (two_pow, (dig_factor, nan_codes.len() as u8)));
        let codes = crate::wire::encoded_all::<u16>(nan_codes);
        u8::law_round_trip(WIRE_VALUES_SCALED_U16, ScaledHead::encoded(head) + (codes + tail));
        ScaledHead::law_round_trip(head, codes + tail);
        assert(WireValues::encoded(repr) + tail =~= seq![WIRE_VALUES_SCALED_U16] + (
        ScaledHead::encoded(head) + (codes + tail)));
    }
}

/// What an envelope reads back as does not rest on what follows it.
#[verifier::rlimit(40)]
#[verifier::spinoff_prover]
proof fn lemma_head_reads_back(head: HeadView, registry: Seq<Seq<char>>, tail: Seq<u8>)
    requires
        head_counted(head),
    ensures
        head_parsed(head_bytes(head) + tail, registry) == (match head_read(head) {
            Some(read) => if registry.contains(read.0) && head.1.1.1.1.0.inside(
                head.1.0,
                head.1.1.0,
            ) {
                Some((read, tail))
            } else {
                None
            },
            None => None,
        }),
        HeadParts::fits(head) ==> head_read(head) == Some(head),
{
    reveal(head_bytes);
    reveal(head_parsed);
    let (field, (ni, (nj, (coords, (win, repr))))) = head;
    let after_win = WireValues::encoded(repr) + tail;
    let after_coords = IndexWindow::encoded(win) + after_win;
    let after_nj = GridCoords::encoded(coords) + after_coords;
    let after_ni = u32::encoded(nj) + after_nj;
    let after_field = u32::encoded(ni) + after_ni;
    lemma_text_reads_back(field, after_field);
    u32::law_round_trip(ni, after_ni);
    u32::law_round_trip(nj, after_nj);
    lemma_coords_read_back(coords, after_coords);
    IndexWindow::law_round_trip(win, after_win);
    lemma_repr_reads_back(repr, tail);
    assert(HeadParts::encoded(head) + tail =~= String::encoded(field) + after_field);
}

/// Lending a grid's rows and copying its window say the same: the far side reads
/// the same window off both, origin, stored width and all, or refuses both. It
/// refuses a field it does not register, coordinates that are not usable, and a
/// field's code cut inside a character.
pub proof fn law_lent_grid_is_the_window(
    grid: FieldGrid,
    win: IndexWindow,
    registry: Seq<Seq<char>>,
    tail: Seq<u8>,
)
    requires
        grid.whole(),
        win.inside(grid.ni, grid.nj),
        head_counted(cut_grid(grid, win).head()),
    ensures
        ({
            let values = grid.values.deep_view();
            let width = values.repr.width();
            let (from, to) = (win.j0 * grid.ni * width, win.j1 * grid.ni * width);
            let window = cut_grid(grid, win);
            let lent = resident_parsed(
                head_bytes(window.head()) + tail,
                registry,
                values.bytes().subrange(from as int, to as int),
            );
            &&& 0 <= from <= to <= values.bytes().len()
            &&& lent == window_parsed(window_bytes(window) + tail, registry)
            &&& HeadParts::fits(window.head()) ==> lent == (if registry.contains(grid.field@) {
                Some((window, tail))
            } else {
                None
            })
        }),
{
    let values = grid.values.deep_view();
    let width = values.repr.width();
    let (ni, i0, i1) = (grid.ni as nat, win.i0 as nat, win.i1 as nat);
    let (j0, j1) = (win.j0 as nat, win.j1 as nat);
    let window = cut_grid(grid, win);
    let (head, copied) = (window.head(), window.values.bytes());
    lemma_head_reads_back(head, registry, tail);
    lemma_head_reads_back(head, registry, copied + tail);
    assert(j0 * ni <= j1 * ni <= grid.nj * ni && (j1 - j0) * ni == j1 * ni - j0 * ni)
        by (nonlinear_arith)
        requires
            j0 <= j1 <= grid.nj,
    ;
    lemma_stored_narrow(&grid.values);
    lemma_cut_len(values.samples, ni, i0, i1, j0, j1);
    lemma_cut_narrow(values.samples, width, ni, i0, i1, j0, j1);
    lemma_sample_bytes_len(window.values.samples, width);
    assert(window_bytes(window) + tail =~= head_bytes(head) + (copied + tail));
    assert((copied + tail).take(copied.len() as int) =~= copied);
    assert((copied + tail).skip(copied.len() as int) =~= tail);
    lemma_sample_run(values.samples, width, (j0 * ni) as int, (j1 * ni) as int);
    let band = values.samples.subrange((j0 * ni) as int, (j1 * ni) as int);
    lemma_sample_bytes_len(band, width);
    law_band_cut(values.samples, ni, i0, i1, j0, j1);
    law_byte_cut(band, width, ni, i0, i1, 0, (j1 - j0) as nat);
    law_samples_round_trip(window.values.samples, width);
}

/// The envelope that goes with lent rows is the one a copied window starts with.
pub proof fn law_one_head_for_both(input: GriddedInput, reach: IndexWindow)
    requires
        input.whole(),
    ensures
        input.head(reach) == input.cut_to(reach).head(),
{
}

/// What is lent of a grid is the bytes of the rows its window spans.
pub proof fn law_lent_rows_are_the_band(lent: ResidentBytes, grid: Arc<FieldGrid>, win: IndexWindow)
    requires
        grid.whole(),
        win.inside(grid.ni, grid.nj),
        lent_rows(Some(lent), grid, win),
        grid.values.deep_view().bytes().len() <= usize::MAX,
    ensures
        ({
            let width = grid.values.deep_view().repr.width();
            &&& lent.start == win.j0 * grid.ni * width
            &&& lent.start + lent.len == win.j1 * grid.ni * width
            &&& lent.start + lent.len <= grid.values.deep_view().bytes().len()
        }),
{
    let values = grid.values.deep_view();
    let width = values.repr.width() as int;
    let (ni, nj, j0, j1) = (grid.ni as int, grid.nj as int, win.j0 as int, win.j1 as int);
    lemma_sample_bytes_len(values.samples, width as nat);
    assert(0 <= j0 * ni <= j1 * ni <= nj * ni && (j1 - j0) * ni == j1 * ni - j0 * ni)
        by (nonlinear_arith)
        requires
            0 <= j0 <= j1 <= nj,
            0 <= ni,
    ;
    assert(0 <= (j0 * ni) * width <= (j1 * ni) * width <= (nj * ni) * width && (j0 * ni) <= (j0
        * ni) * width && (j1 * ni - j0 * ni) * width == (j1 * ni) * width - (j0 * ni) * width && (j1
        * ni - j0 * ni) <= (j1 * ni - j0 * ni) * width) by (nonlinear_arith)
        requires
            0 <= j0 * ni <= j1 * ni <= nj * ni,
            1 <= width,
    ;
}

/// The rows a job lends: a range of the bytes of a grid that stays where it is.
#[derive(Debug)]
pub struct ResidentBytes {
    pub grid: Arc<FieldGrid>,
    pub start: usize,
    pub len: usize,
}

/// A product that stops at the largest index.
pub open spec fn capped_product(a: int, b: int) -> int {
    if a * b > usize::MAX {
        usize::MAX as int
    } else {
        a * b
    }
}

fn saturating_product(a: usize, b: usize) -> (c: usize)
    ensures
        c == capped_product(a as int, b as int),
{
    match a.checked_mul(b) {
        Some(c) => c,
        None => usize::MAX,
    }
}

impl ResidentBytes {
    /// The lent bytes themselves.
    pub fn to_vec(&self) -> (bytes: Vec<u8>)
        requires
            self.start + self.len <= self.grid.values.deep_view().bytes().len(),
            self.grid.values.deep_view().bytes().len() <= usize::MAX,
        ensures
            bytes@ == self.grid.values.deep_view().bytes().subrange(
                self.start as int,
                self.start + self.len,
            ),
    {
        let ghost stored = self.grid.values.deep_view();
        let width: usize = self.grid.values.bytes_per_sample();
        let mut all: Vec<u8> = Vec::new();
        let mut at: usize = 0;
        assert(sample_bytes(stored.samples.take(0), width as nat) =~= all@);
        while at < self.grid.values.len()
            invariant
                at <= stored.samples.len(),
                stored == self.grid.values.deep_view(),
                width == stored.repr.width(),
                all@ == sample_bytes(stored.samples.take(at as int), width as nat),
            decreases stored.samples.len() - at,
        {
            push_sample(&mut all, self.grid.values.sample(at), width);
            assert(stored.samples.take(at + 1).drop_last() =~= stored.samples.take(at as int));
            at = at + 1;
        }
        assert(stored.samples.take(at as int) =~= stored.samples);
        vstd::slice::slice_to_vec(
            vstd::slice::slice_subrange(all.as_slice(), self.start, self.start + self.len),
        )
    }
}

/// The gridded row. Every gridded source rides it, since it carries a field's
/// code and not a source's own enum.
#[derive(Clone, Copy, Debug)]
pub struct GriddedJob;

impl GriddedJob {
    /// Appends the envelope, and says which window it names.
    fn encode_gridded_head(input: &GriddedInput, ctx: &EncodeCtx, out: &mut Vec<u8>) -> (win:
        IndexWindow)
        ensures
            win == input.window(ctx.reach),
            final(out)@ == old(out)@ + head_bytes(input.head(ctx.reach)),
    {
        let win = input.window_for(ctx);
        match input {
            GriddedInput::Whole(grid) => {
                write_head(
                    &grid.field,
                    grid.ni,
                    grid.nj,
                    &grid.coords,
                    win,
                    &grid.values,
                    out,
                );
            },
            GriddedInput::Resident(grid) => {
                write_head(
                    &grid.field,
                    grid.ni,
                    grid.nj,
                    &grid.coords,
                    win,
                    &grid.values,
                    out,
                );
            },
            GriddedInput::Window(window) => {
                write_head(
                    &window.field,
                    window.ni,
                    window.nj,
                    &window.coords,
                    win,
                    &window.values,
                    out,
                );
            },
        }
        win
    }

    /// Appends the envelope and the window's values.
    pub fn encode(input: &GriddedInput, ctx: &EncodeCtx, out: &mut Vec<u8>)
        requires
            input.whole(),
        ensures
            final(out)@ == old(out)@ + window_bytes(input.cut_to(ctx.reach)),
    {
        let win = Self::encode_gridded_head(input, ctx, out);
        let ghost headed = out@;
        match input {
            GriddedInput::Whole(grid) => write_rows(&grid.values, grid.ni, grid.nj, win, out),
            GriddedInput::Resident(grid) => write_rows(&grid.values, grid.ni, grid.nj, win, out),
            GriddedInput::Window(window) => write_all(&window.values, out),
        }
        assert(out@ =~= old(out)@ + window_bytes(input.cut_to(ctx.reach)));
    }

    /// Reads a window back, or refuses. `registry` holds the field codes this
    /// build can paint.
    pub fn decode(r: &mut Reader<'_>, geo: JobGeometry, registry: &Vec<String>) -> (job: Option<
        (GriddedInput, JobGeometry),
    >)
        ensures
            match window_parsed(old(r)@, registry.deep_view()) {
                Some((window, rest)) => {
                    &&& job matches Some((GriddedInput::Window(w), geo_out))
                    &&& w.deep_view() == window
                    &&& geo_out == geo
                    &&& final(r)@ == rest
                },
                None => job is None,
            },
    {
        let (field, ni, nj, coords, win, repr) = match decode_gridded_head(r, registry) {
            Some(head) => head,
            None => return None,
        };
        let ghost head = (
            field@,
            (ni, (nj, (coords.deep_view(), (win, repr.deep_view())))),
        );
        let width: usize = repr.bytes_per_sample();
        let area: u64 = win.area();
        assert(0 <= area * width <= 4 * 0xffff_ffff_ffff_ffff) by (nonlinear_arith)
            requires
                area <= 0xffff_ffff_ffff_ffff,
                width <= 4,
        ;
        let payload: u128 = area as u128 * width as u128;
        assert(payload == win.cells() * head.1.1.1.1.1.width());
        if payload > r.rest().len() as u128 {
            return None;
        }
        let bytes = match r.take(payload as usize) {
            Some(bytes) => bytes,
            None => return None,
        };
        assert(bytes@.len() % width as nat == 0) by (nonlinear_arith)
            requires
                bytes@.len() == win.cells() * width,
                0 < width,
        ;
        match repr.values_from(bytes) {
            Some(values) => {
                let window = GridWindow { field, ni, nj, coords, win, values };
                assert(window.deep_view().values =~= window_of(
                    head,
                    samples_of(bytes@, width as nat),
                ).values);
                Some((GriddedInput::Window(window), geo))
            },
            None => None,
        }
    }

    /// The rows the window spans, lent where they lie; nothing for a window that
    /// is already cut, which has no longer-lived grid behind it.
    pub fn resident_payload(input: &GriddedInput, ctx: &EncodeCtx) -> (lent: Option<ResidentBytes>)
        ensures
            match *input {
                GriddedInput::Window(_) => lent is None,
                GriddedInput::Whole(grid) => lent_rows(lent, grid, input.window(ctx.reach)),
                GriddedInput::Resident(grid) => lent_rows(lent, grid, input.window(ctx.reach)),
            },
    {
        let win = input.window_for(ctx);
        match input {
            GriddedInput::Whole(grid) => Some(lend(grid, win)),
            GriddedInput::Resident(grid) => Some(lend(grid, win)),
            GriddedInput::Window(_) => None,
        }
    }

    /// Appends the envelope alone, to go with lent rows.
    pub fn encode_resident_head(input: &GriddedInput, ctx: &EncodeCtx, out: &mut Vec<u8>)
        ensures
            final(out)@ == old(out)@ + head_bytes(input.head(ctx.reach)),
    {
        let _ = Self::encode_gridded_head(input, ctx, out);
    }

    /// Reads an envelope and cuts its window out of the rows lent with it.
    pub fn decode_resident(
        r: &mut Reader<'_>,
        geo: JobGeometry,
        payload: &[u8],
        registry: &Vec<String>,
    ) -> (job: Option<(GriddedInput, JobGeometry)>)
        ensures
            match resident_parsed(old(r)@, registry.deep_view(), payload@) {
                Some((window, rest)) => {
                    &&& job matches Some((GriddedInput::Window(w), geo_out))
                    &&& w.deep_view() == window
                    &&& geo_out == geo
                    &&& final(r)@ == rest
                },
                None => job is None,
            },
    {
        let (field, ni, nj, coords, win, repr) = match decode_gridded_head(r, registry) {
            Some(head) => head,
            None => return None,
        };
        let ghost head = (
            field@,
            (ni, (nj, (coords.deep_view(), (win, repr.deep_view())))),
        );
        let width: usize = repr.bytes_per_sample();
        let rows: u32 = win.j1 - win.j0;
        assert(0 <= rows * ni <= 0xffff_ffff * 0xffff_ffff) by (nonlinear_arith)
            requires
                rows <= 0xffff_ffff,
                ni <= 0xffff_ffff,
        ;
        let cells: u64 = rows as u64 * ni as u64;
        assert(0 <= cells * width <= 4 * 0xffff_ffff_ffff_ffff) by (nonlinear_arith)
            requires
                cells <= 0xffff_ffff_ffff_ffff,
                width <= 4,
        ;
        let expected: u128 = cells as u128 * width as u128;
        if payload.len() as u128 != expected {
            return None;
        }
        let columns = cut_columns(payload, ni, win.i0, win.i1, rows, width);
        proof {
            lemma_cut_len(
                payload@,
                (ni * width) as nat,
                (win.i0 * width) as nat,
                (win.i1 * width) as nat,
                0,
                rows as nat,
            );
            let kept = rows * (win.i1 - win.i0);
            assert(rows * (win.i1 * width - win.i0 * width) == kept * width) by (nonlinear_arith)
                requires
                    kept == rows * (win.i1 - win.i0),
            ;
            vstd::arithmetic::div_mod::lemma_mod_multiples_basic(kept, width as int);
        }
        match repr.values_from(columns.as_slice()) {
            Some(values) => {
                let window = GridWindow { field, ni, nj, coords, win, values };
                assert(window.deep_view().values =~= window_of(
                    head,
                    samples_of(columns@, width as nat),
                ).values);
                Some((GriddedInput::Window(window), geo))
            },
            None => None,
        }
    }
}

/// Whether `lent` is the bytes of the rows `win` spans.
pub open spec fn lent_rows(
    lent: Option<ResidentBytes>,
    grid: Arc<FieldGrid>,
    win: IndexWindow,
) -> bool {
    let width = grid.values.deep_view().repr.width() as int;
    &&& lent matches Some(bytes)
    &&& bytes.grid == grid
    &&& bytes.start == capped_product(capped_product(win.j0 as int, grid.ni as int), width)
    &&& bytes.len == capped_product(capped_product(win.j1 - win.j0, grid.ni as int), width)
}

fn lend(grid: &Arc<FieldGrid>, win: IndexWindow) -> (lent: ResidentBytes)
    requires
        win.j0 <= win.j1,
    ensures
        lent_rows(Some(lent), *grid, win),
{
    let width: usize = grid.values.bytes_per_sample();
    let ni: usize = grid.ni as usize;
    let start: usize = saturating_product(saturating_product(win.j0 as usize, ni), width);
    let rows: usize = (win.j1 - win.j0) as usize;
    let len: usize = saturating_product(saturating_product(rows, ni), width);
    ResidentBytes { grid: Arc::clone(grid), start, len }
}

fn write_head(
    field: &String,
    ni: u32,
    nj: u32,
    coords: &GridCoords,
    win: IndexWindow,
    values: &GridValues,
    out: &mut Vec<u8>,
)
    ensures
        final(out)@ == old(out)@ + head_bytes(
            (field@, (ni, (nj, (coords.deep_view(), (win, values.deep_view().repr))))),
        ),
{
    reveal(head_bytes);
    field.encode(out);
    (ni, nj).encode(out);
    coords.encode(out);
    win.encode(out);
    WireValues::of(values).encode(out);
    assert(out@ =~= old(out)@ + head_bytes(
        (field@, (ni, (nj, (coords.deep_view(), (win, values.deep_view().repr))))),
    ));
}

/// Reads an envelope. The field is believed only where this build registers it:
/// a code from a newer build would paint one field through another's colours.
fn decode_gridded_head(r: &mut Reader<'_>, registry: &Vec<String>) -> (head: Option<
    (String, u32, u32, GridCoords, IndexWindow, WireValues),
>)
    ensures
        match head_parsed(old(r)@, registry.deep_view()) {
            Some((view, rest)) => {
                &&& head matches Some((field, ni, nj, coords, win, repr))
                &&& view == (field@, (ni, (nj, (coords.deep_view(), (win, repr.deep_view())))))
                &&& win.inside(ni, nj)
                &&& final(r)@ == rest
            },
            None => head is None,
        },
{
    reveal(head_parsed);
    match HeadParts::decode(r) {
        Some((field, (ni, (nj, (coords, (win, repr)))))) => {
            if is_registered(field.as_str(), registry) && win.is_inside(ni, nj) {
                Some((field, ni, nj, coords, win, repr))
            } else {
                None
            }
        },
        None => None,
    }
}

fn is_registered(code: &str, registry: &Vec<String>) -> (found: bool)
    ensures
        found == registry.deep_view().contains(code@),
{
    let mut at: usize = 0;
    while at < registry.len()
        invariant
            at <= registry@.len(),
            forall|i: int| 0 <= i < at ==> registry.deep_view()[i] != code@,
        decreases registry@.len() - at,
    {
        if same_text(registry[at].as_str(), code) {
            assert(registry.deep_view()[at as int] == code@);
            return true;
        }
        at = at + 1;
    }
    false
}

/// Appends every sample.
fn write_all(values: &GridValues, out: &mut Vec<u8>)
    ensures
        final(out)@ == old(out)@ + values.deep_view().bytes(),
{
    let ghost before = out@;
    let ghost stored = values.deep_view();
    let width: usize = values.bytes_per_sample();
    let mut at: usize = 0;
    assert(before + sample_bytes(stored.samples.take(0), width as nat) =~= before);
    while at < values.len()
        invariant
            at <= stored.samples.len(),
            stored == values.deep_view(),
            out@ == before + sample_bytes(stored.samples.take(at as int), width as nat),
        decreases stored.samples.len() - at,
    {
        push_sample(out, values.sample(at), width);
        assert(stored.samples.take(at + 1).drop_last() =~= stored.samples.take(at as int));
        assert(out@ =~= before + sample_bytes(stored.samples.take(at + 1), width as nat));
        at = at + 1;
    }
    assert(stored.samples.take(at as int) =~= stored.samples);
}

/// Appends the window's samples, row by row.
fn write_rows(values: &GridValues, ni: u32, nj: u32, win: IndexWindow, out: &mut Vec<u8>)
    requires
        win.inside(ni, nj),
        values.deep_view().samples.len() == nj * ni,
    ensures
        final(out)@ == old(out)@ + sample_bytes(
            cut(
                values.deep_view().samples,
                ni as nat,
                win.i0 as nat,
                win.i1 as nat,
                win.j0 as nat,
                win.j1 as nat,
            ),
            values.deep_view().repr.width(),
        ),
{
    let ghost before = out@;
    let ghost stored = values.deep_view();
    let width: usize = values.bytes_per_sample();
    let total: usize = values.len();
    assert(win.j1 * ni <= nj * ni) by (nonlinear_arith)
        requires
            win.j1 <= nj,
    ;
    let mut j: u32 = win.j0;
    assert(before + sample_bytes(Seq::<u32>::empty(), width as nat) =~= before);
    while j < win.j1
        invariant
            win.i0 <= win.i1 <= ni,
            win.j0 <= j <= win.j1,
            win.j1 * ni <= total,
            total == stored.samples.len(),
            stored == values.deep_view(),
            width == stored.repr.width(),
            out@ == before + sample_bytes(
                cut(
                    stored.samples,
                    ni as nat,
                    win.i0 as nat,
                    win.i1 as nat,
                    win.j0 as nat,
                    j as nat,
                ),
                width as nat,
            ),
        decreases win.j1 - j,
    {
        assert(0 <= j * ni && j * ni + ni <= win.j1 * ni) by (nonlinear_arith)
            requires
                j < win.j1,
        ;
        let row: usize = j as usize * ni as usize;
        let ghost so_far = out@;
        let ghost cells = stored.samples.subrange(row + win.i0, row + win.i1);
        let mut i: u32 = win.i0;
        assert(so_far + sample_bytes(cells.take(0), width as nat) =~= so_far);
        while i < win.i1
            invariant
                win.i0 <= i <= win.i1 <= ni,
                row + ni <= total,
                total == stored.samples.len(),
                stored == values.deep_view(),
                cells == stored.samples.subrange(row + win.i0, row + win.i1),
                out@ == so_far + sample_bytes(cells.take(i - win.i0), width as nat),
            decreases win.i1 - i,
        {
            push_sample(out, values.sample(row + i as usize), width);
            assert(cells.take(i - win.i0 + 1).drop_last() =~= cells.take(i - win.i0));
            assert(out@ =~= so_far + sample_bytes(cells.take(i - win.i0 + 1), width as nat));
            i = i + 1;
        }
        proof {
            assert(cells.take(i - win.i0) =~= cells);
            let above = cut(
                stored.samples,
                ni as nat,
                win.i0 as nat,
                win.i1 as nat,
                win.j0 as nat,
                j as nat,
            );
            crate::jobs::samples::lemma_sample_bytes_concat(above, cells, width as nat);
            assert(out@ =~= before + sample_bytes(above + cells, width as nat));
        }
        j = j + 1;
    }
}

/// The columns `i0..i1` of `rows` lent rows, as bytes.
fn cut_columns(payload: &[u8], ni: u32, i0: u32, i1: u32, rows: u32, width: usize) -> (columns: Vec<
    u8,
>)
    requires
        i0 <= i1 <= ni,
        0 < width <= 4,
        payload@.len() == rows * ni * width,
    ensures
        columns@ == cut(
            payload@,
            (ni * width) as nat,
            (i0 * width) as nat,
            (i1 * width) as nat,
            0,
            rows as nat,
        ),
        rows * (ni * width) <= payload@.len(),
        i0 * width <= i1 * width <= ni * width,
{
    assert(rows * (ni * width) == rows * ni * width) by (nonlinear_arith);
    assert(i0 * width <= i1 * width <= ni * width) by (nonlinear_arith)
        requires
            i0 <= i1 <= ni,
    ;
    let len: usize = payload.len();
    let mut columns: Vec<u8> = Vec::new();
    let mut row: u32 = 0;
    while row < rows
        invariant
            row <= rows,
            i0 * width <= i1 * width <= ni * width,
            0 < width <= 4,
            len == payload@.len(),
            len == rows * (ni * width),
            columns@ == cut(
                payload@,
                (ni * width) as nat,
                (i0 * width) as nat,
                (i1 * width) as nat,
                0,
                row as nat,
            ),
        decreases rows - row,
    {
        let ghost stride = (ni * width) as int;
        assert(0 <= row * stride && row * stride + stride <= rows * stride) by (nonlinear_arith)
            requires
                row < rows,
                0 <= stride,
        ;
        let wide: usize = ni as usize * width;
        let from: usize = row as usize * wide;
        let near: usize = i0 as usize * width;
        let far: usize = i1 as usize * width;
        let cells = vstd::slice::slice_subrange(payload, from + near, from + far);
        columns.extend_from_slice(cells);
        row = row + 1;
        assert(columns@ =~= cut(
            payload@,
            (ni * width) as nat,
            (i0 * width) as nat,
            (i1 * width) as nat,
            0,
            row as nat,
        ));
    }
    columns
}

/// A window held to a grid is the part of it that is on the grid: the columns and
/// rows of the one are those of the other that the grid has.
pub proof fn law_a_held_window_is_what_the_grid_has(win: IndexWindow, ni: u32, nj: u32, at: u32)
    ensures
        (win.clamped(ni, nj).i0 <= at < win.clamped(ni, nj).i1) == (win.i0 <= at < win.i1 && at
            < ni),
        (win.clamped(ni, nj).j0 <= at < win.clamped(ni, nj).j1) == (win.j0 <= at < win.j1 && at
            < nj),
        win.clamped(ni, nj).i0 <= win.clamped(ni, nj).i1 <= ni,
        win.clamped(ni, nj).j0 <= win.clamped(ni, nj).j1 <= nj,
{
}

/// What travels of a grid is its own: the field, the shape and the coordinates of
/// the whole of it, and the value of each point of the window.
pub proof fn law_a_window_has_the_grids_own_values(
    grid: FieldGrid,
    win: IndexWindow,
    i: int,
    j: int,
)
    requires
        grid.whole(),
        win.i0 <= i < win.i1 <= grid.ni,
        win.j0 <= j < win.j1 <= grid.nj,
    ensures
        ({
            let window = cut_grid(grid, win);
            let at = (j - win.j0) * (win.i1 - win.i0) + (i - win.i0);
            &&& window.field == grid.field@
            &&& window.ni == grid.ni
            &&& window.nj == grid.nj
            &&& window.coords == grid.coords.deep_view()
            &&& window.win == win
            &&& window.values.repr == grid.values.deep_view().repr
            &&& window.values.samples[at] == grid.values.deep_view().samples[j * grid.ni + i]
        }),
{
    assert(win.j1 * grid.ni <= grid.nj * grid.ni) by (nonlinear_arith)
        requires
            win.j1 <= grid.nj,
    ;
    law_a_cut_has_each_cell(
        grid.values.deep_view().samples,
        grid.ni as nat,
        win.i0 as nat,
        win.i1 as nat,
        win.j0 as nat,
        win.j1 as nat,
        i,
        j,
    );
}

/// A grid's values are down for the bytes they are written as.
pub proof fn law_values_cost_their_bytes(values: GridValues)
    ensures
        crate::price::values_price(values) == values.deep_view().bytes().len(),
{
    lemma_sample_bytes_len(values.deep_view().samples, values.deep_view().repr.width());
}

/// A decoded window is on its own grid, of a field that is registered, and has one
/// value for each of its points; rows that were lent are taken only where they are
/// as long as the window's rows are.
pub proof fn law_a_decoded_window_is_whole(
    bytes: Seq<u8>,
    registry: Seq<Seq<char>>,
    payload: Seq<u8>,
)
    ensures
        window_parsed(bytes, registry) matches Some((window, rest)) ==> {
            &&& registry.contains(window.field)
            &&& window.win.i0 <= window.win.i1 <= window.ni
            &&& window.win.j0 <= window.win.j1 <= window.nj
            &&& window.values.samples.len() == (window.win.j1 - window.win.j0) * (window.win.i1
                - window.win.i0)
        },
        resident_parsed(bytes, registry, payload) matches Some((window, rest)) ==> {
            &&& registry.contains(window.field)
            &&& window.win.i0 <= window.win.i1 <= window.ni
            &&& window.win.j0 <= window.win.j1 <= window.nj
            &&& payload.len() == (window.win.j1 - window.win.j0) * window.ni
                * window.values.repr.width()
        },
{
    law_window_canonical(bytes, registry);
    law_head_canonical(bytes, registry);
    if let Some((window, rest)) = window_parsed(bytes, registry) {
        let (wide, tall) = (window.win.i1 - window.win.i0, window.win.j1 - window.win.j0);
        assert(tall * wide >= 0) by (nonlinear_arith)
            requires
                tall >= 0,
                wide >= 0,
        ;
    }
}

} // verus!
