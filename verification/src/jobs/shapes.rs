//! The values the rows share: coded enums, colours, boxes, polygons and
//! features.
use vstd::prelude::*;
use crate::wire::{Parsed, Reader, Wire};

verus! {

/// A value that travels as one byte. Codes are given by hand, so that a variant
/// keeps its code whatever is declared around it.
pub trait Coded: Sized + Copy {
    spec fn code(self) -> u8;

    spec fn of_code(code: u8) -> Option<Self>;

    fn wire_code(self) -> (code: u8)
        ensures
            code == self.code(),
    ;

    /// The value a code stands for, or `None` for a code this build lacks.
    fn from_wire_code(code: u8) -> (value: Option<Self>)
        ensures
            value == Self::of_code(code),
    ;

    /// No two values share a code, and each code reads back as its value.
    proof fn law_codes(value: Self, code: u8)
        ensures
            Self::of_code(value.code()) == Some(value),
            Self::of_code(code) matches Some(v) ==> v.code() == code,
    ;
}

/// One coded value on the wire.
#[derive(Debug)]
pub struct CodeByte<T>(pub T);

impl<T: Coded> DeepView for CodeByte<T> {
    type V = T;

    open spec fn deep_view(&self) -> T {
        self.0
    }
}

impl<T: Coded> Wire for CodeByte<T> {
    open spec fn fits(view: T) -> bool {
        true
    }

    open spec fn encoded(view: T) -> Seq<u8> {
        seq![view.code()]
    }

    open spec fn parsed(bytes: Seq<u8>) -> Parsed<T> {
        match u8::parsed(bytes) {
            Some((code, rest)) => match T::of_code(code) {
                Some(value) => Some((value, rest)),
                None => None,
            },
            None => None,
        }
    }

    open spec fn restored(&self) -> bool {
        true
    }

    fn encode(&self, out: &mut Vec<u8>) {
        self.0.wire_code().encode(out);
    }

    fn decode(r: &mut Reader<'_>) -> (value: Option<CodeByte<T>>) {
        match u8::decode(r) {
            Some(code) => match T::from_wire_code(code) {
                Some(value) => Some(CodeByte(value)),
                None => None,
            },
            None => None,
        }
    }

    proof fn law_round_trip(view: T, tail: Seq<u8>) {
        u8::law_round_trip(view.code(), tail);
        T::law_codes(view, 0);
    }

    proof fn law_canonical(bytes: Seq<u8>) {
        u8::law_canonical(bytes);
        if let Some((code, rest)) = u8::parsed(bytes) {
            if let Some(value) = T::of_code(code) {
                T::law_codes(value, code);
            }
        }
    }
}

/// How severe an alert is, most severe first.
#[derive(Clone, Copy, Debug, PartialEq, Eq, Structural)]
pub enum AlertCategory {
    Warning,
    Watch,
    Advisory,
    Other,
}

impl Coded for AlertCategory {
    open spec fn code(self) -> u8 {
        match self {
            AlertCategory::Warning => 0,
            AlertCategory::Watch => 1,
            AlertCategory::Advisory => 2,
            AlertCategory::Other => 3,
        }
    }

    open spec fn of_code(code: u8) -> Option<AlertCategory> {
        match code {
            0 => Some(AlertCategory::Warning),
            1 => Some(AlertCategory::Watch),
            2 => Some(AlertCategory::Advisory),
            3 => Some(AlertCategory::Other),
            _ => None,
        }
    }

    fn wire_code(self) -> (code: u8) {
        match self {
            AlertCategory::Warning => 0,
            AlertCategory::Watch => 1,
            AlertCategory::Advisory => 2,
            AlertCategory::Other => 3,
        }
    }

    fn from_wire_code(code: u8) -> (value: Option<AlertCategory>) {
        match code {
            0 => Some(AlertCategory::Warning),
            1 => Some(AlertCategory::Watch),
            2 => Some(AlertCategory::Advisory),
            3 => Some(AlertCategory::Other),
            _ => None,
        }
    }

    proof fn law_codes(value: AlertCategory, code: u8) {
    }
}

impl DeepView for AlertCategory {
    type V = AlertCategory;

    open spec fn deep_view(&self) -> AlertCategory {
        *self
    }
}

impl Wire for AlertCategory {
    open spec fn fits(view: AlertCategory) -> bool {
        true
    }

    open spec fn encoded(view: AlertCategory) -> Seq<u8> {
        CodeByte::<AlertCategory>::encoded(view)
    }

    open spec fn parsed(bytes: Seq<u8>) -> Parsed<AlertCategory> {
        CodeByte::<AlertCategory>::parsed(bytes)
    }

    open spec fn restored(&self) -> bool {
        true
    }

    fn encode(&self, out: &mut Vec<u8>) {
        CodeByte(*self).encode(out);
    }

    fn decode(r: &mut Reader<'_>) -> (value: Option<AlertCategory>) {
        match CodeByte::<AlertCategory>::decode(r) {
            Some(CodeByte(category)) => Some(category),
            None => None,
        }
    }

    proof fn law_round_trip(view: AlertCategory, tail: Seq<u8>) {
        CodeByte::<AlertCategory>::law_round_trip(view, tail);
    }

    proof fn law_canonical(bytes: Seq<u8>) {
        CodeByte::<AlertCategory>::law_canonical(bytes);
    }
}

/// What a storm report saw.
#[derive(Clone, Copy, Debug, PartialEq, Eq, Structural)]
pub enum StormReportKind {
    Tornado,
    Hail,
    Wind,
}

impl Coded for StormReportKind {
    open spec fn code(self) -> u8 {
        match self {
            StormReportKind::Tornado => 0,
            StormReportKind::Hail => 1,
            StormReportKind::Wind => 2,
        }
    }

    open spec fn of_code(code: u8) -> Option<StormReportKind> {
        match code {
            0 => Some(StormReportKind::Tornado),
            1 => Some(StormReportKind::Hail),
            2 => Some(StormReportKind::Wind),
            _ => None,
        }
    }

    fn wire_code(self) -> (code: u8) {
        match self {
            StormReportKind::Tornado => 0,
            StormReportKind::Hail => 1,
            StormReportKind::Wind => 2,
        }
    }

    fn from_wire_code(code: u8) -> (value: Option<StormReportKind>) {
        match code {
            0 => Some(StormReportKind::Tornado),
            1 => Some(StormReportKind::Hail),
            2 => Some(StormReportKind::Wind),
            _ => None,
        }
    }

    proof fn law_codes(value: StormReportKind, code: u8) {
    }
}

/// What a mesoscale discussion is about.
#[derive(Clone, Copy, Debug, PartialEq, Eq, Structural)]
pub enum MdType {
    Convective,
    WinterWeather,
    Other,
}

impl Coded for MdType {
    open spec fn code(self) -> u8 {
        match self {
            MdType::Convective => 0,
            MdType::WinterWeather => 1,
            MdType::Other => 2,
        }
    }

    open spec fn of_code(code: u8) -> Option<MdType> {
        match code {
            0 => Some(MdType::Convective),
            1 => Some(MdType::WinterWeather),
            2 => Some(MdType::Other),
            _ => None,
        }
    }

    fn wire_code(self) -> (code: u8) {
        match self {
            MdType::Convective => 0,
            MdType::WinterWeather => 1,
            MdType::Other => 2,
        }
    }

    fn from_wire_code(code: u8) -> (value: Option<MdType>) {
        match code {
            0 => Some(MdType::Convective),
            1 => Some(MdType::WinterWeather),
            2 => Some(MdType::Other),
            _ => None,
        }
    }

    proof fn law_codes(value: MdType, code: u8) {
    }
}

/// The hatch of a feature: none, or one of the three conditional intensity
/// groups.
#[derive(Clone, Copy, Debug, PartialEq, Eq, Structural)]
pub enum HatchPattern {
    Unhatched,
    Cig1,
    Cig2,
    Cig3,
}

impl Coded for HatchPattern {
    open spec fn code(self) -> u8 {
        match self {
            HatchPattern::Unhatched => 0,
            HatchPattern::Cig1 => 1,
            HatchPattern::Cig2 => 2,
            HatchPattern::Cig3 => 3,
        }
    }

    open spec fn of_code(code: u8) -> Option<HatchPattern> {
        match code {
            0 => Some(HatchPattern::Unhatched),
            1 => Some(HatchPattern::Cig1),
            2 => Some(HatchPattern::Cig2),
            3 => Some(HatchPattern::Cig3),
            _ => None,
        }
    }

    fn wire_code(self) -> (code: u8) {
        match self {
            HatchPattern::Unhatched => 0,
            HatchPattern::Cig1 => 1,
            HatchPattern::Cig2 => 2,
            HatchPattern::Cig3 => 3,
        }
    }

    fn from_wire_code(code: u8) -> (value: Option<HatchPattern>) {
        match code {
            0 => Some(HatchPattern::Unhatched),
            1 => Some(HatchPattern::Cig1),
            2 => Some(HatchPattern::Cig2),
            3 => Some(HatchPattern::Cig3),
            _ => None,
        }
    }

    proof fn law_codes(value: HatchPattern, code: u8) {
    }
}

/// Four bytes as they stand, for a colour's red, green, blue and alpha.
impl Wire for [u8; 4] {
    open spec fn fits(view: Seq<u8>) -> bool {
        view.len() == 4
    }

    open spec fn encoded(view: Seq<u8>) -> Seq<u8> {
        view
    }

    open spec fn parsed(bytes: Seq<u8>) -> Parsed<Seq<u8>> {
        if bytes.len() < 4 {
            None
        } else {
            Some((bytes.take(4), bytes.skip(4)))
        }
    }

    open spec fn restored(&self) -> bool {
        true
    }

    fn encode(&self, out: &mut Vec<u8>) {
        out.push(self[0]);
        out.push(self[1]);
        out.push(self[2]);
        out.push(self[3]);
        assert(out@ =~= old(out)@ + self.deep_view());
    }

    fn decode(r: &mut Reader<'_>) -> (value: Option<[u8; 4]>) {
        match r.take(4) {
            Some(bytes) => {
                let value = [bytes[0], bytes[1], bytes[2], bytes[3]];
                assert(value.deep_view() =~= bytes@);
                Some(value)
            },
            None => None,
        }
    }

    proof fn law_round_trip(view: Seq<u8>, tail: Seq<u8>) {
        assert((view + tail).take(4) =~= view);
        assert((view + tail).skip(4) =~= tail);
    }

    proof fn law_canonical(bytes: Seq<u8>) {
        if bytes.len() >= 4 {
            assert(bytes =~= bytes.take(4) + bytes.skip(4));
        }
    }
}

/// A box on the ground. The four edges are `f64` bit patterns.
#[derive(Clone, Copy, Debug, PartialEq, Eq, Structural)]
pub struct GeoBounds {
    pub min_lat: u64,
    pub max_lat: u64,
    pub min_lon: u64,
    pub max_lon: u64,
}

impl DeepView for GeoBounds {
    type V = GeoBounds;

    open spec fn deep_view(&self) -> GeoBounds {
        *self
    }
}

/// The four edges in wire order.
pub type BoundsParts = (u64, (u64, (u64, u64)));

impl GeoBounds {
    pub open spec fn parts(self) -> (u64, (u64, (u64, u64))) {
        (self.min_lat, (self.max_lat, (self.min_lon, self.max_lon)))
    }
}

impl Wire for GeoBounds {
    open spec fn fits(view: GeoBounds) -> bool {
        true
    }

    open spec fn encoded(view: GeoBounds) -> Seq<u8> {
        BoundsParts::encoded(view.parts())
    }

    open spec fn parsed(bytes: Seq<u8>) -> Parsed<GeoBounds> {
        match BoundsParts::parsed(bytes) {
            Some(((min_lat, (max_lat, (min_lon, max_lon))), rest)) => Some(
                (GeoBounds { min_lat, max_lat, min_lon, max_lon }, rest),
            ),
            None => None,
        }
    }

    open spec fn restored(&self) -> bool {
        true
    }

    fn encode(&self, out: &mut Vec<u8>) {
        (self.min_lat, (self.max_lat, (self.min_lon, self.max_lon))).encode(out);
    }

    fn decode(r: &mut Reader<'_>) -> (value: Option<GeoBounds>) {
        match BoundsParts::decode(r) {
            Some((min_lat, (max_lat, (min_lon, max_lon)))) => Some(
                GeoBounds { min_lat, max_lat, min_lon, max_lon },
            ),
            None => None,
        }
    }

    proof fn law_round_trip(view: GeoBounds, tail: Seq<u8>) {
        BoundsParts::law_round_trip(view.parts(), tail);
    }

    proof fn law_canonical(bytes: Seq<u8>) {
        BoundsParts::law_canonical(bytes);
    }
}

/// Rings of `(lat, lon)` points, each an `f64` bit pattern: the exterior first
/// and then the holes.
pub type GeoPolygon = Vec<Vec<(u64, u64)>>;

/// One shape an overlay draws.
#[derive(Debug)]
pub struct OverlayFeature {
    pub polygons: Vec<GeoPolygon>,
    pub fill_rgba: [u8; 4],
    pub stroke_rgba: [u8; 4],
    pub label: String,
    pub label2: String,
    pub hatch: HatchPattern,
    pub geo_bounds: Option<GeoBounds>,
}

/// A feature's parts in wire order: the two labels, fill and stroke, the hatch,
/// the optional box, and every ring of every polygon.
pub type FeatureParts = (
    String,
    (String, ([u8; 4], ([u8; 4], (CodeByte<HatchPattern>, (Option<GeoBounds>, Vec<GeoPolygon>))))),
);

impl DeepView for OverlayFeature {
    type V = <FeatureParts as DeepView>::V;

    open spec fn deep_view(&self) -> Self::V {
        (
            self.label@,
            (
                self.label2@,
                (
                    self.fill_rgba.deep_view(),
                    (
                        self.stroke_rgba.deep_view(),
                        (self.hatch, (self.geo_bounds.deep_view(), self.polygons.deep_view())),
                    ),
                ),
            ),
        )
    }
}

impl Wire for OverlayFeature {
    open spec fn fits(view: Self::V) -> bool {
        FeatureParts::fits(view)
    }

    open spec fn encoded(view: Self::V) -> Seq<u8> {
        FeatureParts::encoded(view)
    }

    open spec fn parsed(bytes: Seq<u8>) -> Parsed<Self::V> {
        FeatureParts::parsed(bytes)
    }

    open spec fn restored(&self) -> bool {
        true
    }

    fn encode(&self, out: &mut Vec<u8>) {
        self.label.encode(out);
        self.label2.encode(out);
        self.fill_rgba.encode(out);
        self.stroke_rgba.encode(out);
        CodeByte(self.hatch).encode(out);
        self.geo_bounds.encode(out);
        self.polygons.encode(out);
        assert(out@ =~= old(out)@ + Self::encoded(self.deep_view()));
    }

    fn decode(r: &mut Reader<'_>) -> (value: Option<OverlayFeature>) {
        match FeatureParts::decode(r) {
            Some(
                (
                    label,
                    (label2, (fill_rgba, (stroke_rgba, (CodeByte(hatch), (geo_bounds, polygons))))),
                ),
            ) => Some(
                OverlayFeature {
                    polygons,
                    fill_rgba,
                    stroke_rgba,
                    label,
                    label2,
                    hatch,
                    geo_bounds,
                },
            ),
            None => None,
        }
    }

    proof fn law_round_trip(view: Self::V, tail: Seq<u8>) {
        FeatureParts::law_round_trip(view, tail);
    }

    proof fn law_canonical(bytes: Seq<u8>) {
        FeatureParts::law_canonical(bytes);
    }
}

} // verus!
