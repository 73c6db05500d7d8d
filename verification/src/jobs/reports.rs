//! The storm-reports row.
use vstd::prelude::*;
use crate::instant::Instant;
use crate::jobs::shapes::{CodeByte, StormReportKind};
use crate::jobs::{EncodeCtx, JobGeometry};
use crate::wire::{Parsed, Reader, Wire};

verus! {

/// One storm report, as far as its marker needs it. The position is `f64` bit
/// patterns.
#[derive(Clone, Copy, Debug, PartialEq, Eq, Structural)]
pub struct ReportPaint {
    pub kind: StormReportKind,
    pub lat: u64,
    pub lon: u64,
    /// When it happened, where the feed says.
    pub valid: Option<Instant>,
}

/// The parts in wire order.
pub type ReportPaintParts = (CodeByte<StormReportKind>, (u64, (u64, Option<Instant>)));

impl DeepView for ReportPaint {
    type V = <ReportPaintParts as DeepView>::V;

    open spec fn deep_view(&self) -> Self::V {
        (self.kind, (self.lat.deep_view(), (self.lon.deep_view(), self.valid.deep_view())))
    }
}

impl Wire for ReportPaint {
    open spec fn fits(view: Self::V) -> bool {
        ReportPaintParts::fits(view)
    }

    open spec fn encoded(view: Self::V) -> Seq<u8> {
        ReportPaintParts::encoded(view)
    }

    open spec fn parsed(bytes: Seq<u8>) -> Parsed<Self::V> {
        ReportPaintParts::parsed(bytes)
    }

    open spec fn restored(&self) -> bool {
        true
    }

    fn encode(&self, out: &mut Vec<u8>) {
        CodeByte(self.kind).encode(out);
        self.lat.encode(out);
        self.lon.encode(out);
        self.valid.encode(out);
        assert(out@ =~= old(out)@ + Self::encoded(self.deep_view()));
    }

    fn decode(r: &mut Reader<'_>) -> (value: Option<ReportPaint>) {
        match ReportPaintParts::decode(r) {
            Some((CodeByte(kind), (lat, (lon, valid)))) => Some(ReportPaint { kind, lat, lon,
                valid }),
            None => None,
        }
    }

    proof fn law_round_trip(view: Self::V, tail: Seq<u8>) {
        ReportPaintParts::law_round_trip(view, tail);
    }

    proof fn law_canonical(bytes: Seq<u8>) {
        ReportPaintParts::law_canonical(bytes);
    }
}

/// The reports to paint. A row's position is its hit-map id.
#[derive(Debug)]
pub struct ReportsInput {
    pub reports: Vec<ReportPaint>,
    /// An `f64` bit pattern.
    pub zoom: u64,
    pub is_dark: bool,
    /// An `f32` bit pattern.
    pub device_scale: u32,
    /// The depicted instant.
    pub as_of: Instant,
}

/// The parts in wire order.
pub type ReportsInputParts = (u64, (bool, (u32, (Instant, Vec<ReportPaint>))));

impl DeepView for ReportsInput {
    type V = <ReportsInputParts as DeepView>::V;

    open spec fn deep_view(&self) -> Self::V {
        (self.zoom.deep_view(), (self.is_dark.deep_view(), (self.device_scale.deep_view(),
            (self.as_of.deep_view(), self.reports.deep_view()))))
    }
}

impl Wire for ReportsInput {
    open spec fn fits(view: Self::V) -> bool {
        ReportsInputParts::fits(view)
    }

    open spec fn encoded(view: Self::V) -> Seq<u8> {
        ReportsInputParts::encoded(view)
    }

    open spec fn parsed(bytes: Seq<u8>) -> Parsed<Self::V> {
        ReportsInputParts::parsed(bytes)
    }

    open spec fn restored(&self) -> bool {
        true
    }

    fn encode(&self, out: &mut Vec<u8>) {
        self.zoom.encode(out);
        self.is_dark.encode(out);
        self.device_scale.encode(out);
        self.as_of.encode(out);
        self.reports.encode(out);
        assert(out@ =~= old(out)@ + Self::encoded(self.deep_view()));
    }

    fn decode(r: &mut Reader<'_>) -> (value: Option<ReportsInput>) {
        match ReportsInputParts::decode(r) {
            Some((zoom, (is_dark, (device_scale, (as_of, reports))))) =>
                Some(ReportsInput { reports, zoom, is_dark, device_scale, as_of }),
            None => None,
        }
    }

    proof fn law_round_trip(view: Self::V, tail: Seq<u8>) {
        ReportsInputParts::law_round_trip(view, tail);
    }

    proof fn law_canonical(bytes: Seq<u8>) {
        ReportsInputParts::law_canonical(bytes);
    }
}

/// The storm-reports row.
#[derive(Clone, Copy, Debug)]
pub struct ReportsJob;

impl ReportsJob {
    /// Appends the input's bytes.
    pub fn encode(input: &ReportsInput, _ctx: &EncodeCtx, out: &mut Vec<u8>)
        ensures
            final(out)@ == old(out)@ + ReportsInput::encoded(input.deep_view()),
    {
        input.encode(out);
    }

    /// Reads an input back, or refuses; the geometry passes through as it came.
    pub fn decode(r: &mut Reader<'_>, geo: JobGeometry) -> (job: Option<(ReportsInput, JobGeometry)>)
        ensures
            match ReportsInput::parsed(old(r)@) {
                Some((view, rest)) => {
                    &&& job matches Some((input, geo_out))
                    &&& input.deep_view() == view
                    &&& geo_out == geo
                    &&& final(r)@ == rest
                },
                None => job is None,
            },
    {
        match ReportsInput::decode(r) {
            Some(input) => Some((input, geo)),
            None => None,
        }
    }

    /// Decoding an encoded input gives it back and consumes exactly its bytes.
    pub proof fn law_round_trip(input: <ReportsInput as DeepView>::V, tail: Seq<u8>)
        requires
            ReportsInput::fits(input),
        ensures
            ReportsInput::parsed(ReportsInput::encoded(input) + tail) == Some((input, tail)),
    {
        <ReportsInput as Wire>::law_round_trip(input, tail);
    }
}

} // verus!
