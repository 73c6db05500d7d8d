//! The GLM lightning row.
use vstd::prelude::*;
use crate::instant::Instant;
use crate::jobs::{EncodeCtx, JobGeometry};
use crate::wire::{Parsed, Reader, Wire};

verus! {

/// One lightning flash. The position is `f64` bit patterns.
#[derive(Clone, Copy, Debug, PartialEq, Eq, Structural)]
pub struct FlashPaint {
    pub lat: u64,
    pub lon: u64,
    pub time: Instant,
    /// An `f32` bit pattern.
    pub energy: Option<u32>,
}

/// The parts in wire order.
pub type FlashPaintParts = (u64, (u64, (Instant, Option<u32>)));

impl DeepView for FlashPaint {
    type V = <FlashPaintParts as DeepView>::V;

    open spec fn deep_view(&self) -> Self::V {
        (self.lat.deep_view(), (self.lon.deep_view(), (self.time.deep_view(),
            self.energy.deep_view())))
    }
}

impl Wire for FlashPaint {
    open spec fn fits(view: Self::V) -> bool {
        FlashPaintParts::fits(view)
    }

    open spec fn encoded(view: Self::V) -> Seq<u8> {
        FlashPaintParts::encoded(view)
    }

    open spec fn parsed(bytes: Seq<u8>) -> Parsed<Self::V> {
        FlashPaintParts::parsed(bytes)
    }

    open spec fn restored(&self) -> bool {
        true
    }

    fn encode(&self, out: &mut Vec<u8>) {
        self.lat.encode(out);
        self.lon.encode(out);
        self.time.encode(out);
        self.energy.encode(out);
        assert(out@ =~= old(out)@ + Self::encoded(self.deep_view()));
    }

    fn decode(r: &mut Reader<'_>) -> (value: Option<FlashPaint>) {
        match FlashPaintParts::decode(r) {
            Some((lat, (lon, (time, energy)))) => Some(FlashPaint { lat, lon, time, energy }),
            None => None,
        }
    }

    proof fn law_round_trip(view: Self::V, tail: Seq<u8>) {
        FlashPaintParts::law_round_trip(view, tail);
    }

    proof fn law_canonical(bytes: Seq<u8>) {
        FlashPaintParts::law_canonical(bytes);
    }
}

/// The flashes to paint, and the clock they are aged against. A row's position
/// is its hit-map id.
#[derive(Debug)]
pub struct GlmStrikesInput {
    pub flashes: Vec<FlashPaint>,
    /// An `f64` bit pattern.
    pub zoom: u64,
    pub is_dark: bool,
    /// An `f64` bit pattern.
    pub time_window_secs: u64,
    /// The page's clock at dispatch; nothing past the boundary reads another.
    pub now: Instant,
    /// An `f32` bit pattern.
    pub device_scale: u32,
}

/// The parts in wire order.
pub type GlmStrikesInputParts = (u64, (bool, (u32, (u64, (Instant, Vec<FlashPaint>)))));

impl DeepView for GlmStrikesInput {
    type V = <GlmStrikesInputParts as DeepView>::V;

    open spec fn deep_view(&self) -> Self::V {
        (self.zoom.deep_view(), (self.is_dark.deep_view(), (self.device_scale.deep_view(),
            (self.time_window_secs.deep_view(), (self.now.deep_view(), self.flashes.deep_view())))))
    }
}

impl Wire for GlmStrikesInput {
    open spec fn fits(view: Self::V) -> bool {
        GlmStrikesInputParts::fits(view)
    }

    open spec fn encoded(view: Self::V) -> Seq<u8> {
        GlmStrikesInputParts::encoded(view)
    }

    open spec fn parsed(bytes: Seq<u8>) -> Parsed<Self::V> {
        GlmStrikesInputParts::parsed(bytes)
    }

    open spec fn restored(&self) -> bool {
        true
    }

    fn encode(&self, out: &mut Vec<u8>) {
        self.zoom.encode(out);
        self.is_dark.encode(out);
        self.device_scale.encode(out);
        self.time_window_secs.encode(out);
        self.now.encode(out);
        self.flashes.encode(out);
        assert(out@ =~= old(out)@ + Self::encoded(self.deep_view()));
    }

    fn decode(r: &mut Reader<'_>) -> (value: Option<GlmStrikesInput>) {
        match GlmStrikesInputParts::decode(r) {
            Some((zoom, (is_dark, (device_scale, (time_window_secs, (now, flashes)))))) =>
                Some(GlmStrikesInput { flashes, zoom, is_dark, time_window_secs, now,
                device_scale }),
            None => None,
        }
    }

    proof fn law_round_trip(view: Self::V, tail: Seq<u8>) {
        GlmStrikesInputParts::law_round_trip(view, tail);
    }

    proof fn law_canonical(bytes: Seq<u8>) {
        GlmStrikesInputParts::law_canonical(bytes);
    }
}

/// The GLM lightning row.
#[derive(Clone, Copy, Debug)]
pub struct GlmJob;

impl GlmJob {
    /// Appends the input's bytes.
    pub fn encode(input: &GlmStrikesInput, _ctx: &EncodeCtx, out: &mut Vec<u8>)
        ensures
            final(out)@ == old(out)@ + GlmStrikesInput::encoded(input.deep_view()),
    {
        input.encode(out);
    }

    /// Reads an input back, or refuses; the geometry passes through as it came.
    pub fn decode(r: &mut Reader<'_>, geo: JobGeometry) -> (job: Option<(GlmStrikesInput,
        JobGeometry)>)
        ensures
            match GlmStrikesInput::parsed(old(r)@) {
                Some((view, rest)) => {
                    &&& job matches Some((input, geo_out))
                    &&& input.deep_view() == view
                    &&& geo_out == geo
                    &&& final(r)@ == rest
                },
                None => job is None,
            },
    {
        match GlmStrikesInput::decode(r) {
            Some(input) => Some((input, geo)),
            None => None,
        }
    }

    /// Decoding an encoded input gives it back and consumes exactly its bytes.
    pub proof fn law_round_trip(input: <GlmStrikesInput as DeepView>::V, tail: Seq<u8>)
        requires
            GlmStrikesInput::fits(input),
        ensures
            GlmStrikesInput::parsed(GlmStrikesInput::encoded(input) + tail) == Some((input, tail)),
    {
        <GlmStrikesInput as Wire>::law_round_trip(input, tail);
    }
}

} // verus!
