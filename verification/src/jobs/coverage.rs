//! The radar-network coverage row.
use vstd::prelude::*;
use crate::jobs::{EncodeCtx, JobGeometry};
use crate::wire::{Parsed, Reader, Wire};

verus! {

/// One radar site's position, as `f64` bit patterns.
#[derive(Clone, Copy, Debug, PartialEq, Eq, Structural)]
pub struct CoverageSite {
    pub lat: u64,
    pub lon: u64,
}

/// The parts in wire order.
pub type CoverageSiteParts = (u64, u64);

impl DeepView for CoverageSite {
    type V = <CoverageSiteParts as DeepView>::V;

    open spec fn deep_view(&self) -> Self::V {
        (self.lat.deep_view(), self.lon.deep_view())
    }
}

impl Wire for CoverageSite {
    open spec fn fits(view: Self::V) -> bool {
        CoverageSiteParts::fits(view)
    }

    open spec fn encoded(view: Self::V) -> Seq<u8> {
        CoverageSiteParts::encoded(view)
    }

    open spec fn parsed(bytes: Seq<u8>) -> Parsed<Self::V> {
        CoverageSiteParts::parsed(bytes)
    }

    open spec fn restored(&self) -> bool {
        true
    }

    fn encode(&self, out: &mut Vec<u8>) {
        self.lat.encode(out);
        self.lon.encode(out);
        assert(out@ =~= old(out)@ + Self::encoded(self.deep_view()));
    }

    fn decode(r: &mut Reader<'_>) -> (value: Option<CoverageSite>) {
        match CoverageSiteParts::decode(r) {
            Some((lat, lon)) => Some(CoverageSite { lat, lon }),
            None => None,
        }
    }

    proof fn law_round_trip(view: Self::V, tail: Seq<u8>) {
        CoverageSiteParts::law_round_trip(view, tail);
    }

    proof fn law_canonical(bytes: Seq<u8>) {
        CoverageSiteParts::law_canonical(bytes);
    }
}

/// The network whose coverage is drawn.
#[derive(Debug)]
pub struct CoverageInput {
    pub sites: Vec<CoverageSite>,
    /// An `f32` bit pattern.
    pub device_scale: u32,
}

/// The parts in wire order.
pub type CoverageInputParts = (u32, Vec<CoverageSite>);

impl DeepView for CoverageInput {
    type V = <CoverageInputParts as DeepView>::V;

    open spec fn deep_view(&self) -> Self::V {
        (self.device_scale.deep_view(), self.sites.deep_view())
    }
}

impl Wire for CoverageInput {
    open spec fn fits(view: Self::V) -> bool {
        CoverageInputParts::fits(view)
    }

    open spec fn encoded(view: Self::V) -> Seq<u8> {
        CoverageInputParts::encoded(view)
    }

    open spec fn parsed(bytes: Seq<u8>) -> Parsed<Self::V> {
        CoverageInputParts::parsed(bytes)
    }

    open spec fn restored(&self) -> bool {
        true
    }

    fn encode(&self, out: &mut Vec<u8>) {
        self.device_scale.encode(out);
        self.sites.encode(out);
        assert(out@ =~= old(out)@ + Self::encoded(self.deep_view()));
    }

    fn decode(r: &mut Reader<'_>) -> (value: Option<CoverageInput>) {
        match CoverageInputParts::decode(r) {
            Some((device_scale, sites)) => Some(CoverageInput { sites, device_scale }),
            None => None,
        }
    }

    proof fn law_round_trip(view: Self::V, tail: Seq<u8>) {
        CoverageInputParts::law_round_trip(view, tail);
    }

    proof fn law_canonical(bytes: Seq<u8>) {
        CoverageInputParts::law_canonical(bytes);
    }
}

/// The radar-network coverage row.
#[derive(Clone, Copy, Debug)]
pub struct CoverageJob;

impl CoverageJob {
    /// Appends the input's bytes.
    pub fn encode(input: &CoverageInput, _ctx: &EncodeCtx, out: &mut Vec<u8>)
        ensures
            final(out)@ == old(out)@ + CoverageInput::encoded(input.deep_view()),
    {
        input.encode(out);
    }

    /// Reads an input back, or refuses; the geometry passes through as it came.
    pub fn decode(r: &mut Reader<'_>, geo: JobGeometry) -> (job: Option<(CoverageInput, JobGeometry)>)
        ensures
            match CoverageInput::parsed(old(r)@) {
                Some((view, rest)) => {
                    &&& job matches Some((input, geo_out))
                    &&& input.deep_view() == view
                    &&& geo_out == geo
                    &&& final(r)@ == rest
                },
                None => job is None,
            },
    {
        match CoverageInput::decode(r) {
            Some(input) => Some((input, geo)),
            None => None,
        }
    }

    /// Decoding an encoded input gives it back and consumes exactly its bytes.
    pub proof fn law_round_trip(input: <CoverageInput as DeepView>::V, tail: Seq<u8>)
        requires
            CoverageInput::fits(input),
        ensures
            CoverageInput::parsed(CoverageInput::encoded(input) + tail) == Some((input, tail)),
    {
        <CoverageInput as Wire>::law_round_trip(input, tail);
    }
}

} // verus!
