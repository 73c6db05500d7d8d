//! The SPC outlooks row.
use std::sync::Arc;
use vstd::prelude::*;
use crate::jobs::shapes::OverlayFeature;
use crate::jobs::{EncodeCtx, JobGeometry};
use crate::wire::{Parsed, Reader, Wire};

verus! {

/// The outlook features to paint, in paint order.
#[derive(Debug)]
pub struct OutlooksInput {
    pub features: Vec<Arc<OverlayFeature>>,
    pub hatch_color: [u8; 4],
    /// An `f32` bit pattern.
    pub device_scale: u32,
}

/// The parts in wire order.
pub type OutlooksInputParts = (u32, ([u8; 4], Vec<Arc<OverlayFeature>>));

impl DeepView for OutlooksInput {
    type V = <OutlooksInputParts as DeepView>::V;

    open spec fn deep_view(&self) -> Self::V {
        (self.device_scale.deep_view(), (self.hatch_color.deep_view(), self.features.deep_view()))
    }
}

impl Wire for OutlooksInput {
    open spec fn fits(view: Self::V) -> bool {
        OutlooksInputParts::fits(view)
    }

    open spec fn encoded(view: Self::V) -> Seq<u8> {
        OutlooksInputParts::encoded(view)
    }

    open spec fn parsed(bytes: Seq<u8>) -> Parsed<Self::V> {
        OutlooksInputParts::parsed(bytes)
    }

    open spec fn restored(&self) -> bool {
        true
    }

    fn encode(&self, out: &mut Vec<u8>) {
        self.device_scale.encode(out);
        self.hatch_color.encode(out);
        self.features.encode(out);
        assert(out@ =~= old(out)@ + Self::encoded(self.deep_view()));
    }

    fn decode(r: &mut Reader<'_>) -> (value: Option<OutlooksInput>) {
        match OutlooksInputParts::decode(r) {
            Some((device_scale, (hatch_color, features))) => Some(OutlooksInput { features,
                hatch_color, device_scale }),
            None => None,
        }
    }

    proof fn law_round_trip(view: Self::V, tail: Seq<u8>) {
        OutlooksInputParts::law_round_trip(view, tail);
    }

    proof fn law_canonical(bytes: Seq<u8>) {
        OutlooksInputParts::law_canonical(bytes);
    }
}

/// The SPC outlooks row.
#[derive(Clone, Copy, Debug)]
pub struct OutlooksJob;

impl OutlooksJob {
    /// Appends the input's bytes.
    pub fn encode(input: &OutlooksInput, _ctx: &EncodeCtx, out: &mut Vec<u8>)
        ensures
            final(out)@ == old(out)@ + OutlooksInput::encoded(input.deep_view()),
    {
        input.encode(out);
    }

    /// Reads an input back, or refuses; the geometry passes through as it came.
    pub fn decode(r: &mut Reader<'_>, geo: JobGeometry) -> (job: Option<(OutlooksInput, JobGeometry)>)
        ensures
            match OutlooksInput::parsed(old(r)@) {
                Some((view, rest)) => {
                    &&& job matches Some((input, geo_out))
                    &&& input.deep_view() == view
                    &&& geo_out == geo
                    &&& final(r)@ == rest
                },
                None => job is None,
            },
    {
        match OutlooksInput::decode(r) {
            Some(input) => Some((input, geo)),
            None => None,
        }
    }

    /// Decoding an encoded input gives it back and consumes exactly its bytes.
    pub proof fn law_round_trip(input: <OutlooksInput as DeepView>::V, tail: Seq<u8>)
        requires
            OutlooksInput::fits(input),
        ensures
            OutlooksInput::parsed(OutlooksInput::encoded(input) + tail) == Some((input, tail)),
    {
        <OutlooksInput as Wire>::law_round_trip(input, tail);
    }
}

} // verus!
