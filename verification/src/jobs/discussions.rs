//! The SPC mesoscale-discussions row.
use vstd::prelude::*;
use crate::jobs::shapes::{CodeByte, GeoPolygon, MdType};
use crate::jobs::{EncodeCtx, JobGeometry};
use crate::wire::{Parsed, Reader, Wire};

verus! {

/// One mesoscale discussion's outline.
#[derive(Debug)]
pub struct DiscussionPaint {
    pub md_type: MdType,
    pub polygon: GeoPolygon,
}

/// The parts in wire order.
pub type DiscussionPaintParts = (CodeByte<MdType>, GeoPolygon);

impl DeepView for DiscussionPaint {
    type V = <DiscussionPaintParts as DeepView>::V;

    open spec fn deep_view(&self) -> Self::V {
        (self.md_type, self.polygon.deep_view())
    }
}

impl Wire for DiscussionPaint {
    open spec fn fits(view: Self::V) -> bool {
        DiscussionPaintParts::fits(view)
    }

    open spec fn encoded(view: Self::V) -> Seq<u8> {
        DiscussionPaintParts::encoded(view)
    }

    open spec fn parsed(bytes: Seq<u8>) -> Parsed<Self::V> {
        DiscussionPaintParts::parsed(bytes)
    }

    open spec fn restored(&self) -> bool {
        true
    }

    fn encode(&self, out: &mut Vec<u8>) {
        CodeByte(self.md_type).encode(out);
        self.polygon.encode(out);
        assert(out@ =~= old(out)@ + Self::encoded(self.deep_view()));
    }

    fn decode(r: &mut Reader<'_>) -> (value: Option<DiscussionPaint>) {
        match DiscussionPaintParts::decode(r) {
            Some((CodeByte(md_type), polygon)) => Some(DiscussionPaint { md_type, polygon }),
            None => None,
        }
    }

    proof fn law_round_trip(view: Self::V, tail: Seq<u8>) {
        DiscussionPaintParts::law_round_trip(view, tail);
    }

    proof fn law_canonical(bytes: Seq<u8>) {
        DiscussionPaintParts::law_canonical(bytes);
    }
}

/// The discussions to paint.
#[derive(Debug)]
pub struct DiscussionsInput {
    pub discussions: Vec<DiscussionPaint>,
    /// An `f32` bit pattern.
    pub device_scale: u32,
}

/// The parts in wire order.
pub type DiscussionsInputParts = (u32, Vec<DiscussionPaint>);

impl DeepView for DiscussionsInput {
    type V = <DiscussionsInputParts as DeepView>::V;

    open spec fn deep_view(&self) -> Self::V {
        (self.device_scale.deep_view(), self.discussions.deep_view())
    }
}

impl Wire for DiscussionsInput {
    open spec fn fits(view: Self::V) -> bool {
        DiscussionsInputParts::fits(view)
    }

    open spec fn encoded(view: Self::V) -> Seq<u8> {
        DiscussionsInputParts::encoded(view)
    }

    open spec fn parsed(bytes: Seq<u8>) -> Parsed<Self::V> {
        DiscussionsInputParts::parsed(bytes)
    }

    open spec fn restored(&self) -> bool {
        true
    }

    fn encode(&self, out: &mut Vec<u8>) {
        self.device_scale.encode(out);
        self.discussions.encode(out);
        assert(out@ =~= old(out)@ + Self::encoded(self.deep_view()));
    }

    fn decode(r: &mut Reader<'_>) -> (value: Option<DiscussionsInput>) {
        match DiscussionsInputParts::decode(r) {
            Some((device_scale, discussions)) => Some(DiscussionsInput { discussions, device_scale }),
            None => None,
        }
    }

    proof fn law_round_trip(view: Self::V, tail: Seq<u8>) {
        DiscussionsInputParts::law_round_trip(view, tail);
    }

    proof fn law_canonical(bytes: Seq<u8>) {
        DiscussionsInputParts::law_canonical(bytes);
    }
}

/// The SPC mesoscale-discussions row.
#[derive(Clone, Copy, Debug)]
pub struct DiscussionsJob;

impl DiscussionsJob {
    /// Appends the input's bytes.
    pub fn encode(input: &DiscussionsInput, _ctx: &EncodeCtx, out: &mut Vec<u8>)
        ensures
            final(out)@ == old(out)@ + DiscussionsInput::encoded(input.deep_view()),
    {
        input.encode(out);
    }

    /// Reads an input back, or refuses; the geometry passes through as it came.
    pub fn decode(r: &mut Reader<'_>, geo: JobGeometry) -> (job: Option<(DiscussionsInput,
        JobGeometry)>)
        ensures
            match DiscussionsInput::parsed(old(r)@) {
                Some((view, rest)) => {
                    &&& job matches Some((input, geo_out))
                    &&& input.deep_view() == view
                    &&& geo_out == geo
                    &&& final(r)@ == rest
                },
                None => job is None,
            },
    {
        match DiscussionsInput::decode(r) {
            Some(input) => Some((input, geo)),
            None => None,
        }
    }

    /// Decoding an encoded input gives it back and consumes exactly its bytes.
    pub proof fn law_round_trip(input: <DiscussionsInput as DeepView>::V, tail: Seq<u8>)
        requires
            DiscussionsInput::fits(input),
        ensures
            DiscussionsInput::parsed(DiscussionsInput::encoded(input) + tail) == Some((input, tail)),
    {
        <DiscussionsInput as Wire>::law_round_trip(input, tail);
    }
}

} // verus!
