//! The NWS alerts row.
use std::sync::Arc;
use vstd::prelude::*;
use crate::idset::{ascending, law_one_listing, IdSet};
use crate::jobs::shapes::{AlertCategory, OverlayFeature};
use crate::jobs::{EncodeCtx, JobGeometry};
use crate::wire::{Parsed, Reader, Wire};

verus! {

/// One alert, as far as its outline needs it.
#[derive(Debug)]
pub struct AlertPaint {
    pub id: String,
    pub category: AlertCategory,
    pub features: Arc<Vec<OverlayFeature>>,
}

/// The parts in wire order.
pub type AlertPaintParts = (String, (AlertCategory, Arc<Vec<OverlayFeature>>));

impl DeepView for AlertPaint {
    type V = <AlertPaintParts as DeepView>::V;

    open spec fn deep_view(&self) -> Self::V {
        (self.id.deep_view(), (self.category.deep_view(), self.features.deep_view()))
    }
}

impl Wire for AlertPaint {
    open spec fn fits(view: Self::V) -> bool {
        AlertPaintParts::fits(view)
    }

    open spec fn encoded(view: Self::V) -> Seq<u8> {
        AlertPaintParts::encoded(view)
    }

    open spec fn parsed(bytes: Seq<u8>) -> Parsed<Self::V> {
        AlertPaintParts::parsed(bytes)
    }

    open spec fn restored(&self) -> bool {
        true
    }

    fn encode(&self, out: &mut Vec<u8>) {
        self.id.encode(out);
        self.category.encode(out);
        self.features.encode(out);
        assert(out@ =~= old(out)@ + Self::encoded(self.deep_view()));
    }

    fn decode(r: &mut Reader<'_>) -> (value: Option<AlertPaint>) {
        match AlertPaintParts::decode(r) {
            Some((id, (category, features))) => Some(AlertPaint { id, category, features }),
            None => None,
        }
    }

    proof fn law_round_trip(view: Self::V, tail: Seq<u8>) {
        AlertPaintParts::law_round_trip(view, tail);
    }

    proof fn law_canonical(bytes: Seq<u8>) {
        AlertPaintParts::law_canonical(bytes);
    }
}

/// The alerts to paint, and what is left out of the picture.
#[derive(Debug)]
pub struct AlertsInput {
    pub alerts: Vec<AlertPaint>,
    pub enabled_categories: Vec<AlertCategory>,
    /// The ids the user hid.
    pub hidden_ids: IdSet,
    /// An `f32` bit pattern.
    pub device_scale: u32,
}

/// The parts in wire order; the hidden ids travel as their ascending listing.
pub type AlertsParts = (u32, (Vec<AlertCategory>, (Vec<String>, Vec<AlertPaint>)));

/// What the wire says of an [`AlertsInput`], with the hidden ids as a listing.
pub type AlertsView = <AlertsParts as DeepView>::V;

impl AlertsInput {
    /// The parts that travel.
    pub open spec fn parts(&self) -> AlertsView {
        (
            self.device_scale,
            (
                self.enabled_categories.deep_view(),
                (self.hidden_ids.listing(), self.alerts.deep_view()),
            ),
        )
    }
}

/// The NWS alerts row.
#[derive(Clone, Copy, Debug)]
pub struct AlertsJob;

impl AlertsJob {
    /// Appends the input's bytes. The hidden ids are written ascending, so the
    /// bytes are a function of the value.
    pub fn encode(input: &AlertsInput, _ctx: &EncodeCtx, out: &mut Vec<u8>)
        ensures
            final(out)@ == old(out)@ + AlertsParts::encoded(input.parts()),
            ascending(input.hidden_ids.listing()),
    {
        input.device_scale.encode(out);
        input.enabled_categories.encode(out);
        input.hidden_ids.ids().encode(out);
        input.alerts.encode(out);
        assert(out@ =~= old(out)@ + AlertsParts::encoded(input.parts()));
    }

    /// Reads an input back, or refuses. Ids that are listed twice, or out of
    /// order, are members once.
    pub fn decode(r: &mut Reader<'_>, geo: JobGeometry) -> (job: Option<(AlertsInput, JobGeometry)>)
        ensures
            match AlertsParts::parsed(old(r)@) {
                Some(((scale, (categories, (hidden, alerts))), rest)) => {
                    &&& job matches Some((input, geo_out))
                    &&& input.device_scale == scale
                    &&& input.enabled_categories.deep_view() == categories
                    &&& input.hidden_ids@ == hidden.to_set()
                    &&& ascending(input.hidden_ids.listing())
                    &&& input.alerts.deep_view() == alerts
                    &&& geo_out == geo
                    &&& final(r)@ == rest
                },
                None => job is None,
            },
    {
        match AlertsParts::decode(r) {
            Some((device_scale, (enabled_categories, (hidden, alerts)))) => {
                let hidden_ids = id_set(&hidden);
                Some((AlertsInput { alerts, enabled_categories, hidden_ids, device_scale }, geo))
            },
            None => None,
        }
    }

    /// Decoding an encoded input gives every part back, the hidden ids as the
    /// same set under the same listing, and consumes exactly its bytes.
    pub proof fn law_round_trip(input: AlertsInput, back: AlertsInput, tail: Seq<u8>)
        requires
            AlertsParts::fits(input.parts()),
            ascending(input.hidden_ids.listing()),
            AlertsParts::parsed(AlertsParts::encoded(input.parts()) + tail) matches Some(
                ((scale, (categories, (hidden, alerts))), rest),
            ) ==> {
                &&& back.device_scale == scale
                &&& back.enabled_categories.deep_view() == categories
                &&& back.hidden_ids@ == hidden.to_set()
                &&& ascending(back.hidden_ids.listing())
                &&& back.alerts.deep_view() == alerts
            },
        ensures
            AlertsParts::parsed(AlertsParts::encoded(input.parts()) + tail) == Some(
                (input.parts(), tail),
            ),
            back.parts() == input.parts(),
            back.hidden_ids@ == input.hidden_ids@,
    {
        AlertsParts::law_round_trip(input.parts(), tail);
        law_one_listing(back.hidden_ids.listing(), input.hidden_ids.listing());
    }

    /// Two inputs that agree on everything, the hidden ids as sets, have one
    /// encoding.
    pub proof fn law_one_encoding(a: AlertsInput, b: AlertsInput)
        requires
            ascending(a.hidden_ids.listing()),
            ascending(b.hidden_ids.listing()),
            a.device_scale == b.device_scale,
            a.enabled_categories.deep_view() == b.enabled_categories.deep_view(),
            a.hidden_ids@ == b.hidden_ids@,
            a.alerts.deep_view() == b.alerts.deep_view(),
        ensures
            AlertsParts::encoded(a.parts()) == AlertsParts::encoded(b.parts()),
    {
        law_one_listing(a.hidden_ids.listing(), b.hidden_ids.listing());
    }
}

/// The set of the listed ids.
pub fn id_set(ids: &Vec<String>) -> (set: IdSet)
    ensures
        set@ == ids.deep_view().to_set(),
        ascending(set.listing()),
{
    let mut set = IdSet::new();
    let mut at: usize = 0;
    assert(ids.deep_view().take(0).to_set() =~= Set::empty());
    while at < ids.len()
        invariant
            at <= ids@.len(),
            set@ == ids.deep_view().take(at as int).to_set(),
            ascending(set.listing()),
        decreases ids@.len() - at,
    {
        set.insert(ids[at].clone());
        proof {
            let views = ids.deep_view();
            assert(views.take(at + 1) =~= views.take(at as int).push(views[at as int]));
            views.take(at as int).lemma_push_to_set_commute(views[at as int]);
        }
        at = at + 1;
    }
    assert(ids.deep_view().take(at as int) =~= ids.deep_view());
    set
}

} // verus!
