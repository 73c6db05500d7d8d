//! The national mosaic layer: one product's newest mosaic, or a loop of them.
//!
//! A loop holds pictures, not mosaics: a mosaic is only what one frame passes
//! through on its way to a picture, so the layer stages one at a time however
//! long the loop is.
pub mod grids;
pub mod log;
pub mod panel;
pub mod product;
pub mod settings;
pub mod staging;

use std::sync::Arc;
use vstd::prelude::*;
use crate::fetch::FetchError;
use crate::frames::{
    any_spans,
    is_spanned,
    law_newest_is_the_last_reached,
    law_ordering_holds_the_same_frames,
    law_ordering_keeps_frames,
    newest_at,
    newest_at_or_before,
    ordered,
    by_valid,
    sort_by_valid,
    spans,
    FrameListing,
    FrameStamp,
};
use crate::instant::Instant;
use crate::jobs::gridded::{GriddedInput, GridValues};
use crate::jobs::{law_labels_tell_rows_apart, JobRow};
use crate::layers::{LayerId, RenderMode, TimeAxis};
use crate::mrms::grids::{
    live_entry,
    live_price,
    staged_price,
    FrameKey,
    LiveEntries,
    MrmsFrameCache,
    MrmsGridCache,
    StagedEntries,
};
use crate::mrms::log::{
    law_a_listing_adds_to_what_is_known,
    logged_all,
    object_at,
    rows_ascend,
    stamps_of,
    StampLog,
};
use crate::mrms::product::{MrmsGrid, MrmsProduct, ProductTable};
use crate::mrms::staging::{
    lemma_took_one_more,
    sole_owner,
    took_each,
    StagingPool,
    FRAME_STAGING_BYTES,
};
use crate::pane::Pane;
use crate::price::{at_most_u64, cap_u64, capped};
use crate::recency::{
    arrived,
    held,
    keeps,
    keyed_once,
    law_arrival_is_held,
    law_eviction,
    law_touch_keeps_values,
    lemma_arrived,
    lemma_place,
    lemma_removed,
    lists,
    looked_up,
    price_sum,
    touched,
    Entry,
};
use crate::state::{next_generation, turn_left, turned_left, OverlayState, RasterizeContext};

verus! {

/// What a pane asks of the mosaic layer.
#[derive(Clone, Copy, Debug, PartialEq, Eq, Structural)]
pub struct MrmsPaneState {
    pub enabled: bool,
    pub selected_product: MrmsProduct,
}

impl MrmsPaneState {
    /// A pane that has saved nothing.
    pub open spec fn fresh(enabled: bool) -> MrmsPaneState {
        MrmsPaneState { enabled, selected_product: MrmsProduct::ReflectivityComposite }
    }

    pub fn new(enabled: bool) -> (state: MrmsPaneState)
        ensures
            state == Self::fresh(enabled),
    {
        MrmsPaneState { enabled, selected_product: MrmsProduct::ReflectivityComposite }
    }
}

/// One thing for each product.
#[derive(Debug)]
pub struct PerProduct<T> {
    pub composite: T,
    pub rate: T,
}

impl<T> PerProduct<T> {
    pub open spec fn of(&self, product: MrmsProduct) -> T {
        match product {
            MrmsProduct::ReflectivityComposite => self.composite,
            MrmsProduct::PrecipRate => self.rate,
        }
    }

    pub fn get(&self, product: MrmsProduct) -> (one: &T)
        ensures
            *one == self.of(product),
    {
        match product {
            MrmsProduct::ReflectivityComposite => &self.composite,
            MrmsProduct::PrecipRate => &self.rate,
        }
    }
}

/// What a listing was asked for, and the objects it found.
#[derive(Debug)]
pub struct MrmsListing {
    pub product: MrmsProduct,
    pub range: (Instant, Instant),
    pub keys: Vec<(Instant, String)>,
    /// Whether it found all there are.
    pub complete: bool,
}

/// One frame's mosaic on its way back.
#[derive(Debug)]
pub struct MrmsFrameFetch {
    pub product: MrmsProduct,
    pub valid: Instant,
    pub grid: Option<MrmsGrid>,
}

/// The mosaic layer.
#[derive(Debug)]
pub struct MrmsHandler {
    pub products: ProductTable,
    /// The mosaic that last arrived.
    pub state: OverlayState<Option<Arc<MrmsGrid>>>,
    /// What is used where there is no pane.
    pub defaults: MrmsPaneState,
    pub cached_grids: MrmsGridCache,
    pub last_error: Option<String>,
    /// The object each listed instant is in.
    pub frame_keys: PerProduct<StampLog>,
    /// The windows a complete listing covered.
    pub covered: PerProduct<Vec<(Instant, Instant)>>,
    pub frame_grids: MrmsFrameCache,
    pub pool: StagingPool,
}

/// Every live mosaic is filed under its own product.
pub open spec fn filed_right(entries: LiveEntries) -> bool {
    forall|product: MrmsProduct| #[trigger]
        held(entries, product) ==> looked_up(entries, product)->0.product == product
}

/// The products of some panes, each once.
pub open spec fn pins(states: Seq<MrmsPaneState>) -> Seq<MrmsProduct>
    decreases states.len(),
{
    if states.len() == 0 {
        Seq::empty()
    } else {
        let before = pins(states.drop_last());
        let product = states.last().selected_product;
        if before.contains(product) {
            before
        } else {
            before.push(product)
        }
    }
}

/// What must not be evicted: what some pane shows, or the defaults where there is
/// no pane.
pub open spec fn pinned_for(states: Seq<MrmsPaneState>, defaults: MrmsPaneState) -> Seq<MrmsProduct> {
    if pins(states).len() == 0 {
        seq![defaults.selected_product]
    } else {
        pins(states)
    }
}

/// The frames of a window, past its start.
pub open spec fn past_start(frames: Seq<FrameStamp>, range: (Instant, Instant)) -> Seq<FrameStamp>
    decreases frames.len(),
{
    if frames.len() == 0 {
        Seq::empty()
    } else {
        let before = past_start(frames.drop_last(), range);
        let valid = frames.last().valid;
        if range.0.before(valid) && valid.not_after(range.1) {
            before.push(frames.last())
        } else {
            before
        }
    }
}

/// The frames a window is drawn from: the newest at or before its start, and
/// every one in it.
pub open spec fn window_frames(frames: Seq<FrameStamp>, range: (Instant, Instant)) -> Seq<FrameStamp> {
    (match newest_at(frames, range.0) {
        Some(first) => seq![first],
        None => Seq::empty(),
    }) + past_start(frames, range)
}

/// Every instant of a window is drawn from one of the window's frames: the same
/// one that the whole series would draw it from.
pub proof fn law_window_draws_every_instant(
    frames: Seq<FrameStamp>,
    range: (Instant, Instant),
    t: Instant,
)
    requires
        ordered(frames),
        range.0.not_after(t),
        t.not_after(range.1),
    ensures
        newest_at(window_frames(frames, range), t) == newest_at(frames, t),
    decreases frames.len(),
{
    if frames.len() > 0 {
        let shorter = frames.drop_last();
        assert(ordered(shorter)) by {
            assert forall|i: int, j: int| 0 <= i <= j < shorter.len() implies (
            #[trigger] shorter[i]).valid.not_after((#[trigger] shorter[j]).valid) by {
                assert(frames[i].valid.not_after(frames[j].valid));
            }
        }
        law_window_draws_every_instant(shorter, range, t);
        let last = frames.last();
        let listed = window_frames(frames, range);
        if last.valid.not_after(range.0) {
            lemma_nothing_past_start(frames, range);
            assert(listed =~= seq![last]);
            assert(newest_at(listed, t) == Some(last));
        } else if last.valid.not_after(range.1) {
            assert(listed =~= window_frames(shorter, range).push(last));
            assert(listed.drop_last() =~= window_frames(shorter, range));
        } else {
            assert(listed =~= window_frames(shorter, range));
        }
    } else {
        assert(window_frames(frames, range) =~= Seq::empty());
    }
}

proof fn lemma_nothing_past_start(frames: Seq<FrameStamp>, range: (Instant, Instant))
    requires
        ordered(frames),
        frames.len() > 0,
        frames.last().valid.not_after(range.0),
    ensures
        past_start(frames, range) == Seq::<FrameStamp>::empty(),
    decreases frames.len(),
{
    let shorter = frames.drop_last();
    if shorter.len() > 0 {
        assert(frames[shorter.len() - 1].valid.not_after(frames[frames.len() - 1].valid));
        assert(ordered(shorter)) by {
            assert forall|i: int, j: int| 0 <= i <= j < shorter.len() implies (
            #[trigger] shorter[i]).valid.not_after((#[trigger] shorter[j]).valid) by {
                assert(frames[i].valid.not_after(frames[j].valid));
            }
        }
        lemma_nothing_past_start(shorter, range);
    }
    assert(past_start(shorter, range) =~= Seq::empty());
}

/// The staged frames of a product, in the store's order.
pub open spec fn staged_stamps(entries: StagedEntries, product: MrmsProduct) -> Seq<FrameStamp>
    decreases entries.len(),
{
    if entries.len() == 0 {
        Seq::empty()
    } else {
        let before = staged_stamps(entries.drop_last(), product);
        let key = entries.last().key;
        if key.product == product {
            before.push(FrameStamp { valid: key.valid, run: None })
        } else {
            before
        }
    }
}

/// Whether some frames are of an instant.
pub open spec fn depicts(keep: Seq<FrameStamp>, valid: Instant) -> bool {
    exists|i: int| 0 <= i < keep.len() && (#[trigger] keep[i]).valid == valid
}

/// What is left of a staging area when a pane keeps some frames.
pub open spec fn kept_frames(
    entries: StagedEntries,
    product: MrmsProduct,
    keep: Seq<FrameStamp>,
) -> StagedEntries
    decreases entries.len(),
{
    if entries.len() == 0 {
        Seq::empty()
    } else {
        let before = kept_frames(entries.drop_last(), product, keep);
        let key = entries.last().key;
        if key.product != product || depicts(keep, key.valid) {
            before.push(entries.last())
        } else {
            before
        }
    }
}

/// The mosaics that leave a staging area when a pane keeps some frames, from the
/// most recently used on.
pub open spec fn dropped_frames(
    entries: StagedEntries,
    product: MrmsProduct,
    keep: Seq<FrameStamp>,
) -> Seq<MrmsGrid>
    decreases entries.len(),
{
    if entries.len() == 0 {
        Seq::empty()
    } else {
        let before = dropped_frames(entries.drop_last(), product, keep);
        let key = entries.last().key;
        if key.product != product || depicts(keep, key.valid) {
            before
        } else {
            seq![entries.last().value] + before
        }
    }
}

/// The mosaics some shares are of.
pub open spec fn unshared(grids: Seq<Arc<MrmsGrid>>) -> Seq<MrmsGrid> {
    grids.map_values(|grid: Arc<MrmsGrid>| *grid)
}

/// The token a picture is grouped by: the product is in it.
pub open spec fn picture_token(generation: u64, product: MrmsProduct) -> u64 {
    generation ^ turned_left((product.place() + 1) as u64, 32)
}

/// Two panes on two products never share a picture.
pub proof fn law_tokens_tell_products_apart(generation: u64, a: MrmsProduct, b: MrmsProduct)
    requires
        a != b,
    ensures
        picture_token(generation, a) != picture_token(generation, b),
{
    let (p, q) = ((a.place() + 1) as u64, (b.place() + 1) as u64);
    assert(p <= 2 && q <= 2 && p != q ==> generation ^ ((p << 32u64) | (p >> 32u64)) != generation
        ^ ((q << 32u64) | (q >> 32u64))) by (bit_vector);
}

impl MrmsHandler {
    /// The stores are well keyed and rightly filed, and where the cache holds the
    /// product of the mosaic that last arrived, it holds that very mosaic.
    pub open spec fn wf(&self) -> bool {
        &&& self.products.wf()
        &&& self.cached_grids.wf()
        &&& self.frame_grids.wf()
        &&& self.frame_keys.composite.wf()
        &&& self.frame_keys.rate.wf()
        &&& self.pool.wf()
        &&& filed_right(self.cached_grids.entries())
        &&& self.state.data matches Some(grid) ==> held(
            self.cached_grids.entries(),
            grid.product,
        ) ==> looked_up(self.cached_grids.entries(), grid.product) == Some(grid)
    }

    /// Everything but the live cache's order of use, the pictures' counter and the
    /// defaults is what it was.
    pub open spec fn same_but_use(&self, other: &MrmsHandler) -> bool {
        &&& self.products == other.products
        &&& self.state.data == other.state.data
        &&& self.state.fetching == other.state.fetching
        &&& self.state.fetch_time == other.state.fetch_time
        &&& self.state.retry == other.state.retry
        &&& self.cached_grids.budget_bytes() == other.cached_grids.budget_bytes()
        &&& self.cached_grids.kept_back() == other.cached_grids.kept_back()
        &&& self.last_error == other.last_error
        &&& self.frame_keys == other.frame_keys
        &&& self.covered == other.covered
        &&& self.frame_grids == other.frame_grids
        &&& self.pool == other.pool
    }

    pub fn new(products: ProductTable, budget: usize, history: usize) -> (h: MrmsHandler)
        requires
            products.wf(),
        ensures
            h.wf(),
            h.products == products,
            h.defaults == MrmsPaneState::fresh(false),
            h.cached_grids.entries() == LiveEntries::empty(),
            h.cached_grids.budget_bytes() == budget,
            h.cached_grids.kept_back() == history,
            h.frame_grids.entries() == StagedEntries::empty(),
            h.frame_grids.budget_bytes() == FRAME_STAGING_BYTES,
            forall|p: MrmsProduct|
                (#[trigger] h.frame_keys.of(p)).rows() == Seq::<(Instant, Seq<char>)>::empty(),
            forall|p: MrmsProduct|
                (#[trigger] h.covered.of(p))@ == Seq::<(Instant, Instant)>::empty(),
            !h.pool.full(),
            h.state.data is None,
            h.state.data_generation == 0,
            !h.state.fetching,
            h.last_error is None,
    {
        MrmsHandler {
            products,
            state: OverlayState::new(None),
            defaults: MrmsPaneState::new(false),
            cached_grids: MrmsGridCache::new(budget, history),
            last_error: None,
            frame_keys: PerProduct { composite: StampLog::new(), rate: StampLog::new() },
            covered: PerProduct { composite: Vec::new(), rate: Vec::new() },
            frame_grids: MrmsFrameCache::new(FRAME_STAGING_BYTES),
            pool: StagingPool::new(),
        }
    }

    /// Whether a complete listing of a product covered a window.
    pub open spec fn covers_view(&self, product: MrmsProduct, range: (Instant, Instant)) -> bool {
        any_spans(self.covered.of(product)@, range)
    }

    pub fn covers(&self, product: MrmsProduct, range: (Instant, Instant)) -> (b: bool)
        ensures
            b == self.covers_view(product, range),
    {
        is_spanned(self.covered.get(product), &range)
    }

    /// Every product some pane shows.
    pub fn pinned_products(&self, pane: &Pane<MrmsPaneState>) -> (products: Vec<MrmsProduct>)
        ensures
            products@ == pinned_for(pane.all(), self.defaults),
    {
        let states = pane.states();
        let mut pinned: Vec<MrmsProduct> = Vec::new();
        let mut at: usize = 0;
        while at < states.len()
            invariant
                at <= states@.len(),
                pinned@ == pins(states@.take(at as int)),
            decreases states@.len() - at,
        {
            assert(states@.take(at + 1).drop_last() =~= states@.take(at as int));
            let product = states[at].selected_product;
            if !lists(&pinned, &product) {
                pinned.push(product);
            }
            at = at + 1;
        }
        assert(states@.take(at as int) =~= states@);
        if pinned.len() == 0 {
            pinned.push(self.defaults.selected_product);
            assert(pinned@ =~= seq![self.defaults.selected_product]);
        }
        pinned
    }

    /// The frames listed of a pane's product.
    pub open spec fn listed(&self, pane: &Pane<MrmsPaneState>) -> Seq<FrameStamp> {
        stamps_of(self.frame_keys.of(pane.own_or(self.defaults).selected_product).rows())
    }

    /// The newest mosaic of a pane's product at or before an instant.
    pub fn latest_at(&self, pane: &Pane<MrmsPaneState>, t: Instant) -> (frame: Option<FrameStamp>)
        ensures
            frame == newest_at(self.listed(pane), t),
    {
        let product = pane.view_or(&self.defaults).selected_product;
        newest_at_or_before(&self.frame_keys.get(product).stamps(), &t)
    }

    /// The frames of a window, and the one it opened after. Whether they are all
    /// there are is said only of a window that a complete listing covered.
    pub fn list_frames(&self, pane: &Pane<MrmsPaneState>, range: (Instant, Instant)) -> (listing:
        FrameListing)
        requires
            range.0.not_after(range.1) || self.listed(pane).len() == 0,
        ensures
            listing.range == range,
            listing.frames@ == window_frames(self.listed(pane), range),
            listing.complete == self.covers_view(
                pane.own_or(self.defaults).selected_product,
                range,
            ),
    {
        let product = pane.view_or(&self.defaults).selected_product;
        let all = self.frame_keys.get(product).stamps();
        let mut frames: Vec<FrameStamp> = Vec::new();
        if let Some(first) = newest_at_or_before(&all, &range.0) {
            frames.push(first);
        }
        let ghost head = frames@;
        let mut at: usize = 0;
        assert(head + past_start(all@.take(0), range) =~= head);
        while at < all.len()
            invariant
                at <= all@.len(),
                frames@ == head + past_start(all@.take(at as int), range),
            decreases all@.len() - at,
        {
            assert(all@.take(at + 1).drop_last() =~= all@.take(at as int));
            let stamp = all[at];
            if range.0.is_before(&stamp.valid) && stamp.valid.is_not_after(&range.1) {
                frames.push(stamp);
            }
            assert(frames@ =~= head + past_start(all@.take(at + 1), range));
            at = at + 1;
        }
        assert(all@.take(at as int) =~= all@);
        assert(frames@ =~= window_frames(all@, range));
        FrameListing { range, frames, complete: self.covers(product, range) }
    }

    /// What a listing of a pane's frames asks for: the product, taken now, and the
    /// window.
    pub fn create_frame_list_task(
        &self,
        pane: &Pane<MrmsPaneState>,
        range: (Instant, Instant),
    ) -> (ask: (MrmsProduct, (Instant, Instant)))
        ensures
            ask == (pane.own_or(self.defaults).selected_product, range),
    {
        (pane.view_or(&self.defaults).selected_product, range)
    }

    /// The object a frame must be fetched from: one that a listing found, of a
    /// frame that is not staged.
    pub fn fetch_frame(&self, pane: &Pane<MrmsPaneState>, stamp: &FrameStamp) -> (object: Option<
        String,
    >)
        requires
            self.wf(),
        ensures
            ({
                let product = pane.own_or(self.defaults).selected_product;
                let key = FrameKey { product, valid: stamp.valid };
                object.deep_view() == (if held(self.frame_grids.entries(), key) {
                    None
                } else {
                    object_at(self.frame_keys.of(product).rows(), stamp.valid)
                })
            }),
    {
        let product = pane.view_or(&self.defaults).selected_product;
        if self.frame_grids.is_staged(FrameKey { product, valid: stamp.valid }) {
            return None;
        }
        match self.frame_keys.get(product).get(&stamp.valid) {
            Some(object) => Some(object.to_owned()),
            None => None,
        }
    }

    /// The staged frames of a pane's product, from the earliest on.
    pub fn frames_resident(&self, pane: &Pane<MrmsPaneState>) -> (frames: Vec<FrameStamp>)
        ensures
            frames@ == by_valid(
                staged_stamps(
                    self.frame_grids.entries(),
                    pane.own_or(self.defaults).selected_product,
                ),
            ),
    {
        let product = pane.view_or(&self.defaults).selected_product;
        let ghost staged = self.frame_grids.entries();
        let mut frames: Vec<FrameStamp> = Vec::new();
        let mut at: usize = 0;
        while at < self.frame_grids.len()
            invariant
                staged == self.frame_grids.entries(),
                at <= staged.len(),
                frames@ == staged_stamps(staged.take(at as int), product),
            decreases staged.len() - at,
        {
            assert(staged.take(at + 1).drop_last() =~= staged.take(at as int));
            let key = self.frame_grids.key_at(at);
            if key.product == product {
                frames.push(FrameStamp { valid: key.valid, run: None });
            }
            at = at + 1;
        }
        assert(staged.take(at as int) =~= staged);
        sort_by_valid(&frames)
    }

    /// Everything but the staging area, the pool and what is filed is what it was.
    pub open spec fn same_but_frames(&self, other: &MrmsHandler) -> bool {
        &&& self.products == other.products
        &&& self.state == other.state
        &&& self.defaults == other.defaults
        &&& self.cached_grids == other.cached_grids
        &&& self.last_error == other.last_error
        &&& self.frame_grids.budget_bytes() == other.frame_grids.budget_bytes()
    }

    /// Lets go of the staged mosaics of a pane's product that no frame of `keep`
    /// is of. Their buffers are offered to the pool.
    pub fn retain_frames(&mut self, pane: &Pane<MrmsPaneState>, keep: &Vec<FrameStamp>)
        requires
            old(self).wf(),
        ensures
            final(self).wf(),
            final(self).same_but_frames(old(self)),
            final(self).frame_keys == old(self).frame_keys,
            final(self).covered == old(self).covered,
            final(self).frame_grids.entries() == kept_frames(
                old(self).frame_grids.entries(),
                pane.own_or(old(self).defaults).selected_product,
                keep@,
            ),
            took_each(
                old(self).pool,
                dropped_frames(
                    old(self).frame_grids.entries(),
                    pane.own_or(old(self).defaults).selected_product,
                    keep@,
                ),
                final(self).pool,
            ),
    {
        let product = pane.view_or(&self.defaults).selected_product;
        let ghost before = self.frame_grids.entries();
        let ghost mut tail: StagedEntries = Seq::empty();
        let ghost mut gone: Seq<MrmsGrid> = Seq::empty();
        let ghost wanted = dropped_frames(before, product, keep@);
        let mut at: usize = self.frame_grids.len();
        assert(before.take(at as int) =~= before);
        assert(kept_frames(before, product, keep@) =~= kept_frames(before, product, keep@) + tail);
        assert(before =~= before.take(at as int) + tail);
        assert(wanted =~= gone + wanted);
        while at > 0
            invariant
                self.wf(),
                self.same_but_frames(old(self)),
                self.frame_keys == old(self).frame_keys,
                self.covered == old(self).covered,
                at <= before.len(),
                self.frame_grids.entries() == before.take(at as int) + tail,
                kept_frames(before, product, keep@) == kept_frames(
                    before.take(at as int),
                    product,
                    keep@,
                ) + tail,
                took_each(old(self).pool, gone, self.pool),
                wanted == gone + dropped_frames(before.take(at as int), product, keep@),
            decreases at,
        {
            let ghost entries = self.frame_grids.entries();
            let key = self.frame_grids.key_at(at - 1);
            proof {
                assert(before.take(at as int).last() == before[at - 1]);
                assert(before.take(at as int).drop_last() =~= before.take(at - 1));
                assert(entries[at - 1] == before[at - 1]);
            }
            if key.product != product || is_depicted(keep, &key.valid) {
                proof {
                    tail = seq![before[at - 1]] + tail;
                    assert(entries =~= before.take(at - 1) + tail);
                    assert(kept_frames(before, product, keep@) =~= kept_frames(
                        before.take(at - 1),
                        product,
                        keep@,
                    ) + tail);
                }
            } else {
                proof {
                    lemma_removed(entries, at - 1);
                    assert(entries.remove(at - 1) =~= before.take(at - 1) + tail);
                }
                let grid = self.frame_grids.take_at(at - 1);
                let ghost pool = self.pool;
                self.pool.recycle(grid);
                proof {
                    lemma_took_one_more(old(self).pool, gone, pool, grid, self.pool);
                    assert(gone + (seq![grid] + dropped_frames(before.take(at - 1), product, keep@))
                        =~= gone.push(grid) + dropped_frames(before.take(at - 1), product, keep@));
                    gone = gone.push(grid);
                }
            }
            at = at - 1;
        }
        assert(self.frame_grids.entries() =~= tail);
        assert(kept_frames(before, product, keep@) =~= tail);
        assert(wanted =~= gone);
    }

    /// Files a listing under the product it was asked for. Its window counts as
    /// covered only where it found all there are.
    pub fn apply_frame_listing(&mut self, asked: &MrmsListing)
        requires
            old(self).wf(),
        ensures
            final(self).wf(),
            final(self).same_but_frames(old(self)),
            final(self).frame_grids == old(self).frame_grids,
            final(self).pool == old(self).pool,
            forall|p: MrmsProduct|
                (#[trigger] final(self).frame_keys.of(p)).rows() == (if p == asked.product {
                    logged_all(old(self).frame_keys.of(p).rows(), asked.keys.deep_view())
                } else {
                    old(self).frame_keys.of(p).rows()
                }),
            forall|p: MrmsProduct, range: (Instant, Instant)| #[trigger]
                final(self).covers_view(p, range) == (old(self).covers_view(p, range) || (p
                    == asked.product && asked.complete && spans(asked.range, range))),
    {
        match asked.product {
            MrmsProduct::ReflectivityComposite => log_all(
                &mut self.frame_keys.composite,
                &asked.keys,
            ),
            MrmsProduct::PrecipRate => log_all(&mut self.frame_keys.rate, &asked.keys),
        }
        let ghost windows = self.covered.of(asked.product)@;
        if asked.complete {
            if !self.covers(asked.product, asked.range) {
                match asked.product {
                    MrmsProduct::ReflectivityComposite => self.covered.composite.push(asked.range),
                    MrmsProduct::PrecipRate => self.covered.rate.push(asked.range),
                }
                proof {
                    assert forall|range: (Instant, Instant)| #[trigger]
                        any_spans(windows.push(asked.range), range) == (any_spans(windows, range)
                            || spans(asked.range, range)) by {
                        crate::frames::lemma_one_more_window(windows, asked.range, range);
                    }
                }
            } else {
                proof {
                    assert forall|range: (Instant, Instant)| spans(
                        asked.range,
                        range,
                    ) implies #[trigger] any_spans(windows, range) by {
                        crate::frames::lemma_wider_window_spans(windows, asked.range, range);
                    }
                }
            }
        }
    }

    /// Stages one frame's mosaic under the product and instant it was asked for.
    /// A failed one stages nothing. What leaves is offered to the pool.
    pub fn apply_frame(&mut self, frame: MrmsFrameFetch)
        requires
            old(self).wf(),
        ensures
            final(self).wf(),
            final(self).same_but_frames(old(self)),
            final(self).frame_keys == old(self).frame_keys,
            final(self).covered == old(self).covered,
            ({
                let key = FrameKey { product: frame.product, valid: frame.valid };
                final(self).frame_grids.entries() == (match frame.grid {
                    Some(grid) => old(self).frame_grids.staged(key, grid),
                    None => old(self).frame_grids.entries(),
                })
            }),
            match frame.grid {
                Some(grid) => took_each(
                    old(self).pool,
                    old(self).frame_grids.ousted(
                        (FrameKey { product: frame.product, valid: frame.valid }),
                        grid,
                    ),
                    final(self).pool,
                ),
                None => final(self).pool == old(self).pool,
            },
    {
        match frame.grid {
            Some(grid) => {
                let key = FrameKey { product: frame.product, valid: frame.valid };
                let mut gone = self.frame_grids.insert(key, grid);
                let ghost ousted = gone@;
                let ghost mut offered: Seq<MrmsGrid> = Seq::empty();
                assert(offered + gone@ =~= ousted);
                while gone.len() > 0
                    invariant
                        self.wf(),
                        offered + gone@ == ousted,
                        took_each(old(self).pool, offered, self.pool),
                        self.same_but_frames(old(self)),
                        self.frame_keys == old(self).frame_keys,
                        self.covered == old(self).covered,
                        self.frame_grids.entries() == old(self).frame_grids.staged(key, grid),
                    decreases gone@.len(),
                {
                    let ghost pool = self.pool;
                    let left = gone.remove(0);
                    self.pool.recycle(left);
                    proof {
                        lemma_took_one_more(old(self).pool, offered, pool, left, self.pool);
                        offered = offered.push(left);
                        assert(offered + gone@ =~= ousted);
                    }
                }
                assert(offered =~= ousted);
            },
            None => {},
        }
    }

    /// Takes a fetch's answer in. The mosaic that was shown is let go before the
    /// cache lets go of it, so that its buffer can be had.
    pub fn apply_fetch_result(
        &mut self,
        result: Result<MrmsGrid, FetchError>,
        pane: &Pane<MrmsPaneState>,
        clock: u64,
    )
        requires
            old(self).wf(),
        ensures
            final(self).wf(),
            final(self).products == old(self).products,
            final(self).defaults == old(self).defaults,
            final(self).frame_keys == old(self).frame_keys,
            final(self).covered == old(self).covered,
            final(self).frame_grids == old(self).frame_grids,
            final(self).cached_grids.budget_bytes() == old(self).cached_grids.budget_bytes(),
            final(self).cached_grids.kept_back() == old(self).cached_grids.kept_back(),
            !final(self).state.fetching,
            match result {
                Ok(grid) => {
                    &&& final(self).cached_grids.entries() == old(self).cached_grids.installed(
                        grid.product,
                        Arc::new(grid),
                        pinned_for(pane.all(), old(self).defaults),
                    )
                    &&& took_each(
                        old(self).pool,
                        unshared(
                            old(self).cached_grids.ousted(
                                grid.product,
                                Arc::new(grid),
                                pinned_for(pane.all(), old(self).defaults),
                            ),
                        ),
                        final(self).pool,
                    )
                    &&& final(self).state.data == Some(Arc::new(grid))
                    &&& final(self).state.data_generation == next_generation(
                        old(self).state.data_generation,
                    )
                    &&& final(self).state.fetch_time == Some(clock)
                    &&& final(self).state.retry@ == old(self).state.retry@.clean()
                    &&& final(self).last_error is None
                },
                Err(e) => {
                    &&& final(self).cached_grids == old(self).cached_grids
                    &&& final(self).pool == old(self).pool
                    &&& final(self).state.data == old(self).state.data
                    &&& final(self).state.data_generation == old(self).state.data_generation
                    &&& final(self).state.fetch_time == old(self).state.fetch_time
                    &&& final(self).state.retry@ == old(self).state.retry@.failed(e@)
                    &&& final(self).last_error.deep_view() == Some(e.message@)
                },
            },
    {
        match result {
            Ok(grid) => {
                let product = grid.product;
                let grid = Arc::new(grid);
                let pinned = self.pinned_products(pane);
                proof {
                    let entry = live_entry(product, grid);
                    let grown = arrived(self.cached_grids.entries(), entry);
                    let budget = self.cached_grids.budget_bytes() as nat;
                    let history = self.cached_grids.kept_back() as nat;
                    lemma_arrived(self.cached_grids.entries(), entry);
                    law_eviction(grown, budget, history, Some(product), pinned@);
                    law_arrival_is_held(
                        self.cached_grids.entries(),
                        entry,
                        budget,
                        history,
                        pinned@,
                    );
                }
                self.state.set_data(Some(Arc::clone(&grid)), clock);
                let mut gone = self.cached_grids.insert(product, grid, &pinned);
                self.last_error = None;
                let ghost settled = *self;
                let ghost ousted = gone@;
                let ghost mut offered: Seq<Arc<MrmsGrid>> = Seq::empty();
                assert(offered + gone@ =~= ousted);
                assert(unshared(offered) =~= Seq::empty());
                while gone.len() > 0
                    invariant
                        self.pool.wf(),
                        offered + gone@ == ousted,
                        took_each(old(self).pool, unshared(offered), self.pool),
                        *self == (MrmsHandler { pool: self.pool, ..settled }),
                    decreases gone@.len(),
                {
                    let ghost pool = self.pool;
                    let left = gone.remove(0);
                    let ghost share = left;
                    match sole_owner(left) {
                        Some(grid) => self.pool.recycle(grid),
                        None => self.pool.offer(None),
                    }
                    proof {
                        let more = unshared(offered.push(share));
                        assert(more =~= unshared(offered).push(more.last()));
                        lemma_took_one_more(
                            old(self).pool,
                            unshared(offered),
                            pool,
                            more.last(),
                            self.pool,
                        );
                        offered = offered.push(share);
                        assert(offered + gone@ =~= ousted);
                    }
                }
                assert(offered =~= ousted);
            },
            Err(e) => {
                self.last_error = Some(e.message.clone());
                self.state.record_failure(&e);
            },
        }
    }

    /// The token a pane's picture is grouped by.
    pub fn content_signature(&self, pane: &Pane<MrmsPaneState>) -> (token: u64)
        ensures
            token == picture_token(
                self.state.data_generation,
                pane.own_or(self.defaults).selected_product,
            ),
    {
        let product = pane.view_or(&self.defaults).selected_product;
        self.state.data_generation ^ turn_left(product.index() + 1, 32)
    }

    pub fn is_enabled(&self, pane: &Pane<MrmsPaneState>) -> (b: bool)
        ensures
            b == pane.own_or(self.defaults).enabled,
    {
        pane.view_or(&self.defaults).enabled
    }

    pub fn set_enabled(&mut self, enabled: bool, pane: &mut Pane<MrmsPaneState>)
        requires
            old(self).wf(),
        ensures
            final(self).wf(),
            final(self).same_but_use(old(self)),
            final(self).state == old(self).state,
            final(self).cached_grids == old(self).cached_grids,
            final(pane).peers == old(pane).peers,
            old(pane).state is Some ==> final(self).defaults == old(self).defaults,
            (final(pane).state is Some) == (old(pane).state is Some),
            final(pane).own_or(final(self).defaults) == (MrmsPaneState {
                enabled,
                ..old(pane).own_or(old(self).defaults)
            }),
    {
        let mut view = pane.view_or(&self.defaults);
        view.enabled = enabled;
        pane.put(&mut self.defaults, view);
    }

    /// The field a pane shows, as the registry spells it.
    pub fn current_field(&self, pane: &Pane<MrmsPaneState>) -> (code: &str)
        ensures
            code@ == self.products.row_of(pane.own_or(self.defaults).selected_product).code@,
    {
        self.products.row(pane.view_or(&self.defaults).selected_product).code.as_str()
    }

    /// A pane's product, where it draws the layer.
    pub fn status_line(&self, pane: &Pane<MrmsPaneState>) -> (line: Option<String>)
        ensures
            ({
                let view = pane.own_or(self.defaults);
                line.deep_view() == (if view.enabled {
                    Some(self.products.row_of(view.selected_product).name@)
                } else {
                    None
                })
            }),
    {
        let view = pane.view_or(&self.defaults);
        if view.enabled {
            Some(self.products.row(view.selected_product).name.clone())
        } else {
            None
        }
    }

    /// Whether a pane's mosaic is held. To ask is a use.
    pub fn has_data(&mut self, pane: &Pane<MrmsPaneState>) -> (b: bool)
        requires
            old(self).wf(),
        ensures
            final(self).wf(),
            final(self).same_but_use(old(self)),
            final(self).state == old(self).state,
            final(self).defaults == old(self).defaults,
            ({
                let product = pane.own_or(old(self).defaults).selected_product;
                &&& b == held(old(self).cached_grids.entries(), product)
                &&& final(self).cached_grids.entries() == touched(
                    old(self).cached_grids.entries(),
                    product,
                )
            }),
    {
        let product = pane.view_or(&self.defaults).selected_product;
        proof {
            law_touch_keeps_values(self.cached_grids.entries(), product);
        }
        self.cached_grids.contains(product)
    }

    pub fn set_fetching(&mut self, fetching: bool)
        requires
            old(self).wf(),
        ensures
            final(self).wf(),
            final(self).state.fetching == fetching,
            final(self).state.data == old(self).state.data,
            final(self).state.data_generation == old(self).state.data_generation,
            final(self).state.fetch_time == old(self).state.fetch_time,
            final(self).state.retry == old(self).state.retry,
            final(self).cached_grids == old(self).cached_grids,
            final(self).frame_grids == old(self).frame_grids,
            final(self).frame_keys == old(self).frame_keys,
            final(self).covered == old(self).covered,
            final(self).pool == old(self).pool,
            final(self).defaults == old(self).defaults,
            final(self).products == old(self).products,
            final(self).last_error == old(self).last_error,
    {
        self.state.fetching = fetching;
    }

    /// How many values the mosaic that last arrived has.
    pub fn item_count(&self) -> (count: usize)
        ensures
            count == (match self.state.data {
                Some(grid) => grid.points(),
                None => 0,
            }),
    {
        match &self.state.data {
            Some(grid) => match &grid.grid.values {
                GridValues::F32(bits) => bits.len(),
                GridValues::Scaled(scaled) => scaled.codes.len(),
            },
            None => 0,
        }
    }

    /// What a colour bar is told apart by: the product alone.
    pub fn legend_signature(&self, pane: &Pane<MrmsPaneState>) -> (signature: Option<u64>)
        ensures
            ({
                let view = pane.own_or(self.defaults);
                signature == (if view.enabled {
                    Some((view.selected_product.place() + 1) as u64)
                } else {
                    None
                })
            }),
    {
        let view = pane.view_or(&self.defaults);
        if view.enabled {
            Some(view.selected_product.index() + 1)
        } else {
            None
        }
    }

    /// The mosaic a picture is made from. A named frame is drawn from its own
    /// mosaic, and one that is not staged describes nothing: the pane's own would
    /// be another instant's.
    pub fn prepare_job(&mut self, ctx: &RasterizeContext, pane: &Pane<MrmsPaneState>) -> (job:
        Option<GriddedInput>)
        requires
            old(self).wf(),
        ensures
            final(self).wf(),
            final(self).state == old(self).state,
            final(self).defaults == old(self).defaults,
            final(self).products == old(self).products,
            final(self).frame_keys == old(self).frame_keys,
            final(self).covered == old(self).covered,
            final(self).pool == old(self).pool,
            final(self).last_error == old(self).last_error,
            final(self).cached_grids.budget_bytes() == old(self).cached_grids.budget_bytes(),
            final(self).cached_grids.kept_back() == old(self).cached_grids.kept_back(),
            final(self).frame_grids.budget_bytes() == old(self).frame_grids.budget_bytes(),
            ({
                let product = pane.own_or(old(self).defaults).selected_product;
                let live = old(self).cached_grids.entries();
                let staged = old(self).frame_grids.entries();
                match ctx.frame {
                    Some(stamp) => {
                        let key = FrameKey { product, valid: stamp.valid };
                        &&& final(self).cached_grids == old(self).cached_grids
                        &&& final(self).frame_grids.entries() == touched(staged, key)
                        &&& job == (match looked_up(staged, key) {
                            Some(grid) => Some(GriddedInput::Resident(grid.grid)),
                            None => None,
                        })
                    },
                    None => {
                        &&& final(self).frame_grids == old(self).frame_grids
                        &&& final(self).cached_grids.entries() == touched(live, product)
                        &&& job == (match looked_up(live, product) {
                            Some(grid) => Some(GriddedInput::Resident(grid.grid)),
                            None => None,
                        })
                    },
                }
            }),
    {
        let product = pane.view_or(&self.defaults).selected_product;
        proof {
            law_touch_keeps_values(self.cached_grids.entries(), product);
        }
        match &ctx.frame {
            Some(stamp) => match self.frame_grids.get(FrameKey { product, valid: stamp.valid }) {
                Some(grid) => Some(GriddedInput::Resident(Arc::clone(&grid.grid))),
                None => None,
            },
            None => match self.cached_grids.get(product) {
                Some(grid) => Some(GriddedInput::Resident(Arc::clone(&grid.grid))),
                None => None,
            },
        }
    }

    /// What a fetch asks for: a pane's product, at the instant it depicts.
    pub fn create_fetch_tasks(&self, pane: &Pane<MrmsPaneState>, as_of: Instant) -> (ask: (
        MrmsProduct,
        Instant,
    ))
        ensures
            ask == (pane.own_or(self.defaults).selected_product, as_of),
    {
        (pane.view_or(&self.defaults).selected_product, as_of)
    }

    /// What the two stores and the kept buffer cost.
    pub open spec fn stored(&self) -> nat {
        capped(price_sum(self.cached_grids.entries(), live_price())) as nat + capped(
            price_sum(self.frame_grids.entries(), staged_price()),
        ) as nat + self.pool.bytes()
    }

    /// What the mosaic that last arrived costs.
    pub open spec fn carried(&self) -> nat {
        match self.state.data {
            Some(grid) => grid.bytes() as nat,
            None => 0,
        }
    }

    /// What the mosaics cost. The mosaic that last arrived is counted with the
    /// cache that still holds it, or on its own where that does not.
    pub open spec fn resident(&self, held: bool) -> nat {
        self.stored() + if held {
            0
        } else {
            self.carried()
        }
    }

    /// What the mosaics cost, once it is known whether the cache still holds the
    /// one that last arrived.
    pub fn resident_bytes(&self, held: bool) -> (bytes: u64)
        requires
            self.wf(),
        ensures
            bytes == at_most_u64(self.resident(held)),
    {
        let mut carried: usize = 0;
        if let Some(grid) = &self.state.data {
            if !held {
                carried = grid.resident_bytes();
            }
        }
        cap_u64(
            self.cached_grids.resident_bytes() as u128 + self.frame_grids.resident_bytes() as u128
                + self.pool.resident_bytes() as u128 + carried as u128,
        )
    }

    /// What the mosaics cost: both stores, the kept buffer, and the mosaic that
    /// last arrived where the cache does not hold that very allocation. No product
    /// can tell that, and equal mosaics can be two: where the cache keeps one equal
    /// to the one that last arrived, which of the two figures it is rests on where
    /// they lie.
    pub fn resident_source_bytes(&self) -> (bytes: u64)
        requires
            self.wf(),
        ensures
            exists|held: bool|
                bytes == at_most_u64(#[trigger] self.resident(held)) && (held
                    ==> self.state.data is Some && keeps(
                    self.cached_grids.entries(),
                    self.state.data->0,
                )),
    {
        let held = match &self.state.data {
            Some(grid) => self.cached_grids.holds(grid),
            None => false,
        };
        self.resident_bytes(held)
    }

    /// Lets every mosaic go, and says whether there was any.
    pub fn release_data(&mut self) -> (any: bool)
        requires
            old(self).wf(),
        ensures
            final(self).wf(),
            any == (old(self).cached_grids.entries().len() > 0 || old(
                self,
            ).frame_grids.entries().len() > 0 || old(self).state.data is Some),
            final(self).cached_grids.entries() == LiveEntries::empty(),
            final(self).frame_grids.entries() == StagedEntries::empty(),
            final(self).state.data is None,
            final(self).defaults == old(self).defaults,
            final(self).products == old(self).products,
            final(self).frame_keys == old(self).frame_keys,
            final(self).covered == old(self).covered,
            final(self).pool == old(self).pool,
            final(self).last_error == old(self).last_error,
            final(self).state.data_generation == (if old(self).state.data is Some {
                next_generation(old(self).state.data_generation)
            } else {
                old(self).state.data_generation
            }),
            final(self).state.fetch_time == (if old(self).state.data is Some {
                None
            } else {
                old(self).state.fetch_time
            }),
            final(self).state.fetching == old(self).state.fetching,
            final(self).state.retry == old(self).state.retry,
            final(self).cached_grids.budget_bytes() == old(self).cached_grids.budget_bytes(),
            final(self).cached_grids.kept_back() == old(self).cached_grids.kept_back(),
            final(self).frame_grids.budget_bytes() == old(self).frame_grids.budget_bytes(),
    {
        let staged = self.frame_grids.release_all();
        let live = self.cached_grids.release_all();
        let carried = self.state.release_data();
        staged || live || carried
    }
}

/// A mosaic that last arrived and has left the cache since is counted on its own:
/// nothing the cache keeps is that mosaic.
pub proof fn law_a_mosaic_that_left_is_counted(entries: LiveEntries, grid: Arc<MrmsGrid>)
    requires
        keyed_once(entries),
        filed_right(entries),
        !held(entries, grid.product),
    ensures
        !keeps(entries, grid),
{
    if keeps(entries, grid) {
        let i = choose|i: int| 0 <= i < entries.len() && (#[trigger] entries[i]).value == grid;
        lemma_place(entries, entries[i].key, i);
    }
}

/// What a listing's answer comes to.
pub fn listing_of(
    product: MrmsProduct,
    range: (Instant, Instant),
    keys: Vec<(Instant, String)>,
    complete: bool,
) -> (listed: (FrameListing, MrmsListing))
    ensures
        listed.0.range == range,
        listed.0.complete == complete,
        listed.0.frames@ == stamps_of(keys.deep_view()),
        listed.1 == (MrmsListing { product, range, keys, complete }),
{
    let ghost wanted = stamps_of(keys.deep_view());
    let mut frames: Vec<FrameStamp> = Vec::new();
    let mut at: usize = 0;
    while at < keys.len()
        invariant
            at <= keys@.len(),
            wanted == stamps_of(keys.deep_view()),
            wanted.len() == keys@.len(),
            frames@ == wanted.take(at as int),
        decreases keys@.len() - at,
    {
        frames.push(FrameStamp { valid: keys[at].0, run: None });
        at = at + 1;
        assert(frames@ =~= wanted.take(at as int));
    }
    assert(wanted.take(at as int) =~= wanted);
    (FrameListing { range, frames, complete }, MrmsListing { product, range, keys, complete })
}

/// Puts every object of a listing where it belongs.
fn log_all(log: &mut StampLog, keys: &Vec<(Instant, String)>)
    requires
        old(log).wf(),
    ensures
        final(log).wf(),
        final(log).rows() == logged_all(old(log).rows(), keys.deep_view()),
{
    let ghost more = keys.deep_view();
    let mut at: usize = 0;
    while at < keys.len()
        invariant
            at <= keys@.len(),
            more == keys.deep_view(),
            more.len() == keys@.len(),
            log.wf(),
            log.rows() == logged_all(old(log).rows(), more.take(at as int)),
        decreases keys@.len() - at,
    {
        proof {
            assert(more.take(at + 1).drop_last() =~= more.take(at as int));
            assert(more[at as int] == keys@[at as int].deep_view());
        }
        log.insert(keys[at].0, keys[at].1.as_str());
        at = at + 1;
    }
    assert(more.take(at as int) =~= more);
}

/// Whether some frames are of an instant.
fn is_depicted(keep: &Vec<FrameStamp>, valid: &Instant) -> (b: bool)
    ensures
        b == depicts(keep@, *valid),
{
    let mut at: usize = 0;
    while at < keep.len()
        invariant
            at <= keep@.len(),
            forall|i: int| 0 <= i < at ==> (#[trigger] keep@[i]).valid != *valid,
        decreases keep@.len() - at,
    {
        if keep[at].valid == *valid {
            assert(keep@[at as int].valid == *valid);
            return true;
        }
        at = at + 1;
    }
    false
}

/// What the layer says of itself, whatever it holds.
impl MrmsHandler {
    pub fn id(&self) -> (id: LayerId)
        ensures
            id == LayerId::Mrms,
    {
        LayerId::Mrms
    }

    pub fn render_mode(&self) -> (mode: RenderMode)
        ensures
            mode == RenderMode::Texture,
    {
        RenderMode::Texture
    }

    /// Whether a picture belongs to one theme.
    pub fn theme_sensitive(&self) -> (b: bool)
        ensures
            !b,
    {
        false
    }

    /// Heavier layers are drawn over lighter ones.
    pub fn draw_order_weight(&self) -> (weight: u32)
        ensures
            weight == 15,
    {
        15
    }

    pub fn display_name(&self) -> (name: &'static str)
        ensures
            name@ == "MRMS Mosaic"@,
    {
        "MRMS Mosaic"
    }

    pub fn time_axis(&self) -> (axis: TimeAxis)
        ensures
            axis == (TimeAxis::FrameSeries { step: 120, extends_future: false }),
    {
        TimeAxis::FrameSeries { step: 120, extends_future: false }
    }

    /// Seconds between polls.
    pub fn auto_poll_interval(&self) -> (secs: Option<u64>)
        ensures
            secs == Some(120u64),
    {
        Some(120)
    }

    /// No fewest frames: at this step the shortest window is a loop already.
    pub fn min_loop_frames(&self) -> (frames: usize)
        ensures
            frames == 0,
    {
        0
    }

    /// How far past the clock frames reach: a mosaic is of an instant that has
    /// been.
    pub fn frame_horizon(&self) -> (secs: u64)
        ensures
            secs == 0,
    {
        0
    }

    /// The job row its pictures are asked for through.
    pub fn job_codec(&self) -> (row: Option<JobRow>)
        ensures
            row == Some(JobRow::Gridded),
    {
        let row = JobRow::named("overlay/model");
        proof {
            assert(JobRow::Gridded.label_view() == "overlay/model"@);
            if let Some(found) = row {
                law_labels_tell_rows_apart(found, JobRow::Gridded);
            }
        }
        row
    }
}

/// A window lists every frame past its start up to its end, in their order, and in
/// front of them the one that its start is drawn from.
pub proof fn law_a_window_lists_its_frames(
    frames: Seq<FrameStamp>,
    range: (Instant, Instant),
    stamp: FrameStamp,
)
    ensures
        window_frames(frames, range).contains(stamp) == (newest_at(frames, range.0) == Some(stamp)
            || (frames.contains(stamp) && range.0.before(stamp.valid) && !range.1.before(
            stamp.valid,
        ))),
        window_frames(frames, range) == (match newest_at(frames, range.0) {
            Some(first) => seq![first],
            None => Seq::empty(),
        }) + frames.filter(
            |f: FrameStamp| range.0.before(f.valid) && !range.1.before(f.valid),
        ),
{
    let keep = |f: FrameStamp| range.0.before(f.valid) && !range.1.before(f.valid);
    lemma_past_start(frames, range);
    let head = match newest_at(frames, range.0) {
        Some(first) => seq![first],
        None => Seq::empty(),
    };
    let (tail, all) = (frames.filter(keep), window_frames(frames, range));
    if frames.contains(stamp) && keep(stamp) {
        frames.lemma_filter_contains(keep, frames.index_of(stamp));
        assert(all[head.len() + tail.index_of(stamp)] == stamp);
    }
    if newest_at(frames, range.0) == Some(stamp) {
        assert(all[0] == stamp);
    }
    if all.contains(stamp) {
        let i = all.index_of(stamp);
        if i >= head.len() {
            assert(tail[i - head.len()] == stamp);
            frames.lemma_filter_contains_rev(keep, stamp);
            frames.lemma_filter_pred(keep, i - head.len());
        } else {
            assert(head[i] == stamp);
        }
    }
}

proof fn lemma_past_start(frames: Seq<FrameStamp>, range: (Instant, Instant))
    ensures
        past_start(frames, range) == frames.filter(
            |f: FrameStamp| range.0.before(f.valid) && !range.1.before(f.valid),
        ),
    decreases frames.len(),
{
    reveal(Seq::filter);
    if frames.len() > 0 {
        lemma_past_start(frames.drop_last(), range);
    }
}

/// A later listing takes no frame out of a window: past its start it lists every
/// instant that was listed before or is now, and no other.
pub proof fn law_a_window_keeps_its_frames(
    rows: Seq<(Instant, Seq<char>)>,
    more: Seq<(Instant, Seq<char>)>,
    range: (Instant, Instant),
    valid: Instant,
)
    requires
        rows_ascend(rows),
        range.0.before(valid),
        !range.1.before(valid),
    ensures
        window_frames(stamps_of(logged_all(rows, more)), range).contains(
            FrameStamp { valid, run: None },
        ) == ((exists|i: int| 0 <= i < rows.len() && (#[trigger] rows[i]).0 == valid) || (exists|
            i: int,
        |
            0 <= i < more.len() && (#[trigger] more[i]).0 == valid)),
{
    let all = stamps_of(logged_all(rows, more));
    let stamp = FrameStamp { valid, run: None };
    law_a_listing_adds_to_what_is_known(rows, more, valid);
    law_a_window_lists_its_frames(all, range, stamp);
    law_newest_is_the_last_reached(all, range.0);
}

/// The frames staged of a product are those of its mosaics in the store, one for
/// one and in the store's order.
pub proof fn law_staged_frames_are_the_products(entries: StagedEntries, product: MrmsProduct)
    ensures
        staged_stamps(entries, product) == entries.filter(
            |e: Entry<FrameKey, MrmsGrid>| e.key.product == product,
        ).map_values(
            |e: Entry<FrameKey, MrmsGrid>| FrameStamp { valid: e.key.valid, run: None },
        ),
    decreases entries.len(),
{
    reveal(Seq::filter);
    let ours = |e: Entry<FrameKey, MrmsGrid>| e.key.product == product;
    let stamp = |e: Entry<FrameKey, MrmsGrid>| FrameStamp { valid: e.key.valid, run: None };
    if entries.len() > 0 {
        law_staged_frames_are_the_products(entries.drop_last(), product);
        let before = entries.drop_last().filter(ours);
        if ours(entries.last()) {
            assert(before.push(entries.last()).map_values(stamp) =~= before.map_values(stamp).push(
                stamp(entries.last()),
            ));
        }
    } else {
        assert(entries.filter(ours).map_values(stamp) =~= Seq::empty());
    }
}

/// Keeping some frames drops a mosaic exactly where it is of the pane's product
/// and no frame kept is of its instant. The rest stay in their order, and what is
/// dropped goes from the most recently used on.
pub proof fn law_only_unkept_frames_are_dropped(
    entries: StagedEntries,
    product: MrmsProduct,
    keep: Seq<FrameStamp>,
)
    ensures
        kept_frames(entries, product, keep) == entries.filter(
            |e: Entry<FrameKey, MrmsGrid>|
                e.key.product == product ==> exists|i: int|
                    0 <= i < keep.len() && (#[trigger] keep[i]).valid == e.key.valid,
        ),
        dropped_frames(entries, product, keep).reverse() == entries.filter(
            |e: Entry<FrameKey, MrmsGrid>|
                e.key.product == product && forall|i: int|
                    0 <= i < keep.len() ==> (#[trigger] keep[i]).valid != e.key.valid,
        ).map_values(|e: Entry<FrameKey, MrmsGrid>| e.value),
    decreases entries.len(),
{
    reveal(Seq::filter);
    let stays = |e: Entry<FrameKey, MrmsGrid>|
        e.key.product == product ==> exists|i: int|
            0 <= i < keep.len() && (#[trigger] keep[i]).valid == e.key.valid;
    let goes = |e: Entry<FrameKey, MrmsGrid>|
        e.key.product == product && forall|i: int|
            0 <= i < keep.len() ==> (#[trigger] keep[i]).valid != e.key.valid;
    let value = |e: Entry<FrameKey, MrmsGrid>| e.value;
    if entries.len() > 0 {
        let (fewer, last) = (entries.drop_last(), entries.last());
        law_only_unkept_frames_are_dropped(fewer, product, keep);
        assert(stays(last) == (last.key.product != product || depicts(keep, last.key.valid)));
        assert(goes(last) == !stays(last));
        let before = dropped_frames(fewer, product, keep);
        if goes(last) {
            assert((seq![last.value] + before).reverse() =~= before.reverse().push(last.value));
            assert(fewer.filter(goes).push(last).map_values(value) =~= fewer.filter(
                goes,
            ).map_values(value).push(last.value));
        }
    } else {
        assert(entries.filter(goes).map_values(value) =~= dropped_frames(
            entries,
            product,
            keep,
        ).reverse());
    }
}

/// What is pinned is every pane's product, each once, and the defaults' where
/// there is no pane.
pub proof fn law_every_panes_product_is_pinned(
    states: Seq<MrmsPaneState>,
    defaults: MrmsPaneState,
    product: MrmsProduct,
)
    ensures
        pinned_for(states, defaults).no_duplicates(),
        pinned_for(states, defaults).contains(product) == (if states.len() == 0 {
            product == defaults.selected_product
        } else {
            exists|i: int|
                0 <= i < states.len() && (#[trigger] states[i]).selected_product == product
        }),
{
    lemma_pins(states, product);
    if states.len() > 0 {
        let first = states[0].selected_product;
        lemma_pins(states, first);
        assert(pins(states).contains(first));
    } else {
        assert(pinned_for(states, defaults)[0] == defaults.selected_product);
    }
}

proof fn lemma_pins(states: Seq<MrmsPaneState>, product: MrmsProduct)
    ensures
        pins(states).no_duplicates(),
        pins(states).contains(product) == exists|i: int|
            0 <= i < states.len() && (#[trigger] states[i]).selected_product == product,
    decreases states.len(),
{
    if states.len() > 0 {
        let fewer = states.drop_last();
        lemma_pins(fewer, product);
        let (before, after) = (pins(fewer), pins(states));
        let last = states[states.len() - 1].selected_product;
        if exists|i: int| 0 <= i < states.len() && (#[trigger] states[i]).selected_product
            == product {
            let i = choose|i: int|
                0 <= i < states.len() && (#[trigger] states[i]).selected_product == product;
            if i < fewer.len() {
                assert(fewer[i].selected_product == product);
                assert(after[before.index_of(product)] == product);
            } else if !before.contains(last) {
                assert(after[before.len() as int] == product);
            }
        }
        if after.contains(product) {
            let i = after.index_of(product);
            if i < before.len() {
                assert(before[i] == product);
                let k = choose|k: int|
                    0 <= k < fewer.len() && (#[trigger] fewer[k]).selected_product == product;
                assert(states[k].selected_product == product);
            } else {
                assert(states[states.len() - 1].selected_product == product);
            }
        }
    }
}

/// The frames a product's loop holds are those of its staged mosaics and no other,
/// from the earliest on.
pub proof fn law_resident_frames_are_the_staged(
    entries: StagedEntries,
    product: MrmsProduct,
    valid: Instant,
)
    requires
        keyed_once(entries),
    ensures
        by_valid(staged_stamps(entries, product)).contains(FrameStamp { valid, run: None }) == held(
            entries,
            FrameKey { product, valid },
        ),
        ordered(by_valid(staged_stamps(entries, product))),
{
    let stamp = FrameStamp { valid, run: None };
    let key = FrameKey { product, valid };
    let frames = staged_stamps(entries, product);
    let ours = |e: Entry<FrameKey, MrmsGrid>| e.key.product == product;
    let mine = entries.filter(ours);
    law_staged_frames_are_the_products(entries, product);
    law_ordering_holds_the_same_frames(frames, stamp);
    law_ordering_keeps_frames(frames);
    if held(entries, key) {
        let i = crate::recency::place(entries, key);
        entries.lemma_filter_contains(ours, i);
        let k = mine.index_of(entries[i]);
        assert(frames[k] == stamp);
    }
    if frames.contains(stamp) {
        let k = frames.index_of(stamp);
        assert(mine.contains(mine[k]));
        entries.lemma_filter_pred(ours, k);
        entries.lemma_filter_contains_rev(ours, mine[k]);
        assert(entries[entries.index_of(mine[k])].key == key);
    }
}

/// What is resident is what both stores' mosaics cost, each mosaic once, what a
/// kept buffer costs, and what the mosaic that last arrived costs where the cache
/// does not hold it any more.
pub proof fn law_every_mosaic_is_priced_once(handler: &MrmsHandler)
    ensures
        ({
            let live = handler.cached_grids.entries().fold_left(
                0nat,
                |sum: nat, e: crate::recency::Entry<MrmsProduct, Arc<MrmsGrid>>|
                    sum + live_price()(e.value) as nat,
            );
            let resident = handler.resident(true);
            &&& live <= usize::MAX && price_sum(handler.frame_grids.entries(), staged_price())
                <= usize::MAX ==> resident == live + price_sum(
                handler.frame_grids.entries(),
                staged_price(),
            ) + (if handler.pool.full() {
                49_000_000nat
            } else {
                0
            })
            &&& handler.resident(false) == resident + (match handler.state.data {
                Some(grid) => grid.bytes() as nat,
                None => 0,
            })
        }),
        forall|grid: Arc<MrmsGrid>| #[trigger] live_price()(grid) == grid.bytes(),
{
    crate::recency::law_each_value_is_counted_once(
        handler.cached_grids.entries(),
        handler.cached_grids.entries(),
        live_price(),
    );
}

} // verus!
