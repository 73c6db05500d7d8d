//! The two stores of mosaics: the live one, a mosaic a product, and the staging
//! area that a loop's frames pass through.
use std::sync::Arc;
use vstd::prelude::*;
use crate::instant::Instant;
use crate::mrms::product::{MrmsGrid, MrmsProduct};
use crate::price::capped;
use crate::recency::{
    arrived,
    evicted,
    held,
    keeps,
    keyed_once,
    law_arrival_is_held,
    law_eviction,
    law_total_is_the_prices,
    leaving,
    lemma_arrived,
    lemma_place,
    lemma_priced_arrived,
    lemma_priced_evicted,
    lemma_priced_removed,
    lemma_priced_touched,
    looked_up,
    over,
    price_sum,
    priced,
    replaced,
    total_bytes,
    touched,
    Entry,
    Key,
    RecencyStore,
};

verus! {

/// Live mosaics, oldest use first.
pub type LiveEntries = Seq<Entry<MrmsProduct, Arc<MrmsGrid>>>;

/// Staged mosaics, oldest use first.
pub type StagedEntries = Seq<Entry<FrameKey, MrmsGrid>>;

/// A live mosaic, priced.
pub open spec fn live_entry(product: MrmsProduct, grid: Arc<MrmsGrid>) -> Entry<
    MrmsProduct,
    Arc<MrmsGrid>,
> {
    Entry { key: product, bytes: grid.bytes(), value: grid }
}

/// A staged mosaic, priced.
pub open spec fn staged_entry(key: FrameKey, grid: MrmsGrid) -> Entry<FrameKey, MrmsGrid> {
    Entry { key, bytes: grid.bytes(), value: grid }
}

/// What a live mosaic is down for.
pub open spec fn live_price() -> spec_fn(Arc<MrmsGrid>) -> usize {
    |grid: Arc<MrmsGrid>| grid.bytes()
}

/// What a staged mosaic is down for.
pub open spec fn staged_price() -> spec_fn(MrmsGrid) -> usize {
    |grid: MrmsGrid| grid.bytes()
}

/// The mosaics the panes show, held by bytes and by how many nobody shows, and
/// let go least recently used first.
#[derive(Debug)]
pub struct MrmsGridCache {
    store: RecencyStore<MrmsProduct, Arc<MrmsGrid>>,
    budget: usize,
    history: usize,
}

impl MrmsGridCache {
    /// The mosaics, oldest use first.
    pub closed spec fn entries(&self) -> LiveEntries {
        self.store.entries()
    }

    pub closed spec fn budget_bytes(&self) -> usize {
        self.budget
    }

    /// How many mosaics nobody shows may stay.
    pub closed spec fn kept_back(&self) -> usize {
        self.history
    }

    /// No key is held twice, and every mosaic is down for what it costs.
    pub open spec fn wf(&self) -> bool {
        &&& keyed_once(self.entries())
        &&& priced(self.entries(), live_price())
    }

    /// The cache with an arrival in it: neither the arrival nor anything pinned
    /// leaves, whichever bound is broken.
    pub open spec fn installed(
        &self,
        product: MrmsProduct,
        grid: Arc<MrmsGrid>,
        pinned: Seq<MrmsProduct>,
    ) -> LiveEntries {
        evicted(
            arrived(self.entries(), live_entry(product, grid)),
            self.budget_bytes() as nat,
            self.kept_back() as nat,
            Some(product),
            pinned,
        )
    }

    /// What leaves for an arrival: what its product held, and what is let go.
    pub open spec fn ousted(
        &self,
        product: MrmsProduct,
        grid: Arc<MrmsGrid>,
        pinned: Seq<MrmsProduct>,
    ) -> Seq<Arc<MrmsGrid>> {
        replaced(self.entries(), product) + leaving(
            arrived(self.entries(), live_entry(product, grid)),
            self.budget_bytes() as nat,
            self.kept_back() as nat,
            Some(product),
            pinned,
        )
    }

    pub fn new(budget: usize, history: usize) -> (cache: MrmsGridCache)
        ensures
            cache.wf(),
            cache.entries() == LiveEntries::empty(),
            cache.budget_bytes() == budget,
            cache.kept_back() == history,
    {
        MrmsGridCache { store: RecencyStore::new(), budget, history }
    }

    pub fn len(&self) -> (len: usize)
        ensures
            len == self.entries().len(),
    {
        self.store.len()
    }

    pub fn budget(&self) -> (budget: usize)
        ensures
            budget == self.budget_bytes(),
    {
        self.budget
    }

    pub fn history(&self) -> (history: usize)
        ensures
            history == self.kept_back(),
    {
        self.history
    }

    /// A product's mosaic, marked as just used.
    pub fn get(&mut self, product: MrmsProduct) -> (grid: Option<Arc<MrmsGrid>>)
        requires
            old(self).wf(),
        ensures
            final(self).wf(),
            final(self).budget_bytes() == old(self).budget_bytes(),
            final(self).kept_back() == old(self).kept_back(),
            final(self).entries() == touched(old(self).entries(), product),
            grid == looked_up(old(self).entries(), product),
    {
        proof {
            lemma_priced_touched(self.entries(), product, live_price());
        }
        match self.store.get(&product) {
            Some(grid) => Some(Arc::clone(grid)),
            None => None,
        }
    }

    /// Whether a product's mosaic is held. To ask is a use.
    pub fn contains(&mut self, product: MrmsProduct) -> (b: bool)
        requires
            old(self).wf(),
        ensures
            final(self).wf(),
            final(self).budget_bytes() == old(self).budget_bytes(),
            final(self).kept_back() == old(self).kept_back(),
            final(self).entries() == touched(old(self).entries(), product),
            b == held(old(self).entries(), product),
    {
        self.get(product).is_some()
    }

    /// What the mosaics held cost together.
    pub fn resident_bytes(&self) -> (bytes: usize)
        requires
            self.wf(),
        ensures
            bytes == capped(price_sum(self.entries(), live_price())),
            bytes == capped(total_bytes(self.entries())),
    {
        proof {
            law_total_is_the_prices(self.entries(), live_price());
        }
        self.store.resident_bytes()
    }

    /// Whether some entry is this very allocation.
    pub fn holds(&self, grid: &Arc<MrmsGrid>) -> (b: bool)
        ensures
            b ==> keeps(self.entries(), *grid),
    {
        self.store.holds(grid)
    }

    /// Puts a mosaic in, and hands back what left.
    pub fn insert(
        &mut self,
        product: MrmsProduct,
        grid: Arc<MrmsGrid>,
        pinned: &Vec<MrmsProduct>,
    ) -> (gone: Vec<Arc<MrmsGrid>>)
        requires
            old(self).wf(),
        ensures
            final(self).wf(),
            final(self).budget_bytes() == old(self).budget_bytes(),
            final(self).kept_back() == old(self).kept_back(),
            final(self).entries() == old(self).installed(product, grid, pinned@),
            gone@ == old(self).ousted(product, grid, pinned@),
    {
        let bytes: usize = grid.resident_bytes();
        proof {
            let entry = live_entry(product, grid);
            lemma_priced_arrived(self.entries(), entry, live_price());
            lemma_priced_evicted(
                arrived(self.entries(), entry),
                self.budget as nat,
                self.history as nat,
                Some(product),
                pinned@,
                live_price(),
            );
        }
        self.store.insert(product, bytes, grid, self.budget, self.history, pinned)
    }

    /// Sets how many mosaics nobody shows may stay. Lowering it lets the excess go
    /// at once, least recently used first; raising it lets nothing go. What left
    /// is handed back.
    pub fn set_history(&mut self, history: usize, pinned: &Vec<MrmsProduct>) -> (gone: Vec<
        Arc<MrmsGrid>,
    >)
        requires
            old(self).wf(),
        ensures
            final(self).wf(),
            final(self).budget_bytes() == old(self).budget_bytes(),
            final(self).kept_back() == history,
            final(self).entries() == evicted(
                old(self).entries(),
                usize::MAX as nat,
                history as nat,
                None,
                pinned@,
            ),
            gone@ == leaving(
                old(self).entries(),
                usize::MAX as nat,
                history as nat,
                None,
                pinned@,
            ),
    {
        proof {
            lemma_priced_evicted(
                self.entries(),
                usize::MAX as nat,
                history as nat,
                None,
                pinned@,
                live_price(),
            );
        }
        self.history = history;
        self.store.evict(usize::MAX, history, &None, pinned)
    }

    /// Lets every mosaic go, and says whether any was held.
    pub fn release_all(&mut self) -> (any: bool)
        requires
            old(self).wf(),
        ensures
            final(self).wf(),
            final(self).budget_bytes() == old(self).budget_bytes(),
            final(self).kept_back() == old(self).kept_back(),
            final(self).entries() == LiveEntries::empty(),
            any == (old(self).entries().len() > 0),
    {
        let any = self.store.len() > 0;
        self.store.clear();
        any
    }
}

/// No pane's mosaic is lost to an arrival, whichever bound is broken, and no more
/// unshown mosaics stay than the history says, the arrival not counted.
pub proof fn law_pins_hold_against_both_bounds(
    cache: &MrmsGridCache,
    product: MrmsProduct,
    grid: Arc<MrmsGrid>,
    pinned: Seq<MrmsProduct>,
    shown: MrmsProduct,
)
    requires
        cache.wf(),
        pinned.contains(shown),
    ensures
        looked_up(cache.installed(product, grid, pinned), product) == Some(grid),
        shown != product ==> looked_up(cache.installed(product, grid, pinned), shown) == looked_up(
            cache.entries(),
            shown,
        ),
        crate::recency::spare(cache.installed(product, grid, pinned), Some(product), pinned)
            <= cache.kept_back(),
{
    let entry = live_entry(product, grid);
    let grown = arrived(cache.entries(), entry);
    let (budget, history) = (cache.budget_bytes() as nat, cache.kept_back() as nat);
    lemma_arrived(cache.entries(), entry);
    law_eviction(grown, budget, history, Some(product), pinned);
    law_arrival_is_held(cache.entries(), entry, budget, history, pinned);
    let left = cache.installed(product, grid, pinned);
    if shown != product {
        assert(held(left, shown) == held(grown, shown));
    }
}

/// Raising the history lets nothing go.
pub proof fn law_raising_the_history_evicts_nothing(
    entries: LiveEntries,
    low: nat,
    high: nat,
    pinned: Seq<MrmsProduct>,
)
    requires
        keyed_once(entries),
        low <= high,
        crate::recency::spare(entries, None, pinned) <= low,
        total_bytes(entries) <= usize::MAX,
    ensures
        evicted(entries, usize::MAX as nat, high, None, pinned) == entries,
{
    law_eviction(entries, usize::MAX as nat, high, None, pinned);
}

/// A staged mosaic's identity: the product, and the instant it depicts.
#[derive(Clone, Copy, Debug, PartialEq, Eq, Structural, Hash)]
pub struct FrameKey {
    pub product: MrmsProduct,
    pub valid: Instant,
}

impl Key for FrameKey {
    fn same(&self, other: &FrameKey) -> (b: bool) {
        *self == *other
    }
}

/// The mosaics a loop's frames pass through. Nothing is pinned.
#[derive(Debug)]
pub struct MrmsFrameCache {
    store: RecencyStore<FrameKey, MrmsGrid>,
    budget: usize,
}

impl MrmsFrameCache {
    /// The mosaics, oldest use first.
    pub closed spec fn entries(&self) -> StagedEntries {
        self.store.entries()
    }

    pub closed spec fn budget_bytes(&self) -> usize {
        self.budget
    }

    /// No key is held twice, and every mosaic is down for what it costs.
    pub open spec fn wf(&self) -> bool {
        &&& keyed_once(self.entries())
        &&& priced(self.entries(), staged_price())
    }

    /// The area with an arrival in it. The arrival is never its own victim.
    pub open spec fn staged(&self, key: FrameKey, grid: MrmsGrid) -> StagedEntries {
        evicted(
            arrived(self.entries(), staged_entry(key, grid)),
            self.budget_bytes() as nat,
            usize::MAX as nat,
            Some(key),
            Seq::empty(),
        )
    }

    /// What leaves for an arrival.
    pub open spec fn ousted(&self, key: FrameKey, grid: MrmsGrid) -> Seq<MrmsGrid> {
        replaced(self.entries(), key) + leaving(
            arrived(self.entries(), staged_entry(key, grid)),
            self.budget_bytes() as nat,
            usize::MAX as nat,
            Some(key),
            Seq::empty(),
        )
    }

    pub fn new(budget: usize) -> (cache: MrmsFrameCache)
        ensures
            cache.wf(),
            cache.entries() == StagedEntries::empty(),
            cache.budget_bytes() == budget,
    {
        MrmsFrameCache { store: RecencyStore::new(), budget }
    }

    pub fn len(&self) -> (len: usize)
        ensures
            len == self.entries().len(),
    {
        self.store.len()
    }

    /// The key at a position, oldest use first.
    pub fn key_at(&self, at: usize) -> (key: FrameKey)
        requires
            at < self.entries().len(),
        ensures
            key == self.entries()[at as int].key,
    {
        self.store.entry(at).key
    }

    /// The field of a staged mosaic, marked as just used.
    pub fn get(&mut self, key: FrameKey) -> (grid: Option<&MrmsGrid>)
        requires
            old(self).wf(),
        ensures
            final(self).wf(),
            final(self).budget_bytes() == old(self).budget_bytes(),
            final(self).entries() == touched(old(self).entries(), key),
            match grid {
                Some(g) => looked_up(old(self).entries(), key) == Some(*g),
                None => looked_up(old(self).entries(), key) is None,
            },
    {
        proof {
            lemma_priced_touched(self.entries(), key, staged_price());
        }
        self.store.get(&key)
    }

    /// Whether a frame is staged, without counting as a use.
    pub fn is_staged(&self, key: FrameKey) -> (b: bool)
        requires
            self.wf(),
        ensures
            b == held(self.entries(), key),
    {
        self.store.is_held(&key)
    }

    /// What the mosaics held cost together.
    pub fn resident_bytes(&self) -> (bytes: usize)
        requires
            self.wf(),
        ensures
            bytes == capped(price_sum(self.entries(), staged_price())),
            bytes == capped(total_bytes(self.entries())),
    {
        proof {
            law_total_is_the_prices(self.entries(), staged_price());
        }
        self.store.resident_bytes()
    }

    /// Stages a mosaic, and hands back what left.
    pub fn insert(&mut self, key: FrameKey, grid: MrmsGrid) -> (gone: Vec<MrmsGrid>)
        requires
            old(self).wf(),
        ensures
            final(self).wf(),
            final(self).budget_bytes() == old(self).budget_bytes(),
            final(self).entries() == old(self).staged(key, grid),
            gone@ == old(self).ousted(key, grid),
    {
        let bytes: usize = grid.resident_bytes();
        let none: Vec<FrameKey> = Vec::new();
        assert(none@ =~= Seq::empty());
        proof {
            let entry = staged_entry(key, grid);
            lemma_priced_arrived(self.entries(), entry, staged_price());
            lemma_priced_evicted(
                arrived(self.entries(), entry),
                self.budget as nat,
                usize::MAX as nat,
                Some(key),
                none@,
                staged_price(),
            );
        }
        self.store.insert(key, bytes, grid, self.budget, usize::MAX, &none)
    }

    /// Takes the mosaic at a position out.
    pub fn take_at(&mut self, at: usize) -> (grid: MrmsGrid)
        requires
            old(self).wf(),
            at < old(self).entries().len(),
        ensures
            final(self).wf(),
            final(self).budget_bytes() == old(self).budget_bytes(),
            final(self).entries() == old(self).entries().remove(at as int),
            grid == old(self).entries()[at as int].value,
    {
        proof {
            lemma_priced_removed(self.entries(), at as int, staged_price());
        }
        self.store.remove_at(at).value
    }

    /// Lets every staged mosaic go, and says whether any was.
    pub fn release_all(&mut self) -> (any: bool)
        requires
            old(self).wf(),
        ensures
            final(self).wf(),
            final(self).budget_bytes() == old(self).budget_bytes(),
            final(self).entries() == StagedEntries::empty(),
            any == (old(self).entries().len() > 0),
    {
        let any = self.store.len() > 0;
        self.store.clear();
        any
    }
}

/// However long a loop is, it never stages more than its budget and the frame
/// that just arrived.
pub proof fn law_a_loop_stages_no_more_than_its_budget(
    cache: &MrmsFrameCache,
    key: FrameKey,
    grid: MrmsGrid,
)
    requires
        cache.wf(),
    ensures
        looked_up(cache.staged(key, grid), key) == Some(grid),
        total_bytes(cache.staged(key, grid)) <= cache.budget_bytes() || (cache.staged(
            key,
            grid,
        ).len() == 1 && cache.staged(key, grid)[0].key == key),
{
    let entry = staged_entry(key, grid);
    let grown = arrived(cache.entries(), entry);
    let none = Seq::<FrameKey>::empty();
    let budget = cache.budget_bytes() as nat;
    lemma_arrived(cache.entries(), entry);
    law_eviction(grown, budget, usize::MAX as nat, Some(key), none);
    law_arrival_is_held(cache.entries(), entry, budget, usize::MAX as nat, none);
    let left = cache.staged(key, grid);
    if total_bytes(left) > cache.budget_bytes() {
        assert(over(left, budget, usize::MAX as nat, Some(key), none));
        assert forall|i: int| 0 <= i < left.len() implies (#[trigger] left[i]).key == key by {}
        assert(held(left, key));
        if left.len() > 1 {
            assert(left[0].key != left[1].key);
        }
        lemma_place(left, key, 0);
    }
}

/// Every mosaic is either held or handed over: an arrival leaves as many in the
/// cache and among what leaves as there were, and itself.
pub proof fn law_no_mosaic_is_lost(
    cache: &MrmsGridCache,
    product: MrmsProduct,
    grid: Arc<MrmsGrid>,
    pinned: Seq<MrmsProduct>,
)
    requires
        cache.wf(),
    ensures
        cache.installed(product, grid, pinned).len() + cache.ousted(product, grid, pinned).len()
            == cache.entries().len() + 1,
        forall|i: int|
            0 <= i < cache.entries().len() && (#[trigger] cache.entries()[i]).key == product
                ==> cache.ousted(product, grid, pinned)[0] == cache.entries()[i].value,
        cache.installed(product, grid, pinned).last().value == grid,
{
    let entry = live_entry(product, grid);
    let (budget, history) = (cache.budget_bytes() as nat, cache.kept_back() as nat);
    crate::recency::law_what_stays_and_leaves_is_all(
        arrived(cache.entries(), entry),
        budget,
        history,
        Some(product),
        pinned,
    );
    crate::recency::law_an_arrival_stays_newest(cache.entries(), entry, budget, history, pinned);
    crate::recency::law_a_key_finds_its_entry(cache.entries(), product);
}

/// Every staged mosaic is either held or handed over: an arrival leaves as many in
/// the area and among what leaves as there were, and itself.
pub proof fn law_no_staged_mosaic_is_lost(cache: &MrmsFrameCache, key: FrameKey, grid: MrmsGrid)
    requires
        cache.wf(),
    ensures
        cache.staged(key, grid).len() + cache.ousted(key, grid).len() == cache.entries().len() + 1,
        forall|i: int|
            0 <= i < cache.entries().len() && (#[trigger] cache.entries()[i]).key == key
                ==> cache.ousted(key, grid)[0] == cache.entries()[i].value,
        cache.staged(key, grid).last().value == grid,
{
    let entry = staged_entry(key, grid);
    let budget = cache.budget_bytes() as nat;
    let none = Seq::<FrameKey>::empty();
    crate::recency::law_what_stays_and_leaves_is_all(
        arrived(cache.entries(), entry),
        budget,
        usize::MAX as nat,
        Some(key),
        none,
    );
    crate::recency::law_an_arrival_stays_newest(
        cache.entries(),
        entry,
        budget,
        usize::MAX as nat,
        none,
    );
    crate::recency::law_a_key_finds_its_entry(cache.entries(), key);
}

} // verus!
