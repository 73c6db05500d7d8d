//! The model's grids: what one is, what it costs, and the two stores they are
//! held in.
//!
//! The live cache holds what the panes show, and the staging area what a loop's
//! frame passes through on its way to a picture. They share one key space and
//! no budget: how long a loop is costs the panes nothing.
use std::sync::Arc;
use vstd::prelude::*;
use crate::instant::Instant;
use crate::jobs::gridded::FieldGrid;
use crate::model::parameter::ModelParameter;
use crate::price::{cap, capped, coords_cost, coords_price, values_cost, values_price};
use crate::recency::{
    arrived,
    evicted,
    held,
    keeps,
    keyed_once,
    law_an_arrival_stays_newest,
    law_arrival_is_held,
    law_eviction,
    law_total_is_the_prices,
    lemma_arrived,
    lemma_place,
    lemma_priced_arrived,
    lemma_priced_evicted,
    lemma_priced_removed,
    lemma_priced_touched,
    looked_up,
    over,
    price_sum,
    priced,
    total_bytes,
    touched,
    Entry,
    Key,
    RecencyStore,
};

verus! {

/// What the live cache may hold in a browser: 64 MiB.
pub const WASM_MODEL_GRID_BUDGET_BYTES: usize = 67_108_864;

/// What the live cache may hold on a handheld: 64 MiB.
pub const MOBILE_MODEL_GRID_BUDGET_BYTES: usize = 67_108_864;

/// What the live cache may hold on a desktop: 96 MiB.
pub const DESKTOP_MODEL_GRID_BUDGET_BYTES: usize = 100_663_296;

/// How many panes a desktop can show.
pub const MAX_PANES_DESKTOP: usize = 6;

/// How many panes a handheld can show.
pub const MAX_PANES_MOBILE: usize = 4;

/// The values of one grid over the contiguous states: 1799 by 1059 points of
/// four bytes.
pub const HRRR_CONUS_GRID_BYTES: usize = 7_620_564;

/// What one frame of a loop passes through: one grid, however long the loop.
pub const MODEL_FRAME_STAGING_BYTES: usize = 7_620_564;

/// Every budget holds at least a grid for each pane, so what is pinned fits.
pub proof fn law_a_budget_holds_every_pane()
    ensures
        HRRR_CONUS_GRID_BYTES == 1799 * 1059 * 4,
        MODEL_FRAME_STAGING_BYTES == HRRR_CONUS_GRID_BYTES,
        MAX_PANES_DESKTOP * HRRR_CONUS_GRID_BYTES <= WASM_MODEL_GRID_BUDGET_BYTES,
        MAX_PANES_MOBILE * HRRR_CONUS_GRID_BYTES <= MOBILE_MODEL_GRID_BUDGET_BYTES,
        MAX_PANES_DESKTOP * HRRR_CONUS_GRID_BYTES <= DESKTOP_MODEL_GRID_BUDGET_BYTES,
{
}

/// A decoded grid: a field, the run and hour it is of, and its values.
#[derive(Debug)]
pub struct ModelGrid {
    pub parameter: ModelParameter,
    pub ref_time: Instant,
    pub forecast_hour: u8,
    pub field: Arc<FieldGrid>,
    /// Why nothing of it shows, where nothing does.
    pub notice: Option<String>,
}

impl ModelGrid {
    /// When the grid is valid: its run, and its forecast hour on.
    pub open spec fn valid(&self) -> Instant {
        self.ref_time.hours_on(self.forecast_hour as int)
    }

    pub fn valid_time(&self) -> (valid: Instant)
        requires
            self.ref_time.steady(),
        ensures
            valid == self.valid(),
    {
        self.ref_time.plus_hours(self.forecast_hour)
    }

    /// What a grid is in a phrase: its valid time and forecast hour, or its run
    /// time alone for an analysis. A maximum over an hour that was labelled with
    /// its run alone would read as an analysis.
    pub open spec fn label(&self) -> Seq<char> {
        if self.forecast_hour > 0 {
            self.valid().clock_view() + " F"@ + crate::text::two_places(self.forecast_hour as nat)
        } else {
            self.ref_time.clock_view()
        }
    }
}

/// What a grid is in a phrase.
pub fn frame_label(grid: &ModelGrid) -> (text: String)
    requires
        grid.ref_time.steady(),
    ensures
        text@ == grid.label(),
{
    if grid.forecast_hour > 0 {
        let mut text = grid.valid_time().clock();
        text.append(" F");
        text.append(crate::text::two_place_text(grid.forecast_hour as u64).as_str());
        text
    } else {
        grid.ref_time.clock()
    }
}

/// The one identity of a grid: which field, off which run, at which hour.
#[derive(Clone, Copy, Debug, PartialEq, Eq, Structural, Hash)]
pub struct GridKey {
    pub param: ModelParameter,
    pub run: Instant,
    pub f_hour: u8,
}

impl Key for GridKey {
    fn same(&self, other: &GridKey) -> (b: bool) {
        *self == *other
    }
}

impl GridKey {
    /// The key a grid files itself under: what arrived, not what was asked for.
    pub open spec fn of_grid(grid: ModelGrid) -> GridKey {
        GridKey { param: grid.parameter, run: grid.ref_time, f_hour: grid.forecast_hour }
    }

    pub fn of(grid: &ModelGrid) -> (key: GridKey)
        ensures
            key == Self::of_grid(*grid),
    {
        GridKey { param: grid.parameter, run: grid.ref_time, f_hour: grid.forecast_hour }
    }

    /// When the grid under this key is valid.
    pub open spec fn valid(self) -> Instant {
        self.run.hours_on(self.f_hour as int)
    }
}

/// What a grid costs.
pub open spec fn price(grid: ModelGrid) -> nat {
    vstd::layout::size_of::<ModelGrid>() + values_price(grid.field.values) + coords_price(
        grid.field.coords,
    )
}

/// What a grid costs, in bytes.
pub fn grid_bytes(grid: &ModelGrid) -> (bytes: usize)
    ensures
        bytes == capped(price(*grid)),
{
    let header: usize = core::mem::size_of::<ModelGrid>();
    cap(
        header as u128 + values_cost(&grid.field.values) + coords_cost(&grid.field.coords),
    )
}

/// The grids of a store, oldest use first.
pub type GridEntries = Seq<Entry<GridKey, Arc<ModelGrid>>>;

/// The most recently used key of a field, of a run no later than a ceiling.
pub open spec fn latest_key(
    entries: GridEntries,
    param: ModelParameter,
    ceiling: Option<Instant>,
) -> Option<GridKey>
    decreases entries.len(),
{
    if entries.len() == 0 {
        None
    } else {
        let key = entries.last().key;
        if key.param == param && (ceiling matches Some(c) ==> key.run.not_after(c)) {
            Some(key)
        } else {
            latest_key(entries.drop_last(), param, ceiling)
        }
    }
}

/// An arrival in a store, priced.
pub open spec fn grid_entry(key: GridKey, grid: Arc<ModelGrid>) -> Entry<GridKey, Arc<ModelGrid>> {
    Entry { key, bytes: capped(price(*grid)), value: grid }
}

/// What a shared grid is down for.
pub open spec fn shared_price() -> spec_fn(Arc<ModelGrid>) -> usize {
    |grid: Arc<ModelGrid>| capped(price(*grid))
}

/// The grids the panes show, held by bytes and let go least recently used first.
#[derive(Debug)]
pub struct ModelGridCache {
    store: RecencyStore<GridKey, Arc<ModelGrid>>,
    budget: usize,
}

impl ModelGridCache {
    /// The grids, oldest use first.
    pub closed spec fn entries(&self) -> GridEntries {
        self.store.entries()
    }

    pub closed spec fn budget(&self) -> usize {
        self.budget
    }

    /// No key is held twice, and every grid is down for what it costs.
    pub open spec fn wf(&self) -> bool {
        &&& keyed_once(self.entries())
        &&& priced(self.entries(), shared_price())
    }

    /// The cache with an arrival in it: neither the arrival nor anything pinned
    /// leaves, so an arrival too large for the budget is held all the same.
    pub open spec fn installed(
        &self,
        key: GridKey,
        grid: Arc<ModelGrid>,
        pinned: Seq<GridKey>,
    ) -> GridEntries {
        evicted(
            arrived(self.entries(), grid_entry(key, grid)),
            self.budget() as nat,
            usize::MAX as nat,
            Some(key),
            pinned,
        )
    }

    pub fn with_budget(budget: usize) -> (cache: ModelGridCache)
        ensures
            cache.wf(),
            cache.entries() == GridEntries::empty(),
            cache.budget() == budget,
    {
        ModelGridCache { store: RecencyStore::new(), budget }
    }

    pub fn len(&self) -> (len: usize)
        ensures
            len == self.entries().len(),
    {
        self.store.len()
    }

    /// The key at a position, oldest use first.
    pub fn key_at(&self, at: usize) -> (key: GridKey)
        requires
            at < self.entries().len(),
        ensures
            key == self.entries()[at as int].key,
    {
        self.store.entry(at).key
    }

    /// A key's grid, marked as just used.
    pub fn get(&mut self, key: GridKey) -> (grid: Option<Arc<ModelGrid>>)
        requires
            old(self).wf(),
        ensures
            final(self).wf(),
            final(self).budget() == old(self).budget(),
            final(self).entries() == touched(old(self).entries(), key),
            grid == looked_up(old(self).entries(), key),
    {
        proof {
            lemma_priced_touched(self.entries(), key, shared_price());
        }
        match self.store.get(&key) {
            Some(grid) => Some(Arc::clone(grid)),
            None => None,
        }
    }

    /// Whether a key's grid is held, marked as just used: a bare question is
    /// still a look at a picture.
    pub fn contains(&mut self, key: GridKey) -> (b: bool)
        requires
            old(self).wf(),
        ensures
            final(self).wf(),
            final(self).budget() == old(self).budget(),
            final(self).entries() == touched(old(self).entries(), key),
            b == held(old(self).entries(), key),
    {
        self.get(key).is_some()
    }

    /// Whether a key's grid is held, without counting as a use.
    pub fn is_resident(&self, key: GridKey) -> (b: bool)
        requires
            self.wf(),
        ensures
            b == held(self.entries(), key),
    {
        self.store.is_held(&key)
    }

    /// What the grids held cost together.
    pub fn resident_bytes(&self) -> (bytes: usize)
        requires
            self.wf(),
        ensures
            bytes == capped(price_sum(self.entries(), shared_price())),
            bytes == capped(total_bytes(self.entries())),
    {
        proof {
            law_total_is_the_prices(self.entries(), shared_price());
        }
        self.store.resident_bytes()
    }

    /// Whether some entry is this very allocation.
    pub fn holds(&self, grid: &Arc<ModelGrid>) -> (b: bool)
        ensures
            b ==> keeps(self.entries(), *grid),
    {
        self.store.holds(grid)
    }

    /// The most recently used key of a field, of a run no later than a ceiling.
    fn latest(&self, param: ModelParameter, ceiling: Option<Instant>) -> (key: Option<GridKey>)
        ensures
            key == latest_key(self.entries(), param, ceiling),
    {
        let mut at: usize = self.store.len();
        let ghost all = self.entries();
        assert(all.take(at as int) =~= all);
        while at > 0
            invariant
                at <= all.len(),
                all == self.entries(),
                latest_key(all, param, ceiling) == latest_key(all.take(at as int), param, ceiling),
            decreases at,
        {
            let key = self.store.entry(at - 1).key;
            assert(all.take(at as int).last() == all[at - 1]);
            assert(all.take(at as int).drop_last() =~= all.take(at - 1));
            if key.param == param {
                match ceiling {
                    Some(c) => {
                        if key.run.is_not_after(&c) {
                            return Some(key);
                        }
                    },
                    None => {
                        return Some(key);
                    },
                }
            }
            at = at - 1;
        }
        None
    }

    /// The most recently used grid of a field, whatever its run and hour. A
    /// search over keys is not a use.
    pub fn latest_of(&self, param: ModelParameter) -> (key: Option<GridKey>)
        ensures
            key == latest_key(self.entries(), param, None),
    {
        self.latest(param, None)
    }

    /// The same, of a run no later than a ceiling: the cache is every pane's, and
    /// a pane parked in the past must not be handed another pane's newer run.
    pub fn latest_not_after(&self, param: ModelParameter, ceiling: Instant) -> (key: Option<
        GridKey,
    >)
        ensures
            key == latest_key(self.entries(), param, Some(ceiling)),
    {
        self.latest(param, Some(ceiling))
    }

    /// Puts a grid in and lets the oldest go until the budget is met. Neither the
    /// arrival nor anything pinned leaves.
    pub fn insert(&mut self, key: GridKey, grid: Arc<ModelGrid>, pinned: &Vec<GridKey>)
        requires
            old(self).wf(),
        ensures
            final(self).wf(),
            final(self).budget() == old(self).budget(),
            final(self).entries() == old(self).installed(key, grid, pinned@),
    {
        let bytes: usize = grid_bytes(&grid);
        proof {
            let entry = grid_entry(key, grid);
            let (budget, history) = (self.budget as nat, usize::MAX as nat);
            lemma_priced_arrived(self.entries(), entry, shared_price());
            lemma_priced_evicted(
                arrived(self.entries(), entry),
                budget,
                history,
                Some(key),
                pinned@,
                shared_price(),
            );
        }
        self.store.insert(key, bytes, grid, self.budget, usize::MAX, pinned);
    }

    /// Lets every grid go, pinned or not, and says whether any was held.
    pub fn release_all(&mut self) -> (any: bool)
        requires
            old(self).wf(),
        ensures
            final(self).wf(),
            final(self).budget() == old(self).budget(),
            final(self).entries() == GridEntries::empty(),
            any == (old(self).entries().len() > 0),
    {
        let any = self.store.len() > 0;
        self.store.clear();
        any
    }
}

/// No pane's grid is lost to an arrival: what is pinned and held stays, with the
/// grid it had, and the arrival is in.
pub proof fn law_no_pinned_grid_leaves(
    cache: &ModelGridCache,
    key: GridKey,
    grid: Arc<ModelGrid>,
    pinned: Seq<GridKey>,
    shown: GridKey,
)
    requires
        cache.wf(),
        pinned.contains(shown),
    ensures
        looked_up(cache.installed(key, grid, pinned), key) == Some(grid),
        shown != key ==> looked_up(cache.installed(key, grid, pinned), shown) == looked_up(
            cache.entries(),
            shown,
        ),
{
    let entry = grid_entry(key, grid);
    let grown = arrived(cache.entries(), entry);
    lemma_arrived(cache.entries(), entry);
    law_eviction(grown, cache.budget() as nat, usize::MAX as nat, Some(key), pinned);
    law_arrival_is_held(
        cache.entries(),
        entry,
        cache.budget() as nat,
        usize::MAX as nat,
        pinned,
    );
    assert(held(grown, key));
    let left = cache.installed(key, grid, pinned);
    assert(held(left, key) == held(grown, key));
    if shown != key {
        assert(held(left, shown) == held(grown, shown));
    }
}

/// The grids a loop's frames pass through.
#[derive(Debug)]
pub struct ModelFrameCache {
    store: RecencyStore<GridKey, Arc<ModelGrid>>,
    budget: usize,
}

impl ModelFrameCache {
    /// The grids, oldest use first.
    pub closed spec fn entries(&self) -> GridEntries {
        self.store.entries()
    }

    pub closed spec fn budget(&self) -> usize {
        self.budget
    }

    /// No key is held twice, and every grid is down for what it costs.
    pub open spec fn wf(&self) -> bool {
        &&& keyed_once(self.entries())
        &&& priced(self.entries(), shared_price())
    }

    /// The area with an arrival in it. Nothing is pinned; the arrival is never
    /// its own victim, so a budget smaller than a grid stages one anyway.
    pub open spec fn staged(&self, key: GridKey, grid: Arc<ModelGrid>) -> GridEntries {
        evicted(
            arrived(self.entries(), grid_entry(key, grid)),
            self.budget() as nat,
            usize::MAX as nat,
            Some(key),
            Seq::empty(),
        )
    }

    pub fn with_budget(budget: usize) -> (cache: ModelFrameCache)
        ensures
            cache.wf(),
            cache.entries() == GridEntries::empty(),
            cache.budget() == budget,
    {
        ModelFrameCache { store: RecencyStore::new(), budget }
    }

    pub fn len(&self) -> (len: usize)
        ensures
            len == self.entries().len(),
    {
        self.store.len()
    }

    /// The key at a position, oldest use first.
    pub fn key_at(&self, at: usize) -> (key: GridKey)
        requires
            at < self.entries().len(),
        ensures
            key == self.entries()[at as int].key,
    {
        self.store.entry(at).key
    }

    /// A key's grid, marked as just used.
    pub fn get(&mut self, key: GridKey) -> (grid: Option<Arc<ModelGrid>>)
        requires
            old(self).wf(),
        ensures
            final(self).wf(),
            final(self).budget() == old(self).budget(),
            final(self).entries() == touched(old(self).entries(), key),
            grid == looked_up(old(self).entries(), key),
    {
        proof {
            lemma_priced_touched(self.entries(), key, shared_price());
        }
        match self.store.get(&key) {
            Some(grid) => Some(Arc::clone(grid)),
            None => None,
        }
    }

    /// Whether a key's grid is staged, without counting as a use: the question is
    /// whether it must be fetched.
    pub fn is_staged(&self, key: GridKey) -> (b: bool)
        requires
            self.wf(),
        ensures
            b == held(self.entries(), key),
    {
        self.store.is_held(&key)
    }

    /// What the grids held cost together.
    pub fn resident_bytes(&self) -> (bytes: usize)
        requires
            self.wf(),
        ensures
            bytes == capped(price_sum(self.entries(), shared_price())),
            bytes == capped(total_bytes(self.entries())),
    {
        proof {
            law_total_is_the_prices(self.entries(), shared_price());
        }
        self.store.resident_bytes()
    }

    /// Whether some entry is this very allocation.
    pub fn holds(&self, grid: &Arc<ModelGrid>) -> (b: bool)
        ensures
            b ==> keeps(self.entries(), *grid),
    {
        self.store.holds(grid)
    }

    pub fn insert(&mut self, key: GridKey, grid: Arc<ModelGrid>)
        requires
            old(self).wf(),
        ensures
            final(self).wf(),
            final(self).budget() == old(self).budget(),
            final(self).entries() == old(self).staged(key, grid),
    {
        let bytes: usize = grid_bytes(&grid);
        let none: Vec<GridKey> = Vec::new();
        assert(none@ =~= Seq::empty());
        proof {
            let entry = grid_entry(key, grid);
            let (budget, history) = (self.budget as nat, usize::MAX as nat);
            lemma_priced_arrived(self.entries(), entry, shared_price());
            lemma_priced_evicted(
                arrived(self.entries(), entry),
                budget,
                history,
                Some(key),
                none@,
                shared_price(),
            );
        }
        self.store.insert(key, bytes, grid, self.budget, usize::MAX, &none);
    }

    /// Takes the grid at a position out.
    pub fn drop_at(&mut self, at: usize)
        requires
            old(self).wf(),
            at < old(self).entries().len(),
        ensures
            final(self).wf(),
            final(self).budget() == old(self).budget(),
            final(self).entries() == old(self).entries().remove(at as int),
    {
        proof {
            lemma_priced_removed(self.entries(), at as int, shared_price());
        }
        self.store.remove_at(at);
    }

    /// Lets every staged grid go, and says whether any was.
    pub fn release_all(&mut self) -> (any: bool)
        requires
            old(self).wf(),
        ensures
            final(self).wf(),
            final(self).budget() == old(self).budget(),
            final(self).entries() == GridEntries::empty(),
            any == (old(self).entries().len() > 0),
    {
        let any = self.store.len() > 0;
        self.store.clear();
        any
    }
}

/// However long a loop is, it never stages more than its budget and the frame
/// that just arrived.
pub proof fn law_a_loop_stages_no_more_than_its_budget(
    cache: &ModelFrameCache,
    key: GridKey,
    grid: Arc<ModelGrid>,
)
    requires
        cache.wf(),
    ensures
        total_bytes(cache.staged(key, grid)) <= cache.budget() || (cache.staged(key, grid).len()
            == 1 && cache.staged(key, grid)[0].key == key && cache.staged(key, grid)[0].value
            == grid),
{
    let entry = grid_entry(key, grid);
    let grown = arrived(cache.entries(), entry);
    let none = Seq::<GridKey>::empty();
    lemma_arrived(cache.entries(), entry);
    law_eviction(grown, cache.budget() as nat, usize::MAX as nat, Some(key), none);
    law_arrival_is_held(cache.entries(), entry, cache.budget() as nat, usize::MAX as nat, none);
    let left = cache.staged(key, grid);
    if total_bytes(left) > cache.budget() {
        assert(over(left, cache.budget() as nat, usize::MAX as nat, Some(key), none));
        assert forall|i: int| 0 <= i < left.len() implies (#[trigger] left[i]).key == key by {}
        assert(held(left, key));
        if left.len() > 1 {
            assert(left[0].key != left[1].key);
        }
        lemma_place(left, key, 0);
    }
}

/// The key found for a field under a ceiling is the most recently used that fits:
/// every entry used after it is of another field or of a run past the ceiling.
/// Where none is found, every entry is.
pub proof fn law_the_latest_is_the_most_recently_used(
    entries: GridEntries,
    param: ModelParameter,
    ceiling: Option<Instant>,
)
    ensures
        match latest_key(entries, param, ceiling) {
            Some(key) => {
                &&& key.param == param
                &&& ceiling matches Some(c) ==> !c.before(key.run)
                &&& exists|i: int|
                    0 <= i < entries.len() && (#[trigger] entries[i]).key == key && forall|j: int|
                        i < j < entries.len() ==> (#[trigger] entries[j]).key.param != param || (
                        ceiling matches Some(c) && c.before(entries[j].key.run))
            },
            None => forall|j: int|
                0 <= j < entries.len() ==> (#[trigger] entries[j]).key.param != param || (
                ceiling matches Some(c) && c.before(entries[j].key.run)),
        },
    decreases entries.len(),
{
    if entries.len() > 0 {
        let fewer = entries.drop_last();
        law_the_latest_is_the_most_recently_used(fewer, param, ceiling);
        let last = entries[entries.len() - 1];
        assert(forall|j: int| 0 <= j < fewer.len() ==> #[trigger] entries[j] == fewer[j]);
        if !(last.key.param == param && (ceiling matches Some(c) ==> last.key.run.not_after(c))) {
            if let Some(key) = latest_key(fewer, param, ceiling) {
                let i = choose|i: int|
                    0 <= i < fewer.len() && (#[trigger] fewer[i]).key == key && forall|j: int|
                        i < j < fewer.len() ==> (#[trigger] fewer[j]).key.param != param || (
                        ceiling matches Some(c) && c.before(fewer[j].key.run));
                assert(entries[i].key == key);
                assert forall|j: int| i < j < entries.len() implies (
                #[trigger] entries[j]).key.param != param || (ceiling matches Some(c) && c.before(
                    entries[j].key.run,
                )) by {
                    if j < fewer.len() {
                        assert(fewer[j] == entries[j]);
                    }
                }
            } else {
                assert forall|j: int| 0 <= j < entries.len() implies (
                #[trigger] entries[j]).key.param != param || (ceiling matches Some(c) && c.before(
                    entries[j].key.run,
                )) by {
                    if j < fewer.len() {
                        assert(fewer[j] == entries[j]);
                    }
                }
            }
        }
    }
}

/// A grid that arrives, or is looked at, is from then on the latest of its field.
pub proof fn law_a_use_makes_the_latest(
    cache: &ModelGridCache,
    key: GridKey,
    grid: Arc<ModelGrid>,
    pinned: Seq<GridKey>,
)
    requires
        cache.wf(),
    ensures
        latest_key(cache.installed(key, grid, pinned), key.param, None) == Some(key),
        held(cache.entries(), key) ==> latest_key(
            touched(cache.entries(), key),
            key.param,
            None,
        ) == Some(key),
{
    let entry = grid_entry(key, grid);
    law_an_arrival_stays_newest(
        cache.entries(),
        entry,
        cache.budget() as nat,
        usize::MAX as nat,
        pinned,
    );
    if held(cache.entries(), key) {
        let at = crate::recency::place(cache.entries(), key);
        assert(touched(cache.entries(), key).last() == cache.entries()[at]);
    }
}

/// A grid is valid its forecast hours after its run, and its key says the same; an
/// hour past the run shows the valid time and the hour, an analysis its run's.
pub proof fn law_a_grid_is_valid_hours_after_its_run(grid: &ModelGrid)
    requires
        grid.ref_time.steady(),
    ensures
        grid.valid().secs == grid.ref_time.secs + grid.forecast_hour * 3_600,
        grid.valid().nanos == grid.ref_time.nanos,
        GridKey::of_grid(*grid).valid() == grid.valid(),
        GridKey::of_grid(*grid).param == grid.parameter,
        GridKey::of_grid(*grid).run == grid.ref_time,
        GridKey::of_grid(*grid).f_hour == grid.forecast_hour,
        grid.forecast_hour == 0 ==> grid.label() == grid.ref_time.clock_view(),
        grid.forecast_hour > 0 ==> grid.label() == grid.valid().clock_view() + " F"@
            + crate::text::two_places(grid.forecast_hour as nat),
{
}

} // verus!
