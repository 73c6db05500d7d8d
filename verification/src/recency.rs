//! A store bounded by bytes, evicting least recently used first.
//!
//! The entries are held oldest use first, so the store and its recency are one
//! list and cannot disagree. What must not leave is said at each insert: the
//! arrival, and whatever is pinned.
use std::sync::Arc;
use vstd::prelude::*;

verus! {

/// A key that can be told from another.
pub trait Key: Copy {
    fn same(&self, other: &Self) -> (b: bool)
        ensures
            b == (*self == *other),
    ;
}

/// One held value, and the bytes it costs.
#[derive(Debug)]
pub struct Entry<K, V> {
    pub key: K,
    pub bytes: usize,
    pub value: V,
}

/// Entries, oldest use first.
#[derive(Debug)]
pub struct RecencyStore<K, V> {
    entries: Vec<Entry<K, V>>,
}

/// No key is held twice.
pub open spec fn keyed_once<K, V>(entries: Seq<Entry<K, V>>) -> bool {
    forall|i: int, j: int|
        0 <= i < j < entries.len() ==> (#[trigger] entries[i]).key != (#[trigger] entries[j]).key
}

/// Whether some entry has this key.
pub open spec fn held<K, V>(entries: Seq<Entry<K, V>>, key: K) -> bool {
    exists|i: int| 0 <= i < entries.len() && (#[trigger] entries[i]).key == key
}

/// What all the entries cost.
pub open spec fn total_bytes<K, V>(entries: Seq<Entry<K, V>>) -> nat
    decreases entries.len(),
{
    if entries.len() == 0 {
        0
    } else {
        total_bytes(entries.drop_last()) + entries.last().bytes as nat
    }
}

/// Whether a key may not be evicted: it is the arrival, or it is pinned.
pub open spec fn kept<K>(arrival: Option<K>, pinned: Seq<K>, key: K) -> bool {
    arrival == Some(key) || pinned.contains(key)
}

/// How many entries may be evicted.
pub open spec fn spare<K, V>(entries: Seq<Entry<K, V>>, arrival: Option<K>, pinned: Seq<K>) -> nat
    decreases entries.len(),
{
    if entries.len() == 0 {
        0
    } else {
        spare(entries.drop_last(), arrival, pinned) + if kept(arrival, pinned, entries.last().key) {
            0nat
        } else {
            1nat
        }
    }
}

/// Where the entry is that leaves first: the oldest that may leave.
pub open spec fn victim<K, V>(entries: Seq<Entry<K, V>>, arrival: Option<K>, pinned: Seq<K>) -> int
    decreases entries.len(),
{
    if entries.len() == 0 {
        0
    } else {
        let found = victim(entries.drop_last(), arrival, pinned);
        if found < entries.len() - 1 || !kept(arrival, pinned, entries.last().key) {
            found
        } else {
            entries.len() as int
        }
    }
}

/// Whether the entries are more than their bounds admit.
pub open spec fn over<K, V>(
    entries: Seq<Entry<K, V>>,
    budget: nat,
    history: nat,
    arrival: Option<K>,
    pinned: Seq<K>,
) -> bool {
    total_bytes(entries) > budget || spare(entries, arrival, pinned) > history
}

/// What is left when the oldest that may leave have left, one at a time, until
/// the bounds hold or none may leave.
pub open spec fn evicted<K, V>(
    entries: Seq<Entry<K, V>>,
    budget: nat,
    history: nat,
    arrival: Option<K>,
    pinned: Seq<K>,
) -> Seq<Entry<K, V>>
    decreases entries.len(),
{
    let oldest = victim(entries, arrival, pinned);
    if over(entries, budget, history, arrival, pinned) && 0 <= oldest < entries.len() {
        evicted(entries.remove(oldest), budget, history, arrival, pinned)
    } else {
        entries
    }
}

/// The values that leave, in the order they leave.
pub open spec fn leaving<K, V>(
    entries: Seq<Entry<K, V>>,
    budget: nat,
    history: nat,
    arrival: Option<K>,
    pinned: Seq<K>,
) -> Seq<V>
    decreases entries.len(),
{
    let oldest = victim(entries, arrival, pinned);
    if over(entries, budget, history, arrival, pinned) && 0 <= oldest < entries.len() {
        seq![entries[oldest].value] + leaving(
            entries.remove(oldest),
            budget,
            history,
            arrival,
            pinned,
        )
    } else {
        Seq::empty()
    }
}

/// The value a key is about to lose, if it holds one.
pub open spec fn replaced<K, V>(entries: Seq<Entry<K, V>>, key: K) -> Seq<V> {
    match looked_up(entries, key) {
        Some(value) => seq![value],
        None => Seq::empty(),
    }
}

/// The entries with one marked as just used, where it is held.
pub open spec fn touched<K, V>(entries: Seq<Entry<K, V>>, key: K) -> Seq<Entry<K, V>> {
    if held(entries, key) {
        let at = place(entries, key);
        entries.remove(at).push(entries[at])
    } else {
        entries
    }
}

/// Where a held key is.
pub open spec fn place<K, V>(entries: Seq<Entry<K, V>>, key: K) -> int {
    choose|i: int| 0 <= i < entries.len() && (#[trigger] entries[i]).key == key
}

/// The entries without one key.
pub open spec fn without<K, V>(entries: Seq<Entry<K, V>>, key: K) -> Seq<Entry<K, V>> {
    if held(entries, key) {
        entries.remove(place(entries, key))
    } else {
        entries
    }
}

/// The entries with an arrival put in as the newest, in place of what its key
/// held.
pub open spec fn arrived<K, V>(entries: Seq<Entry<K, V>>, entry: Entry<K, V>) -> Seq<Entry<K, V>> {
    without(entries, entry.key).push(entry)
}

/// The value a key holds.
pub open spec fn looked_up<K, V>(entries: Seq<Entry<K, V>>, key: K) -> Option<V> {
    if held(entries, key) {
        Some(entries[place(entries, key)].value)
    } else {
        None
    }
}

pub proof fn lemma_place<K, V>(entries: Seq<Entry<K, V>>, key: K, at: int)
    requires
        keyed_once(entries),
        0 <= at < entries.len(),
        entries[at].key == key,
    ensures
        held(entries, key),
        place(entries, key) == at,
{
    let p = place(entries, key);
    assert(0 <= p < entries.len() && entries[p].key == key);
}

pub proof fn lemma_removed<K, V>(entries: Seq<Entry<K, V>>, at: int)
    requires
        keyed_once(entries),
        0 <= at < entries.len(),
    ensures
        keyed_once(entries.remove(at)),
        !held(entries.remove(at), entries[at].key),
        forall|key: K|
            key != entries[at].key ==> #[trigger] held(entries.remove(at), key) == held(
                entries,
                key,
            ),
        total_bytes(entries.remove(at)) + entries[at].bytes == total_bytes(entries),
{
    let rest = entries.remove(at);
    assert forall|i: int| 0 <= i < rest.len() implies #[trigger] rest[i] == entries[if i < at {
        i
    } else {
        i + 1
    }] by {}
    assert forall|key: K| key != entries[at].key implies #[trigger] held(rest, key) == held(
        entries,
        key,
    ) by {
        if held(entries, key) {
            let i = place(entries, key);
            assert(rest[if i < at {
                i
            } else {
                i - 1
            }] == entries[i]);
        }
    }
    lemma_bytes_removed(entries, at);
}

proof fn lemma_bytes_removed<K, V>(entries: Seq<Entry<K, V>>, at: int)
    requires
        0 <= at < entries.len(),
    ensures
        total_bytes(entries.remove(at)) + entries[at].bytes == total_bytes(entries),
    decreases entries.len(),
{
    if at == entries.len() - 1 {
        assert(entries.remove(at) =~= entries.drop_last());
    } else {
        lemma_bytes_removed(entries.drop_last(), at);
        assert(entries.remove(at).drop_last() =~= entries.drop_last().remove(at));
    }
}

proof fn lemma_victim<K, V>(entries: Seq<Entry<K, V>>, arrival: Option<K>, pinned: Seq<K>)
    ensures
        ({
            let at = victim(entries, arrival, pinned);
            &&& 0 <= at <= entries.len()
            &&& at < entries.len() ==> !kept(arrival, pinned, entries[at].key)
            &&& forall|i: int|
                0 <= i < at ==> kept(arrival, pinned, (#[trigger] entries[i]).key)
            &&& at == entries.len() <==> spare(entries, arrival, pinned) == 0
        }),
    decreases entries.len(),
{
    if entries.len() > 0 {
        let shorter = entries.drop_last();
        lemma_victim(shorter, arrival, pinned);
        let at = victim(entries, arrival, pinned);
        assert forall|i: int| 0 <= i < at implies kept(
            arrival,
            pinned,
            (#[trigger] entries[i]).key,
        ) by {
            if i < shorter.len() {
                assert(shorter[i] == entries[i]);
            }
        }
    }
}

/// Eviction leaves a store well keyed, holds every kept key, and stops only
/// where the bounds hold or nothing more may leave.
pub proof fn law_eviction<K, V>(
    entries: Seq<Entry<K, V>>,
    budget: nat,
    history: nat,
    arrival: Option<K>,
    pinned: Seq<K>,
)
    requires
        keyed_once(entries),
    ensures
        ({
            let left = evicted(entries, budget, history, arrival, pinned);
            &&& keyed_once(left)
            &&& total_bytes(left) <= total_bytes(entries)
            &&& forall|key: K|
                kept(arrival, pinned, key) ==> #[trigger] held(left, key) == held(entries, key)
            &&& forall|key: K| #[trigger] held(left, key) ==> held(entries, key) && looked_up(
                left,
                key,
            ) == looked_up(entries, key)
            &&& over(left, budget, history, arrival, pinned) ==> forall|i: int|
                0 <= i < left.len() ==> kept(arrival, pinned, (#[trigger] left[i]).key)
            &&& spare(left, arrival, pinned) <= history
            &&& !over(entries, budget, history, arrival, pinned) ==> left == entries
        }),
    decreases entries.len(),
{
    let oldest = victim(entries, arrival, pinned);
    lemma_victim(entries, arrival, pinned);
    if over(entries, budget, history, arrival, pinned) && oldest < entries.len() {
        let rest = entries.remove(oldest);
        lemma_removed(entries, oldest);
        law_eviction(rest, budget, history, arrival, pinned);
        let left = evicted(entries, budget, history, arrival, pinned);
        assert forall|key: K| kept(arrival, pinned, key) implies #[trigger] held(left, key) == held(
            entries,
            key,
        ) by {
            assert(held(left, key) == held(rest, key));
        }
        assert forall|key: K| #[trigger] held(left, key) implies held(entries, key) && looked_up(
            left,
            key,
        ) == looked_up(entries, key) by {
            assert(held(rest, key));
            let i = place(rest, key);
            let j = if i < oldest {
                i
            } else {
                i + 1
            };
            assert(entries[j] == rest[i]);
            lemma_place(entries, key, j);
        }
    }
}

/// What leaves is the oldest that may: an entry that may leave stays only where
/// every one that may leave and was used after it stays too.
pub proof fn law_least_recent_leaves_first<K, V>(
    entries: Seq<Entry<K, V>>,
    budget: nat,
    history: nat,
    arrival: Option<K>,
    pinned: Seq<K>,
    older: int,
    newer: int,
)
    requires
        keyed_once(entries),
        0 <= older < newer < entries.len(),
        !kept(arrival, pinned, entries[older].key),
        held(evicted(entries, budget, history, arrival, pinned), entries[older].key),
    ensures
        held(evicted(entries, budget, history, arrival, pinned), entries[newer].key),
    decreases entries.len(),
{
    let oldest = victim(entries, arrival, pinned);
    lemma_victim(entries, arrival, pinned);
    if over(entries, budget, history, arrival, pinned) && oldest < entries.len() {
        let rest = entries.remove(oldest);
        lemma_removed(entries, oldest);
        law_eviction(rest, budget, history, arrival, pinned);
        assert(oldest <= older);
        if oldest == older {
            assert(!held(rest, entries[older].key));
        } else {
            assert(rest[older - 1] == entries[older]);
            assert(rest[newer - 1] == entries[newer]);
            law_least_recent_leaves_first(
                rest,
                budget,
                history,
                arrival,
                pinned,
                older - 1,
                newer - 1,
            );
        }
    } else {
        assert(entries[newer].key == entries[newer].key);
    }
}

/// The arrival is never its own victim: it is held when its insert is over.
pub proof fn law_arrival_is_held<K, V>(
    entries: Seq<Entry<K, V>>,
    entry: Entry<K, V>,
    budget: nat,
    history: nat,
    pinned: Seq<K>,
)
    requires
        keyed_once(entries),
    ensures
        ({
            let left = evicted(
                arrived(entries, entry),
                budget,
                history,
                Some(entry.key),
                pinned,
            );
            &&& held(left, entry.key)
            &&& looked_up(left, entry.key) == Some(entry.value)
            &&& forall|key: K|
                pinned.contains(key) && held(entries, key) ==> #[trigger] held(left, key)
        }),
{
    lemma_arrived(entries, entry);
    let grown = arrived(entries, entry);
    law_eviction(grown, budget, history, Some(entry.key), pinned);
    let left = evicted(grown, budget, history, Some(entry.key), pinned);
    assert(held(left, entry.key) == held(grown, entry.key));
    assert forall|key: K| pinned.contains(key) && held(entries, key) implies #[trigger] held(
        left,
        key,
    ) by {
        assert(held(grown, key) == (held(entries, key) || key == entry.key));
        assert(kept(Some(entry.key), pinned, key));
    }
}

/// An arrival keeps the store well keyed, and its key holds it.
pub proof fn lemma_arrived<K, V>(entries: Seq<Entry<K, V>>, entry: Entry<K, V>)
    requires
        keyed_once(entries),
    ensures
        keyed_once(arrived(entries, entry)),
        held(arrived(entries, entry), entry.key),
        looked_up(arrived(entries, entry), entry.key) == Some(entry.value),
        forall|key: K| #[trigger]
            held(arrived(entries, entry), key) == (held(entries, key) || key == entry.key),
{
    let rest = without(entries, entry.key);
    if held(entries, entry.key) {
        lemma_removed(entries, place(entries, entry.key));
    }
    assert(keyed_once(rest) && !held(rest, entry.key));
    let grown = arrived(entries, entry);
    assert(grown[grown.len() - 1] == entry);
    assert forall|i: int, j: int| 0 <= i < j < grown.len() implies (#[trigger] grown[i]).key != (
    #[trigger] grown[j]).key by {
        if j == grown.len() - 1 {
            assert(rest[i] == grown[i]);
        }
    }
    lemma_place(grown, entry.key, grown.len() - 1);
    assert forall|key: K| #[trigger] held(grown, key) == (held(entries, key) || key == entry.key) by {
        if held(grown, key) && key != entry.key {
            let i = place(grown, key);
            assert(rest[i] == grown[i]);
            assert(held(rest, key));
        }
        if held(entries, key) && key != entry.key {
            assert(held(rest, key));
            let i = place(rest, key);
            assert(grown[i] == rest[i]);
        }
    }
}

/// Marking an entry as used changes no value and no total.
pub proof fn law_touch_keeps_values<K, V>(entries: Seq<Entry<K, V>>, key: K)
    requires
        keyed_once(entries),
    ensures
        keyed_once(touched(entries, key)),
        total_bytes(touched(entries, key)) == total_bytes(entries),
        forall|k: K| #[trigger] held(touched(entries, key), k) == held(entries, k),
        forall|k: K|
            held(entries, k) ==> #[trigger] looked_up(touched(entries, key), k) == looked_up(
                entries,
                k,
            ),
{
    if held(entries, key) {
        let at = place(entries, key);
        let entry = entries[at];
        lemma_removed(entries, at);
        lemma_arrived(entries, entry);
        let moved = touched(entries, key);
        assert(moved =~= arrived(entries, entry));
        assert(moved.drop_last() =~= entries.remove(at));
        assert forall|k: K| held(entries, k) implies #[trigger] looked_up(moved, k) == looked_up(
            entries,
            k,
        ) by {
            if k != key {
                let i = place(entries, k);
                let j = if i < at {
                    i
                } else {
                    i - 1
                };
                assert(moved[j] == entries[i]);
                lemma_place(moved, k, j);
            }
        }
    }
}

/// Whether every entry is down for what its value costs.
pub open spec fn priced<K, V>(entries: Seq<Entry<K, V>>, price: spec_fn(V) -> usize) -> bool {
    forall|i: int|
        0 <= i < entries.len() ==> (#[trigger] entries[i]).bytes == price(entries[i].value)
}

/// What the values of some entries cost together.
pub open spec fn price_sum<K, V>(entries: Seq<Entry<K, V>>, price: spec_fn(V) -> usize) -> nat
    decreases entries.len(),
{
    if entries.len() == 0 {
        0
    } else {
        price_sum(entries.drop_last(), price) + price(entries.last().value) as nat
    }
}

/// What a store is down for is what its values cost together.
pub proof fn law_total_is_the_prices<K, V>(
    entries: Seq<Entry<K, V>>,
    price: spec_fn(V) -> usize,
)
    requires
        priced(entries, price),
    ensures
        total_bytes(entries) == price_sum(entries, price),
    decreases entries.len(),
{
    if entries.len() > 0 {
        let shorter = entries.drop_last();
        assert forall|i: int| 0 <= i < shorter.len() implies (#[trigger] shorter[i]).bytes == price(
            shorter[i].value,
        ) by {
            assert(shorter[i] == entries[i]);
        }
        law_total_is_the_prices(shorter, price);
        assert(entries[entries.len() - 1].bytes == price(entries.last().value));
    }
}

pub proof fn lemma_priced_removed<K, V>(
    entries: Seq<Entry<K, V>>,
    at: int,
    price: spec_fn(V) -> usize,
)
    requires
        priced(entries, price),
        0 <= at < entries.len(),
    ensures
        priced(entries.remove(at), price),
{
    let rest = entries.remove(at);
    assert forall|i: int| 0 <= i < rest.len() implies (#[trigger] rest[i]).bytes == price(
        rest[i].value,
    ) by {
        assert(rest[i] == entries[if i < at {
            i
        } else {
            i + 1
        }]);
    }
}

pub proof fn lemma_priced_touched<K, V>(
    entries: Seq<Entry<K, V>>,
    key: K,
    price: spec_fn(V) -> usize,
)
    requires
        priced(entries, price),
    ensures
        priced(touched(entries, key), price),
{
    if held(entries, key) {
        let at = place(entries, key);
        lemma_priced_removed(entries, at, price);
        let moved = touched(entries, key);
        assert forall|i: int| 0 <= i < moved.len() implies (#[trigger] moved[i]).bytes == price(
            moved[i].value,
        ) by {
            if i < moved.len() - 1 {
                assert(moved[i] == entries.remove(at)[i]);
            } else {
                assert(moved[i] == entries[at]);
            }
        }
    }
}

pub proof fn lemma_priced_arrived<K, V>(
    entries: Seq<Entry<K, V>>,
    entry: Entry<K, V>,
    price: spec_fn(V) -> usize,
)
    requires
        priced(entries, price),
        entry.bytes == price(entry.value),
    ensures
        priced(arrived(entries, entry), price),
{
    let rest = without(entries, entry.key);
    if held(entries, entry.key) {
        lemma_priced_removed(entries, place(entries, entry.key), price);
    }
    let grown = arrived(entries, entry);
    assert forall|i: int| 0 <= i < grown.len() implies (#[trigger] grown[i]).bytes == price(
        grown[i].value,
    ) by {
        if i < rest.len() {
            assert(grown[i] == rest[i]);
        }
    }
}

pub proof fn lemma_priced_evicted<K, V>(
    entries: Seq<Entry<K, V>>,
    budget: nat,
    history: nat,
    arrival: Option<K>,
    pinned: Seq<K>,
    price: spec_fn(V) -> usize,
)
    requires
        priced(entries, price),
    ensures
        priced(evicted(entries, budget, history, arrival, pinned), price),
    decreases entries.len(),
{
    let oldest = victim(entries, arrival, pinned);
    if over(entries, budget, history, arrival, pinned) && 0 <= oldest < entries.len() {
        lemma_priced_removed(entries, oldest, price);
        lemma_priced_evicted(
            entries.remove(oldest),
            budget,
            history,
            arrival,
            pinned,
            price,
        );
    }
}

/// Whether some entry's value is this one.
pub open spec fn keeps<K, V>(entries: Seq<Entry<K, V>>, value: V) -> bool {
    exists|i: int| 0 <= i < entries.len() && (#[trigger] entries[i]).value == value
}

/// `std::sync::Arc::ptr_eq`.
///
/// Trusted: two shares of one allocation are of one value. Where it says no,
/// nothing follows: equal values can lie in two allocations.
#[verifier::external_body]
fn same_allocation<T>(a: &Arc<T>, b: &Arc<T>) -> (same: bool)
    ensures
        same ==> *a == *b,
{
    Arc::ptr_eq(a, b)
}

impl<K: Key, V> RecencyStore<K, Arc<V>> {
    /// Whether some entry is this very allocation. To ask is no use, and a key
    /// would not answer it: what a key holds can have been replaced.
    pub fn holds(&self, value: &Arc<V>) -> (b: bool)
        ensures
            b ==> keeps(self.entries(), *value),
    {
        let mut at: usize = 0;
        while at < self.entries.len()
            invariant
                at <= self.entries@.len(),
            decreases self.entries@.len() - at,
        {
            if same_allocation(&self.entries[at].value, value) {
                assert(self.entries()[at as int].value == *value);
                return true;
            }
            at = at + 1;
        }
        false
    }
}

impl<K: Key, V> RecencyStore<K, V> {
    /// The entries, oldest use first.
    pub closed spec fn entries(&self) -> Seq<Entry<K, V>> {
        self.entries@
    }

    /// No key is held twice.
    pub open spec fn wf(&self) -> bool {
        keyed_once(self.entries())
    }

    pub fn new() -> (store: RecencyStore<K, V>)
        ensures
            store.wf(),
            store.entries() == Seq::<Entry<K, V>>::empty(),
    {
        RecencyStore { entries: Vec::new() }
    }

    pub fn len(&self) -> (len: usize)
        ensures
            len == self.entries().len(),
    {
        self.entries.len()
    }

    /// The entry at a position, oldest use first.
    pub fn entry(&self, at: usize) -> (entry: &Entry<K, V>)
        requires
            at < self.entries().len(),
        ensures
            *entry == self.entries()[at as int],
    {
        &self.entries[at]
    }

    fn find(&self, key: &K) -> (at: Option<usize>)
        requires
            self.wf(),
        ensures
            match at {
                Some(i) => held(self.entries(), *key) && i == place(self.entries(), *key) && i
                    < self.entries().len(),
                None => !held(self.entries(), *key),
            },
    {
        let mut at: usize = 0;
        while at < self.entries.len()
            invariant
                at <= self.entries@.len(),
                self.wf(),
                forall|i: int| 0 <= i < at ==> (#[trigger] self.entries@[i]).key != *key,
            decreases self.entries@.len() - at,
        {
            if self.entries[at].key.same(key) {
                proof {
                    lemma_place(self.entries(), *key, at as int);
                }
                return Some(at);
            }
            at = at + 1;
        }
        None
    }

    /// Whether a key is held, without counting as a use.
    pub fn is_held(&self, key: &K) -> (b: bool)
        requires
            self.wf(),
        ensures
            b == held(self.entries(), *key),
    {
        self.find(key).is_some()
    }

    /// Marks a key as just used.
    pub fn touch(&mut self, key: &K)
        requires
            old(self).wf(),
        ensures
            final(self).wf(),
            final(self).entries() == touched(old(self).entries(), *key),
    {
        proof {
            law_touch_keeps_values(self.entries(), *key);
        }
        if let Some(at) = self.find(key) {
            let entry = self.entries.remove(at);
            self.entries.push(entry);
        }
    }

    /// The value a key holds, marked as just used. Every read is a use: which
    /// accessor a caller reached for says nothing of what is on screen.
    pub fn get(&mut self, key: &K) -> (value: Option<&V>)
        requires
            old(self).wf(),
        ensures
            final(self).wf(),
            final(self).entries() == touched(old(self).entries(), *key),
            match value {
                Some(v) => looked_up(old(self).entries(), *key) == Some(*v),
                None => looked_up(old(self).entries(), *key) is None,
            },
    {
        proof {
            law_touch_keeps_values(self.entries(), *key);
        }
        self.touch(key);
        match self.find(key) {
            Some(at) => Some(&self.entries[at].value),
            None => None,
        }
    }

    /// What all the entries cost, as far as an index can count.
    pub fn resident_bytes(&self) -> (bytes: usize)
        ensures
            total_bytes(self.entries()) <= usize::MAX ==> bytes == total_bytes(self.entries()),
            total_bytes(self.entries()) > usize::MAX ==> bytes == usize::MAX,
    {
        let mut sum: usize = 0;
        let mut at: usize = 0;
        let ghost all = self.entries@;
        while at < self.entries.len()
            invariant
                at <= all.len(),
                all == self.entries@,
                total_bytes(all.take(at as int)) <= usize::MAX ==> sum == total_bytes(
                    all.take(at as int),
                ),
                total_bytes(all.take(at as int)) > usize::MAX ==> sum == usize::MAX,
            decreases all.len() - at,
        {
            sum = sum.saturating_add(self.entries[at].bytes);
            assert(all.take(at + 1).drop_last() =~= all.take(at as int));
            at = at + 1;
        }
        assert(all.take(at as int) =~= all);
        sum
    }

    fn is_over(&self, budget: usize) -> (b: bool)
        ensures
            b == (total_bytes(self.entries()) > budget),
    {
        let mut left: usize = budget;
        let mut at: usize = 0;
        let ghost all = self.entries@;
        while at < self.entries.len()
            invariant
                at <= all.len(),
                all == self.entries@,
                left + total_bytes(all.take(at as int)) == budget,
            decreases all.len() - at,
        {
            assert(all.take(at + 1).drop_last() =~= all.take(at as int));
            if self.entries[at].bytes > left {
                proof {
                    lemma_prefix_bytes(all, at + 1);
                }
                return true;
            }
            left = left - self.entries[at].bytes;
            at = at + 1;
        }
        assert(all.take(at as int) =~= all);
        false
    }

    fn spare_count(&self, arrival: &Option<K>, pinned: &Vec<K>) -> (count: usize)
        ensures
            count == spare(self.entries(), *arrival, pinned@),
    {
        let mut count: usize = 0;
        let mut at: usize = 0;
        let ghost all = self.entries@;
        while at < self.entries.len()
            invariant
                at <= all.len(),
                all == self.entries@,
                count <= at,
                count == spare(all.take(at as int), *arrival, pinned@),
            decreases all.len() - at,
        {
            assert(all.take(at + 1).drop_last() =~= all.take(at as int));
            if !is_kept(arrival, pinned, &self.entries[at].key) {
                count = count + 1;
            }
            at = at + 1;
        }
        assert(all.take(at as int) =~= all);
        count
    }

    fn find_victim(&self, arrival: &Option<K>, pinned: &Vec<K>) -> (at: usize)
        ensures
            at == victim(self.entries(), *arrival, pinned@),
            at <= self.entries().len(),
    {
        let mut at: usize = 0;
        let ghost all = self.entries@;
        proof {
            lemma_victim(all, *arrival, pinned@);
        }
        while at < self.entries.len()
            invariant
                at <= all.len(),
                all == self.entries@,
                at <= victim(all, *arrival, pinned@) <= all.len(),
                victim(all, *arrival, pinned@) < all.len() ==> !kept(
                    *arrival,
                    pinned@,
                    all[victim(all, *arrival, pinned@)].key,
                ),
                forall|i: int|
                    0 <= i < victim(all, *arrival, pinned@) ==> kept(
                        *arrival,
                        pinned@,
                        (#[trigger] all[i]).key,
                    ),
            decreases all.len() - at,
        {
            if !is_kept(arrival, pinned, &self.entries[at].key) {
                return at;
            }
            at = at + 1;
        }
        at
    }

    /// Lets the oldest that may leave go, until the bounds hold or none may.
    /// What left is handed back, in the order it left.
    pub fn evict(&mut self, budget: usize, history: usize, arrival: &Option<K>, pinned: &Vec<K>) -> (
    gone: Vec<V>)
        requires
            old(self).wf(),
        ensures
            final(self).wf(),
            final(self).entries() == evicted(
                old(self).entries(),
                budget as nat,
                history as nat,
                *arrival,
                pinned@,
            ),
            gone@ == leaving(
                old(self).entries(),
                budget as nat,
                history as nat,
                *arrival,
                pinned@,
            ),
    {
        let mut gone: Vec<V> = Vec::new();
        let ghost before = self.entries@;
        let ghost end = evicted(before, budget as nat, history as nat, *arrival, pinned@);
        let ghost all_gone = leaving(before, budget as nat, history as nat, *arrival, pinned@);
        assert(gone@ + all_gone =~= all_gone);
        loop
            invariant
                self.wf(),
                end == evicted(
                    self.entries(),
                    budget as nat,
                    history as nat,
                    *arrival,
                    pinned@,
                ),
                all_gone == gone@ + leaving(
                    self.entries(),
                    budget as nat,
                    history as nat,
                    *arrival,
                    pinned@,
                ),
            ensures
                self.wf(),
                self.entries() == end,
                gone@ == all_gone,
            decreases self.entries().len(),
        {
            let full = self.is_over(budget) || self.spare_count(arrival, pinned) > history;
            let at: usize = self.find_victim(arrival, pinned);
            if !full || at >= self.entries.len() {
                assert(gone@ =~= all_gone);
                break;
            }
            proof {
                lemma_removed(self.entries(), at as int);
            }
            let ghost so_far = gone@;
            let ghost rest = leaving(
                self.entries().remove(at as int),
                budget as nat,
                history as nat,
                *arrival,
                pinned@,
            );
            let entry = self.entries.remove(at);
            gone.push(entry.value);
            assert(gone@ + rest =~= so_far + (seq![entry.value] + rest));
        }
        gone
    }

    /// Puts a value in as the newest, in place of what its key held, and lets the
    /// oldest that may leave go. Neither the arrival nor anything pinned leaves:
    /// going over the budget is the lesser failure. What left is handed back.
    pub fn insert(
        &mut self,
        key: K,
        bytes: usize,
        value: V,
        budget: usize,
        history: usize,
        pinned: &Vec<K>,
    ) -> (gone: Vec<V>)
        requires
            old(self).wf(),
        ensures
            final(self).wf(),
            final(self).entries() == evicted(
                arrived(old(self).entries(), Entry { key, bytes, value }),
                budget as nat,
                history as nat,
                Some(key),
                pinned@,
            ),
            gone@ == replaced(old(self).entries(), key) + leaving(
                arrived(old(self).entries(), Entry { key, bytes, value }),
                budget as nat,
                history as nat,
                Some(key),
                pinned@,
            ),
    {
        let ghost entry = Entry { key, bytes, value };
        proof {
            lemma_arrived(self.entries(), entry);
        }
        let ghost before = self.entries();
        let mut gone: Vec<V> = Vec::new();
        if let Some(at) = self.find(&key) {
            let entry = self.entries.remove(at);
            gone.push(entry.value);
        }
        assert(gone@ =~= replaced(before, key));
        self.entries.push(Entry { key, bytes, value });
        let mut left = self.evict(budget, history, &Some(key), pinned);
        gone.append(&mut left);
        gone
    }

    /// Lets everything go.
    pub fn clear(&mut self)
        ensures
            final(self).wf(),
            final(self).entries() == Seq::<Entry<K, V>>::empty(),
    {
        self.entries.clear();
    }

    /// Takes the entry at a position out.
    pub fn remove_at(&mut self, at: usize) -> (entry: Entry<K, V>)
        requires
            old(self).wf(),
            at < old(self).entries().len(),
        ensures
            final(self).wf(),
            entry == old(self).entries()[at as int],
            final(self).entries() == old(self).entries().remove(at as int),
    {
        proof {
            lemma_removed(self.entries(), at as int);
        }
        self.entries.remove(at)
    }
}

proof fn lemma_prefix_bytes<K, V>(entries: Seq<Entry<K, V>>, at: int)
    requires
        0 <= at <= entries.len(),
    ensures
        total_bytes(entries.take(at)) <= total_bytes(entries),
    decreases entries.len(),
{
    if at < entries.len() {
        lemma_prefix_bytes(entries.drop_last(), at);
        assert(entries.drop_last().take(at) =~= entries.take(at));
    } else {
        assert(entries.take(at) =~= entries);
    }
}

/// Whether a list holds a key.
pub fn lists<K: Key>(keys: &Vec<K>, key: &K) -> (b: bool)
    ensures
        b == keys@.contains(*key),
{
    let mut at: usize = 0;
    while at < keys.len()
        invariant
            at <= keys@.len(),
            forall|i: int| 0 <= i < at ==> keys@[i] != *key,
        decreases keys@.len() - at,
    {
        if keys[at].same(key) {
            assert(keys@[at as int] == *key);
            return true;
        }
        at = at + 1;
    }
    false
}

fn is_kept<K: Key>(arrival: &Option<K>, pinned: &Vec<K>, key: &K) -> (b: bool)
    ensures
        b == kept(*arrival, pinned@, *key),
{
    let arriving = match arrival {
        Some(k) => k.same(key),
        None => false,
    };
    arriving || lists(pinned, key)
}

/// A use puts an entry last and moves no other past another; what is not held is
/// not put in. An arrival stands last, in place of what its key held, and the
/// others keep their order.
pub proof fn law_a_use_is_the_newest<K, V>(entries: Seq<Entry<K, V>>, entry: Entry<K, V>)
    requires
        keyed_once(entries),
    ensures
        arrived(entries, entry) == entries.filter(|e: Entry<K, V>| e.key != entry.key).push(entry),
        forall|i: int|
            0 <= i < entries.len() && (#[trigger] entries[i]).key == entry.key ==> touched(
                entries,
                entry.key,
            ) == entries.filter(|e: Entry<K, V>| e.key != entry.key).push(entries[i]),
        (forall|i: int| 0 <= i < entries.len() ==> (#[trigger] entries[i]).key != entry.key)
            ==> touched(entries, entry.key) == entries,
{
    let keep = |e: Entry<K, V>| e.key != entry.key;
    if held(entries, entry.key) {
        let at = place(entries, entry.key);
        lemma_filter_drops_one(entries, at);
        assert forall|i: int|
            0 <= i < entries.len() && (#[trigger] entries[i]).key == entry.key implies touched(
            entries,
            entry.key,
        ) == entries.filter(keep).push(entries[i]) by {
            lemma_place(entries, entry.key, i);
        }
    } else {
        assert forall|i: int| 0 <= i < entries.len() implies keep(#[trigger] entries[i]) by {
            assert(entries[i].key != entry.key);
        }
        lemma_filter_keeps_all(entries, keep);
    }
}

proof fn lemma_filter_keeps_all<A>(items: Seq<A>, keep: spec_fn(A) -> bool)
    requires
        forall|i: int| 0 <= i < items.len() ==> keep(#[trigger] items[i]),
    ensures
        items.filter(keep) == items,
    decreases items.len(),
{
    reveal(Seq::filter);
    if items.len() > 0 {
        let fewer = items.drop_last();
        assert forall|i: int| 0 <= i < fewer.len() implies keep(#[trigger] fewer[i]) by {
            assert(fewer[i] == items[i]);
        }
        lemma_filter_keeps_all(fewer, keep);
        assert(items[items.len() - 1] == items.last());
        assert(fewer.push(items.last()) =~= items);
    }
}

proof fn lemma_filter_drops_one<K, V>(entries: Seq<Entry<K, V>>, at: int)
    requires
        keyed_once(entries),
        0 <= at < entries.len(),
    ensures
        entries.filter(|e: Entry<K, V>| e.key != entries[at].key) == entries.remove(at),
{
    let keep = |e: Entry<K, V>| e.key != entries[at].key;
    let (a, b) = (entries.take(at), entries.skip(at + 1));
    assert forall|i: int| 0 <= i < a.len() implies keep(#[trigger] a[i]) by {
        assert(entries[i].key != entries[at].key);
    }
    assert forall|i: int| 0 <= i < b.len() implies keep(#[trigger] b[i]) by {
        assert(entries[at].key != entries[at + 1 + i].key);
    }
    lemma_filter_keeps_all(a, keep);
    lemma_filter_keeps_all(b, keep);
    lemma_filter_around(entries, at, keep);
    assert(entries.remove(at) =~= a + b);
}

proof fn lemma_filter_keeps_none<A>(items: Seq<A>, keep: spec_fn(A) -> bool)
    requires
        forall|i: int| 0 <= i < items.len() ==> !keep(#[trigger] items[i]),
    ensures
        items.filter(keep) == Seq::<A>::empty(),
    decreases items.len(),
{
    reveal(Seq::filter);
    if items.len() > 0 {
        let fewer = items.drop_last();
        assert forall|i: int| 0 <= i < fewer.len() implies !keep(#[trigger] fewer[i]) by {
            assert(fewer[i] == items[i]);
        }
        lemma_filter_keeps_none(fewer, keep);
        assert(items[items.len() - 1] == items.last());
    }
}

proof fn lemma_filter_around<A>(items: Seq<A>, at: int, keep: spec_fn(A) -> bool)
    requires
        0 <= at < items.len(),
    ensures
        items.filter(keep) == items.take(at).filter(keep) + (if keep(items[at]) {
            seq![items[at]]
        } else {
            Seq::empty()
        }) + items.skip(at + 1).filter(keep),
        items.remove(at).filter(keep) == items.take(at).filter(keep) + items.skip(at + 1).filter(
            keep,
        ),
{
    let (a, b) = (items.take(at), items.skip(at + 1));
    let one = seq![items[at]];
    assert(items =~= (a + one) + b);
    assert(items.remove(at) =~= a + b);
    Seq::filter_distributes_over_add(a + one, b, keep);
    Seq::filter_distributes_over_add(a, one, keep);
    Seq::filter_distributes_over_add(a, b, keep);
    if keep(items[at]) {
        lemma_filter_keeps_all(one, keep);
    } else {
        lemma_filter_keeps_none(one, keep);
    }
}

proof fn lemma_one_leaves<K, V>(
    entries: Seq<Entry<K, V>>,
    oldest: int,
    stays: spec_fn(Entry<K, V>) -> bool,
    goes: spec_fn(Entry<K, V>) -> bool,
)
    requires
        0 <= oldest < entries.len(),
        !stays(entries[oldest]),
        goes(entries[oldest]),
        forall|i: int| 0 <= i < oldest ==> !goes(#[trigger] entries[i]),
    ensures
        entries.filter(stays) == entries.remove(oldest).filter(stays),
        entries.filter(goes).map_values(|e: Entry<K, V>| e.value) == seq![entries[oldest].value]
            + entries.remove(oldest).filter(goes).map_values(|e: Entry<K, V>| e.value),
{
    let value = |e: Entry<K, V>| e.value;
    let front = entries.take(oldest);
    assert forall|i: int| 0 <= i < front.len() implies !goes(#[trigger] front[i]) by {
        assert(front[i] == entries[i]);
    }
    lemma_filter_keeps_none(front, goes);
    lemma_filter_around(entries, oldest, stays);
    lemma_filter_around(entries, oldest, goes);
    let rest = entries.remove(oldest);
    assert(entries.filter(stays) =~= rest.filter(stays));
    assert(entries.filter(goes) =~= seq![entries[oldest]] + rest.filter(goes));
    assert(entries.filter(goes).map_values(value) =~= seq![entries[oldest].value] + rest.filter(
        goes,
    ).map_values(value));
}

/// Eviction takes entries out and does nothing else: what is left is there in the
/// order it was, and what leaves, leaves from the oldest use on.
#[verifier::spinoff_prover]
pub proof fn law_eviction_parts_the_store<K, V>(
    entries: Seq<Entry<K, V>>,
    budget: nat,
    history: nat,
    arrival: Option<K>,
    pinned: Seq<K>,
)
    requires
        keyed_once(entries),
    ensures
        ({
            let left = evicted(entries, budget, history, arrival, pinned);
            &&& left == entries.filter(|e: Entry<K, V>| held(left, e.key))
            &&& leaving(entries, budget, history, arrival, pinned) == entries.filter(
                |e: Entry<K, V>| !held(left, e.key),
            ).map_values(|e: Entry<K, V>| e.value)
        }),
    decreases entries.len(),
{
    let left = evicted(entries, budget, history, arrival, pinned);
    let stays = |e: Entry<K, V>| held(left, e.key);
    let goes = |e: Entry<K, V>| !held(left, e.key);
    let oldest = victim(entries, arrival, pinned);
    lemma_victim(entries, arrival, pinned);
    if over(entries, budget, history, arrival, pinned) && oldest < entries.len() {
        let rest = entries.remove(oldest);
        lemma_removed(entries, oldest);
        law_eviction_parts_the_store(rest, budget, history, arrival, pinned);
        assert(goes(entries[oldest])) by {
            law_eviction(rest, budget, history, arrival, pinned);
        }
        assert forall|i: int| 0 <= i < oldest implies !goes(#[trigger] entries[i]) by {
            lemma_kept_stays(entries, budget, history, arrival, pinned, i);
        }
        lemma_one_leaves(entries, oldest, stays, goes);
    } else {
        assert forall|i: int| 0 <= i < entries.len() implies stays(#[trigger] entries[i]) by {
            assert(held(entries, entries[i].key));
        }
        lemma_filter_keeps_all(entries, stays);
        assert forall|i: int| 0 <= i < entries.len() implies !goes(#[trigger] entries[i]) by {
            assert(stays(entries[i]));
        }
        lemma_filter_keeps_none(entries, goes);
        assert(entries.filter(goes).map_values(|e: Entry<K, V>| e.value) =~= Seq::empty());
    }
}

proof fn lemma_kept_stays<K, V>(
    entries: Seq<Entry<K, V>>,
    budget: nat,
    history: nat,
    arrival: Option<K>,
    pinned: Seq<K>,
    at: int,
)
    requires
        keyed_once(entries),
        0 <= at < entries.len(),
        kept(arrival, pinned, entries[at].key),
    ensures
        held(evicted(entries, budget, history, arrival, pinned), entries[at].key),
{
    law_eviction(entries, budget, history, arrival, pinned);
    let key = entries[at].key;
    assert(held(entries, key));
    assert(held(evicted(entries, budget, history, arrival, pinned), key) == held(entries, key));
}

/// No more leaves than must: where something left, the store with one of those put
/// back is over its bounds.
pub proof fn law_no_more_leaves_than_must<K, V>(
    entries: Seq<Entry<K, V>>,
    budget: nat,
    history: nat,
    arrival: Option<K>,
    pinned: Seq<K>,
)
    requires
        keyed_once(entries),
        evicted(entries, budget, history, arrival, pinned) != entries,
    ensures
        ({
            let left = evicted(entries, budget, history, arrival, pinned);
            exists|at: int, slot: int|
                #![trigger left.insert(slot, entries[at])]
                0 <= at < entries.len() && 0 <= slot <= left.len() && !held(left, entries[at].key)
                    && (total_bytes(left.insert(slot, entries[at])) > budget || spare(
                    left.insert(slot, entries[at]),
                    arrival,
                    pinned,
                ) > history)
        }),
    decreases entries.len(),
{
    let left = evicted(entries, budget, history, arrival, pinned);
    let oldest = victim(entries, arrival, pinned);
    lemma_victim(entries, arrival, pinned);
    let rest = entries.remove(oldest);
    lemma_removed(entries, oldest);
    law_eviction(rest, budget, history, arrival, pinned);
    if left == rest {
        assert(left.insert(oldest, entries[oldest]) =~= entries);
    } else {
        law_no_more_leaves_than_must(rest, budget, history, arrival, pinned);
        let (at, slot) = choose|at: int, slot: int|
            #![trigger left.insert(slot, rest[at])]
            0 <= at < rest.len() && 0 <= slot <= left.len() && !held(left, rest[at].key) && (
            total_bytes(left.insert(slot, rest[at])) > budget || spare(
                left.insert(slot, rest[at]),
                arrival,
                pinned,
            ) > history);
        let from = if at < oldest {
            at
        } else {
            at + 1
        };
        assert(entries[from] == rest[at]);
        assert(left.insert(slot, entries[from]) == left.insert(slot, rest[at]));
    }
}

/// What may leave is counted one for one: every entry that is neither the arrival
/// nor pinned. What a store costs is the sum over its entries.
pub proof fn law_spare_counts_what_may_leave<K, V>(
    entries: Seq<Entry<K, V>>,
    arrival: Option<K>,
    pinned: Seq<K>,
)
    ensures
        spare(entries, arrival, pinned) == entries.filter(
            |e: Entry<K, V>| arrival != Some(e.key) && !pinned.contains(e.key),
        ).len(),
        total_bytes(entries) == entries.map_values(|e: Entry<K, V>| e.bytes as int).fold_left(
            0,
            |sum: int, bytes: int| sum + bytes,
        ),
    decreases entries.len(),
{
    reveal(Seq::filter);
    let costs = entries.map_values(|e: Entry<K, V>| e.bytes as int);
    if entries.len() > 0 {
        law_spare_counts_what_may_leave(entries.drop_last(), arrival, pinned);
        assert(costs.drop_last() =~= entries.drop_last().map_values(
            |e: Entry<K, V>| e.bytes as int,
        ));
    }
}

/// The arrival is the newest of what is left.
pub proof fn law_an_arrival_stays_newest<K, V>(
    entries: Seq<Entry<K, V>>,
    entry: Entry<K, V>,
    budget: nat,
    history: nat,
    pinned: Seq<K>,
)
    requires
        keyed_once(entries),
    ensures
        ({
            let left = evicted(
                arrived(entries, entry),
                budget,
                history,
                Some(entry.key),
                pinned,
            );
            left.len() > 0 && left.last() == entry
        }),
{
    reveal(Seq::filter);
    let grown = arrived(entries, entry);
    lemma_arrived(entries, entry);
    law_arrival_is_held(entries, entry, budget, history, pinned);
    law_eviction_parts_the_store(grown, budget, history, Some(entry.key), pinned);
    assert(grown.last() == entry);
}

/// A held key's value is the one its entry has, and a key without an entry has
/// none.
pub proof fn law_a_key_finds_its_entry<K, V>(entries: Seq<Entry<K, V>>, key: K)
    requires
        keyed_once(entries),
    ensures
        forall|i: int|
            0 <= i < entries.len() && (#[trigger] entries[i]).key == key ==> looked_up(entries, key)
                == Some(entries[i].value),
        (forall|i: int| 0 <= i < entries.len() ==> (#[trigger] entries[i]).key != key)
            ==> looked_up(entries, key) is None,
{
    assert forall|i: int| 0 <= i < entries.len() && (#[trigger] entries[i]).key == key implies looked_up(
        entries,
        key,
    ) == Some(entries[i].value) by {
        lemma_place(entries, key, i);
    }
}

/// Nothing is lost track of: what is left and what leaves are together as many as
/// there were.
pub proof fn law_what_stays_and_leaves_is_all<K, V>(
    entries: Seq<Entry<K, V>>,
    budget: nat,
    history: nat,
    arrival: Option<K>,
    pinned: Seq<K>,
)
    ensures
        evicted(entries, budget, history, arrival, pinned).len() + leaving(
            entries,
            budget,
            history,
            arrival,
            pinned,
        ).len() == entries.len(),
    decreases entries.len(),
{
    let oldest = victim(entries, arrival, pinned);
    if over(entries, budget, history, arrival, pinned) && 0 <= oldest < entries.len() {
        law_what_stays_and_leaves_is_all(
            entries.remove(oldest),
            budget,
            history,
            arrival,
            pinned,
        );
    }
}

/// Values cost together what each costs, added up: no value is free and none is
/// counted twice, whatever the order they are held in.
pub proof fn law_each_value_is_counted_once<K, V>(
    entries: Seq<Entry<K, V>>,
    more: Seq<Entry<K, V>>,
    price: spec_fn(V) -> usize,
)
    ensures
        price_sum(entries, price) == entries.fold_left(
            0nat,
            |sum: nat, e: Entry<K, V>| sum + price(e.value) as nat,
        ),
        price_sum(entries + more, price) == price_sum(entries, price) + price_sum(more, price),
        price_sum(entries + more, price) == price_sum(more + entries, price),
    decreases entries.len() + more.len(),
{
    if entries.len() > 0 {
        law_each_value_is_counted_once(entries.drop_last(), Seq::empty(), price);
    }
    lemma_prices_add_up(entries, more, price);
    lemma_prices_add_up(more, entries, price);
}

proof fn lemma_prices_add_up<K, V>(
    entries: Seq<Entry<K, V>>,
    more: Seq<Entry<K, V>>,
    price: spec_fn(V) -> usize,
)
    ensures
        price_sum(entries + more, price) == price_sum(entries, price) + price_sum(more, price),
    decreases more.len(),
{
    if more.len() == 0 {
        assert(entries + more =~= entries);
    } else {
        lemma_prices_add_up(entries, more.drop_last(), price);
        assert((entries + more).drop_last() =~= entries + more.drop_last());
        assert((entries + more).last() == more.last());
    }
}

} // verus!
