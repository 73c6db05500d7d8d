//! Inputs that were built once, kept until the data they were built from moves.
use std::sync::Arc;
use vstd::prelude::*;
use crate::recency::Key;
use crate::table::{row_map, Table};

verus! {

/// Built inputs by key, all of one generation.
#[derive(Debug)]
pub struct JobMemo<K, V> {
    generation: u64,
    rows: Table<K, Arc<V>>,
    retired: Vec<Arc<V>>,
}

impl<K: Key, V> JobMemo<K, V> {
    pub closed spec fn wf(&self) -> bool {
        self.rows.wf()
    }

    /// The generation the rows are of.
    pub closed spec fn generation(&self) -> u64 {
        self.generation
    }

    /// The rows in the order their keys came.
    pub closed spec fn shelf(&self) -> Seq<(K, Arc<V>)> {
        self.rows.rows()
    }

    /// The rows.
    pub open spec fn rows(&self) -> Map<K, Arc<V>> {
        row_map(self.shelf())
    }

    /// The inputs that wait to be freed.
    pub closed spec fn retired(&self) -> Seq<Arc<V>> {
        self.retired@
    }

    /// The inputs that wait to be freed once the rows join them.
    pub open spec fn cleared(&self) -> Seq<Arc<V>> {
        self.retired() + self.shelf().map_values(|row: (K, Arc<V>)| row.1)
    }

    pub fn new() -> (memo: JobMemo<K, V>)
        ensures
            memo.wf(),
            memo.generation() == 0,
            memo.rows() == Map::<K, Arc<V>>::empty(),
            memo.retired() == Seq::<Arc<V>>::empty(),
    {
        JobMemo { generation: 0, rows: Table::new(), retired: Vec::new() }
    }

    /// The input held for a key, where the rows are of this generation.
    pub open spec fn hit(&self, generation: u64, key: K) -> Option<Arc<V>> {
        if self.generation() == generation && self.rows().contains_key(key) {
            Some(self.rows()[key])
        } else {
            None
        }
    }

    pub fn lookup(&self, generation: u64, key: &K) -> (row: Option<Arc<V>>)
        requires
            self.wf(),
        ensures
            row == self.hit(generation, *key),
    {
        if self.generation != generation {
            return None;
        }
        match self.rows.get(key) {
            Some(row) => Some(Arc::clone(row)),
            None => None,
        }
    }

    /// Sets the rows aside to be freed elsewhere.
    pub fn retire_live_rows(&mut self)
        requires
            old(self).wf(),
        ensures
            final(self).wf(),
            final(self).generation() == old(self).generation(),
            final(self).rows() == Map::<K, Arc<V>>::empty(),
            final(self).retired() == old(self).cleared(),
    {
        let ghost waiting = self.retired@;
        let ghost shelf = self.rows.rows();
        let mut at: usize = 0;
        assert(waiting + shelf.take(0).map_values(|row: (K, Arc<V>)| row.1) =~= waiting);
        while at < self.rows.len()
            invariant
                self.rows.wf(),
                self.rows.rows() == shelf,
                self.generation == old(self).generation,
                at <= shelf.len(),
                self.retired@ == waiting + shelf.take(at as int).map_values(
                    |row: (K, Arc<V>)| row.1,
                ),
            decreases shelf.len() - at,
        {
            let row = Arc::clone(&self.rows.row(at).1);
            self.retired.push(row);
            at = at + 1;
            assert(self.retired@ =~= waiting + shelf.take(at as int).map_values(
                |row: (K, Arc<V>)| row.1,
            ));
        }
        assert(shelf.take(at as int) =~= shelf);
        self.rows.clear();
    }

    /// Keeps an input that was built for a key. Rows of another generation are
    /// set aside first: they were built from data that has moved.
    pub fn store(&mut self, generation: u64, key: K, input: Arc<V>)
        requires
            old(self).wf(),
        ensures
            final(self).wf(),
            final(self).generation() == generation,
            final(self).rows() == (if old(self).generation() == generation {
                old(self).rows()
            } else {
                Map::empty()
            }).insert(key, input),
            final(self).hit(generation, key) == Some(input),
            final(self).retired() == (if old(self).generation() == generation {
                old(self).retired()
            } else {
                old(self).cleared()
            }),
    {
        self.turn_to(generation);
        self.rows.insert(key, input);
    }

    /// Turns to a generation, setting rows of another aside.
    pub fn turn_to(&mut self, generation: u64)
        requires
            old(self).wf(),
        ensures
            final(self).wf(),
            final(self).generation() == generation,
            final(self).rows() == (if old(self).generation() == generation {
                old(self).rows()
            } else {
                Map::empty()
            }),
            final(self).retired() == (if old(self).generation() == generation {
                old(self).retired()
            } else {
                old(self).cleared()
            }),
    {
        if self.generation != generation {
            self.retire_live_rows();
            self.generation = generation;
        }
    }

    /// The inputs that wait to be freed, handed over.
    pub fn take_retired(&mut self) -> (retired: Vec<Arc<V>>)
        requires
            old(self).wf(),
        ensures
            final(self).wf(),
            final(self).generation() == old(self).generation(),
            final(self).rows() == old(self).rows(),
            final(self).retired() == Seq::<Arc<V>>::empty(),
            retired@ == old(self).retired(),
    {
        let mut retired: Vec<Arc<V>> = Vec::new();
        std::mem::swap(&mut retired, &mut self.retired);
        retired
    }
}

/// An input is handed out for the key it was built for and while the data it was
/// built from has not moved, and never otherwise.
pub proof fn law_a_hit_is_of_this_generation<K: Key, V>(
    memo: JobMemo<K, V>,
    generation: u64,
    key: K,
    at: int,
)
    requires
        memo.wf(),
        0 <= at < memo.shelf().len(),
        memo.shelf()[at].0 == key,
    ensures
        memo.generation() != generation ==> memo.hit(generation, key) is None,
        memo.generation() == generation ==> memo.hit(generation, key) == Some(memo.shelf()[at].1),
{
    let rows = memo.shelf();
    let i = choose|i: int| 0 <= i < rows.len() && (#[trigger] rows[i]).0 == key;
    assert(rows[at].0 == key);
}

} // verus!
