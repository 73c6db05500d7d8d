//! A small map held as a list: a key appears once, and the list keeps the order
//! keys came in.
use vstd::prelude::*;
use crate::recency::Key;

verus! {

/// Values by key.
#[derive(Debug)]
pub struct Table<K, V> {
    rows: Vec<(K, V)>,
}

/// No key has two rows.
pub open spec fn rows_once<K, V>(rows: Seq<(K, V)>) -> bool {
    forall|i: int, j: int|
        0 <= i < j < rows.len() ==> (#[trigger] rows[i]).0 != (#[trigger] rows[j]).0
}

/// The rows as a map.
pub open spec fn row_map<K, V>(rows: Seq<(K, V)>) -> Map<K, V> {
    Map::new(
        |key: K| exists|i: int| 0 <= i < rows.len() && (#[trigger] rows[i]).0 == key,
        |key: K| rows[choose|i: int| 0 <= i < rows.len() && (#[trigger] rows[i]).0 == key].1,
    )
}

proof fn lemma_row<K, V>(rows: Seq<(K, V)>, at: int)
    requires
        rows_once(rows),
        0 <= at < rows.len(),
    ensures
        row_map(rows).contains_key(rows[at].0),
        row_map(rows)[rows[at].0] == rows[at].1,
{
    let key = rows[at].0;
    let i = choose|i: int| 0 <= i < rows.len() && (#[trigger] rows[i]).0 == key;
    assert(0 <= i < rows.len() && rows[i].0 == key);
}

impl<K, V> View for Table<K, V> {
    type V = Map<K, V>;

    open spec fn view(&self) -> Map<K, V> {
        row_map(self.rows())
    }
}

impl<K, V> Table<K, V> {
    /// The rows in the order their keys came.
    pub closed spec fn rows(&self) -> Seq<(K, V)> {
        self.rows@
    }
}

impl<K: Key, V> Table<K, V> {
    /// No key has two rows.
    pub open spec fn wf(&self) -> bool {
        rows_once(self.rows())
    }

    pub fn new() -> (table: Table<K, V>)
        ensures
            table.wf(),
            table@ == Map::<K, V>::empty(),
            table.rows() == Seq::<(K, V)>::empty(),
    {
        let table = Table { rows: Vec::new() };
        assert(row_map(table.rows()) =~= Map::empty());
        table
    }

    pub fn len(&self) -> (len: usize)
        ensures
            len == self.rows().len(),
    {
        self.rows.len()
    }

    /// The row at a position.
    pub fn row(&self, at: usize) -> (row: &(K, V))
        requires
            self.wf(),
            at < self.rows().len(),
        ensures
            *row == self.rows()[at as int],
            self@.contains_key(row.0),
            self@[row.0] == row.1,
    {
        proof {
            lemma_row(self.rows(), at as int);
        }
        &self.rows[at]
    }

    fn find(&self, key: &K) -> (at: Option<usize>)
        requires
            self.wf(),
        ensures
            match at {
                Some(i) => {
                    &&& i < self.rows().len()
                    &&& self.rows()[i as int].0 == *key
                    &&& self@.contains_key(*key)
                    &&& self@[*key] == self.rows()[i as int].1
                },
                None => !self@.contains_key(*key),
            },
    {
        let mut at: usize = 0;
        while at < self.rows.len()
            invariant
                at <= self.rows@.len(),
                self.wf(),
                forall|i: int| 0 <= i < at ==> (#[trigger] self.rows@[i]).0 != *key,
            decreases self.rows@.len() - at,
        {
            if self.rows[at].0.same(key) {
                proof {
                    lemma_row(self.rows(), at as int);
                }
                return Some(at);
            }
            at = at + 1;
        }
        None
    }

    pub fn contains_key(&self, key: &K) -> (b: bool)
        requires
            self.wf(),
        ensures
            b == self@.contains_key(*key),
    {
        self.find(key).is_some()
    }

    pub fn get(&self, key: &K) -> (value: Option<&V>)
        requires
            self.wf(),
        ensures
            match value {
                Some(v) => self@.contains_key(*key) && self@[*key] == *v,
                None => !self@.contains_key(*key),
            },
    {
        match self.find(key) {
            Some(at) => Some(&self.rows[at].1),
            None => None,
        }
    }

    /// Gives a key a value, in place of the one it had.
    pub fn insert(&mut self, key: K, value: V)
        requires
            old(self).wf(),
        ensures
            final(self).wf(),
            final(self)@ == old(self)@.insert(key, value),
    {
        let ghost before = self.rows@;
        match self.find(&key) {
            Some(at) => {
                self.rows.set(at, (key, value));
                proof {
                    lemma_replaced(before, at as int, (key, value));
                }
            },
            None => {
                self.rows.push((key, value));
                proof {
                    lemma_pushed(before, (key, value));
                }
            },
        }
    }

    /// Takes a key's row out.
    pub fn remove(&mut self, key: &K)
        requires
            old(self).wf(),
        ensures
            final(self).wf(),
            final(self)@ == old(self)@.remove(*key),
    {
        let ghost before = self.rows@;
        match self.find(key) {
            Some(at) => {
                self.rows.remove(at);
                proof {
                    lemma_taken(before, at as int);
                }
            },
            None => {
                assert(self@ =~= self@.remove(*key));
            },
        }
    }

    /// Keeps the rows whose keys are listed.
    pub fn retain_listed(&mut self, keys: &Vec<K>)
        requires
            old(self).wf(),
        ensures
            final(self).wf(),
            final(self)@ == old(self)@.restrict(Set::new(|key: K| keys@.contains(key))),
    {
        let ghost wanted = Set::new(|key: K| keys@.contains(key));
        let ghost before = self@;
        let mut at: usize = 0;
        while at < self.rows.len()
            invariant
                at <= self.rows@.len(),
                self.wf(),
                wanted == Set::new(|key: K| keys@.contains(key)),
                self@.restrict(wanted) == before.restrict(wanted),
                forall|i: int| 0 <= i < at ==> wanted.contains((#[trigger] self.rows@[i]).0),
            decreases self.rows@.len() - at,
        {
            if crate::recency::lists(keys, &self.rows[at].0) {
                at = at + 1;
            } else {
                let ghost rows = self.rows@;
                let ghost key = rows[at as int].0;
                self.rows.remove(at);
                proof {
                    lemma_taken(rows, at as int);
                    assert(self@.restrict(wanted) =~= before.restrict(wanted));
                }
            }
        }
        assert(self@ =~= self@.restrict(wanted));
    }

    pub fn clear(&mut self)
        ensures
            final(self).wf(),
            final(self)@ == Map::<K, V>::empty(),
    {
        self.rows.clear();
        assert(row_map(self.rows()) =~= Map::empty());
    }
}

proof fn lemma_replaced<K, V>(rows: Seq<(K, V)>, at: int, row: (K, V))
    requires
        rows_once(rows),
        0 <= at < rows.len(),
        rows[at].0 == row.0,
    ensures
        rows_once(rows.update(at, row)),
        row_map(rows.update(at, row)) == row_map(rows).insert(row.0, row.1),
{
    let after = rows.update(at, row);
    assert(rows_once(after)) by {
        assert forall|i: int, j: int| 0 <= i < j < after.len() implies (#[trigger] after[i]).0 != (
        #[trigger] after[j]).0 by {
            assert(rows[i].0 != rows[j].0);
        }
    }
    assert forall|key: K| row_map(after).contains_key(key) == row_map(rows).insert(
        row.0,
        row.1,
    ).contains_key(key) by {
        if row_map(after).contains_key(key) {
            let i = choose|i: int| 0 <= i < after.len() && (#[trigger] after[i]).0 == key;
            assert(rows[i].0 == key);
        }
        if row_map(rows).contains_key(key) {
            let i = choose|i: int| 0 <= i < rows.len() && (#[trigger] rows[i]).0 == key;
            assert(after[i].0 == key);
        }
        if key == row.0 {
            assert(after[at].0 == key);
        }
    }
    assert forall|key: K| row_map(after).contains_key(key) implies #[trigger] row_map(after)[key]
        == row_map(rows).insert(row.0, row.1)[key] by {
        let i = choose|i: int| 0 <= i < after.len() && (#[trigger] after[i]).0 == key;
        lemma_row(after, i);
        lemma_row(rows, i);
        if i != at {
            assert(rows[i].0 != rows[at].0);
        }
    }
    assert(row_map(after) =~= row_map(rows).insert(row.0, row.1));
}

proof fn lemma_pushed<K, V>(rows: Seq<(K, V)>, row: (K, V))
    requires
        rows_once(rows),
        !row_map(rows).contains_key(row.0),
    ensures
        rows_once(rows.push(row)),
        row_map(rows.push(row)) == row_map(rows).insert(row.0, row.1),
{
    let after = rows.push(row);
    assert(rows_once(after)) by {
        assert forall|i: int, j: int| 0 <= i < j < after.len() implies (#[trigger] after[i]).0 != (
        #[trigger] after[j]).0 by {
            if j == rows.len() {
                assert(rows[i] == after[i]);
            } else {
                assert(rows[i].0 != rows[j].0);
            }
        }
    }
    assert forall|key: K| row_map(after).contains_key(key) == row_map(rows).insert(
        row.0,
        row.1,
    ).contains_key(key) by {
        if row_map(after).contains_key(key) {
            let i = choose|i: int| 0 <= i < after.len() && (#[trigger] after[i]).0 == key;
            if i < rows.len() {
                assert(rows[i].0 == key);
            }
        }
        if row_map(rows).contains_key(key) {
            let i = choose|i: int| 0 <= i < rows.len() && (#[trigger] rows[i]).0 == key;
            assert(after[i].0 == key);
        }
        if key == row.0 {
            assert(after[rows.len() as int].0 == key);
        }
    }
    assert forall|key: K| row_map(after).contains_key(key) implies #[trigger] row_map(after)[key]
        == row_map(rows).insert(row.0, row.1)[key] by {
        let i = choose|i: int| 0 <= i < after.len() && (#[trigger] after[i]).0 == key;
        lemma_row(after, i);
        if i < rows.len() {
            lemma_row(rows, i);
        }
    }
    assert(row_map(after) =~= row_map(rows).insert(row.0, row.1));
}

proof fn lemma_taken<K, V>(rows: Seq<(K, V)>, at: int)
    requires
        rows_once(rows),
        0 <= at < rows.len(),
    ensures
        rows_once(rows.remove(at)),
        row_map(rows.remove(at)) == row_map(rows).remove(rows[at].0),
{
    let after = rows.remove(at);
    assert(rows_once(after)) by {
        assert forall|i: int, j: int| 0 <= i < j < after.len() implies (#[trigger] after[i]).0 != (
        #[trigger] after[j]).0 by {
            let p = if i < at {
                i
            } else {
                i + 1
            };
            let q = if j < at {
                j
            } else {
                j + 1
            };
            assert(rows[p].0 != rows[q].0);
        }
    }
    assert forall|key: K| row_map(after).contains_key(key) == row_map(rows).remove(
        rows[at].0,
    ).contains_key(key) by {
        if row_map(after).contains_key(key) {
            let i = choose|i: int| 0 <= i < after.len() && (#[trigger] after[i]).0 == key;
            let p = if i < at {
                i
            } else {
                i + 1
            };
            assert(rows[p].0 == key);
            assert(rows[p].0 != rows[at].0);
        }
        if row_map(rows).contains_key(key) && key != rows[at].0 {
            let i = choose|i: int| 0 <= i < rows.len() && (#[trigger] rows[i]).0 == key;
            let p = if i < at {
                i
            } else {
                i - 1
            };
            assert(after[p].0 == key);
        }
    }
    assert forall|key: K| row_map(after).contains_key(key) implies #[trigger] row_map(after)[key]
        == row_map(rows).remove(rows[at].0)[key] by {
        let i = choose|i: int| 0 <= i < after.len() && (#[trigger] after[i]).0 == key;
        lemma_row(after, i);
        lemma_row(
            rows,
            if i < at {
                i
            } else {
                i + 1
            },
        );
    }
    assert(row_map(after) =~= row_map(rows).remove(rows[at].0));
}

} // verus!
