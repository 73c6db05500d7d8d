//! The objects listed for a product, by the instant each depicts.
use vstd::prelude::*;
use crate::frames::{ordered, FrameStamp};
use crate::instant::Instant;

verus! {

/// Listed objects, from the earliest on.
#[derive(Debug)]
pub struct StampLog {
    rows: Vec<(Instant, String)>,
}

/// The rows with one put where it belongs, in place of one of the same instant.
pub open spec fn logged(
    rows: Seq<(Instant, Seq<char>)>,
    valid: Instant,
    object: Seq<char>,
) -> Seq<(Instant, Seq<char>)>
    decreases rows.len(),
{
    if rows.len() == 0 || rows.last().0.before(valid) {
        rows.push((valid, object))
    } else if rows.last().0 == valid {
        rows.drop_last().push((valid, object))
    } else {
        logged(rows.drop_last(), valid, object).push(rows.last())
    }
}

/// The rows with some more put where they belong, one after the other.
pub open spec fn logged_all(
    rows: Seq<(Instant, Seq<char>)>,
    more: Seq<(Instant, Seq<char>)>,
) -> Seq<(Instant, Seq<char>)>
    decreases more.len(),
{
    if more.len() == 0 {
        rows
    } else {
        let (valid, object) = more.last();
        logged(logged_all(rows, more.drop_last()), valid, object)
    }
}

/// Whether rows are each of an instant of its own, from the earliest on.
pub open spec fn rows_ascend(rows: Seq<(Instant, Seq<char>)>) -> bool {
    forall|i: int, j: int|
        0 <= i < j < rows.len() ==> (#[trigger] rows[i]).0.before((#[trigger] rows[j]).0)
}

/// The frames of rows. An observed mosaic has no run.
pub open spec fn stamps_of(rows: Seq<(Instant, Seq<char>)>) -> Seq<FrameStamp> {
    rows.map_values(|row: (Instant, Seq<char>)| FrameStamp { valid: row.0, run: None })
}

/// The object of an instant.
pub open spec fn object_at(rows: Seq<(Instant, Seq<char>)>, valid: Instant) -> Option<Seq<char>>
    decreases rows.len(),
{
    if rows.len() == 0 {
        None
    } else if rows.last().0 == valid {
        Some(rows.last().1)
    } else {
        object_at(rows.drop_last(), valid)
    }
}

proof fn lemma_logged(rows: Seq<(Instant, Seq<char>)>, valid: Instant, object: Seq<char>)
    requires
        rows_ascend(rows),
    ensures
        rows_ascend(logged(rows, valid, object)),
        forall|i: int|
            0 <= i < logged(rows, valid, object).len() ==> (#[trigger] logged(
                rows,
                valid,
                object,
            )[i]).0 == valid || rows.contains(logged(rows, valid, object)[i]),
    decreases rows.len(),
{
    let after = logged(rows, valid, object);
    if rows.len() == 0 || rows.last().0.before(valid) {
        assert forall|i: int, j: int| 0 <= i < j < after.len() implies (
        #[trigger] after[i]).0.before((#[trigger] after[j]).0) by {
            if j == rows.len() {
                assert(rows[i] == after[i]);
                if i < rows.len() - 1 {
                    assert(rows[i].0.before(rows[rows.len() - 1].0));
                }
            } else {
                assert(rows[i].0.before(rows[j].0));
            }
        }
        assert forall|i: int| 0 <= i < after.len() implies (#[trigger] after[i]).0 == valid
            || rows.contains(after[i]) by {
            if i < rows.len() {
                assert(rows[i] == after[i]);
            }
        }
    } else if rows.last().0 == valid {
        let shorter = rows.drop_last();
        assert forall|i: int, j: int| 0 <= i < j < after.len() implies (
        #[trigger] after[i]).0.before((#[trigger] after[j]).0) by {
            assert(rows[i].0.before(rows[j].0));
            assert(after[i] == rows[i]);
        }
        assert forall|i: int| 0 <= i < after.len() implies (#[trigger] after[i]).0 == valid
            || rows.contains(after[i]) by {
            if i < shorter.len() {
                assert(rows[i] == after[i]);
            }
        }
    } else {
        let shorter = rows.drop_last();
        lemma_logged(shorter, valid, object);
        let inner = logged(shorter, valid, object);
        assert forall|i: int| 0 <= i < inner.len() implies (#[trigger] inner[i]).0.before(
            rows.last().0,
        ) by {
            if inner[i].0 != valid {
                let k = shorter.index_of(inner[i]);
                assert(rows[k].0.before(rows[rows.len() - 1].0));
            }
        }
        assert forall|i: int| 0 <= i < after.len() implies (#[trigger] after[i]).0 == valid
            || rows.contains(after[i]) by {
            if i < inner.len() {
                assert(after[i] == inner[i]);
                if inner[i].0 != valid {
                    let k = shorter.index_of(inner[i]);
                    assert(rows[k] == inner[i]);
                }
            } else {
                assert(rows[rows.len() - 1] == after[i]);
            }
        }
    }
}

/// A listed object is found under its instant, and no other instant's object is
/// moved.
pub proof fn law_log_finds_what_was_put(
    rows: Seq<(Instant, Seq<char>)>,
    valid: Instant,
    object: Seq<char>,
    other: Instant,
)
    requires
        rows_ascend(rows),
    ensures
        object_at(logged(rows, valid, object), other) == (if other == valid {
            Some(object)
        } else {
            object_at(rows, other)
        }),
    decreases rows.len(),
{
    let after = logged(rows, valid, object);
    if rows.len() == 0 || rows.last().0.before(valid) {
        assert(after.drop_last() =~= rows);
    } else if rows.last().0 == valid {
        assert(after.drop_last() =~= rows.drop_last());
    } else {
        let shorter = rows.drop_last();
        assert(rows_ascend(shorter)) by {
            assert forall|i: int, j: int| 0 <= i < j < shorter.len() implies (
            #[trigger] shorter[i]).0.before((#[trigger] shorter[j]).0) by {
                assert(rows[i].0.before(rows[j].0));
            }
        }
        law_log_finds_what_was_put(shorter, valid, object, other);
        assert(after.drop_last() =~= logged(shorter, valid, object));
    }
}

/// What is listed runs from the earliest on.
pub proof fn law_listed_frames_ascend(rows: Seq<(Instant, Seq<char>)>)
    requires
        rows_ascend(rows),
    ensures
        ordered(stamps_of(rows)),
{
    let frames = stamps_of(rows);
    assert forall|i: int, j: int| 0 <= i <= j < frames.len() implies (
    #[trigger] frames[i]).valid.not_after((#[trigger] frames[j]).valid) by {
        if i < j {
            assert(rows[i].0.before(rows[j].0));
        }
    }
}

impl StampLog {
    pub closed spec fn rows(&self) -> Seq<(Instant, Seq<char>)> {
        self.rows.deep_view()
    }

    pub open spec fn wf(&self) -> bool {
        rows_ascend(self.rows())
    }

    pub fn new() -> (log: StampLog)
        ensures
            log.wf(),
            log.rows() == Seq::<(Instant, Seq<char>)>::empty(),
    {
        let log = StampLog { rows: Vec::new() };
        assert(log.rows() =~= Seq::empty());
        log
    }

    pub fn len(&self) -> (len: usize)
        ensures
            len == self.rows().len(),
    {
        self.rows.len()
    }

    pub fn insert(&mut self, valid: Instant, object: &str)
        requires
            old(self).wf(),
        ensures
            final(self).wf(),
            final(self).rows() == logged(old(self).rows(), valid, object@),
    {
        let ghost before = self.rows.deep_view();
        proof {
            lemma_logged(before, valid, object@);
        }
        let mut slot: usize = self.rows.len();
        assert(before.take(slot as int) =~= before);
        assert(logged(before.take(slot as int), valid, object@) + before.skip(slot as int)
            =~= logged(before, valid, object@));
        while slot > 0 && valid.is_before(&self.rows[slot - 1].0)
            invariant
                slot <= before.len(),
                self.rows.deep_view() == before,
                self.rows@.len() == before.len(),
                logged(before, valid, object@) == logged(
                    before.take(slot as int),
                    valid,
                    object@,
                ) + before.skip(slot as int),
            decreases slot,
        {
            proof {
                let shorter = before.take(slot as int);
                assert(before[slot - 1].0 == self.rows@[slot - 1].0);
                assert(shorter.drop_last() =~= before.take(slot - 1));
                assert(before.skip(slot - 1) =~= seq![before[slot - 1]] + before.skip(slot as int));
                assert(logged(shorter, valid, object@) + before.skip(slot as int) =~= logged(
                    before.take(slot - 1),
                    valid,
                    object@,
                ) + before.skip(slot - 1));
            }
            slot = slot - 1;
        }
        let ghost head = before.take(slot as int);
        if slot > 0 && self.rows[slot - 1].0 == valid {
            self.rows.set(slot - 1, (valid, object.to_owned()));
            proof {
                assert(before[slot - 1].0 == valid);
                assert(self.rows.deep_view() =~= head.drop_last().push((valid, object@))
                    + before.skip(slot as int));
            }
        } else {
            proof {
                if slot > 0 {
                    assert(before[slot - 1].0 == self.rows@[slot - 1].0);
                    assert(head.last() == before[slot - 1]);
                }
            }
            self.rows.insert(slot, (valid, object.to_owned()));
            proof {
                assert(self.rows.deep_view() =~= head.push((valid, object@)) + before.skip(
                    slot as int,
                ));
            }
        }
    }

    /// The object of an instant.
    pub fn get(&self, valid: &Instant) -> (object: Option<&str>)
        ensures
            match object {
                Some(o) => object_at(self.rows(), *valid) == Some(o@),
                None => object_at(self.rows(), *valid) is None,
            },
    {
        let ghost all = self.rows();
        let mut at: usize = self.rows.len();
        assert(all.take(at as int) =~= all);
        while at > 0
            invariant
                at <= all.len(),
                all == self.rows.deep_view(),
                all == self.rows(),
                self.rows@.len() == all.len(),
                object_at(all, *valid) == object_at(all.take(at as int), *valid),
            decreases at,
        {
            proof {
                assert(all.take(at as int).last() == all[at - 1]);
                assert(all.take(at as int).drop_last() =~= all.take(at - 1));
                assert(all[at - 1] == self.rows@[at - 1].deep_view());
            }
            if self.rows[at - 1].0 == *valid {
                return Some(self.rows[at - 1].1.as_str());
            }
            at = at - 1;
        }
        None
    }

    /// The frames listed.
    pub fn stamps(&self) -> (frames: Vec<FrameStamp>)
        ensures
            frames@ == stamps_of(self.rows()),
    {
        let ghost wanted = stamps_of(self.rows());
        let mut frames: Vec<FrameStamp> = Vec::new();
        let mut at: usize = 0;
        while at < self.rows.len()
            invariant
                at <= self.rows@.len(),
                self.rows@.len() == self.rows().len(),
                self.rows() == self.rows.deep_view(),
                wanted == stamps_of(self.rows()),
                frames@ == wanted.take(at as int),
            decreases self.rows@.len() - at,
        {
            frames.push(FrameStamp { valid: self.rows[at].0, run: None });
            at = at + 1;
            assert(frames@ =~= wanted.take(at as int));
        }
        assert(wanted.take(at as int) =~= wanted);
        frames
    }
}

/// The object of an instant is the one that a row of that instant names, and an
/// instant without a row has none.
pub proof fn law_an_object_is_a_rows(rows: Seq<(Instant, Seq<char>)>, valid: Instant)
    requires
        rows_ascend(rows),
    ensures
        forall|i: int|
            0 <= i < rows.len() && (#[trigger] rows[i]).0 == valid ==> object_at(rows, valid)
                == Some(rows[i].1),
        (forall|i: int| 0 <= i < rows.len() ==> (#[trigger] rows[i]).0 != valid) ==> object_at(
            rows,
            valid,
        ) is None,
    decreases rows.len(),
{
    if rows.len() > 0 {
        let shorter = rows.drop_last();
        assert(rows[rows.len() - 1] == rows.last());
        assert forall|i: int, j: int| 0 <= i < j < shorter.len() implies (
        #[trigger] shorter[i]).0.before((#[trigger] shorter[j]).0) by {
            assert(rows[i].0.before(rows[j].0));
        }
        law_an_object_is_a_rows(shorter, valid);
        assert(forall|i: int| 0 <= i < shorter.len() ==> #[trigger] rows[i] == shorter[i]);
        assert forall|i: int| 0 <= i < rows.len() && (#[trigger] rows[i]).0 == valid implies object_at(
            rows,
            valid,
        ) == Some(rows[i].1) by {
            if i < shorter.len() {
                assert(rows[i].0.before(rows[rows.len() - 1].0));
                assert(shorter[i] == rows[i]);
            }
        }
    }
}

/// A listing adds to what was known: the object of an instant is the last that the
/// listing gives for it, and one it does not name keeps the object it had. No
/// instant that was listed is dropped, and none is made up.
pub proof fn law_a_listing_adds_to_what_is_known(
    rows: Seq<(Instant, Seq<char>)>,
    more: Seq<(Instant, Seq<char>)>,
    valid: Instant,
)
    requires
        rows_ascend(rows),
    ensures
        rows_ascend(logged_all(rows, more)),
        forall|i: int|
            0 <= i < more.len() && (#[trigger] more[i]).0 == valid && (forall|j: int|
                i < j < more.len() ==> (#[trigger] more[j]).0 != valid) ==> object_at(
                logged_all(rows, more),
                valid,
            ) == Some(more[i].1),
        (forall|i: int| 0 <= i < more.len() ==> (#[trigger] more[i]).0 != valid) ==> object_at(
            logged_all(rows, more),
            valid,
        ) == object_at(rows, valid),
        stamps_of(logged_all(rows, more)).contains(FrameStamp { valid, run: None }) == ((exists|
            i: int,
        |
            0 <= i < rows.len() && (#[trigger] rows[i]).0 == valid) || (exists|i: int|
            0 <= i < more.len() && (#[trigger] more[i]).0 == valid)),
    decreases more.len(),
{
    let after = logged_all(rows, more);
    if more.len() > 0 {
        let fewer = more.drop_last();
        let before = logged_all(rows, fewer);
        let last = more[more.len() - 1];
        law_a_listing_adds_to_what_is_known(rows, fewer, valid);
        lemma_logged(before, last.0, last.1);
        law_log_finds_what_was_put(before, last.0, last.1, valid);
        assert(forall|i: int| 0 <= i < fewer.len() ==> #[trigger] more[i] == fewer[i]);
        assert forall|i: int|
            0 <= i < more.len() && (#[trigger] more[i]).0 == valid && (forall|j: int|
                i < j < more.len() ==> (#[trigger] more[j]).0 != valid) implies object_at(
            after,
            valid,
        ) == Some(more[i].1) by {
            if i < fewer.len() {
                assert(more[more.len() - 1].0 != valid);
                assert(fewer[i].0 == valid);
                assert forall|j: int| i < j < fewer.len() implies (#[trigger] fewer[j]).0
                    != valid by {
                    assert(more[j].0 != valid);
                }
            }
        }
        if forall|i: int| 0 <= i < more.len() ==> (#[trigger] more[i]).0 != valid {
            assert forall|i: int| 0 <= i < fewer.len() implies (#[trigger] fewer[i]).0 != valid by {
                assert(more[i].0 != valid);
            }
        }
        lemma_stamped(before, valid);
        if exists|i: int| 0 <= i < fewer.len() && (#[trigger] fewer[i]).0 == valid {
            let i = choose|i: int| 0 <= i < fewer.len() && (#[trigger] fewer[i]).0 == valid;
            assert(more[i].0 == valid);
        }
        if exists|i: int| 0 <= i < more.len() && (#[trigger] more[i]).0 == valid {
            let i = choose|i: int| 0 <= i < more.len() && (#[trigger] more[i]).0 == valid;
            if i < fewer.len() {
                assert(fewer[i].0 == valid);
            }
        }
    }
    lemma_stamped(after, valid);
    if exists|i: int| 0 <= i < after.len() && (#[trigger] after[i]).0 == valid {
        let i = choose|i: int| 0 <= i < after.len() && (#[trigger] after[i]).0 == valid;
        assert(after[i].0 == valid);
    }
}

/// An instant is among the frames exactly where it has an object.
proof fn lemma_stamped(rows: Seq<(Instant, Seq<char>)>, valid: Instant)
    requires
        rows_ascend(rows),
    ensures
        stamps_of(rows).contains(FrameStamp { valid, run: None }) == (object_at(
            rows,
            valid,
        ) is Some),
        (object_at(rows, valid) is Some) == exists|i: int|
            0 <= i < rows.len() && (#[trigger] rows[i]).0 == valid,
{
    law_an_object_is_a_rows(rows, valid);
    let stamp = FrameStamp { valid, run: None };
    if stamps_of(rows).contains(stamp) {
        let i = stamps_of(rows).index_of(stamp);
        assert(rows[i].0 == valid);
    }
    if exists|i: int| 0 <= i < rows.len() && (#[trigger] rows[i]).0 == valid {
        let i = choose|i: int| 0 <= i < rows.len() && (#[trigger] rows[i]).0 == valid;
        assert(stamps_of(rows)[i] == stamp);
    }
}

/// There is one frame for each row, of the row's instant and of no run.
pub proof fn law_every_row_is_a_frame(rows: Seq<(Instant, Seq<char>)>)
    ensures
        stamps_of(rows).len() == rows.len(),
        forall|i: int|
            0 <= i < rows.len() ==> (#[trigger] stamps_of(rows)[i]).valid == rows[i].0 && stamps_of(
                rows,
            )[i].run is None,
{
}

} // verus!
