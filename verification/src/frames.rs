//! Series of stamped frames: clipping them to a window, ordering them, and
//! finding the one an instant shows.
use vstd::prelude::*;
use crate::instant::Instant;

verus! {

/// One frame of a series: the instant it depicts, and the run it comes from
/// where its source has runs.
#[derive(Clone, Copy, Debug, PartialEq, Eq, Structural)]
pub struct FrameStamp {
    pub valid: Instant,
    pub run: Option<Instant>,
}

/// The frames of a window, and whether they are known to be all there are.
#[derive(Debug)]
pub struct FrameListing {
    pub range: (Instant, Instant),
    pub frames: Vec<FrameStamp>,
    pub complete: bool,
}

/// Whether an instant is in a window, either end counted in.
pub open spec fn within(range: (Instant, Instant), t: Instant) -> bool {
    range.0.not_after(t) && t.not_after(range.1)
}

pub fn is_within(range: &(Instant, Instant), t: &Instant) -> (b: bool)
    ensures
        b == within(*range, *t),
{
    range.0.is_not_after(t) && t.is_not_after(&range.1)
}

/// Whether a window holds another.
pub open spec fn spans(window: (Instant, Instant), range: (Instant, Instant)) -> bool {
    window.0.not_after(range.0) && range.1.not_after(window.1)
}

/// Whether one of some windows holds a range.
pub open spec fn any_spans(windows: Seq<(Instant, Instant)>, range: (Instant, Instant)) -> bool {
    exists|i: int| 0 <= i < windows.len() && spans(#[trigger] windows[i], range)
}

pub fn is_spanned(windows: &Vec<(Instant, Instant)>, range: &(Instant, Instant)) -> (b: bool)
    ensures
        b == any_spans(windows@, *range),
{
    let mut at: usize = 0;
    while at < windows.len()
        invariant
            at <= windows@.len(),
            forall|i: int| 0 <= i < at ==> !spans(#[trigger] windows@[i], *range),
        decreases windows@.len() - at,
    {
        if windows[at].0.is_not_after(&range.0) && range.1.is_not_after(&windows[at].1) {
            assert(spans(windows@[at as int], *range));
            return true;
        }
        at = at + 1;
    }
    false
}

pub proof fn lemma_one_more_window(
    windows: Seq<(Instant, Instant)>,
    window: (Instant, Instant),
    range: (Instant, Instant),
)
    ensures
        any_spans(windows.push(window), range) == (any_spans(windows, range)
            || spans(window, range)),
{
    let more = windows.push(window);
    assert(more[windows.len() as int] == window);
    if any_spans(windows, range) {
        let i = choose|i: int|
            0 <= i < windows.len() && spans(#[trigger] windows[i], range);
        assert(more[i] == windows[i]);
    }
    if any_spans(more, range) {
        let i = choose|i: int|
            0 <= i < more.len() && spans(#[trigger] more[i], range);
        if i < windows.len() {
            assert(more[i] == windows[i]);
        }
    }
}

pub proof fn lemma_wider_window_spans(
    windows: Seq<(Instant, Instant)>,
    window: (Instant, Instant),
    range: (Instant, Instant),
)
    requires
        any_spans(windows, window),
        spans(window, range),
    ensures
        any_spans(windows, range),
{
    let i = choose|i: int|
        0 <= i < windows.len() && spans(#[trigger] windows[i], window);
    assert(spans(windows[i], range));
}

/// The frames of a window, in their order.
pub open spec fn clipped(frames: Seq<FrameStamp>, range: (Instant, Instant)) -> Seq<FrameStamp>
    decreases frames.len(),
{
    if frames.len() == 0 {
        Seq::empty()
    } else {
        let before = clipped(frames.drop_last(), range);
        if within(range, frames.last().valid) {
            before.push(frames.last())
        } else {
            before
        }
    }
}

pub fn clip(frames: &Vec<FrameStamp>, range: &(Instant, Instant)) -> (kept: Vec<FrameStamp>)
    ensures
        kept@ == clipped(frames@, *range),
{
    let mut kept: Vec<FrameStamp> = Vec::new();
    let mut at: usize = 0;
    while at < frames.len()
        invariant
            at <= frames@.len(),
            kept@ == clipped(frames@.take(at as int), *range),
        decreases frames@.len() - at,
    {
        assert(frames@.take(at + 1).drop_last() =~= frames@.take(at as int));
        if is_within(range, &frames[at].valid) {
            kept.push(frames[at]);
        }
        at = at + 1;
    }
    assert(frames@.take(at as int) =~= frames@);
    kept
}

/// Frames in order with one more put where it belongs, after its equals.
pub open spec fn slotted(frames: Seq<FrameStamp>, stamp: FrameStamp) -> Seq<FrameStamp>
    decreases frames.len(),
{
    if frames.len() == 0 || frames.last().valid.not_after(stamp.valid) {
        frames.push(stamp)
    } else {
        slotted(frames.drop_last(), stamp).push(frames.last())
    }
}

/// Frames from the earliest on; those of one instant keep their order.
pub open spec fn by_valid(frames: Seq<FrameStamp>) -> Seq<FrameStamp>
    decreases frames.len(),
{
    if frames.len() == 0 {
        Seq::empty()
    } else {
        slotted(by_valid(frames.drop_last()), frames.last())
    }
}

/// Frames from the earliest on.
pub fn sort_by_valid(frames: &Vec<FrameStamp>) -> (sorted: Vec<FrameStamp>)
    ensures
        sorted@ == by_valid(frames@),
{
    let mut sorted: Vec<FrameStamp> = Vec::new();
    let mut at: usize = 0;
    while at < frames.len()
        invariant
            at <= frames@.len(),
            sorted@ == by_valid(frames@.take(at as int)),
        decreases frames@.len() - at,
    {
        assert(frames@.take(at + 1).drop_last() =~= frames@.take(at as int));
        let stamp = frames[at];
        let ghost before = sorted@;
        let mut slot: usize = sorted.len();
        assert(before.take(slot as int) =~= before);
        assert(slotted(before.take(slot as int), stamp) + before.skip(slot as int) =~= slotted(
            before,
            stamp,
        ));
        while slot > 0 && !sorted[slot - 1].valid.is_not_after(&stamp.valid)
            invariant
                slot <= before.len(),
                sorted@ == before,
                slotted(before, stamp) == slotted(before.take(slot as int), stamp) + before.skip(
                    slot as int,
                ),
            decreases slot,
        {
            proof {
                let shorter = before.take(slot as int);
                assert(shorter.drop_last() =~= before.take(slot - 1));
                assert(before.skip(slot - 1) =~= seq![before[slot - 1]] + before.skip(slot as int));
                assert(slotted(shorter, stamp) + before.skip(slot as int) =~= slotted(
                    before.take(slot - 1),
                    stamp,
                ) + before.skip(slot - 1));
            }
            slot = slot - 1;
        }
        sorted.insert(slot, stamp);
        assert(sorted@ =~= before.take(slot as int).push(stamp) + before.skip(slot as int));
        at = at + 1;
    }
    assert(frames@.take(at as int) =~= frames@);
    sorted
}

/// Whether frames run from the earliest on.
pub open spec fn ordered(frames: Seq<FrameStamp>) -> bool {
    forall|i: int, j: int|
        0 <= i <= j < frames.len() ==> (#[trigger] frames[i]).valid.not_after(
            (#[trigger] frames[j]).valid,
        )
}

proof fn lemma_slotted(frames: Seq<FrameStamp>, stamp: FrameStamp)
    requires
        ordered(frames),
    ensures
        ordered(slotted(frames, stamp)),
        slotted(frames, stamp).len() == frames.len() + 1,
        slotted(frames, stamp).to_multiset() == frames.to_multiset().insert(stamp),
        forall|i: int|
            0 <= i <= frames.len() ==> (#[trigger] slotted(frames, stamp)[i]) == stamp
                || frames.contains(slotted(frames, stamp)[i]),
    decreases frames.len(),
{
    broadcast use vstd::seq_lib::group_to_multiset_ensures;

    if frames.len() == 0 || frames.last().valid.not_after(stamp.valid) {
        assert forall|i: int| 0 <= i < frames.len() implies (#[trigger] frames[i]).valid.not_after(
            stamp.valid,
        ) by {
            assert(frames[i].valid.not_after(frames[frames.len() - 1].valid));
        }
        assert forall|i: int| 0 <= i <= frames.len() implies (#[trigger] frames.push(stamp)[i])
            == stamp || frames.contains(frames.push(stamp)[i]) by {
            if i < frames.len() {
                assert(frames.push(stamp)[i] == frames[i]);
            }
        }
    } else {
        let shorter = frames.drop_last();
        let inner = slotted(shorter, stamp);
        lemma_slotted(shorter, stamp);
        assert(frames =~= shorter.push(frames.last()));
        let whole = inner.push(frames.last());
        assert forall|i: int| 0 <= i < inner.len() implies (#[trigger] inner[i]).valid.not_after(
            frames.last().valid,
        ) by {
            if inner[i] != stamp {
                let k = shorter.index_of(inner[i]);
                assert(frames[k].valid.not_after(frames[frames.len() - 1].valid));
            }
        }
        assert(ordered(whole));
        assert forall|i: int| 0 <= i <= frames.len() implies (#[trigger] whole[i]) == stamp
            || frames.contains(whole[i]) by {
            if i < inner.len() {
                assert(whole[i] == inner[i]);
                if inner[i] != stamp {
                    let k = shorter.index_of(inner[i]);
                    assert(frames[k] == inner[i]);
                }
            } else {
                assert(frames[frames.len() - 1] == whole[i]);
            }
        }
        assert(whole.to_multiset() =~= frames.to_multiset().insert(stamp));
    }
}

/// Ordering frames loses none and makes none up, and orders them.
pub proof fn law_ordering_keeps_frames(frames: Seq<FrameStamp>)
    ensures
        ordered(by_valid(frames)),
        by_valid(frames).len() == frames.len(),
        by_valid(frames).to_multiset() == frames.to_multiset(),
    decreases frames.len(),
{
    broadcast use vstd::seq_lib::group_to_multiset_ensures;

    if frames.len() > 0 {
        law_ordering_keeps_frames(frames.drop_last());
        lemma_slotted(by_valid(frames.drop_last()), frames.last());
        assert(frames =~= frames.drop_last().push(frames.last()));
    } else {
        assert(by_valid(frames) =~= frames);
    }
}

/// Frames without one that is the same as the one before it.
pub open spec fn deduped(frames: Seq<FrameStamp>) -> Seq<FrameStamp>
    decreases frames.len(),
{
    if frames.len() == 0 {
        Seq::empty()
    } else {
        let before = deduped(frames.drop_last());
        if before.len() > 0 && before.last() == frames.last() {
            before
        } else {
            before.push(frames.last())
        }
    }
}

/// Frames without one that is the same as the one before it.
pub fn dedup(frames: &Vec<FrameStamp>) -> (kept: Vec<FrameStamp>)
    ensures
        kept@ == deduped(frames@),
{
    let mut kept: Vec<FrameStamp> = Vec::new();
    let mut at: usize = 0;
    while at < frames.len()
        invariant
            at <= frames@.len(),
            kept@ == deduped(frames@.take(at as int)),
        decreases frames@.len() - at,
    {
        assert(frames@.take(at + 1).drop_last() =~= frames@.take(at as int));
        let n: usize = kept.len();
        if n == 0 || kept[n - 1] != frames[at] {
            kept.push(frames[at]);
        }
        at = at + 1;
    }
    assert(frames@.take(at as int) =~= frames@);
    kept
}

/// Where an instant names at most one frame, ordered frames without repeats are
/// each instant's one frame, strictly from the earliest on.
pub proof fn law_each_frame_once(frames: Seq<FrameStamp>)
    requires
        ordered(frames),
        forall|i: int, j: int|
            0 <= i < frames.len() && 0 <= j < frames.len() && (#[trigger] frames[i]).valid == (
            #[trigger] frames[j]).valid ==> frames[i] == frames[j],
    ensures
        ({
            let once = deduped(frames);
            &&& forall|i: int, j: int|
                0 <= i < j < once.len() ==> (#[trigger] once[i]).valid.before(
                    (#[trigger] once[j]).valid,
                )
            &&& forall|stamp: FrameStamp| #[trigger]
                once.contains(stamp) == frames.contains(stamp)
            &&& frames.len() > 0 ==> once.len() > 0 && once.last() == frames.last()
        }),
    decreases frames.len(),
{
    if frames.len() > 0 {
        let shorter = frames.drop_last();
        law_each_frame_once(shorter);
        let before = deduped(shorter);
        let last = frames.last();
        let once = deduped(frames);
        assert(frames[frames.len() - 1] == last);
        if shorter.len() > 0 {
            assert(shorter[shorter.len() - 1] == frames[frames.len() - 2]);
            if before.last() != last {
                assert(before.last().valid.before(last.valid));
            }
        }
        assert forall|i: int, j: int| 0 <= i < j < once.len() implies (
        #[trigger] once[i]).valid.before((#[trigger] once[j]).valid) by {
            if j < before.len() {
                assert(once[i] == before[i] && once[j] == before[j]);
            } else if i < before.len() - 1 {
                assert(before[i].valid.before(before[before.len() - 1].valid));
            }
        }
        assert forall|stamp: FrameStamp| #[trigger]
            once.contains(stamp) == frames.contains(stamp) by {
            assert(before.contains(stamp) == shorter.contains(stamp));
            if frames.contains(stamp) {
                let k = frames.index_of(stamp);
                if k < shorter.len() {
                    assert(shorter[k] == stamp);
                    let m = before.index_of(stamp);
                    assert(once[m] == stamp);
                } else {
                    assert(once[once.len() - 1] == stamp);
                }
            }
            if once.contains(stamp) {
                let k = once.index_of(stamp);
                if k < before.len() {
                    assert(before[k] == stamp);
                    let m = shorter.index_of(stamp);
                    assert(frames[m] == stamp);
                } else {
                    assert(frames[frames.len() - 1] == stamp);
                }
            }
        }
    }
}

/// The last of some frames that is no later than an instant.
pub open spec fn newest_at(frames: Seq<FrameStamp>, t: Instant) -> Option<FrameStamp>
    decreases frames.len(),
{
    if frames.len() == 0 {
        None
    } else if frames.last().valid.not_after(t) {
        Some(frames.last())
    } else {
        newest_at(frames.drop_last(), t)
    }
}

/// The newest of ordered frames that is no later than an instant.
pub fn newest_at_or_before(frames: &Vec<FrameStamp>, t: &Instant) -> (frame: Option<FrameStamp>)
    ensures
        frame == newest_at(frames@, *t),
{
    let mut at: usize = frames.len();
    assert(frames@.take(at as int) =~= frames@);
    while at > 0
        invariant
            at <= frames@.len(),
            newest_at(frames@, *t) == newest_at(frames@.take(at as int), *t),
        decreases at,
    {
        assert(frames@.take(at as int).last() == frames@[at - 1]);
        assert(frames@.take(at as int).drop_last() =~= frames@.take(at - 1));
        if frames[at - 1].valid.is_not_after(t) {
            return Some(frames[at - 1]);
        }
        at = at - 1;
    }
    None
}

/// The frame an instant shows is no later than it, and none between the two is
/// passed over.
pub proof fn law_newest_is_newest(frames: Seq<FrameStamp>, t: Instant, other: FrameStamp)
    requires
        ordered(frames),
        frames.contains(other),
        other.valid.not_after(t),
    ensures
        newest_at(frames, t) matches Some(frame) && frame.valid.not_after(t)
            && other.valid.not_after(frame.valid) && frames.contains(frame),
    decreases frames.len(),
{
    let k = frames.index_of(other);
    if frames.last().valid.not_after(t) {
        assert(frames[k].valid.not_after(frames[frames.len() - 1].valid));
        assert(frames[frames.len() - 1] == frames.last());
    } else {
        assert(k < frames.len() - 1);
        assert(frames.drop_last()[k] == other);
        law_newest_is_newest(frames.drop_last(), t, other);
        let found = newest_at(frames, t)->0;
        let m = frames.drop_last().index_of(found);
        assert(frames[m] == found);
    }
}

/// Clipping frames to a window keeps exactly those the window holds, each as
/// often and in the order it was there.
pub proof fn law_clip_keeps_the_window(
    frames: Seq<FrameStamp>,
    range: (Instant, Instant),
    stamp: FrameStamp,
)
    ensures
        clipped(frames, range).contains(stamp) == (frames.contains(stamp) && !stamp.valid.before(
            range.0,
        ) && !range.1.before(stamp.valid)),
        clipped(frames, range) == frames.filter(
            |f: FrameStamp| !f.valid.before(range.0) && !range.1.before(f.valid),
        ),
    decreases frames.len(),
{
    reveal(Seq::filter);
    let keep = |f: FrameStamp| !f.valid.before(range.0) && !range.1.before(f.valid);
    if frames.len() > 0 {
        law_clip_keeps_the_window(frames.drop_last(), range, stamp);
    }
    if frames.contains(stamp) && keep(stamp) {
        frames.lemma_filter_contains(keep, frames.index_of(stamp));
    }
    if frames.filter(keep).contains(stamp) {
        frames.lemma_filter_contains_rev(keep, stamp);
        frames.lemma_filter_pred(keep, frames.filter(keep).index_of(stamp));
    }
}

/// Frames of one instant come out of the ordering in the order they went in.
pub proof fn law_ordering_is_stable(frames: Seq<FrameStamp>, t: Instant)
    ensures
        by_valid(frames).filter(|f: FrameStamp| f.valid == t) == frames.filter(
            |f: FrameStamp| f.valid == t,
        ),
    decreases frames.len(),
{
    reveal(Seq::filter);
    if frames.len() > 0 {
        law_ordering_is_stable(frames.drop_last(), t);
        lemma_slot_after_equals(by_valid(frames.drop_last()), frames.last(), t);
    } else {
        assert(by_valid(frames) =~= frames);
    }
}

proof fn lemma_slot_after_equals(frames: Seq<FrameStamp>, stamp: FrameStamp, t: Instant)
    ensures
        slotted(frames, stamp).filter(|f: FrameStamp| f.valid == t) == (if stamp.valid == t {
            frames.filter(|f: FrameStamp| f.valid == t).push(stamp)
        } else {
            frames.filter(|f: FrameStamp| f.valid == t)
        }),
    decreases frames.len(),
{
    reveal(Seq::filter);
    let after = slotted(frames, stamp);
    if frames.len() == 0 || frames.last().valid.not_after(stamp.valid) {
        assert(after.drop_last() =~= frames);
    } else {
        lemma_slot_after_equals(frames.drop_last(), stamp, t);
        assert(after.drop_last() =~= slotted(frames.drop_last(), stamp));
    }
}

/// Taking repeats out loses no frame and makes none up, and leaves no frame next
/// to itself.
pub proof fn law_dedup_keeps_every_frame(frames: Seq<FrameStamp>, stamp: FrameStamp)
    ensures
        deduped(frames).contains(stamp) == frames.contains(stamp),
        forall|i: int|
            0 < i < deduped(frames).len() ==> #[trigger] deduped(frames)[i] != deduped(frames)[i
                - 1],
    decreases frames.len(),
{
    if frames.len() > 0 {
        let fewer = frames.drop_last();
        law_dedup_keeps_every_frame(fewer, stamp);
        let (before, after) = (deduped(fewer), deduped(frames));
        assert(frames[frames.len() - 1] == frames.last());
        if frames.contains(stamp) {
            let i = frames.index_of(stamp);
            if i < fewer.len() {
                assert(fewer[i] == stamp);
                assert(after[before.index_of(stamp)] == stamp);
            } else {
                assert(after[after.len() - 1] == stamp);
            }
        }
        if after.contains(stamp) {
            let i = after.index_of(stamp);
            if i < before.len() {
                assert(before[i] == stamp);
                assert(frames[fewer.index_of(stamp)] == stamp);
            }
        }
        assert forall|i: int| 0 < i < after.len() implies #[trigger] after[i] != after[i - 1] by {
            if i < before.len() {
                assert(after[i] == before[i] && after[i - 1] == before[i - 1]);
            }
        }
    }
}

/// The frame an instant shows is the last that is not later than it: every frame
/// behind it is later. Where none is shown, all are later.
pub proof fn law_newest_is_the_last_reached(frames: Seq<FrameStamp>, t: Instant)
    ensures
        match newest_at(frames, t) {
            Some(frame) => exists|i: int|
                0 <= i < frames.len() && #[trigger] frames[i] == frame && !t.before(frame.valid)
                    && forall|j: int| i < j < frames.len() ==> t.before((#[trigger] frames[j]).valid),
            None => forall|j: int| 0 <= j < frames.len() ==> t.before((#[trigger] frames[j]).valid),
        },
    decreases frames.len(),
{
    if frames.len() > 0 {
        let fewer = frames.drop_last();
        law_newest_is_the_last_reached(fewer, t);
        if frames.last().valid.not_after(t) {
            assert(frames[frames.len() - 1] == frames.last());
        } else {
            assert(forall|j: int| 0 <= j < fewer.len() ==> #[trigger] frames[j] == fewer[j]);
            if let Some(frame) = newest_at(fewer, t) {
                let i = choose|i: int|
                    0 <= i < fewer.len() && #[trigger] fewer[i] == frame && !t.before(frame.valid)
                        && forall|j: int|
                        i < j < fewer.len() ==> t.before((#[trigger] fewer[j]).valid);
                assert(frames[i] == frame);
                assert forall|j: int| i < j < frames.len() implies t.before(
                    (#[trigger] frames[j]).valid,
                ) by {
                    if j < fewer.len() {
                        assert(fewer[j] == frames[j]);
                    }
                }
            } else {
                assert forall|j: int| 0 <= j < frames.len() implies t.before(
                    (#[trigger] frames[j]).valid,
                ) by {
                    if j < fewer.len() {
                        assert(fewer[j] == frames[j]);
                    }
                }
            }
        }
    }
}

/// A window holds a range exactly where it holds every instant of it.
pub proof fn law_a_window_holds_a_range_by_its_instants(
    window: (Instant, Instant),
    range: (Instant, Instant),
)
    requires
        !range.1.before(range.0),
    ensures
        spans(window, range) == forall|t: Instant|
            !t.before(range.0) && !range.1.before(t) ==> #[trigger] within(window, t),
        forall|t: Instant| #[trigger]
            within(window, t) == (!t.before(window.0) && !window.1.before(t)),
{
    assert(within(window, range.0) && within(window, range.1) ==> spans(window, range));
    if forall|t: Instant|
        !t.before(range.0) && !range.1.before(t) ==> #[trigger] within(window, t) {
        assert(within(window, range.0));
        assert(within(window, range.1));
    }
}

/// A frame is among ordered frames exactly where it was among them.
pub proof fn law_ordering_holds_the_same_frames(frames: Seq<FrameStamp>, stamp: FrameStamp)
    ensures
        by_valid(frames).contains(stamp) == frames.contains(stamp),
{
    broadcast use vstd::seq_lib::group_to_multiset_ensures;

    law_ordering_keeps_frames(frames);
    assert(by_valid(frames).to_multiset().count(stamp) == frames.to_multiset().count(stamp));
}

/// A range is covered exactly where one window alone reaches from no later than
/// its start to no earlier than its end; two windows that meet do not add up.
pub proof fn law_a_range_is_covered_by_one_window(
    windows: Seq<(Instant, Instant)>,
    range: (Instant, Instant),
)
    ensures
        any_spans(windows, range) == exists|i: int|
            0 <= i < windows.len() && !range.0.before((#[trigger] windows[i]).0)
                && !windows[i].1.before(range.1),
{
    if any_spans(windows, range) {
        let i = choose|i: int| 0 <= i < windows.len() && spans(#[trigger] windows[i], range);
        assert(!range.0.before(windows[i].0) && !windows[i].1.before(range.1));
    }
    if exists|i: int|
        0 <= i < windows.len() && !range.0.before((#[trigger] windows[i]).0)
            && !windows[i].1.before(range.1) {
        let i = choose|i: int|
            0 <= i < windows.len() && !range.0.before((#[trigger] windows[i]).0)
                && !windows[i].1.before(range.1);
        assert(spans(windows[i], range));
    }
}

} // verus!
