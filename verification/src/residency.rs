//! The stretches of source time that a walk through some stops needs held.
use vstd::prelude::*;
use crate::frames::within;
use crate::instant::Instant;

verus! {

/// Stretches of time, apart from one another, from the earliest on.
#[derive(Debug)]
pub struct Residency {
    spans: Vec<(Instant, Instant)>,
}

/// The later of two instants.
pub open spec fn later(a: Instant, b: Instant) -> Instant {
    if a.before(b) {
        b
    } else {
        a
    }
}

/// The earlier of two instants.
pub open spec fn earlier(a: Instant, b: Instant) -> Instant {
    if b.before(a) {
        b
    } else {
        a
    }
}

/// The stretch from where either of two starts to where either ends.
pub open spec fn hull(a: (Instant, Instant), b: (Instant, Instant)) -> (Instant, Instant) {
    (earlier(a.0, b.0), later(a.1, b.1))
}

/// Stretches with one more, run together with those it meets.
pub open spec fn joined_in(spans: Seq<(Instant, Instant)>, span: (Instant, Instant)) -> Seq<
    (Instant, Instant),
>
    decreases spans.len(),
{
    if spans.len() == 0 {
        seq![span]
    } else if spans.last().1.before(span.0) {
        spans.push(span)
    } else if span.1.before(spans.last().0) {
        joined_in(spans.drop_last(), span).push(spans.last())
    } else {
        joined_in(spans.drop_last(), hull(spans.last(), span))
    }
}

/// Some stretches, run together where they meet. One that ends before it starts
/// is none.
pub open spec fn all_joined(spans: Seq<(Instant, Instant)>) -> Seq<(Instant, Instant)>
    decreases spans.len(),
{
    if spans.len() == 0 {
        Seq::empty()
    } else if spans.last().1.before(spans.last().0) {
        all_joined(spans.drop_last())
    } else {
        joined_in(all_joined(spans.drop_last()), spans.last())
    }
}

/// Whether stretches are each a stretch, apart from one another, from the
/// earliest on.
pub open spec fn apart(spans: Seq<(Instant, Instant)>) -> bool {
    &&& forall|i: int| 0 <= i < spans.len() ==> (#[trigger] spans[i]).0.not_after(spans[i].1)
    &&& forall|i: int, j: int|
        0 <= i < j < spans.len() ==> (#[trigger] spans[i]).1.before((#[trigger] spans[j]).0)
}

/// Whether some stretch holds an instant.
pub open spec fn in_any(spans: Seq<(Instant, Instant)>, t: Instant) -> bool {
    exists|i: int| 0 <= i < spans.len() && within(#[trigger] spans[i], t)
}

proof fn lemma_shorter_apart(spans: Seq<(Instant, Instant)>)
    requires
        apart(spans),
        spans.len() > 0,
    ensures
        apart(spans.drop_last()),
        forall|i: int|
            0 <= i < spans.len() - 1 ==> (#[trigger] spans[i]).1.before(spans.last().0),
{
    let shorter = spans.drop_last();
    assert forall|i: int| 0 <= i < shorter.len() implies (#[trigger] shorter[i]).0.not_after(
        shorter[i].1,
    ) by {
        assert(spans[i].0.not_after(spans[i].1));
    }
    assert forall|i: int, j: int| 0 <= i < j < shorter.len() implies (
    #[trigger] shorter[i]).1.before((#[trigger] shorter[j]).0) by {
        assert(spans[i].1.before(spans[j].0));
    }
    assert forall|i: int| 0 <= i < spans.len() - 1 implies (#[trigger] spans[i]).1.before(
        spans.last().0,
    ) by {
        assert(spans[i].1.before(spans[spans.len() - 1].0));
    }
}

pub(crate) proof fn lemma_in_push(spans: Seq<(Instant, Instant)>, span: (Instant, Instant), t: Instant)
    ensures
        in_any(spans.push(span), t) == (in_any(spans, t) || within(span, t)),
{
    let more = spans.push(span);
    assert(more[spans.len() as int] == span);
    if in_any(spans, t) {
        let i = choose|i: int| 0 <= i < spans.len() && within(#[trigger] spans[i], t);
        assert(more[i] == spans[i]);
    }
    if in_any(more, t) {
        let i = choose|i: int| 0 <= i < more.len() && within(#[trigger] more[i], t);
        if i < spans.len() {
            assert(spans[i] == more[i]);
        }
    }
}

/// Joining one stretch in keeps the stretches apart.
proof fn lemma_joined_apart(spans: Seq<(Instant, Instant)>, span: (Instant, Instant))
    requires
        apart(spans),
        span.0.not_after(span.1),
    ensures
        apart(joined_in(spans, span)),
        joined_in(spans, span).len() > 0,
        forall|i: int|
            0 <= i < joined_in(spans, span).len() ==> (#[trigger] joined_in(
                spans,
                span,
            )[i]).1.not_after(
                if spans.len() > 0 {
                    later(spans.last().1, span.1)
                } else {
                    span.1
                },
            ),
    decreases spans.len(),
{
    let after = joined_in(spans, span);
    if spans.len() > 0 {
        let last = spans.last();
        let shorter = spans.drop_last();
        lemma_shorter_apart(spans);
        assert(last.0.not_after(last.1)) by {
            assert(spans[spans.len() - 1] == last);
        }
        if last.1.before(span.0) {
            assert forall|i: int, j: int| 0 <= i < j < after.len() implies (
            #[trigger] after[i]).1.before((#[trigger] after[j]).0) by {
                if j == spans.len() {
                    assert(after[i] == spans[i]);
                    if i < spans.len() - 1 {
                        assert(spans[i].1.before(last.0));
                    }
                } else {
                    assert(spans[i].1.before(spans[j].0));
                }
            }
            assert forall|i: int| 0 <= i < after.len() implies (#[trigger] after[i]).0.not_after(
                after[i].1,
            ) && after[i].1.not_after(later(last.1, span.1)) by {
                if i < spans.len() {
                    assert(after[i] == spans[i]);
                    assert(spans[i].0.not_after(spans[i].1));
                    if i < spans.len() - 1 {
                        assert(spans[i].1.before(last.0));
                    }
                }
            }
        } else if span.1.before(last.0) {
            lemma_joined_apart(shorter, span);
            let inner = joined_in(shorter, span);
            let bound = if shorter.len() > 0 {
                later(shorter.last().1, span.1)
            } else {
                span.1
            };
            if shorter.len() > 0 {
                assert(spans[shorter.len() - 1] == shorter.last());
                assert(shorter.last().1.before(last.0));
            }
            assert(bound.before(last.0));
            assert forall|i: int, j: int| 0 <= i < j < after.len() implies (
            #[trigger] after[i]).1.before((#[trigger] after[j]).0) by {
                assert(after[i] == inner[i]);
                if j < inner.len() {
                    assert(after[j] == inner[j]);
                } else {
                    assert(inner[i].1.not_after(bound));
                }
            }
            assert forall|i: int| 0 <= i < after.len() implies (#[trigger] after[i]).0.not_after(
                after[i].1,
            ) && after[i].1.not_after(later(last.1, span.1)) by {
                if i < inner.len() {
                    assert(after[i] == inner[i]);
                    assert(inner[i].1.not_after(bound));
                }
            }
        } else {
            let wide = hull(last, span);
            lemma_joined_apart(shorter, wide);
            if shorter.len() > 0 {
                assert(spans[shorter.len() - 1] == shorter.last());
                assert(shorter.last().1.before(last.0));
            }
            assert forall|i: int| 0 <= i < after.len() implies (#[trigger] after[i]).1.not_after(
                later(last.1, span.1),
            ) by {}
        }
    }
}

/// Joining one stretch in adds its instants and no others.
proof fn lemma_joined_covers(
    spans: Seq<(Instant, Instant)>,
    span: (Instant, Instant),
    t: Instant,
)
    requires
        apart(spans),
        span.0.not_after(span.1),
    ensures
        in_any(joined_in(spans, span), t) == (in_any(spans, t) || within(span, t)),
    decreases spans.len(),
{
    if spans.len() == 0 {
        assert(seq![span] =~= spans.push(span));
        lemma_in_push(spans, span, t);
    } else {
        let last = spans.last();
        let shorter = spans.drop_last();
        lemma_shorter_apart(spans);
        assert(spans =~= shorter.push(last));
        lemma_in_push(shorter, last, t);
        assert(last.0.not_after(last.1)) by {
            assert(spans[spans.len() - 1] == last);
        }
        if last.1.before(span.0) {
            lemma_in_push(spans, span, t);
        } else if span.1.before(last.0) {
            lemma_joined_covers(shorter, span, t);
            lemma_in_push(joined_in(shorter, span), last, t);
        } else {
            lemma_joined_covers(shorter, hull(last, span), t);
            assert(within(hull(last, span), t) == (within(last, t) || within(span, t)));
        }
    }
}

/// Stretches run together hold every instant that one of them does and no other,
/// and stay apart.
pub proof fn law_joining_keeps_instants(spans: Seq<(Instant, Instant)>, t: Instant)
    ensures
        apart(all_joined(spans)),
        in_any(all_joined(spans), t) == in_any(spans, t),
    decreases spans.len(),
{
    if spans.len() > 0 {
        let shorter = spans.drop_last();
        let last = spans.last();
        law_joining_keeps_instants(shorter, t);
        assert(spans =~= shorter.push(last));
        lemma_in_push(shorter, last, t);
        if !last.1.before(last.0) {
            lemma_joined_apart(all_joined(shorter), last);
            lemma_joined_covers(all_joined(shorter), last, t);
        }
    }
}

impl Residency {
    pub closed spec fn view(&self) -> Seq<(Instant, Instant)> {
        self.spans@
    }

    /// Some stretches, run together where they meet.
    pub fn over(spans: &Vec<(Instant, Instant)>) -> (residency: Residency)
        ensures
            residency@ == all_joined(spans@),
    {
        let mut joined: Vec<(Instant, Instant)> = Vec::new();
        let mut at: usize = 0;
        while at < spans.len()
            invariant
                at <= spans@.len(),
                joined@ == all_joined(spans@.take(at as int)),
            decreases spans@.len() - at,
        {
            assert(spans@.take(at + 1).drop_last() =~= spans@.take(at as int));
            let span = spans[at];
            if !span.1.is_before(&span.0) {
                join_in(&mut joined, span);
            }
            at = at + 1;
        }
        assert(spans@.take(at as int) =~= spans@);
        Residency { spans: joined }
    }

    /// The stretches.
    pub fn ranges(&self) -> (ranges: &Vec<(Instant, Instant)>)
        ensures
            ranges@ == self@,
    {
        &self.spans
    }

    /// Whether an instant is held.
    pub fn covers(&self, t: &Instant) -> (b: bool)
        ensures
            b == in_any(self@, *t),
    {
        let mut at: usize = 0;
        while at < self.spans.len()
            invariant
                at <= self.spans@.len(),
                forall|i: int| 0 <= i < at ==> !within(#[trigger] self.spans@[i], *t),
            decreases self.spans@.len() - at,
        {
            if crate::frames::is_within(&self.spans[at], t) {
                assert(within(self.spans@[at as int], *t));
                return true;
            }
            at = at + 1;
        }
        false
    }

    /// From the first instant held to the last.
    pub fn extent(&self) -> (extent: Option<(Instant, Instant)>)
        ensures
            extent == (if self@.len() == 0 {
                None
            } else {
                Some((self@[0].0, self@.last().1))
            }),
    {
        let n: usize = self.spans.len();
        if n == 0 {
            None
        } else {
            Some((self.spans[0].0, self.spans[n - 1].1))
        }
    }
}

fn join_in(spans: &mut Vec<(Instant, Instant)>, span: (Instant, Instant))
    ensures
        final(spans)@ == joined_in(old(spans)@, span),
    decreases old(spans)@.len(),
{
    let ghost before = spans@;
    match spans.pop() {
        None => {
            spans.push(span);
            assert(spans@ =~= seq![span]);
        },
        Some(last) => {
            assert(spans@ =~= before.drop_last());
            if last.1.is_before(&span.0) {
                spans.push(last);
                assert(spans@ =~= before);
                spans.push(span);
            } else if span.1.is_before(&last.0) {
                join_in(spans, span);
                spans.push(last);
            } else {
                let start = if span.0.is_before(&last.0) {
                    span.0
                } else {
                    last.0
                };
                let end = if last.1.is_before(&span.1) {
                    span.1
                } else {
                    last.1
                };
                join_in(spans, (start, end));
            }
        },
    }
}

/// Joined stretches reach from the first instant that is held to the last: both
/// ends are held, and nothing outside them is.
pub proof fn law_an_extent_holds_every_instant(spans: Seq<(Instant, Instant)>, t: Instant)
    ensures
        ({
            let joined = all_joined(spans);
            &&& joined.len() > 0 ==> in_any(spans, joined[0].0) && in_any(spans, joined.last().1)
            &&& in_any(spans, t) ==> joined.len() > 0 && !t.before(joined[0].0)
                && !joined.last().1.before(t)
        }),
{
    let joined = all_joined(spans);
    law_joining_keeps_instants(spans, t);
    if joined.len() > 0 {
        let (first, last) = (joined[0], joined[joined.len() - 1]);
        law_joining_keeps_instants(spans, first.0);
        law_joining_keeps_instants(spans, last.1);
        assert(first.0.not_after(first.1) && last.0.not_after(last.1));
        assert(within(joined[0], first.0));
        assert(within(joined[joined.len() - 1], last.1));
    }
    if in_any(spans, t) {
        let i = choose|i: int| 0 <= i < joined.len() && within(#[trigger] joined[i], t);
        if 0 < i {
            assert(joined[0].1.before(joined[i].0));
            assert(joined[0].0.not_after(joined[0].1));
        }
        if i < joined.len() - 1 {
            assert(joined[i].1.before(joined[joined.len() - 1].0));
            assert(joined[joined.len() - 1].0.not_after(joined[joined.len() - 1].1));
        }
    }
}

} // verus!
