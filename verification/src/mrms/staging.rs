//! One mosaic's buffer, kept for the next: a mosaic is decoded into a block so
//! large that handing it back and forth to an allocator breaks the heap up.
use std::sync::Arc;
use vstd::prelude::*;
use crate::jobs::gridded::{FieldGrid, GridValues};
use crate::mrms::product::MrmsGrid;

verus! {

/// How many points a mosaic of the contiguous states has: 7000 by 3500.
pub const STAGING_POINTS: usize = 24_500_000;

/// What a mosaic of the contiguous states costs, at two bytes a point.
pub const CONUS_GRID_BYTES: usize = 49_000_000;

/// What the frames of a loop pass through: one mosaic, however long the loop.
pub const FRAME_STAGING_BYTES: usize = 49_000_000;

/// How many mosaics nobody shows a desktop keeps: every product but the one that
/// is shown.
pub const DESKTOP_GRID_HISTORY_ENTRIES: usize = 1;

/// How many mosaics nobody shows a browser keeps.
pub const WASM_GRID_HISTORY_ENTRIES: usize = 0;

/// A mosaic is priced by its points, and one stages at a time.
pub proof fn law_one_mosaic_is_staged()
    ensures
        STAGING_POINTS == 7000 * 3500,
        CONUS_GRID_BYTES == 2 * STAGING_POINTS,
        FRAME_STAGING_BYTES == CONUS_GRID_BYTES,
{
}

/// What became of the buffers that were asked for and offered.
#[derive(Clone, Copy, Debug, PartialEq, Eq, Structural)]
pub struct StagingTotals {
    pub allocated: u64,
    pub reused: u64,
    pub declined: u64,
}

/// One more, as far as a count goes.
pub open spec fn counted(n: u64) -> u64 {
    if n < u64::MAX {
        (n + 1) as u64
    } else {
        n
    }
}

/// At most one mosaic's buffer.
#[derive(Debug)]
pub struct StagingPool {
    slot: Option<Vec<u16>>,
    totals: StagingTotals,
}

/// `std::sync::Arc::into_inner`.
///
/// Trusted: what it gives, where it gives anything, is what was shared. Whether
/// it does depends on how many others hold it, which is left unsaid.
#[verifier::external_body]
pub(crate) fn sole_owner<T>(shared: Arc<T>) -> (owned: Option<T>)
    ensures
        owned matches Some(t) ==> t == *shared,
{
    Arc::into_inner(shared)
}

impl StagingPool {
    /// Whether a buffer is kept.
    pub closed spec fn full(&self) -> bool {
        self.slot is Some
    }

    pub closed spec fn counts(&self) -> StagingTotals {
        self.totals
    }

    /// A kept buffer is a mosaic's.
    pub closed spec fn wf(&self) -> bool {
        self.slot matches Some(buffer) ==> buffer@.len() == STAGING_POINTS
    }

    pub fn new() -> (pool: StagingPool)
        ensures
            pool.wf(),
            !pool.full(),
            pool.counts() == (StagingTotals { allocated: 0, reused: 0, declined: 0 }),
    {
        StagingPool {
            slot: None,
            totals: StagingTotals { allocated: 0, reused: 0, declined: 0 },
        }
    }

    pub fn totals(&self) -> (totals: StagingTotals)
        ensures
            totals == self.counts(),
    {
        self.totals
    }

    /// What a kept buffer costs.
    pub open spec fn bytes(&self) -> nat {
        if self.full() {
            CONUS_GRID_BYTES as nat
        } else {
            0
        }
    }

    pub fn resident_bytes(&self) -> (bytes: usize)
        ensures
            bytes == self.bytes(),
    {
        match self.slot {
            Some(_) => CONUS_GRID_BYTES,
            None => 0,
        }
    }

    /// An empty buffer for some points: the kept one where it is a mosaic's that
    /// is asked for, and a fresh one otherwise.
    pub fn take(&mut self, points: usize) -> (buffer: Vec<u16>)
        requires
            old(self).wf(),
        ensures
            final(self).wf(),
            buffer@ == Seq::<u16>::empty(),
            ({
                let reused = points == STAGING_POINTS && old(self).full();
                &&& final(self).full() == (old(self).full() && !reused)
                &&& final(self).counts() == (if reused {
                    StagingTotals { reused: counted(old(self).counts().reused), ..old(self).counts() }
                } else {
                    StagingTotals {
                        allocated: counted(old(self).counts().allocated),
                        ..old(self).counts()
                    }
                })
            }),
    {
        if points == STAGING_POINTS {
            if let Some(mut buffer) = self.slot.take() {
                buffer.clear();
                self.totals.reused = self.totals.reused.saturating_add(1);
                return buffer;
            }
        }
        self.totals.allocated = self.totals.allocated.saturating_add(1);
        Vec::with_capacity(points)
    }

    /// Whether a buffer would be kept.
    pub open spec fn keeps(&self, codes: Option<Vec<u16>>) -> bool {
        &&& codes is Some
        &&& codes->0@.len() == STAGING_POINTS
        &&& !self.full()
    }

    /// Offers a buffer. A mosaic's is kept while none is; anything else, and what
    /// is still held elsewhere, is declined.
    pub fn offer(&mut self, codes: Option<Vec<u16>>)
        requires
            old(self).wf(),
        ensures
            final(self).wf(),
            final(self).full() == (old(self).full() || old(self).keeps(codes)),
            final(self).counts() == (if old(self).keeps(codes) {
                old(self).counts()
            } else {
                StagingTotals {
                    declined: counted(old(self).counts().declined),
                    ..old(self).counts()
                }
            }),
    {
        if let Some(buffer) = codes {
            if buffer.len() == STAGING_POINTS && self.slot.is_none() {
                self.slot = Some(buffer);
                return;
            }
        }
        self.totals.declined = self.totals.declined.saturating_add(1);
    }

    /// Offers a mosaic's buffer. Whether it can be had depends on who else still
    /// holds the mosaic, so it is kept or declined, and never both.
    pub fn recycle(&mut self, grid: MrmsGrid)
        requires
            old(self).wf(),
        ensures
            final(self).wf(),
            took(*old(self), grid, *final(self)),
    {
        let field = sole_owner(grid.grid);
        self.reclaim(field);
    }

    /// Offers the buffer of a field that was had, or nothing where it was not.
    pub fn reclaim(&mut self, field: Option<FieldGrid>)
        requires
            old(self).wf(),
        ensures
            final(self).wf(),
            ({
                let kept = old(self).keeps(codes_in(field));
                &&& final(self).full() == (old(self).full() || kept)
                &&& final(self).counts() == (if kept {
                    old(self).counts()
                } else {
                    StagingTotals {
                        declined: counted(old(self).counts().declined),
                        ..old(self).counts()
                    }
                })
            }),
    {
        self.offer(codes_of(field));
    }
}

/// Whether a pool can be what another becomes when a mosaic is offered to it: the
/// buffer of a full mosaic stored in codes is kept while none is, where nobody
/// else holds it, and any other is declined.
pub open spec fn took(before: StagingPool, grid: MrmsGrid, after: StagingPool) -> bool {
    let kept = after.full() && !before.full();
    &&& after.wf()
    &&& kept ==> grid.grid.values is Scaled && grid.points() == STAGING_POINTS && after.counts()
        == before.counts()
    &&& !kept ==> after.full() == before.full() && after.counts() == (StagingTotals {
        declined: counted(before.counts().declined),
        ..before.counts()
    })
}

/// Whether a pool can be what another becomes when mosaics are offered to it, one
/// after the other.
pub open spec fn took_each(before: StagingPool, grids: Seq<MrmsGrid>, after: StagingPool) -> bool
    decreases grids.len(),
{
    if grids.len() == 0 {
        before == after
    } else {
        exists|between: StagingPool|
            took_each(before, grids.drop_last(), between) && #[trigger] took(
                between,
                grids.last(),
                after,
            )
    }
}

/// One more mosaic offered.
pub proof fn lemma_took_one_more(
    before: StagingPool,
    grids: Seq<MrmsGrid>,
    between: StagingPool,
    grid: MrmsGrid,
    after: StagingPool,
)
    requires
        took_each(before, grids, between),
        took(between, grid, after),
    ensures
        took_each(before, grids.push(grid), after),
{
    let more = grids.push(grid);
    assert(more.drop_last() =~= grids);
    assert(took_each(before, more.drop_last(), between) && took(between, more.last(), after));
}

proof fn lemma_room_is_kept(before: StagingPool, grids: Seq<MrmsGrid>, after: StagingPool)
    requires
        took_each(before, grids, after),
    ensures
        before.full() ==> after.full(),
        grids.len() == 0 ==> after.counts() == before.counts() && after.full() == before.full(),
        grids.len() > 0 && before.counts().declined < u64::MAX - grids.len() ==> {
            let kept = after.full() && !before.full();
            after.counts() == (StagingTotals {
                declined: (before.counts().declined + grids.len() - if kept {
                    1int
                } else {
                    0
                }) as u64,
                ..before.counts()
            })
        },
    decreases grids.len(),
{
    if grids.len() > 0 {
        let between = choose|between: StagingPool|
            took_each(before, grids.drop_last(), between) && #[trigger] took(
                between,
                grids.last(),
                after,
            );
        lemma_room_is_kept(before, grids.drop_last(), between);
    }
}

/// Every mosaic that is offered is accounted for: at most one is kept, every other
/// is declined, and a buffer that was kept stays.
pub proof fn law_every_offer_is_answered(
    before: StagingPool,
    grids: Seq<MrmsGrid>,
    after: StagingPool,
)
    requires
        took_each(before, grids, after),
        before.counts().declined < u64::MAX - grids.len(),
    ensures
        before.full() ==> after.full(),
        after.counts() == (StagingTotals {
            declined: (before.counts().declined + grids.len() - if after.full() && !before.full() {
                1int
            } else {
                0
            }) as u64,
            ..before.counts()
        }),
{
    lemma_room_is_kept(before, grids, after);
}

/// The codes of a field that was had and is stored in codes.
pub open spec fn codes_in(field: Option<FieldGrid>) -> Option<Vec<u16>> {
    match field {
        Some(field) => match field.values {
            GridValues::Scaled(scaled) => Some(scaled.codes),
            GridValues::F32(_) => None,
        },
        None => None,
    }
}

fn codes_of(field: Option<FieldGrid>) -> (codes: Option<Vec<u16>>)
    ensures
        codes == codes_in(field),
{
    match field {
        Some(field) => match field.values {
            GridValues::Scaled(scaled) => Some(scaled.codes),
            GridValues::F32(_) => None,
        },
        None => None,
    }
}

/// A buffer is kept exactly where it could be had, has room for a whole mosaic of
/// 7000 by 3500 points, and no other is kept; a count goes up by one until it can
/// go no further.
pub proof fn law_one_whole_buffer_is_kept(pool: StagingPool, codes: Option<Vec<u16>>, n: u64)
    ensures
        pool.keeps(codes) <==> !pool.full() && codes is Some && codes->0@.len() == 7000 * 3500,
        n < u64::MAX ==> counted(n) == n + 1,
        counted(u64::MAX) == u64::MAX,
{
}

} // verus!
