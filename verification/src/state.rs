//! What every fetched layer keeps: its data, the counter its pictures are keyed
//! by, whether a fetch is under way, and its ledger.
use vstd::prelude::*;
use crate::fetch::{DataCompleteness, FetchError, FetchRetry, LedgerView};
use crate::frames::FrameStamp;
use crate::instant::Instant;

verus! {

/// What a picture is asked for under.
#[derive(Clone, Copy, Debug, PartialEq, Eq, Structural)]
pub struct RasterizeContext {
    /// An `f32` bit pattern.
    pub device_scale: u32,
    pub is_dark: bool,
    /// An `f64` bit pattern.
    pub zoom: u64,
    /// The wall clock.
    pub now: Instant,
    /// The instant the pane depicts; the wall clock on a live pane.
    pub as_of: Instant,
    /// The frame asked for, where one is named.
    pub frame: Option<FrameStamp>,
}

/// A layer's shared state.
#[derive(Debug)]
pub struct OverlayState<T> {
    pub data: T,
    /// Moved whenever a picture made from the data may be out of date.
    pub data_generation: u64,
    pub fetching: bool,
    /// The clock when data last arrived, in seconds.
    pub fetch_time: Option<u64>,
    pub retry: FetchRetry,
}

/// The next generation. The counter goes round rather than stopping.
pub open spec fn next_generation(generation: u64) -> u64 {
    if generation == u64::MAX {
        0
    } else {
        (generation + 1) as u64
    }
}

pub fn bump(generation: u64) -> (next: u64)
    ensures
        next == next_generation(generation),
        next != generation,
{
    if generation == u64::MAX {
        0
    } else {
        generation + 1
    }
}

impl<T> OverlayState<T> {
    pub fn new(data: T) -> (state: OverlayState<T>)
        ensures
            state.data == data,
            state.data_generation == 0,
            !state.fetching,
            state.fetch_time is None,
            state.retry@.failures == 0,
            state.retry@.last is None,
            state.retry@.coverage.missing == 0,
    {
        OverlayState {
            data,
            data_generation: 0,
            fetching: false,
            fetch_time: None,
            retry: FetchRetry::new(),
        }
    }

    /// Installs a round that answered, and hands back what it replaces.
    pub fn set_data(&mut self, data: T, now: u64) -> (old_data: T)
        ensures
            old_data == old(self).data,
            final(self).data == data,
            final(self).data_generation == next_generation(old(self).data_generation),
            !final(self).fetching,
            final(self).fetch_time == Some(now),
            final(self).retry@ == old(self).retry@.clean(),
    {
        self.data_generation = bump(self.data_generation);
        self.fetching = false;
        self.fetch_time = Some(now);
        self.retry.record_success();
        let mut installed = data;
        std::mem::swap(&mut installed, &mut self.data);
        installed
    }

    /// Files a round that failed. What the layer holds stays on the map.
    pub fn record_failure(&mut self, e: &FetchError)
        ensures
            final(self).data == old(self).data,
            final(self).data_generation == old(self).data_generation,
            final(self).fetch_time == old(self).fetch_time,
            !final(self).fetching,
            final(self).retry@ == old(self).retry@.failed(e@),
    {
        self.fetching = false;
        self.retry.record_failure(e);
    }

    /// Replaces what is said to be missing.
    pub fn record_coverage(&mut self, coverage: DataCompleteness)
        ensures
            final(self).data == old(self).data,
            final(self).data_generation == old(self).data_generation,
            final(self).fetching == old(self).fetching,
            final(self).fetch_time == old(self).fetch_time,
            final(self).retry@ == (LedgerView { coverage: coverage@, ..old(self).retry@ }),
    {
        self.retry.record_coverage(coverage);
    }

    /// Seconds since data last arrived, by the clock `now`.
    pub open spec fn age(&self, now: u64) -> Option<u64> {
        match self.fetch_time {
            Some(then) => Some(
                if now < then {
                    0
                } else {
                    (now - then) as u64
                },
            ),
            None => None,
        }
    }

    pub fn elapsed(&self, now: u64) -> (age: Option<u64>)
        ensures
            age == self.age(now),
    {
        match self.fetch_time {
            Some(then) => Some(now.saturating_sub(then)),
            None => None,
        }
    }
}

impl<T> OverlayState<Option<T>> {
    /// Lets the data go, and says whether there was any. The age goes with it, so
    /// that the layer reads as due, and pictures of it are out of date.
    pub fn release_data(&mut self) -> (any: bool)
        ensures
            any == (old(self).data is Some),
            final(self).data is None,
            final(self).fetching == old(self).fetching,
            final(self).retry == old(self).retry,
            final(self).fetch_time == (if any {
                None
            } else {
                old(self).fetch_time
            }),
            final(self).data_generation == (if any {
                next_generation(old(self).data_generation)
            } else {
                old(self).data_generation
            }),
    {
        if self.data.is_none() {
            return false;
        }
        self.data = None;
        self.fetch_time = None;
        self.data_generation = bump(self.data_generation);
        true
    }
}

/// A number with its bits moved up, those that fall off the top coming in at the
/// bottom.
pub open spec fn turned_left(x: u64, by: u64) -> u64 {
    (x << by) | (x >> ((64 - by) as u64))
}

pub fn turn_left(x: u64, by: u64) -> (turned: u64)
    requires
        0 < by < 64,
    ensures
        turned == turned_left(x, by),
{
    (x << by) | (x >> (64 - by))
}

/// The age of what was fetched is what is added to its time to reach the clock,
/// and nothing by a clock that is behind; what was never fetched has none. A
/// generation that moves is another, and the next after the last is the first.
pub proof fn law_an_age_reaches_the_clock<T>(state: &OverlayState<T>, now: u64, generation: u64)
    ensures
        (state.age(now) is None) == (state.fetch_time is None),
        state.fetch_time matches Some(then) ==> (state.age(now) matches Some(age) && (then <= now
            ==> then + age == now) && (now < then ==> age == 0)),
        next_generation(generation) != generation,
        next_generation(generation) == (generation + 1) % 0x1_0000_0000_0000_0000,
{
}

} // verus!
