//! What a fetch round came to: its failures, the ledger they are filed on, and
//! how much of the round is missing.
use vstd::prelude::*;
use crate::text::{decimal, decimal_text, join, joined};

verus! {

/// Why a fetch gave nothing.
#[derive(Clone, Copy, Debug, PartialEq, Eq, Structural)]
pub enum FetchFailure {
    /// The origin may answer if asked again.
    Transient,
    /// The origin refused.
    Permanent,
    /// The origin says there is nothing to give right now, which is an answer.
    Absent,
}

impl FetchFailure {
    /// What the failures of one round come to: a round is refused only where
    /// every failure is, and one that may recover makes the round one that may.
    pub open spec fn of_round_view(failures: Seq<FetchFailure>) -> FetchFailure {
        if failures.contains(FetchFailure::Transient) {
            FetchFailure::Transient
        } else if failures.contains(FetchFailure::Permanent) {
            FetchFailure::Permanent
        } else {
            FetchFailure::Absent
        }
    }

    pub fn of_round(failures: &Vec<FetchFailure>) -> (merged: FetchFailure)
        ensures
            merged == Self::of_round_view(failures@),
    {
        let mut merged = FetchFailure::Absent;
        let mut at: usize = 0;
        while at < failures.len()
            invariant
                at <= failures@.len(),
                merged != FetchFailure::Transient,
                forall|i: int| 0 <= i < at ==> failures@[i] != FetchFailure::Transient,
                merged == FetchFailure::Permanent <==> failures@.take(at as int).contains(
                    FetchFailure::Permanent,
                ),
            decreases failures@.len() - at,
        {
            let ghost seen = failures@.take(at as int);
            let failure = failures[at];
            assert(failures@.take(at + 1) =~= seen.push(failure));
            if failure == FetchFailure::Transient {
                assert(failures@[at as int] == FetchFailure::Transient);
                return FetchFailure::Transient;
            }
            if failure == FetchFailure::Permanent {
                merged = FetchFailure::Permanent;
                assert(seen.push(failure)[at as int] == FetchFailure::Permanent);
            } else {
                proof {
                    if seen.contains(FetchFailure::Permanent) {
                        let i = choose|i: int| 0 <= i < seen.len() && seen[i]
                            == FetchFailure::Permanent;
                        assert(seen.push(failure)[i] == FetchFailure::Permanent);
                    }
                    if seen.push(failure).contains(FetchFailure::Permanent) {
                        let i = choose|i: int| 0 <= i < at + 1 && seen.push(failure)[i]
                            == FetchFailure::Permanent;
                        assert(seen[i] == FetchFailure::Permanent);
                    }
                }
            }
            at = at + 1;
        }
        assert(failures@.take(at as int) =~= failures@);
        merged
    }
}

/// A fetch that gave nothing, and what it said.
#[derive(Debug)]
pub struct FetchError {
    pub failure: FetchFailure,
    pub message: String,
}

/// [`FetchError`] over mathematical values.
pub struct ErrorView {
    pub failure: FetchFailure,
    pub message: Seq<char>,
}

impl View for FetchError {
    type V = ErrorView;

    open spec fn view(&self) -> ErrorView {
        ErrorView { failure: self.failure, message: self.message@ }
    }
}

impl FetchError {
    pub fn transient(message: &str) -> (e: FetchError)
        ensures
            e@ == (ErrorView { failure: FetchFailure::Transient, message: message@ }),
    {
        FetchError { failure: FetchFailure::Transient, message: message.to_owned() }
    }

    pub fn permanent(message: &str) -> (e: FetchError)
        ensures
            e@ == (ErrorView { failure: FetchFailure::Permanent, message: message@ }),
    {
        FetchError { failure: FetchFailure::Permanent, message: message.to_owned() }
    }

    pub fn absent(message: &str) -> (e: FetchError)
        ensures
            e@ == (ErrorView { failure: FetchFailure::Absent, message: message@ }),
    {
        FetchError { failure: FetchFailure::Absent, message: message.to_owned() }
    }
}

/// How a layer is doing.
#[derive(Clone, Copy, Debug, PartialEq, Eq, Structural)]
pub enum FetchHealth {
    /// Nothing it asks for is failing.
    Well,
    /// What it asks for is not published right now.
    Absent,
    /// It stopped updating.
    Stale,
    /// It was refused, asked again, and refused again.
    Broken,
}

/// How much of a round is not on the map, and why.
#[derive(Debug)]
pub struct DataCompleteness {
    pub expected: usize,
    pub missing: usize,
    pub unit: &'static str,
    pub reasons: Vec<String>,
}

/// [`DataCompleteness`] over mathematical values.
#[verifier::ext_equal]
pub struct CompletenessView {
    pub expected: usize,
    pub missing: usize,
    pub unit: Seq<char>,
    pub reasons: Seq<Seq<char>>,
}

impl View for DataCompleteness {
    type V = CompletenessView;

    open spec fn view(&self) -> CompletenessView {
        CompletenessView {
            expected: self.expected,
            missing: self.missing,
            unit: self.unit@,
            reasons: self.reasons.deep_view(),
        }
    }
}

impl CompletenessView {
    /// What the options say of it, where something is missing.
    pub open spec fn note(self) -> Option<Seq<char>> {
        if self.missing == 0 {
            None
        } else {
            Some(
                "Incomplete: missing "@ + decimal(self.missing as nat) + " of "@ + decimal(
                    self.expected as nat,
                ) + " "@ + self.unit + ": "@ + joined(self.reasons, "; "@),
            )
        }
    }
}

impl DataCompleteness {
    /// Nothing was expected, so nothing is missing.
    pub fn none() -> (c: DataCompleteness)
        ensures
            c@ == (CompletenessView {
                expected: 0,
                missing: 0,
                unit: ""@,
                reasons: Seq::empty(),
            }),
    {
        let reasons: Vec<String> = Vec::new();
        assert(reasons.deep_view() =~= Seq::empty());
        DataCompleteness { expected: 0, missing: 0, unit: "", reasons }
    }

    pub fn status_note(&self) -> (note: Option<String>)
        ensures
            match note {
                Some(text) => self@.note() == Some(text@),
                None => self@.note() is None,
            },
    {
        if self.missing == 0 {
            return None;
        }
        let mut text = "Incomplete: missing ".to_owned();
        text.append(decimal_text(self.missing as u64).as_str());
        text.append(" of ");
        text.append(decimal_text(self.expected as u64).as_str());
        text.append(" ");
        text.append(self.unit);
        text.append(": ");
        text.append(join(&self.reasons, "; ").as_str());
        Some(text)
    }
}

/// A layer's retry ledger: how many rounds in a row failed, whether they were
/// refusals, what the last said, and what of the last round is missing.
#[derive(Debug)]
pub struct FetchRetry {
    failures: u32,
    refusals: u32,
    last: Option<FetchError>,
    coverage: DataCompleteness,
}

/// [`FetchRetry`] over mathematical values.
#[verifier::ext_equal]
pub struct LedgerView {
    pub failures: u32,
    pub refusals: u32,
    pub last: Option<ErrorView>,
    pub coverage: CompletenessView,
}

impl View for FetchRetry {
    type V = LedgerView;

    closed spec fn view(&self) -> LedgerView {
        LedgerView {
            failures: self.failures,
            refusals: self.refusals,
            last: match self.last {
                Some(e) => Some(e@),
                None => None,
            },
            coverage: self.coverage@,
        }
    }
}

/// One more, as far as the counter goes.
pub open spec fn one_more(count: u32) -> u32 {
    if count == u32::MAX {
        count
    } else {
        (count + 1) as u32
    }
}

impl LedgerView {
    /// The ledger of a layer that has failed at nothing.
    pub open spec fn clean(self) -> LedgerView {
        LedgerView { failures: 0, refusals: 0, last: None, coverage: self.coverage }
    }

    /// The ledger with one more round's failure filed. An absence is an answer:
    /// it resets the ladder rather than climbing it.
    pub open spec fn failed(self, e: ErrorView) -> LedgerView {
        match e.failure {
            FetchFailure::Absent => LedgerView { failures: 0, refusals: 0, last: Some(e), ..self },
            FetchFailure::Transient => LedgerView {
                failures: one_more(self.failures),
                refusals: 0,
                last: Some(e),
                ..self
            },
            FetchFailure::Permanent => LedgerView {
                failures: one_more(self.failures),
                refusals: one_more(self.refusals),
                last: Some(e),
                ..self
            },
        }
    }

    pub open spec fn health(self) -> FetchHealth {
        if self.refusals >= 2 {
            FetchHealth::Broken
        } else if self.failures > 0 {
            FetchHealth::Stale
        } else if self.last is Some {
            FetchHealth::Absent
        } else {
            FetchHealth::Well
        }
    }
}

impl FetchRetry {
    pub fn new() -> (ledger: FetchRetry)
        ensures
            ledger@ == (LedgerView {
                failures: 0,
                refusals: 0,
                last: None,
                coverage: CompletenessView {
                    expected: 0,
                    missing: 0,
                    unit: ""@,
                    reasons: Seq::empty(),
                },
            }),
    {
        FetchRetry { failures: 0, refusals: 0, last: None, coverage: DataCompleteness::none() }
    }

    /// How many rounds in a row have failed.
    pub fn failures(&self) -> (n: u32)
        ensures
            n == self@.failures,
    {
        self.failures
    }

    pub fn health(&self) -> (health: FetchHealth)
        ensures
            health == self@.health(),
    {
        if self.refusals >= 2 {
            FetchHealth::Broken
        } else if self.failures > 0 {
            FetchHealth::Stale
        } else if self.last.is_some() {
            FetchHealth::Absent
        } else {
            FetchHealth::Well
        }
    }

    pub fn is_unhealthy(&self) -> (b: bool)
        ensures
            b == (self@.failures > 0),
    {
        self.failures > 0
    }

    /// A refusal is believed only when a second round repeats it.
    pub fn is_broken(&self) -> (b: bool)
        ensures
            b == (self@.refusals >= 2),
    {
        self.refusals >= 2
    }

    pub fn is_incomplete(&self) -> (b: bool)
        ensures
            b == (self@.coverage.missing > 0),
    {
        self.coverage.missing > 0
    }

    pub fn coverage(&self) -> (c: &DataCompleteness)
        ensures
            c@ == self@.coverage,
    {
        &self.coverage
    }

    /// What the last failed round said, while it is the last.
    pub fn status_note(&self) -> (note: Option<String>)
        ensures
            match note {
                Some(text) => self@.last matches Some(e) && e.message == text@,
                None => self@.last is None,
            },
    {
        match &self.last {
            Some(e) => Some(e.message.clone()),
            None => None,
        }
    }

    /// How long to wait before asking again, for a layer polled every
    /// `interval` seconds: a layer that is failing waits a poll out, and one that
    /// is not waits for nothing.
    pub fn backoff_remaining(&self, interval: u64) -> (secs: u64)
        ensures
            secs == (if self@.failures > 0 {
                interval
            } else {
                0
            }),
    {
        if self.failures > 0 {
            interval
        } else {
            0
        }
    }

    /// Files one round's failure.
    pub fn record_failure(&mut self, e: &FetchError)
        ensures
            final(self)@ == old(self)@.failed(e@),
    {
        match e.failure {
            FetchFailure::Absent => {
                self.failures = 0;
                self.refusals = 0;
            },
            FetchFailure::Transient => {
                self.failures = self.failures.saturating_add(1);
                self.refusals = 0;
            },
            FetchFailure::Permanent => {
                self.failures = self.failures.saturating_add(1);
                self.refusals = self.refusals.saturating_add(1);
            },
        }
        self.last = Some(FetchError { failure: e.failure, message: e.message.clone() });
    }

    /// Files a round that got everything it asked for.
    pub fn record_success(&mut self)
        ensures
            final(self)@ == old(self)@.clean(),
    {
        self.failures = 0;
        self.refusals = 0;
        self.last = None;
    }

    /// Takes the layer off the ledger.
    pub fn clear(&mut self)
        ensures
            final(self)@ == old(self)@.clean(),
    {
        self.record_success();
    }

    /// Replaces what is said to be missing.
    pub fn record_coverage(&mut self, coverage: DataCompleteness)
        ensures
            final(self)@ == (LedgerView { coverage: coverage@, ..old(self)@ }),
    {
        self.coverage = coverage;
    }
}

/// Any number of failures of one round, filed once, are one attempt; a success
/// after them leaves nothing behind but what is missing.
pub proof fn law_one_round_is_one_attempt(ledger: LedgerView, e: ErrorView)
    requires
        e.failure != FetchFailure::Absent,
        ledger.failures < u32::MAX,
    ensures
        ledger.failed(e).failures == ledger.failures + 1,
        ledger.failed(e).clean() == ledger.clean(),
        ledger.failed(e).clean().health() == FetchHealth::Well,
{
}

/// The failures of a round come to one that may recover where any may, to a
/// refusal where some are and none may recover, and to an absence otherwise.
pub proof fn law_one_soft_failure_makes_a_round_soft(failures: Seq<FetchFailure>)
    ensures
        (FetchFailure::of_round_view(failures) == FetchFailure::Transient) == exists|i: int|
            0 <= i < failures.len() && #[trigger] failures[i] == FetchFailure::Transient,
        (FetchFailure::of_round_view(failures) == FetchFailure::Absent) == forall|i: int|
            0 <= i < failures.len() ==> #[trigger] failures[i] == FetchFailure::Absent,
{
    if failures.contains(FetchFailure::Transient) {
        let i = failures.index_of(FetchFailure::Transient);
        assert(failures[i] == FetchFailure::Transient);
    }
    if failures.contains(FetchFailure::Permanent) {
        let i = failures.index_of(FetchFailure::Permanent);
        assert(failures[i] == FetchFailure::Permanent);
    }
    if exists|i: int| 0 <= i < failures.len() && #[trigger] failures[i] == FetchFailure::Transient {
        let i = choose|i: int|
            0 <= i < failures.len() && #[trigger] failures[i] == FetchFailure::Transient;
        assert(failures.contains(failures[i]));
    }
    if !failures.contains(FetchFailure::Transient) && !failures.contains(FetchFailure::Permanent) {
        assert forall|i: int| 0 <= i < failures.len() implies #[trigger] failures[i]
            == FetchFailure::Absent by {
            assert(failures.contains(failures[i]));
        }
    }
}

/// One refusal is not believed, two in a row are, and a failure of another kind in
/// between starts them over. An absence is an answer: nothing is failing after it.
/// What a failed round said is kept until the next, and so is what is missing.
pub proof fn law_a_refusal_is_believed_when_repeated(
    ledger: LedgerView,
    first: ErrorView,
    second: ErrorView,
)
    requires
        ledger.refusals == 0,
        ledger.failures < u32::MAX - 1,
    ensures
        ledger.failed(first).health() != FetchHealth::Broken,
        (ledger.failed(first).failed(second).health() == FetchHealth::Broken) == (first.failure
            == FetchFailure::Permanent && second.failure == FetchFailure::Permanent),
        ledger.failed(first).last == Some(first),
        ledger.failed(first).coverage == ledger.coverage,
        ledger.clean().coverage == ledger.coverage,
        ledger.clean().health() == FetchHealth::Well,
        ledger.clean().failures == 0,
        first.failure == FetchFailure::Absent ==> ledger.failed(first).failures == 0
            && ledger.failed(first).health() == FetchHealth::Absent,
        first.failure != FetchFailure::Absent ==> ledger.failed(first).failures == ledger.failures
            + 1 && ledger.failed(first).health() == FetchHealth::Stale,
{
}

/// A note is made of what is missing exactly where something is.
pub proof fn law_a_note_is_made_of_what_is_missing(coverage: CompletenessView)
    ensures
        (coverage.note() is None) == (coverage.missing == 0),
{
}

} // verus!
