//! What a round of outlook fetches came to, as a property of the selection and
//! not of the order its tasks resolved in.
use vstd::prelude::*;
use crate::fetch::{
    CompletenessView,
    DataCompleteness,
    ErrorView,
    FetchError,
    FetchFailure,
};
use crate::outlook::selection::OutlookKey;
use crate::table::Table;
use crate::text::{decimal, decimal_text, join, joined};

verus! {

/// What the answers of a round add up to.
#[derive(Debug)]
pub enum RoundVerdict {
    /// Nothing the layer asks for is failing.
    Clear,
    /// Nothing failed, nothing drew, and what answered said it is not published.
    NotPublished(FetchError),
    /// Something the layer asks for did not load.
    Failed(FetchError),
}

/// [`RoundVerdict`] over mathematical values.
pub enum VerdictView {
    Clear,
    NotPublished(ErrorView),
    Failed(ErrorView),
}

impl View for RoundVerdict {
    type V = VerdictView;

    open spec fn view(&self) -> VerdictView {
        match *self {
            RoundVerdict::Clear => VerdictView::Clear,
            RoundVerdict::NotPublished(e) => VerdictView::NotPublished(e@),
            RoundVerdict::Failed(e) => VerdictView::Failed(e@),
        }
    }
}

/// The errors of a table, over mathematical values.
pub open spec fn error_views(errors: Map<OutlookKey, FetchError>) -> Map<OutlookKey, ErrorView> {
    errors.map_values(|e: FetchError| e@)
}

/// The keys of a scope whose last answer was a failure.
pub open spec fn failing(scope: Seq<OutlookKey>, errors: Map<OutlookKey, ErrorView>) -> Seq<
    OutlookKey,
>
    decreases scope.len(),
{
    if scope.len() == 0 {
        Seq::empty()
    } else {
        let before = failing(scope.drop_last(), errors);
        let key = scope.last();
        if errors.contains_key(key) && errors[key].failure != FetchFailure::Absent {
            before.push(key)
        } else {
            before
        }
    }
}

/// The keys of a scope whose last answer was that nothing is published.
pub open spec fn unpublished(scope: Seq<OutlookKey>, errors: Map<OutlookKey, ErrorView>) -> Seq<
    OutlookKey,
>
    decreases scope.len(),
{
    if scope.len() == 0 {
        Seq::empty()
    } else {
        let before = unpublished(scope.drop_last(), errors);
        let key = scope.last();
        if errors.contains_key(key) && errors[key].failure == FetchFailure::Absent {
            before.push(key)
        } else {
            before
        }
    }
}

/// Whether something asked for answered with data.
pub open spec fn drew(
    scope: Seq<OutlookKey>,
    errors: Map<OutlookKey, ErrorView>,
    drawn: Set<OutlookKey>,
) -> bool {
    exists|i: int|
        0 <= i < scope.len() && !errors.contains_key(#[trigger] scope[i]) && drawn.contains(
            scope[i],
        )
}

/// The keys of a scope that failed and have nothing on the map.
pub open spec fn off_map(
    scope: Seq<OutlookKey>,
    errors: Map<OutlookKey, ErrorView>,
    drawn: Set<OutlookKey>,
) -> Seq<OutlookKey>
    decreases scope.len(),
{
    if scope.len() == 0 {
        Seq::empty()
    } else {
        let before = off_map(scope.drop_last(), errors, drawn);
        let key = scope.last();
        if errors.contains_key(key) && errors[key].failure != FetchFailure::Absent
            && !drawn.contains(key) {
            before.push(key)
        } else {
            before
        }
    }
}

/// One product and what its last answer said.
pub open spec fn reason(key: OutlookKey, errors: Map<OutlookKey, ErrorView>) -> Seq<char> {
    key.product.code() + ": "@ + errors[key].message
}

/// What the last answers of some keys said.
pub open spec fn reasons(keys: Seq<OutlookKey>, errors: Map<OutlookKey, ErrorView>) -> Seq<
    Seq<char>,
> {
    Seq::new(keys.len(), |i: int| reason(keys[i], errors))
}

/// The failures of some keys.
pub open spec fn failures_of(keys: Seq<OutlookKey>, errors: Map<OutlookKey, ErrorView>) -> Seq<
    FetchFailure,
> {
    Seq::new(keys.len(), |i: int| errors[keys[i]].failure)
}

/// `n` of `asked` outlook products, what happened to them, and what each said.
pub open spec fn tally(n: nat, asked: nat, what: Seq<char>, said: Seq<Seq<char>>) -> Seq<char> {
    decimal(n) + " of "@ + decimal(asked) + what + joined(said, "; "@)
}

/// What the answers to a scope add up to.
pub open spec fn verdict(
    scope: Seq<OutlookKey>,
    errors: Map<OutlookKey, ErrorView>,
    drawn: Set<OutlookKey>,
) -> VerdictView {
    let failed = failing(scope, errors);
    let absent = unpublished(scope, errors);
    if failed.len() > 0 {
        VerdictView::Failed(
            ErrorView {
                failure: FetchFailure::of_round_view(failures_of(failed, errors)),
                message: tally(
                    failed.len(),
                    scope.len(),
                    " outlook products did not load: "@,
                    reasons(failed, errors),
                ),
            },
        )
    } else if drew(scope, errors, drawn) {
        VerdictView::Clear
    } else if absent.len() > 0 {
        VerdictView::NotPublished(
            ErrorView {
                failure: FetchFailure::Absent,
                message: tally(
                    absent.len(),
                    scope.len(),
                    " outlook products are not published right now: "@,
                    reasons(absent, errors),
                ),
            },
        )
    } else {
        VerdictView::Clear
    }
}

/// What of a scope is not on the map, as opposed to out of date.
pub open spec fn missing_from(
    scope: Seq<OutlookKey>,
    errors: Map<OutlookKey, ErrorView>,
    drawn: Set<OutlookKey>,
) -> CompletenessView {
    let gone = off_map(scope, errors, drawn);
    CompletenessView {
        expected: scope.len() as usize,
        missing: gone.len() as usize,
        unit: "outlook products"@,
        reasons: reasons(gone, errors),
    }
}

fn reason_text(key: &OutlookKey, e: &FetchError) -> (text: String)
    ensures
        text@ == key.product.code() + ": "@ + e.message@,
{
    let mut text = key.product.spelled().to_owned();
    text.append(": ");
    text.append(e.message.as_str());
    text
}

fn tally_text(n: usize, asked: usize, what: &str, said: &Vec<String>) -> (text: String)
    ensures
        text@ == tally(n as nat, asked as nat, what@, said.deep_view()),
{
    let mut text = decimal_text(n as u64);
    text.append(" of ");
    text.append(decimal_text(asked as u64).as_str());
    text.append(what);
    text.append(join(said, "; ").as_str());
    text
}

proof fn lemma_reasons_pushed(
    keys: Seq<OutlookKey>,
    key: OutlookKey,
    errors: Map<OutlookKey, ErrorView>,
)
    ensures
        reasons(keys.push(key), errors) == reasons(keys, errors).push(reason(key, errors)),
        failures_of(keys.push(key), errors) == failures_of(keys, errors).push(errors[key].failure),
{
    assert(reasons(keys.push(key), errors) =~= reasons(keys, errors).push(reason(key, errors)));
    assert(failures_of(keys.push(key), errors) =~= failures_of(keys, errors).push(
        errors[key].failure,
    ));
}

fn push_text(texts: &mut Vec<String>, text: String)
    ensures
        final(texts).deep_view() == old(texts).deep_view().push(text@),
{
    texts.push(text);
    assert(texts.deep_view() =~= old(texts).deep_view().push(text@));
}

/// What every product's last answer adds up to.
pub fn round_verdict<T>(
    scope: &Vec<OutlookKey>,
    errors: &Table<OutlookKey, FetchError>,
    data: &Table<OutlookKey, T>,
) -> (v: RoundVerdict)
    requires
        errors.wf(),
        data.wf(),
    ensures
        v@ == verdict(scope@, error_views(errors@), data@.dom()),
{
    let ghost views = error_views(errors@);
    let ghost drawn = data@.dom();
    let mut failed: Vec<String> = Vec::new();
    let mut failures: Vec<FetchFailure> = Vec::new();
    let mut absent: Vec<String> = Vec::new();
    let mut any_drew = false;
    let mut at: usize = 0;
    assert(failed.deep_view() =~= reasons(Seq::empty(), views));
    assert(failures@ =~= failures_of(Seq::empty(), views));
    assert(absent.deep_view() =~= reasons(Seq::empty(), views));
    while at < scope.len()
        invariant
            at <= scope@.len(),
            errors.wf(),
            data.wf(),
            views == error_views(errors@),
            drawn == data@.dom(),
            failed.deep_view() == reasons(failing(scope@.take(at as int), views), views),
            failures@ == failures_of(failing(scope@.take(at as int), views), views),
            absent.deep_view() == reasons(unpublished(scope@.take(at as int), views), views),
            any_drew == drew(scope@.take(at as int), views, drawn),
        decreases scope@.len() - at,
    {
        let key = scope[at];
        let ghost before = scope@.take(at as int);
        let ghost grown = scope@.take(at + 1);
        assert(grown.drop_last() =~= before);
        assert(grown.last() == key);
        let ghost drew_now = !views.contains_key(key) && drawn.contains(key);
        proof {
            lemma_reasons_pushed(failing(before, views), key, views);
            lemma_reasons_pushed(unpublished(before, views), key, views);
            if drew_now {
                assert(grown[at as int] == key);
            }
            if drew(before, views, drawn) {
                let i = choose|i: int|
                    0 <= i < before.len() && !views.contains_key(#[trigger] before[i])
                        && drawn.contains(before[i]);
                assert(grown[i] == before[i]);
            }
            if drew(grown, views, drawn) && !drew_now {
                let i = choose|i: int|
                    0 <= i < grown.len() && !views.contains_key(#[trigger] grown[i])
                        && drawn.contains(grown[i]);
                assert(before[i] == grown[i]);
            }
        }
        match errors.get(&key) {
            Some(e) => {
                let text = reason_text(&key, e);
                if e.failure == FetchFailure::Absent {
                    push_text(&mut absent, text);
                } else {
                    push_text(&mut failed, text);
                    failures.push(e.failure);
                }
            },
            None => {
                if data.contains_key(&key) {
                    any_drew = true;
                }
            },
        }
        at = at + 1;
    }
    assert(scope@.take(at as int) =~= scope@);
    if failed.len() > 0 {
        return RoundVerdict::Failed(
            FetchError {
                failure: FetchFailure::of_round(&failures),
                message: tally_text(
                    failed.len(),
                    scope.len(),
                    " outlook products did not load: ",
                    &failed,
                ),
            },
        );
    }
    if any_drew {
        return RoundVerdict::Clear;
    }
    if absent.len() > 0 {
        return RoundVerdict::NotPublished(
            FetchError {
                failure: FetchFailure::Absent,
                message: tally_text(
                    absent.len(),
                    scope.len(),
                    " outlook products are not published right now: ",
                    &absent,
                ),
            },
        );
    }
    RoundVerdict::Clear
}

/// What of a selection is not on the map.
pub fn round_coverage<T>(
    scope: &Vec<OutlookKey>,
    errors: &Table<OutlookKey, FetchError>,
    data: &Table<OutlookKey, T>,
) -> (coverage: DataCompleteness)
    requires
        errors.wf(),
        data.wf(),
    ensures
        coverage@ == missing_from(scope@, error_views(errors@), data@.dom()),
{
    let ghost views = error_views(errors@);
    let ghost drawn = data@.dom();
    let mut said: Vec<String> = Vec::new();
    let mut at: usize = 0;
    assert(said.deep_view() =~= reasons(Seq::empty(), views));
    while at < scope.len()
        invariant
            at <= scope@.len(),
            errors.wf(),
            data.wf(),
            views == error_views(errors@),
            drawn == data@.dom(),
            said.deep_view() == reasons(off_map(scope@.take(at as int), views, drawn), views),
        decreases scope@.len() - at,
    {
        let key = scope[at];
        let ghost before = scope@.take(at as int);
        assert(scope@.take(at + 1).drop_last() =~= before);
        proof {
            lemma_reasons_pushed(off_map(before, views, drawn), key, views);
        }
        if let Some(e) = errors.get(&key) {
            if e.failure != FetchFailure::Absent && !data.contains_key(&key) {
                push_text(&mut said, reason_text(&key, e));
            }
        }
        at = at + 1;
    }
    assert(scope@.take(at as int) =~= scope@);
    let coverage = DataCompleteness {
        expected: scope.len(),
        missing: said.len(),
        unit: "outlook products",
        reasons: said,
    };
    assert(coverage@ =~= missing_from(scope@, views, drawn));
    coverage
}

/// A verdict looks at nothing but what the scope asks for: errors and data of
/// other products do not move it.
pub proof fn law_verdict_is_of_the_selection(
    scope: Seq<OutlookKey>,
    errors: Map<OutlookKey, ErrorView>,
    drawn: Set<OutlookKey>,
    other_errors: Map<OutlookKey, ErrorView>,
    other_drawn: Set<OutlookKey>,
)
    requires
        forall|i: int|
            0 <= i < scope.len() ==> {
                &&& errors.contains_key(#[trigger] scope[i]) == other_errors.contains_key(scope[i])
                &&& errors.contains_key(scope[i]) ==> errors[scope[i]] == other_errors[scope[i]]
                &&& drawn.contains(scope[i]) == other_drawn.contains(scope[i])
            },
    ensures
        verdict(scope, errors, drawn) == verdict(scope, other_errors, other_drawn),
        missing_from(scope, errors, drawn) == missing_from(scope, other_errors, other_drawn),
{
    lemma_same_answers(scope, errors, drawn, other_errors, other_drawn);
    let failed = failing(scope, errors);
    let absent = unpublished(scope, errors);
    let gone = off_map(scope, errors, drawn);
    assert(reasons(failed, errors) =~= reasons(failed, other_errors));
    assert(failures_of(failed, errors) =~= failures_of(failed, other_errors));
    assert(reasons(absent, errors) =~= reasons(absent, other_errors));
    assert(reasons(gone, errors) =~= reasons(gone, other_errors));
    if drew(scope, errors, drawn) {
        let i = choose|i: int|
            0 <= i < scope.len() && !errors.contains_key(#[trigger] scope[i]) && drawn.contains(
                scope[i],
            );
        assert(!other_errors.contains_key(scope[i]));
    }
    if drew(scope, other_errors, other_drawn) {
        let i = choose|i: int|
            0 <= i < scope.len() && !other_errors.contains_key(#[trigger] scope[i])
                && other_drawn.contains(scope[i]);
        assert(!errors.contains_key(scope[i]));
    }
}

proof fn lemma_same_answers(
    scope: Seq<OutlookKey>,
    errors: Map<OutlookKey, ErrorView>,
    drawn: Set<OutlookKey>,
    other_errors: Map<OutlookKey, ErrorView>,
    other_drawn: Set<OutlookKey>,
)
    requires
        forall|i: int|
            0 <= i < scope.len() ==> {
                &&& errors.contains_key(#[trigger] scope[i]) == other_errors.contains_key(scope[i])
                &&& errors.contains_key(scope[i]) ==> errors[scope[i]] == other_errors[scope[i]]
                &&& drawn.contains(scope[i]) == other_drawn.contains(scope[i])
            },
    ensures
        failing(scope, errors) == failing(scope, other_errors),
        unpublished(scope, errors) == unpublished(scope, other_errors),
        off_map(scope, errors, drawn) == off_map(scope, other_errors, other_drawn),
        forall|i: int|
            0 <= i < failing(scope, errors).len() ==> {
                &&& errors.contains_key(#[trigger] failing(scope, errors)[i])
                &&& errors[failing(scope, errors)[i]] == other_errors[failing(scope, errors)[i]]
            },
        forall|i: int|
            0 <= i < unpublished(scope, errors).len() ==> errors[#[trigger] unpublished(
                scope,
                errors,
            )[i]] == other_errors[unpublished(scope, errors)[i]],
        forall|i: int|
            0 <= i < off_map(scope, errors, drawn).len() ==> errors[#[trigger] off_map(
                scope,
                errors,
                drawn,
            )[i]] == other_errors[off_map(scope, errors, drawn)[i]],
    decreases scope.len(),
{
    if scope.len() > 0 {
        let shorter = scope.drop_last();
        assert forall|i: int| 0 <= i < shorter.len() implies {
            &&& errors.contains_key(#[trigger] shorter[i]) == other_errors.contains_key(shorter[i])
            &&& errors.contains_key(shorter[i]) ==> errors[shorter[i]] == other_errors[shorter[i]]
            &&& drawn.contains(shorter[i]) == other_drawn.contains(shorter[i])
        } by {
            assert(scope[i] == shorter[i]);
        }
        lemma_same_answers(shorter, errors, drawn, other_errors, other_drawn);
        assert(scope[scope.len() - 1] == scope.last());
    }
}

/// What failed of a scope is every product of it whose last answer was a failure
/// other than that nothing is published, in the scope's order; what is not
/// published, and what failed and has nothing drawn, likewise.
pub proof fn law_a_scope_is_sorted_by_its_answers(
    scope: Seq<OutlookKey>,
    errors: Map<OutlookKey, ErrorView>,
    drawn: Set<OutlookKey>,
)
    ensures
        failing(scope, errors) == scope.filter(
            |key: OutlookKey|
                errors.contains_key(key) && errors[key].failure != FetchFailure::Absent,
        ),
        unpublished(scope, errors) == scope.filter(
            |key: OutlookKey|
                errors.contains_key(key) && errors[key].failure == FetchFailure::Absent,
        ),
        off_map(scope, errors, drawn) == scope.filter(
            |key: OutlookKey|
                errors.contains_key(key) && errors[key].failure != FetchFailure::Absent
                    && !drawn.contains(key),
        ),
    decreases scope.len(),
{
    reveal(Seq::filter);
    if scope.len() > 0 {
        law_a_scope_is_sorted_by_its_answers(scope.drop_last(), errors, drawn);
    }
}

/// A round has failed exactly where something of its scope has: as one that may
/// recover where any failure may, and as refused otherwise. It is not published
/// where nothing failed, nothing asked for stands with data and without an error,
/// and something is not published. It is clear in every other case.
pub proof fn law_a_verdict_is_what_the_scope_answered(
    scope: Seq<OutlookKey>,
    errors: Map<OutlookKey, ErrorView>,
    drawn: Set<OutlookKey>,
)
    ensures
        ({
            let failed = exists|i: int|
                0 <= i < scope.len() && errors.contains_key(#[trigger] scope[i])
                    && errors[scope[i]].failure != FetchFailure::Absent;
            let soft = exists|i: int|
                0 <= i < scope.len() && errors.contains_key(#[trigger] scope[i])
                    && errors[scope[i]].failure == FetchFailure::Transient;
            let well = exists|i: int|
                0 <= i < scope.len() && !errors.contains_key(#[trigger] scope[i]) && drawn.contains(
                    scope[i],
                );
            let absent = exists|i: int|
                0 <= i < scope.len() && errors.contains_key(#[trigger] scope[i])
                    && errors[scope[i]].failure == FetchFailure::Absent;
            match verdict(scope, errors, drawn) {
                VerdictView::Failed(e) => failed && e.failure == (if soft {
                    FetchFailure::Transient
                } else {
                    FetchFailure::Permanent
                }),
                VerdictView::NotPublished(e) => !failed && !well && absent && e.failure
                    == FetchFailure::Absent,
                VerdictView::Clear => !failed && (well || !absent),
            }
        }),
{
    law_a_scope_is_sorted_by_its_answers(scope, errors, drawn);
    let bad = |key: OutlookKey|
        errors.contains_key(key) && errors[key].failure != FetchFailure::Absent;
    let gone = |key: OutlookKey|
        errors.contains_key(key) && errors[key].failure == FetchFailure::Absent;
    let (failed, absent) = (scope.filter(bad), scope.filter(gone));
    let kinds = failures_of(failed, errors);
    assert forall|i: int| 0 <= i < scope.len() && bad(#[trigger] scope[i]) implies kinds.contains(
        errors[scope[i]].failure,
    ) && failed.len() > 0 by {
        scope.lemma_filter_contains(bad, i);
        let k = failed.index_of(scope[i]);
        assert(kinds[k] == errors[scope[i]].failure);
    }
    assert forall|i: int| 0 <= i < scope.len() && gone(#[trigger] scope[i]) implies absent.len()
        > 0 by {
        scope.lemma_filter_contains(gone, i);
    }
    if failed.len() > 0 {
        scope.lemma_filter_pred(bad, 0);
        assert(failed.contains(failed[0]));
        scope.lemma_filter_contains_rev(bad, failed[0]);
        assert(bad(scope[scope.index_of(failed[0])]));
    }
    if absent.len() > 0 {
        scope.lemma_filter_pred(gone, 0);
        assert(absent.contains(absent[0]));
        scope.lemma_filter_contains_rev(gone, absent[0]);
        assert(gone(scope[scope.index_of(absent[0])]));
    }
    if kinds.contains(FetchFailure::Transient) {
        let k = kinds.index_of(FetchFailure::Transient);
        scope.lemma_filter_pred(bad, k);
        assert(failed.contains(failed[k]));
        scope.lemma_filter_contains_rev(bad, failed[k]);
        assert(errors[scope[scope.index_of(failed[k])]].failure == FetchFailure::Transient);
    }
}

/// Coverage expects one of each product asked for, and counts as missing each that
/// failed and has nothing drawn, with a reason for each.
pub proof fn law_coverage_counts_what_is_off_the_map(
    scope: Seq<OutlookKey>,
    errors: Map<OutlookKey, ErrorView>,
    drawn: Set<OutlookKey>,
)
    requires
        scope.len() <= usize::MAX,
    ensures
        ({
            let coverage = missing_from(scope, errors, drawn);
            let gone = scope.filter(
                |key: OutlookKey|
                    errors.contains_key(key) && errors[key].failure != FetchFailure::Absent
                        && !drawn.contains(key),
            );
            &&& coverage.expected == scope.len()
            &&& coverage.missing == gone.len()
            &&& coverage.reasons.len() == gone.len()
            &&& forall|i: int|
                0 <= i < gone.len() ==> #[trigger] coverage.reasons[i] == gone[i].product.code()
                    + ": "@ + errors[gone[i]].message
        }),
{
    law_a_scope_is_sorted_by_its_answers(scope, errors, drawn);
    let gone = |key: OutlookKey|
        errors.contains_key(key) && errors[key].failure != FetchFailure::Absent && !drawn.contains(
            key,
        );
    scope.lemma_filter_len(gone);
}

/// What a failed round says names every product that failed with what it said, in
/// the scope's order, and counts them out of what was asked for; what is not
/// published is named and counted likewise.
pub proof fn law_a_verdict_names_every_product(
    scope: Seq<OutlookKey>,
    errors: Map<OutlookKey, ErrorView>,
    drawn: Set<OutlookKey>,
)
    ensures
        ({
            let said = |key: OutlookKey| key.product.code() + ": "@ + errors[key].message;
            let failed = scope.filter(
                |key: OutlookKey|
                    errors.contains_key(key) && errors[key].failure != FetchFailure::Absent,
            );
            let absent = scope.filter(
                |key: OutlookKey|
                    errors.contains_key(key) && errors[key].failure == FetchFailure::Absent,
            );
            match verdict(scope, errors, drawn) {
                VerdictView::Failed(e) => e.message == decimal(failed.len()) + " of "@ + decimal(
                    scope.len(),
                ) + " outlook products did not load: "@ + joined(failed.map_values(said), "; "@),
                VerdictView::NotPublished(e) => e.message == decimal(absent.len()) + " of "@
                    + decimal(scope.len()) + " outlook products are not published right now: "@
                    + joined(absent.map_values(said), "; "@),
                VerdictView::Clear => true,
            }
        }),
{
    law_a_scope_is_sorted_by_its_answers(scope, errors, drawn);
    let said = |key: OutlookKey| key.product.code() + ": "@ + errors[key].message;
    let (failed, absent) = (failing(scope, errors), unpublished(scope, errors));
    assert(reasons(failed, errors) =~= failed.map_values(said));
    assert(reasons(absent, errors) =~= absent.map_values(said));
}

} // verus!
