//! The SPC outlook layer: one day's products, fetched as a round and painted
//! while their issuance is in force.
//!
//! A round is one request per product for all panes together, so what it is
//! judged against is the union of what the panes ask for.
pub mod round;
pub mod selection;

use std::sync::Arc;
use vstd::prelude::*;
use crate::controls::{
    push_item,
    push_info,
    refresh_buttons,
    refresh_row,
    ButtonView,
    ControlButton,
    ControlEffect,
    ControlItem,
    ControlUpdate,
    ControlValue,
    ItemView,
};
use crate::fetch::{one_more, ErrorView, FetchError, FetchFailure, LedgerView};
use crate::instant::Instant;
use crate::jobs::outlooks::OutlooksInput;
use crate::jobs::shapes::OverlayFeature;
use crate::jobs::{law_labels_tell_rows_apart, JobRow};
use crate::layers::{LayerId, RenderMode, TimeAxis};
use crate::memo::JobMemo;
use crate::outlook::round::{
    error_views,
    failing,
    failures_of,
    law_a_verdict_is_what_the_scope_answered,
    missing_from,
    reasons,
    round_coverage,
    round_verdict,
    tally,
    verdict,
    RoundVerdict,
    VerdictView,
};
use crate::outlook::selection::{
    keys_of,
    law_a_set_is_its_members,
    members,
    union_of,
    union_scope,
    OutlookDay,
    OutlookKey,
    OutlookPaneState,
    OutlookProduct,
    ProductSet,
};
use crate::pane::Pane;
use crate::popup::{
    push_row,
    push_section,
    time_text,
    time_view,
    PopupContent,
    PopupSection,
    PopupView,
    SectionView,
    TimezonePreference,
};
use crate::recency::{lists, Key};
use crate::residency::{all_joined, in_any, law_joining_keeps_instants, Residency};
use crate::state::{next_generation, bump, OverlayState, RasterizeContext};
use crate::table::Table;
use crate::text::{decimal, decimal_text, join, joined, same_text};

verus! {

/// One product's issuance.
#[derive(Debug)]
pub struct SpcOutlook {
    pub day: OutlookDay,
    pub product: OutlookProduct,
    /// When it takes effect, where the feed says.
    pub valid: Option<Instant>,
    /// When it lapses, where the feed says.
    pub expire: Option<Instant>,
    pub features: Vec<Arc<OverlayFeature>>,
}

impl SpcOutlook {
    /// Whether the issuance is in force. A side the feed does not state passes:
    /// an issuance is never dropped for want of a readable time.
    pub open spec fn in_force(&self, as_of: Instant) -> bool {
        &&& self.valid matches Some(valid) ==> valid.not_after(as_of)
        &&& self.expire matches Some(expire) ==> as_of.before(expire)
    }

    pub fn is_in_force(&self, as_of: &Instant) -> (b: bool)
        ensures
            b == self.in_force(*as_of),
    {
        let begun = match &self.valid {
            Some(valid) => valid.is_not_after(as_of),
            None => true,
        };
        let open = match &self.expire {
            Some(expire) => as_of.is_before(expire),
            None => true,
        };
        begun && open
    }
}

/// One product's answer.
#[derive(Debug)]
pub struct SpcOutlookFetchResult {
    pub day: OutlookDay,
    pub product: OutlookProduct,
    pub result: Result<SpcOutlook, FetchError>,
}

impl SpcOutlookFetchResult {
    pub open spec fn answer(&self) -> AnswerView {
        match self.result {
            Ok(outlook) => AnswerView::Loaded(outlook),
            Err(e) => AnswerView::Refused(e@),
        }
    }
}

/// Where the SPC shows a day's outlook.
pub open spec fn page_url(day: OutlookDay) -> Seq<char> {
    if day.extended() {
        "https://www.spc.noaa.gov/products/exper/day4-8/"@
    } else {
        "https://www.spc.noaa.gov/products/outlook/day"@ + day.number() + "otlk.html"@
    }
}

pub fn outlook_page_url(day: OutlookDay) -> (url: String)
    ensures
        url@ == page_url(day),
{
    if day.is_extended() {
        "https://www.spc.noaa.gov/products/exper/day4-8/".to_owned()
    } else {
        let mut url = "https://www.spc.noaa.gov/products/outlook/day".to_owned();
        url.append(day.label());
        url.append("otlk.html");
        url
    }
}

/// A band of an outlook that was clicked.
#[derive(Debug)]
pub struct OutlookItem {
    pub label: String,
    pub day: OutlookDay,
    pub product: OutlookProduct,
    pub valid: Option<Instant>,
    pub expire: Option<Instant>,
}

impl OutlookItem {
    /// The dialog of a band. `local_valid` and `local_expire` are its two ends on
    /// the machine's own clock.
    pub open spec fn popup(
        &self,
        timezone: TimezonePreference,
        local_valid: Seq<char>,
        local_expire: Seq<char>,
    ) -> PopupView {
        PopupView {
            title: "SPC Day "@ + self.day.number() + " "@ + self.product.name() + " Outlook"@,
            accent_rgb: seq![200u8, 200u8, 100u8],
            width: 300,
            sections: seq![
                SectionView::Heading(self.label@),
                SectionView::KeyValueGrid(
                    seq![
                        ("Day"@, self.day.name()),
                        ("Product"@, self.product.name()),
                        ("Valid"@, time_view(self.valid, timezone, local_valid)),
                        ("Expires"@, time_view(self.expire, timezone, local_expire)),
                    ],
                ),
                SectionView::Separator,
                SectionView::Link {
                    label: "Open on SPC website"@,
                    url: page_url(self.day),
                },
            ],
        }
    }

    pub fn popup_content(
        &self,
        timezone: TimezonePreference,
        local_valid: &str,
        local_expire: &str,
    ) -> (content: PopupContent)
        ensures
            content.deep_view() == self.popup(timezone, local_valid@, local_expire@),
    {
        let mut title = "SPC Day ".to_owned();
        title.append(self.day.label());
        title.append(" ");
        title.append(self.product.display());
        title.append(" Outlook");
        let mut rows: Vec<(String, String)> = Vec::new();
        assert(rows.deep_view() =~= Seq::empty());
        push_row(&mut rows, "Day", self.day.to_text());
        push_row(&mut rows, "Product", self.product.display().to_owned());
        push_row(&mut rows, "Valid", time_text(self.valid, timezone, local_valid));
        push_row(&mut rows, "Expires", time_text(self.expire, timezone, local_expire));
        let mut sections: Vec<PopupSection> = Vec::new();
        assert(sections.deep_view() =~= Seq::empty());
        push_section(&mut sections, PopupSection::Heading(self.label.clone()));
        push_section(&mut sections, PopupSection::KeyValueGrid(rows));
        push_section(&mut sections, PopupSection::Separator);
        push_section(
            &mut sections,
            PopupSection::Link {
                label: "Open on SPC website".to_owned(),
                url: outlook_page_url(self.day),
            },
        );
        let content = PopupContent { title, accent_rgb: [200, 200, 100], width: 300, sections };
        proof {
            let wanted = self.popup(timezone, local_valid@, local_expire@);
            assert(rows.deep_view() =~= wanted.sections[1]->KeyValueGrid_0);
            assert(content.deep_view().sections =~= wanted.sections);
            assert(content.deep_view().accent_rgb =~= wanted.accent_rgb);
        }
        content
    }

    /// Whether two items are the same band of the same day's product.
    pub fn matches(&self, other: &OutlookItem) -> (b: bool)
        ensures
            b == (self.label@ == other.label@ && self.day == other.day && self.product
                == other.product),
    {
        self.day == other.day && self.product == other.product && same_text(
            self.label.as_str(),
            other.label.as_str(),
        )
    }
}

/// Every term of a picture other than the data itself.
#[derive(Clone, Copy, Debug, PartialEq, Eq, Structural)]
pub struct PaintKey {
    pub day: OutlookDay,
    /// The enabled products whose issuance is in force.
    pub in_force: ProductSet,
    pub is_dark: bool,
    pub device_scale: u32,
}

impl Key for PaintKey {
    fn same(&self, other: &PaintKey) -> (b: bool) {
        *self == *other
    }
}

/// The outlook layer.
#[derive(Debug)]
pub struct SpcOutlookHandler {
    pub state: OverlayState<Table<OutlookKey, SpcOutlook>>,
    /// Per product, so that one product's refetch does not age the others.
    pub per_product_generation: Table<OutlookKey, u64>,
    /// Moved when what is drawn changes without a fetch.
    pub config_generation: u64,
    /// The last answer of each product that was not a success.
    pub per_product_error: Table<OutlookKey, FetchError>,
    /// How many fetches are still under way.
    pub outstanding: usize,
    /// Whether anything asked for now has answered since the last verdict.
    pub round_answered_in_scope: bool,
    /// Failures of this round for products nobody asks for any more.
    pub round_stray_failures: Vec<FetchError>,
    /// What is used where there is no pane.
    pub defaults: OutlookPaneState,
    pub job_memo: JobMemo<PaintKey, OutlooksInput>,
    /// What the layer let go, until it is taken away to be freed.
    pub retired: Option<Table<OutlookKey, SpcOutlook>>,
}

/// Something that waits to be freed where nobody waits for it.
#[derive(Debug)]
pub enum Retired {
    Outlooks(Table<OutlookKey, SpcOutlook>),
    Input(Arc<OutlooksInput>),
}

/// [`SpcOutlookHandler`]'s round over mathematical values.
#[verifier::ext_equal]
pub struct OutlookView {
    pub data: Map<OutlookKey, SpcOutlook>,
    pub errors: Map<OutlookKey, ErrorView>,
    pub generations: Map<OutlookKey, u64>,
    pub config_generation: u64,
    pub outstanding: usize,
    pub answered: bool,
    pub strays: Seq<ErrorView>,
    pub fetch_time: Option<u64>,
    pub ledger: LedgerView,
}

/// The failures of a list of errors, over mathematical values.
pub open spec fn error_list(errors: Seq<FetchError>) -> Seq<ErrorView> {
    errors.map_values(|e: FetchError| e@)
}

/// The kinds of a list of failures.
pub open spec fn failure_list(errors: Seq<ErrorView>) -> Seq<FetchFailure> {
    errors.map_values(|e: ErrorView| e.failure)
}

/// What failures for products nobody asks for come to.
pub open spec fn stray_error(strays: Seq<ErrorView>) -> ErrorView {
    ErrorView {
        failure: FetchFailure::of_round_view(failure_list(strays)),
        message: decimal(strays.len())
            + " outlook request(s) failed for products the layer no longer asks for"@,
    }
}

/// One product's answer, over mathematical values.
pub enum AnswerView {
    Loaded(SpcOutlook),
    Refused(ErrorView),
}

impl AnswerView {
    /// Whether this is a failure, and not that nothing is published.
    pub open spec fn is_failure(self) -> bool {
        match self {
            AnswerView::Loaded(_) => false,
            AnswerView::Refused(e) => e.failure != FetchFailure::Absent,
        }
    }
}

impl OutlookView {
    /// The keys with data.
    pub open spec fn drawn(self) -> Set<OutlookKey> {
        self.data.dom()
    }

    /// What the round's answers come to for a scope.
    pub open spec fn verdict(self, scope: Seq<OutlookKey>) -> VerdictView {
        verdict(scope, self.errors, self.drawn())
    }

    /// The ledger with what is missing from a scope put in.
    pub open spec fn covered(self, scope: Seq<OutlookKey>, ledger: LedgerView) -> LedgerView {
        LedgerView { coverage: missing_from(scope, self.errors, self.drawn()), ..ledger }
    }

    /// The round with its verdict filed: once, whatever number of its products
    /// failed. Where nothing asked for answered, the verdict is on the strays.
    pub open spec fn filed(self, scope: Seq<OutlookKey>) -> OutlookView {
        let ledger = if !self.answered {
            if self.strays.len() > 0 {
                self.ledger.failed(stray_error(self.strays))
            } else {
                self.ledger
            }
        } else {
            match self.verdict(scope) {
                VerdictView::Failed(e) => self.ledger.failed(e),
                VerdictView::NotPublished(e) => self.ledger.failed(e),
                VerdictView::Clear => self.ledger.clean(),
            }
        };
        OutlookView {
            answered: false,
            strays: Seq::empty(),
            ledger: self.covered(scope, ledger),
            ..self
        }
    }

    /// The round with one product's answer taken in.
    pub open spec fn answered_by(
        self,
        key: OutlookKey,
        answer: AnswerView,
        scope: Seq<OutlookKey>,
        now: u64,
    ) -> OutlookView {
        let in_scope = scope.contains(key);
        let taken = match answer {
            AnswerView::Loaded(outlook) => OutlookView {
                data: self.data.insert(key, outlook),
                errors: self.errors.remove(key),
                fetch_time: Some(now),
                generations: self.generations.insert(
                    key,
                    next_generation(counter(self.generations, key)),
                ),
                ..self
            },
            AnswerView::Refused(e) => if e.failure == FetchFailure::Absent {
                OutlookView {
                    errors: if in_scope {
                        self.errors.insert(key, e)
                    } else {
                        self.errors
                    },
                    fetch_time: Some(now),
                    ..self
                }
            } else if in_scope {
                OutlookView { errors: self.errors.insert(key, e), ..self }
            } else {
                OutlookView { strays: self.strays.push(e), ..self }
            },
        };
        OutlookView {
            answered: self.answered || in_scope,
            outstanding: if self.outstanding > 0 {
                (self.outstanding - 1) as usize
            } else {
                0
            },
            ..taken
        }
    }

    /// The round after one product's answer: the verdict is filed when the last
    /// of the round's tasks has landed.
    pub open spec fn landed(
        self,
        key: OutlookKey,
        answer: AnswerView,
        scope: Seq<OutlookKey>,
        now: u64,
    ) -> OutlookView {
        let taken = self.answered_by(key, answer, scope, now);
        if taken.outstanding == 0 {
            taken.filed(scope)
        } else {
            taken
        }
    }

    /// The round after a selection moved: errors nobody asks about are dropped,
    /// and unless tasks are still out the layer comes off the ledger where
    /// nothing that is left is failing.
    pub open spec fn refiled(self, scope: Seq<OutlookKey>) -> OutlookView {
        let kept = OutlookView {
            errors: self.errors.restrict(Set::new(|key: OutlookKey| scope.contains(key))),
            ..self
        };
        if kept.outstanding > 0 {
            kept
        } else {
            let ledger = match kept.verdict(scope) {
                VerdictView::Failed(_) => kept.ledger,
                VerdictView::NotPublished(e) => kept.ledger.failed(e),
                VerdictView::Clear => kept.ledger.clean(),
            };
            OutlookView { ledger: kept.covered(scope, ledger), ..kept }
        }
    }

    /// The number that moves whenever what is drawn may have: every product's
    /// own counter and the configuration's, added up and going round.
    pub open spec fn generation(self) -> u64 {
        counters(self.generations, every_key()).wrapping_add(self.config_generation)
    }

    /// Whether inputs built at a generation are still what they were built for,
    /// where the generation is the round's.
    pub open spec fn keeps_true(
        self,
        built_at: u64,
        rows: Map<PaintKey, Arc<OutlooksInput>>,
    ) -> bool {
        built_at == self.generation() ==> forall|key: PaintKey| #[trigger]
            rows.contains_key(key) ==> drawn_from(*rows[key], self.data, key)
    }

    /// The round with the configuration's counter moved.
    pub open spec fn turned(self) -> OutlookView {
        OutlookView { config_generation: next_generation(self.config_generation), ..self }
    }
}

impl View for SpcOutlookHandler {
    type V = OutlookView;

    open spec fn view(&self) -> OutlookView {
        OutlookView {
            data: self.state.data@,
            errors: error_views(self.per_product_error@),
            generations: self.per_product_generation@,
            config_generation: self.config_generation,
            outstanding: self.outstanding,
            answered: self.round_answered_in_scope,
            strays: error_list(self.round_stray_failures@),
            fetch_time: self.state.fetch_time,
            ledger: self.state.retry@,
        }
    }
}

/// The features of the products in force, in paint order.
pub open spec fn painted(
    data: Map<OutlookKey, SpcOutlook>,
    day: OutlookDay,
    products: Seq<OutlookProduct>,
    as_of: Instant,
) -> Seq<Arc<OverlayFeature>>
    decreases products.len(),
{
    if products.len() == 0 {
        Seq::empty()
    } else {
        let before = painted(data, day, products.drop_last(), as_of);
        let key = OutlookKey { day, product: products.last() };
        if data.contains_key(key) && data[key].in_force(as_of) {
            before + data[key].features@
        } else {
            before
        }
    }
}

/// The enabled products whose issuance is in force.
pub open spec fn force_set(
    data: Map<OutlookKey, SpcOutlook>,
    day: OutlookDay,
    products: Seq<OutlookProduct>,
    as_of: Instant,
) -> ProductSet
    decreases products.len(),
{
    if products.len() == 0 {
        ProductSet::none()
    } else {
        let before = force_set(data, day, products.drop_last(), as_of);
        let key = OutlookKey { day, product: products.last() };
        if data.contains_key(key) && data[key].in_force(as_of) {
            before.with(products.last(), true)
        } else {
            before
        }
    }
}

/// The products a pane draws, in paint order.
pub open spec fn drawn_products(view: OutlookPaneState) -> Seq<OutlookProduct> {
    members(view.enabled_products, view.selected_day.published())
}

/// The hatch colour of a theme.
pub open spec fn hatch_rgba(is_dark: bool) -> Seq<u8> {
    if is_dark {
        seq![200u8, 200u8, 200u8, 180u8]
    } else {
        seq![60u8, 60u8, 60u8, 180u8]
    }
}

/// What a pane's picture is painted from.
pub open spec fn paint_view(
    input: OutlooksInput,
    data: Map<OutlookKey, SpcOutlook>,
    view: OutlookPaneState,
    ctx: RasterizeContext,
) -> bool {
    &&& input.features@ == painted(data, view.selected_day, drawn_products(view), ctx.as_of)
    &&& input.hatch_color@ == hatch_rgba(ctx.is_dark)
    &&& input.device_scale == ctx.device_scale
}

/// The features of the products of a list that are in a set.
pub open spec fn gathered(
    data: Map<OutlookKey, SpcOutlook>,
    day: OutlookDay,
    products: Seq<OutlookProduct>,
    set: ProductSet,
) -> Seq<Arc<OverlayFeature>>
    decreases products.len(),
{
    if products.len() == 0 {
        Seq::empty()
    } else {
        let before = gathered(data, day, products.drop_last(), set);
        if set.has(products.last()) {
            before + data[OutlookKey { day, product: products.last() }].features@
        } else {
            before
        }
    }
}

/// Whether an input is what a key's picture is painted from.
pub open spec fn drawn_from(
    input: OutlooksInput,
    data: Map<OutlookKey, SpcOutlook>,
    key: PaintKey,
) -> bool {
    &&& input.features@ == gathered(data, key.day, key.day.published(), key.in_force)
    &&& input.features@.len() > 0
    &&& input.hatch_color@ == hatch_rgba(key.is_dark)
    &&& input.device_scale == key.device_scale
}

/// The key of a pane's picture.
pub open spec fn picture_key(
    data: Map<OutlookKey, SpcOutlook>,
    view: OutlookPaneState,
    ctx: RasterizeContext,
) -> PaintKey {
    PaintKey {
        day: view.selected_day,
        in_force: force_set(data, view.selected_day, drawn_products(view), ctx.as_of),
        is_dark: ctx.is_dark,
        device_scale: ctx.device_scale,
    }
}

proof fn lemma_force_set(
    data: Map<OutlookKey, SpcOutlook>,
    day: OutlookDay,
    products: Seq<OutlookProduct>,
    as_of: Instant,
    product: OutlookProduct,
)
    ensures
        force_set(data, day, products, as_of).has(product) == (products.contains(product)
            && data.contains_key(OutlookKey { day, product }) && data[OutlookKey {
            day,
            product,
        }].in_force(as_of)),
    decreases products.len(),
{
    if products.len() > 0 {
        let fewer = products.drop_last();
        lemma_force_set(data, day, fewer, as_of, product);
        assert(products[products.len() - 1] == products.last());
        if products.contains(product) {
            let i = products.index_of(product);
            if i < fewer.len() {
                assert(fewer[i] == product);
            }
        }
        if fewer.contains(product) {
            assert(products[fewer.index_of(product)] == product);
        }
    }
}

proof fn lemma_members_hold(set: ProductSet, products: Seq<OutlookProduct>, product: OutlookProduct)
    ensures
        members(set, products).contains(product) == (set.has(product) && products.contains(
            product,
        )),
    decreases products.len(),
{
    if products.len() > 0 {
        let fewer = products.drop_last();
        let (before, after) = (members(set, fewer), members(set, products));
        lemma_members_hold(set, fewer, product);
        assert(products[products.len() - 1] == products.last());
        if products.contains(product) {
            let i = products.index_of(product);
            if i < fewer.len() {
                assert(fewer[i] == product);
            }
        }
        if fewer.contains(product) {
            assert(products[fewer.index_of(product)] == product);
        }
        if set.has(products.last()) {
            assert(after[before.len() as int] == products.last());
            if before.contains(product) {
                assert(after[before.index_of(product)] == product);
            }
            if after.contains(product) {
                let i = after.index_of(product);
                if i < before.len() {
                    assert(before[i] == product);
                }
            }
        }
    }
}

proof fn lemma_gathered(
    data: Map<OutlookKey, SpcOutlook>,
    day: OutlookDay,
    products: Seq<OutlookProduct>,
    enabled: ProductSet,
    set: ProductSet,
    as_of: Instant,
)
    requires
        forall|product: OutlookProduct| #[trigger]
            products.contains(product) ==> set.has(product) == (enabled.has(product)
                && data.contains_key(OutlookKey { day, product }) && data[OutlookKey {
                day,
                product,
            }].in_force(as_of)),
    ensures
        painted(data, day, members(enabled, products), as_of) == gathered(data, day, products, set),
    decreases products.len(),
{
    if products.len() > 0 {
        let fewer = products.drop_last();
        assert forall|product: OutlookProduct| #[trigger] fewer.contains(product) implies set.has(
            product,
        ) == (enabled.has(product) && data.contains_key(OutlookKey { day, product })
            && data[OutlookKey { day, product }].in_force(as_of)) by {
            assert(products[fewer.index_of(product)] == product);
            assert(products.contains(product));
        }
        lemma_gathered(data, day, fewer, enabled, set, as_of);
        assert(products[products.len() - 1] == products.last());
        assert(products.contains(products.last()));
        if enabled.has(products.last()) {
            assert(members(enabled, products).drop_last() =~= members(enabled, fewer));
        }
    }
}

/// What a picture is painted from follows from its key: two panes, or two
/// instants, with the same key have the same picture.
pub proof fn law_a_key_is_its_picture(
    input: Arc<OutlooksInput>,
    data: Map<OutlookKey, SpcOutlook>,
    view: OutlookPaneState,
    ctx: RasterizeContext,
)
    ensures
        drawn_from(*input, data, picture_key(data, view, ctx)) == (paint_view(
            *input,
            data,
            view,
            ctx,
        ) && input.features@.len() > 0),
{
    let day = view.selected_day;
    let set = picture_key(data, view, ctx).in_force;
    assert forall|product: OutlookProduct| #[trigger]
        day.published().contains(product) implies set.has(product)
        == (view.enabled_products.has(product) && data.contains_key(OutlookKey { day, product })
        && data[OutlookKey { day, product }].in_force(ctx.as_of)) by {
        lemma_force_set(data, day, drawn_products(view), ctx.as_of, product);
        lemma_members_hold(view.enabled_products, day.published(), product);
    }
    lemma_gathered(data, day, day.published(), view.enabled_products, set, ctx.as_of);
}

/// The button id of a day.
pub open spec fn day_id(day: OutlookDay) -> Seq<char> {
    match day {
        OutlookDay::Day1 => "day1"@,
        OutlookDay::Day2 => "day2"@,
        OutlookDay::Day3 => "day3"@,
        OutlookDay::Day4 => "day4"@,
        OutlookDay::Day5 => "day5"@,
        OutlookDay::Day6 => "day6"@,
        OutlookDay::Day7 => "day7"@,
        OutlookDay::Day8 => "day8"@,
    }
}

fn day_button_id(day: OutlookDay) -> (id: &'static str)
    ensures
        id@ == day_id(day),
{
    match day {
        OutlookDay::Day1 => "day1",
        OutlookDay::Day2 => "day2",
        OutlookDay::Day3 => "day3",
        OutlookDay::Day4 => "day4",
        OutlookDay::Day5 => "day5",
        OutlookDay::Day6 => "day6",
        OutlookDay::Day7 => "day7",
        OutlookDay::Day8 => "day8",
    }
}

/// The toggle id of a product the user picks.
pub open spec fn toggle_id(product: OutlookProduct) -> Option<Seq<char>> {
    match product {
        OutlookProduct::Categorical => Some("cat"@),
        OutlookProduct::Tornado => Some("tor"@),
        OutlookProduct::Wind => Some("wind"@),
        OutlookProduct::Hail => Some("hail"@),
        OutlookProduct::Probabilistic => Some("prob"@),
        OutlookProduct::ConditionalIntensity => None,
    }
}

fn product_toggle_id(product: OutlookProduct) -> (id: Option<&'static str>)
    ensures
        match id {
            Some(text) => toggle_id(product) == Some(text@),
            None => toggle_id(product) is None,
        },
{
    match product {
        OutlookProduct::Categorical => Some("cat"),
        OutlookProduct::Tornado => Some("tor"),
        OutlookProduct::Wind => Some("wind"),
        OutlookProduct::Hail => Some("hail"),
        OutlookProduct::Probabilistic => Some("prob"),
        OutlookProduct::ConditionalIntensity => None,
    }
}

/// The buttons that pick a day.
pub open spec fn day_buttons(selected: OutlookDay) -> Seq<ButtonView> {
    Seq::new(
        OutlookDay::every().len(),
        |i: int|
            ButtonView {
                id: day_id(OutlookDay::every()[i]),
                label: OutlookDay::every()[i].number(),
                enabled: true,
                highlight: OutlookDay::every()[i] == selected,
            },
    )
}

/// The toggles of the products a day lets the user pick.
pub open spec fn product_toggles(products: Seq<OutlookProduct>, enabled: ProductSet) -> Seq<
    ItemView,
>
    decreases products.len(),
{
    if products.len() == 0 {
        Seq::empty()
    } else {
        let before = product_toggles(products.drop_last(), enabled);
        let product = products.last();
        match toggle_id(product) {
            Some(id) => before.push(
                ItemView::Toggle { id, label: product.name(), enabled: enabled.has(product) },
            ),
            None => before,
        }
    }
}

/// The layer's options panel.
pub open spec fn panel(view: OutlookPaneState, fetching: bool) -> Seq<ItemView> {
    seq![
        ItemView::Heading { text: "SPC Outlooks"@ },
        ItemView::ButtonRow { buttons: day_buttons(view.selected_day) },
    ] + product_toggles(view.selected_day.published(), view.enabled_products) + seq![
        refresh_row(!fetching),
    ] + if fetching {
        seq![ItemView::InfoText { text: "Fetching..."@ }]
    } else {
        Seq::empty()
    }
}

/// The names of the products the user picked, in publication order.
pub open spec fn picked_names(products: Seq<OutlookProduct>, enabled: ProductSet) -> Seq<Seq<char>>
    decreases products.len(),
{
    if products.len() == 0 {
        Seq::empty()
    } else {
        let before = picked_names(products.drop_last(), enabled);
        if products.last().selectable() && enabled.has(products.last()) {
            before.push(products.last().name())
        } else {
            before
        }
    }
}

/// A number for what one pane looks at: the day, and which of its products are
/// on, place by place.
pub open spec fn selection_token(view: OutlookPaneState) -> u64 {
    let bits = |product: OutlookProduct, worth: int|
        if drawn_products(view).contains(product) {
            worth
        } else {
            0
        };
    (day_number(view.selected_day) + bits(OutlookProduct::Categorical, 8) + bits(
        OutlookProduct::Tornado,
        16,
    ) + bits(OutlookProduct::Wind, 32) + bits(OutlookProduct::Hail, 64) + bits(
        OutlookProduct::Probabilistic,
        128,
    ) + bits(OutlookProduct::ConditionalIntensity, 256)) as u64
}

/// The place of a day among the days.
pub open spec fn day_number(day: OutlookDay) -> int {
    match day {
        OutlookDay::Day1 => 0,
        OutlookDay::Day2 => 1,
        OutlookDay::Day3 => 2,
        OutlookDay::Day4 => 3,
        OutlookDay::Day5 => 4,
        OutlookDay::Day6 => 5,
        OutlookDay::Day7 => 6,
        OutlookDay::Day8 => 7,
    }
}

/// Two panes that draw different things of one layer never share a token.
pub proof fn law_tokens_tell_panes_apart(
    generation: u64,
    a: OutlookPaneState,
    b: OutlookPaneState,
)
    requires
        a.selected_day != b.selected_day || exists|p: OutlookProduct| #[trigger]
            drawn_products(a).contains(p) != drawn_products(b).contains(p),
    ensures
        generation ^ selection_token(a) != generation ^ selection_token(b),
{
    let (s, t) = (selection_token(a), selection_token(b));
    assert(s != t) by {
        if a.selected_day == b.selected_day {
            let p = choose|p: OutlookProduct| #[trigger]
                drawn_products(a).contains(p) != drawn_products(b).contains(p);
            assert(drawn_products(a).contains(p) != drawn_products(b).contains(p));
        }
    }
    assert(s != t ==> generation ^ s != generation ^ t) by (bit_vector);
}

/// Every day's every product.
pub open spec fn every_key() -> Seq<OutlookKey> {
    Seq::new(
        48,
        |i: int|
            OutlookKey {
                day: OutlookDay::every()[i / 6],
                product: OutlookProduct::every()[i % 6],
            },
    )
}

/// A product's own counter, which starts at nothing.
pub open spec fn counter(generations: Map<OutlookKey, u64>, key: OutlookKey) -> u64 {
    if generations.contains_key(key) {
        generations[key]
    } else {
        0
    }
}

/// The counters of some products added up, going round.
pub open spec fn counters(generations: Map<OutlookKey, u64>, keys: Seq<OutlookKey>) -> u64
    decreases keys.len(),
{
    if keys.len() == 0 {
        0
    } else {
        counters(generations, keys.drop_last()).wrapping_add(counter(generations, keys.last()))
    }
}

impl SpcOutlookHandler {
    /// The tables are well keyed, and a fetch is under way exactly while an
    /// answer is owed.
    pub open spec fn wf(&self) -> bool {
        &&& self.state.data.wf()
        &&& self.per_product_generation.wf()
        &&& self.per_product_error.wf()
        &&& self.job_memo.wf()
        &&& self.state.fetching == (self.outstanding > 0)
    }

    /// Whether every input that can be handed out again is what it was built for.
    pub open spec fn inputs_true(&self) -> bool {
        self@.keeps_true(self.job_memo.generation(), self.job_memo.rows())
    }

    pub fn new() -> (h: SpcOutlookHandler)
        ensures
            h.wf(),
            h.inputs_true(),
            h.retired is None,
            h@.data == Map::<OutlookKey, SpcOutlook>::empty(),
            h@.errors == Map::<OutlookKey, ErrorView>::empty(),
            h@.outstanding == 0,
            !h@.answered,
            h@.strays == Seq::<ErrorView>::empty(),
            h@.generations == Map::<OutlookKey, u64>::empty(),
            h@.config_generation == 0,
            h@.fetch_time is None,
            h@.ledger.failures == 0,
            h@.ledger.last is None,
            h@.ledger.coverage.missing == 0,
            h.job_memo.rows() == Map::<PaintKey, Arc<OutlooksInput>>::empty(),
            h.job_memo.retired() == Seq::<Arc<OutlooksInput>>::empty(),
            h.defaults == OutlookPaneState::fresh(false),
            h.state.data_generation == 0,
    {
        let h = SpcOutlookHandler {
            state: OverlayState::new(Table::new()),
            per_product_generation: Table::new(),
            config_generation: 0,
            per_product_error: Table::new(),
            outstanding: 0,
            round_answered_in_scope: false,
            round_stray_failures: Vec::new(),
            defaults: OutlookPaneState::new(false),
            job_memo: JobMemo::new(),
            retired: None,
        };
        assert(h@.errors =~= Map::empty());
        assert(h@.strays =~= Seq::empty());
        h
    }

    /// Everything any pane asks for.
    pub fn union_scope(&self, pane: &Pane<OutlookPaneState>) -> (scope: Vec<OutlookKey>)
        ensures
            scope@ == union_of(pane.all(), self.defaults),
    {
        union_scope(&pane.states(), &self.defaults)
    }

    fn set_outstanding(&mut self, outstanding: usize)
        requires
            old(self).wf(),
        ensures
            final(self).wf(),
            final(self)@ == (OutlookView { outstanding, ..old(self)@ }),
            final(self).defaults == old(self).defaults,
            final(self).job_memo == old(self).job_memo,
            final(self).state.data_generation == old(self).state.data_generation,
            final(self).retired == old(self).retired,
    {
        self.outstanding = outstanding;
        self.state.fetching = outstanding > 0;
        assert(self@ =~= (OutlookView { outstanding, ..old(self)@ }));
    }

    /// What the round's answers come to for a scope.
    pub fn round_verdict(&self, scope: &Vec<OutlookKey>) -> (v: RoundVerdict)
        requires
            self.wf(),
        ensures
            v@ == self@.verdict(scope@),
    {
        round_verdict(scope, &self.per_product_error, &self.state.data)
    }

    fn record_coverage(&mut self, scope: &Vec<OutlookKey>)
        requires
            old(self).wf(),
        ensures
            final(self).wf(),
            final(self)@ == (OutlookView {
                ledger: old(self)@.covered(scope@, old(self)@.ledger),
                ..old(self)@
            }),
            final(self).defaults == old(self).defaults,
            final(self).job_memo == old(self).job_memo,
            final(self).state.data_generation == old(self).state.data_generation,
            final(self).retired == old(self).retired,
    {
        let coverage = round_coverage(scope, &self.per_product_error, &self.state.data);
        self.state.record_coverage(coverage);
        assert(self@ =~= (OutlookView {
            ledger: old(self)@.covered(scope@, old(self)@.ledger),
            ..old(self)@
        }));
    }

    /// Files the round's verdict.
    fn file_round_verdict(&mut self, scope: &Vec<OutlookKey>)
        requires
            old(self).wf(),
        ensures
            final(self).wf(),
            final(self)@ == old(self)@.filed(scope@),
            final(self).defaults == old(self).defaults,
            final(self).job_memo == old(self).job_memo,
            final(self).state.data_generation == old(self).state.data_generation,
            final(self).retired == old(self).retired,
    {
        let answered = self.round_answered_in_scope;
        self.round_answered_in_scope = false;
        let mut strays: Vec<FetchError> = Vec::new();
        std::mem::swap(&mut strays, &mut self.round_stray_failures);
        assert(error_list(self.round_stray_failures@) =~= Seq::empty());
        if !answered {
            if strays.len() > 0 {
                let merged = merge_strays(&strays);
                self.state.retry.record_failure(&merged);
            }
        } else {
            match round_verdict(scope, &self.per_product_error, &self.state.data) {
                RoundVerdict::Failed(e) => {
                    self.state.retry.record_failure(&e);
                },
                RoundVerdict::NotPublished(e) => {
                    self.state.retry.record_failure(&e);
                },
                RoundVerdict::Clear => {
                    self.state.retry.record_success();
                },
            }
        }
        self.record_coverage(scope);
        assert(self@ =~= old(self)@.filed(scope@));
    }

    /// Takes one product's answer in. A product another pane still asks for is
    /// this round's answer even where the pane that asked first has stopped.
    pub fn apply_fetch_result(
        &mut self,
        fetch: SpcOutlookFetchResult,
        pane: &Pane<OutlookPaneState>,
        now: u64,
    )
        requires
            old(self).wf(),
        ensures
            final(self).wf(),
            final(self)@ == old(self)@.landed(
                OutlookKey { day: fetch.day, product: fetch.product },
                fetch.answer(),
                union_of(pane.all(), old(self).defaults),
                now,
            ),
            final(self).defaults == old(self).defaults,
            final(self).job_memo == old(self).job_memo,
            final(self).state.data_generation == old(self).state.data_generation,
            final(self).retired == old(self).retired,
    {
        let key = OutlookKey { day: fetch.day, product: fetch.product };
        let scope = self.union_scope(pane);
        let in_scope = lists(&scope, &key);
        let ghost before = self@;
        let ghost answer = fetch.answer();
        match fetch.result {
            Ok(outlook) => {
                self.state.data.insert(key, outlook);
                let ghost errors = self.per_product_error@;
                self.per_product_error.remove(&key);
                assert(error_views(errors.remove(key)) =~= error_views(errors).remove(key));
                self.state.fetch_time = Some(now);
                let counter: u64 = match self.per_product_generation.get(&key) {
                    Some(counter) => *counter,
                    None => 0,
                };
                self.per_product_generation.insert(key, bump(counter));
            },
            Err(e) => {
                let absent = e.failure == FetchFailure::Absent;
                if absent {
                    self.state.fetch_time = Some(now);
                }
                if in_scope {
                    let ghost errors = self.per_product_error@;
                    self.per_product_error.insert(key, e);
                    assert(error_views(errors.insert(key, e)) =~= error_views(errors).insert(
                        key,
                        e@,
                    ));
                } else if !absent {
                    let ghost strays = self.round_stray_failures@;
                    self.round_stray_failures.push(e);
                    assert(error_list(strays.push(e)) =~= error_list(strays).push(e@));
                }
            },
        }
        if in_scope {
            self.round_answered_in_scope = true;
        }
        self.set_outstanding(self.outstanding.saturating_sub(1));
        assert(self@ =~= before.answered_by(key, answer, scope@, now));
        if self.outstanding == 0 {
            self.file_round_verdict(&scope);
        }
    }

    /// Brings the ledger into line with a selection that moved. It is scoped by
    /// every pane, so one pane's clean selection hides no other's failure.
    fn refile_after_selection_change(&mut self, pane: &mut Pane<OutlookPaneState>)
        requires
            old(self).wf(),
        ensures
            final(self).wf(),
            final(pane).peers == old(pane).peers,
            old(pane).state is Some ==> final(pane).state == Some(old(pane).state->0.synced())
                && final(self).defaults == old(self).defaults,
            old(pane).state is None ==> final(pane).state is None && final(self).defaults
                == old(self).defaults.synced(),
            final(self)@ == old(self)@.refiled(
                union_of(final(pane).all(), final(self).defaults),
            ),
            final(self).job_memo == old(self).job_memo,
            final(self).state.data_generation == old(self).state.data_generation,
            final(self).retired == old(self).retired,
    {
        let mut view = pane.view_or(&self.defaults);
        view.sync_implied_products();
        pane.put(&mut self.defaults, view);
        let scope = self.union_scope(pane);
        let ghost wanted = Set::new(|key: OutlookKey| scope@.contains(key));
        let ghost errors = self.per_product_error@;
        self.per_product_error.retain_listed(&scope);
        assert(error_views(errors.restrict(wanted)) =~= error_views(errors).restrict(wanted));
        if self.outstanding > 0 {
            assert(self@ =~= old(self)@.refiled(scope@));
            return;
        }
        match round_verdict(&scope, &self.per_product_error, &self.state.data) {
            RoundVerdict::Failed(_) => {},
            RoundVerdict::NotPublished(e) => {
                self.state.retry.record_failure(&e);
            },
            RoundVerdict::Clear => {
                self.state.retry.clear();
            },
        }
        self.record_coverage(&scope);
        assert(self@ =~= old(self)@.refiled(scope@));
    }

    /// Every product's counter and the configuration's, added up.
    pub fn combined_generation(&self) -> (generation: u64)
        requires
            self.wf(),
        ensures
            generation == self@.generation(),
    {
        let days = OutlookDay::all();
        let products = OutlookProduct::all();
        let ghost keys = every_key();
        let ghost generations = self.per_product_generation@;
        let mut sum: u64 = 0;
        let mut at: usize = 0;
        while at < 48
            invariant
                at <= 48,
                self.wf(),
                days@ == OutlookDay::every(),
                products@ == OutlookProduct::every(),
                keys == every_key(),
                generations == self.per_product_generation@,
                sum == counters(generations, keys.take(at as int)),
            decreases 48 - at,
        {
            assert(keys.take(at + 1).drop_last() =~= keys.take(at as int));
            let key = OutlookKey { day: days[at / 6], product: products[at % 6] };
            if let Some(counter) = self.per_product_generation.get(&key) {
                sum = sum.wrapping_add(*counter);
            }
            at = at + 1;
        }
        assert(keys.take(at as int) =~= keys);
        sum.wrapping_add(self.config_generation)
    }

    /// "On" is a set with something in it.
    pub fn is_enabled(&self, pane: &Pane<OutlookPaneState>) -> (b: bool)
        ensures
            b == (pane.own_or(self.defaults).enabled_products != ProductSet::none()),
    {
        !pane.view_or(&self.defaults).enabled_products.is_empty()
    }

    /// Turns the layer on or off for a pane. Turning it on where nothing is
    /// picked picks the day's first product.
    pub fn set_enabled(&mut self, enabled: bool, pane: &mut Pane<OutlookPaneState>)
        requires
            old(self).wf(),
        ensures
            final(self).wf(),
            final(self).job_memo == old(self).job_memo,
            final(self).state.data_generation == old(self).state.data_generation,
            final(self).retired == old(self).retired,
            final(pane).peers == old(pane).peers,
            (final(pane).state is Some) == (old(pane).state is Some),
            ({
                let view = old(pane).own_or(old(self).defaults);
                let off = view.enabled_products == ProductSet::none();
                let moved = off == enabled;
                &&& old(pane).state is Some ==> final(self).defaults == old(self).defaults
                &&& final(pane).own_or(final(self).defaults) == (if !moved {
                    view
                } else if enabled {
                    OutlookPaneState::first_on(view.selected_day)
                } else {
                    OutlookPaneState { enabled_products: ProductSet::none(), ..view }
                })
                &&& final(self)@ == (if moved {
                    old(self)@.turned()
                } else {
                    old(self)@
                })
            }),
    {
        let mut view = pane.view_or(&self.defaults);
        let off = view.enabled_products.is_empty();
        if enabled && off {
            view.turn_on();
        } else if !enabled && !off {
            view.enabled_products = ProductSet::new();
        }
        pane.put(&mut self.defaults, view);
        if off == enabled {
            self.config_generation = bump(self.config_generation);
            assert(self@ =~= old(self)@.turned());
        } else {
            assert(self@ =~= old(self)@);
        }
    }

    /// The token a pane's picture is grouped by: what it looks at is in it, so
    /// two panes on two days never share a picture.
    pub fn content_signature(&self, pane: &Pane<OutlookPaneState>) -> (token: u64)
        requires
            self.wf(),
        ensures
            token == self@.generation() ^ selection_token(pane.own_or(self.defaults)),
    {
        let view = pane.view_or(&self.defaults);
        let products = view.asked_products();
        let mut token: u64 = match view.selected_day {
            OutlookDay::Day1 => 0,
            OutlookDay::Day2 => 1,
            OutlookDay::Day3 => 2,
            OutlookDay::Day4 => 3,
            OutlookDay::Day5 => 4,
            OutlookDay::Day6 => 5,
            OutlookDay::Day7 => 6,
            OutlookDay::Day8 => 7,
        };
        if has_product(&products, OutlookProduct::Categorical) {
            token = token + 8;
        }
        if has_product(&products, OutlookProduct::Tornado) {
            token = token + 16;
        }
        if has_product(&products, OutlookProduct::Wind) {
            token = token + 32;
        }
        if has_product(&products, OutlookProduct::Hail) {
            token = token + 64;
        }
        if has_product(&products, OutlookProduct::Probabilistic) {
            token = token + 128;
        }
        if has_product(&products, OutlookProduct::ConditionalIntensity) {
            token = token + 256;
        }
        assert(token == selection_token(view));
        self.combined_generation() ^ token
    }

    /// The day, and the products the user picked of it.
    pub fn status_line(&self, pane: &Pane<OutlookPaneState>) -> (line: Option<String>)
        ensures
            ({
                let view = pane.own_or(self.defaults);
                match line {
                    Some(text) => {
                        &&& view.enabled_products != ProductSet::none()
                        &&& text@ == view.selected_day.name() + " - "@ + joined(
                            picked_names(view.selected_day.published(), view.enabled_products),
                            ", "@,
                        )
                    },
                    None => view.enabled_products == ProductSet::none(),
                }
            }),
    {
        let view = pane.view_or(&self.defaults);
        if view.enabled_products.is_empty() {
            return None;
        }
        let published = view.selected_day.products();
        let mut names: Vec<String> = Vec::new();
        let mut at: usize = 0;
        assert(names.deep_view() =~= Seq::empty());
        while at < published.len()
            invariant
                at <= published@.len(),
                names.deep_view() == picked_names(
                    published@.take(at as int),
                    view.enabled_products,
                ),
            decreases published@.len() - at,
        {
            assert(published@.take(at + 1).drop_last() =~= published@.take(at as int));
            let product = published[at];
            if product.is_selectable() && view.enabled_products.contains(product) {
                let ghost shorter = names.deep_view();
                names.push(product.display().to_owned());
                assert(names.deep_view() =~= shorter.push(product.name()));
            }
            at = at + 1;
        }
        assert(published@.take(at as int) =~= published@);
        let mut text = view.selected_day.to_text();
        text.append(" - ");
        text.append(join(&names, ", ").as_str());
        Some(text)
    }

    /// Whether there is anything this selection can draw, as opposed to anything
    /// the layer has ever fetched.
    pub fn has_data(&self, pane: &Pane<OutlookPaneState>) -> (b: bool)
        requires
            self.wf(),
        ensures
            b == exists|product: OutlookProduct| #[trigger]
                self.draws(pane.own_or(self.defaults), product),
    {
        let view = pane.view_or(&self.defaults);
        let products = OutlookProduct::all();
        let mut at: usize = 0;
        while at < products.len()
            invariant
                at <= products@.len(),
                self.wf(),
                products@ == OutlookProduct::every(),
                view == pane.own_or(self.defaults),
                forall|i: int| 0 <= i < at ==> !self.draws(view, #[trigger] products@[i]),
            decreases products@.len() - at,
        {
            let product = products[at];
            if view.enabled_products.contains(product) {
                let key = OutlookKey { day: view.selected_day, product };
                if let Some(outlook) = self.state.data.get(&key) {
                    if outlook.features.len() > 0 {
                        assert(self.draws(view, product));
                        return true;
                    }
                }
            }
            at = at + 1;
        }
        proof {
            assert forall|product: OutlookProduct| !#[trigger] self.draws(view, product) by {
                let i = every_place(product);
                assert(products@[i] == product);
            }
        }
        false
    }

    /// Whether a selection has something to draw of a product.
    pub open spec fn draws(&self, view: OutlookPaneState, product: OutlookProduct) -> bool {
        let key = OutlookKey { day: view.selected_day, product };
        &&& view.enabled_products.has(product)
        &&& self.state.data@.contains_key(key)
        &&& self.state.data@[key].features@.len() > 0
    }

    pub fn is_fetching(&self) -> (b: bool)
        ensures
            b == (self.outstanding > 0),
    {
        self.outstanding > 0
    }

    /// A round started or was abandoned. A round that started owes one answer for
    /// each product the pane has on.
    pub fn set_fetching(&mut self, fetching: bool, pane: &Pane<OutlookPaneState>)
        requires
            old(self).wf(),
            old(self).outstanding + 6 <= usize::MAX,
        ensures
            final(self).wf(),
            final(self).job_memo == old(self).job_memo,
            final(self).state.data_generation == old(self).state.data_generation,
            final(self).retired == old(self).retired,
            final(self).defaults == old(self).defaults,
            final(self)@ == (if fetching {
                let asked = pane.own_or(old(self).defaults).enabled_products.count();
                OutlookView {
                    outstanding: (old(self).outstanding + if asked > 1 {
                        asked
                    } else {
                        1
                    }) as usize,
                    ..old(self)@
                }
            } else {
                OutlookView {
                    outstanding: 0,
                    answered: false,
                    strays: Seq::empty(),
                    ..old(self)@
                }
            }),
    {
        if fetching {
            let view = pane.view_or(&self.defaults);
            let on = view.enabled_products.among(&OutlookProduct::all());
            proof {
                lemma_members_bound(view.enabled_products, OutlookProduct::every());
            }
            let asked: usize = if on.len() > 1 {
                on.len()
            } else {
                1
            };
            self.set_outstanding(self.outstanding + asked);
        } else {
            self.set_outstanding(0);
            self.round_answered_in_scope = false;
            self.round_stray_failures.clear();
            assert(error_list(self.round_stray_failures@) =~= Seq::empty());
            assert(self@ =~= (OutlookView {
                outstanding: 0,
                answered: false,
                strays: Seq::empty(),
                ..old(self)@
            }));
        }
    }

    /// The requests a pane's round makes: one for each product it has on, in
    /// publication order.
    pub fn create_fetch_tasks(&self, pane: &Pane<OutlookPaneState>) -> (keys: Vec<OutlookKey>)
        ensures
            keys@ == pane.own_or(self.defaults).asked(),
    {
        let view = pane.view_or(&self.defaults);
        let products = view.asked_products();
        let mut keys: Vec<OutlookKey> = Vec::new();
        let mut at: usize = 0;
        while at < products.len()
            invariant
                at <= products@.len(),
                keys@ == keys_of(view.selected_day, products@.take(at as int)),
            decreases products@.len() - at,
        {
            keys.push(OutlookKey { day: view.selected_day, product: products[at] });
            assert(keys@ =~= keys_of(view.selected_day, products@.take(at + 1)));
            at = at + 1;
        }
        assert(products@.take(at as int) =~= products@);
        keys
    }

    /// Every enabled product's features while its issuance is in force, in the
    /// order they are painted.
    pub fn features_in_paint_order(&self, view: &OutlookPaneState, as_of: &Instant) -> (features:
        Vec<Arc<OverlayFeature>>)
        requires
            self.wf(),
        ensures
            features@ == painted(
                self.state.data@,
                view.selected_day,
                drawn_products(*view),
                *as_of,
            ),
    {
        let products = view.asked_products();
        let ghost data = self.state.data@;
        let mut features: Vec<Arc<OverlayFeature>> = Vec::new();
        let mut at: usize = 0;
        while at < products.len()
            invariant
                at <= products@.len(),
                self.wf(),
                data == self.state.data@,
                features@ == painted(
                    data,
                    view.selected_day,
                    products@.take(at as int),
                    *as_of,
                ),
            decreases products@.len() - at,
        {
            assert(products@.take(at + 1).drop_last() =~= products@.take(at as int));
            let key = OutlookKey { day: view.selected_day, product: products[at] };
            if let Some(outlook) = self.state.data.get(&key) {
                if outlook.is_in_force(as_of) {
                    push_features(&mut features, &outlook.features);
                }
            }
            at = at + 1;
        }
        assert(products@.take(at as int) =~= products@);
        features
    }

    fn paint_key(&self, view: &OutlookPaneState, ctx: &RasterizeContext) -> (key: PaintKey)
        requires
            self.wf(),
        ensures
            key == picture_key(self.state.data@, *view, *ctx),
    {
        let products = view.asked_products();
        let ghost data = self.state.data@;
        let mut in_force = ProductSet::new();
        let mut at: usize = 0;
        while at < products.len()
            invariant
                at <= products@.len(),
                self.wf(),
                data == self.state.data@,
                in_force == force_set(
                    data,
                    view.selected_day,
                    products@.take(at as int),
                    ctx.as_of,
                ),
            decreases products@.len() - at,
        {
            assert(products@.take(at + 1).drop_last() =~= products@.take(at as int));
            let key = OutlookKey { day: view.selected_day, product: products[at] };
            if let Some(outlook) = self.state.data.get(&key) {
                if outlook.is_in_force(&ctx.as_of) {
                    in_force.insert(products[at]);
                }
            }
            at = at + 1;
        }
        assert(products@.take(at as int) =~= products@);
        PaintKey {
            day: view.selected_day,
            in_force,
            is_dark: ctx.is_dark,
            device_scale: ctx.device_scale,
        }
    }

    /// What a picture is painted from, or `None` where nothing is in force.
    pub fn paint_input(&self, ctx: &RasterizeContext, view: &OutlookPaneState) -> (input: Option<
        OutlooksInput,
    >)
        requires
            self.wf(),
        ensures
            match input {
                Some(built) => {
                    &&& built.features@.len() > 0
                    &&& paint_view(built, self.state.data@, *view, *ctx)
                },
                None => painted(
                    self.state.data@,
                    view.selected_day,
                    drawn_products(*view),
                    ctx.as_of,
                ).len() == 0,
            },
    {
        let features = self.features_in_paint_order(view, &ctx.as_of);
        if features.len() == 0 {
            return None;
        }
        let hatch_color: [u8; 4] = if ctx.is_dark {
            [200, 200, 200, 180]
        } else {
            [60, 60, 60, 180]
        };
        assert(hatch_color@ =~= hatch_rgba(ctx.is_dark));
        Some(OutlooksInput { features, hatch_color, device_scale: ctx.device_scale })
    }

    /// The input of a pane's picture, built once per picture and not once per
    /// ask: one that is held for the same terms is handed out again.
    pub fn prepare_job(&mut self, ctx: &RasterizeContext, pane: &Pane<OutlookPaneState>) -> (job:
        Option<Arc<OutlooksInput>>)
        requires
            old(self).wf(),
        ensures
            final(self).wf(),
            final(self)@ == old(self)@,
            final(self).defaults == old(self).defaults,
            final(self).state == old(self).state,
            final(self).retired == old(self).retired,
            ({
                let view = pane.own_or(old(self).defaults);
                let data = old(self).state.data@;
                let generation = old(self)@.generation();
                let key = picture_key(data, view, *ctx);
                &&& match old(self).job_memo.hit(generation, key) {
                    Some(row) => job == Some(row) && final(self).job_memo == old(self).job_memo,
                    None => match job {
                        Some(built) => {
                            &&& paint_view(*built, data, view, *ctx)
                            &&& built.features@.len() > 0
                            &&& final(self).job_memo.hit(generation, key) == Some(built)
                        },
                        None => painted(
                            data,
                            view.selected_day,
                            drawn_products(view),
                            ctx.as_of,
                        ).len() == 0,
                    },
                }
                &&& old(self).inputs_true() ==> final(self).inputs_true() && match job {
                    Some(built) => paint_view(*built, data, view, *ctx)
                        && built.features@.len() > 0,
                    None => painted(
                        data,
                        view.selected_day,
                        drawn_products(view),
                        ctx.as_of,
                    ).len() == 0,
                }
            }),
    {
        let view = pane.view_or(&self.defaults);
        let generation: u64 = self.combined_generation();
        let key = self.paint_key(&view, ctx);
        if let Some(row) = self.job_memo.lookup(generation, &key) {
            proof {
                law_a_key_is_its_picture(row, self.state.data@, view, *ctx);
            }
            return Some(row);
        }
        self.job_memo.turn_to(generation);
        match self.paint_input(ctx, &view) {
            Some(built) => {
                let row = Arc::new(built);
                proof {
                    law_a_key_is_its_picture(row, self.state.data@, view, *ctx);
                }
                self.job_memo.store(generation, key, Arc::clone(&row));
                assert(self@ =~= old(self)@);
                Some(row)
            },
            None => {
                assert(self@ =~= old(self)@);
                None
            },
        }
    }

    /// No pane draws the layer any more: what it holds and the inputs built from
    /// it are set aside to be freed, and it reads as due. Says whether there was
    /// anything.
    pub fn release_data(&mut self) -> (any: bool)
        requires
            old(self).wf(),
        ensures
            final(self).wf(),
            any == (old(self).state.data.rows().len() > 0),
            !any ==> *final(self) == *old(self),
            any ==> {
                &&& final(self)@ == (OutlookView {
                    data: Map::empty(),
                    fetch_time: None,
                    ..old(self)@
                })
                &&& final(self).state.data_generation == next_generation(
                    old(self).state.data_generation,
                )
                &&& final(self).defaults == old(self).defaults
                &&& final(self).retired == Some(old(self).state.data)
                &&& final(self).job_memo.rows() == Map::<PaintKey, Arc<OutlooksInput>>::empty()
                &&& final(self).job_memo.retired() == old(self).job_memo.cleared()
            },
    {
        if self.state.data.len() == 0 {
            return false;
        }
        let mut data: Table<OutlookKey, SpcOutlook> = Table::new();
        std::mem::swap(&mut data, &mut self.state.data);
        self.retired = Some(data);
        self.state.fetch_time = None;
        self.state.data_generation = bump(self.state.data_generation);
        self.job_memo.retire_live_rows();
        assert(self@ =~= (OutlookView { data: Map::empty(), fetch_time: None, ..old(self)@ }));
        true
    }

    /// Hands over what waits to be freed: what the layer let go, then the inputs
    /// that were set aside.
    pub fn take_retired(&mut self) -> (retired: Vec<Retired>)
        requires
            old(self).wf(),
        ensures
            final(self).wf(),
            final(self)@ == old(self)@,
            final(self).defaults == old(self).defaults,
            final(self).state == old(self).state,
            final(self).retired is None,
            final(self).job_memo.generation() == old(self).job_memo.generation(),
            final(self).job_memo.rows() == old(self).job_memo.rows(),
            final(self).job_memo.retired() == Seq::<Arc<OutlooksInput>>::empty(),
            retired@ == (match old(self).retired {
                Some(data) => seq![Retired::Outlooks(data)],
                None => Seq::empty(),
            }) + old(self).job_memo.retired().map_values(
                |input: Arc<OutlooksInput>| Retired::Input(input),
            ),
    {
        let mut data: Option<Table<OutlookKey, SpcOutlook>> = None;
        std::mem::swap(&mut data, &mut self.retired);
        let inputs = self.job_memo.take_retired();
        assert(self@ =~= old(self)@);
        let mut retired: Vec<Retired> = Vec::new();
        if let Some(data) = data {
            retired.push(Retired::Outlooks(data));
        }
        let ghost first = retired@;
        let mut at: usize = 0;
        while at < inputs.len()
            invariant
                at <= inputs@.len(),
                retired@ == first + inputs@.take(at as int).map_values(
                    |input: Arc<OutlooksInput>| Retired::Input(input),
                ),
            decreases inputs@.len() - at,
        {
            retired.push(Retired::Input(Arc::clone(&inputs[at])));
            at = at + 1;
            assert(retired@ =~= first + inputs@.take(at as int).map_values(
                |input: Arc<OutlooksInput>| Retired::Input(input),
            ));
        }
        assert(inputs@.take(at as int) =~= inputs@);
        retired
    }

    /// How many products are held.
    pub fn item_count(&self) -> (count: usize)
        ensures
            count == self.state.data.rows().len(),
    {
        self.state.data.len()
    }

    /// The stretches of source time a walk through `stops` needs: the picture at
    /// a stop is a question about the stop alone.
    pub fn residency_for(&self, stops: &Vec<Instant>) -> (residency: Residency)
        ensures
            residency@ == all_joined(stops@.map_values(|stop: Instant| (stop, stop))),
    {
        let mut spans: Vec<(Instant, Instant)> = Vec::new();
        let mut at: usize = 0;
        while at < stops.len()
            invariant
                at <= stops@.len(),
                spans@ == stops@.take(at as int).map_values(|stop: Instant| (stop, stop)),
            decreases stops@.len() - at,
        {
            spans.push((stops[at], stops[at]));
            at = at + 1;
            assert(spans@ =~= stops@.take(at as int).map_values(|stop: Instant| (stop, stop)));
        }
        assert(stops@.take(at as int) =~= stops@);
        Residency::over(&spans)
    }

    /// The bands a pane can click, product by product: each with the feature whose
    /// outline is clicked and the item it opens.
    pub fn clickable_items(&self, pane: &Pane<OutlookPaneState>) -> (items: Vec<ClickableItem>)
        requires
            self.wf(),
        ensures
            items_of(items@, bands(
                self.state.data@,
                pane.own_or(self.defaults).selected_day,
                members(pane.own_or(self.defaults).enabled_products, OutlookProduct::every()),
            )),
    {
        let view = pane.view_or(&self.defaults);
        let products = view.enabled_products.among(&OutlookProduct::all());
        let ghost data = self.state.data@;
        let mut items: Vec<ClickableItem> = Vec::new();
        let mut at: usize = 0;
        while at < products.len()
            invariant
                at <= products@.len(),
                self.wf(),
                data == self.state.data@,
                items_of(items@, bands(data, view.selected_day, products@.take(at as int))),
            decreases products@.len() - at,
        {
            let product = products[at];
            let key = OutlookKey { day: view.selected_day, product };
            let ghost before = bands(data, view.selected_day, products@.take(at as int));
            assert(products@.take(at + 1).drop_last() =~= products@.take(at as int));
            if let Some(outlook) = self.state.data.get(&key) {
                let ghost fresh = band_list(*outlook, view.selected_day, product);
                let mut i: usize = 0;
                assert(before + fresh.take(0) =~= before);
                while i < outlook.features.len()
                    invariant
                        i <= outlook.features@.len(),
                        fresh == band_list(*outlook, view.selected_day, product),
                        items_of(items@, before + fresh.take(i as int)),
                    decreases outlook.features@.len() - i,
                {
                    let item = OutlookItem {
                        label: outlook.features[i].label.clone(),
                        day: view.selected_day,
                        product,
                        valid: outlook.valid,
                        expire: outlook.expire,
                    };
                    items.push(
                        ClickableItem { feature: Arc::clone(&outlook.features[i]), item },
                    );
                    assert(before + fresh.take(i + 1) =~= (before + fresh.take(i as int)).push(
                        fresh[i as int],
                    ));
                    i = i + 1;
                }
                assert(fresh.take(i as int) =~= fresh);
            }
            at = at + 1;
        }
        assert(products@.take(at as int) =~= products@);
        items
    }

    /// The options panel.
    pub fn controls(&self, pane: &Pane<OutlookPaneState>) -> (items: Vec<ControlItem>)
        ensures
            items.deep_view() == panel(pane.own_or(self.defaults), self.outstanding > 0),
    {
        let view = pane.view_or(&self.defaults);
        let mut items: Vec<ControlItem> = Vec::new();
        assert(items.deep_view() =~= Seq::empty());
        push_item(&mut items, ControlItem::Heading { text: "SPC Outlooks".to_owned() });
        let days = OutlookDay::all();
        let mut buttons: Vec<ControlButton> = Vec::new();
        let mut at: usize = 0;
        while at < days.len()
            invariant
                at <= days@.len(),
                days@ == OutlookDay::every(),
                buttons.deep_view() == day_buttons(view.selected_day).take(at as int),
            decreases days@.len() - at,
        {
            let ghost shorter = buttons.deep_view();
            buttons.push(
                ControlButton {
                    id: day_button_id(days[at]),
                    label: days[at].label().to_owned(),
                    enabled: true,
                    highlight: days[at] == view.selected_day,
                },
            );
            assert(buttons.deep_view() =~= shorter.push(buttons@[at as int].deep_view()));
            assert(buttons@[at as int].deep_view() == day_buttons(view.selected_day)[at as int]);
            assert(buttons.deep_view() =~= day_buttons(view.selected_day).take(at + 1));
            at = at + 1;
        }
        assert(day_buttons(view.selected_day).take(at as int) =~= day_buttons(view.selected_day));
        push_item(&mut items, ControlItem::ButtonRow { buttons });
        let ghost headed = items.deep_view();
        let published = view.selected_day.products();
        let mut p: usize = 0;
        assert(headed + product_toggles(published@.take(0), view.enabled_products) =~= headed);
        while p < published.len()
            invariant
                p <= published@.len(),
                items.deep_view() == headed + product_toggles(
                    published@.take(p as int),
                    view.enabled_products,
                ),
            decreases published@.len() - p,
        {
            assert(published@.take(p + 1).drop_last() =~= published@.take(p as int));
            let product = published[p];
            if let Some(id) = product_toggle_id(product) {
                push_item(
                    &mut items,
                    ControlItem::Toggle {
                        id,
                        label: product.display().to_owned(),
                        enabled: view.enabled_products.contains(product),
                    },
                );
            }
            assert(items.deep_view() =~= headed + product_toggles(
                published@.take(p + 1),
                view.enabled_products,
            ));
            p = p + 1;
        }
        assert(published@.take(p as int) =~= published@);
        push_item(&mut items, refresh_buttons(!self.is_fetching()));
        if self.is_fetching() {
            push_info(&mut items, "Fetching...".to_owned());
        }
        assert(items.deep_view() =~= panel(view, self.outstanding > 0));
        items
    }

    /// Takes a change of the options panel in.
    #[verifier::rlimit(60)]
    #[verifier::spinoff_prover]
    pub fn apply_control(
        &mut self,
        update: &ControlUpdate,
        pane: &mut Pane<OutlookPaneState>,
    ) -> (effect: ControlEffect)
        requires
            old(self).wf(),
        ensures
            final(self).wf(),
            final(self).job_memo == old(self).job_memo,
            final(self).state.data_generation == old(self).state.data_generation,
            final(self).retired == old(self).retired,
            final(pane).peers == old(pane).peers,
            (final(pane).state is Some) == (old(pane).state is Some),
            old(pane).state is Some ==> final(self).defaults == old(self).defaults,
            ({
                let view = old(pane).own_or(old(self).defaults);
                let after = final(pane).own_or(final(self).defaults);
                let moved = changed(view, *update);
                &&& effect == control_effect(view, *update)
                &&& match moved {
                    Some(next) => {
                        &&& after == next
                        &&& final(self)@ == old(self)@.turned().refiled(
                            union_of(final(pane).all(), final(self).defaults),
                        )
                    },
                    None => after == view && final(self)@ == old(self)@,
                }
            }),
    {
        let view = pane.view_or(&self.defaults);
        if let Some(day) = day_of_id(update.id) {
            if day != view.selected_day {
                let mut next = view;
                next.selected_day = day;
                next.enabled_products = published_only(day, &view.enabled_products);
                pane.put(&mut self.defaults, next);
                self.config_generation = bump(self.config_generation);
                assert(self@ =~= old(self)@.turned());
                self.refile_after_selection_change(pane);
                if !pane.view_or(&self.defaults).enabled_products.is_empty() {
                    return ControlEffect::Fetch;
                }
            }
            return ControlEffect::Nothing;
        }
        if let Some(product) = product_of_id(update.id) {
            if let ControlValue::Bool(enabled) = update.value {
                let mut next = view;
                next.enabled_products.put(product, enabled);
                pane.put(&mut self.defaults, next);
                self.config_generation = bump(self.config_generation);
                assert(self@ =~= old(self)@.turned());
                self.refile_after_selection_change(pane);
                if enabled {
                    return ControlEffect::Fetch;
                }
            }
            return ControlEffect::Nothing;
        }
        if same_text(update.id, "refresh") && !view.enabled_products.is_empty() {
            return ControlEffect::Fetch;
        }
        ControlEffect::Nothing
    }
}

proof fn lemma_every_key(key: OutlookKey)
    ensures
        every_key().contains(key),
        every_key().no_duplicates(),
{
    let keys = every_key();
    let at = day_number(key.day) * 6 + every_place(key.product);
    assert(at / 6 == day_number(key.day) && at % 6 == every_place(key.product));
    assert(keys[at] == key);
    assert forall|i: int, j: int| 0 <= i < keys.len() && 0 <= j < keys.len() && i != j implies keys[i]
        != keys[j] by {
        assert(day_number(keys[i].day) == i / 6 && every_place(keys[i].product) == i % 6);
        assert(day_number(keys[j].day) == j / 6 && every_place(keys[j].product) == j % 6);
    }
}

proof fn lemma_counters(
    generations: Map<OutlookKey, u64>,
    keys: Seq<OutlookKey>,
    key: OutlookKey,
)
    requires
        keys.no_duplicates(),
    ensures
        ({
            let moved = generations.insert(key, next_generation(counter(generations, key)));
            counters(moved, keys) == (if keys.contains(key) {
                next_generation(counters(generations, keys))
            } else {
                counters(generations, keys)
            })
        }),
    decreases keys.len(),
{
    if keys.len() > 0 {
        let fewer = keys.drop_last();
        lemma_counters(generations, fewer, key);
        assert(keys[keys.len() - 1] == keys.last());
        if keys.contains(key) {
            let i = keys.index_of(key);
            if i < fewer.len() {
                assert(fewer[i] == key);
            }
        }
        if fewer.contains(key) {
            let i = fewer.index_of(key);
            assert(keys[i] == key);
        }
    }
}

/// An outlook that arrives moves the generation by one, so no picture and no
/// input of the data it replaced is taken for the new one. A refusal leaves it
/// where it was, and a change of the configuration moves it by one.
pub proof fn law_an_arrival_moves_the_generation(
    round: OutlookView,
    key: OutlookKey,
    answer: AnswerView,
    scope: Seq<OutlookKey>,
    now: u64,
)
    ensures
        round.landed(key, answer, scope, now).generation() == (match answer {
            AnswerView::Loaded(_) => next_generation(round.generation()),
            AnswerView::Refused(_) => round.generation(),
        }),
        round.turned().generation() == next_generation(round.generation()),
{
    lemma_every_key(key);
    lemma_counters(round.generations, every_key(), key);
}

/// An answer leaves no input that can be handed out again and is not what it was
/// built for. The counters go round: what was built a whole turn of them ago is
/// the one exception.
pub proof fn law_held_inputs_stay_true(
    round: OutlookView,
    built_at: u64,
    rows: Map<PaintKey, Arc<OutlooksInput>>,
    key: OutlookKey,
    answer: AnswerView,
    scope: Seq<OutlookKey>,
    now: u64,
)
    requires
        round.keeps_true(built_at, rows),
        built_at == round.generation() || built_at != next_generation(round.generation()),
    ensures
        round.landed(key, answer, scope, now).keeps_true(built_at, rows),
        round.turned().keeps_true(built_at, rows),
{
    law_an_arrival_moves_the_generation(round, key, answer, scope, now);
}

/// What some bands' items say.
pub struct BandView {
    pub label: Seq<char>,
    pub day: OutlookDay,
    pub product: OutlookProduct,
    pub valid: Option<Instant>,
    pub expire: Option<Instant>,
}

impl View for OutlookItem {
    type V = BandView;

    open spec fn view(&self) -> BandView {
        BandView {
            label: self.label@,
            day: self.day,
            product: self.product,
            valid: self.valid,
            expire: self.expire,
        }
    }
}

/// A band that can be clicked: the feature whose outline is hit, and the item it
/// opens.
#[derive(Debug)]
pub struct ClickableItem {
    pub feature: Arc<OverlayFeature>,
    pub item: OutlookItem,
}

/// What a clickable band says.
pub struct ClickView {
    pub feature: Arc<OverlayFeature>,
    pub item: BandView,
}

impl View for ClickableItem {
    type V = ClickView;

    open spec fn view(&self) -> ClickView {
        ClickView { feature: self.feature, item: self.item@ }
    }
}

/// The bands of one issuance.
pub open spec fn band_list(outlook: SpcOutlook, day: OutlookDay, product: OutlookProduct) -> Seq<
    ClickView,
> {
    Seq::new(
        outlook.features@.len(),
        |i: int|
            ClickView {
                feature: outlook.features@[i],
                item: BandView {
                    label: outlook.features@[i].label@,
                    day,
                    product,
                    valid: outlook.valid,
                    expire: outlook.expire,
                },
            },
    )
}

/// The bands of some products of a day.
pub open spec fn bands(
    data: Map<OutlookKey, SpcOutlook>,
    day: OutlookDay,
    products: Seq<OutlookProduct>,
) -> Seq<ClickView>
    decreases products.len(),
{
    if products.len() == 0 {
        Seq::empty()
    } else {
        let before = bands(data, day, products.drop_last());
        let key = OutlookKey { day, product: products.last() };
        if data.contains_key(key) {
            before + band_list(data[key], day, products.last())
        } else {
            before
        }
    }
}

/// Whether items say what the bands do, one for one.
pub open spec fn items_of(items: Seq<ClickableItem>, bands: Seq<ClickView>) -> bool {
    &&& items.len() == bands.len()
    &&& forall|i: int| 0 <= i < items.len() ==> (#[trigger] items[i])@ == bands[i]
}

/// A set with only what a day publishes.
pub open spec fn limited_to(day: OutlookDay, set: ProductSet) -> ProductSet {
    let keep = |product: OutlookProduct|
        set.has(product) && day.published().contains(product);
    ProductSet {
        categorical: keep(OutlookProduct::Categorical),
        tornado: keep(OutlookProduct::Tornado),
        wind: keep(OutlookProduct::Wind),
        hail: keep(OutlookProduct::Hail),
        probabilistic: keep(OutlookProduct::Probabilistic),
        conditional_intensity: keep(OutlookProduct::ConditionalIntensity),
    }
}

fn has_product(products: &Vec<OutlookProduct>, product: OutlookProduct) -> (b: bool)
    ensures
        b == products@.contains(product),
{
    let mut at: usize = 0;
    while at < products.len()
        invariant
            at <= products@.len(),
            forall|i: int| 0 <= i < at ==> products@[i] != product,
        decreases products@.len() - at,
    {
        if products[at] == product {
            assert(products@[at as int] == product);
            return true;
        }
        at = at + 1;
    }
    false
}

fn published_only(day: OutlookDay, set: &ProductSet) -> (kept: ProductSet)
    ensures
        kept == limited_to(day, *set),
{
    let published = day.products();
    ProductSet {
        categorical: set.categorical && has_product(&published, OutlookProduct::Categorical),
        tornado: set.tornado && has_product(&published, OutlookProduct::Tornado),
        wind: set.wind && has_product(&published, OutlookProduct::Wind),
        hail: set.hail && has_product(&published, OutlookProduct::Hail),
        probabilistic: set.probabilistic && has_product(&published, OutlookProduct::Probabilistic),
        conditional_intensity: set.conditional_intensity && has_product(
            &published,
            OutlookProduct::ConditionalIntensity,
        ),
    }
}

/// The selection a control leads to, where it moves it: another day keeps only
/// what that day publishes, and a product's toggle puts it in or takes it out.
/// Either way the implied product follows.
pub open spec fn changed(view: OutlookPaneState, update: ControlUpdate) -> Option<
    OutlookPaneState,
> {
    if exists|day: OutlookDay| #[trigger] day_id(day) == update.id@ {
        let day = choose|day: OutlookDay| #[trigger] day_id(day) == update.id@;
        if day == view.selected_day {
            None
        } else {
            Some(
                OutlookPaneState {
                    selected_day: day,
                    enabled_products: limited_to(day, view.enabled_products),
                }.synced(),
            )
        }
    } else if exists|product: OutlookProduct| #[trigger] toggle_id(product) == Some(update.id@) {
        let product = choose|product: OutlookProduct| #[trigger]
            toggle_id(product) == Some(update.id@);
        match update.value {
            ControlValue::Bool(enabled) => Some(
                OutlookPaneState {
                    enabled_products: view.enabled_products.with(product, enabled),
                    ..view
                }.synced(),
            ),
            _ => None,
        }
    } else {
        None
    }
}

/// Whether a control asks for a fetch: a new day with something on, a product
/// turned on, and a refresh with something on.
pub open spec fn control_effect(view: OutlookPaneState, update: ControlUpdate) -> ControlEffect {
    if exists|day: OutlookDay| #[trigger] day_id(day) == update.id@ {
        match changed(view, update) {
            Some(next) => if next.enabled_products != ProductSet::none() {
                ControlEffect::Fetch
            } else {
                ControlEffect::Nothing
            },
            None => ControlEffect::Nothing,
        }
    } else if exists|product: OutlookProduct| #[trigger] toggle_id(product) == Some(update.id@) {
        if update.value == ControlValue::Bool(true) {
            ControlEffect::Fetch
        } else {
            ControlEffect::Nothing
        }
    } else if update.id@ == "refresh"@ && view.enabled_products != ProductSet::none() {
        ControlEffect::Fetch
    } else {
        ControlEffect::Nothing
    }
}

spec fn every_place(product: OutlookProduct) -> int {
    match product {
        OutlookProduct::Categorical => 0,
        OutlookProduct::Tornado => 1,
        OutlookProduct::Wind => 2,
        OutlookProduct::Hail => 3,
        OutlookProduct::Probabilistic => 4,
        OutlookProduct::ConditionalIntensity => 5,
    }
}

/// No two days share a button, no two products share a toggle, and no button is
/// a toggle.
pub proof fn law_ids_differ(a: OutlookDay, b: OutlookDay, p: OutlookProduct, q: OutlookProduct)
    ensures
        day_id(a) == day_id(b) ==> a == b,
        toggle_id(p) is Some && toggle_id(p) == toggle_id(q) ==> p == q,
        toggle_id(p) != Some(day_id(a)),
        day_id(a) != "refresh"@,
        toggle_id(p) != Some("refresh"@),
{
    reveal_strlit("day1");
    reveal_strlit("day2");
    reveal_strlit("day3");
    reveal_strlit("day4");
    reveal_strlit("day5");
    reveal_strlit("day6");
    reveal_strlit("day7");
    reveal_strlit("day8");
    reveal_strlit("cat");
    reveal_strlit("tor");
    reveal_strlit("wind");
    reveal_strlit("hail");
    reveal_strlit("prob");
    reveal_strlit("refresh");
    assert("day1"@[3] == '1' && "day2"@[3] == '2' && "day3"@[3] == '3' && "day4"@[3] == '4');
    assert("day5"@[3] == '5' && "day6"@[3] == '6' && "day7"@[3] == '7' && "day8"@[3] == '8');
    assert("day1"@[0] == 'd' && "day2"@[0] == 'd' && "day3"@[0] == 'd' && "day4"@[0] == 'd');
    assert("day5"@[0] == 'd' && "day6"@[0] == 'd' && "day7"@[0] == 'd' && "day8"@[0] == 'd');
    assert("cat"@[0] == 'c' && "tor"@[0] == 't' && "wind"@[0] == 'w' && "hail"@[0] == 'h');
    assert("prob"@[0] == 'p' && "refresh"@[0] == 'r');
    assert(day_id(a)[3] == day_id(a)[3] && day_id(b)[3] == day_id(b)[3]);
    assert(day_id(a)[0] == 'd');
    if toggle_id(p) is Some {
        assert(toggle_id(p)->0[0] != 'd' && toggle_id(p)->0[0] != 'r');
        if toggle_id(p) == toggle_id(q) {
            assert(toggle_id(p)->0[0] == toggle_id(q)->0[0]);
        }
    }
}

fn day_of_id(id: &str) -> (day: Option<OutlookDay>)
    ensures
        match day {
            Some(d) => day_id(d) == id@ && (choose|e: OutlookDay| #[trigger] day_id(e) == id@) == d,
            None => forall|d: OutlookDay| #[trigger] day_id(d) != id@,
        },
{
    let days = OutlookDay::all();
    let mut at: usize = 0;
    while at < days.len()
        invariant
            at <= days@.len(),
            days@ == OutlookDay::every(),
            forall|i: int| 0 <= i < at ==> day_id(#[trigger] days@[i]) != id@,
        decreases days@.len() - at,
    {
        if same_text(day_button_id(days[at]), id) {
            proof {
                let e = choose|e: OutlookDay| #[trigger] day_id(e) == id@;
                law_ids_differ(
                    days@[at as int],
                    e,
                    OutlookProduct::Categorical,
                    OutlookProduct::Categorical,
                );
            }
            return Some(days[at]);
        }
        at = at + 1;
    }
    proof {
        assert forall|d: OutlookDay| #[trigger] day_id(d) != id@ by {
            let i = day_number(d);
            assert(days@[i] == d);
        }
    }
    None
}

fn product_of_id(id: &str) -> (product: Option<OutlookProduct>)
    ensures
        match product {
            Some(p) => toggle_id(p) == Some(id@) && (choose|q: OutlookProduct| #[trigger]
                toggle_id(q) == Some(id@)) == p,
            None => forall|p: OutlookProduct| #[trigger] toggle_id(p) != Some(id@),
        },
{
    let products = OutlookProduct::all();
    let mut at: usize = 0;
    while at < products.len()
        invariant
            at <= products@.len(),
            products@ == OutlookProduct::every(),
            forall|i: int| 0 <= i < at ==> toggle_id(#[trigger] products@[i]) != Some(id@),
        decreases products@.len() - at,
    {
        if let Some(text) = product_toggle_id(products[at]) {
            if same_text(text, id) {
                proof {
                    let q = choose|q: OutlookProduct| #[trigger] toggle_id(q) == Some(id@);
                    law_ids_differ(
                        OutlookDay::Day1,
                        OutlookDay::Day1,
                        products@[at as int],
                        q,
                    );
                }
                return Some(products[at]);
            }
        }
        at = at + 1;
    }
    proof {
        assert forall|p: OutlookProduct| #[trigger] toggle_id(p) != Some(id@) by {
            let i = every_place(p);
            assert(products@[i] == p);
        }
    }
    None
}

proof fn lemma_members_bound(set: ProductSet, products: Seq<OutlookProduct>)
    ensures
        members(set, products).len() <= products.len(),
    decreases products.len(),
{
    if products.len() > 0 {
        lemma_members_bound(set, products.drop_last());
    }
}

fn push_features(into: &mut Vec<Arc<OverlayFeature>>, features: &Vec<Arc<OverlayFeature>>)
    ensures
        final(into)@ == old(into)@ + features@,
{
    let ghost before = into@;
    let mut at: usize = 0;
    assert(before + features@.take(0) =~= before);
    while at < features.len()
        invariant
            at <= features@.len(),
            into@ == before + features@.take(at as int),
        decreases features@.len() - at,
    {
        into.push(Arc::clone(&features[at]));
        assert(into@ =~= before + features@.take(at + 1));
        at = at + 1;
    }
    assert(features@.take(at as int) =~= features@);
}

fn merge_strays(strays: &Vec<FetchError>) -> (merged: FetchError)
    ensures
        merged@ == stray_error(error_list(strays@)),
{
    let mut failures: Vec<FetchFailure> = Vec::new();
    let mut at: usize = 0;
    while at < strays.len()
        invariant
            at <= strays@.len(),
            failures@.len() == at,
            forall|i: int| 0 <= i < at ==> failures@[i] == (#[trigger] strays@[i]).failure,
        decreases strays@.len() - at,
    {
        failures.push(strays[at].failure);
        at = at + 1;
    }
    proof {
        assert(failures@ =~= failure_list(error_list(strays@)));
    }
    let mut message = decimal_text(strays.len() as u64);
    message.append(" outlook request(s) failed for products the layer no longer asks for");
    FetchError { failure: FetchFailure::of_round(&failures), message }
}

impl OutlookView {
    /// Whether two rounds read the same: they differ at most in the order in
    /// which failures nobody asks about any more came in.
    pub open spec fn reads_as(self, other: OutlookView) -> bool {
        &&& other == (OutlookView { strays: other.strays, ..self })
        &&& self.strays.len() == other.strays.len()
        &&& forall|f: FetchFailure|
            #![trigger failure_list(self.strays).contains(f)]
            #![trigger failure_list(other.strays).contains(f)]
            failure_list(self.strays).contains(f) == failure_list(other.strays).contains(f)
    }
}

/// The order in which two tasks of a round land does not matter: not to the
/// data, not to what is filed, not to what is still owed.
pub proof fn law_arrivals_commute(
    round: OutlookView,
    a: OutlookKey,
    a_answer: AnswerView,
    b: OutlookKey,
    b_answer: AnswerView,
    scope: Seq<OutlookKey>,
    now: u64,
)
    requires
        a != b,
        round.outstanding >= 2,
    ensures
        round.landed(a, a_answer, scope, now).landed(b, b_answer, scope, now).reads_as(
            round.landed(b, b_answer, scope, now).landed(a, a_answer, scope, now),
        ),
{
    let ab = round.answered_by(a, a_answer, scope, now).answered_by(b, b_answer, scope, now);
    let ba = round.answered_by(b, b_answer, scope, now).answered_by(a, a_answer, scope, now);
    assert(ab.data =~= ba.data);
    assert(ab.errors =~= ba.errors);
    assert(ab.generations =~= ba.generations);
    assert forall|f: FetchFailure|
        failure_list(ab.strays).contains(f) == failure_list(ba.strays).contains(f) by {
        lemma_push_adds(round.strays, a_answer->Refused_0, f);
        lemma_push_adds(round.strays, b_answer->Refused_0, f);
        lemma_push_adds(round.strays.push(a_answer->Refused_0), b_answer->Refused_0, f);
        lemma_push_adds(round.strays.push(b_answer->Refused_0), a_answer->Refused_0, f);
    }
    assert(ab.reads_as(ba));
    lemma_filed_alike(ab, ba, scope);
}

/// Two rounds that read the same still do after the same task lands in both, so
/// a whole round reads the same in whatever order its tasks land.
pub proof fn law_landing_keeps_rounds_alike(
    one: OutlookView,
    other: OutlookView,
    key: OutlookKey,
    answer: AnswerView,
    scope: Seq<OutlookKey>,
    now: u64,
)
    requires
        one.reads_as(other),
    ensures
        one.landed(key, answer, scope, now).reads_as(other.landed(key, answer, scope, now)),
{
    let a = one.answered_by(key, answer, scope, now);
    let b = other.answered_by(key, answer, scope, now);
    assert forall|f: FetchFailure|
        failure_list(a.strays).contains(f) == failure_list(b.strays).contains(f) by {
        lemma_push_adds(one.strays, answer->Refused_0, f);
        lemma_push_adds(other.strays, answer->Refused_0, f);
    }
    assert(a.reads_as(b));
    lemma_filed_alike(a, b, scope);
}

/// One task's answer: which product it is of, and what it says.
pub type Answer = (OutlookKey, AnswerView);

/// No two answers are of one product.
pub open spec fn one_each(answers: Seq<Answer>) -> bool {
    forall|i: int, j: int|
        0 <= i < j < answers.len() ==> (#[trigger] answers[i]).0 != (#[trigger] answers[j]).0
}

impl OutlookView {
    /// The round after some answers, taken in one after the other.
    pub open spec fn landed_all(
        self,
        answers: Seq<Answer>,
        scope: Seq<OutlookKey>,
        now: u64,
    ) -> OutlookView
        decreases answers.len(),
    {
        if answers.len() == 0 {
            self
        } else {
            self.landed_all(answers.drop_last(), scope, now).landed(
                answers.last().0,
                answers.last().1,
                scope,
                now,
            )
        }
    }

    /// The round with some answers taken in and nothing filed.
    pub open spec fn answered_by_all(
        self,
        answers: Seq<Answer>,
        scope: Seq<OutlookKey>,
        now: u64,
    ) -> OutlookView
        decreases answers.len(),
    {
        if answers.len() == 0 {
            self
        } else {
            self.answered_by_all(answers.drop_last(), scope, now).answered_by(
                answers.last().0,
                answers.last().1,
                scope,
                now,
            )
        }
    }
}

/// A round files one verdict, when the last of its tasks has landed.
pub proof fn law_a_round_files_once(
    round: OutlookView,
    answers: Seq<Answer>,
    scope: Seq<OutlookKey>,
    now: u64,
)
    requires
        answers.len() <= round.outstanding,
    ensures
        round.landed_all(answers, scope, now).outstanding == round.outstanding - answers.len(),
        round.landed_all(answers, scope, now) == (if 0 < answers.len() == round.outstanding {
            round.answered_by_all(answers, scope, now).filed(scope)
        } else {
            round.answered_by_all(answers, scope, now)
        }),
    decreases answers.len(),
{
    if answers.len() > 0 {
        law_a_round_files_once(round, answers.drop_last(), scope, now);
        lemma_answers_still_owed(round, answers, scope, now);
        lemma_answers_still_owed(round, answers.drop_last(), scope, now);
    }
}

proof fn lemma_answers_still_owed(
    round: OutlookView,
    answers: Seq<Answer>,
    scope: Seq<OutlookKey>,
    now: u64,
)
    requires
        answers.len() <= round.outstanding,
    ensures
        round.answered_by_all(answers, scope, now).outstanding == round.outstanding
            - answers.len(),
    decreases answers.len(),
{
    if answers.len() > 0 {
        lemma_answers_still_owed(round, answers.drop_last(), scope, now);
    }
}

proof fn lemma_reads_as_chain(a: OutlookView, b: OutlookView, c: OutlookView)
    requires
        a.reads_as(b),
        b.reads_as(c),
    ensures
        a.reads_as(c),
        b.reads_as(a),
{
}

/// One answer can wait until all the others have landed.
proof fn lemma_answer_lands_last(
    round: OutlookView,
    answers: Seq<Answer>,
    at: int,
    scope: Seq<OutlookKey>,
    now: u64,
)
    requires
        one_each(answers),
        0 <= at < answers.len() <= round.outstanding,
    ensures
        round.landed_all(answers, scope, now).reads_as(
            round.landed_all(answers.remove(at).push(answers[at]), scope, now),
        ),
    decreases answers.len(),
{
    let late = answers[at];
    let moved = answers.remove(at).push(late);
    assert(moved.drop_last() =~= answers.remove(at));
    if at == answers.len() - 1 {
        assert(moved =~= answers);
    } else {
        let (init, last) = (answers.drop_last(), answers.last());
        assert(one_each(init)) by {
            assert forall|i: int, j: int| 0 <= i < j < init.len() implies (#[trigger] init[i]).0 != (
            #[trigger] init[j]).0 by {
                assert(answers[i].0 != answers[j].0);
            }
        }
        lemma_answer_lands_last(round, init, at, scope, now);
        let others = init.remove(at);
        let before = round.landed_all(others, scope, now);
        assert(others.push(late).drop_last() =~= others);
        let near = round.landed_all(others.push(late), scope, now);
        law_landing_keeps_rounds_alike(
            round.landed_all(init, scope, now),
            near,
            last.0,
            last.1,
            scope,
            now,
        );
        law_a_round_files_once(round, others, scope, now);
        assert(answers[at].0 != answers[answers.len() - 1].0);
        law_arrivals_commute(before, late.0, late.1, last.0, last.1, scope, now);
        assert(answers.remove(at).drop_last() =~= others);
        assert(answers.remove(at).last() == last);
        assert(near == before.landed(late.0, late.1, scope, now));
        assert(round.landed_all(answers.remove(at), scope, now) == before.landed(
            last.0,
            last.1,
            scope,
            now,
        ));
        lemma_reads_as_chain(
            round.landed_all(answers, scope, now),
            near.landed(last.0, last.1, scope, now),
            round.landed_all(moved, scope, now),
        );
    }
}

/// A whole round reads the same in whatever order its tasks land, and once the
/// last has landed it is the same: the data, what is filed, and how often.
pub proof fn law_a_round_ends_alike_in_any_order(
    round: OutlookView,
    one: Seq<Answer>,
    other: Seq<Answer>,
    scope: Seq<OutlookKey>,
    now: u64,
)
    requires
        one_each(one),
        one_each(other),
        one.len() == other.len(),
        forall|answer: Answer| one.contains(answer) == other.contains(answer),
        one.len() <= round.outstanding,
    ensures
        round.landed_all(one, scope, now).reads_as(round.landed_all(other, scope, now)),
        one.len() == round.outstanding ==> round.landed_all(one, scope, now) == round.landed_all(
            other,
            scope,
            now,
        ),
    decreases one.len(),
{
    if one.len() > 0 {
        let last = one.last();
        assert(one[one.len() - 1] == last);
        assert(one.contains(last));
        let at = other.index_of(last);
        let (fewer, rest) = (one.drop_last(), other.remove(at));
        assert forall|i: int, j: int| 0 <= i < j < fewer.len() implies (#[trigger] fewer[i]).0 != (
        #[trigger] fewer[j]).0 by {
            assert(one[i].0 != one[j].0);
        }
        assert forall|i: int, j: int| 0 <= i < j < rest.len() implies (#[trigger] rest[i]).0 != (
        #[trigger] rest[j]).0 by {
            let p = if i < at {
                i
            } else {
                i + 1
            };
            let q = if j < at {
                j
            } else {
                j + 1
            };
            assert(other[p].0 != other[q].0);
        }
        assert forall|answer: Answer| fewer.contains(answer) == rest.contains(answer) by {
            if fewer.contains(answer) {
                let i = fewer.index_of(answer);
                assert(one[i] == answer);
                assert(one[i].0 != one[one.len() - 1].0);
                assert(one.contains(answer));
                let j = other.index_of(answer);
                assert(rest[if j < at {
                    j
                } else {
                    j - 1
                }] == answer);
            }
            if rest.contains(answer) {
                let j = rest.index_of(answer);
                let p = if j < at {
                    j
                } else {
                    j + 1
                };
                assert(other[p] == answer);
                assert(other[p].0 != other[at].0);
                assert(other.contains(answer));
                let i = one.index_of(answer);
                assert(fewer[i] == answer);
            }
        }
        law_a_round_ends_alike_in_any_order(round, fewer, rest, scope, now);
        law_landing_keeps_rounds_alike(
            round.landed_all(fewer, scope, now),
            round.landed_all(rest, scope, now),
            last.0,
            last.1,
            scope,
            now,
        );
        let moved = rest.push(last);
        assert(moved.drop_last() =~= rest);
        lemma_answer_lands_last(round, other, at, scope, now);
        let (a, b, c) = (
            round.landed_all(one, scope, now),
            round.landed_all(moved, scope, now),
            round.landed_all(other, scope, now),
        );
        lemma_reads_as_chain(c, b, b);
        lemma_reads_as_chain(a, b, c);
        law_a_round_files_once(round, one, scope, now);
        law_a_round_files_once(round, other, scope, now);
    } else {
        assert(other =~= one);
    }
}

/// A round leaves every product with its own answer: what loaded is held with no
/// error beside it, what was refused and is asked for has its error, and no other
/// product is touched.
pub proof fn law_a_round_keeps_each_answer(
    round: OutlookView,
    answers: Seq<Answer>,
    scope: Seq<OutlookKey>,
    now: u64,
    key: OutlookKey,
)
    requires
        one_each(answers),
        answers.len() <= round.outstanding,
    ensures
        ({
            let after = round.landed_all(answers, scope, now);
            &&& forall|i: int|
                0 <= i < answers.len() && (#[trigger] answers[i]).0 == key ==> match answers[i].1 {
                    AnswerView::Loaded(outlook) => after.data.contains_key(key) && after.data[key]
                        == outlook && !after.errors.contains_key(key),
                    AnswerView::Refused(e) => {
                        &&& after.data.contains_key(key) == round.data.contains_key(key)
                        &&& after.data.contains_key(key) ==> after.data[key] == round.data[key]
                        &&& scope.contains(key) ==> after.errors.contains_key(key)
                            && after.errors[key] == e
                    },
                }
            &&& (forall|i: int| 0 <= i < answers.len() ==> (#[trigger] answers[i]).0 != key) ==> {
                &&& after.data.contains_key(key) == round.data.contains_key(key)
                &&& after.data.contains_key(key) ==> after.data[key] == round.data[key]
                &&& after.errors.contains_key(key) == round.errors.contains_key(key)
                &&& after.errors.contains_key(key) ==> after.errors[key] == round.errors[key]
            }
        }),
    decreases answers.len(),
{
    if answers.len() > 0 {
        let fewer = answers.drop_last();
        assert forall|i: int, j: int| 0 <= i < j < fewer.len() implies (#[trigger] fewer[i]).0 != (
        #[trigger] fewer[j]).0 by {
            assert(answers[i].0 != answers[j].0);
        }
        law_a_round_keeps_each_answer(round, fewer, scope, now, key);
        let last = answers[answers.len() - 1];
        assert forall|i: int| 0 <= i < fewer.len() implies (#[trigger] fewer[i]).0 != last.0 by {
            assert(answers[i].0 != answers[answers.len() - 1].0);
        }
        let before = round.landed_all(fewer, scope, now);
        let after = round.landed_all(answers, scope, now);
        assert(after == before.landed(last.0, last.1, scope, now));
        if last.0 != key {
            assert(after.data.contains_key(key) == before.data.contains_key(key));
            assert(after.errors.contains_key(key) == before.errors.contains_key(key));
            assert(forall|i: int| 0 <= i < fewer.len() ==> #[trigger] answers[i] == fewer[i]);
        }
        assert forall|i: int|
            0 <= i < answers.len() && (#[trigger] answers[i]).0 == key implies match answers[i].1 {
            AnswerView::Loaded(outlook) => after.data.contains_key(key) && after.data[key]
                == outlook && !after.errors.contains_key(key),
            AnswerView::Refused(e) => {
                &&& after.data.contains_key(key) == round.data.contains_key(key)
                &&& after.data.contains_key(key) ==> after.data[key] == round.data[key]
                &&& scope.contains(key) ==> after.errors.contains_key(key) && after.errors[key]
                    == e
            },
        } by {
            if i < fewer.len() {
                assert(fewer[i].0 == key);
            }
        }
        if forall|i: int| 0 <= i < answers.len() ==> (#[trigger] answers[i]).0 != key {
            assert forall|i: int| 0 <= i < fewer.len() implies (#[trigger] fewer[i]).0 != key by {
                assert(answers[i].0 != key);
            }
        }
    }
}

/// Whether a product's answer was a failure, other than that nothing is published.
pub open spec fn refused(answers: Seq<Answer>, key: OutlookKey) -> bool {
    exists|i: int|
        0 <= i < answers.len() && (#[trigger] answers[i]).0 == key
            && answers[i].1.is_failure()
}

/// Whether a product's answer was data.
pub open spec fn loaded(answers: Seq<Answer>, key: OutlookKey) -> bool {
    exists|i: int|
        0 <= i < answers.len() && (#[trigger] answers[i]).0 == key && answers[i].1 is Loaded
}

/// Whether a product answered at all.
pub open spec fn replied(answers: Seq<Answer>, key: OutlookKey) -> bool {
    exists|i: int| 0 <= i < answers.len() && (#[trigger] answers[i]).0 == key
}

/// A whole round in which something asked for failed is one attempt, however many
/// of its products failed and in whatever order they landed: the ledger counts one
/// failure more, and its note counts what failed out of what is asked for. What
/// loaded is held, whatever failed beside it, and only what failed and has nothing
/// held is missing. Where everything asked for answered, what failed is exactly
/// what was refused.
pub proof fn law_a_failed_round_is_one_attempt(
    round: OutlookView,
    answers: Seq<Answer>,
    scope: Seq<OutlookKey>,
    now: u64,
)
    requires
        one_each(answers),
        answers.len() == round.outstanding,
        exists|i: int| 0 <= i < scope.len() && refused(answers, #[trigger] scope[i]),
    ensures
        ({
            let after = round.landed_all(answers, scope, now);
            let failed = failing(scope, after.errors);
            &&& after.outstanding == 0
            &&& after.ledger.failures == one_more(round.ledger.failures)
            &&& after.ledger.last matches Some(e) && e.failure != FetchFailure::Absent && e.message
                == tally(
                failed.len(),
                scope.len(),
                " outlook products did not load: "@,
                reasons(failed, after.errors),
            )
            &&& after.ledger.coverage == missing_from(scope, after.errors, after.drawn())
            &&& forall|key: OutlookKey| #[trigger]
                after.data.contains_key(key) == (round.data.contains_key(key) || loaded(
                    answers,
                    key,
                ))
            &&& (forall|i: int| 0 <= i < scope.len() ==> replied(answers, #[trigger] scope[i]))
                ==> failed == scope.filter(|key: OutlookKey| refused(answers, key))
        }),
{
    let after = round.landed_all(answers, scope, now);
    let failed = failing(scope, after.errors);
    let at = choose|i: int| 0 <= i < scope.len() && refused(answers, #[trigger] scope[i]);
    let bad = choose|i: int|
        0 <= i < answers.len() && (#[trigger] answers[i]).0 == scope[at]
            && answers[i].1.is_failure();
    assert(scope.contains(answers[bad].0));
    law_a_round_files_once(round, answers, scope, now);
    lemma_answers_file_nothing(round, answers, scope, now, bad);
    assert forall|key: OutlookKey| #[trigger]
        after.data.contains_key(key) == (round.data.contains_key(key) || loaded(answers, key)) by {
        law_a_round_keeps_each_answer(round, answers, scope, now, key);
        if !loaded(answers, key) && replied(answers, key) {
            let i = choose|i: int| 0 <= i < answers.len() && (#[trigger] answers[i]).0 == key;
            assert(!(answers[i].1 is Loaded));
        }
    }
    law_a_round_keeps_each_answer(round, answers, scope, now, answers[bad].0);
    lemma_failing_holds(scope, after.errors, at);
    let failures = failures_of(failed, after.errors);
    assert(failures[0] == after.errors[failed[0]].failure);
    assert(failures.contains(FetchFailure::Transient) || failures.contains(
        FetchFailure::Permanent,
    ));
    if forall|i: int| 0 <= i < scope.len() ==> replied(answers, #[trigger] scope[i]) {
        assert forall|i: int| 0 <= i < scope.len() implies refused(answers, #[trigger] scope[i])
            == (after.errors.contains_key(scope[i]) && after.errors[scope[i]].failure
            != FetchFailure::Absent) by {
            let key = scope[i];
            assert(scope.contains(key));
            assert(replied(answers, key));
            law_a_round_keeps_each_answer(round, answers, scope, now, key);
            let j = choose|j: int| 0 <= j < answers.len() && (#[trigger] answers[j]).0 == key;
            assert forall|k: int| 0 <= k < answers.len() && (#[trigger] answers[k]).0 == key implies k
                == j by {
                if k < j {
                    assert(answers[k].0 != answers[j].0);
                }
                if j < k {
                    assert(answers[j].0 != answers[k].0);
                }
            }
        }
        lemma_failing_is_refused(scope, after.errors, answers);
    }
}

/// Taking answers in files nothing, and the round knows that something asked for
/// has answered.
proof fn lemma_answers_file_nothing(
    round: OutlookView,
    answers: Seq<Answer>,
    scope: Seq<OutlookKey>,
    now: u64,
    at: int,
)
    requires
        0 <= at < answers.len() ==> scope.contains(answers[at].0),
    ensures
        round.answered_by_all(answers, scope, now).ledger == round.ledger,
        0 <= at < answers.len() ==> round.answered_by_all(answers, scope, now).answered,
    decreases answers.len(),
{
    if answers.len() > 0 {
        lemma_answers_file_nothing(round, answers.drop_last(), scope, now, at);
    }
}

proof fn lemma_failing_holds(scope: Seq<OutlookKey>, errors: Map<OutlookKey, ErrorView>, at: int)
    ensures
        0 <= at < scope.len() && errors.contains_key(scope[at]) && errors[scope[at]].failure
            != FetchFailure::Absent ==> failing(scope, errors).len() > 0,
        forall|i: int|
            0 <= i < failing(scope, errors).len() ==> errors[#[trigger] failing(
                scope,
                errors,
            )[i]].failure != FetchFailure::Absent,
    decreases scope.len(),
{
    if scope.len() > 0 {
        lemma_failing_holds(scope.drop_last(), errors, at);
    }
}

proof fn lemma_failing_is_refused(
    scope: Seq<OutlookKey>,
    errors: Map<OutlookKey, ErrorView>,
    answers: Seq<Answer>,
)
    requires
        forall|i: int|
            0 <= i < scope.len() ==> refused(answers, #[trigger] scope[i]) == (errors.contains_key(
                scope[i],
            ) && errors[scope[i]].failure != FetchFailure::Absent),
    ensures
        failing(scope, errors) == scope.filter(|key: OutlookKey| refused(answers, key)),
    decreases scope.len(),
{
    reveal(Seq::filter);
    if scope.len() > 0 {
        let shorter = scope.drop_last();
        assert forall|i: int| 0 <= i < shorter.len() implies refused(answers, #[trigger] shorter[i])
            == (errors.contains_key(shorter[i]) && errors[shorter[i]].failure
            != FetchFailure::Absent) by {
            assert(shorter[i] == scope[i]);
        }
        lemma_failing_is_refused(shorter, errors, answers);
        assert(scope.last() == scope[scope.len() - 1]);
    }
}

proof fn lemma_filed_alike(a: OutlookView, b: OutlookView, scope: Seq<OutlookKey>)
    requires
        a.reads_as(b),
    ensures
        a.filed(scope) == b.filed(scope),
        a.filed(scope).reads_as(b.filed(scope)),
{
    assert(stray_error(a.strays) == stray_error(b.strays));
}

proof fn lemma_push_adds(strays: Seq<ErrorView>, e: ErrorView, f: FetchFailure)
    ensures
        failure_list(strays.push(e)).contains(f) == (failure_list(strays).contains(f) || e.failure
            == f),
{
    assert(failure_list(strays.push(e)) =~= failure_list(strays).push(e.failure));
    let (before, after) = (failure_list(strays), failure_list(strays).push(e.failure));
    if before.contains(f) {
        let i = before.index_of(f);
        assert(after[i] == f);
    }
    assert(after[before.len() as int] == e.failure);
}

/// What the layer says of itself, whatever it holds.
impl SpcOutlookHandler {
    pub fn id(&self) -> (id: LayerId)
        ensures
            id == LayerId::SpcOutlook,
    {
        LayerId::SpcOutlook
    }

    pub fn render_mode(&self) -> (mode: RenderMode)
        ensures
            mode == RenderMode::Texture,
    {
        RenderMode::Texture
    }

    /// Whether a picture belongs to one theme.
    pub fn theme_sensitive(&self) -> (b: bool)
        ensures
            b,
    {
        true
    }

    /// Heavier layers are drawn over lighter ones.
    pub fn draw_order_weight(&self) -> (weight: u32)
        ensures
            weight == 20,
    {
        20
    }

    pub fn display_name(&self) -> (name: &'static str)
        ensures
            name@ == "SPC Outlooks"@,
    {
        "SPC Outlooks"
    }

    pub fn time_axis(&self) -> (axis: TimeAxis)
        ensures
            axis == (TimeAxis::EventLifetime),
    {
        TimeAxis::EventLifetime
    }

    /// The job row its pictures are asked for through.
    pub fn job_codec(&self) -> (row: Option<JobRow>)
        ensures
            row == Some(JobRow::Outlooks),
    {
        let row = JobRow::named("overlay/outlooks");
        proof {
            assert(JobRow::Outlooks.label_view() == "overlay/outlooks"@);
            if let Some(found) = row {
                law_labels_tell_rows_apart(found, JobRow::Outlooks);
            }
        }
        row
    }
}

/// Whether a product of a day is held and its issuance has begun and not lapsed.
pub open spec fn stands(
    data: Map<OutlookKey, SpcOutlook>,
    day: OutlookDay,
    product: OutlookProduct,
    as_of: Instant,
) -> bool {
    let key = OutlookKey { day, product };
    &&& data.contains_key(key)
    &&& data[key].valid matches Some(valid) ==> !as_of.before(valid)
    &&& data[key].expire matches Some(expire) ==> as_of.before(expire)
}

/// What is painted of a day is all the features of each product that is on,
/// published, held and in force: product after product in the order of
/// publication, each with its features together and in their own order. How many
/// are painted is the sum of how many each of them has.
pub proof fn law_every_band_in_force_is_painted(
    data: Map<OutlookKey, SpcOutlook>,
    view: OutlookPaneState,
    as_of: Instant,
)
    ensures
        ({
            let day = view.selected_day;
            let standing = day.published().filter(
                |p: OutlookProduct| view.enabled_products.has(p) && stands(data, day, p, as_of),
            );
            let features = painted(data, day, drawn_products(view), as_of);
            &&& features == standing.map_values(
                |p: OutlookProduct| data[OutlookKey { day, product: p }].features@,
            ).flatten()
            &&& features.len() == standing.map_values(
                |p: OutlookProduct| data[OutlookKey { day, product: p }].features@.len() as int,
            ).fold_left(0, |sum: int, n: int| sum + n)
        }),
{
    lemma_painted_flat(
        data,
        view.selected_day,
        view.selected_day.published(),
        view.enabled_products,
        as_of,
    );
}

proof fn lemma_painted_flat(
    data: Map<OutlookKey, SpcOutlook>,
    day: OutlookDay,
    products: Seq<OutlookProduct>,
    enabled: ProductSet,
    as_of: Instant,
)
    ensures
        ({
            let standing = products.filter(
                |p: OutlookProduct| enabled.has(p) && stands(data, day, p, as_of),
            );
            let features = painted(data, day, members(enabled, products), as_of);
            &&& features == standing.map_values(
                |p: OutlookProduct| data[OutlookKey { day, product: p }].features@,
            ).flatten()
            &&& features.len() == standing.map_values(
                |p: OutlookProduct| data[OutlookKey { day, product: p }].features@.len() as int,
            ).fold_left(0, |sum: int, n: int| sum + n)
        }),
    decreases products.len(),
{
    reveal(Seq::filter);
    let on = |p: OutlookProduct| enabled.has(p) && stands(data, day, p, as_of);
    let part = |p: OutlookProduct| data[OutlookKey { day, product: p }].features@;
    let size = |p: OutlookProduct| data[OutlookKey { day, product: p }].features@.len() as int;
    let standing = products.filter(on);
    if products.len() > 0 {
        let fewer = products.drop_last();
        let last = products.last();
        lemma_painted_flat(data, day, fewer, enabled, as_of);
        if enabled.has(last) {
            assert(members(enabled, products).drop_last() =~= members(enabled, fewer));
        }
        if on(last) {
            let before = fewer.filter(on);
            assert(standing.map_values(part) =~= before.map_values(part).push(part(last)));
            before.map_values(part).lemma_flatten_push(part(last));
            assert(standing.map_values(size).drop_last() =~= before.map_values(size));
        }
    } else {
        assert(standing.map_values(part) =~= Seq::empty());
        assert(standing.map_values(size) =~= Seq::empty());
    }
}

/// A feature is painted exactly where it is one of a product that is on,
/// published, held and in force.
pub proof fn law_a_feature_is_painted_where_it_is_in_force(
    data: Map<OutlookKey, SpcOutlook>,
    view: OutlookPaneState,
    as_of: Instant,
    feature: Arc<OverlayFeature>,
)
    ensures
        painted(data, view.selected_day, drawn_products(view), as_of).contains(feature) == exists|
            p: OutlookProduct,
        |
            view.enabled_products.has(p) && view.selected_day.published().contains(p)
                && #[trigger] stands(data, view.selected_day, p, as_of) && data[OutlookKey {
                day: view.selected_day,
                product: p,
            }].features@.contains(feature),
{
    lemma_painted_holds(data, view.selected_day, drawn_products(view), as_of, feature);
    let day = view.selected_day;
    if exists|p: OutlookProduct|
        drawn_products(view).contains(p) && #[trigger] stands(data, day, p, as_of)
            && data[OutlookKey { day, product: p }].features@.contains(feature) {
        let p = choose|p: OutlookProduct|
            drawn_products(view).contains(p) && #[trigger] stands(data, day, p, as_of)
                && data[OutlookKey { day, product: p }].features@.contains(feature);
        lemma_members_hold(view.enabled_products, day.published(), p);
        assert(stands(data, day, p, as_of));
    }
    if exists|p: OutlookProduct|
        view.enabled_products.has(p) && day.published().contains(p) && #[trigger] stands(
            data,
            day,
            p,
            as_of,
        ) && data[OutlookKey { day, product: p }].features@.contains(feature) {
        let p = choose|p: OutlookProduct|
            view.enabled_products.has(p) && day.published().contains(p) && #[trigger] stands(
                data,
                day,
                p,
                as_of,
            ) && data[OutlookKey { day, product: p }].features@.contains(feature);
        lemma_members_hold(view.enabled_products, day.published(), p);
        assert(stands(data, day, p, as_of));
    }
}

proof fn lemma_painted_holds(
    data: Map<OutlookKey, SpcOutlook>,
    day: OutlookDay,
    products: Seq<OutlookProduct>,
    as_of: Instant,
    feature: Arc<OverlayFeature>,
)
    ensures
        painted(data, day, products, as_of).contains(feature) == exists|p: OutlookProduct|
            products.contains(p) && #[trigger] stands(data, day, p, as_of) && data[OutlookKey {
                day,
                product: p,
            }].features@.contains(feature),
    decreases products.len(),
{
    if products.len() > 0 {
        let fewer = products.drop_last();
        let last = products[products.len() - 1];
        lemma_painted_holds(data, day, fewer, as_of, feature);
        let (before, after) = (
            painted(data, day, fewer, as_of),
            painted(data, day, products, as_of),
        );
        let own = data[OutlookKey { day, product: last }].features@;
        assert(products.contains(last));
        assert(forall|p: OutlookProduct|
            products.contains(p) == (fewer.contains(p) || p == last)) by {
            assert forall|p: OutlookProduct|
                products.contains(p) == (fewer.contains(p) || p == last) by {
                if products.contains(p) {
                    let i = products.index_of(p);
                    if i < fewer.len() {
                        assert(fewer[i] == p);
                    }
                }
                if fewer.contains(p) {
                    assert(products[fewer.index_of(p)] == p);
                }
            }
        }
        if stands(data, day, last, as_of) {
            assert(after == before + own);
            if after.contains(feature) {
                let i = after.index_of(feature);
                if i < before.len() {
                    assert(before[i] == feature);
                } else {
                    assert(own[i - before.len()] == feature);
                }
            }
            if before.contains(feature) {
                assert(after[before.index_of(feature)] == feature);
            }
            if own.contains(feature) {
                assert(after[before.len() + own.index_of(feature)] == feature);
            }
        } else {
            assert(after == before);
        }
    }
}

/// The source time a walk through some stops needs is the stops themselves and no
/// other instant.
pub proof fn law_every_stop_is_held(stops: Seq<Instant>, t: Instant)
    ensures
        ({
            let held = all_joined(stops.map_values(|stop: Instant| (stop, stop)));
            (exists|k: int|
                0 <= k < held.len() && !t.before((#[trigger] held[k]).0) && !held[k].1.before(t))
                == stops.contains(t)
        }),
{
    let spans = stops.map_values(|stop: Instant| (stop, stop));
    let held = all_joined(spans);
    law_joining_keeps_instants(spans, t);
    assert(in_any(held, t) == exists|k: int|
        0 <= k < held.len() && !t.before((#[trigger] held[k]).0) && !held[k].1.before(t)) by {
        if in_any(held, t) {
            let k = choose|k: int|
                0 <= k < held.len() && crate::frames::within(#[trigger] held[k], t);
            assert(!t.before(held[k].0) && !held[k].1.before(t));
        }
        if exists|k: int|
            0 <= k < held.len() && !t.before((#[trigger] held[k]).0) && !held[k].1.before(t) {
            let k = choose|k: int|
                0 <= k < held.len() && !t.before((#[trigger] held[k]).0) && !held[k].1.before(t);
            assert(crate::frames::within(held[k], t));
        }
    }
    if stops.contains(t) {
        let i = stops.index_of(t);
        assert(crate::frames::within(spans[i], t));
    }
    if in_any(spans, t) {
        let i = choose|i: int|
            0 <= i < spans.len() && crate::frames::within(#[trigger] spans[i], t);
        assert(stops[i] == t);
    }
}

/// A band of a pane can be clicked exactly where it is a feature of a product that
/// is on and held, in force or not, and it opens the item of that feature: its
/// label, its day and product, and its issuance's own times.
pub proof fn law_every_held_band_can_be_clicked(
    data: Map<OutlookKey, SpcOutlook>,
    day: OutlookDay,
    products: Seq<OutlookProduct>,
    click: ClickView,
)
    ensures
        bands(data, day, products).contains(click) == (products.contains(click.item.product)
            && click.item.day == day && ({
            let key = OutlookKey { day, product: click.item.product };
            &&& data.contains_key(key)
            &&& data[key].features@.contains(click.feature)
            &&& click.item.label == click.feature.label@
            &&& click.item.valid == data[key].valid
            &&& click.item.expire == data[key].expire
        })),
        bands(data, day, products).len() == products.filter(
            |p: OutlookProduct| data.contains_key(OutlookKey { day, product: p }),
        ).map_values(
            |p: OutlookProduct| data[OutlookKey { day, product: p }].features@.len() as int,
        ).fold_left(0, |sum: int, n: int| sum + n),
    decreases products.len(),
{
    reveal(Seq::filter);
    let kept = |p: OutlookProduct| data.contains_key(OutlookKey { day, product: p });
    let size = |p: OutlookProduct| data[OutlookKey { day, product: p }].features@.len() as int;
    let all = products.filter(kept).map_values(size);
    if products.len() > 0 {
        let fewer = products.drop_last();
        let last = products[products.len() - 1];
        let key = OutlookKey { day, product: last };
        law_every_held_band_can_be_clicked(data, day, fewer, click);
        let (before, after) = (bands(data, day, fewer), bands(data, day, products));
        if products.contains(click.item.product) {
            let i = products.index_of(click.item.product);
            if i < fewer.len() {
                assert(fewer[i] == click.item.product);
            }
        }
        if fewer.contains(click.item.product) {
            assert(products[fewer.index_of(click.item.product)] == click.item.product);
        }
        if kept(last) {
            assert(all.drop_last() =~= fewer.filter(kept).map_values(size));
            let own = band_list(data[key], day, last);
            assert(after == before + own);
            if after.contains(click) {
                let i = after.index_of(click);
                if i < before.len() {
                    assert(before[i] == click);
                } else {
                    assert(own[i - before.len()] == click);
                    assert(data[key].features@[i - before.len()] == click.feature);
                }
            }
            if before.contains(click) {
                assert(after[before.index_of(click)] == click);
            }
            if click.item.product == last && click.item.day == day && data[key].features@.contains(
                click.feature,
            ) && click.item.label == click.feature.label@ && click.item.valid == data[key].valid
                && click.item.expire == data[key].expire {
                let i = data[key].features@.index_of(click.feature);
                assert(own[i] == click);
                assert(after[before.len() + i] == click);
            }
        }
    } else {
        assert(all =~= Seq::empty());
    }
}

/// A selection that moves drops the errors of what is no longer asked for and no
/// others, and touches no data. While answers are owed the ledger is left alone;
/// after that it is cleared exactly where nothing asked for is failing or missing
/// from publication, and a failure that is still asked for stays as it was.
pub proof fn law_a_moved_selection_keeps_only_its_failures(
    round: OutlookView,
    scope: Seq<OutlookKey>,
    key: OutlookKey,
)
    ensures
        ({
            let after = round.refiled(scope);
            let failed = exists|i: int|
                0 <= i < scope.len() && round.errors.contains_key(#[trigger] scope[i])
                    && round.errors[scope[i]].failure != FetchFailure::Absent;
            &&& after.data == round.data
            &&& after.generations == round.generations
            &&& after.outstanding == round.outstanding
            &&& after.errors.contains_key(key) == (round.errors.contains_key(key) && scope.contains(
                key,
            ))
            &&& after.errors.contains_key(key) ==> after.errors[key] == round.errors[key]
            &&& round.outstanding > 0 ==> after.ledger == round.ledger
            &&& round.outstanding == 0 && failed ==> after.ledger.failures == round.ledger.failures
                && after.ledger.refusals == round.ledger.refusals && after.ledger.last
                == round.ledger.last
            &&& round.outstanding == 0 && !failed ==> after.ledger.failures == 0
                && after.ledger.refusals == 0
            &&& round.outstanding == 0 && (forall|i: int|
                0 <= i < scope.len() ==> !round.errors.contains_key(#[trigger] scope[i]))
                ==> after.ledger.last is None
        }),
{
    let kept = round.errors.restrict(Set::new(|key: OutlookKey| scope.contains(key)));
    law_a_verdict_is_what_the_scope_answered(scope, kept, round.drawn());
    assert forall|i: int| 0 <= i < scope.len() implies kept.contains_key(#[trigger] scope[i])
        == round.errors.contains_key(scope[i]) && (kept.contains_key(scope[i]) ==> kept[scope[i]]
        == round.errors[scope[i]]) by {
        assert(scope.contains(scope[i]));
    }
    if exists|i: int|
        0 <= i < scope.len() && round.errors.contains_key(#[trigger] scope[i])
            && round.errors[scope[i]].failure != FetchFailure::Absent {
        let i = choose|i: int|
            0 <= i < scope.len() && round.errors.contains_key(#[trigger] scope[i])
                && round.errors[scope[i]].failure != FetchFailure::Absent;
        assert(kept.contains_key(scope[i]));
    }
}

/// A round that is over files what it came to, once: a clean slate where something
/// asked for stands and nothing asked for failed, one failure where something did,
/// and where nothing asked for answered only what failed for others, if anything.
pub proof fn law_a_round_files_what_it_came_to(round: OutlookView, scope: Seq<OutlookKey>)
    ensures
        ({
            let after = round.filed(scope);
            let failed = exists|i: int|
                0 <= i < scope.len() && round.errors.contains_key(#[trigger] scope[i])
                    && round.errors[scope[i]].failure != FetchFailure::Absent;
            let well = exists|i: int|
                0 <= i < scope.len() && !round.errors.contains_key(#[trigger] scope[i])
                    && round.data.contains_key(scope[i]);
            &&& after.data == round.data
            &&& after.errors == round.errors
            &&& after.generations == round.generations
            &&& after.fetch_time == round.fetch_time
            &&& after.outstanding == round.outstanding
            &&& !after.answered
            &&& after.strays.len() == 0
            &&& after.ledger.coverage == missing_from(scope, round.errors, round.data.dom())
            &&& round.answered && failed ==> after.ledger.failures == one_more(
                round.ledger.failures,
            ) && after.ledger.last is Some
            &&& round.answered && !failed && well ==> after.ledger.failures == 0
                && after.ledger.refusals == 0 && after.ledger.last is None
            &&& round.answered && !failed ==> after.ledger.failures == 0
            &&& !round.answered && round.strays.len() == 0 ==> after.ledger.failures
                == round.ledger.failures && after.ledger.last == round.ledger.last
                && after.ledger.refusals == round.ledger.refusals
            &&& !round.answered && round.strays.len() > 0 ==> after.ledger.last is Some
        }),
{
    law_a_verdict_is_what_the_scope_answered(scope, round.errors, round.drawn());
}

/// An answer is taken in as it is: data replaces what was held and clears the
/// product's error, an absence or data dates the layer and a failure does not, and
/// each answers one request.
pub proof fn law_an_answer_is_taken_as_it_is(
    round: OutlookView,
    key: OutlookKey,
    answer: AnswerView,
    scope: Seq<OutlookKey>,
    now: u64,
)
    requires
        round.outstanding > 0,
    ensures
        ({
            let after = round.landed(key, answer, scope, now);
            &&& after.outstanding == round.outstanding - 1
            &&& after.config_generation == round.config_generation
            &&& match answer {
                AnswerView::Loaded(outlook) => {
                    &&& after.data == round.data.insert(key, outlook)
                    &&& after.errors == round.errors.remove(key)
                    &&& after.fetch_time == Some(now)
                },
                AnswerView::Refused(e) => {
                    &&& after.data == round.data
                    &&& after.generations == round.generations
                    &&& after.errors == (if scope.contains(key) {
                        round.errors.insert(key, e)
                    } else {
                        round.errors
                    })
                    &&& after.fetch_time == (if e.failure == FetchFailure::Absent {
                        Some(now)
                    } else {
                        round.fetch_time
                    })
                },
            }
        }),
{
}

/// A day's button moves a pane to that day and keeps on what the day publishes; a
/// product's toggle puts that product in or out and moves no other, but for the
/// product it brings along. Any other control moves nothing.
pub proof fn law_a_control_moves_what_it_names(
    view: OutlookPaneState,
    update: ControlUpdate,
    day: OutlookDay,
    toggled: OutlookProduct,
    product: OutlookProduct,
)
    ensures
        update.id@ == day_id(day) ==> (match changed(view, update) {
            None => day == view.selected_day,
            Some(next) => {
                &&& day != view.selected_day
                &&& next.selected_day == day
                &&& next.enabled_products.has(product) == (day.published().contains(product)
                    && view.enabled_products.has(
                    if product == OutlookProduct::ConditionalIntensity {
                        OutlookProduct::Probabilistic
                    } else {
                        product
                    },
                ))
            },
        }),
        toggle_id(toggled) == Some(update.id@) ==> (match (changed(view, update), update.value) {
            (Some(next), ControlValue::Bool(on)) => {
                &&& next.selected_day == view.selected_day
                &&& product != OutlookProduct::ConditionalIntensity ==> next.enabled_products.has(
                    product,
                ) == (if product == toggled {
                    on
                } else {
                    view.enabled_products.has(product)
                })
            },
            (next, value) => next is None && !(value is Bool),
        }),
        (forall|d: OutlookDay| #[trigger] day_id(d) != update.id@) && (forall|p: OutlookProduct|
            #[trigger]
            toggle_id(p) != Some(update.id@)) ==> changed(view, update) is None,
{
    if update.id@ == day_id(day) {
        let d = choose|d: OutlookDay| #[trigger] day_id(d) == update.id@;
        law_ids_differ(d, day, product, product);
        let published = day.published();
        if day == OutlookDay::Day3 {
            assert(published[1] == OutlookProduct::Probabilistic);
            assert(published[2] == OutlookProduct::ConditionalIntensity);
            assert(published.contains(OutlookProduct::Probabilistic));
            assert(published.contains(OutlookProduct::ConditionalIntensity));
        } else {
            assert(!published.contains(OutlookProduct::ConditionalIntensity));
        }
    }
    if toggle_id(toggled) == Some(update.id@) {
        let p = choose|p: OutlookProduct| #[trigger] toggle_id(p) == Some(update.id@);
        law_ids_differ(day, day, p, toggled);
        assert forall|d: OutlookDay| #[trigger] day_id(d) != update.id@ by {
            law_ids_differ(d, d, toggled, toggled);
        }
        law_a_set_is_its_members(
            view.enabled_products,
            view.enabled_products,
            toggled,
            product,
            true,
        );
    }
}

/// The panel has a button for every day with the pane's own lit, and a toggle for
/// each product the day lets the user pick, as it is set; the line names those
/// that are on.
pub proof fn law_the_panel_shows_the_selection(view: OutlookPaneState)
    ensures
        day_buttons(view.selected_day).len() == 8,
        forall|i: int|
            0 <= i < 8 ==> {
                let day = OutlookDay::every()[i];
                let button = #[trigger] day_buttons(view.selected_day)[i];
                &&& button.id == day_id(day)
                &&& button.label == day.number()
                &&& button.highlight == (day == view.selected_day)
                &&& button.enabled
            },
        product_toggles(view.selected_day.published(), view.enabled_products)
            == view.selected_day.published().filter(
            |p: OutlookProduct| p != OutlookProduct::ConditionalIntensity,
        ).map_values(
            |p: OutlookProduct|
                ItemView::Toggle {
                    id: toggle_id(p)->0,
                    label: p.name(),
                    enabled: view.enabled_products.has(p),
                },
        ),
        picked_names(view.selected_day.published(), view.enabled_products)
            == view.selected_day.published().filter(
            |p: OutlookProduct|
                p != OutlookProduct::ConditionalIntensity && view.enabled_products.has(p),
        ).map_values(|p: OutlookProduct| p.name()),
{
    lemma_toggles(view.selected_day.published(), view.enabled_products);
}

proof fn lemma_toggles(products: Seq<OutlookProduct>, enabled: ProductSet)
    ensures
        product_toggles(products, enabled) == products.filter(
            |p: OutlookProduct| p != OutlookProduct::ConditionalIntensity,
        ).map_values(
            |p: OutlookProduct|
                ItemView::Toggle {
                    id: toggle_id(p)->0,
                    label: p.name(),
                    enabled: enabled.has(p),
                },
        ),
        picked_names(products, enabled) == products.filter(
            |p: OutlookProduct| p != OutlookProduct::ConditionalIntensity && enabled.has(p),
        ).map_values(|p: OutlookProduct| p.name()),
    decreases products.len(),
{
    reveal(Seq::filter);
    let pick = |p: OutlookProduct| p != OutlookProduct::ConditionalIntensity;
    let item = |p: OutlookProduct|
        ItemView::Toggle { id: toggle_id(p)->0, label: p.name(), enabled: enabled.has(p) };
    let on = |p: OutlookProduct| p != OutlookProduct::ConditionalIntensity && enabled.has(p);
    let name = |p: OutlookProduct| p.name();
    if products.len() > 0 {
        let (fewer, last) = (products.drop_last(), products.last());
        lemma_toggles(fewer, enabled);
        if pick(last) {
            assert(fewer.filter(pick).push(last).map_values(item) =~= fewer.filter(
                pick,
            ).map_values(item).push(item(last)));
        }
        if on(last) {
            assert(fewer.filter(on).push(last).map_values(name) =~= fewer.filter(on).map_values(
                name,
            ).push(name(last)));
        }
    } else {
        assert(products.filter(pick).map_values(item) =~= Seq::empty());
        assert(products.filter(on).map_values(name) =~= Seq::empty());
    }
}

/// A control asks for a fetch exactly where it leaves something to fetch: a day's
/// button that moves to a day with something on, a product's toggle that turns it
/// on, and a refresh with something on.
pub proof fn law_a_control_fetches_what_it_turns_on(
    view: OutlookPaneState,
    update: ControlUpdate,
    day: OutlookDay,
    toggled: OutlookProduct,
)
    ensures
        update.id@ == day_id(day) ==> (control_effect(view, update) == ControlEffect::Fetch) == (day
            != view.selected_day && exists|p: OutlookProduct| #[trigger]
            view.enabled_products.has(p) && day.published().contains(p) && p
                != OutlookProduct::ConditionalIntensity),
        toggle_id(toggled) == Some(update.id@) ==> (control_effect(view, update)
            == ControlEffect::Fetch) == (update.value == ControlValue::Bool(true)),
        update.id@ == "refresh"@ ==> (control_effect(view, update) == ControlEffect::Fetch)
            == exists|p: OutlookProduct| #[trigger] view.enabled_products.has(p),
{
    law_a_set_is_its_members(
        view.enabled_products,
        ProductSet::none(),
        toggled,
        toggled,
        true,
    );
    assert forall|p: OutlookProduct| !#[trigger] ProductSet::none().has(p) by {}
    if update.id@ == day_id(day) {
        let d = choose|d: OutlookDay| #[trigger] day_id(d) == update.id@;
        law_ids_differ(d, day, toggled, toggled);
        if let Some(next) = changed(view, update) {
            assert forall|p: OutlookProduct| #[trigger]
                next.enabled_products.has(p) == (day.published().contains(p)
                && view.enabled_products.has(
                if p == OutlookProduct::ConditionalIntensity {
                    OutlookProduct::Probabilistic
                } else {
                    p
                },
            )) by {
                law_a_control_moves_what_it_names(view, update, day, toggled, p);
            }
            law_a_set_is_its_members(
                next.enabled_products,
                ProductSet::none(),
                toggled,
                toggled,
                true,
            );
            if exists|p: OutlookProduct| #[trigger]
                view.enabled_products.has(p) && day.published().contains(p) && p
                    != OutlookProduct::ConditionalIntensity {
                let p = choose|p: OutlookProduct| #[trigger]
                    view.enabled_products.has(p) && day.published().contains(p) && p
                        != OutlookProduct::ConditionalIntensity;
                assert(next.enabled_products.has(p));
            }
            if next.enabled_products != ProductSet::none() {
                let p = choose|p: OutlookProduct| #[trigger] next.enabled_products.has(p);
                assert(next.enabled_products.has(p));
                if p == OutlookProduct::ConditionalIntensity {
                    assert(day == OutlookDay::Day3);
                    assert(day.published()[1] == OutlookProduct::Probabilistic);
                    assert(view.enabled_products.has(OutlookProduct::Probabilistic));
                } else {
                    assert(view.enabled_products.has(p));
                }
            }
        }
    }
    if toggle_id(toggled) == Some(update.id@) {
        assert forall|d: OutlookDay| #[trigger] day_id(d) != update.id@ by {
            law_ids_differ(d, d, toggled, toggled);
        }
    }
    if update.id@ == "refresh"@ {
        assert forall|d: OutlookDay| #[trigger] day_id(d) != update.id@ by {
            law_ids_differ(d, d, toggled, toggled);
        }
        assert forall|p: OutlookProduct| #[trigger] toggle_id(p) != Some(update.id@) by {
            law_ids_differ(day, day, p, p);
        }
    }
}

/// The dialog of a band says what the band is: its label as the heading, its day,
/// product and two times each under its name, and a link to its day's page. The
/// extended days share a page and no other day's is that.
pub proof fn law_a_dialog_says_what_the_band_is(
    item: &OutlookItem,
    timezone: TimezonePreference,
    local_valid: Seq<char>,
    local_expire: Seq<char>,
    other: OutlookDay,
)
    ensures
        ({
            let popup = item.popup(timezone, local_valid, local_expire);
            let rows = popup.sections[1]->KeyValueGrid_0;
            &&& popup.sections.len() == 4
            &&& popup.sections[0] == SectionView::Heading(item.label@)
            &&& rows.contains(("Day"@, item.day.name()))
            &&& rows.contains(("Product"@, item.product.name()))
            &&& rows.contains(("Valid"@, time_view(item.valid, timezone, local_valid)))
            &&& rows.contains(("Expires"@, time_view(item.expire, timezone, local_expire)))
            &&& rows.len() == 4
            &&& popup.sections[3]->url == page_url(item.day)
        }),
        item.day.extended() && other.extended() ==> page_url(item.day) == page_url(other),
        !item.day.extended() ==> page_url(item.day)
            == "https://www.spc.noaa.gov/products/outlook/day"@ + item.day.number() + "otlk.html"@,
{
    let popup = item.popup(timezone, local_valid, local_expire);
    let rows = popup.sections[1]->KeyValueGrid_0;
    assert(rows[0] == ("Day"@, item.day.name()));
    assert(rows[1] == ("Product"@, item.product.name()));
    assert(rows[2] == ("Valid"@, time_view(item.valid, timezone, local_valid)));
    assert(rows[3] == ("Expires"@, time_view(item.expire, timezone, local_expire)));
}

/// What failed for products nobody asks for any more is counted, and may recover
/// where any of it may.
pub proof fn law_strays_are_counted(strays: Seq<ErrorView>)
    ensures
        stray_error(strays).message == decimal(strays.len())
            + " outlook request(s) failed for products the layer no longer asks for"@,
        (stray_error(strays).failure == FetchFailure::Transient) == exists|i: int|
            0 <= i < strays.len() && (#[trigger] strays[i]).failure == FetchFailure::Transient,
{
    let kinds = failure_list(strays);
    if kinds.contains(FetchFailure::Transient) {
        let i = kinds.index_of(FetchFailure::Transient);
        assert(strays[i].failure == FetchFailure::Transient);
    }
    if exists|i: int|
        0 <= i < strays.len() && (#[trigger] strays[i]).failure == FetchFailure::Transient {
        let i = choose|i: int|
            0 <= i < strays.len() && (#[trigger] strays[i]).failure == FetchFailure::Transient;
        assert(kinds[i] == FetchFailure::Transient);
    }
}

/// Every band has its item and every item its band, in one order.
pub proof fn law_every_band_has_its_item(items: Seq<ClickableItem>, bands: Seq<ClickView>)
    requires
        items_of(items, bands),
    ensures
        bands == items.map_values(|item: ClickableItem| item@),
{
    assert(bands =~= items.map_values(|item: ClickableItem| item@));
}

} // verus!
