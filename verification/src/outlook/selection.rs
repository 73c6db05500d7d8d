//! Which outlook a pane looks at: a day, and which of that day's products it lets
//! through.
use vstd::prelude::*;
use crate::json;
use crate::json::{
    json_is_object,
    json_members,
    list_member,
    no_members,
    spelling_member,
    text_member,
    texts,
    Member,
    Spelling,
    SpellingView,
};
use crate::recency::{lists, Key};
use crate::text::same_text;

verus! {

/// A day an outlook is issued for.
#[derive(Clone, Copy, Debug, PartialEq, Eq, Structural)]
pub enum OutlookDay {
    Day1,
    Day2,
    Day3,
    Day4,
    Day5,
    Day6,
    Day7,
    Day8,
}

/// One product of a day's outlook.
#[derive(Clone, Copy, Debug, PartialEq, Eq, Structural)]
pub enum OutlookProduct {
    Categorical,
    Tornado,
    Wind,
    Hail,
    Probabilistic,
    /// The significant area. It is not picked on its own: it comes and goes with
    /// the product it qualifies.
    ConditionalIntensity,
}

/// One day's one product.
#[derive(Clone, Copy, Debug, PartialEq, Eq, Structural)]
pub struct OutlookKey {
    pub day: OutlookDay,
    pub product: OutlookProduct,
}

impl Key for OutlookKey {
    fn same(&self, other: &OutlookKey) -> (b: bool) {
        *self == *other
    }
}

impl OutlookDay {
    /// The number of the day, as text.
    pub open spec fn number(self) -> Seq<char> {
        match self {
            OutlookDay::Day1 => "1"@,
            OutlookDay::Day2 => "2"@,
            OutlookDay::Day3 => "3"@,
            OutlookDay::Day4 => "4"@,
            OutlookDay::Day5 => "5"@,
            OutlookDay::Day6 => "6"@,
            OutlookDay::Day7 => "7"@,
            OutlookDay::Day8 => "8"@,
        }
    }

    /// The day as settings spell it.
    pub open spec fn code(self) -> Seq<char> {
        match self {
            OutlookDay::Day1 => "Day1"@,
            OutlookDay::Day2 => "Day2"@,
            OutlookDay::Day3 => "Day3"@,
            OutlookDay::Day4 => "Day4"@,
            OutlookDay::Day5 => "Day5"@,
            OutlookDay::Day6 => "Day6"@,
            OutlookDay::Day7 => "Day7"@,
            OutlookDay::Day8 => "Day8"@,
        }
    }

    /// The products a day publishes, in the order they paint.
    pub open spec fn published(self) -> Seq<OutlookProduct> {
        match self {
            OutlookDay::Day1 => seq![
                OutlookProduct::Categorical,
                OutlookProduct::Tornado,
                OutlookProduct::Wind,
                OutlookProduct::Hail,
            ],
            OutlookDay::Day2 => seq![
                OutlookProduct::Categorical,
                OutlookProduct::Tornado,
                OutlookProduct::Wind,
                OutlookProduct::Hail,
            ],
            OutlookDay::Day3 => seq![
                OutlookProduct::Categorical,
                OutlookProduct::Probabilistic,
                OutlookProduct::ConditionalIntensity,
            ],
            _ => seq![OutlookProduct::Probabilistic],
        }
    }

    /// Whether the day is one of the extended outlook's, which share a page.
    pub open spec fn extended(self) -> bool {
        !(self == OutlookDay::Day1 || self == OutlookDay::Day2 || self == OutlookDay::Day3)
    }

    pub fn is_extended(self) -> (b: bool)
        ensures
            b == self.extended(),
    {
        !(self == OutlookDay::Day1 || self == OutlookDay::Day2 || self == OutlookDay::Day3)
    }

    pub fn label(self) -> (text: &'static str)
        ensures
            text@ == self.number(),
    {
        match self {
            OutlookDay::Day1 => "1",
            OutlookDay::Day2 => "2",
            OutlookDay::Day3 => "3",
            OutlookDay::Day4 => "4",
            OutlookDay::Day5 => "5",
            OutlookDay::Day6 => "6",
            OutlookDay::Day7 => "7",
            OutlookDay::Day8 => "8",
        }
    }

    /// What the day reads as.
    pub open spec fn name(self) -> Seq<char> {
        "Day "@ + self.number()
    }

    pub fn to_text(self) -> (text: String)
        ensures
            text@ == self.name(),
    {
        let mut text = "Day ".to_owned();
        text.append(self.label());
        text
    }

    /// All the days in order.
    pub open spec fn every() -> Seq<OutlookDay> {
        seq![
            OutlookDay::Day1,
            OutlookDay::Day2,
            OutlookDay::Day3,
            OutlookDay::Day4,
            OutlookDay::Day5,
            OutlookDay::Day6,
            OutlookDay::Day7,
            OutlookDay::Day8,
        ]
    }

    pub fn all() -> (days: Vec<OutlookDay>)
        ensures
            days@ == Self::every(),
    {
        let days = vec![
            OutlookDay::Day1,
            OutlookDay::Day2,
            OutlookDay::Day3,
            OutlookDay::Day4,
            OutlookDay::Day5,
            OutlookDay::Day6,
            OutlookDay::Day7,
            OutlookDay::Day8,
        ];
        assert(days@ =~= Self::every());
        days
    }

    pub fn products(self) -> (products: Vec<OutlookProduct>)
        ensures
            products@ == self.published(),
    {
        let products = match self {
            OutlookDay::Day1 | OutlookDay::Day2 => vec![
                OutlookProduct::Categorical,
                OutlookProduct::Tornado,
                OutlookProduct::Wind,
                OutlookProduct::Hail,
            ],
            OutlookDay::Day3 => vec![
                OutlookProduct::Categorical,
                OutlookProduct::Probabilistic,
                OutlookProduct::ConditionalIntensity,
            ],
            _ => vec![OutlookProduct::Probabilistic],
        };
        assert(products@ =~= self.published());
        products
    }

    fn spelled(self) -> (text: &'static str)
        ensures
            text@ == self.code(),
    {
        match self {
            OutlookDay::Day1 => "Day1",
            OutlookDay::Day2 => "Day2",
            OutlookDay::Day3 => "Day3",
            OutlookDay::Day4 => "Day4",
            OutlookDay::Day5 => "Day5",
            OutlookDay::Day6 => "Day6",
            OutlookDay::Day7 => "Day7",
            OutlookDay::Day8 => "Day8",
        }
    }

    /// The day a text spells in settings.
    pub fn parse(text: &str) -> (day: Option<OutlookDay>)
        ensures
            match day {
                Some(d) => d.code() == text@,
                None => forall|d: OutlookDay| #[trigger] d.code() != text@,
            },
    {
        let days = Self::all();
        let mut at: usize = 0;
        while at < days.len()
            invariant
                at <= days@.len(),
                days@ == Self::every(),
                forall|i: int| 0 <= i < at ==> (#[trigger] days@[i]).code() != text@,
            decreases days@.len() - at,
        {
            if same_text(days[at].spelled(), text) {
                return Some(days[at]);
            }
            at = at + 1;
        }
        proof {
            assert forall|d: OutlookDay| #[trigger] d.code() != text@ by {
                let i = d.place();
                assert(days@[i] == d);
            }
        }
        None
    }

    /// Where the day is among all days.
    spec fn place(self) -> int {
        match self {
            OutlookDay::Day1 => 0,
            OutlookDay::Day2 => 1,
            OutlookDay::Day3 => 2,
            OutlookDay::Day4 => 3,
            OutlookDay::Day5 => 4,
            OutlookDay::Day6 => 5,
            OutlookDay::Day7 => 6,
            OutlookDay::Day8 => 7,
        }
    }
}

/// No two days are spelled alike.
pub proof fn law_day_codes_differ(a: OutlookDay, b: OutlookDay)
    requires
        a.code() == b.code(),
    ensures
        a == b,
{
    reveal_strlit("Day1");
    reveal_strlit("Day2");
    reveal_strlit("Day3");
    reveal_strlit("Day4");
    reveal_strlit("Day5");
    reveal_strlit("Day6");
    reveal_strlit("Day7");
    reveal_strlit("Day8");
    assert("Day1"@[3] == '1');
    assert("Day2"@[3] == '2');
    assert("Day3"@[3] == '3');
    assert("Day4"@[3] == '4');
    assert("Day5"@[3] == '5');
    assert("Day6"@[3] == '6');
    assert("Day7"@[3] == '7');
    assert("Day8"@[3] == '8');
    assert(a.code()[3] == b.code()[3]);
}

impl OutlookProduct {
    /// The product's bare name, as settings and failure notes spell it.
    pub open spec fn code(self) -> Seq<char> {
        match self {
            OutlookProduct::Categorical => "Categorical"@,
            OutlookProduct::Tornado => "Tornado"@,
            OutlookProduct::Wind => "Wind"@,
            OutlookProduct::Hail => "Hail"@,
            OutlookProduct::Probabilistic => "Probabilistic"@,
            OutlookProduct::ConditionalIntensity => "ConditionalIntensity"@,
        }
    }

    pub fn spelled(self) -> (text: &'static str)
        ensures
            text@ == self.code(),
    {
        match self {
            OutlookProduct::Categorical => "Categorical",
            OutlookProduct::Tornado => "Tornado",
            OutlookProduct::Wind => "Wind",
            OutlookProduct::Hail => "Hail",
            OutlookProduct::Probabilistic => "Probabilistic",
            OutlookProduct::ConditionalIntensity => "ConditionalIntensity",
        }
    }

    /// What the product reads as.
    pub open spec fn name(self) -> Seq<char> {
        if self == OutlookProduct::ConditionalIntensity {
            "Conditional Intensity"@
        } else {
            self.code()
        }
    }

    pub fn display(self) -> (text: &'static str)
        ensures
            text@ == self.name(),
    {
        if self == OutlookProduct::ConditionalIntensity {
            "Conditional Intensity"
        } else {
            self.spelled()
        }
    }

    /// Whether the user picks the product, rather than another implying it.
    pub open spec fn selectable(self) -> bool {
        self != OutlookProduct::ConditionalIntensity
    }

    pub fn is_selectable(self) -> (b: bool)
        ensures
            b == self.selectable(),
    {
        self != OutlookProduct::ConditionalIntensity
    }

    /// All the products in the order settings list them.
    pub open spec fn every() -> Seq<OutlookProduct> {
        seq![
            OutlookProduct::Categorical,
            OutlookProduct::Tornado,
            OutlookProduct::Wind,
            OutlookProduct::Hail,
            OutlookProduct::Probabilistic,
            OutlookProduct::ConditionalIntensity,
        ]
    }

    pub fn all() -> (products: Vec<OutlookProduct>)
        ensures
            products@ == Self::every(),
    {
        let products = vec![
            OutlookProduct::Categorical,
            OutlookProduct::Tornado,
            OutlookProduct::Wind,
            OutlookProduct::Hail,
            OutlookProduct::Probabilistic,
            OutlookProduct::ConditionalIntensity,
        ];
        assert(products@ =~= Self::every());
        products
    }

    spec fn place(self) -> int {
        match self {
            OutlookProduct::Categorical => 0,
            OutlookProduct::Tornado => 1,
            OutlookProduct::Wind => 2,
            OutlookProduct::Hail => 3,
            OutlookProduct::Probabilistic => 4,
            OutlookProduct::ConditionalIntensity => 5,
        }
    }

    /// The product a text spells in settings.
    pub fn parse(text: &str) -> (product: Option<OutlookProduct>)
        ensures
            match product {
                Some(p) => p.code() == text@,
                None => forall|p: OutlookProduct| #[trigger] p.code() != text@,
            },
    {
        let products = Self::all();
        let mut at: usize = 0;
        while at < products.len()
            invariant
                at <= products@.len(),
                products@ == Self::every(),
                forall|i: int| 0 <= i < at ==> (#[trigger] products@[i]).code() != text@,
            decreases products@.len() - at,
        {
            if same_text(products[at].spelled(), text) {
                return Some(products[at]);
            }
            at = at + 1;
        }
        proof {
            assert forall|p: OutlookProduct| #[trigger] p.code() != text@ by {
                let i = p.place();
                assert(products@[i] == p);
            }
        }
        None
    }
}

/// No two products are spelled alike.
pub proof fn law_product_codes_differ(a: OutlookProduct, b: OutlookProduct)
    requires
        a.code() == b.code(),
    ensures
        a == b,
{
    reveal_strlit("Categorical");
    reveal_strlit("Tornado");
    reveal_strlit("Wind");
    reveal_strlit("Hail");
    reveal_strlit("Probabilistic");
    reveal_strlit("ConditionalIntensity");
    assert("Categorical"@.len() == 11 && "Tornado"@.len() == 7 && "Wind"@.len() == 4);
    assert("Hail"@.len() == 4 && "Probabilistic"@.len() == 13 && "ConditionalIntensity"@.len()
        == 20);
    assert("Wind"@[0] == 'W' && "Hail"@[0] == 'H');
    assert(a.code().len() == b.code().len());
    assert(a.code()[0] == b.code()[0]);
}

/// A set of products.
#[derive(Clone, Copy, Debug, PartialEq, Eq, Structural)]
pub struct ProductSet {
    pub categorical: bool,
    pub tornado: bool,
    pub wind: bool,
    pub hail: bool,
    pub probabilistic: bool,
    pub conditional_intensity: bool,
}

impl ProductSet {
    pub open spec fn has(self, product: OutlookProduct) -> bool {
        match product {
            OutlookProduct::Categorical => self.categorical,
            OutlookProduct::Tornado => self.tornado,
            OutlookProduct::Wind => self.wind,
            OutlookProduct::Hail => self.hail,
            OutlookProduct::Probabilistic => self.probabilistic,
            OutlookProduct::ConditionalIntensity => self.conditional_intensity,
        }
    }

    /// The set with one product put in or taken out.
    pub open spec fn with(self, product: OutlookProduct, present: bool) -> ProductSet {
        match product {
            OutlookProduct::Categorical => ProductSet { categorical: present, ..self },
            OutlookProduct::Tornado => ProductSet { tornado: present, ..self },
            OutlookProduct::Wind => ProductSet { wind: present, ..self },
            OutlookProduct::Hail => ProductSet { hail: present, ..self },
            OutlookProduct::Probabilistic => ProductSet { probabilistic: present, ..self },
            OutlookProduct::ConditionalIntensity => ProductSet {
                conditional_intensity: present,
                ..self
            },
        }
    }

    pub open spec fn none() -> ProductSet {
        ProductSet {
            categorical: false,
            tornado: false,
            wind: false,
            hail: false,
            probabilistic: false,
            conditional_intensity: false,
        }
    }

    /// How many products are in.
    pub open spec fn count(self) -> nat {
        members(self, OutlookProduct::every()).len()
    }

    pub fn new() -> (set: ProductSet)
        ensures
            set == Self::none(),
    {
        ProductSet {
            categorical: false,
            tornado: false,
            wind: false,
            hail: false,
            probabilistic: false,
            conditional_intensity: false,
        }
    }

    pub fn contains(&self, product: OutlookProduct) -> (b: bool)
        ensures
            b == self.has(product),
    {
        match product {
            OutlookProduct::Categorical => self.categorical,
            OutlookProduct::Tornado => self.tornado,
            OutlookProduct::Wind => self.wind,
            OutlookProduct::Hail => self.hail,
            OutlookProduct::Probabilistic => self.probabilistic,
            OutlookProduct::ConditionalIntensity => self.conditional_intensity,
        }
    }

    pub fn put(&mut self, product: OutlookProduct, present: bool)
        ensures
            *final(self) == old(self).with(product, present),
    {
        match product {
            OutlookProduct::Categorical => {
                self.categorical = present;
            },
            OutlookProduct::Tornado => {
                self.tornado = present;
            },
            OutlookProduct::Wind => {
                self.wind = present;
            },
            OutlookProduct::Hail => {
                self.hail = present;
            },
            OutlookProduct::Probabilistic => {
                self.probabilistic = present;
            },
            OutlookProduct::ConditionalIntensity => {
                self.conditional_intensity = present;
            },
        }
    }

    pub fn insert(&mut self, product: OutlookProduct)
        ensures
            *final(self) == old(self).with(product, true),
    {
        self.put(product, true)
    }

    pub fn remove(&mut self, product: OutlookProduct)
        ensures
            *final(self) == old(self).with(product, false),
    {
        self.put(product, false)
    }

    pub fn is_empty(&self) -> (b: bool)
        ensures
            b == (*self == Self::none()),
    {
        !(self.categorical || self.tornado || self.wind || self.hail || self.probabilistic
            || self.conditional_intensity)
    }

    /// The products of a list that are in the set, in the list's order.
    pub fn among(&self, products: &Vec<OutlookProduct>) -> (found: Vec<OutlookProduct>)
        ensures
            found@ == members(*self, products@),
    {
        let mut found: Vec<OutlookProduct> = Vec::new();
        let mut at: usize = 0;
        while at < products.len()
            invariant
                at <= products@.len(),
                found@ == members(*self, products@.take(at as int)),
            decreases products@.len() - at,
        {
            assert(products@.take(at + 1).drop_last() =~= products@.take(at as int));
            if self.contains(products[at]) {
                found.push(products[at]);
            }
            at = at + 1;
        }
        assert(products@.take(at as int) =~= products@);
        found
    }
}

/// The products of a list that are in a set, in the list's order.
pub open spec fn members(set: ProductSet, products: Seq<OutlookProduct>) -> Seq<OutlookProduct>
    decreases products.len(),
{
    if products.len() == 0 {
        Seq::empty()
    } else {
        let before = members(set, products.drop_last());
        if set.has(products.last()) {
            before.push(products.last())
        } else {
            before
        }
    }
}

/// What one pane looks at. There is no switch beside the set: for this layer
/// "on" is a set with something in it.
#[derive(Clone, Copy, Debug, PartialEq, Eq, Structural)]
pub struct OutlookPaneState {
    pub selected_day: OutlookDay,
    pub enabled_products: ProductSet,
}

impl OutlookPaneState {
    /// A set with the implied product in line: it is in exactly where the day
    /// publishes it and its parent is in.
    pub open spec fn implied(day: OutlookDay, set: ProductSet) -> ProductSet {
        ProductSet {
            conditional_intensity: day == OutlookDay::Day3 && set.probabilistic,
            ..set
        }
    }

    pub open spec fn synced(self) -> OutlookPaneState {
        OutlookPaneState {
            enabled_products: Self::implied(self.selected_day, self.enabled_products),
            ..self
        }
    }

    /// The state of a pane that is turned on with nothing picked: the day's first
    /// product.
    pub open spec fn first_on(day: OutlookDay) -> OutlookPaneState {
        OutlookPaneState {
            selected_day: day,
            enabled_products: ProductSet::none().with(day.published()[0], true),
        }.synced()
    }

    /// A pane that has saved nothing.
    pub open spec fn fresh(enabled: bool) -> OutlookPaneState {
        if enabled {
            Self::first_on(OutlookDay::Day1)
        } else {
            OutlookPaneState {
                selected_day: OutlookDay::Day1,
                enabled_products: ProductSet::none(),
            }
        }
    }

    pub fn new(enabled: bool) -> (state: OutlookPaneState)
        ensures
            state == Self::fresh(enabled),
    {
        let mut state = OutlookPaneState {
            selected_day: OutlookDay::Day1,
            enabled_products: ProductSet::new(),
        };
        if enabled {
            state.turn_on();
        }
        state
    }

    /// Picks the day's first product.
    pub fn turn_on(&mut self)
        requires
            old(self).enabled_products == ProductSet::none(),
        ensures
            *final(self) == Self::first_on(old(self).selected_day),
    {
        let products = self.selected_day.products();
        self.enabled_products.insert(products[0]);
        self.sync_implied_products();
    }

    /// Brings the products that are not picked on their own into line with the
    /// ones that are, and drops those the day does not publish.
    pub fn sync_implied_products(&mut self)
        ensures
            *final(self) == old(self).synced(),
    {
        let published = self.selected_day == OutlookDay::Day3;
        self.enabled_products.conditional_intensity = published
            && self.enabled_products.probabilistic;
    }

    /// The keys this pane asks for, in publication order.
    pub open spec fn asked(self) -> Seq<OutlookKey> {
        keys_of(self.selected_day, members(self.enabled_products, self.selected_day.published()))
    }

    /// The products this pane draws, in paint order.
    pub fn asked_products(&self) -> (products: Vec<OutlookProduct>)
        ensures
            products@ == members(self.enabled_products, self.selected_day.published()),
    {
        self.enabled_products.among(&self.selected_day.products())
    }

    /// Appends the keys this pane asks for, those that are not there yet.
    pub fn extend_scope(&self, into: &mut Vec<OutlookKey>)
        ensures
            final(into)@ == merged(old(into)@, self.asked()),
    {
        let products = self.asked_products();
        let ghost before = into@;
        let mut at: usize = 0;
        assert(keys_of(self.selected_day, products@.take(0)) =~= Seq::empty());
        while at < products.len()
            invariant
                at <= products@.len(),
                into@ == merged(before, keys_of(self.selected_day, products@.take(at as int))),
            decreases products@.len() - at,
        {
            let key = OutlookKey { day: self.selected_day, product: products[at] };
            proof {
                let keys = keys_of(self.selected_day, products@.take(at + 1));
                assert(keys.drop_last() =~= keys_of(
                    self.selected_day,
                    products@.take(at as int),
                ));
                assert(keys.last() == key);
            }
            if !lists(into, &key) {
                into.push(key);
            }
            at = at + 1;
        }
        assert(products@.take(at as int) =~= products@);
    }
}

/// One day's products as keys.
pub open spec fn keys_of(day: OutlookDay, products: Seq<OutlookProduct>) -> Seq<OutlookKey> {
    Seq::new(products.len(), |i: int| OutlookKey { day, product: products[i] })
}

/// Keys appended to a list, each of them once.
pub open spec fn merged(into: Seq<OutlookKey>, keys: Seq<OutlookKey>) -> Seq<OutlookKey>
    decreases keys.len(),
{
    if keys.len() == 0 {
        into
    } else {
        let before = merged(into, keys.drop_last());
        if before.contains(keys.last()) {
            before
        } else {
            before.push(keys.last())
        }
    }
}

/// Merging asks for what was there, for every key appended, and for nothing
/// else, each once.
pub proof fn law_merged_is_the_union(into: Seq<OutlookKey>, keys: Seq<OutlookKey>)
    requires
        into.no_duplicates(),
    ensures
        merged(into, keys).no_duplicates(),
        forall|key: OutlookKey| #[trigger]
            merged(into, keys).contains(key) <==> into.contains(key) || keys.contains(key),
    decreases keys.len(),
{
    if keys.len() > 0 {
        let before = merged(into, keys.drop_last());
        law_merged_is_the_union(into, keys.drop_last());
        assert forall|key: OutlookKey| #[trigger] merged(into, keys).contains(key) <==> (
        into.contains(key) || keys.contains(key)) by {
            if keys.contains(key) && key != keys.last() {
                let i = choose|i: int| 0 <= i < keys.len() && keys[i] == key;
                assert(keys.drop_last()[i] == key);
            }
            if keys.drop_last().contains(key) {
                let i = choose|i: int| 0 <= i < keys.len() - 1 && keys.drop_last()[i] == key;
                assert(keys[i] == key);
            }
            if before.contains(key) && !before.contains(keys.last()) {
                let i = choose|i: int| 0 <= i < before.len() && before[i] == key;
                assert(before.push(keys.last())[i] == key);
            }
            if merged(into, keys).contains(key) && !before.contains(keys.last()) && key
                != keys.last() {
                let i = choose|i: int| 0 <= i < before.len() + 1 && before.push(keys.last())[i]
                    == key;
                assert(before[i] == key);
            }
            if key == keys.last() {
                assert(keys[keys.len() - 1] == key);
                if !before.contains(key) {
                    assert(before.push(key)[before.len() as int] == key);
                }
            }
        }
    }
}

/// Everything any pane asks for, panes in turn; what `defaults` asks for where
/// there is no pane.
pub open spec fn union_of(states: Seq<OutlookPaneState>, defaults: OutlookPaneState) -> Seq<
    OutlookKey,
> {
    if states.len() == 0 {
        merged(Seq::empty(), defaults.asked())
    } else {
        union_of_states(states)
    }
}

/// Everything any of the panes asks for, panes in turn.
pub open spec fn union_of_states(states: Seq<OutlookPaneState>) -> Seq<OutlookKey>
    decreases states.len(),
{
    if states.len() == 0 {
        Seq::empty()
    } else {
        merged(union_of_states(states.drop_last()), states.last().asked())
    }
}

/// One pane's selection is in scope whatever the other panes ask for: narrowing
/// one pane never takes another's product out.
pub proof fn law_every_pane_is_in_scope(
    states: Seq<OutlookPaneState>,
    defaults: OutlookPaneState,
    pane: int,
    key: OutlookKey,
)
    requires
        0 <= pane < states.len(),
        states[pane].asked().contains(key),
    ensures
        union_of(states, defaults).contains(key),
        union_of(states, defaults).no_duplicates(),
{
    lemma_pane_in_union(states, pane, key);
}

proof fn lemma_pane_in_union(states: Seq<OutlookPaneState>, pane: int, key: OutlookKey)
    requires
        0 <= pane < states.len(),
        states[pane].asked().contains(key),
    ensures
        union_of_states(states).contains(key),
        union_of_states(states).no_duplicates(),
    decreases states.len(),
{
    let before = union_of_states(states.drop_last());
    lemma_union_once(states.drop_last());
    law_merged_is_the_union(before, states.last().asked());
    if pane < states.len() - 1 {
        lemma_pane_in_union(states.drop_last(), pane, key);
    }
    assert(union_of_states(states).contains(key) <==> before.contains(key)
        || states.last().asked().contains(key));
}

proof fn lemma_union_once(states: Seq<OutlookPaneState>)
    ensures
        union_of_states(states).no_duplicates(),
    decreases states.len(),
{
    if states.len() > 0 {
        lemma_union_once(states.drop_last());
        law_merged_is_the_union(union_of_states(states.drop_last()), states.last().asked());
    }
}

/// Everything any pane asks for, in publication order.
pub fn union_scope(states: &Vec<OutlookPaneState>, defaults: &OutlookPaneState) -> (scope: Vec<
    OutlookKey,
>)
    ensures
        scope@ == union_of(states@, *defaults),
{
    let mut scope: Vec<OutlookKey> = Vec::new();
    if states.len() == 0 {
        defaults.extend_scope(&mut scope);
        return scope;
    }
    let mut at: usize = 0;
    while at < states.len()
        invariant
            at <= states@.len(),
            scope@ == union_of_states(states@.take(at as int)),
        decreases states@.len() - at,
    {
        assert(states@.take(at + 1).drop_last() =~= states@.take(at as int));
        states[at].extend_scope(&mut scope);
        at = at + 1;
    }
    assert(states@.take(at as int) =~= states@);
    scope
}

/// The codes of a set's products, in the order settings list them.
pub open spec fn saved_codes(set: ProductSet) -> Seq<Seq<char>> {
    let products = members(set, OutlookProduct::every());
    Seq::new(products.len(), |i: int| products[i].code())
}

/// The settings a pane's selection is saved as: the day, and the products in
/// declaration order, so that saving what was loaded writes the same file.
pub fn save_selection(state: &OutlookPaneState) -> (value: serde_json::Value)
    ensures
        json_is_object(value),
        json_members(value) == no_members().insert(
            "selected_day"@,
            Member::Text(state.selected_day.code()),
        ).insert("enabled_products"@, Member::List(texts(saved_codes(state.enabled_products)))),
        text_member(value, "selected_day"@) == Some(state.selected_day.code()),
        list_member(value, "enabled_products"@) == Some(
            texts(saved_codes(state.enabled_products)),
        ),
{
    let products = state.enabled_products.among(&OutlookProduct::all());
    let mut codes: Vec<String> = Vec::new();
    let mut at: usize = 0;
    while at < products.len()
        invariant
            at <= products@.len(),
            codes@.len() == at,
            forall|i: int| 0 <= i < at ==> (#[trigger] codes@[i])@ == products@[i].code(),
        decreases products@.len() - at,
    {
        codes.push(products[at].spelled().to_owned());
        at = at + 1;
    }
    assert(codes.deep_view() =~= saved_codes(state.enabled_products));
    proof {
        reveal_strlit("selected_day");
        reveal_strlit("enabled_products");
        assert("selected_day"@.len() != "enabled_products"@.len());
    }
    let mut value = json::empty_object();
    json::put_text(&mut value, "selected_day", state.selected_day.spelled());
    json::put_texts(&mut value, "enabled_products", codes);
    value
}

/// The product a text spells.
pub open spec fn product_of(text: Seq<char>) -> Option<OutlookProduct> {
    if exists|p: OutlookProduct| #[trigger] p.code() == text {
        Some(choose|p: OutlookProduct| #[trigger] p.code() == text)
    } else {
        None
    }
}

/// The day a text spells.
pub open spec fn day_of(text: Seq<char>) -> Option<OutlookDay> {
    if exists|d: OutlookDay| #[trigger] d.code() == text {
        Some(choose|d: OutlookDay| #[trigger] d.code() == text)
    } else {
        None
    }
}

/// The day a saved value spells.
pub open spec fn day_spelled(spelling: SpellingView) -> Option<OutlookDay> {
    match spelling.name() {
        Some(text) => day_of(text),
        None => None,
    }
}

/// The set a saved list spells; nothing where any item is no product's code.
pub open spec fn set_of(items: Seq<SpellingView>) -> Option<ProductSet>
    decreases items.len(),
{
    if items.len() == 0 {
        Some(ProductSet::none())
    } else {
        match (set_of(items.drop_last()), items.last().name()) {
            (Some(set), Some(text)) => match product_of(text) {
                Some(product) => Some(set.with(product, true)),
                None => None,
            },
            _ => None,
        }
    }
}

fn read_set(items: &Vec<Spelling>) -> (set: Option<ProductSet>)
    ensures
        set == set_of(items.deep_view()),
{
    let ghost views = items.deep_view();
    let mut set = ProductSet::new();
    let mut at: usize = 0;
    while at < items.len()
        invariant
            at <= items@.len(),
            views == items.deep_view(),
            set_of(views.take(at as int)) == Some(set),
        decreases items@.len() - at,
    {
        assert(views.take(at + 1).drop_last() =~= views.take(at as int));
        let product = match items[at].named() {
            Some(text) => OutlookProduct::parse(text),
            None => None,
        };
        match product {
            Some(p) => {
                proof {
                    let text = views[at as int].name()->0;
                    law_product_codes_differ(p, product_of(text)->0);
                }
                set.insert(p);
            },
            None => {
                proof {
                    lemma_set_refused(views, at + 1);
                }
                return None;
            },
        }
        at = at + 1;
    }
    assert(views.take(at as int) =~= views);
    Some(set)
}

proof fn lemma_set_refused(items: Seq<SpellingView>, at: int)
    requires
        0 <= at <= items.len(),
        set_of(items.take(at)) is None,
    ensures
        set_of(items) is None,
    decreases items.len(),
{
    if at < items.len() {
        assert(items.drop_last().take(at) =~= items.take(at));
        lemma_set_refused(items.drop_last(), at);
    } else {
        assert(items.take(at) =~= items);
    }
}

/// A state with what settings say of it put in. A member they do not name, or
/// that spells no choice, is left as it was.
pub open spec fn restored(state: OutlookPaneState, value: serde_json::Value) -> OutlookPaneState {
    let day = match spelling_member(value, "selected_day"@) {
        Some(spelling) => match day_spelled(spelling) {
            Some(day) => day,
            None => state.selected_day,
        },
        None => state.selected_day,
    };
    let set = match list_member(value, "enabled_products"@) {
        Some(items) => match set_of(items) {
            Some(set) => set,
            None => state.enabled_products,
        },
        None => state.enabled_products,
    };
    OutlookPaneState { selected_day: day, enabled_products: set }.synced()
}

/// Puts what settings say into a state.
pub fn restore_selection(state: &mut OutlookPaneState, value: &serde_json::Value)
    ensures
        *final(state) == restored(*old(state), *value),
{
    if let Some(spelling) = json::get_spelling(value, "selected_day") {
        if let Some(text) = spelling.named() {
            if let Some(day) = OutlookDay::parse(text) {
                proof {
                    law_day_codes_differ(day, day_of(text@)->0);
                }
                state.selected_day = day;
            }
        }
    }
    if let Some(items) = json::get_list(value, "enabled_products") {
        if let Some(set) = read_set(&items) {
            state.enabled_products = set;
        }
    }
    state.sync_implied_products();
}

/// The state a pane is restored to. Whether the pane is on is the pane's own
/// fact and wins over the saved set; which day it looked at survives either way.
pub open spec fn reopened(value: serde_json::Value, enabled: bool) -> OutlookPaneState {
    let state = restored(OutlookPaneState::fresh(enabled), value);
    if !enabled {
        OutlookPaneState { enabled_products: ProductSet::none(), ..state }
    } else if state.enabled_products == ProductSet::none() {
        OutlookPaneState::first_on(state.selected_day)
    } else {
        state
    }
}

pub fn deserialize_pane_state(value: &serde_json::Value, enabled: bool) -> (state: OutlookPaneState)
    ensures
        state == reopened(*value, enabled),
{
    let mut state = OutlookPaneState::new(enabled);
    restore_selection(&mut state, value);
    if !enabled {
        state.enabled_products = ProductSet::new();
    } else if state.enabled_products.is_empty() {
        state.turn_on();
    }
    state
}

/// Saving a pane and reopening it gives the pane back: an enabled one exactly,
/// and one that is off with its day.
pub proof fn law_reopen_is_exact(state: OutlookPaneState, value: serde_json::Value)
    requires
        state == state.synced(),
        text_member(value, "selected_day"@) == Some(state.selected_day.code()),
        list_member(value, "enabled_products"@) == Some(
            texts(saved_codes(state.enabled_products)),
        ),
    ensures
        reopened(value, state.enabled_products != ProductSet::none()) == state,
        reopened(value, false).selected_day == state.selected_day,
        reopened(value, false).enabled_products == ProductSet::none(),
{
    let set = state.enabled_products;
    law_day_codes_differ(state.selected_day, day_of(state.selected_day.code())->0);
    lemma_saved_set(set, OutlookProduct::every());
    let codes = saved_codes(set);
    let products = members(set, OutlookProduct::every());
    assert(texts(codes) =~= listed(products));
    lemma_all_products(set);
}

/// A list of products as a saved list.
spec fn listed(products: Seq<OutlookProduct>) -> Seq<SpellingView> {
    Seq::new(products.len(), |i: int| SpellingView::Text(products[i].code()))
}

/// The set with exactly the members of `set` that `products` lists.
spec fn limited(set: ProductSet, products: Seq<OutlookProduct>) -> ProductSet
    decreases products.len(),
{
    if products.len() == 0 {
        ProductSet::none()
    } else {
        let before = limited(set, products.drop_last());
        if set.has(products.last()) {
            before.with(products.last(), true)
        } else {
            before
        }
    }
}

proof fn lemma_saved_set(set: ProductSet, products: Seq<OutlookProduct>)
    ensures
        set_of(listed(members(set, products))) == Some(limited(set, products)),
    decreases products.len(),
{
    if products.len() > 0 {
        let (before, last) = (products.drop_last(), products.last());
        lemma_saved_set(set, before);
        if set.has(last) {
            let items = listed(members(set, products));
            assert(items.drop_last() =~= listed(members(set, before)));
            assert(items.last() == SpellingView::Text(last.code()));
            law_product_codes_differ(last, product_of(last.code())->0);
        }
    }
}

proof fn lemma_all_products(set: ProductSet)
    ensures
        limited(set, OutlookProduct::every()) == set,
{
    let all = OutlookProduct::every();
    let (s5, s4, s3) = (all.take(5), all.take(4), all.take(3));
    let (s2, s1, s0) = (all.take(2), all.take(1), all.take(0));
    assert(all.drop_last() =~= s5);
    assert(s5.drop_last() =~= s4);
    assert(s4.drop_last() =~= s3);
    assert(s3.drop_last() =~= s2);
    assert(s2.drop_last() =~= s1);
    assert(s1.drop_last() =~= s0);
    reveal_with_fuel(limited, 7);
}

/// A set says of each product whether it is in, and of no product more than that:
/// putting one in or out moves no other, and sets that say the same are the same.
pub proof fn law_a_set_is_its_members(
    set: ProductSet,
    other: ProductSet,
    p: OutlookProduct,
    q: OutlookProduct,
    present: bool,
)
    ensures
        set.with(p, present).has(q) == (if q == p {
            present
        } else {
            set.has(q)
        }),
        !ProductSet::none().has(p),
        (forall|product: OutlookProduct| #[trigger] set.has(product) == other.has(product)) ==> set
            == other,
{
    assert(set.has(OutlookProduct::Categorical) == set.categorical);
    assert(set.has(OutlookProduct::Tornado) == set.tornado);
    assert(set.has(OutlookProduct::Wind) == set.wind);
    assert(set.has(OutlookProduct::Hail) == set.hail);
    assert(set.has(OutlookProduct::Probabilistic) == set.probabilistic);
    assert(set.has(OutlookProduct::ConditionalIntensity) == set.conditional_intensity);
}

/// The members of a list that are in a set are all of them, in the list's order
/// and as often as the list has them.
pub proof fn law_members_are_the_lists(set: ProductSet, products: Seq<OutlookProduct>)
    ensures
        members(set, products) == products.filter(|p: OutlookProduct| set.has(p)),
    decreases products.len(),
{
    reveal(Seq::filter);
    if products.len() > 0 {
        law_members_are_the_lists(set, products.drop_last());
    }
}

/// A pane asks for a product exactly where it is of the pane's day, the pane has
/// it on and the day publishes it; it asks in the order of publication, for each
/// once.
pub proof fn law_a_pane_asks_for_what_it_has_on(state: OutlookPaneState, key: OutlookKey)
    ensures
        state.asked().contains(key) == (key.day == state.selected_day && state.enabled_products.has(
            key.product,
        ) && state.selected_day.published().contains(key.product)),
        state.asked() == state.selected_day.published().filter(
            |p: OutlookProduct| state.enabled_products.has(p),
        ).map_values(|p: OutlookProduct| OutlookKey { day: state.selected_day, product: p }),
{
    let on = |p: OutlookProduct| state.enabled_products.has(p);
    let published = state.selected_day.published();
    law_members_are_the_lists(state.enabled_products, published);
    let drawn = published.filter(on);
    assert(state.asked() =~= drawn.map_values(
        |p: OutlookProduct| OutlookKey { day: state.selected_day, product: p },
    ));
    if state.asked().contains(key) {
        let i = state.asked().index_of(key);
        assert(drawn[i] == key.product);
        published.lemma_filter_pred(on, i);
        published.lemma_filter_contains_rev(on, key.product);
    }
    if key.day == state.selected_day && on(key.product) && published.contains(key.product) {
        published.lemma_filter_contains(on, published.index_of(key.product));
        let i = drawn.index_of(key.product);
        assert(state.asked()[i] == key);
    }
}

/// What is in scope is what some pane asks for and nothing else, each once; where
/// there is no pane, what the defaults ask for.
pub proof fn law_scope_is_what_panes_ask_for(
    states: Seq<OutlookPaneState>,
    defaults: OutlookPaneState,
    key: OutlookKey,
)
    ensures
        union_of(states, defaults).no_duplicates(),
        union_of(states, defaults).contains(key) == (if states.len() == 0 {
            defaults.asked().contains(key)
        } else {
            exists|i: int| 0 <= i < states.len() && (#[trigger] states[i]).asked().contains(key)
        }),
{
    lemma_union_once(states);
    lemma_union_asked(states, key);
    law_merged_is_the_union(Seq::empty(), defaults.asked());
}

proof fn lemma_union_asked(states: Seq<OutlookPaneState>, key: OutlookKey)
    ensures
        union_of_states(states).contains(key) == exists|i: int|
            0 <= i < states.len() && (#[trigger] states[i]).asked().contains(key),
    decreases states.len(),
{
    if states.len() > 0 {
        let fewer = states.drop_last();
        lemma_union_asked(fewer, key);
        lemma_union_once(fewer);
        law_merged_is_the_union(union_of_states(fewer), states.last().asked());
        assert(states[states.len() - 1] == states.last());
        if exists|i: int| 0 <= i < states.len() && (#[trigger] states[i]).asked().contains(key) {
            let i = choose|i: int|
                0 <= i < states.len() && (#[trigger] states[i]).asked().contains(key);
            if i < fewer.len() {
                assert(fewer[i].asked().contains(key));
            }
        }
        if exists|i: int| 0 <= i < fewer.len() && (#[trigger] fewer[i]).asked().contains(key) {
            let i = choose|i: int|
                0 <= i < fewer.len() && (#[trigger] fewer[i]).asked().contains(key);
            assert(states[i].asked().contains(key));
        }
        assert(union_of_states(states).contains(key) == (union_of_states(fewer).contains(key)
            || states.last().asked().contains(key)));
    }
}

/// The conditional intensity follows the probabilistic product on every day that
/// publishes it, and no other product or day moves with it. A pane that is turned
/// on has the first product its day publishes, and whatever that brings along.
pub proof fn law_the_implied_product_follows_its_parent(
    state: OutlookPaneState,
    product: OutlookProduct,
)
    ensures
        state.synced().selected_day == state.selected_day,
        state.synced().enabled_products.has(product) == (if product
            == OutlookProduct::ConditionalIntensity {
            state.selected_day.published().contains(product) && state.enabled_products.has(
                OutlookProduct::Probabilistic,
            )
        } else {
            state.enabled_products.has(product)
        }),
        state.synced().synced() == state.synced(),
        ({
            let day = state.selected_day;
            let on = OutlookPaneState::first_on(day);
            &&& on.selected_day == day
            &&& on.enabled_products.has(product) == (product == day.published()[0] || (product
                == OutlookProduct::ConditionalIntensity && day.published().contains(product)
                && day.published()[0] == OutlookProduct::Probabilistic))
        }),
        OutlookPaneState::fresh(false).enabled_products == ProductSet::none(),
        OutlookPaneState::fresh(true) == OutlookPaneState::first_on(OutlookDay::Day1),
        OutlookPaneState::fresh(false).selected_day == OutlookDay::Day1,
{
    let published = state.selected_day.published();
    if state.selected_day == OutlookDay::Day3 {
        assert(published.contains(OutlookProduct::ConditionalIntensity)) by {
            assert(published[2] == OutlookProduct::ConditionalIntensity);
        }
    }
}

/// Whether a saved item is a product's code.
pub open spec fn names(item: SpellingView, product: OutlookProduct) -> bool {
    item.name() == Some(product.code())
}

/// Whether a saved item is any product's code.
pub open spec fn names_one(item: SpellingView) -> bool {
    exists|product: OutlookProduct| #[trigger] names(item, product)
}

/// A saved list is read as exactly the products it names, and one item that names
/// none leaves it unread.
pub proof fn law_a_list_reads_as_what_it_names(items: Seq<SpellingView>, product: OutlookProduct)
    ensures
        set_of(items) is Some <==> forall|i: int|
            0 <= i < items.len() ==> names_one(#[trigger] items[i]),
        set_of(items) matches Some(set) ==> set.has(product) == exists|i: int|
            0 <= i < items.len() && names(#[trigger] items[i], product),
    decreases items.len(),
{
    if items.len() > 0 {
        let fewer = items.drop_last();
        let last = items[items.len() - 1];
        law_a_list_reads_as_what_it_names(fewer, product);
        let spelled = match last.name() {
            Some(text) => product_of(text),
            None => None,
        };
        assert(spelled is Some <==> names_one(last)) by {
            if let Some(p) = spelled {
                assert(names(last, p));
            }
            if names_one(last) {
                let p = choose|p: OutlookProduct| #[trigger] names(last, p);
                assert(p.code() == last.name()->0);
            }
        }
        if let Some(p) = spelled {
            assert(p.code() == last.name()->0);
            if p.code() == product.code() {
                law_product_codes_differ(p, product);
            }
            assert(names(last, product) == (p == product));
        }
        if forall|i: int| 0 <= i < items.len() ==> names_one(#[trigger] items[i]) {
            assert forall|i: int| 0 <= i < fewer.len() implies names_one(#[trigger] fewer[i]) by {
                assert(names_one(items[i]));
            }
        }
        if names_one(last) && forall|i: int|
            0 <= i < fewer.len() ==> names_one(#[trigger] fewer[i]) {
            assert forall|i: int| 0 <= i < items.len() implies names_one(#[trigger] items[i]) by {
                if i < fewer.len() {
                    assert(fewer[i] == items[i]);
                }
            }
        }
        if exists|i: int| 0 <= i < items.len() && names(#[trigger] items[i], product) {
            let i = choose|i: int| 0 <= i < items.len() && names(#[trigger] items[i], product);
            if i < fewer.len() {
                assert(names(fewer[i], product));
            }
        }
        if exists|i: int| 0 <= i < fewer.len() && names(#[trigger] fewer[i], product) {
            let i = choose|i: int| 0 <= i < fewer.len() && names(#[trigger] fewer[i], product);
            assert(names(items[i], product));
        }
    }
}

/// Every product and every day is listed once.
pub proof fn law_every_product_is_listed(product: OutlookProduct, day: OutlookDay)
    ensures
        OutlookProduct::every().contains(product),
        OutlookProduct::every().no_duplicates(),
        OutlookProduct::every().len() == 6,
        OutlookDay::every().contains(day),
        OutlookDay::every().no_duplicates(),
        OutlookDay::every().len() == 8,
{
    assert(OutlookProduct::every()[product.place()] == product);
    assert(OutlookDay::every()[day.place()] == day);
}

/// What the days publish: the categorical outlook on the first three, each hazard
/// of its own on the first two and only there, the probabilistic one from the
/// third on, and the conditional intensity beside it on the third alone. No day
/// publishes a product twice, and every day publishes something.
pub proof fn law_days_publish_what_they_do(day: OutlookDay)
    ensures
        ({
            let near = day == OutlookDay::Day1 || day == OutlookDay::Day2;
            let published = day.published();
            &&& published.len() > 0
            &&& published.no_duplicates()
            &&& published.contains(OutlookProduct::Categorical) == (near || day == OutlookDay::Day3)
            &&& published.contains(OutlookProduct::Tornado) == near
            &&& published.contains(OutlookProduct::Wind) == near
            &&& published.contains(OutlookProduct::Hail) == near
            &&& published.contains(OutlookProduct::Probabilistic) == !near
            &&& published.contains(OutlookProduct::ConditionalIntensity) == (day
                == OutlookDay::Day3)
            &&& day.extended() == (!near && day != OutlookDay::Day3)
        }),
{
    let published = day.published();
    if day == OutlookDay::Day1 || day == OutlookDay::Day2 {
        assert(published[0] == OutlookProduct::Categorical && published[1]
            == OutlookProduct::Tornado && published[2] == OutlookProduct::Wind && published[3]
            == OutlookProduct::Hail);
    } else if day == OutlookDay::Day3 {
        assert(published[0] == OutlookProduct::Categorical && published[1]
            == OutlookProduct::Probabilistic && published[2]
            == OutlookProduct::ConditionalIntensity);
    } else {
        assert(published[0] == OutlookProduct::Probabilistic);
    }
}

/// A pane that has on only what its day publishes asks for as many products as it
/// has on, so a round owes as many answers as it has requests.
pub proof fn law_a_round_owes_what_it_asks_for(state: OutlookPaneState)
    requires
        forall|p: OutlookProduct| #[trigger]
            state.enabled_products.has(p) ==> state.selected_day.published().contains(p),
    ensures
        state.asked().len() == state.enabled_products.count(),
{
    let (set, day) = (state.enabled_products, state.selected_day);
    let (all, published) = (OutlookProduct::every(), day.published());
    let on = |p: OutlookProduct| set.has(p);
    law_days_publish_what_they_do(day);
    law_every_product_is_listed(OutlookProduct::Categorical, day);
    law_members_are_the_lists(set, all);
    law_members_are_the_lists(set, published);
    lemma_filtered_once(all, on);
    lemma_filtered_once(published, on);
    let (a, b) = (all.filter(on), published.filter(on));
    assert(a.to_set() =~= b.to_set()) by {
        assert forall|p: OutlookProduct| a.contains(p) == b.contains(p) by {
            law_every_product_is_listed(p, day);
            if a.contains(p) {
                all.lemma_filter_pred(on, a.index_of(p));
                published.lemma_filter_contains(on, published.index_of(p));
            }
            if b.contains(p) {
                published.lemma_filter_pred(on, b.index_of(p));
                all.lemma_filter_contains(on, all.index_of(p));
            }
        }
    }
    a.unique_seq_to_set();
    b.unique_seq_to_set();
}

proof fn lemma_filtered_once(products: Seq<OutlookProduct>, on: spec_fn(OutlookProduct) -> bool)
    requires
        products.no_duplicates(),
    ensures
        products.filter(on).no_duplicates(),
    decreases products.len(),
{
    reveal(Seq::filter);
    if products.len() > 0 {
        let fewer = products.drop_last();
        assert forall|i: int, j: int|
            0 <= i < fewer.len() && 0 <= j < fewer.len() && i != j implies fewer[i] != fewer[j] by {
            assert(products[i] != products[j]);
        }
        lemma_filtered_once(fewer, on);
        let before = fewer.filter(on);
        if before.contains(products.last()) {
            fewer.lemma_filter_contains_rev(on, products.last());
            let i = fewer.index_of(products.last());
            assert(products[i] != products[products.len() - 1]);
        }
    }
}

/// Whether a reopened pane draws is the pane's own word: one that is off has
/// nothing on, one that is on has what was saved, or its day's first product where
/// that is nothing. The day is the saved one, where one is spelled, either way.
pub proof fn law_a_reopened_pane_is_on_by_its_own_word(value: serde_json::Value, enabled: bool)
    ensures
        ({
            let state = reopened(value, enabled);
            let saved = match list_member(value, "enabled_products"@) {
                Some(items) => set_of(items),
                None => None,
            };
            &&& (state.enabled_products != ProductSet::none()) == enabled
            &&& state == state.synced()
            &&& state.selected_day == (match spelling_member(value, "selected_day"@) {
                Some(spelling) => match spelling.name() {
                    Some(text) => match day_of(text) {
                        Some(day) => day,
                        None => OutlookDay::Day1,
                    },
                    None => OutlookDay::Day1,
                },
                None => OutlookDay::Day1,
            })
            &&& enabled ==> (saved matches Some(set) ==> (forall|p: OutlookProduct|
                p != OutlookProduct::ConditionalIntensity && set.has(p) ==> #[trigger]
                state.enabled_products.has(p)))
        }),
{
    let state = reopened(value, enabled);
    let day = state.selected_day;
    law_days_publish_what_they_do(day);
    law_the_implied_product_follows_its_parent(state, OutlookProduct::Categorical);
    law_the_implied_product_follows_its_parent(state, OutlookProduct::Probabilistic);
    assert(OutlookPaneState::first_on(day).enabled_products.has(day.published()[0]));
}

/// A day or a product that a text spells is the one with that code, and a text
/// that is no code spells none.
pub proof fn law_a_code_is_read_as_what_it_is_of(
    text: Seq<char>,
    day: OutlookDay,
    product: OutlookProduct,
)
    ensures
        day_of(day.code()) == Some(day),
        day_of(text) matches Some(d) ==> d.code() == text,
        day_of(text) is None ==> text != day.code(),
        product_of(product.code()) == Some(product),
        product_of(text) matches Some(p) ==> p.code() == text,
        product_of(text) is None ==> text != product.code(),
{
    law_day_codes_differ(day, day_of(day.code())->0);
    law_product_codes_differ(product, product_of(product.code())->0);
}

/// A product goes by its code, but for the conditional intensity, whose name is
/// spelled out; a day goes by its number.
pub proof fn law_products_go_by_their_names(product: OutlookProduct, day: OutlookDay)
    ensures
        product != OutlookProduct::ConditionalIntensity ==> product.name() == product.code(),
        OutlookProduct::ConditionalIntensity.name() == "Conditional Intensity"@,
        day.name() == "Day "@ + day.number(),
{
}

} // verus!
