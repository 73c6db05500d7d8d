//! The mosaic's products, what a decoded mosaic is, and what it says of itself.
use std::sync::Arc;
use vstd::prelude::*;
use crate::instant::Instant;
use crate::jobs::gridded::{FieldGrid, GridValues};
use crate::price::{cap, capped, values_cost, values_price};
use crate::recency::Key;
use crate::text::same_text;

verus! {

/// A product of the national mosaic.
#[derive(Clone, Copy, Debug, PartialEq, Eq, Structural, Hash)]
pub enum MrmsProduct {
    ReflectivityComposite,
    PrecipRate,
}

impl Key for MrmsProduct {
    fn same(&self, other: &MrmsProduct) -> (b: bool) {
        *self == *other
    }
}

impl MrmsProduct {
    /// The product's place among the products.
    pub open spec fn place(self) -> u64 {
        match self {
            MrmsProduct::ReflectivityComposite => 0,
            MrmsProduct::PrecipRate => 1,
        }
    }

    pub fn index(self) -> (place: u64)
        ensures
            place == self.place(),
            place < 2,
    {
        match self {
            MrmsProduct::ReflectivityComposite => 0,
            MrmsProduct::PrecipRate => 1,
        }
    }

    pub open spec fn every() -> Seq<MrmsProduct> {
        seq![MrmsProduct::ReflectivityComposite, MrmsProduct::PrecipRate]
    }

    pub fn all() -> (products: [MrmsProduct; 2])
        ensures
            products@ == Self::every(),
    {
        let products = [MrmsProduct::ReflectivityComposite, MrmsProduct::PrecipRate];
        assert(products@ =~= Self::every());
        products
    }
}

/// What the registry says of a product.
#[derive(Debug)]
pub struct ProductRow {
    /// The saved spelling, which is also the field's id.
    pub code: String,
    /// The name on screen.
    pub name: String,
    /// Where the lowest colour band starts, as an `f32` bit pattern.
    pub lowest_band: u32,
}

/// A row for each product.
#[derive(Debug)]
pub struct ProductTable {
    pub composite: ProductRow,
    pub rate: ProductRow,
}

impl ProductTable {
    /// The two spellings differ.
    pub open spec fn wf(&self) -> bool {
        self.composite.code@ != self.rate.code@
    }

    pub open spec fn row_of(&self, product: MrmsProduct) -> ProductRow {
        match product {
            MrmsProduct::ReflectivityComposite => self.composite,
            MrmsProduct::PrecipRate => self.rate,
        }
    }

    pub fn row(&self, product: MrmsProduct) -> (row: &ProductRow)
        ensures
            *row == self.row_of(product),
    {
        match product {
            MrmsProduct::ReflectivityComposite => &self.composite,
            MrmsProduct::PrecipRate => &self.rate,
        }
    }

    /// The product a spelling names. One of a later version names none.
    pub open spec fn of_code(&self, text: Seq<char>) -> Option<MrmsProduct> {
        if text == self.composite.code@ {
            Some(MrmsProduct::ReflectivityComposite)
        } else if text == self.rate.code@ {
            Some(MrmsProduct::PrecipRate)
        } else {
            None
        }
    }

    pub fn parse(&self, text: &str) -> (product: Option<MrmsProduct>)
        ensures
            product == self.of_code(text@),
    {
        if same_text(text, self.composite.code.as_str()) {
            Some(MrmsProduct::ReflectivityComposite)
        } else if same_text(text, self.rate.code.as_str()) {
            Some(MrmsProduct::PrecipRate)
        } else {
            None
        }
    }

    /// A product's spelling names it again.
    pub proof fn law_code_reads_back(&self, product: MrmsProduct)
        requires
            self.wf(),
        ensures
            self.of_code(self.row_of(product).code@) == Some(product),
    {
    }

    /// The products as the options of a dropdown.
    pub open spec fn options_view(&self) -> Seq<(Seq<char>, Seq<char>)> {
        seq![
            (self.composite.code@, self.composite.name@),
            (self.rate.code@, self.rate.name@),
        ]
    }

    pub fn options(&self) -> (options: Vec<(String, String)>)
        ensures
            options.deep_view() == self.options_view(),
    {
        let mut options: Vec<(String, String)> = Vec::new();
        options.push((self.composite.code.clone(), self.composite.name.clone()));
        options.push((self.rate.code.clone(), self.rate.name.clone()));
        assert(options.deep_view() =~= self.options_view());
        options
    }
}

/// Whether an `f32` bit pattern is no number, which is how a point without
/// coverage is stored.
pub open spec fn no_reading(bits: u32) -> bool {
    magnitude(bits) > 0x7f80_0000
}

/// An `f32` bit pattern without its sign.
pub open spec fn magnitude(bits: u32) -> int {
    if bits >= 0x8000_0000 {
        bits - 0x8000_0000
    } else {
        bits as int
    }
}

/// Where an `f32` bit pattern stands among the readings: bit patterns of one sign
/// are ordered as their magnitudes, and the two zeros are one reading.
pub open spec fn rank(bits: u32) -> int {
    if bits >= 0x8000_0000 {
        -magnitude(bits)
    } else {
        magnitude(bits)
    }
}

fn rank_of(bits: u32) -> (r: i64)
    ensures
        r == rank(bits),
{
    if bits >= 0x8000_0000 {
        -((bits - 0x8000_0000) as i64)
    } else {
        bits as i64
    }
}

fn is_no_reading(bits: u32) -> (b: bool)
    ensures
        b == no_reading(bits),
{
    if bits >= 0x8000_0000 {
        bits - 0x8000_0000 > 0x7f80_0000
    } else {
        bits > 0x7f80_0000
    }
}

/// How many readings reach a band.
pub open spec fn reaching(values: Seq<u32>, band: u32) -> nat
    decreases values.len(),
{
    if values.len() == 0 {
        0
    } else {
        reaching(values.drop_last(), band) + if !no_reading(values.last()) && rank(band) <= rank(
            values.last(),
        ) {
            1nat
        } else {
            0nat
        }
    }
}

/// Whether a value is the least of some readings: it is one of them, and none is
/// below it.
pub open spec fn least(values: Seq<u32>, low: u32) -> bool {
    &&& values.contains(low) && !no_reading(low)
    &&& forall|i: int|
        0 <= i < values.len() && !no_reading(#[trigger] values[i]) ==> rank(low) <= rank(values[i])
}

/// Whether a value is the greatest of some readings.
pub open spec fn greatest(values: Seq<u32>, high: u32) -> bool {
    &&& values.contains(high) && !no_reading(high)
    &&& forall|i: int|
        0 <= i < values.len() && !no_reading(#[trigger] values[i]) ==> rank(values[i]) <= rank(high)
}

/// How many readings reach a band, and the least and the greatest of them all. A
/// point without coverage is in neither.
pub fn summarize(values: &Vec<u32>, band: u32) -> (summary: (usize, Option<(u32, u32)>))
    ensures
        summary.0 == reaching(values@, band),
        match summary.1 {
            Some((low, high)) => least(values@, low) && greatest(values@, high),
            None => forall|i: int| 0 <= i < values@.len() ==> no_reading(#[trigger] values@[i]),
        },
{
    let floor: i64 = rank_of(band);
    let mut count: usize = 0;
    let mut range: Option<(u32, u32)> = None;
    let mut at: usize = 0;
    while at < values.len()
        invariant
            at <= values@.len(),
            floor == rank(band),
            count == reaching(values@.take(at as int), band),
            count <= at,
            match range {
                Some((low, high)) => least(values@.take(at as int), low) && greatest(
                    values@.take(at as int),
                    high,
                ),
                None => forall|i: int| 0 <= i < at ==> no_reading(#[trigger] values@[i]),
            },
        decreases values@.len() - at,
    {
        let bits: u32 = values[at];
        let ghost seen = values@.take(at as int);
        let ghost more = values@.take(at + 1);
        proof {
            assert(more =~= seen.push(bits));
            assert(more.drop_last() =~= seen);
            assert(more[at as int] == bits);
        }
        let ghost before = range;
        if !is_no_reading(bits) {
            let r: i64 = rank_of(bits);
            if floor <= r {
                count = count + 1;
            }
            match range {
                Some((low, high)) => {
                    let mut lowest: u32 = low;
                    let mut highest: u32 = high;
                    if r < rank_of(low) {
                        lowest = bits;
                    }
                    if rank_of(high) < r {
                        highest = bits;
                    }
                    range = Some((lowest, highest));
                    proof {
                        lemma_seen_stays(seen, bits, low);
                        lemma_seen_stays(seen, bits, high);
                        assert forall|i: int|
                            0 <= i < more.len() && !no_reading(#[trigger] more[i]) implies rank(
                            lowest,
                        ) <= rank(more[i]) && rank(more[i]) <= rank(highest) by {
                            if i < at {
                                assert(more[i] == seen[i]);
                            }
                        }
                    }
                },
                None => {
                    range = Some((bits, bits));
                    proof {
                        assert forall|i: int|
                            0 <= i < more.len() && !no_reading(#[trigger] more[i]) implies more[i]
                            == bits by {
                            if i < at {
                                assert(more[i] == values@[i]);
                            }
                        }
                    }
                },
            }
        } else {
            proof {
                if range is Some {
                    let (low, high) = range->0;
                    lemma_seen_stays(seen, bits, low);
                    lemma_seen_stays(seen, bits, high);
                    assert forall|i: int|
                        0 <= i < more.len() && !no_reading(#[trigger] more[i]) implies rank(low)
                        <= rank(more[i]) && rank(more[i]) <= rank(high) by {
                        assert(more[i] == seen[i]);
                    }
                }
            }
        }
        at = at + 1;
    }
    assert(values@.take(at as int) =~= values@);
    (count, range)
}

proof fn lemma_seen_stays(seen: Seq<u32>, more: u32, value: u32)
    requires
        seen.contains(value),
    ensures
        seen.push(more).contains(value),
{
    let i = seen.index_of(value);
    assert(seen.push(more)[i] == value);
}

/// A decoded mosaic.
#[derive(Debug)]
pub struct MrmsGrid {
    pub product: MrmsProduct,
    pub grid: Arc<FieldGrid>,
    /// The instant it depicts.
    pub valid: Instant,
    /// How many points show.
    pub visible_points: usize,
    /// The least and the greatest reading, as `f32` bit patterns.
    pub value_range: Option<(u32, u32)>,
}

/// What a mosaic that shows nothing says.
pub open spec fn blank_text() -> Seq<char> {
    "Nothing reaches the lowest colour band"@
}

impl MrmsGrid {
    /// What a mosaic's values cost.
    pub open spec fn bytes(&self) -> usize {
        capped(values_price(self.grid.values))
    }

    pub fn resident_bytes(&self) -> (bytes: usize)
        ensures
            bytes == self.bytes(),
    {
        cap(values_cost(&self.grid.values))
    }

    /// Why a mosaic that decoded well shows nothing, where it does: a quiet night
    /// and a fetch that never happened look the same on screen.
    pub fn blank_notice(&self) -> (notice: Option<String>)
        ensures
            notice.deep_view() == (if self.visible_points == 0 {
                Some(blank_text())
            } else {
                None
            }),
    {
        if self.visible_points == 0 {
            Some("Nothing reaches the lowest colour band".to_owned())
        } else {
            None
        }
    }

    /// How many values a mosaic has.
    pub open spec fn points(&self) -> nat {
        match self.grid.values {
            GridValues::F32(bits) => bits@.len(),
            GridValues::Scaled(scaled) => scaled.codes@.len(),
        }
    }
}

/// How many readings reach a band is how many points have a reading that is not
/// below it; the two zeros are one reading, and of readings of one sign the
/// magnitudes tell.
pub proof fn law_a_band_counts_its_readings(values: Seq<u32>, band: u32)
    ensures
        reaching(values, band) == values.filter(
            |bits: u32| !no_reading(bits) && !(rank(bits) < rank(band)),
        ).len(),
        rank(0) == rank(0x8000_0000),
        forall|a: u32, b: u32|
            a < b < 0x8000_0000 ==> #[trigger] rank(a) < #[trigger] rank(b),
        forall|a: u32, b: u32|
            0x8000_0000 <= a < b ==> #[trigger] rank(b) < #[trigger] rank(a),
        forall|a: u32, b: u32|
            0x8000_0000 < a && b < 0x8000_0000 ==> #[trigger] rank(a) < #[trigger] rank(b),
    decreases values.len(),
{
    reveal(Seq::filter);
    if values.len() > 0 {
        law_a_band_counts_its_readings(values.drop_last(), band);
    }
}

/// A range brackets the readings: both its ends are readings, and no reading is
/// outside it. An infinity is a reading, and past it on either side nothing is.
pub proof fn law_a_range_brackets_the_readings(values: Seq<u32>, low: u32, high: u32, bits: u32)
    requires
        least(values, low),
        greatest(values, high),
    ensures
        values.contains(low) && !no_reading(low),
        values.contains(high) && !no_reading(high),
        values.contains(bits) && !no_reading(bits) ==> !(rank(bits) < rank(low)) && !(rank(high)
            < rank(bits)),
        no_reading(bits) == (0x7f80_0000 < bits < 0x8000_0000 || 0xff80_0000 < bits),
{
    if values.contains(bits) {
        assert(values[values.index_of(bits)] == bits);
    }
}

/// Where there is any reading there is a range of them: one is the least and one
/// is the greatest.
pub proof fn law_readings_have_a_range(values: Seq<u32>, bits: u32)
    requires
        values.contains(bits),
        !no_reading(bits),
    ensures
        exists|low: u32| least(values, low),
        exists|high: u32| greatest(values, high),
    decreases values.len(),
{
    let (fewer, last) = (values.drop_last(), values.last());
    let at = values.index_of(bits);
    assert(values =~= fewer.push(last));
    assert(values[values.len() - 1] == last);
    if exists|i: int| 0 <= i < fewer.len() && !no_reading(#[trigger] fewer[i]) {
        let i = choose|i: int| 0 <= i < fewer.len() && !no_reading(#[trigger] fewer[i]);
        law_readings_have_a_range(fewer, fewer[i]);
        let low = choose|low: u32| least(fewer, low);
        let high = choose|high: u32| greatest(fewer, high);
        lemma_seen_stays(fewer, last, low);
        lemma_seen_stays(fewer, last, high);
        assert forall|j: int| 0 <= j < fewer.len() implies fewer[j] == #[trigger] values[j] by {}
        if !no_reading(last) && rank(last) < rank(low) {
            assert(least(values, last));
        } else {
            assert(least(values, low));
        }
        if !no_reading(last) && rank(high) < rank(last) {
            assert(greatest(values, last));
        } else {
            assert(greatest(values, high));
        }
    } else {
        if at < fewer.len() {
            assert(fewer[at] == bits);
        }
        assert forall|j: int| 0 <= j < fewer.len() implies no_reading(#[trigger] values[j]) by {
            assert(no_reading(fewer[j]));
        }
        assert(least(values, last) && greatest(values, last));
    }
}

} // verus!
