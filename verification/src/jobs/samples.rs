//! A grid's values as fixed-width samples: as bytes, and cut to a window.
use vstd::prelude::*;
use crate::wire::{law_le_canonical, law_le_round_trip, le_bytes, le_value, push_le, read_le, span};

verus! {

/// The bytes of each sample in turn, `width` apiece.
pub open spec fn sample_bytes(samples: Seq<u32>, width: nat) -> Seq<u8>
    decreases samples.len(),
{
    if samples.len() == 0 {
        Seq::empty()
    } else {
        sample_bytes(samples.drop_last(), width) + le_bytes(samples.last() as nat, width)
    }
}

/// The samples a byte string spells, `width` bytes apiece.
pub open spec fn samples_of(bytes: Seq<u8>, width: nat) -> Seq<u32>
    decreases bytes.len(),
{
    if width == 0 || bytes.len() < width {
        Seq::empty()
    } else {
        let head = (bytes.len() - width) as int;
        samples_of(bytes.take(head), width).push(le_value(bytes.skip(head)) as u32)
    }
}

/// The columns `i0..i1` of the rows `j0..j1` of a grid `ni` wide, row by row.
pub open spec fn cut<T>(cells: Seq<T>, ni: nat, i0: nat, i1: nat, j0: nat, j1: nat) -> Seq<T>
    decreases j1,
{
    if j0 >= j1 {
        Seq::empty()
    } else {
        let row = (j1 - 1) * ni;
        cut(cells, ni, i0, i1, j0, (j1 - 1) as nat) + cells.subrange(row + i0, row + i1)
    }
}

/// Whether every sample fits its width.
pub open spec fn all_narrow(samples: Seq<u32>, width: nat) -> bool {
    forall|i: int| 0 <= i < samples.len() ==> (#[trigger] samples[i] as nat) < span(width)
}

pub proof fn lemma_le_len(value: nat, width: nat)
    ensures
        le_bytes(value, width).len() == width,
    decreases width,
{
    if width > 0 {
        lemma_le_len(value / 256, (width - 1) as nat);
    }
}

pub proof fn lemma_sample_bytes_len(samples: Seq<u32>, width: nat)
    ensures
        sample_bytes(samples, width).len() == samples.len() * width,
    decreases samples.len(),
{
    if samples.len() > 0 {
        lemma_sample_bytes_len(samples.drop_last(), width);
        lemma_le_len(samples.last() as nat, width);
        assert(samples.len() * width == (samples.len() - 1) * width + width) by (nonlinear_arith)
            requires
                samples.len() > 0,
        ;
    } else {
        assert(0 * width == 0);
    }
}

pub proof fn lemma_sample_bytes_concat(a: Seq<u32>, b: Seq<u32>, width: nat)
    ensures
        sample_bytes(a + b, width) == sample_bytes(a, width) + sample_bytes(b, width),
    decreases b.len(),
{
    if b.len() == 0 {
        assert(a + b =~= a);
        assert(sample_bytes(a, width) + sample_bytes(b, width) =~= sample_bytes(a, width));
    } else {
        lemma_sample_bytes_concat(a, b.drop_last(), width);
        assert((a + b).drop_last() =~= a + b.drop_last());
        assert(sample_bytes(a + b, width) =~= sample_bytes(a, width) + sample_bytes(b, width));
    }
}

/// The bytes of a run of samples are a run of the bytes.
pub proof fn lemma_sample_run(samples: Seq<u32>, width: nat, from: int, to: int)
    requires
        0 <= from <= to <= samples.len(),
    ensures
        0 <= from * width <= to * width <= sample_bytes(samples, width).len(),
        sample_bytes(samples, width).subrange(from * width, to * width) == sample_bytes(
            samples.subrange(from, to),
            width,
        ),
{
    let (a, b, c) = (
        samples.subrange(0, from),
        samples.subrange(from, to),
        samples.subrange(to, samples.len() as int),
    );
    assert(samples =~= a + (b + c));
    lemma_sample_bytes_concat(a, b + c, width);
    lemma_sample_bytes_concat(b, c, width);
    lemma_sample_bytes_len(a, width);
    lemma_sample_bytes_len(b, width);
    lemma_sample_bytes_len(c, width);
    lemma_sample_bytes_len(samples, width);
    assert(from * width + (to - from) * width == to * width) by (nonlinear_arith);
    assert(0 <= from * width && 0 <= (to - from) * width && 0 <= (samples.len() - to) * width)
        by (nonlinear_arith)
        requires
            0 <= from <= to <= samples.len(),
    ;
    assert(to * width + (samples.len() - to) * width == samples.len() * width) by (nonlinear_arith);
    assert(sample_bytes(samples, width).subrange(from * width, to * width) =~= sample_bytes(
        b,
        width,
    ));
}

/// Samples that fit their width read back from their bytes.
pub proof fn law_samples_round_trip(samples: Seq<u32>, width: nat)
    requires
        0 < width <= 4,
        all_narrow(samples, width),
    ensures
        samples_of(sample_bytes(samples, width), width) == samples,
    decreases samples.len(),
{
    lemma_sample_bytes_len(samples, width);
    if samples.len() == 0 {
        assert(samples =~= Seq::empty());
    } else {
        let (init, last) = (samples.drop_last(), samples.last());
        lemma_sample_bytes_len(init, width);
        assert(samples.len() * width == init.len() * width + width) by (nonlinear_arith)
            requires
                samples.len() == init.len() + 1,
        ;
        assert(init.len() * width >= 0) by (nonlinear_arith);
        let bytes = sample_bytes(samples, width);
        let head = (bytes.len() - width) as int;
        assert(samples[samples.len() - 1] == last);
        law_le_round_trip(last as nat, width);
        assert(bytes.take(head) =~= sample_bytes(init, width));
        assert(bytes.skip(head) =~= le_bytes(last as nat, width));
        law_samples_round_trip(init, width);
        assert(init.push(last) =~= samples);
    }
}

/// Whole samples are spelled by their bytes and by no others.
pub proof fn law_samples_canonical(bytes: Seq<u8>, count: nat, width: nat)
    requires
        0 < width <= 4,
        bytes.len() == count * width,
    ensures
        samples_of(bytes, width).len() == count,
        all_narrow(samples_of(bytes, width), width),
        sample_bytes(samples_of(bytes, width), width) == bytes,
    decreases count,
{
    if count == 0 {
        assert(0 * width == 0);
        assert(bytes =~= Seq::empty());
    } else {
        assert(count * width == (count - 1) * width + width) by (nonlinear_arith)
            requires
                count > 0,
        ;
        assert((count - 1) * width >= 0) by (nonlinear_arith)
            requires
                count > 0,
        ;
        let head = (bytes.len() - width) as int;
        law_samples_canonical(bytes.take(head), (count - 1) as nat, width);
        law_le_canonical(bytes.skip(head));
        lemma_narrow_width(width);
        let samples = samples_of(bytes, width);
        assert(samples.drop_last() =~= samples_of(bytes.take(head), width));
        assert(sample_bytes(samples, width) =~= bytes);
    }
}

pub proof fn lemma_narrow_width(width: nat)
    requires
        width <= 4,
    ensures
        span(width) <= 0x1_0000_0000,
        span(2) == 0x1_0000,
        span(4) == 0x1_0000_0000,
{
    reveal_with_fuel(span, 5);
}

/// Appends one sample's bytes.
pub fn push_sample(out: &mut Vec<u8>, sample: u32, width: usize)
    ensures
        final(out)@ == old(out)@ + le_bytes(sample as nat, width as nat),
{
    push_le(out, sample as u64, width)
}

/// The sample at position `at` of a byte string of whole samples.
pub fn read_sample(bytes: &[u8], at: usize, width: usize) -> (sample: u32)
    requires
        0 < width <= 4,
        (at + 1) * width <= bytes@.len(),
    ensures
        sample as nat == le_value(bytes@.subrange(at * width, (at + 1) * width)),
        (sample as nat) < span(width as nat),
{
    assert(at * width + width == (at + 1) * width && at * width >= 0) by (nonlinear_arith);
    let len: usize = bytes.len();
    assert((at + 1) * width <= len);
    let from: usize = at * width;
    let chunk = vstd::slice::slice_subrange(bytes, from, from + width);
    proof {
        law_le_canonical(chunk@);
        lemma_narrow_width(width as nat);
    }
    read_le(chunk) as u32
}

/// One more whole sample, read off the end.
pub proof fn lemma_samples_step(bytes: Seq<u8>, at: nat, width: nat)
    requires
        0 < width <= 4,
        (at + 1) * width <= bytes.len(),
    ensures
        0 <= at * width <= (at + 1) * width,
        samples_of(bytes.take(((at + 1) * width) as int), width) == samples_of(
            bytes.take((at * width) as int),
            width,
        ).push(le_value(bytes.subrange((at * width) as int, ((at + 1) * width) as int)) as u32),
{
    assert(at * width + width == (at + 1) * width && at * width >= 0) by (nonlinear_arith);
    let taken = bytes.take(((at + 1) * width) as int);
    assert(taken.take((at * width) as int) =~= bytes.take((at * width) as int));
    assert(taken.skip((at * width) as int) =~= bytes.subrange(
        (at * width) as int,
        ((at + 1) * width) as int,
    ));
}

/// A cut holds one cell for each cell of its window.
pub proof fn lemma_cut_len<T>(cells: Seq<T>, ni: nat, i0: nat, i1: nat, j0: nat, j1: nat)
    requires
        i0 <= i1 <= ni,
        j0 <= j1,
        j1 * ni <= cells.len(),
    ensures
        cut(cells, ni, i0, i1, j0, j1).len() == (j1 - j0) * (i1 - i0),
    decreases j1,
{
    if j0 < j1 {
        let row = (j1 - 1) * ni;
        assert(row + ni == j1 * ni && row >= 0) by (nonlinear_arith)
            requires
                row == (j1 - 1) * ni,
                j1 > 0,
        ;
        lemma_cut_len(cells, ni, i0, i1, j0, (j1 - 1) as nat);
        assert((j1 - 1 - j0) * (i1 - i0) + (i1 - i0) == (j1 - j0) * (i1 - i0)) by (nonlinear_arith);
    } else {
        assert((j1 - j0) * (i1 - i0) == 0) by (nonlinear_arith)
            requires
                j1 == j0,
        ;
    }
}

/// Cutting rows out of the band of them that was lent is cutting them out of the
/// grid: row `j0` is the band's first.
pub proof fn law_band_cut<T>(cells: Seq<T>, ni: nat, i0: nat, i1: nat, j0: nat, j1: nat)
    requires
        i0 <= i1 <= ni,
        j0 <= j1,
        j1 * ni <= cells.len(),
    ensures
        0 <= j0 * ni <= j1 * ni,
        cut(cells.subrange((j0 * ni) as int, (j1 * ni) as int), ni, i0, i1, 0, (j1 - j0) as nat)
            == cut(cells, ni, i0, i1, j0, j1),
{
    assert(0 <= j0 * ni <= j1 * ni) by (nonlinear_arith)
        requires
            j0 <= j1,
    ;
    lemma_band_rows(cells, ni, i0, i1, j0, j1, j1);
}

proof fn lemma_band_rows<T>(
    cells: Seq<T>,
    ni: nat,
    i0: nat,
    i1: nat,
    j0: nat,
    j: nat,
    j1: nat,
)
    requires
        i0 <= i1 <= ni,
        j0 <= j <= j1,
        j1 * ni <= cells.len(),
        0 <= j0 * ni <= j1 * ni,
    ensures
        cut(cells.subrange((j0 * ni) as int, (j1 * ni) as int), ni, i0, i1, 0, (j - j0) as nat)
            == cut(cells, ni, i0, i1, j0, j),
    decreases j,
{
    let band = cells.subrange((j0 * ni) as int, (j1 * ni) as int);
    if j0 < j {
        lemma_band_rows(cells, ni, i0, i1, j0, (j - 1) as nat, j1);
        let row = (j - 1) * ni;
        let near = (j - 1 - j0) * ni;
        assert(near + j0 * ni == row && near >= 0 && row + ni <= j1 * ni) by (nonlinear_arith)
            requires
                row == (j - 1) * ni,
                near == (j - 1 - j0) * ni,
                j0 < j <= j1,
        ;
        assert(band.subrange(near + i0, near + i1) =~= cells.subrange(row + i0, row + i1));
    }
}

/// Cutting a grid's bytes is cutting its samples and writing them out.
pub proof fn law_byte_cut(
    samples: Seq<u32>,
    width: nat,
    ni: nat,
    i0: nat,
    i1: nat,
    j0: nat,
    j1: nat,
)
    requires
        i0 <= i1 <= ni,
        j0 <= j1,
        j1 * ni <= samples.len(),
    ensures
        cut(sample_bytes(samples, width), ni * width, i0 * width, i1 * width, j0, j1)
            == sample_bytes(cut(samples, ni, i0, i1, j0, j1), width),
    decreases j1,
{
    if j0 < j1 {
        let row = (j1 - 1) * ni;
        assert(row + ni == j1 * ni && row >= 0) by (nonlinear_arith)
            requires
                row == (j1 - 1) * ni,
                j1 > 0,
        ;
        law_byte_cut(samples, width, ni, i0, i1, j0, (j1 - 1) as nat);
        lemma_sample_run(samples, width, row + i0, row + i1);
        lemma_sample_bytes_concat(
            cut(samples, ni, i0, i1, j0, (j1 - 1) as nat),
            samples.subrange(row + i0, row + i1),
            width,
        );
        assert((j1 - 1) * (ni * width) + i0 * width == (row + i0) * width && (j1 - 1) * (ni * width)
            + i1 * width == (row + i1) * width) by (nonlinear_arith)
            requires
                row == (j1 - 1) * ni,
        ;
    }
}

/// A cut has the cell of each column and row of its window where that cell is in
/// the grid, row after row.
pub proof fn law_a_cut_has_each_cell<T>(
    cells: Seq<T>,
    ni: nat,
    i0: nat,
    i1: nat,
    j0: nat,
    j1: nat,
    i: int,
    j: int,
)
    requires
        i0 <= i < i1 <= ni,
        j0 <= j < j1,
        j1 * ni <= cells.len(),
    ensures
        cut(cells, ni, i0, i1, j0, j1).len() == (j1 - j0) * (i1 - i0),
        0 <= (j - j0) * (i1 - i0) + (i - i0) < (j1 - j0) * (i1 - i0),
        0 <= j * ni + i < cells.len(),
        cut(cells, ni, i0, i1, j0, j1)[(j - j0) * (i1 - i0) + (i - i0)] == cells[j * ni + i],
    decreases j1,
{
    let (wide, tall) = (i1 - i0, j1 - j0);
    let row = (j1 - 1) * ni;
    assert(row + ni == j1 * ni && row >= 0 && j * ni >= 0 && (j - j0) * wide >= 0 && (j - j0) * wide
        + wide <= tall * wide && j * ni + ni <= j1 * ni && (tall - 1) * wide + wide == tall * wide)
        by (nonlinear_arith)
        requires
            row == (j1 - 1) * ni,
            j0 <= j < j1,
            wide > 0,
            tall == j1 - j0,
    ;
    lemma_cut_len(cells, ni, i0, i1, j0, j1);
    lemma_cut_len(cells, ni, i0, i1, j0, (j1 - 1) as nat);
    let before = cut(cells, ni, i0, i1, j0, (j1 - 1) as nat);
    assert(before.len() == (tall - 1) * wide);
    if j < j1 - 1 {
        law_a_cut_has_each_cell(cells, ni, i0, i1, j0, (j1 - 1) as nat, i, j);
    }
}

} // verus!
