//! The reply every row shares: the picture's bytes, or that it is blank, and the
//! cells a pointer can hit.
use vstd::prelude::*;
use crate::wire::{Reader, Wire};

verus! {

/// Which items each occupied cell of a hit grid shows, listed by cell.
#[derive(Debug)]
pub struct HitCellMap {
    cells: Vec<(u32, Vec<u32>)>,
}

/// Cells listed by strictly rising index.
pub open spec fn rising(cells: Seq<(u32, Seq<u32>)>) -> bool {
    forall|i: int, j: int|
        0 <= i < j < cells.len() ==> (#[trigger] cells[i]).0 < (#[trigger] cells[j]).0
}

/// The cells as a map from index to items.
pub open spec fn cell_map(cells: Seq<(u32, Seq<u32>)>) -> Map<u32, Seq<u32>>
    decreases cells.len(),
{
    if cells.len() == 0 {
        Map::empty()
    } else {
        cell_map(cells.drop_last()).insert(cells.last().0, cells.last().1)
    }
}

proof fn lemma_cell_map(cells: Seq<(u32, Seq<u32>)>)
    requires
        rising(cells),
    ensures
        forall|i: int|
            0 <= i < cells.len() ==> {
                &&& cell_map(cells).contains_key((#[trigger] cells[i]).0)
                &&& cell_map(cells)[cells[i].0] == cells[i].1
            },
        forall|k: u32|
            #[trigger] cell_map(cells).contains_key(k) ==> exists|i: int|
                0 <= i < cells.len() && (#[trigger] cells[i]).0 == k,
    decreases cells.len(),
{
    if cells.len() > 0 {
        let shorter = cells.drop_last();
        lemma_cell_map(shorter);
        assert forall|i: int| 0 <= i < cells.len() implies {
            &&& cell_map(cells).contains_key((#[trigger] cells[i]).0)
            &&& cell_map(cells)[cells[i].0] == cells[i].1
        } by {
            if i < cells.len() - 1 {
                assert(shorter[i] == cells[i]);
                assert(cells[i].0 < cells[cells.len() - 1].0);
            }
        }
        assert forall|k: u32| #[trigger] cell_map(cells).contains_key(k) implies exists|i: int|
            0 <= i < cells.len() && (#[trigger] cells[i]).0 == k by {
            if k == cells.last().0 {
                assert(cells[cells.len() - 1].0 == k);
            } else {
                assert(cell_map(shorter).contains_key(k));
                let i = choose|i: int| 0 <= i < shorter.len() && (#[trigger] shorter[i]).0 == k;
                assert(cells[i].0 == k);
            }
        }
    }
}

/// A map of cells has one rising listing, so one byte string.
pub proof fn law_one_listing(a: Seq<(u32, Seq<u32>)>, b: Seq<(u32, Seq<u32>)>)
    requires
        rising(a),
        rising(b),
        cell_map(a) == cell_map(b),
    ensures
        a == b,
    decreases a.len(),
{
    lemma_cell_map(a);
    lemma_cell_map(b);
    if a.len() == 0 {
        if b.len() > 0 {
            assert(cell_map(b).contains_key(b[0].0));
        }
        assert(a =~= b);
    } else {
        let last = a[a.len() - 1];
        assert(cell_map(b).contains_key(last.0));
        let i = choose|i: int| 0 <= i < b.len() && (#[trigger] b[i]).0 == last.0;
        assert(b.len() > 0);
        let top = b[b.len() - 1];
        assert(cell_map(a).contains_key(top.0));
        let j = choose|j: int| 0 <= j < a.len() && (#[trigger] a[j]).0 == top.0;
        assert(last.0 == top.0);
        assert(last == top);
        let (p, q) = (a.drop_last(), b.drop_last());
        lemma_cell_map(p);
        lemma_cell_map(q);
        assert(!cell_map(p).contains_key(last.0)) by {
            if cell_map(p).contains_key(last.0) {
                let k = choose|k: int| 0 <= k < p.len() && (#[trigger] p[k]).0 == last.0;
                assert(a[k].0 < a[a.len() - 1].0);
            }
        }
        assert(!cell_map(q).contains_key(last.0)) by {
            if cell_map(q).contains_key(last.0) {
                let k = choose|k: int| 0 <= k < q.len() && (#[trigger] q[k]).0 == last.0;
                assert(b[k].0 < b[b.len() - 1].0);
            }
        }
        assert(cell_map(p) =~= cell_map(a).remove(last.0));
        assert(cell_map(q) =~= cell_map(b).remove(last.0));
        law_one_listing(p, q);
        assert(a =~= p.push(last));
        assert(b =~= q.push(last));
    }
}

proof fn lemma_cell_replaced(cells: Seq<(u32, Seq<u32>)>, at: int, cell: (u32, Seq<u32>))
    requires
        rising(cells),
        0 <= at < cells.len(),
        cells[at].0 == cell.0,
    ensures
        rising(cells.update(at, cell)),
        cell_map(cells.update(at, cell)) == cell_map(cells).insert(cell.0, cell.1),
    decreases cells.len(),
{
    let after = cells.update(at, cell);
    assert forall|i: int, j: int| 0 <= i < j < after.len() implies (#[trigger] after[i]).0 < (
    #[trigger] after[j]).0 by {
        assert(cells[i].0 < cells[j].0);
    }
    if at == cells.len() - 1 {
        assert(after.drop_last() =~= cells.drop_last());
        assert(cell_map(after) =~= cell_map(cells).insert(cell.0, cell.1));
    } else {
        assert(after.drop_last() =~= cells.drop_last().update(at, cell));
        lemma_cell_replaced(cells.drop_last(), at, cell);
        assert(cells[at].0 < cells[cells.len() - 1].0);
        assert(cell_map(after) =~= cell_map(cells).insert(cell.0, cell.1));
    }
}

proof fn lemma_cell_inserted(cells: Seq<(u32, Seq<u32>)>, at: int, cell: (u32, Seq<u32>))
    requires
        rising(cells),
        0 <= at <= cells.len(),
        forall|i: int| 0 <= i < at ==> (#[trigger] cells[i]).0 < cell.0,
        at < cells.len() ==> cell.0 < cells[at].0,
    ensures
        rising(cells.insert(at, cell)),
        cell_map(cells.insert(at, cell)) == cell_map(cells).insert(cell.0, cell.1),
    decreases cells.len(),
{
    let after = cells.insert(at, cell);
    assert forall|i: int, j: int| 0 <= i < j < after.len() implies (#[trigger] after[i]).0 < (
    #[trigger] after[j]).0 by {
        if i > at {
            assert(cells[i - 1].0 < cells[j - 1].0);
        } else if i < at && j > at {
            assert(cells[i].0 < cells[j - 1].0);
        } else if i == at && j > at + 1 {
            assert(cells[at].0 < cells[j - 1].0);
        }
    }
    if at == cells.len() {
        assert(after.drop_last() =~= cells);
    } else {
        assert(after.drop_last() =~= cells.drop_last().insert(at, cell));
        lemma_cell_inserted(cells.drop_last(), at, cell);
        if at < cells.len() - 1 {
            assert(cells[at].0 < cells[cells.len() - 1].0);
        }
        assert(cell_map(after) =~= cell_map(cells).insert(cell.0, cell.1));
    }
}

impl View for HitCellMap {
    type V = Map<u32, Seq<u32>>;

    open spec fn view(&self) -> Map<u32, Seq<u32>> {
        cell_map(self.listing())
    }
}

impl HitCellMap {
    /// The cells by rising index.
    pub closed spec fn listing(&self) -> Seq<(u32, Seq<u32>)> {
        self.cells.deep_view()
    }

    #[verifier::type_invariant]
    spec fn listed_rising(self) -> bool {
        rising(self.cells.deep_view())
    }

    pub fn new() -> (map: HitCellMap)
        ensures
            map@ == Map::<u32, Seq<u32>>::empty(),
            map.listing() == Seq::<(u32, Seq<u32>)>::empty(),
    {
        let cells: Vec<(u32, Vec<u32>)> = Vec::new();
        assert(cells.deep_view() =~= Seq::empty());
        HitCellMap { cells }
    }

    /// A map of cells that are already listed by rising index.
    fn of_rising(cells: Vec<(u32, Vec<u32>)>) -> (map: HitCellMap)
        requires
            rising(cells.deep_view()),
        ensures
            map.listing() == cells.deep_view(),
    {
        HitCellMap { cells }
    }

    /// How many cells are occupied.
    pub fn len(&self) -> (count: usize)
        ensures
            count == self.listing().len(),
    {
        self.cells.len()
    }

    /// The cells in order.
    pub fn cells(&self) -> (cells: &Vec<(u32, Vec<u32>)>)
        ensures
            cells.deep_view() == self.listing(),
            rising(self.listing()),
    {
        proof {
            use_type_invariant(self);
        }
        &self.cells
    }

    /// Records what a cell shows, in place of what it showed before.
    pub fn insert(&mut self, idx: u32, ids: Vec<u32>)
        ensures
            final(self)@ == old(self)@.insert(idx, ids@),
            rising(final(self).listing()),
    {
        proof {
            use_type_invariant(&*self);
        }
        let mut cells: Vec<(u32, Vec<u32>)> = Vec::new();
        std::mem::swap(&mut cells, &mut self.cells);
        let ghost before = cells.deep_view();
        let mut at: usize = 0;
        while at < cells.len() && cells[at].0 < idx
            invariant
                at <= cells@.len(),
                before == cells.deep_view(),
                forall|i: int| 0 <= i < at ==> (#[trigger] before[i]).0 < idx,
            decreases cells@.len() - at,
        {
            assert(before[at as int].0 == cells@[at as int].0);
            at = at + 1;
        }
        let ghost cell = (idx, ids@);
        assert(ids.deep_view() =~= ids@);
        let replaced = at < cells.len() && cells[at].0 == idx;
        if replaced {
            assert(before[at as int].0 == idx);
            cells.set(at, (idx, ids));
            assert(cells.deep_view() =~= before.update(at as int, cell));
            proof {
                lemma_cell_replaced(before, at as int, cell);
            }
        } else {
            if at < cells.len() {
                assert(before[at as int].0 == cells@[at as int].0);
            }
            cells.insert(at, (idx, ids));
            assert(cells.deep_view() =~= before.insert(at as int, cell));
            proof {
                lemma_cell_inserted(before, at as int, cell);
            }
        }
        self.cells = cells;
    }
}

/// A grid of cells over a picture, and what each shows.
#[derive(Debug)]
pub struct HitCells {
    pub width: u32,
    pub height: u32,
    pub cells: HitCellMap,
}

/// Width, height, and the cells by rising index.
pub type HitParts = (u32, (u32, Vec<(u32, Vec<u32>)>));

/// What the wire says of a [`HitCells`].
pub type HitView = (u32, (u32, Seq<(u32, Seq<u32>)>));

impl HitCells {
    pub open spec fn parts(&self) -> HitView {
        (self.width, (self.height, self.cells.listing()))
    }
}

/// Cells a decoder accepts: each inside the grid the dimensions span, rising,
/// and none of them empty.
pub open spec fn well_placed(hits: HitView) -> bool {
    &&& rising(hits.1.1)
    &&& forall|i: int|
        0 <= i < hits.1.1.len() ==> {
            &&& (#[trigger] hits.1.1[i]).0 < hits.0 * hits.1.0
            &&& hits.1.1[i].1.len() > 0
        }
}

/// The bytes of a reply: the cells if there are any, and then the pixels, or for
/// a blank picture the four bytes that say how long they would have been.
pub open spec fn reply_bytes(rgba: Seq<u8>, blank: Option<u32>, hits: Option<HitView>) -> Seq<u8> {
    Option::<HitParts>::encoded(hits) + match blank {
        None => seq![1u8] + rgba,
        Some(len) => seq![0u8] + u32::encoded(len),
    }
}

/// What a reply's bytes say, as pixels, blank length and cells.
pub open spec fn reply_parsed(bytes: Seq<u8>) -> Option<
    (Seq<u8>, Option<u32>, Option<HitView>),
> {
    match Option::<HitParts>::parsed(bytes) {
        None => None,
        Some((hits, after)) => if hits is Some && !well_placed(hits->0) {
            None
        } else {
            match u8::parsed(after) {
                Some((1, rgba)) => Some((rgba, None, hits)),
                Some((0, rest)) => match u32::parsed(rest) {
                    Some((len, tail)) => if tail.len() == 0 {
                        Some((Seq::empty(), Some(len), hits))
                    } else {
                        None
                    },
                    None => None,
                },
                _ => None,
            }
        },
    }
}

/// The parts of optional cells.
pub open spec fn hit_view(cells: Option<HitCells>) -> Option<HitView> {
    match cells {
        Some(hits) => Some(hits.parts()),
        None => None,
    }
}

/// Appends a reply. Which of the two a picture is was settled when it was drawn:
/// `blank` is transported and never decided here.
pub fn encode_overlay_out(
    rgba: &[u8],
    blank: Option<u32>,
    hit_cells: Option<&HitCells>,
    out: &mut Vec<u8>,
)
    ensures
        final(out)@ == old(out)@ + reply_bytes(
            rgba@,
            blank,
            match hit_cells {
                Some(hits) => Some(hits.parts()),
                None => None,
            },
        ),
{
    match hit_cells {
        None => {
            out.push(0);
        },
        Some(hits) => {
            out.push(1);
            hits.width.encode(out);
            hits.height.encode(out);
            hits.cells.cells().encode(out);
        },
    }
    let ghost hits = match hit_cells {
        Some(hits) => Some(hits.parts()),
        None => None,
    };
    assert(out@ =~= old(out)@ + Option::<HitParts>::encoded(hits));
    let ghost headed = out@;
    match blank {
        None => {
            out.push(1);
            out.extend_from_slice(rgba);
            assert(out@ =~= headed + (seq![1u8] + rgba@));
        },
        Some(len) => {
            out.push(0);
            len.encode(out);
            assert(out@ =~= headed + (seq![0u8] + u32::encoded(len)));
        },
    }
    assert(out@ =~= old(out)@ + reply_bytes(rgba@, blank, hits));
}

/// Whether every cell is inside `grid`, above the one before it, and shows
/// something.
fn cells_are_well_placed(cells: &Vec<(u32, Vec<u32>)>, grid: u64) -> (ok: bool)
    ensures
        ok == {
            &&& rising(cells.deep_view())
            &&& forall|i: int|
                0 <= i < cells.deep_view().len() ==> {
                    &&& (#[trigger] cells.deep_view()[i]).0 < grid
                    &&& cells.deep_view()[i].1.len() > 0
                }
        },
{
    let ghost views = cells.deep_view();
    let mut at: usize = 0;
    while at < cells.len()
        invariant
            at <= cells@.len(),
            views == cells.deep_view(),
            rising(views.take(at as int)),
            forall|i: int|
                0 <= i < at ==> {
                    &&& (#[trigger] views[i]).0 < grid
                    &&& views[i].1.len() > 0
                },
        decreases cells@.len() - at,
    {
        let idx: u32 = cells[at].0;
        assert(views[at as int].0 == idx);
        assert(views[at as int].1 =~= cells@[at as int].1@);
        if idx as u64 >= grid || cells[at].1.len() == 0 {
            return false;
        }
        if at > 0 && cells[at - 1].0 >= idx {
            assert(views[at - 1].0 >= views[at as int].0);
            return false;
        }
        proof {
            let grown = views.take(at + 1);
            assert forall|i: int, j: int| 0 <= i < j < grown.len() implies (#[trigger] grown[i]).0
                < (#[trigger] grown[j]).0 by {
                if j < at {
                    assert(views.take(at as int)[i].0 < views.take(at as int)[j].0);
                } else {
                    assert(views[at - 1].0 < views[at as int].0);
                    if i < at - 1 {
                        assert(views.take(at as int)[i].0 < views.take(at as int)[at - 1].0);
                    }
                }
            }
        }
        at = at + 1;
    }
    assert(views.take(at as int) =~= views);
    true
}

/// The cells of a reply, once they are known to be well placed.
fn placed_cells(parts: Option<HitParts>) -> (placed: Option<Option<HitCells>>)
    ensures
        match placed {
            Some(cells) => {
                &&& hit_view(cells) == parts.deep_view()
                &&& parts is Some ==> well_placed(parts.deep_view()->0)
            },
            None => parts is Some && !well_placed(parts.deep_view()->0),
        },
{
    match parts {
        None => Some(None),
        Some((width, (height, cells))) => {
            assert(width * height <= 0xffff_ffff * 0xffff_ffff) by (nonlinear_arith)
                requires
                    width <= 0xffff_ffff,
                    height <= 0xffff_ffff,
            ;
            let grid: u64 = (width as u64) * (height as u64);
            if cells_are_well_placed(&cells, grid) {
                Some(Some(HitCells { width, height, cells: HitCellMap::of_rising(cells) }))
            } else {
                None
            }
        },
    }
}

/// Reads a reply back as pixels, blank length and cells. The pixels are handed
/// back unjudged: only the dispatch knows the size they must have.
pub fn decode_overlay_out(bytes: &[u8]) -> (reply: Option<
    (Vec<u8>, Option<u32>, Option<HitCells>),
>)
    ensures
        match reply_parsed(bytes@) {
            Some((rgba, blank, hits)) => {
                &&& reply matches Some((pixels, len, cells))
                &&& pixels@ == rgba
                &&& len == blank
                &&& hit_view(cells) == hits
            },
            None => reply is None,
        },
{
    let mut r = Reader::new(bytes);
    let parts = match Option::<HitParts>::decode(&mut r) {
        Some(parts) => parts,
        None => return None,
    };
    let hit_cells = match placed_cells(parts) {
        Some(hit_cells) => hit_cells,
        None => return None,
    };
    match u8::decode(&mut r) {
        Some(1) => Some((vstd::slice::slice_to_vec(r.rest()), None, hit_cells)),
        Some(0) => match u32::decode(&mut r) {
            Some(len) => if r.at_end() {
                Some((Vec::new(), Some(len), hit_cells))
            } else {
                None
            },
            None => None,
        },
        _ => None,
    }
}

/// A reply reads back as it was written, a blank one without its pixels.
pub proof fn law_reply_round_trip(rgba: Seq<u8>, blank: Option<u32>, hits: Option<HitView>)
    requires
        hits matches Some(placed) ==> well_placed(placed) && HitParts::fits(placed),
    ensures
        reply_parsed(reply_bytes(rgba, blank, hits)) == Some(
            (
                if blank is Some {
                    Seq::empty()
                } else {
                    rgba
                },
                blank,
                hits,
            ),
        ),
{
    let pixels = match blank {
        None => seq![1u8] + rgba,
        Some(len) => seq![0u8] + u32::encoded(len),
    };
    Option::<HitParts>::law_round_trip(hits, pixels);
    match blank {
        None => {
            u8::law_round_trip(1, rgba);
        },
        Some(len) => {
            u8::law_round_trip(0, u32::encoded(len));
            u32::law_round_trip(len, Seq::empty());
            assert(u32::encoded(len) + Seq::<u8>::empty() =~= u32::encoded(len));
        },
    }
}

/// Every byte string that decodes is the encoding of what it decodes to, so one
/// reply has one byte string.
pub proof fn law_reply_canonical(bytes: Seq<u8>)
    ensures
        reply_parsed(bytes) matches Some((rgba, blank, hits)) ==> bytes == reply_bytes(
            rgba,
            blank,
            hits,
        ),
{
    Option::<HitParts>::law_canonical(bytes);
    if let Some((hits, after)) = Option::<HitParts>::parsed(bytes) {
        u8::law_canonical(after);
        if let Some((tag, rest)) = u8::parsed(after) {
            u32::law_canonical(rest);
            if let Some((len, tail)) = u32::parsed(rest) {
                if tail.len() == 0 {
                    assert(u32::encoded(len) + tail =~= u32::encoded(len));
                }
            }
        }
    }
}

/// How a raster's colours relate to its alpha.
#[derive(Clone, Copy, Debug, PartialEq, Eq, Structural)]
pub enum AlphaMode {
    Premultiplied,
    Straight,
}

/// What a row's rasterizer hands back.
#[derive(Debug)]
pub struct RasterizeOutput {
    pub rgba: Vec<u8>,
    pub hit_cells: Option<HitCells>,
    pub alpha: AlphaMode,
    /// The length of a picture with no ink in it, when the output stage has
    /// settled that it is one.
    pub blank: Option<u32>,
}

/// Appends a picture's reply to `head`; nothing travels in a tail.
pub fn encode_raster_reply(v: &RasterizeOutput, head: &mut Vec<u8>)
    ensures
        final(head)@ == old(head)@ + reply_bytes(v.rgba@, v.blank, hit_view(v.hit_cells)),
{
    let hit_cells = match &v.hit_cells {
        Some(hits) => Some(hits),
        None => None,
    };
    encode_overlay_out(v.rgba.as_slice(), v.blank, hit_cells, head);
}

/// Reads a picture's reply. A tail nobody wrote makes the message another's.
pub fn decode_raster_reply(head: &[u8], tails: &Vec<Vec<u8>>) -> (out: Option<RasterizeOutput>)
    ensures
        tails@.len() > 0 ==> out is None,
        tails@.len() == 0 ==> match reply_parsed(head@) {
            Some((rgba, blank, hits)) => {
                &&& out matches Some(v)
                &&& v.rgba@ == rgba
                &&& v.blank == blank
                &&& hit_view(v.hit_cells) == hits
                &&& v.alpha == AlphaMode::Premultiplied
            },
            None => out is None,
        },
{
    if tails.len() > 0 {
        return None;
    }
    match decode_overlay_out(head) {
        Some((rgba, blank, hit_cells)) => Some(
            RasterizeOutput { rgba, hit_cells, alpha: AlphaMode::Premultiplied, blank },
        ),
        None => None,
    }
}

/// A reply that is accepted has every cell on its grid, in rising order and with
/// something in it. One that lists a cell off the grid, out of turn or empty is
/// refused, whatever its pixels.
pub proof fn law_a_misplaced_cell_is_refused(bytes: Seq<u8>)
    ensures
        reply_parsed(bytes) matches Some((_, _, Some((width, (height, cells))))) ==> {
            &&& forall|i: int|
                0 <= i < cells.len() ==> (#[trigger] cells[i]).0 < width * height && cells[i].1.len()
                    > 0
            &&& forall|i: int, j: int|
                0 <= i < j < cells.len() ==> (#[trigger] cells[i]).0 < (#[trigger] cells[j]).0
        },
        reply_parsed(bytes) matches Some((rgba, Some(_), _)) ==> rgba.len() == 0,
{
}

/// A map of cells holds what each listed cell does and nothing else.
pub proof fn law_a_cell_map_is_its_cells(cells: Seq<(u32, Seq<u32>)>, at: u32)
    requires
        rising(cells),
    ensures
        cell_map(cells).contains_key(at) == exists|i: int|
            0 <= i < cells.len() && (#[trigger] cells[i]).0 == at,
        forall|i: int|
            0 <= i < cells.len() && (#[trigger] cells[i]).0 == at ==> cell_map(cells)[at]
                == cells[i].1,
{
    lemma_cell_map(cells);
}

} // verus!
