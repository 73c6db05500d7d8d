//! A set of texts with one listing: ascending, so that what is written of it is
//! a function of the set and not of the order its members came in.
use vstd::prelude::*;
use vstd::utf8::*;
use crate::text::{law_bytes_tell_texts_apart, same_text};

verus! {

/// Byte strings in dictionary order: `a` strictly before `b`.
pub open spec fn bytes_before(a: Seq<u8>, b: Seq<u8>) -> bool
    decreases b.len(),
{
    if b.len() == 0 {
        false
    } else if a.len() == 0 {
        true
    } else if a[0] != b[0] {
        a[0] < b[0]
    } else {
        bytes_before(a.skip(1), b.skip(1))
    }
}

/// Texts in the order of their bytes.
pub open spec fn text_before(a: Seq<char>, b: Seq<char>) -> bool {
    bytes_before(encode_utf8(a), encode_utf8(b))
}

/// Dictionary order is a strict total order.
pub proof fn law_bytes_are_ordered(a: Seq<u8>, b: Seq<u8>, c: Seq<u8>)
    ensures
        !bytes_before(a, a),
        a == b || bytes_before(a, b) || bytes_before(b, a),
        !(bytes_before(a, b) && bytes_before(b, a)),
        bytes_before(a, b) && bytes_before(b, c) ==> bytes_before(a, c),
    decreases a.len(),
{
    if a.len() > 0 {
        law_bytes_are_ordered(a.skip(1), a.skip(1), Seq::empty());
    }
    if a.len() > 0 && b.len() > 0 {
        law_bytes_are_ordered(a.skip(1), b.skip(1), Seq::empty());
        if a[0] == b[0] && a.skip(1) == b.skip(1) {
            assert(a =~= seq![a[0]] + a.skip(1));
            assert(b =~= seq![b[0]] + b.skip(1));
        }
        if c.len() > 0 {
            law_bytes_are_ordered(a.skip(1), b.skip(1), c.skip(1));
        }
    }
    if a.len() == 0 && b.len() == 0 {
        assert(a =~= b);
    }
}

/// Text order is a strict total order.
pub proof fn law_texts_are_ordered(a: Seq<char>, b: Seq<char>, c: Seq<char>)
    ensures
        !text_before(a, a),
        a == b || text_before(a, b) || text_before(b, a),
        text_before(a, b) && text_before(b, c) ==> text_before(a, c),
{
    law_bytes_are_ordered(encode_utf8(a), encode_utf8(b), encode_utf8(c));
    if encode_utf8(a) == encode_utf8(b) {
        law_bytes_tell_texts_apart(a, b);
    }
}

fn bytes_precede(a: &[u8], b: &[u8]) -> (before: bool)
    ensures
        before == bytes_before(a@, b@),
{
    let mut at: usize = 0;
    assert(a@.skip(0) =~= a@ && b@.skip(0) =~= b@);
    while at < a.len() && at < b.len()
        invariant
            at <= a@.len(),
            at <= b@.len(),
            bytes_before(a@, b@) == bytes_before(a@.skip(at as int), b@.skip(at as int)),
        decreases a@.len() - at,
    {
        if a[at] != b[at] {
            return a[at] < b[at];
        }
        assert(a@.skip(at as int).skip(1) =~= a@.skip(at + 1));
        assert(b@.skip(at as int).skip(1) =~= b@.skip(at + 1));
        at = at + 1;
    }
    at < b.len()
}

/// Each text strictly before the next.
pub open spec fn ascending(texts: Seq<Seq<char>>) -> bool {
    forall|i: int, j: int|
        0 <= i < j < texts.len() ==> text_before(#[trigger] texts[i], #[trigger] texts[j])
}

/// A set has one ascending listing.
pub proof fn law_one_listing(a: Seq<Seq<char>>, b: Seq<Seq<char>>)
    requires
        ascending(a),
        ascending(b),
        a.to_set() == b.to_set(),
    ensures
        a == b,
    decreases a.len(),
{
    if a.len() == 0 {
        if b.len() > 0 {
            assert(b.to_set().contains(b[0]));
        }
        assert(a =~= b);
    } else {
        assert(a.to_set().contains(a.last()));
        assert(b.to_set().contains(a.last()));
        assert(b.len() > 0);
        assert(b.to_set().contains(b.last()));
        assert(a.to_set().contains(b.last()));
        let i = choose|i: int| 0 <= i < b.len() && b[i] == a.last();
        let j = choose|j: int| 0 <= j < a.len() && a[j] == b.last();
        if a.last() != b.last() {
            assert(text_before(b[i], b[b.len() - 1]));
            assert(text_before(a[j], a[a.len() - 1]));
            law_texts_are_ordered(a.last(), b.last(), a.last());
        }
        let m = a.last();
        assert forall|t: Seq<char>| a.drop_last().to_set().contains(t)
            implies b.drop_last().to_set().contains(t) by {
            lemma_not_last(a, b, t);
        }
        assert forall|t: Seq<char>| b.drop_last().to_set().contains(t)
            implies a.drop_last().to_set().contains(t) by {
            lemma_not_last(b, a, t);
        }
        assert(a.drop_last().to_set() =~= b.drop_last().to_set());
        law_one_listing(a.drop_last(), b.drop_last());
        assert(a =~= a.drop_last().push(m));
        assert(b =~= b.drop_last().push(m));
    }
}

proof fn lemma_not_last(a: Seq<Seq<char>>, b: Seq<Seq<char>>, t: Seq<char>)
    requires
        a.len() > 0,
        b.len() > 0,
        ascending(a),
        a.last() == b.last(),
        a.to_set() == b.to_set(),
        a.drop_last().to_set().contains(t),
    ensures
        b.drop_last().to_set().contains(t),
{
    let i = choose|i: int| 0 <= i < a.drop_last().len() && a.drop_last()[i] == t;
    assert(text_before(a[i], a[a.len() - 1]));
    law_texts_are_ordered(t, t, t);
    assert(t != b.last());
    assert(a.to_set().contains(a[i]));
    assert(b.to_set().contains(t));
    let k = choose|k: int| 0 <= k < b.len() && b[k] == t;
    assert(b.drop_last()[k] == t);
}

/// A set of texts.
#[derive(Debug)]
pub struct IdSet {
    ids: Vec<String>,
}

impl View for IdSet {
    type V = Set<Seq<char>>;

    open spec fn view(&self) -> Set<Seq<char>> {
        self.listing().to_set()
    }
}

impl IdSet {
    /// The members, ascending.
    pub closed spec fn listing(&self) -> Seq<Seq<char>> {
        self.ids.deep_view()
    }

    #[verifier::type_invariant]
    spec fn listed_once(self) -> bool {
        ascending(self.ids.deep_view())
    }

    pub fn new() -> (set: IdSet)
        ensures
            set@ == Set::<Seq<char>>::empty(),
            ascending(set.listing()),
    {
        let ids: Vec<String> = Vec::new();
        assert(ids.deep_view() =~= Seq::empty());
        assert(ids.deep_view().to_set() =~= Set::empty());
        IdSet { ids }
    }

    /// The members in order.
    pub fn ids(&self) -> (ids: &Vec<String>)
        ensures
            ids.deep_view() == self.listing(),
            ascending(self.listing()),
    {
        proof {
            use_type_invariant(self);
        }
        &self.ids
    }

    pub fn contains(&self, id: &str) -> (found: bool)
        ensures
            found == self@.contains(id@),
    {
        let mut at: usize = 0;
        while at < self.ids.len()
            invariant
                at <= self.ids@.len(),
                forall|i: int| 0 <= i < at ==> self.listing()[i] != id@,
            decreases self.ids@.len() - at,
        {
            if same_text(self.ids[at].as_str(), id) {
                assert(self.listing()[at as int] == id@);
                return true;
            }
            at = at + 1;
        }
        false
    }

    /// Adds a member; one that is there already changes nothing.
    pub fn insert(&mut self, id: String)
        ensures
            final(self)@ == old(self)@.insert(id@),
            ascending(final(self).listing()),
    {
        proof {
            use_type_invariant(&*self);
        }
        let mut ids: Vec<String> = Vec::new();
        std::mem::swap(&mut ids, &mut self.ids);
        let ghost before = ids.deep_view();
        let mut at: usize = 0;
        while at < ids.len() && bytes_precede(
            ids[at].as_str().as_bytes(),
            id.as_str().as_bytes(),
        )
            invariant
                at <= ids@.len(),
                before == ids.deep_view(),
                forall|i: int| 0 <= i < at ==> text_before(#[trigger] before[i], id@),
            decreases ids@.len() - at,
        {
            at = at + 1;
        }
        if at < ids.len() && same_text(ids[at].as_str(), id.as_str()) {
            proof {
                assert(before[at as int] == id@);
                assert(before.to_set().insert(id@) =~= before.to_set());
            }
            self.ids = ids;
            return;
        }
        proof {
            if at < before.len() {
                law_texts_are_ordered(before[at as int], id@, id@);
            }
        }
        let ghost member = id@;
        ids.insert(at, id);
        proof {
            let after = ids.deep_view();
            assert(after =~= before.insert(at as int, member));
            lemma_inserted_ascending(before, at as int, member);
            lemma_inserted_set(before, at as int, member);
        }
        self.ids = ids;
    }
}

proof fn lemma_inserted_set(texts: Seq<Seq<char>>, at: int, text: Seq<char>)
    requires
        0 <= at <= texts.len(),
    ensures
        texts.insert(at, text).to_set() == texts.to_set().insert(text),
{
    let grown = texts.insert(at, text);
    assert(grown[at] == text);
    assert forall|t: Seq<char>| texts.to_set().contains(t) implies grown.to_set().contains(t) by {
        let i = choose|i: int| 0 <= i < texts.len() && texts[i] == t;
        assert(grown[if i < at {
            i
        } else {
            i + 1
        }] == t);
    }
    assert forall|t: Seq<char>| grown.to_set().contains(t) && t != text
        implies texts.to_set().contains(t) by {
        let i = choose|i: int| 0 <= i < grown.len() && grown[i] == t;
        assert(texts[if i < at {
            i
        } else {
            i - 1
        }] == t);
    }
    assert(grown.to_set() =~= texts.to_set().insert(text));
}

proof fn lemma_inserted_ascending(texts: Seq<Seq<char>>, at: int, text: Seq<char>)
    requires
        ascending(texts),
        0 <= at <= texts.len(),
        forall|i: int| 0 <= i < at ==> text_before(#[trigger] texts[i], text),
        at < texts.len() ==> text_before(text, texts[at]),
    ensures
        ascending(texts.insert(at, text)),
{
    let grown = texts.insert(at, text);
    assert forall|i: int, j: int| 0 <= i < j < grown.len() implies text_before(
        #[trigger] grown[i],
        #[trigger] grown[j],
    ) by {
        if i == at && j > at + 1 {
            law_texts_are_ordered(text, texts[at], texts[j - 1]);
        }
        if i > at {
            assert(text_before(texts[i - 1], texts[j - 1]));
        }
        if i < at && j > at {
            assert(text_before(texts[i], texts[j - 1]));
        }
    }
}

} // verus!
