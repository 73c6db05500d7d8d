//! The job wire: little-endian integers, a reader that only ever shrinks, and
//! the [`Wire`] contract that every value crossing the boundary meets.
//!
//! A type is on the wire when three things are written down for it: the bytes a
//! value becomes, the value a byte string starts with, and the two laws that
//! make those inverses. Everything else in the codec modules is composition.
use std::sync::Arc;
use vstd::prelude::*;

verus! {

/// How many values `width` bytes can tell apart.
pub open spec fn span(width: nat) -> nat
    decreases width,
{
    if width == 0 {
        1
    } else {
        256 * span((width - 1) as nat)
    }
}

/// The low `width` bytes of `value`, least significant first.
pub open spec fn le_bytes(value: nat, width: nat) -> Seq<u8>
    decreases width,
{
    if width == 0 {
        Seq::empty()
    } else {
        seq![(value % 256) as u8] + le_bytes(value / 256, (width - 1) as nat)
    }
}

/// The number a little-endian byte string spells.
pub open spec fn le_value(bytes: Seq<u8>) -> nat
    decreases bytes.len(),
{
    if bytes.len() == 0 {
        0
    } else {
        bytes[0] as nat + 256 * le_value(bytes.skip(1))
    }
}

/// A value that fits its width reads back as itself.
pub proof fn law_le_round_trip(value: nat, width: nat)
    requires
        value < span(width),
    ensures
        le_bytes(value, width).len() == width,
        le_value(le_bytes(value, width)) == value,
    decreases width,
{
    if width > 0 {
        let rest = le_bytes(value / 256, (width - 1) as nat);
        law_le_round_trip(value / 256, (width - 1) as nat);
        assert(le_bytes(value, width).skip(1) =~= rest);
    }
}

/// A byte string is the spelling of the number it reads as, and of no other of
/// its width.
pub proof fn law_le_canonical(bytes: Seq<u8>)
    ensures
        le_value(bytes) < span(bytes.len()),
        le_bytes(le_value(bytes), bytes.len()) == bytes,
    decreases bytes.len(),
{
    if bytes.len() > 0 {
        let rest = bytes.skip(1);
        law_le_canonical(rest);
        let value = le_value(bytes);
        assert(value % 256 == bytes[0] as nat && value / 256 == le_value(rest)) by (nonlinear_arith)
            requires
                value == bytes[0] as nat + 256 * le_value(rest),
                bytes[0] < 256,
        ;
        assert(le_bytes(value, bytes.len()) =~= bytes);
    } else {
        assert(le_bytes(le_value(bytes), bytes.len()) =~= bytes);
    }
}

/// The widths this wire uses, as the integer ranges they cover.
proof fn lemma_spans()
    ensures
        span(1) == 0x100,
        span(2) == 0x1_0000,
        span(4) == 0x1_0000_0000,
        span(8) == 0x1_0000_0000_0000_0000,
{
    reveal_with_fuel(span, 9);
}

proof fn lemma_le_split(value: nat, low: nat, high: nat)
    ensures
        le_bytes(value, low + high) == le_bytes(value, low) + le_bytes(
            value / span(low),
            high,
        ),
    decreases low,
{
    if low == 0 {
        assert(span(0) == 1);
        assert(value / 1 == value);
        assert(le_bytes(value, 0) + le_bytes(value, high) =~= le_bytes(value, high));
    } else {
        lemma_le_split(value / 256, (low - 1) as nat, high);
        let rest = span((low - 1) as nat);
        lemma_span_positive((low - 1) as nat);
        vstd::arithmetic::div_mod::lemma_div_denominator(value as int, 256, rest as int);
        assert(value / span(low) == (value / 256) / rest);
        assert(le_bytes(value, low + high) =~= le_bytes(value, low) + le_bytes(
            value / span(low),
            high,
        ));
    }
}

proof fn lemma_span_positive(width: nat)
    ensures
        span(width) > 0,
    decreases width,
{
    if width > 0 {
        lemma_span_positive((width - 1) as nat);
    }
}

/// Appends the low `width` bytes of `value`.
pub fn push_le(out: &mut Vec<u8>, value: u64, width: usize)
    ensures
        final(out)@ == old(out)@ + le_bytes(value as nat, width as nat),
{
    let ghost before = out@;
    let mut left: u64 = value;
    let mut done: usize = 0;
    proof {
        assert(before + le_bytes(value as nat, 0) =~= before);
        assert(span(0) == 1);
        assert(value as nat / 1 == value);
    }
    while done < width
        invariant
            done <= width,
            out@ == before + le_bytes(value as nat, done as nat),
            left == value as nat / span(done as nat),
        decreases width - done,
    {
        proof {
            lemma_le_split(value as nat, done as nat, 1);
            lemma_span_positive(done as nat);
            reveal_with_fuel(le_bytes, 2);
            lemma_span_step(value as nat, done as nat);
        }
        out.push((left % 256) as u8);
        left = left / 256;
        done = done + 1;
        assert(out@ =~= before + le_bytes(value as nat, done as nat));
    }
}

proof fn lemma_span_step(value: nat, width: nat)
    ensures
        value / span(width + 1) == (value / span(width)) / 256,
{
    lemma_span_positive(width);
    vstd::arithmetic::div_mod::lemma_div_denominator(value as int, span(width) as int, 256);
    assert(span(width) * 256 == span(width + 1));
}

/// The number `bytes` spells.
pub fn read_le(bytes: &[u8]) -> (value: u64)
    requires
        bytes@.len() <= 8,
    ensures
        value == le_value(bytes@),
{
    let mut value: u64 = 0;
    let mut at: usize = bytes.len();
    assert(bytes@.skip(at as int) =~= Seq::<u8>::empty());
    while at > 0
        invariant
            at <= bytes@.len() <= 8,
            value == le_value(bytes@.skip(at as int)),
        decreases at,
    {
        proof {
            let tail = bytes@.skip(at as int);
            law_le_canonical(tail);
            lemma_spans();
            lemma_span_monotonic(tail.len(), 7);
            reveal_with_fuel(span, 8);
            assert(bytes@.skip(at - 1).skip(1) =~= tail);
        }
        at = at - 1;
        value = value * 256 + bytes[at] as u64;
    }
    assert(bytes@.skip(0) =~= bytes@);
    value
}

proof fn lemma_span_monotonic(low: nat, high: nat)
    requires
        low <= high,
    ensures
        span(low) <= span(high),
    decreases high,
{
    if low < high {
        lemma_span_monotonic(low, (high - 1) as nat);
    }
}

/// Bytes still to be read. Every read takes from the front, and a read that
/// asks for more than is left answers `None`.
pub struct Reader<'a> {
    left: &'a [u8],
}

impl<'a> View for Reader<'a> {
    type V = Seq<u8>;

    closed spec fn view(&self) -> Seq<u8> {
        self.left@
    }
}

impl<'a> Reader<'a> {
    pub fn new(bytes: &'a [u8]) -> (r: Reader<'a>)
        ensures
            r@ == bytes@,
    {
        Reader { left: bytes }
    }

    /// What has not been read yet.
    pub fn rest(&self) -> (bytes: &'a [u8])
        ensures
            bytes@ == self@,
    {
        self.left
    }

    pub fn at_end(&self) -> (end: bool)
        ensures
            end == (self@.len() == 0),
    {
        self.left.len() == 0
    }

    /// The next `count` bytes, or `None` when fewer are left.
    pub fn take(&mut self, count: usize) -> (taken: Option<&'a [u8]>)
        ensures
            count <= old(self)@.len() ==> {
                &&& taken matches Some(bytes)
                &&& bytes@ == old(self)@.take(count as int)
                &&& final(self)@ == old(self)@.skip(count as int)
            },
            count > old(self)@.len() ==> taken is None && final(self)@ == old(self)@,
    {
        let len: usize = self.left.len();
        if count > len {
            return None;
        }
        let whole = self.left;
        let taken = vstd::slice::slice_subrange(whole, 0, count);
        self.left = vstd::slice::slice_subrange(whole, count, len);
        Some(taken)
    }

    /// The next `width` bytes as a little-endian number.
    fn number(&mut self, width: usize) -> (value: Option<u64>)
        requires
            width <= 8,
        ensures
            width <= old(self)@.len() ==> {
                &&& value == Some(le_value(old(self)@.take(width as int)) as u64)
                &&& le_value(old(self)@.take(width as int)) < span(width as nat)
                &&& final(self)@ == old(self)@.skip(width as int)
            },
            width > old(self)@.len() ==> value is None,
    {
        match self.take(width) {
            Some(bytes) => {
                proof {
                    law_le_canonical(bytes@);
                }
                Some(read_le(bytes))
            },
            None => None,
        }
    }
}

/// What a byte string starts with, and what is left after it.
pub type Parsed<M> = Option<(M, Seq<u8>)>;

/// A value that crosses the job boundary.
///
/// The value is stood for by its deep view. `encoded` is the one byte string a
/// view becomes; `parsed` is the view a byte string starts with, `None` where it
/// starts with none. The laws say that each undoes the other.
pub trait Wire: DeepView + Sized {
    /// Whether the wire carries this view whole: its counts fit their fields,
    /// and it is a value a decoder would hand out.
    spec fn fits(view: Self::V) -> bool;

    /// The bytes of a view.
    spec fn encoded(view: Self::V) -> Seq<u8>;

    /// The view at the front of `bytes`.
    spec fn parsed(bytes: Seq<u8>) -> Parsed<Self::V>;

    /// What holds of the parts of a decoded value that its view leaves out.
    spec fn restored(&self) -> bool;

    /// Appends this value's bytes.
    fn encode(&self, out: &mut Vec<u8>)
        ensures
            final(out)@ == old(out)@ + Self::encoded(self.deep_view()),
    ;

    /// Reads a value off the front, or refuses.
    fn decode(r: &mut Reader<'_>) -> (value: Option<Self>)
        ensures
            match Self::parsed(old(r)@) {
                Some((view, rest)) => {
                    &&& value matches Some(v)
                    &&& v.deep_view() == view
                    &&& v.restored()
                    &&& final(r)@ == rest
                },
                None => value is None,
            },
    ;

    /// Decoding what was encoded gives the value back and consumes exactly its
    /// bytes, whatever follows them.
    proof fn law_round_trip(view: Self::V, tail: Seq<u8>)
        requires
            Self::fits(view),
        ensures
            Self::parsed(Self::encoded(view) + tail) == Some((view, tail)),
    ;

    /// Every byte string that decodes is the encoding of what it decodes to.
    proof fn law_canonical(bytes: Seq<u8>)
        ensures
            Self::parsed(bytes) matches Some((view, rest)) ==> {
                &&& Self::fits(view)
                &&& bytes == Self::encoded(view) + rest
            },
    ;
}

/// A `width`-byte number at the front of `bytes`.
pub open spec fn parsed_le(bytes: Seq<u8>, width: nat) -> Parsed<nat> {
    if bytes.len() < width {
        None
    } else {
        Some((le_value(bytes.take(width as int)), bytes.skip(width as int)))
    }
}

proof fn lemma_le_parse(value: nat, width: nat, tail: Seq<u8>)
    requires
        value < span(width),
    ensures
        parsed_le(le_bytes(value, width) + tail, width) == Some((value, tail)),
{
    law_le_round_trip(value, width);
    let bytes = le_bytes(value, width) + tail;
    assert(bytes.take(width as int) =~= le_bytes(value, width));
    assert(bytes.skip(width as int) =~= tail);
}

proof fn lemma_le_unparse(bytes: Seq<u8>, width: nat)
    ensures
        parsed_le(bytes, width) matches Some((value, rest)) ==> {
            &&& value < span(width)
            &&& bytes == le_bytes(value, width) + rest
        },
{
    if bytes.len() >= width {
        law_le_canonical(bytes.take(width as int));
        assert(bytes =~= bytes.take(width as int) + bytes.skip(width as int));
    }
}

impl Wire for u8 {
    open spec fn fits(view: u8) -> bool {
        true
    }

    open spec fn encoded(view: u8) -> Seq<u8> {
        seq![view]
    }

    open spec fn parsed(bytes: Seq<u8>) -> Parsed<u8> {
        if bytes.len() == 0 {
            None
        } else {
            Some((bytes[0], bytes.skip(1)))
        }
    }

    open spec fn restored(&self) -> bool {
        true
    }

    fn encode(&self, out: &mut Vec<u8>) {
        out.push(*self);
        assert(out@ =~= old(out)@ + seq![*self]);
    }

    fn decode(r: &mut Reader<'_>) -> (value: Option<u8>) {
        match r.take(1) {
            Some(bytes) => Some(bytes[0]),
            None => None,
        }
    }

    proof fn law_round_trip(view: u8, tail: Seq<u8>) {
        assert((seq![view] + tail).skip(1) =~= tail);
    }

    proof fn law_canonical(bytes: Seq<u8>) {
        if bytes.len() > 0 {
            assert(bytes =~= seq![bytes[0]] + bytes.skip(1));
        }
    }
}

impl Wire for u16 {
    open spec fn fits(view: u16) -> bool {
        true
    }

    open spec fn encoded(view: u16) -> Seq<u8> {
        le_bytes(view as nat, 2)
    }

    open spec fn parsed(bytes: Seq<u8>) -> Parsed<u16> {
        match parsed_le(bytes, 2) {
            Some((value, rest)) => Some((value as u16, rest)),
            None => None,
        }
    }

    open spec fn restored(&self) -> bool {
        true
    }

    fn encode(&self, out: &mut Vec<u8>) {
        push_le(out, *self as u64, 2);
    }

    fn decode(r: &mut Reader<'_>) -> (value: Option<u16>) {
        proof {
            lemma_spans();
        }
        match r.number(2) {
            Some(value) => Some(value as u16),
            None => None,
        }
    }

    proof fn law_round_trip(view: u16, tail: Seq<u8>) {
        lemma_spans();
        lemma_le_parse(view as nat, 2, tail);
    }

    proof fn law_canonical(bytes: Seq<u8>) {
        lemma_spans();
        lemma_le_unparse(bytes, 2);
    }
}

impl Wire for u32 {
    open spec fn fits(view: u32) -> bool {
        true
    }

    open spec fn encoded(view: u32) -> Seq<u8> {
        le_bytes(view as nat, 4)
    }

    open spec fn parsed(bytes: Seq<u8>) -> Parsed<u32> {
        match parsed_le(bytes, 4) {
            Some((value, rest)) => Some((value as u32, rest)),
            None => None,
        }
    }

    open spec fn restored(&self) -> bool {
        true
    }

    fn encode(&self, out: &mut Vec<u8>) {
        push_le(out, *self as u64, 4);
    }

    fn decode(r: &mut Reader<'_>) -> (value: Option<u32>) {
        proof {
            lemma_spans();
        }
        match r.number(4) {
            Some(value) => Some(value as u32),
            None => None,
        }
    }

    proof fn law_round_trip(view: u32, tail: Seq<u8>) {
        lemma_spans();
        lemma_le_parse(view as nat, 4, tail);
    }

    proof fn law_canonical(bytes: Seq<u8>) {
        lemma_spans();
        lemma_le_unparse(bytes, 4);
    }
}

impl Wire for u64 {
    open spec fn fits(view: u64) -> bool {
        true
    }

    open spec fn encoded(view: u64) -> Seq<u8> {
        le_bytes(view as nat, 8)
    }

    open spec fn parsed(bytes: Seq<u8>) -> Parsed<u64> {
        match parsed_le(bytes, 8) {
            Some((value, rest)) => Some((value as u64, rest)),
            None => None,
        }
    }

    open spec fn restored(&self) -> bool {
        true
    }

    fn encode(&self, out: &mut Vec<u8>) {
        push_le(out, *self, 8);
    }

    fn decode(r: &mut Reader<'_>) -> (value: Option<u64>) {
        proof {
            lemma_spans();
        }
        r.number(8)
    }

    proof fn law_round_trip(view: u64, tail: Seq<u8>) {
        lemma_spans();
        lemma_le_parse(view as nat, 8, tail);
    }

    proof fn law_canonical(bytes: Seq<u8>) {
        lemma_spans();
        lemma_le_unparse(bytes, 8);
    }
}

/// The two's-complement pattern of a signed number and back.
proof fn lemma_signed_pattern(value: i64, pattern: u64)
    ensures
        (value as u64) as i64 == value,
        (pattern as i64) as u64 == pattern,
{
    assert((value as u64) as i64 == value) by (bit_vector);
    assert((pattern as i64) as u64 == pattern) by (bit_vector);
}

impl Wire for i64 {
    open spec fn fits(view: i64) -> bool {
        true
    }

    open spec fn encoded(view: i64) -> Seq<u8> {
        u64::encoded(view as u64)
    }

    open spec fn parsed(bytes: Seq<u8>) -> Parsed<i64> {
        match u64::parsed(bytes) {
            Some((pattern, rest)) => Some((pattern as i64, rest)),
            None => None,
        }
    }

    open spec fn restored(&self) -> bool {
        true
    }

    fn encode(&self, out: &mut Vec<u8>) {
        (#[verifier::truncate]
        (*self as u64)).encode(out);
    }

    fn decode(r: &mut Reader<'_>) -> (value: Option<i64>) {
        match u64::decode(r) {
            Some(pattern) => Some(
                #[verifier::truncate]
                (pattern as i64),
            ),
            None => None,
        }
    }

    proof fn law_round_trip(view: i64, tail: Seq<u8>) {
        u64::law_round_trip(view as u64, tail);
        lemma_signed_pattern(view, 0);
    }

    proof fn law_canonical(bytes: Seq<u8>) {
        u64::law_canonical(bytes);
        if let Some((pattern, rest)) = u64::parsed(bytes) {
            lemma_signed_pattern(0, pattern);
        }
    }
}

/// One byte, `0` or `1`; any other is refused rather than coerced.
impl Wire for bool {
    open spec fn fits(view: bool) -> bool {
        true
    }

    open spec fn encoded(view: bool) -> Seq<u8> {
        seq![
            if view {
                1u8
            } else {
                0u8
            },
        ]
    }

    open spec fn parsed(bytes: Seq<u8>) -> Parsed<bool> {
        if bytes.len() == 0 || bytes[0] > 1 {
            None
        } else {
            Some((bytes[0] == 1, bytes.skip(1)))
        }
    }

    open spec fn restored(&self) -> bool {
        true
    }

    fn encode(&self, out: &mut Vec<u8>) {
        out.push(
            if *self {
                1
            } else {
                0
            },
        );
        assert(out@ =~= old(out)@ + Self::encoded(*self));
    }

    fn decode(r: &mut Reader<'_>) -> (value: Option<bool>) {
        match u8::decode(r) {
            Some(0) => Some(false),
            Some(1) => Some(true),
            _ => None,
        }
    }

    proof fn law_round_trip(view: bool, tail: Seq<u8>) {
        assert((Self::encoded(view) + tail).skip(1) =~= tail);
    }

    proof fn law_canonical(bytes: Seq<u8>) {
        if bytes.len() > 0 {
            assert(bytes =~= seq![bytes[0]] + bytes.skip(1));
        }
    }
}

/// A tag byte, `0` for absent and `1` for present, and then the value.
impl<T: Wire> Wire for Option<T> {
    open spec fn fits(view: Option<T::V>) -> bool {
        view matches Some(inner) ==> T::fits(inner)
    }

    open spec fn encoded(view: Option<T::V>) -> Seq<u8> {
        match view {
            None => seq![0u8],
            Some(inner) => seq![1u8] + T::encoded(inner),
        }
    }

    open spec fn parsed(bytes: Seq<u8>) -> Parsed<Option<T::V>> {
        if bytes.len() == 0 || bytes[0] > 1 {
            None
        } else if bytes[0] == 0 {
            Some((None, bytes.skip(1)))
        } else {
            match T::parsed(bytes.skip(1)) {
                Some((inner, rest)) => Some((Some(inner), rest)),
                None => None,
            }
        }
    }

    open spec fn restored(&self) -> bool {
        self matches Some(inner) ==> inner.restored()
    }

    fn encode(&self, out: &mut Vec<u8>) {
        match self {
            None => {
                out.push(0);
                assert(out@ =~= old(out)@ + seq![0u8]);
            },
            Some(inner) => {
                out.push(1);
                inner.encode(out);
                assert(out@ =~= old(out)@ + (seq![1u8] + T::encoded(inner.deep_view())));
            },
        }
    }

    fn decode(r: &mut Reader<'_>) -> (value: Option<Option<T>>) {
        match u8::decode(r) {
            Some(0) => Some(None),
            Some(1) => match T::decode(r) {
                Some(inner) => Some(Some(inner)),
                None => None,
            },
            _ => None,
        }
    }

    proof fn law_round_trip(view: Option<T::V>, tail: Seq<u8>) {
        match view {
            None => {
                assert((seq![0u8] + tail).skip(1) =~= tail);
            },
            Some(inner) => {
                T::law_round_trip(inner, tail);
                assert((seq![1u8] + T::encoded(inner) + tail).skip(1) =~= T::encoded(inner) + tail);
            },
        }
    }

    proof fn law_canonical(bytes: Seq<u8>) {
        if bytes.len() > 0 && bytes[0] <= 1 {
            assert(bytes =~= seq![bytes[0]] + bytes.skip(1));
            if bytes[0] == 1 {
                T::law_canonical(bytes.skip(1));
                if let Some((inner, rest)) = T::parsed(bytes.skip(1)) {
                    assert(bytes =~= seq![1u8] + T::encoded(inner) + rest);
                }
            }
        }
    }
}

/// A shared value travels as the value.
impl<T: Wire> Wire for Arc<T> {
    open spec fn fits(view: T::V) -> bool {
        T::fits(view)
    }

    open spec fn encoded(view: T::V) -> Seq<u8> {
        T::encoded(view)
    }

    open spec fn parsed(bytes: Seq<u8>) -> Parsed<T::V> {
        T::parsed(bytes)
    }

    open spec fn restored(&self) -> bool {
        (**self).restored()
    }

    fn encode(&self, out: &mut Vec<u8>) {
        (**self).encode(out);
    }

    fn decode(r: &mut Reader<'_>) -> (value: Option<Arc<T>>) {
        match T::decode(r) {
            Some(value) => Some(Arc::new(value)),
            None => None,
        }
    }

    proof fn law_round_trip(view: T::V, tail: Seq<u8>) {
        T::law_round_trip(view, tail);
    }

    proof fn law_canonical(bytes: Seq<u8>) {
        T::law_canonical(bytes);
    }
}

/// The first value's bytes and then the second's.
impl<A: Wire, B: Wire> Wire for (A, B) {
    open spec fn fits(view: (A::V, B::V)) -> bool {
        A::fits(view.0) && B::fits(view.1)
    }

    open spec fn encoded(view: (A::V, B::V)) -> Seq<u8> {
        A::encoded(view.0) + B::encoded(view.1)
    }

    open spec fn parsed(bytes: Seq<u8>) -> Parsed<(A::V, B::V)> {
        match A::parsed(bytes) {
            Some((first, after)) => match B::parsed(after) {
                Some((second, rest)) => Some(((first, second), rest)),
                None => None,
            },
            None => None,
        }
    }

    open spec fn restored(&self) -> bool {
        self.0.restored() && self.1.restored()
    }

    fn encode(&self, out: &mut Vec<u8>) {
        self.0.encode(out);
        self.1.encode(out);
        assert(out@ =~= old(out)@ + Self::encoded(self.deep_view()));
    }

    fn decode(r: &mut Reader<'_>) -> (value: Option<(A, B)>) {
        match A::decode(r) {
            Some(first) => match B::decode(r) {
                Some(second) => Some((first, second)),
                None => None,
            },
            None => None,
        }
    }

    proof fn law_round_trip(view: (A::V, B::V), tail: Seq<u8>) {
        A::law_round_trip(view.0, B::encoded(view.1) + tail);
        B::law_round_trip(view.1, tail);
        assert(Self::encoded(view) + tail =~= A::encoded(view.0) + (B::encoded(view.1) + tail));
    }

    proof fn law_canonical(bytes: Seq<u8>) {
        A::law_canonical(bytes);
        if let Some((first, after)) = A::parsed(bytes) {
            B::law_canonical(after);
            if let Some((second, rest)) = B::parsed(after) {
                assert(bytes =~= A::encoded(first) + B::encoded(second) + rest);
            }
        }
    }
}

/// The bytes of each view in turn, with no count.
pub open spec fn encoded_all<T: Wire>(views: Seq<T::V>) -> Seq<u8>
    decreases views.len(),
{
    if views.len() == 0 {
        Seq::empty()
    } else {
        encoded_all::<T>(views.drop_last()) + T::encoded(views.last())
    }
}

/// `count` views read one after another.
pub open spec fn parsed_all<T: Wire>(bytes: Seq<u8>, count: nat) -> Parsed<Seq<T::V>>
    decreases count,
{
    if count == 0 {
        Some((Seq::empty(), bytes))
    } else {
        match parsed_all::<T>(bytes, (count - 1) as nat) {
            Some((views, after)) => match T::parsed(after) {
                Some((view, rest)) => Some((views.push(view), rest)),
                None => None,
            },
            None => None,
        }
    }
}

/// Whether every view fits.
pub open spec fn all_fit<T: Wire>(views: Seq<T::V>) -> bool {
    forall|i: int| 0 <= i < views.len() ==> T::fits(#[trigger] views[i])
}

/// A run of values reads back as itself.
pub proof fn law_run_round_trip<T: Wire>(views: Seq<T::V>, tail: Seq<u8>)
    requires
        all_fit::<T>(views),
    ensures
        parsed_all::<T>(encoded_all::<T>(views) + tail, views.len()) == Some((views, tail)),
    decreases views.len(),
{
    if views.len() == 0 {
        assert(encoded_all::<T>(views) + tail =~= tail);
        assert(views =~= Seq::empty());
    } else {
        let last = T::encoded(views.last());
        assert(T::fits(views[views.len() - 1]));
        assert(all_fit::<T>(views.drop_last()));
        law_run_round_trip::<T>(views.drop_last(), last + tail);
        T::law_round_trip(views.last(), tail);
        assert(encoded_all::<T>(views) + tail =~= encoded_all::<T>(views.drop_last()) + (last
            + tail));
        assert(views.drop_last().push(views.last()) =~= views);
    }
}

/// A run of values that decodes is the encoding of what it decodes to.
pub proof fn law_run_canonical<T: Wire>(bytes: Seq<u8>, count: nat)
    ensures
        parsed_all::<T>(bytes, count) matches Some((views, rest)) ==> {
            &&& views.len() == count
            &&& all_fit::<T>(views)
            &&& bytes == encoded_all::<T>(views) + rest
        },
    decreases count,
{
    if count == 0 {
        assert(encoded_all::<T>(Seq::<T::V>::empty()) + bytes =~= bytes);
    } else {
        law_run_canonical::<T>(bytes, (count - 1) as nat);
        if let Some((views, after)) = parsed_all::<T>(bytes, (count - 1) as nat) {
            T::law_canonical(after);
            if let Some((view, rest)) = T::parsed(after) {
                assert(views.push(view).drop_last() =~= views);
                assert(bytes =~= encoded_all::<T>(views.push(view)) + rest);
            }
        }
    }
}

proof fn lemma_run_refused<T: Wire>(bytes: Seq<u8>, short: nat, count: nat)
    requires
        short <= count,
        parsed_all::<T>(bytes, short) is None,
    ensures
        parsed_all::<T>(bytes, count) is None,
    decreases count,
{
    if short < count {
        lemma_run_refused::<T>(bytes, short, (count - 1) as nat);
    }
}

/// Appends each value's bytes, with no count.
pub fn encode_run<T: Wire>(values: &Vec<T>, out: &mut Vec<u8>)
    ensures
        final(out)@ == old(out)@ + encoded_all::<T>(values.deep_view()),
{
    let ghost before = out@;
    let ghost views = values.deep_view();
    let mut at: usize = 0;
    assert(before + encoded_all::<T>(views.take(0)) =~= before);
    while at < values.len()
        invariant
            at <= values.len(),
            views == values.deep_view(),
            out@ == before + encoded_all::<T>(views.take(at as int)),
        decreases values.len() - at,
    {
        values[at].encode(out);
        proof {
            let grown = views.take(at + 1);
            assert(grown.drop_last() =~= views.take(at as int));
            assert(grown.last() == values@[at as int].deep_view());
            assert(out@ =~= before + encoded_all::<T>(grown));
        }
        at = at + 1;
    }
    assert(views.take(at as int) =~= views);
}

/// Reads `count` values one after another.
pub fn decode_run<T: Wire>(r: &mut Reader<'_>, count: usize) -> (values: Option<Vec<T>>)
    ensures
        match parsed_all::<T>(old(r)@, count as nat) {
            Some((views, rest)) => {
                &&& values matches Some(v)
                &&& v.deep_view() == views
                &&& v.restored()
                &&& final(r)@ == rest
            },
            None => values is None,
        },
{
    let ghost bytes = r@;
    let mut values: Vec<T> = Vec::new();
    let mut at: usize = 0;
    assert(values.deep_view() =~= Seq::empty());
    while at < count
        invariant
            at <= count,
            bytes == old(r)@,
            parsed_all::<T>(bytes, at as nat) == Some((values.deep_view(), r@)),
            forall|i: int| 0 <= i < values@.len() ==> (#[trigger] values@[i]).restored(),
        decreases count - at,
    {
        match T::decode(r) {
            Some(value) => {
                let ghost shorter = values.deep_view();
                values.push(value);
                assert(values.deep_view() =~= shorter.push(value.deep_view()));
            },
            None => {
                proof {
                    lemma_run_refused::<T>(bytes, (at + 1) as nat, count as nat);
                }
                return None;
            },
        }
        at = at + 1;
    }
    Some(values)
}

/// A `u32` count and then that many values.
impl<T: Wire> Wire for Vec<T> {
    open spec fn fits(view: Seq<T::V>) -> bool {
        view.len() <= u32::MAX && all_fit::<T>(view)
    }

    open spec fn encoded(view: Seq<T::V>) -> Seq<u8> {
        u32::encoded(view.len() as u32) + encoded_all::<T>(view)
    }

    open spec fn parsed(bytes: Seq<u8>) -> Parsed<Seq<T::V>> {
        match u32::parsed(bytes) {
            Some((count, after)) => parsed_all::<T>(after, count as nat),
            None => None,
        }
    }

    open spec fn restored(&self) -> bool {
        forall|i: int| 0 <= i < self@.len() ==> (#[trigger] self@[i]).restored()
    }

    fn encode(&self, out: &mut Vec<u8>) {
        (#[verifier::truncate]
        (self.len() as u32)).encode(out);
        encode_run(self, out);
        assert(out@ =~= old(out)@ + Self::encoded(self.deep_view()));
    }

    fn decode(r: &mut Reader<'_>) -> (value: Option<Vec<T>>) {
        match u32::decode(r) {
            Some(count) => decode_run(r, count as usize),
            None => None,
        }
    }

    proof fn law_round_trip(view: Seq<T::V>, tail: Seq<u8>) {
        let count = u32::encoded(view.len() as u32);
        u32::law_round_trip(view.len() as u32, encoded_all::<T>(view) + tail);
        law_run_round_trip::<T>(view, tail);
        assert(Self::encoded(view) + tail =~= count + (encoded_all::<T>(view) + tail));
    }

    proof fn law_canonical(bytes: Seq<u8>) {
        u32::law_canonical(bytes);
        if let Some((count, after)) = u32::parsed(bytes) {
            law_run_canonical::<T>(after, count as nat);
            if let Some((views, rest)) = parsed_all::<T>(after, count as nat) {
                assert(bytes =~= Self::encoded(views) + rest);
            }
        }
    }
}

/// The low byte goes first, and the rest is what the number without it is written
/// as.
pub proof fn law_the_low_byte_goes_first(value: nat, width: nat)
    requires
        width > 0,
    ensures
        le_bytes(value, width).len() == width,
        le_bytes(value, width)[0] == value % 256,
        le_bytes(value, width).skip(1) == le_bytes(value / 256, (width - 1) as nat),
        span(width) == 256 * span((width - 1) as nat),
        span(0) == 1,
    decreases width,
{
    if width > 1 {
        law_the_low_byte_goes_first(value / 256, (width - 1) as nat);
    }
    assert(le_bytes(value, width).skip(1) =~= le_bytes(value / 256, (width - 1) as nat));
}

} // verus!
