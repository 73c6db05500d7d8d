//! Text: comparing it, spelling numbers in it, and carrying it on the wire.
use vstd::prelude::*;
use vstd::utf8::*;
use crate::wire::{Parsed, Reader, Wire};

verus! {

/// Two texts with the same bytes are the same text.
pub proof fn law_bytes_tell_texts_apart(a: Seq<char>, b: Seq<char>)
    requires
        encode_utf8(a) == encode_utf8(b),
    ensures
        a == b,
{
    encode_utf8_decode_utf8(a);
    encode_utf8_decode_utf8(b);
}

/// Whether two byte strings hold the same bytes.
pub fn same_bytes(a: &[u8], b: &[u8]) -> (same: bool)
    ensures
        same == (a@ == b@),
{
    if a.len() != b.len() {
        return false;
    }
    let mut at: usize = 0;
    while at < a.len()
        invariant
            at <= a@.len(),
            a@.len() == b@.len(),
            forall|i: int| 0 <= i < at ==> a@[i] == b@[i],
        decreases a@.len() - at,
    {
        if a[at] != b[at] {
            return false;
        }
        at = at + 1;
    }
    assert(a@ =~= b@);
    true
}

/// Whether two texts are the same text.
pub fn same_text(a: &str, b: &str) -> (same: bool)
    ensures
        same == (a@ == b@),
{
    let same = same_bytes(a.as_bytes(), b.as_bytes());
    proof {
        if same {
            law_bytes_tell_texts_apart(a@, b@);
        }
    }
    same
}

/// `String::from_utf8` of the standard library.
///
/// Trusted: it succeeds exactly on valid UTF-8, and the string it then gives has
/// those bytes.
#[verifier::external_body]
fn string_from_utf8(bytes: Vec<u8>) -> (text: Option<String>)
    ensures
        match text {
            Some(s) => valid_utf8(bytes@) && encode_utf8(s@) == bytes@,
            None => !valid_utf8(bytes@),
        },
{
    String::from_utf8(bytes).ok()
}

/// The bytes of `text` that a two-byte count can carry.
pub open spec fn carried_bytes(text: Seq<char>) -> Seq<u8> {
    let bytes = encode_utf8(text);
    if bytes.len() <= u16::MAX {
        bytes
    } else {
        bytes.take(u16::MAX as int)
    }
}

/// A `u16` byte count and then the UTF-8 bytes, cut to what the count can carry.
/// A cut that splits a character is refused on the far side.
impl Wire for String {
    open spec fn fits(view: Seq<char>) -> bool {
        encode_utf8(view).len() <= u16::MAX
    }

    open spec fn encoded(view: Seq<char>) -> Seq<u8> {
        u16::encoded(carried_bytes(view).len() as u16) + carried_bytes(view)
    }

    open spec fn parsed(bytes: Seq<u8>) -> Parsed<Seq<char>> {
        match u16::parsed(bytes) {
            Some((count, after)) => if after.len() < count || !valid_utf8(
                after.take(count as int),
            ) {
                None
            } else {
                Some((decode_utf8(after.take(count as int)), after.skip(count as int)))
            },
            None => None,
        }
    }

    open spec fn restored(&self) -> bool {
        true
    }

    fn encode(&self, out: &mut Vec<u8>) {
        let all = self.as_str().as_bytes();
        let mut kept: usize = all.len();
        if kept > 0xffff {
            kept = 0xffff;
        }
        (kept as u16).encode(out);
        let bytes = vstd::slice::slice_subrange(all, 0, kept);
        assert(bytes@ =~= carried_bytes(self@));
        out.extend_from_slice(bytes);
        assert(out@ =~= old(out)@ + Self::encoded(self@));
    }

    fn decode(r: &mut Reader<'_>) -> (value: Option<String>) {
        let count: u16 = match u16::decode(r) {
            Some(count) => count,
            None => return None,
        };
        match r.take(count as usize) {
            Some(bytes) => {
                let text = string_from_utf8(vstd::slice::slice_to_vec(bytes));
                proof {
                    if text is Some {
                        encode_utf8_decode_utf8(text->0@);
                    }
                }
                text
            },
            None => None,
        }
    }

    proof fn law_round_trip(view: Seq<char>, tail: Seq<u8>) {
        let bytes = encode_utf8(view);
        u16::law_round_trip(bytes.len() as u16, bytes + tail);
        assert(Self::encoded(view) + tail =~= u16::encoded(bytes.len() as u16) + (bytes + tail));
        encode_utf8_valid_utf8(view);
        encode_utf8_decode_utf8(view);
        assert((bytes + tail).take(bytes.len() as int) =~= bytes);
        assert((bytes + tail).skip(bytes.len() as int) =~= tail);
    }

    proof fn law_canonical(bytes: Seq<u8>) {
        u16::law_canonical(bytes);
        if let Some((count, after)) = u16::parsed(bytes) {
            if after.len() >= count && valid_utf8(after.take(count as int)) {
                let text = after.take(count as int);
                decode_utf8_encode_utf8(text);
                assert(bytes =~= Self::encoded(decode_utf8(text)) + after.skip(count as int));
            }
        }
    }
}

/// A text reads back as what its count could carry of it, whatever follows, and
/// is refused where the cut splits a character.
pub proof fn lemma_text_reads_back(text: Seq<char>, tail: Seq<u8>)
    ensures
        String::parsed(String::encoded(text) + tail) == (if valid_utf8(carried_bytes(text)) {
            Some((decode_utf8(carried_bytes(text)), tail))
        } else {
            None
        }),
        String::fits(text) ==> valid_utf8(carried_bytes(text)) && decode_utf8(carried_bytes(text))
            == text,
{
    let bytes = carried_bytes(text);
    u16::law_round_trip(bytes.len() as u16, bytes + tail);
    assert(String::encoded(text) + tail =~= u16::encoded(bytes.len() as u16) + (bytes + tail));
    assert((bytes + tail).take(bytes.len() as int) =~= bytes);
    assert((bytes + tail).skip(bytes.len() as int) =~= tail);
    encode_utf8_valid_utf8(text);
    encode_utf8_decode_utf8(text);
}

/// The decimal digit `d` as a character.
pub open spec fn digit(d: nat) -> char {
    (48 + d) as char
}

/// A number in decimal, with no leading zero.
pub open spec fn decimal(n: nat) -> Seq<char>
    decreases n,
{
    if n < 10 {
        seq![digit(n)]
    } else {
        decimal(n / 10).push(digit(n % 10))
    }
}

/// A number in decimal, padded with a zero to two places.
pub open spec fn two_places(n: nat) -> Seq<char> {
    if n < 10 {
        seq!['0', digit(n)]
    } else {
        decimal(n)
    }
}

fn digit_text(d: u64) -> (text: &'static str)
    requires
        d < 10,
    ensures
        text@ == seq![digit(d as nat)],
{
    proof {
        reveal_strlit("0");
        reveal_strlit("1");
        reveal_strlit("2");
        reveal_strlit("3");
        reveal_strlit("4");
        reveal_strlit("5");
        reveal_strlit("6");
        reveal_strlit("7");
        reveal_strlit("8");
        reveal_strlit("9");
    }
    let text = match d {
        0 => "0",
        1 => "1",
        2 => "2",
        3 => "3",
        4 => "4",
        5 => "5",
        6 => "6",
        7 => "7",
        8 => "8",
        _ => "9",
    };
    assert(text@ =~= seq![digit(d as nat)]);
    text
}

/// A number in decimal.
pub fn decimal_text(n: u64) -> (text: String)
    ensures
        text@ == decimal(n as nat),
    decreases n,
{
    if n < 10 {
        digit_text(n).to_owned()
    } else {
        let mut text = decimal_text(n / 10);
        text.append(digit_text(n % 10));
        assert(text@ =~= decimal((n / 10) as nat).push(digit((n % 10) as nat)));
        text
    }
}

/// A number in decimal, padded with a zero to two places.
pub fn two_place_text(n: u64) -> (text: String)
    ensures
        text@ == two_places(n as nat),
{
    if n < 10 {
        proof {
            reveal_strlit("0");
        }
        let mut text = "0".to_owned();
        text.append(digit_text(n));
        assert(text@ =~= seq!['0', digit(n as nat)]);
        text
    } else {
        decimal_text(n)
    }
}

/// What follows a prefix, where the text starts with it.
pub open spec fn after_prefix(text: Seq<char>, prefix: Seq<char>) -> Option<Seq<char>> {
    if prefix.len() <= text.len() && text.take(prefix.len() as int) == prefix {
        Some(text.skip(prefix.len() as int))
    } else {
        None
    }
}

/// What follows a prefix, where the text starts with it.
pub fn strip<'a>(text: &'a str, prefix: &str) -> (rest: Option<&'a str>)
    ensures
        match rest {
            Some(r) => after_prefix(text@, prefix@) == Some(r@),
            None => after_prefix(text@, prefix@) is None,
        },
{
    let whole: usize = text.unicode_len();
    let cut: usize = prefix.unicode_len();
    if cut > whole {
        return None;
    }
    if !same_text(text.substring_char(0, cut), prefix) {
        assert(text@.subrange(0, cut as int) =~= text@.take(cut as int));
        return None;
    }
    assert(text@.subrange(0, cut as int) =~= text@.take(cut as int));
    let rest = text.substring_char(cut, whole);
    assert(rest@ =~= text@.skip(cut as int));
    Some(rest)
}

pub open spec fn is_digit(c: char) -> bool {
    '0' <= c && c <= '9'
}

/// What a digit is worth.
pub open spec fn worth(c: char) -> nat {
    if is_digit(c) {
        (c as int - 48) as nat
    } else {
        0
    }
}

/// Whether a text is decimal digits, and at least one.
pub open spec fn all_digits(text: Seq<char>) -> bool {
    text.len() > 0 && forall|i: int| 0 <= i < text.len() ==> is_digit(#[trigger] text[i])
}

/// The number that decimal digits spell.
pub open spec fn spelled_number(text: Seq<char>) -> nat
    decreases text.len(),
{
    if text.len() == 0 {
        0
    } else {
        10 * spelled_number(text.drop_last()) + worth(text.last())
    }
}

/// A text without a plus sign in front.
pub open spec fn unsigned(text: Seq<char>) -> Seq<char> {
    if text.len() > 0 && text[0] == '+' {
        text.skip(1)
    } else {
        text
    }
}

/// The number a text spells, where a byte holds it: decimal digits, with or
/// without a plus sign in front.
pub open spec fn byte_number(text: Seq<char>) -> Option<u8> {
    let digits = unsigned(text);
    if all_digits(digits) && spelled_number(digits) <= u8::MAX {
        Some(spelled_number(digits) as u8)
    } else {
        None
    }
}

/// The number a text spells, where a byte holds it.
pub fn parse_byte(text: &str) -> (number: Option<u8>)
    ensures
        number == byte_number(text@),
{
    let len: usize = text.unicode_len();
    let mut at: usize = 0;
    if len > 0 && text.get_char(0) == '+' {
        at = 1;
    }
    let ghost digits = unsigned(text@);
    assert(text@.skip(0) =~= text@);
    assert(digits == text@.skip(at as int));
    let ghost start = at as int;
    if at >= len {
        return None;
    }
    let mut number: u32 = 0;
    while at < len
        invariant
            start <= at <= len,
            0 <= start <= 1,
            start < len,
            len == text@.len(),
            digits == text@.skip(start),
            digits == unsigned(text@),
            number <= u8::MAX,
            number == spelled_number(digits.take(at - start)),
            forall|i: int| 0 <= i < at - start ==> is_digit(#[trigger] digits[i]),
        decreases len - at,
    {
        let c = text.get_char(at);
        let ghost seen = digits.take(at - start);
        assert(digits[at - start] == c);
        if c < '0' || c > '9' {
            assert(!is_digit(digits[at - start]));
            return None;
        }
        number = 10 * number + (c as u32 - 48);
        at = at + 1;
        proof {
            assert(digits.take(at - start) =~= seen.push(c));
            assert(seen.push(c).drop_last() =~= seen);
        }
        if number > 255 {
            proof {
                lemma_prefix_is_no_larger(digits, at - start);
            }
            return None;
        }
    }
    assert(digits.take(at - start) =~= digits);
    Some(number as u8)
}

proof fn lemma_prefix_is_no_larger(text: Seq<char>, cut: int)
    requires
        0 <= cut <= text.len(),
    ensures
        spelled_number(text.take(cut)) <= spelled_number(text),
    decreases text.len(),
{
    if cut == text.len() {
        assert(text.take(cut) =~= text);
    } else {
        lemma_prefix_is_no_larger(text.drop_last(), cut);
        assert(text.drop_last().take(cut) =~= text.take(cut));
    }
}

/// A number reads back from its decimal digits, padded or not.
pub proof fn law_numbers_read_back(n: u8)
    ensures
        byte_number(decimal(n as nat)) == Some(n),
        byte_number(two_places(n as nat)) == Some(n),
{
    lemma_decimal_spells(n as nat);
    if n < 10 {
        let padded = two_places(n as nat);
        assert(padded.drop_last() =~= seq!['0']);
        assert(seq!['0'].drop_last() =~= Seq::<char>::empty());
        assert(spelled_number(Seq::<char>::empty()) == 0);
        assert(spelled_number(seq!['0']) == 0);
        assert(spelled_number(padded) == n);
    }
}

proof fn lemma_decimal_spells(n: nat)
    ensures
        all_digits(decimal(n)),
        spelled_number(decimal(n)) == n,
        decimal(n)[0] != '+',
    decreases n,
{
    if n < 10 {
        assert(decimal(n).drop_last() =~= Seq::<char>::empty());
        assert(spelled_number(Seq::<char>::empty()) == 0);
    } else {
        lemma_decimal_spells(n / 10);
        let front = decimal(n / 10);
        assert(decimal(n).drop_last() =~= front);
        assert forall|i: int| 0 <= i < decimal(n).len() implies is_digit(#[trigger] decimal(n)[i]) by {
            if i < front.len() {
                assert(decimal(n)[i] == front[i]);
            }
        }
        assert(decimal(n)[0] == front[0]);
    }
}

/// Texts in turn, with a separator between them.
pub open spec fn joined(parts: Seq<Seq<char>>, separator: Seq<char>) -> Seq<char>
    decreases parts.len(),
{
    if parts.len() == 0 {
        Seq::empty()
    } else if parts.len() == 1 {
        parts[0]
    } else {
        joined(parts.drop_last(), separator) + separator + parts.last()
    }
}

/// Texts in turn, with a separator between them.
pub fn join(parts: &Vec<String>, separator: &str) -> (text: String)
    ensures
        text@ == joined(parts.deep_view(), separator@),
{
    let ghost views = parts.deep_view();
    let mut text = String::new();
    let mut at: usize = 0;
    while at < parts.len()
        invariant
            at <= parts@.len(),
            views == parts.deep_view(),
            text@ == joined(views.take(at as int), separator@),
        decreases parts@.len() - at,
    {
        if at > 0 {
            text.append(separator);
        }
        text.append(parts[at].as_str());
        proof {
            let grown = views.take(at + 1);
            assert(grown.drop_last() =~= views.take(at as int));
            assert(text@ =~= joined(grown, separator@));
        }
        at = at + 1;
    }
    assert(views.take(at as int) =~= views);
    text
}

/// A number's last digit is its remainder by ten and the digits before it are the
/// rest of it; two numbers never share their digits, and none but zero starts with
/// a zero. Padded to two places it has at least two, and two below a hundred.
pub proof fn law_digits_are_the_numbers(n: nat, other: nat)
    ensures
        n < 10 ==> decimal(n) == seq![('0' as nat + n) as char],
        n >= 10 ==> decimal(n) == decimal(n / 10) + decimal(n % 10),
        decimal(n) == decimal(other) ==> n == other,
        n > 0 ==> decimal(n)[0] != '0',
        two_places(n).len() >= 2,
        n < 100 ==> two_places(n).len() == 2,
        n < 10 ==> two_places(n) == seq!['0'] + decimal(n),
        n >= 10 ==> two_places(n) == decimal(n),
    decreases n,
{
    lemma_decimal_spells(n);
    lemma_decimal_spells(other);
    if n >= 10 {
        law_digits_are_the_numbers(n / 10, n / 10);
        assert(decimal(n) =~= decimal(n / 10) + decimal(n % 10));
        assert(decimal(n)[0] == decimal(n / 10)[0]);
    } else {
        assert(n < 10 ==> two_places(n) =~= seq!['0'] + decimal(n));
    }
}

/// Joining two lists of texts is joining each and putting the separator between;
/// one text joined is itself.
pub proof fn law_joins_add_up(a: Seq<Seq<char>>, b: Seq<Seq<char>>, separator: Seq<char>)
    requires
        a.len() > 0,
        b.len() > 0,
    ensures
        joined(a + b, separator) == joined(a, separator) + separator + joined(b, separator),
        a.len() == 1 ==> joined(a, separator) == a[0],
        joined(Seq::<Seq<char>>::empty(), separator) == Seq::<char>::empty(),
    decreases b.len(),
{
    let all = a + b;
    assert(all.drop_last() =~= a + b.drop_last());
    assert(all.last() == b.last());
    if b.len() > 1 {
        law_joins_add_up(a, b.drop_last(), separator);
        assert(joined(all, separator) =~= joined(a, separator) + separator + joined(b, separator));
    } else {
        assert(a + b.drop_last() =~= a);
    }
}

/// What follows a prefix is what was put behind it, and a text that starts
/// otherwise has none.
pub proof fn law_a_prefix_comes_off(text: Seq<char>, prefix: Seq<char>, rest: Seq<char>)
    ensures
        after_prefix(prefix + rest, prefix) == Some(rest),
        after_prefix(text, prefix) matches Some(found) ==> text == prefix + found,
        after_prefix(text, prefix) is None ==> text != prefix + rest,
{
    assert((prefix + rest).take(prefix.len() as int) =~= prefix);
    assert((prefix + rest).skip(prefix.len() as int) =~= rest);
    if after_prefix(text, prefix) is Some {
        assert(text =~= text.take(prefix.len() as int) + text.skip(prefix.len() as int));
    }
}

} // verus!
