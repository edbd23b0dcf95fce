//! Text operations, stated over sequences of characters.

use vstd::prelude::*;
use vstd::std_specs::iter::IteratorSpec;
use vstd::string::*;
use vstd::utf8::*;

verus! {

/// `String::push` appends one character to the end of the text.
pub assume_specification[ std::string::String::push ](text: &mut std::string::String, c: char)
    ensures
        final(text)@ == old(text)@.push(c),
;

/// The contents of a list of texts.
pub open spec fn texts(list: Seq<String>) -> Seq<Seq<char>> {
    list.map_values(|text: String| text@)
}

/// The characters of a text.
pub fn chars_of(text: &str) -> (chars: Vec<char>)
    ensures
        chars@ == text@,
{
    let mut chars: Vec<char> = Vec::new();
    for c in it: text.chars()
        invariant
            it.seq() == text@,
            chars@ == text@.take(it.index() as int),
    {
        chars.push(c);
        assert(text@.take(it.index() + 1) =~= text@.take(it.index() as int).push(c));
    }
    assert(text@.take(text@.len() as int) =~= text@);
    chars
}

/// The text made of the characters from `from` up to, but not including, `to`.
pub fn text_between(chars: &Vec<char>, from: usize, to: usize) -> (text: String)
    requires
        from <= to <= chars@.len(),
    ensures
        text@ == chars@.subrange(from as int, to as int),
{
    let mut text = String::new();
    let mut i = from;
    while i < to
        invariant
            from <= i <= to <= chars@.len(),
            text@ == chars@.subrange(from as int, i as int),
        decreases to - i,
    {
        text.push(chars[i]);
        i = i + 1;
        assert(chars@.subrange(from as int, i as int) =~= chars@.subrange(from as int, i - 1).push(chars@[i - 1]));
    }
    text
}

/// Whether two texts hold the same characters.
pub fn text_eq(a: &str, b: &str) -> (same: bool)
    ensures
        same == (a@ == b@),
{
    let x = a.as_bytes();
    let y = b.as_bytes();
    proof {
        encode_utf8_decode_utf8(a@);
        encode_utf8_decode_utf8(b@);
    }
    if x.len() != y.len() {
        return false;
    }
    let n = x.len();
    let mut i: usize = 0;
    while i < n
        invariant
            i <= n,
            n == x@.len(),
            n == y@.len(),
            x@ == encode_utf8(a@),
            y@ == encode_utf8(b@),
            forall|j: int| 0 <= j < i ==> x@[j] == y@[j],
        decreases n - i,
    {
        if x[i] != y[i] {
            return false;
        }
        i = i + 1;
    }
    assert(x@ =~= y@);
    true
}

/// Whether `text` begins with `prefix`.
pub open spec fn has_prefix(text: Seq<char>, prefix: Seq<char>) -> bool {
    prefix.len() <= text.len() && text.take(prefix.len() as int) == prefix
}

/// Whether `text` begins with `prefix`.
pub fn starts_with(text: &str, prefix: &str) -> (found: bool)
    ensures
        found == has_prefix(text@, prefix@),
{
    let mut left = text.chars();
    let mut right = prefix.chars();
    let ghost mut n: int = 0;
    loop
        invariant
            0 <= n <= prefix@.len(),
            n <= text@.len(),
            left.remaining() == text@.skip(n),
            right.remaining() == prefix@.skip(n),
            left.obeys_prophetic_iter_laws(),
            right.obeys_prophetic_iter_laws(),
            text@.take(n) == prefix@.take(n),
        decreases prefix@.len() - n,
    {
        match right.next() {
            None => {
                assert(prefix@.take(n) =~= prefix@);
                return true;
            },
            Some(expected) => {
                match left.next() {
                    None => {
                        return false;
                    },
                    Some(actual) => {
                        if actual != expected {
                            proof {
                                if prefix@.len() <= text@.len() {
                                    assert(text@.take(prefix@.len() as int)[n] == actual);
                                }
                            }
                            return false;
                        }
                        proof {
                            assert(text@.take(n + 1) =~= text@.take(n).push(actual));
                            assert(prefix@.take(n + 1) =~= prefix@.take(n).push(expected));
                            n = n + 1;
                        }
                    },
                }
            },
        }
    }
}

/// The lower-case form of an ASCII letter; any other character is itself.
pub open spec fn lower_char(c: char) -> char {
    if 'A' <= c && c <= 'Z' {
        ((c as u8) + 32) as char
    } else {
        c
    }
}

/// `text` with its ASCII letters in lower case.
pub open spec fn lower(text: Seq<char>) -> Seq<char> {
    text.map_values(|c: char| lower_char(c))
}

/// `text` with its ASCII letters in lower case.
pub fn to_lower(text: &str) -> (result: String)
    ensures
        result@ == lower(text@),
{
    let mut result = String::new();
    for c in it: text.chars()
        invariant
            it.seq() == text@,
            result@ == lower(text@.take(it.index() as int)),
    {
        let small = if 'A' <= c && c <= 'Z' {
            (c as u8 + 32) as char
        } else {
            c
        };
        result.push(small);
        assert(lower(text@.take(it.index() + 1)) =~= lower(text@.take(it.index() as int)).push(lower_char(c)));
    }
    assert(text@.take(text@.len() as int) =~= text@);
    result
}

/// The position of the first `c` in `text`, or the length of `text` if there is none.
pub open spec fn first_pos(text: Seq<char>, c: char) -> int
    decreases text.len(),
{
    if text.len() == 0 || text[0] == c {
        0
    } else {
        1 + first_pos(text.skip(1), c)
    }
}

pub(crate) proof fn lemma_first_pos(text: Seq<char>, c: char)
    ensures
        0 <= first_pos(text, c) <= text.len(),
        forall|i: int| 0 <= i < first_pos(text, c) ==> text[i] != c,
        first_pos(text, c) < text.len() ==> text[first_pos(text, c)] == c,
    decreases text.len(),
{
    if text.len() == 0 || text[0] == c {
    } else {
        let rest = text.skip(1);
        lemma_first_pos(rest, c);
        assert forall|i: int| 0 <= i < first_pos(text, c) implies text[i] != c by {
            if i > 0 {
                assert(rest[i - 1] == text[i]);
            }
        }
        if first_pos(text, c) < text.len() {
            assert(rest[first_pos(rest, c)] == text[first_pos(text, c)]);
        }
    }
}

pub(crate) proof fn lemma_first_pos_is(text: Seq<char>, c: char, at: int)
    requires
        0 <= at <= text.len(),
        forall|i: int| 0 <= i < at ==> text[i] != c,
        at < text.len() ==> text[at] == c,
    ensures
        first_pos(text, c) == at,
{
    lemma_first_pos(text, c);
    let p = first_pos(text, c);
    if p < at {
        assert(text[p] != c);
    }
    if at < p {
        assert(text[at] != c);
    }
}

/// The position of the first `c` at or after `from`, or the length of `chars` if there is none.
pub fn find_char(chars: &Vec<char>, c: char, from: usize) -> (at: usize)
    requires
        from <= chars@.len(),
    ensures
        from <= at <= chars@.len(),
        at == from + first_pos(chars@.skip(from as int), c),
{
    let mut i = from;
    while i < chars.len() && chars[i] != c
        invariant
            from <= i <= chars@.len(),
            forall|j: int| from <= j < i ==> chars@[j] != c,
        decreases chars@.len() - i,
    {
        i = i + 1;
    }
    proof {
        lemma_first_pos_is(chars@.skip(from as int), c, i - from);
    }
    i
}

/// The parts of `text` before and after the first `c`, if there is one.
pub open spec fn split_pair(text: Seq<char>, c: char) -> Option<(Seq<char>, Seq<char>)> {
    let at = first_pos(text, c);
    if at < text.len() {
        Some((text.take(at), text.skip(at + 1)))
    } else {
        None
    }
}

/// The parts of `text` before and after the first `c`, if there is one.
pub fn split_once(text: &str, c: char) -> (parts: Option<(String, String)>)
    ensures
        parts is Some == split_pair(text@, c) is Some,
        parts matches Some(p) ==> Some((p.0@, p.1@)) == split_pair(text@, c),
{
    let chars = chars_of(text);
    let at = find_char(&chars, c, 0);
    assert(chars@.skip(0) =~= text@);
    if at < chars.len() {
        let before = text_between(&chars, 0, at);
        let after = text_between(&chars, at + 1, chars.len());
        assert(before@ =~= text@.take(at as int));
        assert(after@ =~= text@.skip(at + 1));
        Some((before, after))
    } else {
        None
    }
}

/// The pieces of `text` between the occurrences of `c`.
pub open spec fn pieces(text: Seq<char>, c: char) -> Seq<Seq<char>>
    decreases text.len(),
    via pieces_decreases
{
    let at = first_pos(text, c);
    if at < text.len() {
        seq![text.take(at)] + pieces(text.skip(at + 1), c)
    } else {
        seq![text]
    }
}

#[via_fn]
proof fn pieces_decreases(text: Seq<char>, c: char) {
    lemma_first_pos(text, c);
}

/// The characters with the Unicode White_Space property.
pub open spec fn whitespace(c: char) -> bool {
    ||| '\u{9}' <= c <= '\u{d}'
    ||| c == ' '
    ||| c == '\u{85}'
    ||| c == '\u{a0}'
    ||| c == '\u{1680}'
    ||| '\u{2000}' <= c <= '\u{200a}'
    ||| c == '\u{2028}'
    ||| c == '\u{2029}'
    ||| c == '\u{202f}'
    ||| c == '\u{205f}'
    ||| c == '\u{3000}'
}

/// Whether `c` has the Unicode White_Space property.
pub fn is_whitespace(c: char) -> (result: bool)
    ensures
        result == whitespace(c),
{
    ('\u{9}' <= c && c <= '\u{d}') || c == ' ' || c == '\u{85}' || c == '\u{a0}' || c == '\u{1680}' || (
    '\u{2000}' <= c && c <= '\u{200a}') || c == '\u{2028}' || c == '\u{2029}' || c == '\u{202f}' || c
        == '\u{205f}' || c == '\u{3000}'
}

/// `text` without the white space at its start.
pub open spec fn trim_start(text: Seq<char>) -> Seq<char>
    decreases text.len(),
{
    if text.len() > 0 && whitespace(text[0]) {
        trim_start(text.skip(1))
    } else {
        text
    }
}

/// `text` without the white space at its end.
pub open spec fn trim_end(text: Seq<char>) -> Seq<char>
    decreases text.len(),
{
    if text.len() > 0 && whitespace(text.last()) {
        trim_end(text.drop_last())
    } else {
        text
    }
}

/// `text` without the white space at its start and end.
pub open spec fn trimmed(text: Seq<char>) -> Seq<char> {
    trim_end(trim_start(text))
}

/// `text` without the white space at its start and end.
pub fn trim(text: &str) -> (result: String)
    ensures
        result@ == trimmed(text@),
{
    let chars = chars_of(text);
    let mut from: usize = 0;
    assert(chars@.skip(0) =~= chars@);
    while from < chars.len() && is_whitespace(chars[from])
        invariant
            from <= chars@.len(),
            trim_start(chars@) == trim_start(chars@.skip(from as int)),
        decreases chars@.len() - from,
    {
        assert(chars@.skip(from as int).skip(1) =~= chars@.skip(from + 1));
        from = from + 1;
    }
    let mut to = chars.len();
    assert(chars@.subrange(from as int, to as int) =~= chars@.skip(from as int));
    while from < to && is_whitespace(chars[to - 1])
        invariant
            from <= to <= chars@.len(),
            trimmed(chars@) == trim_end(chars@.subrange(from as int, to as int)),
        decreases to,
    {
        assert(chars@.subrange(from as int, to as int).drop_last() =~= chars@.subrange(from as int, to - 1));
        to = to - 1;
    }
    text_between(&chars, from, to)
}

/// The decimal digits of a number, without leading zeros.
pub open spec fn decimal(n: nat) -> Seq<char>
    decreases n,
{
    if n < 10 {
        seq![('0' as u8 + n) as char]
    } else {
        decimal(n / 10).push(('0' as u8 + n % 10) as char)
    }
}

/// The decimal form of a number, with a minus sign if it is negative.
pub open spec fn signed_decimal(n: int) -> Seq<char> {
    if n < 0 {
        seq!['-'] + decimal((-n) as nat)
    } else {
        decimal(n as nat)
    }
}

/// The decimal digits of a number, without leading zeros.
pub fn number_text(n: u64) -> (text: String)
    ensures
        text@ == decimal(n as nat),
    decreases n,
{
    let digit = (48u8 + (n % 10) as u8) as char;
    if n < 10 {
        let mut text = String::new();
        text.push(digit);
        assert(text@ =~= seq![digit]);
        text
    } else {
        let mut text = number_text(n / 10);
        text.push(digit);
        text
    }
}

/// The decimal form of a number, with a minus sign if it is negative.
pub fn signed_text(n: i64) -> (text: String)
    ensures
        text@ == signed_decimal(n as int),
{
    if n >= 0 {
        number_text(n as u64)
    } else {
        let mut text = String::new();
        text.push('-');
        let magnitude: u64 = if n == i64::MIN {
            0x8000_0000_0000_0000
        } else {
            (-n) as u64
        };
        let digits = number_text(magnitude);
        text.append(digits.as_str());
        assert(text@ =~= signed_decimal(n as int));
        text
    }
}

/// The texts of `list`, with `separator` between each two.
pub open spec fn joined(list: Seq<Seq<char>>, separator: Seq<char>) -> Seq<char>
    decreases list.len(),
{
    if list.len() == 0 {
        Seq::empty()
    } else if list.len() == 1 {
        list[0]
    } else {
        joined(list.drop_last(), separator) + separator + list.last()
    }
}

/// The texts of `list`, with `separator` between each two.
pub fn join(list: &Vec<String>, separator: &str) -> (text: String)
    ensures
        text@ == joined(texts(list@), separator@),
{
    let mut text = String::new();
    let mut i: usize = 0;
    assert(texts(list@).take(0) =~= Seq::<Seq<char>>::empty());
    while i < list.len()
        invariant
            i <= list@.len(),
            text@ == joined(texts(list@).take(i as int), separator@),
        decreases list@.len() - i,
    {
        if i > 0 {
            text.append(separator);
        }
        text.append(list[i].as_str());
        proof {
            let before = texts(list@).take(i as int);
            let after = texts(list@).take(i + 1);
            assert(after.drop_last() =~= before);
            assert(after.last() == list@[i as int]@);
            if i == 0 {
                assert(text@ =~= after[0]);
            } else {
                assert(text@ =~= joined(before, separator@) + separator@ + after.last());
            }
        }
        i = i + 1;
    }
    assert(texts(list@).take(list@.len() as int) =~= texts(list@));
    text
}

/// Whether `a` comes before `b` in the order of their characters.
pub open spec fn precedes(a: Seq<char>, b: Seq<char>) -> bool
    decreases a.len(),
{
    if b.len() == 0 {
        false
    } else if a.len() == 0 {
        true
    } else if a[0] != b[0] {
        a[0] < b[0]
    } else {
        precedes(a.skip(1), b.skip(1))
    }
}

/// Whether `a` comes before `b` in the order of their characters.
pub fn text_before(a: &str, b: &str) -> (result: bool)
    ensures
        result == precedes(a@, b@),
{
    let mut left = a.chars();
    let mut right = b.chars();
    let ghost mut n: int = 0;
    assert(a@.skip(0) =~= a@);
    assert(b@.skip(0) =~= b@);
    loop
        invariant
            0 <= n <= a@.len(),
            n <= b@.len(),
            left.remaining() == a@.skip(n),
            right.remaining() == b@.skip(n),
            left.obeys_prophetic_iter_laws(),
            right.obeys_prophetic_iter_laws(),
            precedes(a@, b@) == precedes(a@.skip(n), b@.skip(n)),
        decreases a@.len() - n,
    {
        let y = match right.next() {
            None => {
                return false;
            },
            Some(y) => y,
        };
        let x = match left.next() {
            None => {
                return true;
            },
            Some(x) => x,
        };
        if x != y {
            return x < y;
        }
        proof {
            assert(a@.skip(n).skip(1) =~= a@.skip(n + 1));
            assert(b@.skip(n).skip(1) =~= b@.skip(n + 1));
            n = n + 1;
        }
    }
}

/// Whether `part` occurs in `text`.
pub open spec fn occurs_in(part: Seq<char>, text: Seq<char>) -> bool {
    exists|i: int|
        0 <= i && i + part.len() <= text.len() && #[trigger] text.subrange(i, i + part.len()) == part
}

/// Whether `part` occurs in `text`.
pub fn contains(text: &str, part: &str) -> (found: bool)
    ensures
        found == occurs_in(part@, text@),
{
    let whole = chars_of(text);
    let wanted = chars_of(part);
    let n = wanted.len();
    if n > whole.len() {
        return false;
    }
    let last = whole.len() - n;
    let mut i: usize = 0;
    while i <= last
        invariant
            whole@ == text@,
            wanted@ == part@,
            n == part@.len(),
            last + n == text@.len(),
            text@.len() <= usize::MAX,
            i <= last + 1,
            forall|j: int|
                0 <= j < i ==> #[trigger] text@.subrange(j, j + part@.len()) != part@,
        decreases last + 1 - i,
    {
        let mut k: usize = 0;
        while k < n && whole[i + k] == wanted[k]
            invariant
                whole@ == text@,
                wanted@ == part@,
                n == part@.len(),
                i + n <= text@.len(),
                text@.len() <= usize::MAX,
                k <= n,
                forall|j: int| 0 <= j < k ==> text@[i + j] == #[trigger] part@[j],
            decreases n - k,
        {
            k = k + 1;
        }
        if k == n {
            assert(text@.subrange(i as int, i + part@.len()) =~= part@);
            return true;
        }
        assert(text@.subrange(i as int, i + part@.len())[k as int] != part@[k as int]);
        if i == last {
            return false;
        }
        i = i + 1;
    }
    false
}

proof fn lemma_trim_start(text: Seq<char>) -> (n: int)
    ensures
        0 <= n <= text.len(),
        trim_start(text) == text.skip(n),
        forall|i: int| 0 <= i < n ==> whitespace(#[trigger] text[i]),
        n < text.len() ==> !whitespace(text[n]),
    decreases text.len(),
{
    if text.len() > 0 && whitespace(text[0]) {
        let rest = text.skip(1);
        let n = lemma_trim_start(rest);
        assert(rest.skip(n) =~= text.skip(n + 1));
        assert forall|i: int| 0 <= i < n + 1 implies whitespace(#[trigger] text[i]) by {
            if i > 0 {
                assert(rest[i - 1] == text[i]);
            }
        }
        if n < rest.len() {
            assert(rest[n] == text[n + 1]);
        }
        n + 1
    } else {
        assert(text.skip(0) =~= text);
        0
    }
}

proof fn lemma_trim_end(text: Seq<char>) -> (n: int)
    ensures
        0 <= n <= text.len(),
        trim_end(text) == text.take(n),
        forall|i: int| n <= i < text.len() ==> whitespace(#[trigger] text[i]),
        n > 0 ==> !whitespace(text[n - 1]),
    decreases text.len(),
{
    if text.len() > 0 && whitespace(text.last()) {
        let rest = text.drop_last();
        let n = lemma_trim_end(rest);
        assert(rest.take(n) =~= text.take(n));
        assert forall|i: int| n <= i < text.len() implies whitespace(#[trigger] text[i]) by {
            if i < rest.len() {
                assert(rest[i] == text[i]);
            }
        }
        n
    } else {
        assert(text.take(text.len() as int) =~= text);
        text.len() as int
    }
}

/// Trimming takes the white space around a text away and nothing else: what is left is a part of the
/// text, has none at its ends, and all that was taken is white space.
pub proof fn law_trimming_takes_white_space_alone(text: Seq<char>)
    ensures
        exists|from: int, to: int|
            {
                &&& 0 <= from <= to <= text.len()
                &&& trimmed(text) == #[trigger] text.subrange(from, to)
                &&& forall|i: int| 0 <= i < from ==> whitespace(#[trigger] text[i])
                &&& forall|i: int| to <= i < text.len() ==> whitespace(#[trigger] text[i])
            },
        trimmed(text).len() > 0 ==> !whitespace(trimmed(text)[0]) && !whitespace(
            trimmed(text).last(),
        ),
{
    let from = lemma_trim_start(text);
    let rest = text.skip(from);
    let n = lemma_trim_end(rest);
    let to = from + n;
    assert(rest.take(n) =~= text.subrange(from, to));
    assert forall|i: int| to <= i < text.len() implies whitespace(#[trigger] text[i]) by {
        assert(rest[i - from] == text[i]);
    }
    if n > 0 {
        assert(rest[0] == text[from]);
    }
}

/// Lower case changes the capital letters of ASCII to the small ones, character by character, and
/// leaves every other character.
pub proof fn law_lower_case(text: Seq<char>, i: int)
    requires
        0 <= i < text.len(),
    ensures
        lower(text).len() == text.len(),
        !('A' <= text[i] <= 'Z') ==> lower(text)[i] == text[i],
        text[i] == 'A' ==> lower(text)[i] == 'a',
        text[i] == 'M' ==> lower(text)[i] == 'm',
        text[i] == 'Z' ==> lower(text)[i] == 'z',
        'A' <= text[i] <= 'Z' ==> lower(text)[i] as int == text[i] as int + 32,
{
    let c = text[i];
    assert(lower(text)[i] == lower_char(c));
}

/// The two parts of a text around the first of a character, put together again, are the text, and
/// the first part does not hold the character.
pub proof fn law_split_parts_make_the_text(text: Seq<char>, c: char)
    ensures
        split_pair(text, c) is None <==> !text.contains(c),
        split_pair(text, c) matches Some((first, last)) ==> text == first.push(c) + last
            && !first.contains(c),
{
    lemma_first_pos(text, c);
    let at = first_pos(text, c);
    if at < text.len() {
        assert(text[at] == c);
        assert(text =~= text.take(at).push(c) + text.skip(at + 1));
        assert forall|i: int| 0 <= i < at implies text.take(at)[i] != c by {
            assert(text[i] != c);
        }
    } else if text.contains(c) {
        let i = choose|i: int| 0 <= i < text.len() && text[i] == c;
        assert(text[i] != c);
    }
}

/// The pieces of a text, with the character between each two, are the text.
pub proof fn law_pieces_make_the_text(text: Seq<char>, c: char)
    ensures
        joined(pieces(text, c), seq![c]) == text,
        forall|i: int|
            0 <= i < pieces(text, c).len() ==> !(#[trigger] pieces(text, c)[i]).contains(c),
    decreases text.len(),
{
    lemma_first_pos(text, c);
    let at = first_pos(text, c);
    if at < text.len() {
        let rest = text.skip(at + 1);
        law_pieces_make_the_text(rest, c);
        lemma_joined_first(text.take(at), pieces(rest, c), seq![c]);
        lemma_some_piece(rest, c);
        assert(text =~= text.take(at) + seq![c] + rest);
        assert forall|i: int| 0 <= i < pieces(text, c).len() implies !(#[trigger] pieces(
            text,
            c,
        )[i]).contains(c) by {
            if i == 0 {
                assert forall|j: int| 0 <= j < at implies text.take(at)[j] != c by {
                    assert(text[j] != c);
                }
            } else {
                assert(pieces(text, c)[i] == pieces(rest, c)[i - 1]);
            }
        }
    } else {
        assert(pieces(text, c) =~= seq![text]);
        if text.contains(c) {
            let i = choose|i: int| 0 <= i < text.len() && text[i] == c;
            assert(text[i] != c);
        }
    }
}

proof fn lemma_some_piece(text: Seq<char>, c: char)
    ensures
        pieces(text, c).len() > 0,
{
}

proof fn lemma_joined_first(first: Seq<char>, rest: Seq<Seq<char>>, separator: Seq<char>)
    requires
        rest.len() > 0,
    ensures
        joined(seq![first] + rest, separator) == first + separator + joined(rest, separator),
    decreases rest.len(),
{
    let all = seq![first] + rest;
    if rest.len() == 1 {
        assert(all.drop_last() =~= seq![first]);
        assert(all.last() == rest[0]);
        assert(joined(seq![first], separator) == first);
        assert(joined(rest, separator) == rest[0]);
    } else {
        let short = rest.drop_last();
        lemma_joined_first(first, short, separator);
        assert(all.drop_last() =~= seq![first] + short);
        assert(all.last() == rest.last());
        assert(first + separator + joined(short, separator) + separator + rest.last() =~= first
            + separator + (joined(short, separator) + separator + rest.last()));
    }
}

proof fn lemma_trim_blank(text: Seq<char>, c: char)
    requires
        whitespace(c),
    ensures
        trim_start(text).len() == 0 ==> trim_start(text.push(c)).len() == 0,
        trim_start(text).len() > 0 ==> trim_start(text.push(c)) == trim_start(text).push(c),
    decreases text.len(),
{
    let longer = text.push(c);
    if text.len() == 0 {
        assert(longer.skip(1) =~= Seq::<char>::empty());
        assert(trim_start(longer.skip(1)).len() == 0);
    } else if whitespace(text[0]) {
        lemma_trim_blank(text.skip(1), c);
        assert(longer.skip(1) =~= text.skip(1).push(c));
    }
}

pub(crate) proof fn lemma_trim_both(text: Seq<char>, c: char)
    requires
        whitespace(c),
    ensures
        trimmed(text.push(c)) == trimmed(text),
{
    lemma_trim_blank(text, c);
    let rest = trim_start(text);
    if rest.len() > 0 {
        assert(rest.push(c).drop_last() =~= rest);
    } else {
        assert(trim_start(text.push(c)) =~= rest);
    }
}

}
