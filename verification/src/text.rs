//! Work on text that the rest of the library shares: case-blind search, and
//! the list of tags as one field of delimited text.

use vstd::prelude::*;

verus! {

/// `String::push`: appends one character.
#[verifier::external_body]
pub(crate) fn push_char(text: &mut String, c: char)
    ensures
        final(text)@ == old(text)@.push(c),
{
    text.push(c);
}

/// The Unicode lowercase form of a text.
pub uninterp spec fn lowercase(text: Seq<char>) -> Seq<char>;

/// `str::to_lowercase`: the lowercase equivalent of the text, as Unicode
/// defines it.
pub assume_specification[ str::to_lowercase ](text: &str) -> (lower: String)
    ensures
        lower@ == lowercase(text@),
;

/// A text without the Unicode white space at its start and at its end.
pub uninterp spec fn trimmed(text: Seq<char>) -> Seq<char>;

/// `str::trim`: the text without leading and trailing white space, as the
/// Unicode property `White_Space` defines it.
pub assume_specification[ str::trim ](text: &str) -> (inner: &str)
    ensures
        inner@ == trimmed(text@),
;

/// `needle` occurs in `haystack` as a run of consecutive characters.
pub open spec fn is_substring(needle: Seq<char>, haystack: Seq<char>) -> bool {
    exists|i: int|
        0 <= i <= haystack.len() - needle.len() && #[trigger] haystack.subrange(
            i,
            i + needle.len(),
        ) == needle
}

/// `str::contains` with a string as the pattern: whether the pattern matches
/// a sub-slice of the text.
#[verifier::external_body]
pub(crate) fn str_contains(haystack: &str, needle: &str) -> (found: bool)
    ensures
        found == is_substring(needle@, haystack@),
{
    haystack.contains(needle)
}

/// `query` occurs in `text` when case is ignored: the lowercase form of the
/// one occurs in the lowercase form of the other.
pub open spec fn contains_ignoring_case(text: Seq<char>, query: Seq<char>) -> bool {
    is_substring(lowercase(query), lowercase(text))
}

/// The text of an optional string, if there is one.
pub open spec fn option_text(field: Option<String>) -> Option<Seq<char>> {
    match field {
        Some(text) => Some(text@),
        None => None,
    }
}

/// The texts of a sequence of strings.
pub open spec fn texts(strings: Seq<String>) -> Seq<Seq<char>> {
    Seq::new(strings.len(), |i: int| strings[i]@)
}

/// The parts of `text` between its separators. A text without separator is
/// its own single part; a separator at either end has an empty part beside
/// it.
pub open spec fn split_on(text: Seq<char>, separator: char) -> Seq<Seq<char>>
    decreases text.len(),
{
    if text.len() == 0 {
        seq![Seq::<char>::empty()]
    } else {
        let before = split_on(text.drop_last(), separator);
        if text.last() == separator {
            before.push(Seq::<char>::empty())
        } else {
            before.drop_last().push(before.last().push(text.last()))
        }
    }
}

/// The parts with the separator between each two of them.
pub open spec fn joined(parts: Seq<Seq<char>>, separator: char) -> Seq<char>
    decreases parts.len(),
{
    if parts.len() == 0 {
        Seq::<char>::empty()
    } else if parts.len() == 1 {
        parts[0]
    } else {
        joined(parts.drop_last(), separator).push(separator) + parts.last()
    }
}

/// A split always gives at least one part.
pub proof fn lemma_split_has_parts(text: Seq<char>, separator: char)
    ensures
        split_on(text, separator).len() >= 1,
    decreases text.len(),
{
    if text.len() > 0 {
        lemma_split_has_parts(text.drop_last(), separator);
    }
}

/// Joining the parts of a split gives the text back, and no part holds the
/// separator.
pub proof fn lemma_join_inverts_split(text: Seq<char>, separator: char)
    ensures
        joined(split_on(text, separator), separator) == text,
        forall|k: int|
            0 <= k < split_on(text, separator).len() ==> !(#[trigger] split_on(
                text,
                separator,
            )[k]).contains(separator),
    decreases text.len(),
{
    if text.len() > 0 {
        let rest = text.drop_last();
        let before = split_on(rest, separator);
        let all = split_on(text, separator);
        lemma_join_inverts_split(rest, separator);
        lemma_split_has_parts(rest, separator);
        if text.last() == separator {
            assert(all.drop_last() == before);
            assert(joined(all, separator) == joined(before, separator).push(separator)
                + Seq::<char>::empty());
            assert(rest.push(separator) + Seq::<char>::empty() == text);
        } else {
            let grown = before.last().push(text.last());
            assert(all.last() == grown);
            if before.len() == 1 {
                assert(before[0] == rest);
                assert(all[0] == grown);
                assert(grown == text);
            } else {
                assert(all.drop_last() == before.drop_last());
                let head = joined(before.drop_last(), separator).push(separator);
                assert(joined(before, separator) == head + before.last());
                assert(joined(all, separator) == head + grown);
                assert(head + grown == (head + before.last()).push(text.last()));
                assert(rest.push(text.last()) == text);
            }
        }
        assert forall|k: int| 0 <= k < all.len() implies !(#[trigger] all[k]).contains(
            separator,
        ) by {
            if k < all.len() - 1 {
                assert(all[k] == before[k]);
            } else if text.last() != separator {
                let grown = before.last().push(text.last());
                if grown.contains(separator) {
                    let i = choose|i: int| 0 <= i < grown.len() && grown[i] == separator;
                    assert(before.last()[i] == separator);
                }
            }
        }
    }
}

/// A text without the separator is its own single part.
pub proof fn lemma_split_without_separator(text: Seq<char>, separator: char)
    requires
        !text.contains(separator),
    ensures
        split_on(text, separator) == seq![text],
    decreases text.len(),
{
    if text.len() == 0 {
        assert(text == Seq::<char>::empty());
    } else {
        let rest = text.drop_last();
        assert(text[text.len() - 1] != separator);
        assert forall|i: int| 0 <= i < rest.len() implies rest[i] != separator by {
            assert(text[i] == rest[i]);
        }
        lemma_split_without_separator(rest, separator);
        assert(rest.push(text.last()) == text);
        assert(seq![rest].drop_last().push(text) == seq![text]);
    }
}

/// The parts of two texts with a separator between them are the parts of
/// the one followed by the parts of the other.
pub proof fn lemma_split_around_separator(a: Seq<char>, b: Seq<char>, separator: char)
    ensures
        split_on(a.push(separator) + b, separator) == split_on(a, separator) + split_on(
            b,
            separator,
        ),
    decreases b.len(),
{
    let whole = a.push(separator) + b;
    let left = split_on(a, separator);
    if b.len() == 0 {
        assert(whole == a.push(separator));
        assert(whole.drop_last() == a);
        assert(left.push(Seq::<char>::empty()) == left + seq![Seq::<char>::empty()]);
    } else {
        let rest = b.drop_last();
        lemma_split_around_separator(a, rest, separator);
        lemma_split_has_parts(rest, separator);
        assert(whole.drop_last() == a.push(separator) + rest);
        assert(whole.last() == b.last());
        let before = split_on(rest, separator);
        if b.last() == separator {
            assert((left + before).push(Seq::<char>::empty()) == left + before.push(
                Seq::<char>::empty(),
            ));
        } else {
            let grown = before.last().push(b.last());
            assert((left + before).drop_last() == left + before.drop_last());
            assert((left + before).last() == before.last());
            assert((left + before.drop_last()).push(grown) == left + before.drop_last().push(
                grown,
            ));
        }
    }
}

/// Splitting the joined parts gives the parts back, if there is a part and
/// no part holds the separator.
pub proof fn lemma_split_inverts_join(parts: Seq<Seq<char>>, separator: char)
    requires
        parts.len() >= 1,
        forall|k: int| 0 <= k < parts.len() ==> !(#[trigger] parts[k]).contains(separator),
    ensures
        split_on(joined(parts, separator), separator) == parts,
    decreases parts.len(),
{
    if parts.len() == 1 {
        lemma_split_without_separator(parts[0], separator);
        assert(seq![parts[0]] == parts);
    } else {
        let head = parts.drop_last();
        assert forall|k: int| 0 <= k < head.len() implies !(#[trigger] head[k]).contains(
            separator,
        ) by {
            assert(head[k] == parts[k]);
        }
        lemma_split_inverts_join(head, separator);
        lemma_split_around_separator(joined(head, separator), parts.last(), separator);
        lemma_split_without_separator(parts.last(), separator);
        assert(head + seq![parts.last()] == parts);
    }
}

/// A character that is neither the separator nor in any part is not in the
/// joined parts.
pub proof fn lemma_joined_lacks(parts: Seq<Seq<char>>, separator: char, c: char)
    requires
        c != separator,
        forall|k: int| 0 <= k < parts.len() ==> !(#[trigger] parts[k]).contains(c),
    ensures
        !joined(parts, separator).contains(c),
    decreases parts.len(),
{
    if parts.len() == 1 {
        assert(!parts[0].contains(c));
    } else if parts.len() > 1 {
        let head = parts.drop_last();
        assert forall|k: int| 0 <= k < head.len() implies !(#[trigger] head[k]).contains(c) by {
            assert(head[k] == parts[k]);
        }
        lemma_joined_lacks(head, separator, c);
        let left = joined(head, separator).push(separator);
        let whole = left + parts.last();
        assert(!parts[parts.len() - 1].contains(c));
        if whole.contains(c) {
            let i = choose|i: int| 0 <= i < whole.len() && whole[i] == c;
            if i < left.len() - 1 {
                assert(joined(head, separator)[i] == c);
            } else if i >= left.len() {
                assert(parts.last()[i - left.len()] == c);
            }
        }
    }
}

/// Splits a text at every occurrence of the separator.
pub fn split_at(text: &str, separator: char) -> (parts: Vec<String>)
    ensures
        texts(parts@) == split_on(text@, separator),
{
    let mut parts: Vec<String> = Vec::new();
    let mut current = String::new();
    for c in it: text.chars()
        invariant
            it.seq() == text@,
            texts(parts@).push(current@) == split_on(text@.take(it.index() as int), separator),
    {
        proof {
            assert(text@.take(it.index() + 1).drop_last() == text@.take(it.index() as int));
            assert(text@.take(it.index() + 1).last() == c);
        }
        let ghost before = texts(parts@).push(current@);
        if c == separator {
            parts.push(current);
            current = String::new();
            proof {
                assert(texts(parts@) == before);
            }
        } else {
            push_char(&mut current, c);
            proof {
                assert(before.drop_last() == texts(parts@));
            }
        }
    }
    proof {
        assert(text@.take(text@.len() as int) == text@);
        assert(texts(parts@.push(current)) == texts(parts@).push(current@));
    }
    parts.push(current);
    parts
}

/// Joins texts with the separator between each two of them.
pub fn join_with(parts: &Vec<String>, separator: char) -> (text: String)
    ensures
        text@ == joined(texts(parts@), separator),
{
    let mut text = String::new();
    let mut i: usize = 0;
    while i < parts.len()
        invariant
            i <= parts@.len(),
            text@ == joined(texts(parts@).take(i as int), separator),
        decreases parts@.len() - i,
    {
        proof {
            let upto = texts(parts@).take(i + 1);
            assert(upto.drop_last() == texts(parts@).take(i as int));
            assert(upto.last() == parts@[i as int]@);
            if i == 0 {
                assert(Seq::<char>::empty() + parts@[0]@ == parts@[0]@);
            }
        }
        if i > 0 {
            push_char(&mut text, separator);
        }
        text.append(parts[i].as_str());
        i = i + 1;
    }
    proof {
        assert(texts(parts@).take(parts@.len() as int) == texts(parts@));
    }
    text
}

/// The character that stands for a digit.
pub open spec fn digit_char(d: nat) -> char
    recommends
        d < 10,
{
    ('0' as u8 + d as u8) as char
}

/// `c` is one of `0` to `9`.
pub open spec fn is_digit(c: char) -> bool {
    '0' <= c <= '9'
}

/// The digit that a character stands for.
pub open spec fn digit_value(c: char) -> nat
    recommends
        is_digit(c),
{
    (c as u8 - '0' as u8) as nat
}

/// A number in decimal notation, without leading zeros.
pub open spec fn decimal(n: nat) -> Seq<char>
    decreases n,
{
    if n < 10 {
        seq![digit_char(n)]
    } else {
        decimal(n / 10).push(digit_char(n % 10))
    }
}

/// The number that a run of digits stands for, leading zeros ignored.
pub open spec fn digits_value(digits: Seq<char>) -> nat
    decreases digits.len(),
{
    if digits.len() == 0 {
        0
    } else {
        digits_value(digits.drop_last()) * 10 + digit_value(digits.last())
    }
}

/// Every character of `digits` is a digit.
pub open spec fn all_digits(digits: Seq<char>) -> bool {
    forall|i: int| 0 <= i < digits.len() ==> is_digit(#[trigger] digits[i])
}

/// Decimal notation is made of digits, is not empty, and stands for the
/// number it was made from.
pub proof fn lemma_decimal_value(n: nat)
    ensures
        decimal(n).len() >= 1,
        all_digits(decimal(n)),
        digits_value(decimal(n)) == n,
    decreases n,
{
    if n < 10 {
        let s = seq![digit_char(n)];
        assert(s.drop_last() == Seq::<char>::empty());
        assert(digits_value(s.drop_last()) == 0);
        assert(s.last() == digit_char(n));
        assert(digits_value(s) == digit_value(digit_char(n)));
    } else {
        lemma_decimal_value(n / 10);
        let head = decimal(n / 10);
        let s = head.push(digit_char(n % 10));
        assert(s.drop_last() == head);
        assert(s.last() == digit_char(n % 10));
        assert forall|i: int| 0 <= i < s.len() implies is_digit(#[trigger] s[i]) by {
            if i < head.len() {
                assert(s[i] == head[i]);
            }
        }
    }
}

/// Two numbers with the same decimal notation are the same number.
pub proof fn lemma_decimal_injective(a: nat, b: nat)
    requires
        decimal(a) == decimal(b),
    ensures
        a == b,
{
    lemma_decimal_value(a);
    lemma_decimal_value(b);
}

/// What a run of digits stands for is at least what any beginning of it
/// stands for.
pub proof fn lemma_digits_value_grows(digits: Seq<char>, i: int)
    requires
        0 <= i <= digits.len(),
    ensures
        digits_value(digits.take(i)) <= digits_value(digits),
    decreases digits.len() - i,
{
    if i < digits.len() {
        lemma_digits_value_grows(digits, i + 1);
        assert(digits.take(i + 1).drop_last() == digits.take(i));
    } else {
        assert(digits.take(i) == digits);
    }
}

/// The decimal notation of a number.
pub fn format_decimal(n: u32) -> (text: String)
    ensures
        text@ == decimal(n as nat),
{
    let mut reversed: Vec<char> = Vec::new();
    let mut rest: u32 = n;
    // the digits from the last to the second
    while rest >= 10
        invariant
            forall|k: int| 0 <= k < reversed@.len() ==> is_digit(#[trigger] reversed@[k]),
            decimal(n as nat) == decimal(rest as nat) + reversed@.reverse(),
        decreases rest,
    {
        let d: u8 = (rest % 10) as u8;
        let c: char = (48u8 + d) as char;
        proof {
            let grown = reversed@.push(c);
            assert(grown.reverse() == seq![c] + reversed@.reverse());
            assert(decimal(rest as nat) == decimal((rest / 10) as nat).push(c));
            assert(decimal((rest / 10) as nat).push(c) + reversed@.reverse() == decimal(
                (rest / 10) as nat,
            ) + (seq![c] + reversed@.reverse()));
        }
        reversed.push(c);
        rest = rest / 10;
    }
    let first: char = (48u8 + rest as u8) as char;
    let mut text = String::new();
    push_char(&mut text, first);
    let mut i: usize = reversed.len();
    while i > 0
        invariant
            i <= reversed@.len(),
            text@ == seq![first] + reversed@.reverse().take(reversed@.len() - i),
        decreases i,
    {
        i = i - 1;
        push_char(&mut text, reversed[i]);
        proof {
            let r = reversed@.reverse();
            let k = reversed@.len() - i - 1;
            assert(r[k] == reversed@[i as int]);
            assert(r.take(k + 1) == r.take(k).push(r[k]));
            assert((seq![first] + r.take(k)).push(r[k]) == seq![first] + r.take(k).push(r[k]));
        }
    }
    proof {
        let r = reversed@.reverse();
        assert(r.take(reversed@.len() as int) == r);
        assert(decimal(rest as nat) == seq![first]);
    }
    text
}

/// The number whose decimal notation the text is, if it is that of a number
/// below 2^32. Leading zeros, signs and spaces are not decimal notation.
pub fn parse_decimal(text: &str) -> (r: Option<u32>)
    ensures
        match r {
            Some(n) => text@ == decimal(n as nat),
            None => forall|n: u32| text@ != decimal(n as nat),
        },
{
    let mut value: u32 = 0;
    for c in it: text.chars()
        invariant
            it.seq() == text@,
            all_digits(text@.take(it.index() as int)),
            value == digits_value(text@.take(it.index() as int)),
    {
        let ghost i = it.index() as int;
        proof {
            assert(text@.take(i + 1).drop_last() == text@.take(i));
            assert(text@.take(i + 1).last() == c);
        }
        if !(c >= '0' && c <= '9') {
            proof {
                assert forall|n: u32| text@ != decimal(n as nat) by {
                    lemma_decimal_value(n as nat);
                    assert(!is_digit(text@[i]));
                }
            }
            return None;
        }
        let d: u32 = (c as u32) - ('0' as u32);
        if value > (u32::MAX - d) / 10 {
            proof {
                assert(digits_value(text@.take(i + 1)) > u32::MAX);
                lemma_digits_value_grows(text@, i + 1);
                assert forall|n: u32| text@ != decimal(n as nat) by {
                    lemma_decimal_value(n as nat);
                }
            }
            return None;
        }
        value = value * 10 + d;
        proof {
            assert forall|k: int| 0 <= k < i + 1 implies is_digit(
                #[trigger] text@.take(i + 1)[k],
            ) by {
                if k < i {
                    assert(text@.take(i + 1)[k] == text@.take(i)[k]);
                }
            }
        }
    }
    proof {
        assert(text@.take(text@.len() as int) == text@);
    }
    let canonical = format_decimal(value);
    if canonical == text.to_owned() {
        Some(value)
    } else {
        proof {
            assert forall|n: u32| text@ != decimal(n as nat) by {
                lemma_decimal_value(n as nat);
            }
        }
        None
    }
}

} // verus!
