//! Small tools for the texts that a user types: words between separators,
//! prefixes, and decimal numbers.

use vstd::prelude::*;
use vstd::string::*;
use vstd::std_specs::iter::IteratorSpec;

verus! {

/// The position of the first `separator` in `text` at or after `from`, or
/// the length of `text` if there is none.
pub open spec fn word_end(text: Seq<char>, separator: char, from: int) -> int
    decreases text.len() - from,
{
    if from < 0 || from >= text.len() || text[from] == separator {
        from
    } else {
        word_end(text, separator, from + 1)
    }
}

/// The first of the words into which `separator` splits `text`: what stands
/// before the first separator, or all of `text`.
pub open spec fn first_word(text: Seq<char>, separator: char) -> Seq<char> {
    text.subrange(0, word_end(text, separator, 0))
}

/// The second of the words into which `separator` splits `text`, if `text`
/// holds a separator at all: what stands between the first separator and the
/// next, or the end. The word may be empty.
pub open spec fn second_word(text: Seq<char>, separator: char) -> Option<Seq<char>> {
    let first = word_end(text, separator, 0);
    if first < text.len() {
        Some(text.subrange(first + 1, word_end(text, separator, first + 1)))
    } else {
        None
    }
}

/// Whether `c` is one of the digits `0` to `9`.
pub open spec fn is_digit(c: char) -> bool {
    '0' <= c <= '9'
}

/// The number that a sequence of digits denotes in base ten.
pub open spec fn decimal_value(digits: Seq<char>) -> nat
    decreases digits.len(),
{
    if digits.len() == 0 {
        0
    } else {
        decimal_value(digits.drop_last()) * 10 + (digits.last() as nat - '0' as nat) as nat
    }
}

/// `text` without the `+` that it may start with.
pub open spec fn unsigned_part(text: Seq<char>) -> Seq<char> {
    if text.len() > 0 && text[0] == '+' {
        text.skip(1)
    } else {
        text
    }
}

/// The number that `text` denotes, if it is at most `max`. A number is
/// written as one or more digits, with nothing before them but, at most, one
/// `+`, and nothing behind.
pub open spec fn parsed_number(text: Seq<char>, max: nat) -> Option<nat> {
    let digits = unsigned_part(text);
    if digits.len() > 0 && (forall|i: int| 0 <= i < digits.len() ==> is_digit(digits[i]))
        && decimal_value(digits) <= max {
        Some(decimal_value(digits))
    } else {
        None
    }
}

/// The characters of `text`.
pub(crate) fn chars_of(text: &str) -> (chars: Vec<char>)
    ensures
        chars@ == text@,
{
    let mut chars: Vec<char> = Vec::new();
    for c in it: text.chars()
        invariant
            it.seq() == text@,
            chars@ == it.seq().take(it.index() as int),
    {
        chars.push(c);
    }
    chars
}

/// Finds where the word that starts at `from` ends.
pub(crate) fn find_word_end(text: &[char], separator: char, from: usize) -> (end: usize)
    requires
        from <= text.len(),
    ensures
        end == word_end(text@, separator, from as int),
        from <= end <= text.len(),
        forall|i: int| from <= i < end ==> text@[i] != separator,
{
    let mut end = from;
    while end < text.len() && text[end] != separator
        invariant
            from <= end <= text.len(),
            word_end(text@, separator, from as int) == word_end(text@, separator, end as int),
            forall|i: int| from <= i < end ==> text@[i] != separator,
        decreases text.len() - end,
    {
        end += 1;
    }
    end
}

/// Whether the part of `text` between `from` and `to` begins with `prefix`.
pub(crate) fn begins_with(text: &[char], from: usize, to: usize, prefix: &str) -> (found: bool)
    requires
        from <= to <= text.len(),
    ensures
        found == prefix@.is_prefix_of(text@.subrange(from as int, to as int)),
{
    let wanted = chars_of(prefix);
    if wanted.len() > to - from {
        return false;
    }
    let ghost part = text@.subrange(from as int, to as int);
    let mut i: usize = 0;
    while i < wanted.len()
        invariant
            i <= wanted.len() <= to - from,
            to <= text.len(),
            wanted@ == prefix@,
            part == text@.subrange(from as int, to as int),
            forall|j: int| 0 <= j < i ==> wanted@[j] == part[j],
        decreases wanted.len() - i,
    {
        if wanted[i] != text[from + i] {
            assert(wanted@[i as int] != part[i as int]);
            assert(part.subrange(0, wanted@.len() as int)[i as int] == part[i as int]);
            return false;
        }
        i += 1;
    }
    assert(part.subrange(0, wanted@.len() as int) =~= wanted@);
    true
}

/// Reads the part of `text` between `from` and `to` as a number that is at
/// most `max`: see [`parsed_number`].
pub(crate) fn parse_number(text: &[char], from: usize, to: usize, max: u64) -> (number: Option<u64>)
    requires
        from <= to <= text.len(),
    ensures
        number is Some <==> parsed_number(text@.subrange(from as int, to as int), max as nat)
            is Some,
        number is Some ==> number->Some_0 == parsed_number(
            text@.subrange(from as int, to as int),
            max as nat,
        )->Some_0,
{
    let ghost part = text@.subrange(from as int, to as int);
    let start = if from < to && text[from] == '+' {
        from + 1
    } else {
        from
    };
    let ghost digits = text@.subrange(start as int, to as int);
    assert(digits =~= unsigned_part(part));
    if start == to {
        return None;
    }
    let mut value: u64 = 0;
    let mut i: usize = start;
    while i < to
        invariant
            start <= i <= to <= text.len(),
            digits == text@.subrange(start as int, to as int),
            digits == unsigned_part(text@.subrange(from as int, to as int)),
            forall|j: int| 0 <= j < i - start ==> is_digit(digits[j]),
            value == decimal_value(digits.take(i - start)),
            value <= max,
        decreases to - i,
    {
        let c = text[i];
        assert(c == digits[i - start]);
        if c < '0' || c > '9' {
            return None;
        }
        let digit = (c as u64) - ('0' as u64);
        proof {
            assert(digits.take(i - start + 1).drop_last() =~= digits.take(i - start));
            assert(decimal_value(digits.take(i - start + 1)) == value * 10 + digit);
        }
        if digit > max || value > (max - digit) / 10 {
            proof {
                lemma_decimal_value_grows(digits, i - start + 1);
                if forall|j: int| 0 <= j < digits.len() ==> is_digit(digits[j]) {
                    assert(decimal_value(digits) > max);
                }
            }
            return None;
        }
        value = value * 10 + digit;
        i += 1;
    }
    assert(digits.take(i - start) =~= digits);
    Some(value)
}

/// A number is at least what any of its leading digits denote.
pub proof fn lemma_decimal_value_grows(digits: Seq<char>, shown: int)
    requires
        0 <= shown <= digits.len(),
    ensures
        decimal_value(digits.take(shown)) <= decimal_value(digits),
    decreases digits.len() - shown,
{
    if shown < digits.len() {
        lemma_decimal_value_grows(digits, shown + 1);
        assert(digits.take(shown + 1).drop_last() =~= digits.take(shown));
    } else {
        assert(digits.take(shown) =~= digits);
    }
}

} // verus!
