use vstd::prelude::*;
use crate::chars::{
    decimal_value,
    digit_value,
    digits_end,
    has_word,
    is_digit,
    lemma_has_word_concat,
    lemma_has_word_index,
    lemma_skip_spaces_stays,
    skip_spaces,
};
use crate::error::{error_at, ErrorKind, Expected, IntegerKind, ParseError};
use crate::grammar::{
    accepted,
    integer_at,
    integer_shape,
    integer_term,
    parsed,
    refused,
    value_at,
    };
use crate::render::{decimal_text, digit_char, integer_text};
use crate::value::Term;

verus! {

/// The decimal text of a number holds one or more digits, none of them
/// white space.
pub proof fn lemma_decimal_text_digits(n: nat)
    ensures
        decimal_text(n).len() >= 1,
        forall|i: int| 0 <= i < decimal_text(n).len() ==> is_digit(#[trigger] decimal_text(n)[i]),
    decreases n,
{
    if n >= 10 {
        lemma_decimal_text_digits(n / 10);
    }
}

/// The number that digits write depends on those digits alone.
pub proof fn lemma_decimal_value_of_word(text: Seq<char>, pos: int, word: Seq<char>, count: int)
    requires
        has_word(text, pos, word),
        0 <= count <= word.len(),
    ensures
        decimal_value(text, pos, pos + count) == decimal_value(word, 0, count),
    decreases count,
{
    if count > 0 {
        lemma_decimal_value_of_word(text, pos, word, count - 1);
        lemma_has_word_index(text, pos, word, count - 1);
    }
}

/// The decimal text of a number writes that number.
pub proof fn lemma_decimal_text_value(n: nat)
    ensures
        decimal_value(decimal_text(n), 0, decimal_text(n).len() as int) == n,
    decreases n,
{
    let text = decimal_text(n);
    if n >= 10 {
        let head = decimal_text(n / 10);
        lemma_decimal_text_value(n / 10);
        assert(text.subrange(0, head.len() as int) =~= head);
        lemma_decimal_value_of_word(text, 0, head, head.len() as int);
        assert(digit_value(digit_char((n % 10) as int)) == n % 10);
    } else {
        assert(decimal_value(text, 0, 0) == 0);
        assert(digit_value(digit_char(n as int)) == n);
    }
}

/// A run of digits that a word holds ends where the word ends, if no digit
/// follows it.
pub proof fn lemma_digits_end_of_word(text: Seq<char>, pos: int, word: Seq<char>, from: int)
    requires
        0 <= pos,
        has_word(text, pos, word),
        0 <= from <= word.len(),
        forall|i: int| from <= i < word.len() ==> is_digit(#[trigger] word[i]),
        !(pos + word.len() < text.len() && is_digit(text[pos + word.len()])),
    ensures
        digits_end(text, pos + from) == pos + word.len(),
    decreases word.len() - from,
{
    if from < word.len() {
        lemma_has_word_index(text, pos, word, from);
        lemma_digits_end_of_word(text, pos, word, from + 1);
    }
}

/// What reading an integer of width `kind` comes to where the text holds
/// the literal of `n` and no digit follows it.
pub proof fn lemma_integer_at_text(kind: IntegerKind, n: int, text: Seq<char>, pos: int)
    requires
        0 <= pos,
        kind.signed() || 0 <= n,
        has_word(text, pos, integer_text(n)),
        !(pos + integer_text(n).len() < text.len() && is_digit(
            text[pos + integer_text(n).len()],
        )),
    ensures
        integer_at(kind, text, pos) == if kind.holds(n) {
            accepted(integer_term(kind, n), skip_spaces(text, pos + integer_text(n).len()))
        } else {
            refused(seq![error_at(ErrorKind::RangeError, pos, Expected::Integer(kind))], pos)
        },
{
    let word = integer_text(n);
    let magnitude: nat = if n < 0 {
        (-n) as nat
    } else {
        n as nat
    };
    let digits = decimal_text(magnitude);
    lemma_decimal_text_digits(magnitude);
    lemma_decimal_text_value(magnitude);
    lemma_has_word_index(text, pos, word, 0);
    if n < 0 {
        lemma_has_word_concat(text, pos, seq!['-'], digits);
        assert(word[0] == '-');
        assert(word.len() == digits.len() + 1);
        lemma_skip_spaces_stays(text, pos);
        lemma_digits_end_of_word(text, pos + 1, digits, 0);
        lemma_decimal_value_of_word(text, pos + 1, digits, digits.len() as int);
    } else {
        assert(is_digit(word[0]));
        lemma_skip_spaces_stays(text, pos);
        lemma_digits_end_of_word(text, pos, digits, 0);
        lemma_decimal_value_of_word(text, pos, digits, digits.len() as int);
    }
}

/// The range law.  The literal of a number is read, at any width, as that
/// number exactly if the width can hold it; if it cannot, the literal is
/// refused with one range error, at the start of the literal.  So the
/// largest and the smallest number of each width are read, and the numbers
/// next to them are not.  (A negative number has no literal at an unsigned
/// width.)
pub proof fn lemma_integer_range(kind: IntegerKind, n: int)
    requires
        kind.signed() || 0 <= n,
    ensures
        parsed(integer_shape(kind), integer_text(n)) == if kind.holds(n) {
            Ok::<Term, Seq<ParseError>>(integer_term(kind, n))
        } else {
            Err::<Term, Seq<ParseError>>(
                seq![error_at(ErrorKind::RangeError, 0, Expected::Integer(kind))],
            )
        },
{
    let text = integer_text(n);
    assert(text.subrange(0, text.len() as int) =~= text);
    lemma_integer_at_text(kind, n, text, 0);
    assert(value_at(integer_shape(kind), text, 0) == integer_at(kind, text, 0));
}

} // verus!
