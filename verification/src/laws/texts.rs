use vstd::prelude::*;
use crate::chars::{
    digits_end,
    has_char,
    has_word,
    is_digit,
    lemma_has_word_concat,
    lemma_has_word_index,
    lemma_skip_spaces_stays,
    skip_spaces,
};
use crate::error::ParseError;
use crate::grammar::{
    accepted,
    bool_at,
    checked_at,
    closed,
    float_at,
    float_end,
    quoted_from,
    simple_escape,
    string_at,
    Checked,
    Quoted,
};
use crate::render::{escaped_char, escaped_text, quoted_text};
use crate::value::{is_float_literal, Term};

verus! {

/// Whether the text after a literal that ends before `pos` cannot be taken
/// for more of the literal: whether neither a digit nor `.` stands there.
pub open spec fn ends_token(text: Seq<char>, pos: int) -> bool {
    !(0 <= pos < text.len()) || !(is_digit(text[pos]) || text[pos] == '.')
}

/// Where a text holds the written form of the characters `content[from..]`
/// and the closing quote, reading the inside of the quoted text from there
/// adds just those characters, finds no error, and ends behind the quote.
pub proof fn lemma_quoted_from_escaped(
    content: Seq<char>,
    from: nat,
    text: Seq<char>,
    pos: int,
    errors: Seq<ParseError>,
)
    requires
        0 <= pos,
        from <= content.len(),
        has_word(text, pos, escaped_text(content, from) + seq!['"']),
    ensures
        quoted_from(text, pos, content.take(from as int), errors) == (Quoted {
            content,
            end: pos + escaped_text(content, from).len() + 1,
            errors,
            closed: true,
        }),
    decreases content.len() - from,
{
    let rest = escaped_text(content, from);
    lemma_has_word_concat(text, pos, rest, seq!['"']);
    if from < content.len() {
        let c = content[from as int];
        let first = escaped_char(c);
        let after = escaped_text(content, (from + 1) as nat);
        lemma_has_word_concat(text, pos, first, after);
        lemma_has_word_concat(text, pos + first.len(), after, seq!['"']);
        lemma_has_word_index(text, pos, first, 0);
        assert(content.take(from as int).push(c) =~= content.take(from as int + 1));
        if c == '\\' || c == '"' {
            lemma_has_word_index(text, pos, first, 1);
            assert(simple_escape(c) == Some(c));
        }
        lemma_quoted_from_escaped(content, (from + 1) as nat, text, pos + first.len(), errors);
    } else {
        lemma_has_word_index(text, pos + rest.len(), seq!['"'], 0);
        assert(content.take(from as int) =~= content);
    }
}

/// Where a text holds the quoted text that writes `content`, the inside of
/// it reads as `content`, without an error, up to the end of the quoted
/// text.
pub proof fn lemma_quoted_text_read(content: Seq<char>, text: Seq<char>, pos: int)
    requires
        0 <= pos,
        has_word(text, pos, quoted_text(content)),
    ensures
        has_char(text, pos, '"'),
        skip_spaces(text, pos) == pos,
        quoted_from(text, pos + 1, Seq::empty(), Seq::empty()) == (Quoted {
            content,
            end: pos + quoted_text(content).len(),
            errors: Seq::empty(),
            closed: true,
        }),
{
    let inner = escaped_text(content, 0);
    lemma_has_word_concat(text, pos, seq!['"'] + inner, seq!['"']);
    lemma_has_word_concat(text, pos, seq!['"'], inner);
    lemma_has_word_index(text, pos, seq!['"'], 0);
    lemma_has_word_concat(text, pos + 1, inner, seq!['"']);
    lemma_skip_spaces_stays(text, pos);
    assert(content.take(0) =~= Seq::<char>::empty());
    lemma_quoted_from_escaped(content, 0, text, pos + 1, Seq::empty());
}

/// A string is read back from the quoted text that writes it.
pub proof fn lemma_string_at_text(content: Seq<char>, text: Seq<char>, pos: int)
    requires
        0 <= pos,
        has_word(text, pos, quoted_text(content)),
    ensures
        string_at(text, pos) == accepted(
            Term::Str(content),
            skip_spaces(text, pos + quoted_text(content).len()),
        ),
{
    lemma_quoted_text_read(content, text, pos);
}

/// A signature or an object path with a legal content is read back from
/// the quoted text that writes it.
pub proof fn lemma_checked_at_text(kind: Checked, content: Seq<char>, text: Seq<char>, pos: int)
    requires
        0 <= pos,
        kind.legal(content),
        has_word(text, pos, quoted_text(content)),
    ensures
        checked_at(kind, text, pos) == accepted(
            kind.term(content),
            skip_spaces(text, pos + quoted_text(content).len()),
        ),
{
    lemma_quoted_text_read(content, text, pos);
}

/// A boolean is read back from its literal.
pub proof fn lemma_bool_at_text(b: bool, text: Seq<char>, pos: int)
    requires
        0 <= pos,
        has_word(
            text,
            pos,
            if b {
                seq!['t', 'r', 'u', 'e']
            } else {
                seq!['f', 'a', 'l', 's', 'e']
            },
        ),
    ensures
        bool_at(text, pos) == accepted(
            Term::Bool(b),
            skip_spaces(
                text,
                pos + if b {
                    4int
                } else {
                    5int
                },
            ),
        ),
{
    if b {
        lemma_has_word_index(text, pos, seq!['t', 'r', 'u', 'e'], 0);
    } else {
        lemma_has_word_index(text, pos, seq!['f', 'a', 'l', 's', 'e'], 0);
        if has_word(text, pos, seq!['t', 'r', 'u', 'e']) {
            lemma_has_word_index(text, pos, seq!['t', 'r', 'u', 'e'], 0);
        }
    }
    lemma_skip_spaces_stays(text, pos);
}

/// Inside a word that a text holds, a run of digits ends where it ends in
/// the word alone, if no digit follows the word.
pub proof fn lemma_digits_end_in_word(text: Seq<char>, pos: int, word: Seq<char>, from: int)
    requires
        0 <= pos,
        has_word(text, pos, word),
        0 <= from <= word.len(),
        !(pos + word.len() < text.len() && is_digit(text[pos + word.len()])),
    ensures
        digits_end(text, pos + from) == pos + digits_end(word, from),
    decreases word.len() - from,
{
    if from < word.len() {
        lemma_has_word_index(text, pos, word, from);
        if is_digit(word[from]) {
            lemma_digits_end_in_word(text, pos, word, from + 1);
        }
    }
}

/// A floating point number is read back from its literal, if neither a
/// digit nor `.` follows it.
pub proof fn lemma_float_at_text(literal: Seq<char>, text: Seq<char>, pos: int)
    requires
        0 <= pos,
        is_float_literal(literal),
        has_word(text, pos, literal),
        ends_token(text, pos + literal.len()),
    ensures
        float_at(text, pos) == accepted(
            Term::F64(literal),
            skip_spaces(text, pos + literal.len()),
        ),
{
    let first: int = if has_char(literal, 0, '-') {
        1
    } else {
        0
    };
    let whole_end = digits_end(literal, first);
    lemma_has_word_index(text, pos, literal, 0);
    assert(is_digit(literal[first]));
    lemma_skip_spaces_stays(text, pos);
    lemma_digits_end_in_word(text, pos, literal, first);
    if whole_end < literal.len() {
        lemma_has_word_index(text, pos, literal, whole_end);
        lemma_digits_end_in_word(text, pos, literal, whole_end + 1);
    } else {
        lemma_skip_spaces_stays(text, pos);
    }
    assert(float_end(text, pos + first) == pos + literal.len());
    assert(text.subrange(pos, pos + literal.len()) =~= literal);
}

/// Reading the inside of a quoted text moves forward and stays inside the
/// text; it drops no error, and adds one if the closing quote is not
/// reached.
pub proof fn lemma_quoted_from_bounds(
    text: Seq<char>,
    pos: int,
    content: Seq<char>,
    errors: Seq<ParseError>,
)
    requires
        0 <= pos <= text.len(),
    ensures
        pos <= quoted_from(text, pos, content, errors).end <= text.len(),
        quoted_from(text, pos, content, errors).errors.len() >= errors.len(),
        !quoted_from(text, pos, content, errors).closed ==> quoted_from(
            text,
            pos,
            content,
            errors,
        ).errors.len() > errors.len(),
    decreases text.len() - pos,
{
    if pos < text.len() && text[pos] != '"' {
        if text[pos] != '\\' {
            lemma_quoted_from_bounds(text, pos + 1, content.push(text[pos]), errors);
        } else if pos + 1 < text.len() {
            if text[pos + 1] == 'u' {
                if crate::grammar::hex_run(text, pos + 2) == 4 {
                    let code = crate::grammar::hex_code(text, pos + 2);
                    if crate::grammar::is_scalar(code) {
                        lemma_quoted_from_bounds(
                            text,
                            pos + 6,
                            content.push(code as char),
                            errors,
                        );
                    } else {
                        lemma_quoted_from_bounds(
                            text,
                            pos + 6,
                            content.push('\u{FFFD}'),
                            errors.push(
                                crate::error::error_at(
                                    crate::error::ErrorKind::LexicalError,
                                    pos,
                                    crate::error::Expected::UnicodeScalar,
                                ),
                            ),
                        );
                    }
                }
            } else {
                match simple_escape(text[pos + 1]) {
                    Some(c) => lemma_quoted_from_bounds(text, pos + 2, content.push(c), errors),
                    None => {},
                }
            }
        }
    }
}

/// The search for the next `}` or `]` moves forward and stays inside the
/// text.
pub proof fn lemma_closer_from_bounds(text: Seq<char>, pos: int)
    requires
        0 <= pos <= text.len(),
    ensures
        pos <= crate::grammar::closer_from(text, pos) <= text.len(),
        crate::grammar::closer_from(text, pos) < text.len() ==> {
            ||| text[crate::grammar::closer_from(text, pos)] == '}'
            ||| text[crate::grammar::closer_from(text, pos)] == ']'
        },
    decreases text.len() - pos,
{
    if pos < text.len() && text[pos] != '}' && text[pos] != ']' {
        lemma_closer_from_bounds(text, pos + 1);
    }
}

/// The part of a text that is read as a floating point number is the
/// literal of one.
pub proof fn lemma_float_literal_read(text: Seq<char>, at: int)
    requires
        0 <= at <= text.len(),
        digits_end(
            text,
            if has_char(text, at, '-') {
                at + 1
            } else {
                at
            },
        ) > if has_char(text, at, '-') {
            at + 1
        } else {
            at
        },
    ensures
        ({
            let first = if has_char(text, at, '-') {
                at + 1
            } else {
                at
            };
            &&& at < float_end(text, first) <= text.len()
            &&& is_float_literal(text.subrange(at, float_end(text, first)))
        }),
{
    let first = if has_char(text, at, '-') {
        at + 1
    } else {
        at
    };
    let whole_end = digits_end(text, first);
    let end = float_end(text, first);
    crate::chars::lemma_digits_end_bounds(text, first);
    crate::chars::lemma_digits_end_bounds(text, whole_end + 1);
    let word = text.subrange(at, end);
    assert(has_word(text, at, word));
    assert(word[0] == text[at]);
    lemma_digits_end_in_word(text, at, word, first - at);
    if end > whole_end {
        assert(word[whole_end - at] == text[whole_end]);
        lemma_digits_end_in_word(text, at, word, whole_end + 1 - at);
    }
}

} // verus!
