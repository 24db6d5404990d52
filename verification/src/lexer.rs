use vstd::prelude::*;
use crate::bus::{check_object_path, check_signature};
use crate::chars::{
    decimal_value,
    digit_value,
    digits_end,
    has_char,
    has_word,
    hex_value,
    is_digit,
    is_hex_digit,
    lemma_digits_end_bounds,
    skip_spaces,
    skip_whitespace,
    string_of,
};
use crate::error::{error_at, ErrorKind, Expected, IntegerKind, ParseError};
use crate::grammar::{
    bool_at,
    checked_at,
    closed,
    closer_from,
    float_at,
    float_end,
    hex_code,
    hex_run,
    integer_at,
    integer_term,
    quoted_from,
    refused,
    simple_escape,
    string_at,
    Checked,
    Outcome,
    };
use crate::value::Value;

verus! {

/// What parsing one value from some position came to: the value unless its
/// text held an error, where parsing goes on, and whether it has to stop.
/// The errors are added to the list that the caller hands in.
pub struct Step {
    pub value: Option<Value>,
    pub next: usize,
    pub halted: bool,
}

impl Step {
    /// Whether this step, which took the list of errors from `before` to
    /// `after`, is what `outcome` describes.
    pub open spec fn agrees(self, outcome: Outcome, before: Seq<ParseError>, after: Seq<ParseError>) -> bool {
        &&& after == before + outcome.errors
        &&& self.halted == outcome.halted
        &&& self.next == outcome.next
        &&& match self.value {
            Some(value) => outcome.value == Some(value@),
            None => outcome.value is None,
        }
    }
}

/// Notes the error and stops.
fn refuse(errors: &mut Vec<ParseError>, kind: ErrorKind, at: usize, expected: Expected) -> (step:
    Step)
    ensures
        step.agrees(
            refused(seq![error_at(kind, at as int, expected)], at as int),
            old(errors)@,
            final(errors)@,
        ),
{
    errors.push(ParseError { kind, offset: at, expected });
    assert(final(errors)@ =~= old(errors)@ + seq![error_at(kind, at as int, expected)]);
    Step { value: None, next: at, halted: true }
}

/// Whether `text` holds `c` at `pos`.
pub fn holds_char(text: &[char], pos: usize, c: char) -> (r: bool)
    ensures
        r == has_char(text@, pos as int, c),
        r ==> pos < usize::MAX,
{
    pos < text.len() && text[pos] == c
}

/// Reads `true` or `false`.
pub fn lex_bool(text: &[char], pos: usize, errors: &mut Vec<ParseError>) -> (step: Step)
    requires
        pos <= text@.len(),
    ensures
        step.agrees(bool_at(text@, pos as int), old(errors)@, final(errors)@),
        pos <= step.next <= text@.len(),
{
    let at = skip_whitespace(text, pos);
    let n = text.len();
    if at < n && n - at >= 4 && text[at] == 't' && text[at + 1] == 'r' && text[at + 2] == 'u'
        && text[at + 3] == 'e' {
        assert(text@.subrange(at as int, at + 4) =~= seq!['t', 'r', 'u', 'e']);
        let next = skip_whitespace(text, at + 4);
        assert(final(errors)@ =~= old(errors)@ + Seq::<ParseError>::empty());
        Step { value: Some(Value::Bool(true)), next, halted: false }
    } else if at < n && n - at >= 5 && text[at] == 'f' && text[at + 1] == 'a' && text[at + 2]
        == 'l' && text[at + 3] == 's' && text[at + 4] == 'e' {
        assert(text@.subrange(at as int, at + 5) =~= seq!['f', 'a', 'l', 's', 'e']);
        assert(!has_word(text@, at as int, seq!['t', 'r', 'u', 'e'])) by {
            if has_word(text@, at as int, seq!['t', 'r', 'u', 'e']) {
                assert(text@.subrange(at as int, at + 4)[0] == 't');
            }
        }
        let next = skip_whitespace(text, at + 5);
        assert(final(errors)@ =~= old(errors)@ + Seq::<ParseError>::empty());
        Step { value: Some(Value::Bool(false)), next, halted: false }
    } else {
        assert(!has_word(text@, at as int, seq!['t', 'r', 'u', 'e'])) by {
            if has_word(text@, at as int, seq!['t', 'r', 'u', 'e']) {
                let w = text@.subrange(at as int, at + 4);
                assert(w[0] == 't' && w[1] == 'r' && w[2] == 'u' && w[3] == 'e');
            }
        }
        assert(!has_word(text@, at as int, seq!['f', 'a', 'l', 's', 'e'])) by {
            if has_word(text@, at as int, seq!['f', 'a', 'l', 's', 'e']) {
                let w = text@.subrange(at as int, at + 5);
                assert(w[0] == 'f' && w[1] == 'a' && w[2] == 'l' && w[3] == 's' && w[4] == 'e');
            }
        }
        refuse(errors, ErrorKind::LexicalError, at, Expected::Bool)
    }
}

/// The number that the decimal digit `c` stands for, if it is one.
fn decimal_digit(c: char) -> (d: Option<u64>)
    ensures
        d is Some == is_digit(c),
        d is Some ==> d->0 == digit_value(c) && d->0 <= 9,
{
    if '0' <= c && c <= '9' {
        Some((c as u32 - '0' as u32) as u64)
    } else {
        None
    }
}

/// The digits from `first` on and the number they write.
struct Digits {
    /// The position after the last digit.
    end: usize,
    /// The number, unless it is above the largest `u64`.
    magnitude: Option<u64>,
}

/// Reads the decimal digits from `first` on.
fn lex_digits(text: &[char], first: usize) -> (digits: Digits)
    requires
        first <= text@.len(),
    ensures
        digits.end == digits_end(text@, first as int),
        first <= digits.end <= text@.len(),
        0 <= decimal_value(text@, first as int, digits.end as int),
        match digits.magnitude {
            Some(n) => n == decimal_value(text@, first as int, digits.end as int),
            None => decimal_value(text@, first as int, digits.end as int) > u64::MAX,
        },
{
    let mut end: usize = first;
    let mut magnitude: Option<u64> = Some(0);
    while end < text.len() && decimal_digit(text[end]).is_some()
        invariant
            first <= end <= text@.len(),
            digits_end(text@, first as int) == digits_end(text@, end as int),
            0 <= decimal_value(text@, first as int, end as int),
            match magnitude {
                Some(n) => n == decimal_value(text@, first as int, end as int),
                None => decimal_value(text@, first as int, end as int) > u64::MAX,
            },
        decreases text@.len() - end,
    {
        let digit = decimal_digit(text[end]).unwrap();
        magnitude =
        match magnitude {
            Some(n) => if n > (u64::MAX - digit) / 10 {
                None
            } else {
                Some(n * 10 + digit)
            },
            None => None,
        };
        end += 1;
    }
    proof {
        lemma_digits_end_bounds(text@, end as int);
    }
    Digits { end, magnitude }
}

/// The value of width `kind` that holds `n`.
fn integer_value(kind: IntegerKind, n: i128) -> (value: Value)
    requires
        kind.holds(n as int),
    ensures
        value@ == integer_term(kind, n as int),
{
    match kind {
        IntegerKind::U8 => Value::U8(n as u8),
        IntegerKind::I16 => Value::I16(n as i16),
        IntegerKind::U16 => Value::U16(n as u16),
        IntegerKind::I32 => Value::I32(n as i32),
        IntegerKind::U32 => Value::U32(n as u32),
        IntegerKind::I64 => Value::I64(n as i64),
        IntegerKind::U64 => Value::U64(n as u64),
    }
}

/// Reads an integer of width `kind`.
pub fn lex_integer(kind: IntegerKind, text: &[char], pos: usize, errors: &mut Vec<ParseError>) -> (step:
    Step)
    requires
        pos <= text@.len(),
    ensures
        step.agrees(integer_at(kind, text@, pos as int), old(errors)@, final(errors)@),
        pos <= step.next <= text@.len(),
{
    let at = skip_whitespace(text, pos);
    let negative = kind.is_signed() && holds_char(text, at, '-');
    let first = if negative {
        at + 1
    } else {
        at
    };
    let digits = lex_digits(text, first);
    if digits.end == first {
        return refuse(errors, ErrorKind::LexicalError, first, Expected::Digit);
    }
    let n: Option<i128> = match digits.magnitude {
        Some(m) => if negative {
            Some(-(m as i128))
        } else {
            Some(m as i128)
        },
        None => None,
    };
    match n {
        Some(n) => {
            if kind.min_value() <= n && n <= kind.max_value() {
                let next = skip_whitespace(text, digits.end);
                assert(final(errors)@ =~= old(errors)@ + Seq::<ParseError>::empty());
                Step { value: Some(integer_value(kind, n)), next, halted: false }
            } else {
                refuse(errors, ErrorKind::RangeError, at, Expected::Integer(kind))
            }
        },
        None => refuse(errors, ErrorKind::RangeError, at, Expected::Integer(kind)),
    }
}

/// Reads a floating point number.
pub fn lex_float(text: &[char], pos: usize, errors: &mut Vec<ParseError>) -> (step: Step)
    requires
        pos <= text@.len(),
    ensures
        step.agrees(float_at(text@, pos as int), old(errors)@, final(errors)@),
        pos <= step.next <= text@.len(),
{
    let at = skip_whitespace(text, pos);
    let first = if holds_char(text, at, '-') {
        at + 1
    } else {
        at
    };
    let whole = lex_digits(text, first);
    if whole.end == first {
        return refuse(errors, ErrorKind::LexicalError, first, Expected::Digit);
    }
    let mut end = whole.end;
    if holds_char(text, whole.end, '.') {
        let fraction = lex_digits(text, whole.end + 1);
        if fraction.end > whole.end + 1 {
            end = fraction.end;
        }
    }
    assert(end == float_end(text@, first as int));
    let literal = string_of(text, at, end);
    let next = skip_whitespace(text, end);
    assert(final(errors)@ =~= old(errors)@ + Seq::<ParseError>::empty());
    Step { value: Some(Value::F64(literal)), next, halted: false }
}

/// The number that the hexadecimal digit `c` stands for, if it is one.
fn hex_digit(c: char) -> (d: Option<u32>)
    ensures
        d is Some == is_hex_digit(c),
        d is Some ==> d->0 == hex_value(c) && d->0 <= 15,
{
    if '0' <= c && c <= '9' {
        Some(c as u32 - '0' as u32)
    } else if 'a' <= c && c <= 'f' {
        Some(c as u32 - 'a' as u32 + 10)
    } else if 'A' <= c && c <= 'F' {
        Some(c as u32 - 'A' as u32 + 10)
    } else {
        None
    }
}

/// The character that a one-letter escape stands for.
fn escaped(c: char) -> (r: Option<char>)
    ensures
        r == simple_escape(c),
{
    if c == '\\' || c == '/' || c == '"' {
        Some(c)
    } else if c == 'b' {
        Some('\u{8}')
    } else if c == 'f' {
        Some('\u{c}')
    } else if c == 'n' {
        Some('\n')
    } else if c == 'r' {
        Some('\r')
    } else if c == 't' {
        Some('\t')
    } else {
        None
    }
}

/// The hexadecimal digits of a `\u` escape: how many of the four are
/// there, and the number they write if all are.
struct HexQuad {
    run: usize,
    code: u32,
}

/// Reads up to four hexadecimal digits from `pos` on.
fn lex_hex_quad(text: &[char], pos: usize) -> (quad: HexQuad)
    requires
        pos <= text@.len(),
    ensures
        quad.run == hex_run(text@, pos as int),
        quad.run <= 4,
        pos + quad.run <= text@.len(),
        quad.run == 4 ==> quad.code == hex_code(text@, pos as int) && quad.code < 0x10000,
{
    let n = text.len();
    let mut run: usize = 0;
    let mut code: u32 = 0;
    while run < 4 && run < n - pos && hex_digit(text[pos + run]).is_some()
        invariant
            n == text@.len(),
            pos <= n,
            run <= 4,
            pos + run <= n,
            run >= 1 ==> is_hex_digit(text@[pos as int]),
            run >= 2 ==> is_hex_digit(text@[pos + 1]),
            run >= 3 ==> is_hex_digit(text@[pos + 2]),
            run >= 4 ==> is_hex_digit(text@[pos + 3]),
            run == 0 ==> code == 0,
            run == 1 ==> code == hex_value(text@[pos as int]),
            run == 2 ==> code == 16 * hex_value(text@[pos as int]) + hex_value(text@[pos + 1]),
            run == 3 ==> code == 256 * hex_value(text@[pos as int]) + 16 * hex_value(
                text@[pos + 1],
            ) + hex_value(text@[pos + 2]),
            run == 4 ==> code == hex_code(text@, pos as int),
            run == 1 ==> code < 0x10,
            run == 2 ==> code < 0x100,
            run == 3 ==> code < 0x1000,
            code < 0x10000,
        decreases 4 - run,
    {
        let digit = hex_digit(text[pos + run]).unwrap();
        code = code * 16 + digit;
        run += 1;
    }
    HexQuad { run, code }
}

/// What reading the inside of a quoted text came to.
struct QuotedText {
    content: String,
    end: usize,
    closed: bool,
}

/// Reads the inside of a quoted text from `start`, the position after the
/// opening quote.
fn lex_quoted(text: &[char], start: usize, errors: &mut Vec<ParseError>) -> (quoted: QuotedText)
    requires
        start <= text@.len(),
    ensures
        ({
            let q = quoted_from(text@, start as int, Seq::empty(), Seq::empty());
            &&& quoted.content@ == q.content
            &&& quoted.end == q.end
            &&& quoted.closed == q.closed
            &&& final(errors)@ == old(errors)@ + q.errors
        }),
        start <= quoted.end <= text@.len(),
{
    let n = text.len();
    let mut content = String::new();
    let mut pos: usize = start;
    let ghost before = errors@;
    let ghost mut found: Seq<ParseError> = Seq::empty();
    assert(errors@ =~= before + found);
    loop
        invariant
            n == text@.len(),
            start <= pos <= n,
            before == old(errors)@,
            errors@ == before + found,
            quoted_from(text@, start as int, Seq::empty(), Seq::empty()) == quoted_from(
                text@,
                pos as int,
                content@,
                found,
            ),
        decreases n - pos,
    {
        let ghost here = quoted_from(text@, pos as int, content@, found);
        if pos >= n {
            errors.push(
                ParseError {
                    kind: ErrorKind::LexicalError,
                    offset: pos,
                    expected: Expected::ClosingQuote,
                },
            );
            assert(errors@ =~= before + here.errors);
            return QuotedText { content, end: pos, closed: false };
        }
        let c = text[pos];
        if c == '"' {
            return QuotedText { content, end: pos + 1, closed: true };
        }
        if c != '\\' {
            content.push(c);
            pos += 1;
            continue ;
        }
        if pos + 1 >= n {
            errors.push(
                ParseError {
                    kind: ErrorKind::LexicalError,
                    offset: pos + 1,
                    expected: Expected::Escape,
                },
            );
            assert(errors@ =~= before + here.errors);
            return QuotedText { content, end: pos + 1, closed: false };
        }
        let e = text[pos + 1];
        if e == 'u' {
            let quad = lex_hex_quad(text, pos + 2);
            if quad.run < 4 {
                errors.push(
                    ParseError {
                        kind: ErrorKind::LexicalError,
                        offset: pos + 2 + quad.run,
                        expected: Expected::HexDigit,
                    },
                );
                assert(errors@ =~= before + here.errors);
                return QuotedText { content, end: pos + 2 + quad.run, closed: false };
            }
            match char::from_u32(quad.code) {
                Some(decoded) => {
                    content.push(decoded);
                },
                None => {
                    content.push('\u{FFFD}');
                    errors.push(
                        ParseError {
                            kind: ErrorKind::LexicalError,
                            offset: pos,
                            expected: Expected::UnicodeScalar,
                        },
                    );
                    proof {
                        found =
                        found.push(
                            error_at(ErrorKind::LexicalError, pos as int, Expected::UnicodeScalar),
                        );
                    }
                    assert(errors@ =~= before + found);
                },
            }
            pos += 6;
            continue ;
        }
        match escaped(e) {
            Some(plain) => {
                content.push(plain);
                pos += 2;
            },
            None => {
                errors.push(
                    ParseError {
                        kind: ErrorKind::LexicalError,
                        offset: pos + 1,
                        expected: Expected::Escape,
                    },
                );
                assert(errors@ =~= before + here.errors);
                return QuotedText { content, end: pos + 1, closed: false };
            },
        }
    }
}

/// The position of the first `}` or `]` at or after `from`, or the length
/// of `text` if there is none.
fn find_closer(text: &[char], from: usize) -> (stop: usize)
    requires
        from <= text@.len(),
    ensures
        stop == closer_from(text@, from as int),
        from <= stop <= text@.len(),
{
    let mut stop: usize = from;
    while stop < text.len() && text[stop] != '}' && text[stop] != ']'
        invariant
            from <= stop <= text@.len(),
            closer_from(text@, from as int) == closer_from(text@, stop as int),
        decreases text@.len() - stop,
    {
        stop += 1;
    }
    stop
}

/// Moves on to the next `}` or `]` after a string went wrong at `from`.
fn recover(text: &[char], from: usize) -> (step: Step)
    requires
        from <= text@.len(),
    ensures
        step.value is None,
        step.next == closer_from(text@, from as int),
        step.halted == (closer_from(text@, from as int) >= text@.len()),
        from <= step.next <= text@.len(),
{
    let stop = find_closer(text, from);
    Step { value: None, next: stop, halted: stop >= text.len() }
}

/// Reads a string.
pub fn lex_string(text: &[char], pos: usize, errors: &mut Vec<ParseError>) -> (step: Step)
    requires
        pos <= text@.len(),
    ensures
        step.agrees(string_at(text@, pos as int), old(errors)@, final(errors)@),
        pos <= step.next <= text@.len(),
{
    let at = skip_whitespace(text, pos);
    if !holds_char(text, at, '"') {
        errors.push(
            ParseError {
                kind: ErrorKind::LexicalError,
                offset: at,
                expected: Expected::OpeningQuote,
            },
        );
        assert(final(errors)@ =~= old(errors)@ + seq![
            error_at(ErrorKind::LexicalError, at as int, Expected::OpeningQuote),
        ]);
        return recover(text, at);
    }
    let mark = errors.len();
    let quoted = lex_quoted(text, at + 1, errors);
    if !quoted.closed {
        return recover(text, quoted.end);
    }
    let next = skip_whitespace(text, quoted.end);
    let value = if errors.len() == mark {
        Some(Value::Str(quoted.content))
    } else {
        None
    };
    Step { value, next, halted: false }
}

/// What reading a signature or an object path came to, with the content of
/// the quoted text if it was closed.
pub struct CheckedStep {
    pub step: Step,
    pub content: String,
}

/// Reads a signature or an object path.
pub fn lex_checked(kind: Checked, text: &[char], pos: usize, errors: &mut Vec<ParseError>) -> (r:
    CheckedStep)
    requires
        pos <= text@.len(),
    ensures
        r.step.agrees(checked_at(kind, text@, pos as int), old(errors)@, final(errors)@),
        pos <= r.step.next <= text@.len(),
        !r.step.halted ==> r.content@ == quoted_from(
            text@,
            skip_spaces(text@, pos as int) + 1,
            Seq::empty(),
            Seq::empty(),
        ).content,
{
    let at = skip_whitespace(text, pos);
    if !holds_char(text, at, '"') {
        let step = refuse(errors, ErrorKind::LexicalError, at, Expected::OpeningQuote);
        return CheckedStep { step, content: String::new() };
    }
    let mark = errors.len();
    let quoted = lex_quoted(text, at + 1, errors);
    if !quoted.closed {
        return CheckedStep {
            step: Step { value: None, next: quoted.end, halted: true },
            content: quoted.content,
        };
    }
    let legal = match kind {
        Checked::Signature => check_signature(quoted.content.as_str()),
        Checked::ObjectPath => check_object_path(quoted.content.as_str()),
    };
    if !legal {
        let expected = match kind {
            Checked::Signature => Expected::SignatureText,
            Checked::ObjectPath => Expected::ObjectPathText,
        };
        errors.push(
            ParseError { kind: ErrorKind::SemanticValidationError, offset: at, expected },
        );
        assert(final(errors)@ =~= old(errors)@ + checked_at(kind, text@, pos as int).errors);
        return CheckedStep {
            step: Step { value: None, next: at, halted: true },
            content: quoted.content,
        };
    }
    let next = skip_whitespace(text, quoted.end);
    let content = quoted.content.clone();
    let value = if errors.len() == mark {
        Some(
            match kind {
                Checked::Signature => Value::Signature(quoted.content),
                Checked::ObjectPath => Value::ObjectPath(quoted.content),
            },
        )
    } else {
        None
    };
    CheckedStep { step: Step { value, next, halted: false }, content }
}

} // verus!
