use vstd::prelude::*;
use crate::bus::{is_object_path, signature_accepted};
use crate::chars::{
    decimal_value,
    digits_end,
    has_char,
    has_word,
    hex_value,
    is_hex_digit,
    skip_spaces,
};
use crate::error::{error_at, ErrorKind, Expected, IntegerKind, ParseError};
use crate::signature::{decoded, Shape};
use crate::value::Term;

verus! {

/// What parsing one value from some position comes to.
pub struct Outcome {
    /// The value, if the text of this value held no error.
    pub value: Option<Term>,
    /// Where the text after this value starts: where parsing goes on.
    pub next: int,
    /// The errors found in the text of this value, in the order of the text.
    pub errors: Seq<ParseError>,
    /// Whether parsing stops here, because the last error cannot be
    /// recovered from.
    pub halted: bool,
}

/// The literal ended before `next` and wrote `value`.
pub open spec fn accepted(value: Term, next: int) -> Outcome {
    Outcome { value: Some(value), next, errors: Seq::empty(), halted: false }
}

/// Parsing stops at `at` with `errors`.
pub open spec fn refused(errors: Seq<ParseError>, at: int) -> Outcome {
    Outcome { value: None, next: at, errors, halted: true }
}

/// A composite literal ended before `next`; it wrote `value` unless one of
/// its members held an error.
pub open spec fn closed(value: Term, errors: Seq<ParseError>, next: int) -> Outcome {
    Outcome {
        value: if errors.len() == 0 {
            Some(value)
        } else {
            None
        },
        next,
        errors,
        halted: false,
    }
}

/// `true` or `false`.
pub open spec fn bool_at(text: Seq<char>, pos: int) -> Outcome {
    let at = skip_spaces(text, pos);
    if has_word(text, at, seq!['t', 'r', 'u', 'e']) {
        accepted(Term::Bool(true), skip_spaces(text, at + 4))
    } else if has_word(text, at, seq!['f', 'a', 'l', 's', 'e']) {
        accepted(Term::Bool(false), skip_spaces(text, at + 5))
    } else {
        refused(seq![error_at(ErrorKind::LexicalError, at, Expected::Bool)], at)
    }
}

/// The value of width `kind` that holds `n`.
pub open spec fn integer_term(kind: IntegerKind, n: int) -> Term {
    match kind {
        IntegerKind::U8 => Term::U8(n as u8),
        IntegerKind::I16 => Term::I16(n as i16),
        IntegerKind::U16 => Term::U16(n as u16),
        IntegerKind::I32 => Term::I32(n as i32),
        IntegerKind::U32 => Term::U32(n as u32),
        IntegerKind::I64 => Term::I64(n as i64),
        IntegerKind::U64 => Term::U64(n as u64),
    }
}

/// The shape of the integers of width `kind`.
pub open spec fn integer_shape(kind: IntegerKind) -> Shape {
    match kind {
        IntegerKind::U8 => Shape::U8,
        IntegerKind::I16 => Shape::I16,
        IntegerKind::U16 => Shape::U16,
        IntegerKind::I32 => Shape::I32,
        IntegerKind::U32 => Shape::U32,
        IntegerKind::I64 => Shape::I64,
        IntegerKind::U64 => Shape::U64,
    }
}

/// An integer of width `kind`: one or more decimal digits, after a `-` if
/// the width is signed and the number negative.  A number that the width
/// cannot hold is refused with a range error.
pub open spec fn integer_at(kind: IntegerKind, text: Seq<char>, pos: int) -> Outcome {
    let at = skip_spaces(text, pos);
    let negative = kind.signed() && has_char(text, at, '-');
    let first = if negative {
        at + 1
    } else {
        at
    };
    let end = digits_end(text, first);
    let magnitude = decimal_value(text, first, end);
    let n = if negative {
        -magnitude
    } else {
        magnitude
    };
    if end <= first {
        refused(seq![error_at(ErrorKind::LexicalError, first, Expected::Digit)], first)
    } else if !kind.holds(n) {
        refused(seq![error_at(ErrorKind::RangeError, at, Expected::Integer(kind))], at)
    } else {
        accepted(integer_term(kind, n), skip_spaces(text, end))
    }
}

/// Where the floating point literal whose digits start at `first` ends:
/// after the digits, or after the point and the digits that follow it, if
/// there are any.
pub open spec fn float_end(text: Seq<char>, first: int) -> int {
    let whole_end = digits_end(text, first);
    let fraction_end = digits_end(text, whole_end + 1);
    if has_char(text, whole_end, '.') && fraction_end > whole_end + 1 {
        fraction_end
    } else {
        whole_end
    }
}

/// A floating point number: an optional `-`, one or more digits, and
/// optionally a `.` with one or more digits.  The value holds the text.
pub open spec fn float_at(text: Seq<char>, pos: int) -> Outcome {
    let at = skip_spaces(text, pos);
    let first = if has_char(text, at, '-') {
        at + 1
    } else {
        at
    };
    let end = float_end(text, first);
    if digits_end(text, first) <= first {
        refused(seq![error_at(ErrorKind::LexicalError, first, Expected::Digit)], first)
    } else {
        accepted(Term::F64(text.subrange(at, end)), skip_spaces(text, end))
    }
}

/// The character that a one-letter escape stands for.
pub open spec fn simple_escape(c: char) -> Option<char> {
    if c == '\\' || c == '/' || c == '"' {
        Some(c)
    } else if c == 'b' {
        Some('\u{8}')
    } else if c == 'f' {
        Some('\u{c}')
    } else if c == 'n' {
        Some('\n')
    } else if c == 'r' {
        Some('\r')
    } else if c == 't' {
        Some('\t')
    } else {
        None
    }
}

/// How many of the four positions from `pos` on hold a hexadecimal digit,
/// counted up to the first that does not.
pub open spec fn hex_run(text: Seq<char>, pos: int) -> int {
    if !(0 <= pos < text.len() && is_hex_digit(text[pos])) {
        0
    } else if !(pos + 1 < text.len() && is_hex_digit(text[pos + 1])) {
        1
    } else if !(pos + 2 < text.len() && is_hex_digit(text[pos + 2])) {
        2
    } else if !(pos + 3 < text.len() && is_hex_digit(text[pos + 3])) {
        3
    } else {
        4
    }
}

/// The number that the four hexadecimal digits from `pos` on write.
pub open spec fn hex_code(text: Seq<char>, pos: int) -> int {
    4096 * hex_value(text[pos]) + 256 * hex_value(text[pos + 1]) + 16 * hex_value(text[pos + 2])
        + hex_value(text[pos + 3])
}

/// Whether `code`, below `0x10000`, is the code of a character: whether it
/// is no surrogate.
pub open spec fn is_scalar(code: int) -> bool {
    0 <= code < 0xD800 || 0xE000 <= code < 0x10000
}

/// What reading the inside of a quoted text comes to.
pub struct Quoted {
    /// The characters read, escapes resolved.
    pub content: Seq<char>,
    /// The position after the closing quote, or the position at which the
    /// text went wrong.
    pub end: int,
    /// The errors found.  If the text is not `closed`, the last of them is
    /// the one that ended the reading.
    pub errors: Seq<ParseError>,
    /// Whether the closing quote was reached.
    pub closed: bool,
}

/// Reading stops at `at`, where `expected` is missing.
pub open spec fn broken(
    content: Seq<char>,
    errors: Seq<ParseError>,
    at: int,
    expected: Expected,
) -> Quoted {
    Quoted {
        content,
        end: at,
        errors: errors.push(error_at(ErrorKind::LexicalError, at, expected)),
        closed: false,
    }
}

/// Reads the inside of a quoted text from `pos`, after `content` and
/// `errors` have been read: any character but `\` and `"` stands for
/// itself, `\` with one of `\ / " b f n r t` for one character, and `\u`
/// with four hexadecimal digits for the character with that code.  Where
/// the digits name no character, U+FFFD takes its place, an error is noted
/// and reading goes on.
pub open spec fn quoted_from(
    text: Seq<char>,
    pos: int,
    content: Seq<char>,
    errors: Seq<ParseError>,
) -> Quoted
    decreases text.len() - pos,
{
    if !(0 <= pos < text.len()) {
        broken(content, errors, pos, Expected::ClosingQuote)
    } else if text[pos] == '"' {
        Quoted { content, end: pos + 1, errors, closed: true }
    } else if text[pos] != '\\' {
        quoted_from(text, pos + 1, content.push(text[pos]), errors)
    } else if !(pos + 1 < text.len()) {
        broken(content, errors, pos + 1, Expected::Escape)
    } else if text[pos + 1] == 'u' {
        if hex_run(text, pos + 2) < 4 {
            broken(content, errors, pos + 2 + hex_run(text, pos + 2), Expected::HexDigit)
        } else if is_scalar(hex_code(text, pos + 2)) {
            quoted_from(text, pos + 6, content.push(hex_code(text, pos + 2) as char), errors)
        } else {
            quoted_from(
                text,
                pos + 6,
                content.push('\u{FFFD}'),
                errors.push(error_at(ErrorKind::LexicalError, pos, Expected::UnicodeScalar)),
            )
        }
    } else {
        match simple_escape(text[pos + 1]) {
            Some(c) => quoted_from(text, pos + 2, content.push(c), errors),
            None => broken(content, errors, pos + 1, Expected::Escape),
        }
    }
}

/// The first position at or after `pos` that holds `}` or `]`, or the
/// length of the text if none does.
pub open spec fn closer_from(text: Seq<char>, pos: int) -> int
    decreases text.len() - pos,
{
    if 0 <= pos < text.len() && text[pos] != '}' && text[pos] != ']' {
        closer_from(text, pos + 1)
    } else {
        pos
    }
}

/// A string went wrong at `from`: parsing goes on at the next `}` or `]`,
/// and stops if there is none.
pub open spec fn recovered(text: Seq<char>, from: int, errors: Seq<ParseError>) -> Outcome {
    let stop = closer_from(text, from);
    Outcome { value: None, next: stop, errors, halted: stop >= text.len() }
}

/// A string: a quoted text.  A malformed string does not end the parse
/// where a `}` or `]` follows (see [`recovered`]).
pub open spec fn string_at(text: Seq<char>, pos: int) -> Outcome {
    let at = skip_spaces(text, pos);
    let quoted = quoted_from(text, at + 1, Seq::empty(), Seq::empty());
    if !has_char(text, at, '"') {
        recovered(
            text,
            at,
            seq![error_at(ErrorKind::LexicalError, at, Expected::OpeningQuote)],
        )
    } else if !quoted.closed {
        recovered(text, quoted.end, quoted.errors)
    } else {
        closed(Term::Str(quoted.content), quoted.errors, skip_spaces(text, quoted.end))
    }
}

/// The two kinds of quoted text whose content the bus has rules for.
#[derive(Debug, Clone, Copy, PartialEq, Eq, Structural)]
pub enum Checked {
    Signature,
    ObjectPath,
}

impl Checked {
    /// Whether `content` is legal for this kind.
    pub open spec fn legal(self, content: Seq<char>) -> bool {
        match self {
            Checked::Signature => signature_accepted(content),
            Checked::ObjectPath => is_object_path(content),
        }
    }

    /// The value of this kind with the text `content`.
    pub open spec fn term(self, content: Seq<char>) -> Term {
        match self {
            Checked::Signature => Term::Signature(content),
            Checked::ObjectPath => Term::ObjectPath(content),
        }
    }

    /// What an illegal content of this kind should have been.
    pub open spec fn expected(self) -> Expected {
        match self {
            Checked::Signature => Expected::SignatureText,
            Checked::ObjectPath => Expected::ObjectPathText,
        }
    }
}

/// A signature or an object path: a quoted text whose content is legal for
/// `kind`.  Nothing is recovered from here.
pub open spec fn checked_at(kind: Checked, text: Seq<char>, pos: int) -> Outcome {
    let at = skip_spaces(text, pos);
    let quoted = quoted_from(text, at + 1, Seq::empty(), Seq::empty());
    if !has_char(text, at, '"') {
        refused(seq![error_at(ErrorKind::LexicalError, at, Expected::OpeningQuote)], at)
    } else if !quoted.closed {
        refused(quoted.errors, quoted.end)
    } else if !kind.legal(quoted.content) {
        refused(
            quoted.errors.push(error_at(ErrorKind::SemanticValidationError, at, kind.expected())),
            at,
        )
    } else {
        closed(kind.term(quoted.content), quoted.errors, skip_spaces(text, quoted.end))
    }
}

/// `items` and the value of the next member, if it has one.
pub open spec fn with_item(items: Seq<Term>, value: Option<Term>) -> Seq<Term> {
    match value {
        Some(item) => items.push(item),
        None => items,
    }
}

/// The position of the first pair of `entries` at or after `from` whose key
/// is `key`, or the length of `entries` if no pair there has that key.
pub open spec fn key_index_from(entries: Seq<(Term, Term)>, key: Term, from: int) -> int
    decreases entries.len() - from,
{
    if 0 <= from < entries.len() && entries[from].0 != key {
        key_index_from(entries, key, from + 1)
    } else {
        from
    }
}

/// The position of the first pair of `entries` whose key is `key`, or the
/// length of `entries` if no pair has that key.
pub open spec fn key_index(entries: Seq<(Term, Term)>, key: Term) -> int {
    key_index_from(entries, key, 0)
}

/// `entries` after `key` has been given `value`: a key that is already
/// there keeps its place and gets the new value, a new key goes to the end.
pub open spec fn with_entry(entries: Seq<(Term, Term)>, key: Term, value: Term) -> Seq<
    (Term, Term),
> {
    let index = key_index(entries, key);
    if 0 <= index < entries.len() {
        entries.update(index, (key, value))
    } else {
        entries.push((key, value))
    }
}

/// `entries` and the next pair, if both its key and its value were read.
pub open spec fn with_pair(entries: Seq<(Term, Term)>, key: Option<Term>, value: Option<Term>) -> Seq<
    (Term, Term),
> {
    match (key, value) {
        (Some(k), Some(v)) => with_entry(entries, k, v),
        _ => entries,
    }
}

/// The value of shape `shape` whose literal starts at `pos`, after any
/// white space.
///
/// Every recursive call is made at a position behind an opening token or a
/// separator.  The conditions of the form `pos <= at` say so for the sake
/// of termination; they always hold, since reading never moves back (see
/// `laws::soundness`).
pub open spec fn value_at(shape: Shape, text: Seq<char>, pos: int) -> Outcome
    decreases text.len() - pos, 1int,
{
    match shape {
        Shape::Unit | Shape::Fd => {
            let at = skip_spaces(text, pos);
            refused(seq![error_at(ErrorKind::UnsupportedTypeError, at, Expected::LiteralType)], at)
        },
        Shape::U8 => integer_at(IntegerKind::U8, text, pos),
        Shape::Bool => bool_at(text, pos),
        Shape::I16 => integer_at(IntegerKind::I16, text, pos),
        Shape::U16 => integer_at(IntegerKind::U16, text, pos),
        Shape::I32 => integer_at(IntegerKind::I32, text, pos),
        Shape::U32 => integer_at(IntegerKind::U32, text, pos),
        Shape::I64 => integer_at(IntegerKind::I64, text, pos),
        Shape::U64 => integer_at(IntegerKind::U64, text, pos),
        Shape::F64 => float_at(text, pos),
        Shape::Str => string_at(text, pos),
        Shape::Signature => checked_at(Checked::Signature, text, pos),
        Shape::ObjectPath => checked_at(Checked::ObjectPath, text, pos),
        Shape::Variant => variant_at(text, pos),
        Shape::Array(element) => array_at(*element, text, pos),
        Shape::Dict(key, value) => dict_at(*key, *value, text, pos),
        Shape::Structure(fields) => structure_at(fields, text, pos),
    }
}

/// A variant: a signature literal, `->`, and a value of the shape that the
/// signature names.
pub open spec fn variant_at(text: Seq<char>, pos: int) -> Outcome
    decreases text.len() - pos, 0int,
{
    let at = skip_spaces(text, pos);
    let literal = checked_at(Checked::Signature, text, pos);
    let content = quoted_from(text, at + 1, Seq::empty(), Seq::empty()).content;
    if literal.halted {
        literal
    } else if decoded(content) is None {
        refused(
            literal.errors.push(
                error_at(ErrorKind::SemanticValidationError, at, Expected::SignatureText),
            ),
            at,
        )
    } else if !(has_word(text, literal.next, seq!['-', '>']) && pos <= literal.next) {
        refused(
            literal.errors.push(
                error_at(ErrorKind::StructuralError, literal.next, Expected::Arrow),
            ),
            literal.next,
        )
    } else {
        let inner = value_at(decoded(content).unwrap(), text, literal.next + 2);
        let errors = literal.errors + inner.errors;
        Outcome {
            value: if errors.len() == 0 && inner.value is Some {
                Some(Term::Variant(Box::new(inner.value.unwrap())))
            } else {
                None
            },
            next: inner.next,
            errors,
            halted: inner.halted,
        }
    }
}

/// An array: `[`, values of shape `element` with `,` between them, `]`.
pub open spec fn array_at(element: Shape, text: Seq<char>, pos: int) -> Outcome
    decreases text.len() - pos, 0int,
{
    let at = skip_spaces(text, pos);
    let first = skip_spaces(text, at + 1);
    if !(has_char(text, at, '[') && pos <= at) {
        refused(seq![error_at(ErrorKind::StructuralError, at, Expected::ArrayOpen)], at)
    } else if has_char(text, first, ']') {
        accepted(Term::Array(element, Seq::empty()), skip_spaces(text, first + 1))
    } else {
        items_from(element, text, at + 1, Seq::empty(), Seq::empty())
    }
}

/// The elements of an array from `pos` on, after `items` have been read and
/// `errors` found.
pub open spec fn items_from(
    element: Shape,
    text: Seq<char>,
    pos: int,
    items: Seq<Term>,
    errors: Seq<ParseError>,
) -> Outcome
    decreases text.len() - pos, 2int,
{
    let item = value_at(element, text, pos);
    let at = skip_spaces(text, item.next);
    let items = with_item(items, item.value);
    let errors = errors + item.errors;
    if item.halted {
        refused(errors, item.next)
    } else if has_char(text, at, ',') && pos <= at {
        items_from(element, text, at + 1, items, errors)
    } else if has_char(text, at, ']') {
        closed(Term::Array(element, items), errors, skip_spaces(text, at + 1))
    } else {
        refused(errors.push(error_at(ErrorKind::StructuralError, at, Expected::ArrayNext)), at)
    }
}

/// A dictionary: `{`, pairs of a key, `:` and a value with `,` between
/// them, `}`.  A key that comes again replaces the value it had.
pub open spec fn dict_at(key: Shape, value: Shape, text: Seq<char>, pos: int) -> Outcome
    decreases text.len() - pos, 0int,
{
    let at = skip_spaces(text, pos);
    let first = skip_spaces(text, at + 1);
    if !(has_char(text, at, '{') && pos <= at) {
        refused(seq![error_at(ErrorKind::StructuralError, at, Expected::DictOpen)], at)
    } else if has_char(text, first, '}') {
        accepted(Term::Dict(key, value, Seq::empty()), skip_spaces(text, first + 1))
    } else {
        pairs_from(key, value, text, at + 1, Seq::empty(), Seq::empty())
    }
}

/// The pairs of a dictionary from `pos` on, after `entries` have been read
/// and `errors` found.
pub open spec fn pairs_from(
    key: Shape,
    value: Shape,
    text: Seq<char>,
    pos: int,
    entries: Seq<(Term, Term)>,
    errors: Seq<ParseError>,
) -> Outcome
    decreases text.len() - pos, 2int,
{
    let k = value_at(key, text, pos);
    let colon = skip_spaces(text, k.next);
    if k.halted {
        refused(errors + k.errors, k.next)
    } else if !(has_char(text, colon, ':') && pos <= colon) {
        refused(
            (errors + k.errors).push(
                error_at(ErrorKind::StructuralError, colon, Expected::DictColon),
            ),
            colon,
        )
    } else {
        let v = value_at(value, text, colon + 1);
        let at = skip_spaces(text, v.next);
        let entries = with_pair(entries, k.value, v.value);
        let errors = errors + k.errors + v.errors;
        if v.halted {
            refused(errors, v.next)
        } else if has_char(text, at, ',') && pos <= at {
            pairs_from(key, value, text, at + 1, entries, errors)
        } else if has_char(text, at, '}') {
            closed(Term::Dict(key, value, entries), errors, skip_spaces(text, at + 1))
        } else {
            refused(errors.push(error_at(ErrorKind::StructuralError, at, Expected::DictNext)), at)
        }
    }
}

/// A structure: `(`, one value for each of `fields` in their order with `,`
/// between them, `)`.
pub open spec fn structure_at(fields: Seq<Shape>, text: Seq<char>, pos: int) -> Outcome
    decreases text.len() - pos, 0int,
{
    let at = skip_spaces(text, pos);
    let first = skip_spaces(text, at + 1);
    if !(has_char(text, at, '(') && pos <= at) {
        refused(seq![error_at(ErrorKind::StructuralError, at, Expected::StructureOpen)], at)
    } else if fields.len() > 0 {
        members_from(fields, 0, text, at + 1, Seq::empty(), Seq::empty())
    } else if has_char(text, first, ')') {
        accepted(Term::Structure(Seq::empty()), skip_spaces(text, first + 1))
    } else {
        refused(seq![error_at(ErrorKind::StructuralError, first, Expected::StructureClose)], first)
    }
}

/// The members of a structure from the one at `index` on, which starts at
/// `pos`, after `members` have been read and `errors` found.
pub open spec fn members_from(
    fields: Seq<Shape>,
    index: int,
    text: Seq<char>,
    pos: int,
    members: Seq<Term>,
    errors: Seq<ParseError>,
) -> Outcome
    decreases text.len() - pos, 2int,
{
    if !(0 <= index < fields.len()) {
        refused(errors, pos)
    } else {
        let member = value_at(fields[index], text, pos);
        let at = skip_spaces(text, member.next);
        let members = with_item(members, member.value);
        let errors = errors + member.errors;
        if member.halted {
            refused(errors, member.next)
        } else if index + 1 == fields.len() {
            if has_char(text, at, ')') {
                closed(Term::Structure(members), errors, skip_spaces(text, at + 1))
            } else {
                refused(
                    errors.push(error_at(ErrorKind::StructuralError, at, Expected::StructureClose)),
                    at,
                )
            }
        } else if has_char(text, at, ',') && pos <= at {
            members_from(fields, index + 1, text, at + 1, members, errors)
        } else {
            refused(
                errors.push(error_at(ErrorKind::StructuralError, at, Expected::StructureComma)),
                at,
            )
        }
    }
}

/// What parsing `text` as a value of shape `shape` gives: the value that
/// the literal at the start of `text` writes, or the errors found, of which
/// there is at least one.  What follows the literal is not looked at.
pub open spec fn parsed(shape: Shape, text: Seq<char>) -> Result<Term, Seq<ParseError>> {
    let outcome = value_at(shape, text, 0);
    if outcome.errors.len() == 0 && outcome.value is Some {
        Ok(outcome.value.unwrap())
    } else {
        Err(outcome.errors)
    }
}

} // verus!
