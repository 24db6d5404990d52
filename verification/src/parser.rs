use vstd::prelude::*;
use crate::chars::{chars_of, has_word, skip_whitespace};
use crate::error::{error_at, CompileError, ErrorKind, Expected, IntegerKind, ParseError};
use crate::grammar::{
    array_at,
    closed,
    dict_at,
    items_from,
    key_index,
    key_index_from,
    members_from,
    pairs_from,
    parsed,
    structure_at,
    value_at,
    variant_at,
    with_entry,
    with_item,
    with_pair,
    Checked,
    };
use crate::laws::soundness::lemma_parsed_sound;
use crate::lexer::{
    holds_char,
    lex_bool,
    lex_checked,
    lex_float,
    lex_integer,
    lex_string,
    Step,
};
use crate::signature::{lemma_structure_shape, shapes_of, Shape, Signature};
use crate::value::{
    lemma_array_term,
    lemma_dict_term,
    lemma_structure_term,
    pairs_of,
    terms_of,
    Term,
    Value,
};

verus! {

/// Notes a structural error at `at` and stops.
fn stop(errors: &mut Vec<ParseError>, at: usize, expected: Expected) -> (step: Step)
    ensures
        final(errors)@ == old(errors)@.push(
            error_at(ErrorKind::StructuralError, at as int, expected),
        ),
        step.value is None,
        step.halted,
        step.next == at,
{
    errors.push(ParseError { kind: ErrorKind::StructuralError, offset: at, expected });
    Step { value: None, next: at, halted: true }
}

/// Gives `key` the value `value` in `entries`: a key that is already there
/// keeps its place and gets the new value, a new key goes to the end.
pub fn insert_entry(entries: &mut Vec<(Value, Value)>, key: Value, value: Value)
    ensures
        pairs_of(final(entries)@) == with_entry(pairs_of(old(entries)@), key@, value@),
{
    let ghost before = pairs_of(entries@);
    let mut index: usize = 0;
    while index < entries.len() && !entries[index].0.same(&key)
        invariant
            entries@ == old(entries)@,
            before == pairs_of(entries@),
            index <= entries.len(),
            key_index(before, key@) == key_index_from(before, key@, index as int),
        decreases entries.len() - index,
    {
        index += 1;
    }
    if index < entries.len() {
        entries.set(index, (key, value));
        assert(pairs_of(entries@) =~= before.update(index as int, (key@, value@)));
    } else {
        entries.push((key, value));
        assert(pairs_of(entries@) =~= before.push((key@, value@)));
    }
}

/// Reads the value of signature `signature` whose literal starts at `pos`,
/// after any white space, and adds the errors found to `errors`.
pub fn parse_value(signature: &Signature, text: &[char], pos: usize, errors: &mut Vec<ParseError>) -> (step:
    Step)
    requires
        pos <= text@.len(),
    ensures
        step.agrees(value_at(signature@, text@, pos as int), old(errors)@, final(errors)@),
        pos <= step.next <= text@.len(),
    decreases text@.len() - pos, 1int,
{
    match signature {
        Signature::Unit | Signature::Fd => {
            let at = skip_whitespace(text, pos);
            errors.push(
                ParseError {
                    kind: ErrorKind::UnsupportedTypeError,
                    offset: at,
                    expected: Expected::LiteralType,
                },
            );
            assert(final(errors)@ =~= old(errors)@ + seq![
                error_at(ErrorKind::UnsupportedTypeError, at as int, Expected::LiteralType),
            ]);
            Step { value: None, next: at, halted: true }
        },
        Signature::U8 => lex_integer(IntegerKind::U8, text, pos, errors),
        Signature::Bool => lex_bool(text, pos, errors),
        Signature::I16 => lex_integer(IntegerKind::I16, text, pos, errors),
        Signature::U16 => lex_integer(IntegerKind::U16, text, pos, errors),
        Signature::I32 => lex_integer(IntegerKind::I32, text, pos, errors),
        Signature::U32 => lex_integer(IntegerKind::U32, text, pos, errors),
        Signature::I64 => lex_integer(IntegerKind::I64, text, pos, errors),
        Signature::U64 => lex_integer(IntegerKind::U64, text, pos, errors),
        Signature::F64 => lex_float(text, pos, errors),
        Signature::Str => lex_string(text, pos, errors),
        Signature::Signature => lex_checked(Checked::Signature, text, pos, errors).step,
        Signature::ObjectPath => lex_checked(Checked::ObjectPath, text, pos, errors).step,
        Signature::Variant => parse_variant(text, pos, errors),
        Signature::Array(element) => parse_array(element, text, pos, errors),
        Signature::Dict(key, value) => parse_dict(key, value, text, pos, errors),
        Signature::Structure(fields) => {
            proof {
                lemma_structure_shape(*fields);
            }
            parse_structure(fields, text, pos, errors)
        },
    }
}

/// Reads a variant: a signature literal, `->`, and a value of the
/// signature that the literal names.
fn parse_variant(text: &[char], pos: usize, errors: &mut Vec<ParseError>) -> (step: Step)
    requires
        pos <= text@.len(),
    ensures
        step.agrees(variant_at(text@, pos as int), old(errors)@, final(errors)@),
        pos <= step.next <= text@.len(),
    decreases text@.len() - pos, 0int,
{
    let ghost before = errors@;
    let mark = errors.len();
    let at = skip_whitespace(text, pos);
    let literal = lex_checked(Checked::Signature, text, pos, errors);
    if literal.step.halted {
        return literal.step;
    }
    let ghost lit = crate::grammar::checked_at(Checked::Signature, text@, pos as int);
    let signature = match Signature::decode(literal.content.as_str()) {
        Some(signature) => signature,
        None => {
            errors.push(
                ParseError {
                    kind: ErrorKind::SemanticValidationError,
                    offset: at,
                    expected: Expected::SignatureText,
                },
            );
            assert(final(errors)@ =~= before + variant_at(text@, pos as int).errors);
            return Step { value: None, next: at, halted: true };
        },
    };
    let arrow = literal.step.next;
    if !(holds_char(text, arrow, '-') && holds_char(text, arrow + 1, '>')) {
        assert(!has_word(text@, arrow as int, seq!['-', '>'])) by {
            if has_word(text@, arrow as int, seq!['-', '>']) {
                let w = text@.subrange(arrow as int, arrow + 2);
                assert(w[0] == '-' && w[1] == '>');
            }
        }
        errors.push(
            ParseError {
                kind: ErrorKind::StructuralError,
                offset: arrow,
                expected: Expected::Arrow,
            },
        );
        assert(final(errors)@ =~= before + variant_at(text@, pos as int).errors);
        return Step { value: None, next: arrow, halted: true };
    }
    assert(text@.subrange(arrow as int, arrow + 2) =~= seq!['-', '>']);
    let inner = parse_value(&signature, text, arrow + 2, errors);
    let ghost found = value_at(signature@, text@, arrow + 2);
    assert(final(errors)@ =~= before + (lit.errors + found.errors));
    let value = match inner.value {
        Some(value) => if errors.len() == mark {
            Some(Value::Variant(Box::new(value)))
        } else {
            None
        },
        None => None,
    };
    Step { value, next: inner.next, halted: inner.halted }
}

/// Reads an array of values of signature `element`.
fn parse_array(element: &Signature, text: &[char], pos: usize, errors: &mut Vec<ParseError>) -> (step:
    Step)
    requires
        pos <= text@.len(),
    ensures
        step.agrees(array_at(element@, text@, pos as int), old(errors)@, final(errors)@),
        pos <= step.next <= text@.len(),
    decreases text@.len() - pos, 0int,
{
    let ghost before = errors@;
    let mark = errors.len();
    let at = skip_whitespace(text, pos);
    if !holds_char(text, at, '[') {
        let step = stop(errors, at, Expected::ArrayOpen);
        assert(final(errors)@ =~= before + array_at(element@, text@, pos as int).errors);
        return step;
    }
    let first = skip_whitespace(text, at + 1);
    if holds_char(text, first, ']') {
        let next = skip_whitespace(text, first + 1);
        let items: Vec<Value> = Vec::new();
        proof {
            lemma_array_term(*element, items);
            assert(terms_of(items@) =~= Seq::empty());
            assert(final(errors)@ =~= before + Seq::<ParseError>::empty());
        }
        return Step { value: Some(Value::Array(element.clone(), items)), next, halted: false };
    }
    let mut items: Vec<Value> = Vec::new();
    let mut from: usize = at + 1;
    let ghost mut found: Seq<ParseError> = Seq::empty();
    proof {
        assert(terms_of(items@) =~= Seq::empty());
        assert(errors@ =~= before + found);
    }
    loop
        invariant
            before == old(errors)@,
            mark == before.len(),
            pos <= at < from <= text@.len(),
            errors@ == before + found,
            array_at(element@, text@, pos as int) == items_from(
                element@,
                text@,
                from as int,
                terms_of(items@),
                found,
            ),
        decreases text@.len() - from,
    {
        let ghost seen = terms_of(items@);
        let item = parse_value(element, text, from, errors);
        let ghost outcome = value_at(element@, text@, from as int);
        proof {
            assert(errors@ =~= before + (found + outcome.errors));
            found = found + outcome.errors;
        }
        match item.value {
            Some(value) => {
                assert(terms_of(items@.push(value)) =~= seen.push(value@));
                items.push(value);
            },
            None => {},
        }
        assert(terms_of(items@) == with_item(seen, outcome.value));
        if item.halted {
            return Step { value: None, next: item.next, halted: true };
        }
        let at = skip_whitespace(text, item.next);
        if holds_char(text, at, ',') {
            from = at + 1;
        } else if holds_char(text, at, ']') {
            let next = skip_whitespace(text, at + 1);
            let value = if errors.len() == mark {
                proof {
                    lemma_array_term(*element, items);
                }
                Some(Value::Array(element.clone(), items))
            } else {
                None
            };
            return Step { value, next, halted: false };
        } else {
            let step = stop(errors, at, Expected::ArrayNext);
            assert(final(errors)@ =~= before + array_at(element@, text@, pos as int).errors);
            return step;
        }
    }
}

/// Reads a dictionary with keys of signature `key` and values of signature
/// `value`.
fn parse_dict(
    key: &Signature,
    value: &Signature,
    text: &[char],
    pos: usize,
    errors: &mut Vec<ParseError>,
) -> (step: Step)
    requires
        pos <= text@.len(),
    ensures
        step.agrees(dict_at(key@, value@, text@, pos as int), old(errors)@, final(errors)@),
        pos <= step.next <= text@.len(),
    decreases text@.len() - pos, 0int,
{
    let ghost before = errors@;
    let mark = errors.len();
    let at = skip_whitespace(text, pos);
    if !holds_char(text, at, '{') {
        let step = stop(errors, at, Expected::DictOpen);
        assert(final(errors)@ =~= before + dict_at(key@, value@, text@, pos as int).errors);
        return step;
    }
    let first = skip_whitespace(text, at + 1);
    if holds_char(text, first, '}') {
        let next = skip_whitespace(text, first + 1);
        let entries: Vec<(Value, Value)> = Vec::new();
        proof {
            lemma_dict_term(*key, *value, entries);
            assert(pairs_of(entries@) =~= Seq::empty());
            assert(final(errors)@ =~= before + Seq::<ParseError>::empty());
        }
        return Step {
            value: Some(Value::Dict(key.clone(), value.clone(), entries)),
            next,
            halted: false,
        };
    }
    let mut entries: Vec<(Value, Value)> = Vec::new();
    let mut from: usize = at + 1;
    let ghost mut found: Seq<ParseError> = Seq::empty();
    proof {
        assert(pairs_of(entries@) =~= Seq::empty());
        assert(errors@ =~= before + found);
    }
    loop
        invariant
            before == old(errors)@,
            mark == before.len(),
            pos <= at < from <= text@.len(),
            errors@ == before + found,
            dict_at(key@, value@, text@, pos as int) == pairs_from(
                key@,
                value@,
                text@,
                from as int,
                pairs_of(entries@),
                found,
            ),
        decreases text@.len() - from,
    {
        let ghost seen = pairs_of(entries@);
        let ghost target = dict_at(key@, value@, text@, pos as int);
        let k = parse_value(key, text, from, errors);
        let ghost k_outcome = value_at(key@, text@, from as int);
        assert(errors@ =~= before + (found + k_outcome.errors));
        if k.halted {
            return Step { value: None, next: k.next, halted: true };
        }
        let colon = skip_whitespace(text, k.next);
        if !holds_char(text, colon, ':') {
            let step = stop(errors, colon, Expected::DictColon);
            assert(final(errors)@ =~= before + target.errors);
            return step;
        }
        let v = parse_value(value, text, colon + 1, errors);
        let ghost v_outcome = value_at(value@, text@, colon + 1);
        proof {
            assert(errors@ =~= before + (found + k_outcome.errors + v_outcome.errors));
            found = found + k_outcome.errors + v_outcome.errors;
        }
        match (k.value, v.value) {
            (Some(k_value), Some(v_value)) => {
                insert_entry(&mut entries, k_value, v_value);
            },
            _ => {},
        }
        assert(pairs_of(entries@) == with_pair(seen, k_outcome.value, v_outcome.value));
        if v.halted {
            return Step { value: None, next: v.next, halted: true };
        }
        let at = skip_whitespace(text, v.next);
        if holds_char(text, at, ',') {
            from = at + 1;
        } else if holds_char(text, at, '}') {
            let next = skip_whitespace(text, at + 1);
            let result = if errors.len() == mark {
                proof {
                    lemma_dict_term(*key, *value, entries);
                }
                Some(Value::Dict(key.clone(), value.clone(), entries))
            } else {
                None
            };
            return Step { value: result, next, halted: false };
        } else {
            let step = stop(errors, at, Expected::DictNext);
            assert(final(errors)@ =~= before + target.errors);
            return step;
        }
    }
}

/// Reads a structure with one member for each of `fields`.
fn parse_structure(
    fields: &Vec<Signature>,
    text: &[char],
    pos: usize,
    errors: &mut Vec<ParseError>,
) -> (step: Step)
    requires
        pos <= text@.len(),
    ensures
        step.agrees(
            structure_at(shapes_of(fields@), text@, pos as int),
            old(errors)@,
            final(errors)@,
        ),
        pos <= step.next <= text@.len(),
    decreases text@.len() - pos, 0int,
{
    let ghost before = errors@;
    let ghost shapes = shapes_of(fields@);
    let ghost target = structure_at(shapes, text@, pos as int);
    let mark = errors.len();
    let at = skip_whitespace(text, pos);
    if !holds_char(text, at, '(') {
        let step = stop(errors, at, Expected::StructureOpen);
        assert(final(errors)@ =~= before + target.errors);
        return step;
    }
    if fields.len() == 0 {
        let first = skip_whitespace(text, at + 1);
        if holds_char(text, first, ')') {
            let next = skip_whitespace(text, first + 1);
            let members: Vec<Value> = Vec::new();
            proof {
                lemma_structure_term(members);
                assert(terms_of(members@) =~= Seq::empty());
                assert(final(errors)@ =~= before + Seq::<ParseError>::empty());
            }
            return Step { value: Some(Value::Structure(members)), next, halted: false };
        } else {
            let step = stop(errors, first, Expected::StructureClose);
            assert(final(errors)@ =~= before + target.errors);
            return step;
        }
    }
    let mut members: Vec<Value> = Vec::new();
    let mut from: usize = at + 1;
    let mut index: usize = 0;
    let ghost mut found: Seq<ParseError> = Seq::empty();
    proof {
        assert(terms_of(members@) =~= Seq::empty());
        assert(errors@ =~= before + found);
    }
    loop
        invariant
            before == old(errors)@,
            mark == before.len(),
            shapes == shapes_of(fields@),
            target == structure_at(shapes, text@, pos as int),
            pos <= at < from <= text@.len(),
            index < fields.len(),
            errors@ == before + found,
            target == members_from(
                shapes,
                index as int,
                text@,
                from as int,
                terms_of(members@),
                found,
            ),
        decreases text@.len() - from,
    {
        let ghost seen = terms_of(members@);
        let member = parse_value(&fields[index], text, from, errors);
        let ghost outcome = value_at(shapes[index as int], text@, from as int);
        proof {
            assert(errors@ =~= before + (found + outcome.errors));
            found = found + outcome.errors;
        }
        match member.value {
            Some(value) => {
                assert(terms_of(members@.push(value)) =~= seen.push(value@));
                members.push(value);
            },
            None => {},
        }
        assert(terms_of(members@) == with_item(seen, outcome.value));
        if member.halted {
            return Step { value: None, next: member.next, halted: true };
        }
        let at = skip_whitespace(text, member.next);
        if index + 1 == fields.len() {
            if holds_char(text, at, ')') {
                let next = skip_whitespace(text, at + 1);
                let value = if errors.len() == mark {
                    proof {
                        lemma_structure_term(members);
                    }
                    Some(Value::Structure(members))
                } else {
                    None
                };
                return Step { value, next, halted: false };
            } else {
                let step = stop(errors, at, Expected::StructureClose);
                assert(final(errors)@ =~= before + target.errors);
                return step;
            }
        } else if holds_char(text, at, ',') {
            from = at + 1;
            index += 1;
        } else {
            let step = stop(errors, at, Expected::StructureComma);
            assert(final(errors)@ =~= before + target.errors);
            return step;
        }
    }
}

/// Whether a parser can be built for `shape`: whether it neither is nor
/// holds the unit type.
pub open spec fn compilable(shape: Shape) -> bool
    decreases shape,
{
    match shape {
        Shape::Unit => false,
        Shape::Array(element) => compilable(*element),
        Shape::Dict(key, value) => compilable(*key) && compilable(*value),
        Shape::Structure(fields) => forall|i: int|
            0 <= i < fields.len() ==> compilable(#[trigger] fields[i]),
        _ => true,
    }
}

/// A structure with a field that no parser can be built for is one that no
/// parser can be built for.
proof fn lemma_field_not_compilable(shapes: Seq<Shape>, i: int)
    requires
        0 <= i < shapes.len(),
        !compilable(shapes[i]),
    ensures
        !compilable(Shape::Structure(shapes)),
{
    assert(Shape::Structure(shapes)->Structure_0 == shapes);
}

/// Whether a parser can be built for `signature`.
pub fn is_compilable(signature: &Signature) -> (r: bool)
    ensures
        r == compilable(signature@),
    decreases signature,
{
    match signature {
        Signature::Unit => false,
        Signature::Array(element) => is_compilable(element),
        Signature::Dict(key, value) => is_compilable(key) && is_compilable(value),
        Signature::Structure(fields) => {
            proof {
                lemma_structure_shape(*fields);
            }
            let mut i: usize = 0;
            while i < fields.len()
                invariant
                    *signature is Structure,
                    signature->Structure_0 == *fields,
                    signature@ == Shape::Structure(shapes_of(fields@)),
                    i <= fields.len(),
                    forall|j: int| 0 <= j < i ==> compilable(#[trigger] shapes_of(fields@)[j]),
                decreases fields.len() - i,
            {
                assert(decreases_to!(*fields => fields[i as int]));
                if !is_compilable(&fields[i]) {
                    let ghost shapes = shapes_of(fields@);
                    proof {
                        lemma_field_not_compilable(shapes, i as int);
                    }
                    return false;
                }
                i += 1;
            }
            true
        },
        _ => true,
    }
}

/// A parser for the literals of one signature.  It is built once and may
/// be used for any number of texts.
pub struct ValueParser {
    signature: Signature,
}

impl Clone for ValueParser {
    fn clone(&self) -> (copy: ValueParser)
        ensures
            copy.shape() == self.shape(),
    {
        proof {
            use_type_invariant(self);
        }
        ValueParser { signature: self.signature.clone() }
    }
}

impl ValueParser {
    /// The shape of the values that this parser reads.
    pub closed spec fn shape(&self) -> Shape {
        self.signature@
    }

    #[verifier::type_invariant]
    spec fn well_formed(&self) -> bool {
        compilable(self.signature@)
    }

    /// The signature that this parser was built for.  It neither is nor
    /// holds the unit type.
    pub fn signature(&self) -> (signature: &Signature)
        ensures
            signature@ == self.shape(),
            compilable(self.shape()),
    {
        proof {
            use_type_invariant(self);
        }
        &self.signature
    }

    /// Parses the literal at the start of `text`, after any white space:
    /// gives its value, which conforms to the parser's shape, or the errors
    /// found, in the order of the text, of which there is at least one.
    /// What follows the literal is not read.
    pub fn parse_chars(&self, text: &[char]) -> (r: Result<Value, Vec<ParseError>>)
        ensures
            answer_of(r) == parsed(self.shape(), text@),
            match r {
                Ok(value) => value@.conforms(self.shape()),
                Err(errors) => errors@.len() > 0,
            },
    {
        let mut errors: Vec<ParseError> = Vec::new();
        let step = parse_value(&self.signature, text, 0, &mut errors);
        proof {
            assert(errors@ =~= value_at(self.shape(), text@, 0).errors);
            lemma_parsed_sound(self.shape(), text@);
        }
        if errors.len() == 0 {
            match step.value {
                Some(value) => Ok(value),
                None => Err(errors),
            }
        } else {
            Err(errors)
        }
    }

    /// Parses the literal at the start of `text`, after any white space:
    /// gives its value, which conforms to the parser's shape, or the errors
    /// found, in the order of the text, of which there is at least one.
    /// What follows the literal is not read.
    pub fn parse(&self, text: &str) -> (r: Result<Value, Vec<ParseError>>)
        ensures
            answer_of(r) == parsed(self.shape(), text@),
            match r {
                Ok(value) => value@.conforms(self.shape()),
                Err(errors) => errors@.len() > 0,
            },
    {
        let chars = chars_of(text);
        self.parse_chars(chars.as_slice())
    }
}

/// What a result of parsing says, in terms of the models.
pub open spec fn answer_of(r: Result<Value, Vec<ParseError>>) -> Result<Term, Seq<ParseError>> {
    match r {
        Ok(value) => Ok(value@),
        Err(errors) => Err(errors@),
    }
}

/// Idempotence.  Parsing the same text with the same parser gives the same
/// each time: two results of `parse` for one parser and one text are
/// either the same value or the same errors.
pub proof fn lemma_parse_idempotent(
    parser: ValueParser,
    text: Seq<char>,
    first: Result<Value, Vec<ParseError>>,
    second: Result<Value, Vec<ParseError>>,
)
    requires
        answer_of(first) == parsed(parser.shape(), text),
        answer_of(second) == parsed(parser.shape(), text),
    ensures
        answer_of(first) == answer_of(second),
        first is Ok <==> second is Ok,
{
}

/// Builds the parser for the literals of `signature`.  There is none for a
/// signature that is or holds the unit type.
pub fn get_parser(signature: Signature) -> (r: Result<ValueParser, CompileError>)
    ensures
        match r {
            Ok(parser) => compilable(signature@) && parser.shape() == signature@,
            Err(error) => !compilable(signature@) && error == CompileError::UnitSignature,
        },
{
    if is_compilable(&signature) {
        Ok(ValueParser { signature })
    } else {
        Err(CompileError::UnitSignature)
    }
}

} // verus!
