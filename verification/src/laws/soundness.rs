use vstd::prelude::*;
use crate::chars::{
    has_char,
    has_word,
    lemma_digits_end_bounds,
    lemma_skip_spaces_bounds,
    skip_spaces,
};
use crate::error::{IntegerKind, ParseError};
use crate::grammar::{
    array_at,
    checked_at,
    dict_at,
    integer_at,
    integer_shape,
    items_from,
    key_index,
    key_index_from,
    members_from,
    pairs_from,
    parsed,
    quoted_from,
    structure_at,
    value_at,
    variant_at,
    with_entry,
    with_item,
    with_pair,
    Checked,
    Outcome,
};
use crate::laws::texts::{
    lemma_closer_from_bounds,
    lemma_float_literal_read,
    lemma_quoted_from_bounds,
};
use crate::signature::{decoded, Shape};
use crate::value::Term;

verus! {

/// What holds of every outcome of reading a value of shape `shape` at
/// `pos`: reading does not move back and stays inside the text; there is a
/// value exactly if there is no error; the value conforms to the shape; and
/// unless reading has stopped, the white space behind the value has been
/// passed.
pub open spec fn sound(outcome: Outcome, shape: Shape, text: Seq<char>, pos: int) -> bool {
    &&& pos <= outcome.next <= text.len()
    &&& (outcome.value is Some <==> outcome.errors.len() == 0)
    &&& (outcome.halted ==> outcome.errors.len() > 0)
    &&& (outcome.value is Some ==> outcome.value.unwrap().conforms(shape))
    &&& (!outcome.halted ==> skip_spaces(text, outcome.next) == outcome.next)
}

/// What holds of every outcome of going on with a composite value after
/// `errors` have been found.
pub open spec fn sound_rest(outcome: Outcome, errors: Seq<ParseError>, shape: Shape, text: Seq<char>, pos: int) -> bool {
    &&& sound(outcome, shape, text, pos)
    &&& outcome.errors.len() >= errors.len()
}

/// The outcome of reading an integer is sound.
pub proof fn lemma_integer_at_sound(kind: IntegerKind, text: Seq<char>, pos: int)
    requires
        0 <= pos <= text.len(),
    ensures
        sound(integer_at(kind, text, pos), integer_shape(kind), text, pos),
{
    let at = skip_spaces(text, pos);
    lemma_skip_spaces_bounds(text, pos);
    let first = if kind.signed() && has_char(text, at, '-') {
        at + 1
    } else {
        at
    };
    lemma_digits_end_bounds(text, first);
    lemma_skip_spaces_bounds(text, crate::chars::digits_end(text, first));
}

/// The outcome of reading a quoted text whose content the bus has rules
/// for is sound.
pub proof fn lemma_checked_at_sound(kind: Checked, text: Seq<char>, pos: int)
    requires
        0 <= pos <= text.len(),
    ensures
        sound(
            checked_at(kind, text, pos),
            match kind {
                Checked::Signature => Shape::Signature,
                Checked::ObjectPath => Shape::ObjectPath,
            },
            text,
            pos,
        ),
{
    let at = skip_spaces(text, pos);
    lemma_skip_spaces_bounds(text, pos);
    if has_char(text, at, '"') {
        lemma_quoted_from_bounds(text, at + 1, Seq::empty(), Seq::empty());
        let quoted = quoted_from(text, at + 1, Seq::empty(), Seq::empty());
        lemma_skip_spaces_bounds(text, quoted.end);
    }
}

/// The outcome of reading a value that is no array, dictionary, structure
/// or variant is sound.
pub proof fn lemma_leaf_sound(shape: Shape, text: Seq<char>, pos: int)
    requires
        0 <= pos <= text.len(),
        !(shape is Array || shape is Dict || shape is Structure || shape is Variant),
    ensures
        sound(value_at(shape, text, pos), shape, text, pos),
{
    let at = skip_spaces(text, pos);
    lemma_skip_spaces_bounds(text, pos);
    match shape {
        Shape::U8 => lemma_integer_at_sound(IntegerKind::U8, text, pos),
        Shape::I16 => lemma_integer_at_sound(IntegerKind::I16, text, pos),
        Shape::U16 => lemma_integer_at_sound(IntegerKind::U16, text, pos),
        Shape::I32 => lemma_integer_at_sound(IntegerKind::I32, text, pos),
        Shape::U32 => lemma_integer_at_sound(IntegerKind::U32, text, pos),
        Shape::I64 => lemma_integer_at_sound(IntegerKind::I64, text, pos),
        Shape::U64 => lemma_integer_at_sound(IntegerKind::U64, text, pos),
        Shape::Bool => {
            lemma_skip_spaces_bounds(text, at + 4);
            lemma_skip_spaces_bounds(text, at + 5);
        },
        Shape::F64 => {
            let first = if has_char(text, at, '-') {
                at + 1
            } else {
                at
            };
            lemma_digits_end_bounds(text, first);
            if crate::chars::digits_end(text, first) > first {
                lemma_float_literal_read(text, at);
                lemma_skip_spaces_bounds(text, crate::grammar::float_end(text, first));
            }
        },
        Shape::Str => {
            if has_char(text, at, '"') {
                lemma_quoted_from_bounds(text, at + 1, Seq::empty(), Seq::empty());
                let quoted = quoted_from(text, at + 1, Seq::empty(), Seq::empty());
                lemma_skip_spaces_bounds(text, quoted.end);
                lemma_closer_from_bounds(text, quoted.end);
            } else {
                lemma_closer_from_bounds(text, at);
            }
        },
        Shape::Signature => lemma_checked_at_sound(Checked::Signature, text, pos),
        Shape::ObjectPath => lemma_checked_at_sound(Checked::ObjectPath, text, pos),
        _ => {},
    }
}

/// The outcome of reading a value is sound.
pub proof fn lemma_value_at_sound(shape: Shape, text: Seq<char>, pos: int)
    requires
        0 <= pos <= text.len(),
    ensures
        sound(value_at(shape, text, pos), shape, text, pos),
    decreases text.len() - pos, 1int,
{
    match shape {
        Shape::Variant => lemma_variant_at_sound(text, pos),
        Shape::Array(element) => lemma_array_at_sound(*element, text, pos),
        Shape::Dict(key, value) => lemma_dict_at_sound(*key, *value, text, pos),
        Shape::Structure(fields) => lemma_structure_at_sound(fields, text, pos),
        _ => lemma_leaf_sound(shape, text, pos),
    }
}

/// The outcome of reading a variant is sound.
pub proof fn lemma_variant_at_sound(text: Seq<char>, pos: int)
    requires
        0 <= pos <= text.len(),
    ensures
        sound(variant_at(text, pos), Shape::Variant, text, pos),
    decreases text.len() - pos, 0int,
{
    let at = skip_spaces(text, pos);
    lemma_skip_spaces_bounds(text, pos);
    lemma_checked_at_sound(Checked::Signature, text, pos);
    let literal = checked_at(Checked::Signature, text, pos);
    let content = quoted_from(text, at + 1, Seq::empty(), Seq::empty()).content;
    if !literal.halted && decoded(content) is Some && has_word(
        text,
        literal.next,
        seq!['-', '>'],
    ) {
        lemma_value_at_sound(decoded(content).unwrap(), text, literal.next + 2);
    }
}

/// The outcome of reading an array is sound.
pub proof fn lemma_array_at_sound(element: Shape, text: Seq<char>, pos: int)
    requires
        0 <= pos <= text.len(),
    ensures
        sound(array_at(element, text, pos), Shape::Array(Box::new(element)), text, pos),
    decreases text.len() - pos, 0int,
{
    let at = skip_spaces(text, pos);
    lemma_skip_spaces_bounds(text, pos);
    if has_char(text, at, '[') {
        let first = skip_spaces(text, at + 1);
        lemma_skip_spaces_bounds(text, at + 1);
        if has_char(text, first, ']') {
            lemma_skip_spaces_bounds(text, first + 1);
        } else {
            lemma_items_from_sound(element, text, at + 1, Seq::empty(), Seq::empty());
        }
    }
}

/// The outcome of reading the rest of an array is sound.
pub proof fn lemma_items_from_sound(
    element: Shape,
    text: Seq<char>,
    pos: int,
    items: Seq<Term>,
    errors: Seq<ParseError>,
)
    requires
        0 <= pos <= text.len(),
        forall|i: int| 0 <= i < items.len() ==> (#[trigger] items[i]).conforms(element),
    ensures
        sound_rest(
            items_from(element, text, pos, items, errors),
            errors,
            Shape::Array(Box::new(element)),
            text,
            pos,
        ),
    decreases text.len() - pos, 2int,
{
    lemma_value_at_sound(element, text, pos);
    let item = value_at(element, text, pos);
    let at = skip_spaces(text, item.next);
    lemma_skip_spaces_bounds(text, item.next);
    let more = with_item(items, item.value);
    if !item.halted {
        if has_char(text, at, ',') {
            lemma_items_from_sound(element, text, at + 1, more, errors + item.errors);
        } else if has_char(text, at, ']') {
            lemma_skip_spaces_bounds(text, at + 1);
        }
    }
}

/// In `entries`, the first pair at or after `from` with the key `key` is
/// where `key_index_from` says, and no pair before it has that key.
pub proof fn lemma_key_index_from(entries: Seq<(Term, Term)>, key: Term, from: int)
    requires
        0 <= from <= entries.len(),
    ensures
        from <= key_index_from(entries, key, from) <= entries.len(),
        key_index_from(entries, key, from) < entries.len() ==> entries[key_index_from(
            entries,
            key,
            from,
        )].0 == key,
        forall|i: int|
            from <= i < key_index_from(entries, key, from) ==> (#[trigger] entries[i]).0 != key,
    decreases entries.len() - from,
{
    if from < entries.len() && entries[from].0 != key {
        lemma_key_index_from(entries, key, from + 1);
    }
}

/// Giving a key a value keeps a dictionary one that the bus can hold.
pub proof fn lemma_with_entry_sound(
    entries: Seq<(Term, Term)>,
    key: Term,
    value: Term,
    key_shape: Shape,
    value_shape: Shape,
)
    requires
        Term::Dict(key_shape, value_shape, entries).well_formed(),
        key.conforms(key_shape),
        value.conforms(value_shape),
    ensures
        Term::Dict(key_shape, value_shape, with_entry(entries, key, value)).well_formed(),
{
    lemma_key_index_from(entries, key, 0);
    let after = with_entry(entries, key, value);
    let index = key_index(entries, key);
    assert forall|i: int, j: int| 0 <= i < j < after.len() implies (#[trigger] after[i]).0 != (
    #[trigger] after[j]).0 by {
        if index < entries.len() {
            assert(after[i].0 == entries[i].0);
            assert(after[j].0 == entries[j].0);
        } else if j < entries.len() {
            assert(after[i] == entries[i]);
            assert(after[j] == entries[j]);
        } else {
            assert(after[i] == entries[i]);
        }
    }
    assert forall|i: int| 0 <= i < after.len() implies {
        &&& (#[trigger] after[i]).0.well_formed()
        &&& after[i].0.shape() == key_shape
        &&& after[i].1.well_formed()
        &&& after[i].1.shape() == value_shape
    } by {
        if i != index {
            assert(after[i] == entries[i]);
        }
    }
}

/// The outcome of reading a dictionary is sound.
pub proof fn lemma_dict_at_sound(key: Shape, value: Shape, text: Seq<char>, pos: int)
    requires
        0 <= pos <= text.len(),
    ensures
        sound(
            dict_at(key, value, text, pos),
            Shape::Dict(Box::new(key), Box::new(value)),
            text,
            pos,
        ),
    decreases text.len() - pos, 0int,
{
    let at = skip_spaces(text, pos);
    lemma_skip_spaces_bounds(text, pos);
    if has_char(text, at, '{') {
        let first = skip_spaces(text, at + 1);
        lemma_skip_spaces_bounds(text, at + 1);
        if has_char(text, first, '}') {
            lemma_skip_spaces_bounds(text, first + 1);
        } else {
            lemma_pairs_from_sound(key, value, text, at + 1, Seq::empty(), Seq::empty());
        }
    }
}

/// The outcome of reading the rest of a dictionary is sound.
pub proof fn lemma_pairs_from_sound(
    key: Shape,
    value: Shape,
    text: Seq<char>,
    pos: int,
    entries: Seq<(Term, Term)>,
    errors: Seq<ParseError>,
)
    requires
        0 <= pos <= text.len(),
        Term::Dict(key, value, entries).well_formed(),
    ensures
        sound_rest(
            pairs_from(key, value, text, pos, entries, errors),
            errors,
            Shape::Dict(Box::new(key), Box::new(value)),
            text,
            pos,
        ),
    decreases text.len() - pos, 2int,
{
    lemma_value_at_sound(key, text, pos);
    let k = value_at(key, text, pos);
    let colon = skip_spaces(text, k.next);
    lemma_skip_spaces_bounds(text, k.next);
    if !k.halted && has_char(text, colon, ':') {
        lemma_value_at_sound(value, text, colon + 1);
        let v = value_at(value, text, colon + 1);
        let at = skip_spaces(text, v.next);
        lemma_skip_spaces_bounds(text, v.next);
        let more = with_pair(entries, k.value, v.value);
        if k.value is Some && v.value is Some {
            lemma_with_entry_sound(entries, k.value.unwrap(), v.value.unwrap(), key, value);
        }
        if !v.halted {
            if has_char(text, at, ',') {
                lemma_pairs_from_sound(
                    key,
                    value,
                    text,
                    at + 1,
                    more,
                    errors + k.errors + v.errors,
                );
            } else if has_char(text, at, '}') {
                lemma_skip_spaces_bounds(text, at + 1);
            }
        }
    }
}

/// The outcome of reading a structure is sound.
pub proof fn lemma_structure_at_sound(fields: Seq<Shape>, text: Seq<char>, pos: int)
    requires
        0 <= pos <= text.len(),
    ensures
        sound(structure_at(fields, text, pos), Shape::Structure(fields), text, pos),
    decreases text.len() - pos, 0int,
{
    let at = skip_spaces(text, pos);
    lemma_skip_spaces_bounds(text, pos);
    if has_char(text, at, '(') {
        let first = skip_spaces(text, at + 1);
        lemma_skip_spaces_bounds(text, at + 1);
        if fields.len() > 0 {
            lemma_members_from_sound(fields, 0, text, at + 1, Seq::empty(), Seq::empty());
        } else if has_char(text, first, ')') {
            lemma_skip_spaces_bounds(text, first + 1);
            assert(Term::Structure(Seq::empty()).shape()->Structure_0 =~= fields);
        }
    }
}

/// The outcome of reading the rest of a structure is sound.
pub proof fn lemma_members_from_sound(
    fields: Seq<Shape>,
    index: int,
    text: Seq<char>,
    pos: int,
    members: Seq<Term>,
    errors: Seq<ParseError>,
)
    requires
        0 <= pos <= text.len(),
        0 <= index < fields.len(),
        errors.len() == 0 ==> members.len() == index && forall|i: int|
            0 <= i < index ==> (#[trigger] members[i]).conforms(fields[i]),
    ensures
        sound_rest(
            members_from(fields, index, text, pos, members, errors),
            errors,
            Shape::Structure(fields),
            text,
            pos,
        ),
    decreases text.len() - pos, 2int,
{
    lemma_value_at_sound(fields[index], text, pos);
    let member = value_at(fields[index], text, pos);
    let at = skip_spaces(text, member.next);
    lemma_skip_spaces_bounds(text, member.next);
    let more = with_item(members, member.value);
    let found = errors + member.errors;
    if !member.halted {
        if index + 1 == fields.len() {
            if has_char(text, at, ')') {
                lemma_skip_spaces_bounds(text, at + 1);
                if found.len() == 0 {
                    assert(Term::Structure(more).shape()->Structure_0 =~= fields);
                }
            }
        } else if has_char(text, at, ',') {
            lemma_members_from_sound(fields, index + 1, text, at + 1, more, found);
        }
    }
}

/// What parsing gives is sound: a value that is given conforms to the shape
/// that was asked for, and where no value is given, at least one error is.
pub proof fn lemma_parsed_sound(shape: Shape, text: Seq<char>)
    ensures
        match parsed(shape, text) {
            Ok(term) => term.conforms(shape),
            Err(errors) => errors.len() > 0,
        },
{
    lemma_value_at_sound(shape, text, 0);
}

} // verus!
