use vstd::prelude::*;
use crate::chars::{lemma_skip_spaces_bounds, lemma_skip_spaces_stays, skip_spaces};
use crate::error::{error_at, ErrorKind, Expected, ParseError};
use crate::grammar::{
    array_at,
    dict_at,
    parsed,
    structure_at,
    value_at,
    variant_at,
    Checked,
};
use crate::laws::soundness::{lemma_checked_at_sound, lemma_value_at_sound};
use crate::signature::Shape;
use crate::value::Term;

verus! {

/// Skipping white space twice is skipping it once.
pub proof fn lemma_skip_spaces_twice(text: Seq<char>, pos: int)
    ensures
        skip_spaces(text, skip_spaces(text, pos)) == skip_spaces(text, pos),
{
    lemma_skip_spaces_bounds(text, pos);
    lemma_skip_spaces_stays(text, skip_spaces(text, pos));
}

/// White space before a value is ignored: reading a value at a position
/// comes to the same as reading it behind the white space that stands
/// there.
pub proof fn lemma_leading_spaces_ignored(shape: Shape, text: Seq<char>, pos: int)
    requires
        0 <= pos <= text.len(),
    ensures
        value_at(shape, text, pos) == value_at(shape, text, skip_spaces(text, pos)),
{
    lemma_skip_spaces_twice(text, pos);
    lemma_skip_spaces_bounds(text, pos);
    let behind = skip_spaces(text, pos);
    match shape {
        Shape::Variant => {
            lemma_checked_at_sound(Checked::Signature, text, behind);
            assert(variant_at(text, pos) == variant_at(text, behind));
        },
        Shape::Array(element) => {
            assert(array_at(*element, text, pos) == array_at(
                *element,
                text,
                behind,
            ));
        },
        Shape::Dict(key, value) => {
            assert(dict_at(*key, *value, text, pos) == dict_at(
                *key,
                *value,
                text,
                behind,
            ));
        },
        Shape::Structure(fields) => {
            assert(structure_at(fields, text, pos)
                == structure_at(fields, text, behind));
        },
        _ => {},
    }
}

/// White space behind a value is passed: unless reading has stopped, what
/// it leaves to be read does not start with white space.
pub proof fn lemma_trailing_spaces_passed(shape: Shape, text: Seq<char>, pos: int)
    requires
        0 <= pos <= text.len(),
    ensures
        !value_at(shape, text, pos).halted ==> skip_spaces(
            text,
            value_at(shape, text, pos).next,
        ) == value_at(shape, text, pos).next,
{
    lemma_value_at_sound(shape, text, pos);
}

/// The descriptor type has no literal: whatever the text, parsing at that
/// type gives one error, which says that the type is not supported.  The
/// same holds of the unit type.
pub proof fn lemma_no_literal(shape: Shape, text: Seq<char>)
    requires
        shape is Fd || shape is Unit,
    ensures
        parsed(shape, text) == Err::<Term, Seq<ParseError>>(
            seq![
                error_at(
                    ErrorKind::UnsupportedTypeError,
                    skip_spaces(text, 0),
                    Expected::LiteralType,
                ),
            ],
        ),
{
}

} // verus!
