use vstd::prelude::*;
use crate::chars::{has_word, lemma_has_word_concat, lemma_has_word_index};
use crate::signature::{
    basic_shape,
    codable,
    code,
    codes,
    decoded,
    fields_at,
    type_at,
    types_to_end,
    Shape,
};

verus! {

/// The code of a shape that can be written starts with a type letter, `a`
/// or `(`.
pub proof fn lemma_code_start(shape: Shape)
    requires
        codable(shape),
    ensures
        code(shape).len() > 0,
        code(shape)[0] != ')' && code(shape)[0] != '{' && code(shape)[0] != '}',
        !(shape is Array || shape is Dict) ==> code(shape)[0] != 'a',
        !(shape is Structure) ==> code(shape)[0] != '(',
        shape is Array || shape is Dict || shape is Structure || (code(shape).len() == 1
            && basic_shape(code(shape)[0]) == Some(shape)),
{
}

/// Where a text holds the code of a shape, one complete type is read there:
/// that shape.
pub proof fn lemma_type_at_code(shape: Shape, text: Seq<char>, pos: int)
    requires
        codable(shape),
        has_word(text, pos, code(shape)),
    ensures
        type_at(text, pos) == Some((shape, pos + code(shape).len())),
    decreases shape, 0nat,
{
    lemma_code_start(shape);
    lemma_has_word_index(text, pos, code(shape), 0);
    match shape {
        Shape::Array(element) => {
            lemma_has_word_concat(text, pos, seq!['a'], code(*element));
            lemma_code_start(*element);
            lemma_has_word_index(text, pos + 1, code(*element), 0);
            lemma_type_at_code(*element, text, pos + 1);
        },
        Shape::Dict(key, value) => {
            let head = seq!['a', '{'];
            let k = code(*key);
            let v = code(*value);
            lemma_has_word_concat(text, pos, head + k + v, seq!['}']);
            lemma_has_word_concat(text, pos, head + k, v);
            lemma_has_word_concat(text, pos, head, k);
            lemma_has_word_index(text, pos, head, 0);
            lemma_has_word_index(text, pos, head, 1);
            lemma_has_word_index(text, pos + 2 + k.len() + v.len(), seq!['}'], 0);
            lemma_type_at_code(*key, text, pos + 2);
            lemma_code_start(*key);
            lemma_type_at_code(*value, text, pos + 2 + k.len());
        },
        Shape::Structure(fields) => {
            let inner = codes(fields, 0);
            lemma_has_word_concat(text, pos, seq!['('] + inner, seq![')']);
            lemma_has_word_concat(text, pos, seq!['('], inner);
            lemma_has_word_concat(text, pos + 1, inner, seq![')']);
            assert(fields.take(0) =~= Seq::<Shape>::empty());
            lemma_fields_at_codes(fields, 0, text, pos + 1);
        },
        _ => {},
    }
}

/// Where a text holds the codes of the fields from `from` on and `)`, the
/// rest of the structure's fields is read there.
pub proof fn lemma_fields_at_codes(fields: Seq<Shape>, from: nat, text: Seq<char>, pos: int)
    requires
        fields.len() > 0,
        from <= fields.len(),
        forall|i: int| 0 <= i < fields.len() ==> codable(#[trigger] fields[i]),
        has_word(text, pos, codes(fields, from) + seq![')']),
    ensures
        fields_at(text, pos, fields.take(from as int)) == Some(
            (fields, pos + codes(fields, from).len() + 1),
        ),
    decreases fields, fields.len() - from,
{
    let rest = codes(fields, from);
    lemma_has_word_concat(text, pos, rest, seq![')']);
    if from < fields.len() {
        let field = fields[from as int];
        let first = code(field);
        let after = codes(fields, (from + 1) as nat);
        lemma_code_start(field);
        lemma_has_word_concat(text, pos, first, after);
        lemma_has_word_index(text, pos, first, 0);
        lemma_type_at_code(field, text, pos);
        lemma_has_word_concat(text, pos + first.len(), after, seq![')']);
        assert(fields.take(from as int).push(field) =~= fields.take(from as int + 1));
        lemma_fields_at_codes(fields, (from + 1) as nat, text, pos + first.len());
    } else {
        lemma_has_word_index(text, pos + rest.len(), seq![')'], 0);
        assert(fields.take(from as int) =~= fields);
    }
}

/// A shape that can be written is read back from its code.
pub proof fn lemma_decode_code(shape: Shape)
    requires
        codable(shape),
    ensures
        decoded(code(shape)) == Some(shape),
{
    let text = code(shape);
    lemma_code_start(shape);
    assert(text.subrange(0, text.len() as int) =~= text);
    lemma_type_at_code(shape, text, 0);
    assert(types_to_end(text, text.len() as int, seq![shape]) == Some(seq![shape]));
    assert(Seq::<Shape>::empty().push(shape) =~= seq![shape]);
}

} // verus!
