use vstd::prelude::*;
use crate::chars::{
    has_word,
    is_digit,
    lemma_has_word_concat,
    lemma_has_word_index,
    lemma_skip_spaces_stays,
    skip_spaces,
};
use crate::error::{IntegerKind, ParseError};
use crate::grammar::{
    accepted,
    array_at,
    checked_at,
    dict_at,
    items_from,
    key_index_from,
    members_from,
    pairs_from,
    parsed,
    structure_at,
    value_at,
    variant_at,
    Checked,
    };
use crate::laws::codec::lemma_decode_code;
use crate::laws::numbers::{lemma_decimal_text_digits, lemma_integer_at_text};
use crate::laws::texts::{
    ends_token,
    lemma_bool_at_text,
    lemma_checked_at_text,
    lemma_float_at_text,
    lemma_quoted_text_read,
    lemma_string_at_text,
};
use crate::render::{
    integer_text,
    quoted_text,
    rendered,
    rendered_items,
    rendered_pairs,
};
use crate::signature::{code, Shape};
use crate::value::{lemma_alike_reflexive, Term};

verus! {

/// Whether `c` can be the first character of a literal.
pub open spec fn starts_literal(c: char) -> bool {
    is_digit(c) || c == '-' || c == 't' || c == 'f' || c == '"' || c == '[' || c == '{' || c
        == '('
}

/// The literal of a value starts with a character that only starts
/// literals.
pub proof fn lemma_rendered_start(term: Term)
    requires
        term.well_formed(),
    ensures
        rendered(term).len() > 0,
        starts_literal(rendered(term)[0]),
{
    match term {
        Term::U8(n) => lemma_integer_text_start(n as int),
        Term::I16(n) => lemma_integer_text_start(n as int),
        Term::U16(n) => lemma_integer_text_start(n as int),
        Term::I32(n) => lemma_integer_text_start(n as int),
        Term::U32(n) => lemma_integer_text_start(n as int),
        Term::I64(n) => lemma_integer_text_start(n as int),
        Term::U64(n) => lemma_integer_text_start(n as int),
        _ => {},
    }
}

/// The literal of an integer starts with `-` or a digit.
pub proof fn lemma_integer_text_start(n: int)
    ensures
        integer_text(n).len() > 0,
        is_digit(integer_text(n)[0]) || integer_text(n)[0] == '-',
{
    if n >= 0 {
        lemma_decimal_text_digits(n as nat);
    }
}

/// In a dictionary without a repeated key, the key of a pair is not among
/// the pairs before it.
pub proof fn lemma_key_is_new(entries: Seq<(Term, Term)>, index: int, from: int)
    requires
        0 <= from <= index < entries.len(),
        forall|i: int, j: int|
            0 <= i < j < entries.len() ==> (#[trigger] entries[i]).0 != (#[trigger] entries[j]).0,
    ensures
        key_index_from(entries.take(index), entries[index].0, from) == index,
    decreases index - from,
{
    let before = entries.take(index);
    if from < index {
        assert(before[from] == entries[from]);
        lemma_key_is_new(entries, index, from + 1);
    }
}

/// A value that is no array, dictionary, structure or variant is read back
/// from its literal.
pub proof fn lemma_leaf_at_text(term: Term, text: Seq<char>, pos: int)
    requires
        0 <= pos,
        term.well_formed(),
        !(term is Array || term is Dict || term is Structure || term is Variant),
        has_word(text, pos, rendered(term)),
        ends_token(text, pos + rendered(term).len()),
    ensures
        value_at(term.shape(), text, pos) == accepted(
            term,
            skip_spaces(text, pos + rendered(term).len()),
        ),
{
    match term {
        Term::U8(n) => lemma_integer_at_text(IntegerKind::U8, n as int, text, pos),
        Term::I16(n) => lemma_integer_at_text(IntegerKind::I16, n as int, text, pos),
        Term::U16(n) => lemma_integer_at_text(IntegerKind::U16, n as int, text, pos),
        Term::I32(n) => lemma_integer_at_text(IntegerKind::I32, n as int, text, pos),
        Term::U32(n) => lemma_integer_at_text(IntegerKind::U32, n as int, text, pos),
        Term::I64(n) => lemma_integer_at_text(IntegerKind::I64, n as int, text, pos),
        Term::U64(n) => lemma_integer_at_text(IntegerKind::U64, n as int, text, pos),
        Term::Bool(b) => lemma_bool_at_text(b, text, pos),
        Term::F64(literal) => lemma_float_at_text(literal, text, pos),
        Term::Str(content) => lemma_string_at_text(content, text, pos),
        Term::Signature(content) => lemma_checked_at_text(
            Checked::Signature,
            content,
            text,
            pos,
        ),
        Term::ObjectPath(content) => lemma_checked_at_text(
            Checked::ObjectPath,
            content,
            text,
            pos,
        ),
        _ => {},
    }
}

/// Reading back the literal of a value gives the value.  Where a text
/// holds, at `pos`, the literal of a value that the bus can hold and whose
/// literal can be written, and what follows cannot be taken for more of it,
/// the value is read there, at its own shape and without an error, up to
/// the end of the literal.
pub proof fn lemma_value_at_text(term: Term, text: Seq<char>, pos: int)
    requires
        0 <= pos,
        term.well_formed(),
        term.writable(),
        has_word(text, pos, rendered(term)),
        ends_token(text, pos + rendered(term).len()),
    ensures
        value_at(term.shape(), text, pos) == accepted(
            term,
            skip_spaces(text, pos + rendered(term).len()),
        ),
    decreases term, 0nat,
{
    match term {
        Term::Array(element, items) => {
            lemma_array_at_text(element, items, text, pos);
            assert(value_at(term.shape(), text, pos) == array_at(element, text, pos));
        },
        Term::Dict(key, value, entries) => {
            lemma_dict_at_text(key, value, entries, text, pos);
            assert(value_at(term.shape(), text, pos) == dict_at(key, value, text, pos));
        },
        Term::Structure(members) => {
            let fields = term.shape()->Structure_0;
            lemma_structure_at_text(fields, members, text, pos);
            assert(value_at(term.shape(), text, pos) == structure_at(fields, text, pos));
        },
        Term::Variant(inner) => {
            lemma_variant_at_text(*inner, text, pos);
            assert(value_at(term.shape(), text, pos) == variant_at(text, pos));
        },
        _ => lemma_leaf_at_text(term, text, pos),
    }
}

/// An array is read back from its literal.
pub proof fn lemma_array_at_text(element: Shape, items: Seq<Term>, text: Seq<char>, pos: int)
    requires
        0 <= pos,
        forall|i: int|
            0 <= i < items.len() ==> (#[trigger] items[i]).well_formed() && items[i].writable()
                && items[i].shape() == element,
        has_word(text, pos, rendered(Term::Array(element, items))),
    ensures
        array_at(element, text, pos) == accepted(
            Term::Array(element, items),
            skip_spaces(text, pos + rendered(Term::Array(element, items)).len()),
        ),
    decreases items, items.len() + 1,
{
    let inner = rendered_items(items, 0);
    lemma_has_word_concat(text, pos, seq!['['] + inner, seq![']']);
    lemma_has_word_concat(text, pos, seq!['['], inner);
    lemma_has_word_concat(text, pos + 1, inner, seq![']']);
    lemma_has_word_index(text, pos, seq!['['], 0);
    lemma_skip_spaces_stays(text, pos);
    if items.len() == 0 {
        lemma_has_word_index(text, pos + 1, seq![']'], 0);
        lemma_skip_spaces_stays(text, pos + 1);
        assert(items =~= Seq::<Term>::empty());
    } else {
        lemma_rendered_start(items[0]);
        lemma_has_word_index(text, pos + 1, inner, 0);
        lemma_skip_spaces_stays(text, pos + 1);
        assert(items.take(0) =~= Seq::<Term>::empty());
        lemma_items_from_text(element, items, 0, text, pos + 1);
    }
}

/// A dictionary is read back from its literal.
pub proof fn lemma_dict_at_text(
    key: Shape,
    value: Shape,
    entries: Seq<(Term, Term)>,
    text: Seq<char>,
    pos: int,
)
    requires
        0 <= pos,
        forall|i: int|
            0 <= i < entries.len() ==> {
                &&& (#[trigger] entries[i]).0.well_formed()
                &&& entries[i].0.writable()
                &&& entries[i].0.shape() == key
                &&& entries[i].1.well_formed()
                &&& entries[i].1.writable()
                &&& entries[i].1.shape() == value
            },
        forall|i: int, j: int|
            0 <= i < j < entries.len() ==> (#[trigger] entries[i]).0 != (#[trigger] entries[j]).0,
        has_word(text, pos, rendered(Term::Dict(key, value, entries))),
    ensures
        dict_at(key, value, text, pos) == accepted(
            Term::Dict(key, value, entries),
            skip_spaces(text, pos + rendered(Term::Dict(key, value, entries)).len()),
        ),
    decreases entries, entries.len() + 1,
{
    let inner = rendered_pairs(entries, 0);
    lemma_has_word_concat(text, pos, seq!['{'] + inner, seq!['}']);
    lemma_has_word_concat(text, pos, seq!['{'], inner);
    lemma_has_word_concat(text, pos + 1, inner, seq!['}']);
    lemma_has_word_index(text, pos, seq!['{'], 0);
    lemma_skip_spaces_stays(text, pos);
    if entries.len() == 0 {
        lemma_has_word_index(text, pos + 1, seq!['}'], 0);
        lemma_skip_spaces_stays(text, pos + 1);
        assert(entries =~= Seq::<(Term, Term)>::empty());
    } else {
        lemma_rendered_start(entries[0].0);
        lemma_has_word_index(text, pos + 1, inner, 0);
        lemma_skip_spaces_stays(text, pos + 1);
        assert(entries.take(0) =~= Seq::<(Term, Term)>::empty());
        lemma_pairs_from_text(key, value, entries, 0, text, pos + 1);
    }
}

/// A structure is read back from its literal.
pub proof fn lemma_structure_at_text(
    fields: Seq<Shape>,
    members: Seq<Term>,
    text: Seq<char>,
    pos: int,
)
    requires
        0 <= pos,
        fields.len() == members.len(),
        forall|i: int|
            0 <= i < members.len() ==> (#[trigger] members[i]).well_formed()
                && members[i].writable() && members[i].shape() == fields[i],
        has_word(text, pos, rendered(Term::Structure(members))),
    ensures
        structure_at(fields, text, pos) == accepted(
            Term::Structure(members),
            skip_spaces(text, pos + rendered(Term::Structure(members)).len()),
        ),
    decreases members, members.len() + 1,
{
    let inner = rendered_items(members, 0);
    lemma_has_word_concat(text, pos, seq!['('] + inner, seq![')']);
    lemma_has_word_concat(text, pos, seq!['('], inner);
    lemma_has_word_concat(text, pos + 1, inner, seq![')']);
    lemma_has_word_index(text, pos, seq!['('], 0);
    lemma_skip_spaces_stays(text, pos);
    if members.len() == 0 {
        lemma_has_word_index(text, pos + 1, seq![')'], 0);
        lemma_skip_spaces_stays(text, pos + 1);
        assert(members =~= Seq::<Term>::empty());
    } else {
        assert(members.take(0) =~= Seq::<Term>::empty());
        lemma_members_from_text(fields, members, 0, text, pos + 1);
    }
}

/// A variant is read back from its literal.
pub proof fn lemma_variant_at_text(inner: Term, text: Seq<char>, pos: int)
    requires
        0 <= pos,
        Term::Variant(Box::new(inner)).well_formed(),
        Term::Variant(Box::new(inner)).writable(),
        has_word(text, pos, rendered(Term::Variant(Box::new(inner)))),
        ends_token(text, pos + rendered(Term::Variant(Box::new(inner))).len()),
    ensures
        variant_at(text, pos) == accepted(
            Term::Variant(Box::new(inner)),
            skip_spaces(text, pos + rendered(Term::Variant(Box::new(inner))).len()),
        ),
    decreases inner, 1nat,
{
    let shape = inner.shape();
    let quoted = quoted_text(code(shape));
    let after = pos + quoted.len();
    lemma_has_word_concat(text, pos, quoted + seq!['-', '>'], rendered(inner));
    lemma_has_word_concat(text, pos, quoted, seq!['-', '>']);
    lemma_has_word_index(text, after, seq!['-', '>'], 0);
    lemma_skip_spaces_stays(text, after);
    lemma_quoted_text_read(code(shape), text, pos);
    lemma_checked_at_text(Checked::Signature, code(shape), text, pos);
    lemma_decode_code(shape);
    lemma_value_at_text(inner, text, after + 2);
    let literal = checked_at(Checked::Signature, text, pos);
    let read = value_at(shape, text, after + 2);
    assert(literal.errors + read.errors =~= Seq::<ParseError>::empty());
}

/// The elements of an array are read back from their literals.
pub proof fn lemma_items_from_text(
    element: Shape,
    items: Seq<Term>,
    from: nat,
    text: Seq<char>,
    pos: int,
)
    requires
        0 <= pos,
        from < items.len(),
        forall|i: int|
            0 <= i < items.len() ==> (#[trigger] items[i]).well_formed() && items[i].writable()
                && items[i].shape() == element,
        has_word(text, pos, rendered_items(items, from) + seq![']']),
    ensures
        items_from(element, text, pos, items.take(from as int), Seq::empty()) == accepted(
            Term::Array(element, items),
            skip_spaces(text, pos + rendered_items(items, from).len() + 1),
        ),
    decreases items, items.len() - from,
{
    let item = items[from as int];
    let word = rendered(item);
    let all = rendered_items(items, from);
    let end = pos + word.len();
    lemma_has_word_concat(text, pos, all, seq![']']);
    assert(items.take(from as int).push(item) =~= items.take(from as int + 1));
    assert(Seq::<ParseError>::empty() + Seq::<ParseError>::empty() =~= Seq::<ParseError>::empty());
    if from + 1 < items.len() {
        let rest = rendered_items(items, (from + 1) as nat);
        lemma_has_word_concat(text, pos, word + seq![','], rest);
        lemma_has_word_concat(text, pos, word, seq![',']);
        lemma_has_word_index(text, end, seq![','], 0);
        lemma_has_word_concat(text, end + 1, rest, seq![']']);
        lemma_skip_spaces_stays(text, end);
        lemma_value_at_text(item, text, pos);
        lemma_items_from_text(element, items, (from + 1) as nat, text, end + 1);
    } else {
        lemma_has_word_index(text, end, seq![']'], 0);
        lemma_skip_spaces_stays(text, end);
        lemma_value_at_text(item, text, pos);
        assert(items.take(from as int + 1) =~= items);
    }
}

/// The pairs of a dictionary are read back from their literals.
pub proof fn lemma_pairs_from_text(
    key: Shape,
    value: Shape,
    entries: Seq<(Term, Term)>,
    from: nat,
    text: Seq<char>,
    pos: int,
)
    requires
        0 <= pos,
        from < entries.len(),
        forall|i: int|
            0 <= i < entries.len() ==> {
                &&& (#[trigger] entries[i]).0.well_formed()
                &&& entries[i].0.writable()
                &&& entries[i].0.shape() == key
                &&& entries[i].1.well_formed()
                &&& entries[i].1.writable()
                &&& entries[i].1.shape() == value
            },
        forall|i: int, j: int|
            0 <= i < j < entries.len() ==> (#[trigger] entries[i]).0 != (#[trigger] entries[j]).0,
        has_word(text, pos, rendered_pairs(entries, from) + seq!['}']),
    ensures
        pairs_from(key, value, text, pos, entries.take(from as int), Seq::empty()) == accepted(
            Term::Dict(key, value, entries),
            skip_spaces(text, pos + rendered_pairs(entries, from).len() + 1),
        ),
    decreases entries, entries.len() - from,
{
    let k = entries[from as int].0;
    let v = entries[from as int].1;
    let k_word = rendered(k);
    let v_word = rendered(v);
    let all = rendered_pairs(entries, from);
    let colon = pos + k_word.len();
    let end = colon + 1 + v_word.len();
    let none = Seq::<ParseError>::empty();
    lemma_has_word_concat(text, pos, all, seq!['}']);
    lemma_key_is_new(entries, from as int, 0);
    assert(entries.take(from as int).push((k, v)) =~= entries.take(from as int + 1));
    assert(none + none =~= none);
    assert(none + none + none =~= none);
    lemma_rendered_start(v);
    if from + 1 < entries.len() {
        let rest = rendered_pairs(entries, (from + 1) as nat);
        lemma_has_word_concat(text, pos, k_word + seq![':'] + v_word + seq![','], rest);
        lemma_has_word_concat(text, pos, k_word + seq![':'] + v_word, seq![',']);
        lemma_has_word_concat(text, pos, k_word + seq![':'], v_word);
        lemma_has_word_concat(text, pos, k_word, seq![':']);
        lemma_has_word_index(text, colon, seq![':'], 0);
        lemma_has_word_index(text, end, seq![','], 0);
        lemma_has_word_concat(text, end + 1, rest, seq!['}']);
        lemma_skip_spaces_stays(text, colon);
        lemma_skip_spaces_stays(text, end);
        lemma_value_at_text(k, text, pos);
        lemma_value_at_text(v, text, colon + 1);
        lemma_pairs_from_text(key, value, entries, (from + 1) as nat, text, end + 1);
    } else {
        lemma_has_word_concat(text, pos, k_word + seq![':'], v_word);
        lemma_has_word_concat(text, pos, k_word, seq![':']);
        lemma_has_word_index(text, colon, seq![':'], 0);
        lemma_has_word_index(text, end, seq!['}'], 0);
        lemma_skip_spaces_stays(text, colon);
        lemma_skip_spaces_stays(text, end);
        lemma_value_at_text(k, text, pos);
        lemma_value_at_text(v, text, colon + 1);
        assert(entries.take(from as int + 1) =~= entries);
    }
}

/// The members of a structure are read back from their literals.
pub proof fn lemma_members_from_text(
    fields: Seq<Shape>,
    members: Seq<Term>,
    from: nat,
    text: Seq<char>,
    pos: int,
)
    requires
        0 <= pos,
        from < members.len(),
        fields.len() == members.len(),
        forall|i: int|
            0 <= i < members.len() ==> (#[trigger] members[i]).well_formed()
                && members[i].writable() && members[i].shape() == fields[i],
        has_word(text, pos, rendered_items(members, from) + seq![')']),
    ensures
        members_from(fields, from as int, text, pos, members.take(from as int), Seq::empty())
            == accepted(
            Term::Structure(members),
            skip_spaces(text, pos + rendered_items(members, from).len() + 1),
        ),
    decreases members, members.len() - from,
{
    let member = members[from as int];
    let word = rendered(member);
    let all = rendered_items(members, from);
    let end = pos + word.len();
    lemma_has_word_concat(text, pos, all, seq![')']);
    assert(members.take(from as int).push(member) =~= members.take(from as int + 1));
    assert(Seq::<ParseError>::empty() + Seq::<ParseError>::empty() =~= Seq::<ParseError>::empty());
    if from + 1 < members.len() {
        let rest = rendered_items(members, (from + 1) as nat);
        lemma_has_word_concat(text, pos, word + seq![','], rest);
        lemma_has_word_concat(text, pos, word, seq![',']);
        lemma_has_word_index(text, end, seq![','], 0);
        lemma_has_word_concat(text, end + 1, rest, seq![')']);
        lemma_skip_spaces_stays(text, end);
        lemma_value_at_text(member, text, pos);
        lemma_members_from_text(fields, members, (from + 1) as nat, text, end + 1);
    } else {
        lemma_has_word_index(text, end, seq![')'], 0);
        lemma_skip_spaces_stays(text, end);
        lemma_value_at_text(member, text, pos);
        assert(members.take(from as int + 1) =~= members);
    }
}

/// The round trip.  Let a value conform to a shape: let it be one of that
/// shape that the bus can hold.  Let its literal be writable: let the shape
/// of what each variant in it holds have a signature text that the bus
/// takes.  Then parsing the literal of the value at that shape gives the
/// value back, the pairs of each dictionary in their order; so what is read
/// is like the value, whatever the order of those pairs is taken to be.
pub proof fn lemma_round_trip(term: Term, shape: Shape)
    requires
        term.conforms(shape),
        term.writable(),
    ensures
        parsed(shape, rendered(term)) == Ok::<Term, Seq<ParseError>>(term),
        parsed(shape, rendered(term)) is Ok && parsed(shape, rendered(term))->Ok_0.alike(term),
{
    let text = rendered(term);
    assert(text.subrange(0, text.len() as int) =~= text);
    lemma_value_at_text(term, text, 0);
    lemma_alike_reflexive(term);
}

} // verus!
