use vstd::prelude::*;
use crate::bus::{check_object_path, check_signature};
use crate::chars::{chars_of, digits_end};
use crate::error::ParseError;
use crate::grammar::{key_index, key_index_from, parsed};
use crate::laws::round_trip::lemma_round_trip;
use crate::render::rendered;
use crate::signature::{codable, lemma_structure_shape, shapes_of, Shape, Signature};
use crate::value::{
    is_float_literal,
    lemma_array_term,
    lemma_dict_term,
    lemma_structure_term,
    pairs_of,
    terms_of,
    Term,
    Value,
};

verus! {

/// The position of the first character at or after `pos` that is no digit.
fn digits_stop(text: &[char], pos: usize) -> (end: usize)
    requires
        pos <= text@.len(),
    ensures
        end == digits_end(text@, pos as int),
        pos <= end <= text@.len(),
{
    let mut end: usize = pos;
    while end < text.len() && '0' <= text[end] && text[end] <= '9'
        invariant
            pos <= end <= text@.len(),
            digits_end(text@, pos as int) == digits_end(text@, end as int),
        decreases text@.len() - end,
    {
        end += 1;
    }
    end
}

/// Whether `text` is the literal of a floating point number.
pub fn is_float_text(text: &str) -> (r: bool)
    ensures
        r == is_float_literal(text@),
{
    let chars = chars_of(text);
    let word = chars.as_slice();
    let n = word.len();
    let first: usize = if n > 0 && word[0] == '-' {
        1
    } else {
        0
    };
    let whole_end = digits_stop(word, first);
    if whole_end == first {
        return false;
    }
    if whole_end == n {
        return true;
    }
    if word[whole_end] != '.' || whole_end + 1 >= n {
        return false;
    }
    digits_stop(word, whole_end + 1) == n
}

/// Whether `signature` can be written as a signature text and read back.
pub fn is_codable(signature: &Signature) -> (r: bool)
    ensures
        r == codable(signature@),
    decreases signature,
{
    match signature {
        Signature::Unit => false,
        Signature::Array(element) => is_codable(element),
        Signature::Dict(key, value) => is_codable(key) && is_codable(value),
        Signature::Structure(fields) => {
            let ghost shapes = shapes_of(fields@);
            proof {
                lemma_structure_shape(*fields);
                assert(Shape::Structure(shapes)->Structure_0 == shapes);
            }
            if fields.len() == 0 {
                return false;
            }
            let mut i: usize = 0;
            while i < fields.len()
                invariant
                    *signature is Structure,
                    signature->Structure_0 == *fields,
                    shapes == shapes_of(fields@),
                    signature@ == Shape::Structure(shapes),
                    Shape::Structure(shapes)->Structure_0 == shapes,
                    fields.len() > 0,
                    i <= fields.len(),
                    forall|j: int| 0 <= j < i ==> codable(#[trigger] shapes[j]),
                decreases fields.len() - i,
            {
                assert(decreases_to!(*fields => fields[i as int]));
                if !is_codable(&fields[i]) {
                    assert(!codable(shapes[i as int]));
                    return false;
                }
                i += 1;
            }
            true
        },
        _ => true,
    }
}

/// Every item conforms to `element`: the items are those of an array that
/// the bus can hold.
spec fn all_conform(items: Seq<Term>, element: Shape, count: int) -> bool {
    forall|i: int| 0 <= i < count ==> (#[trigger] items[i]).well_formed() && items[i].shape() == element
}

/// Whether every value in `items` is one of signature `element` that the
/// bus can hold.
fn items_conform(items: &Vec<Value>, element: &Signature) -> (r: bool)
    ensures
        r == Term::Array(element@, terms_of(items@)).well_formed(),
    decreases items, 1nat,
{
    let ghost terms = terms_of(items@);
    assert(Term::Array(element@, terms)->Array_1 == terms);
    let mut i: usize = 0;
    while i < items.len()
        invariant
            terms == terms_of(items@),
            Term::Array(element@, terms)->Array_1 == terms,
            i <= items.len(),
            all_conform(terms, element@, i as int),
        decreases items.len() - i,
    {
        assert(decreases_to!(*items => items[i as int]));
        if !(items[i].is_well_formed() && items[i].signature().same(element)) {
            assert(!(terms[i as int].well_formed() && terms[i as int].shape() == element@));
            return false;
        }
        i += 1;
    }
    true
}

/// Whether every value in `members` is one that the bus can hold.
fn members_well_formed(members: &Vec<Value>) -> (r: bool)
    ensures
        r == Term::Structure(terms_of(members@)).well_formed(),
    decreases members, 1nat,
{
    let ghost terms = terms_of(members@);
    assert(Term::Structure(terms)->Structure_0 == terms);
    let mut i: usize = 0;
    while i < members.len()
        invariant
            terms == terms_of(members@),
            Term::Structure(terms)->Structure_0 == terms,
            i <= members.len(),
            forall|j: int| 0 <= j < i ==> (#[trigger] terms[j]).well_formed(),
        decreases members.len() - i,
    {
        assert(decreases_to!(*members => members[i as int]));
        if !members[i].is_well_formed() {
            assert(!terms[i as int].well_formed());
            return false;
        }
        i += 1;
    }
    true
}

/// Whether the key of the pair at `index` is the key of no pair before it.
fn key_is_new(entries: &Vec<(Value, Value)>, index: usize) -> (r: bool)
    requires
        index < entries.len(),
    ensures
        r == forall|i: int| 0 <= i < index ==> (#[trigger] pairs_of(entries@)[i]).0 != pairs_of(
            entries@,
        )[index as int].0,
{
    let ghost pairs = pairs_of(entries@);
    let mut i: usize = 0;
    while i < index
        invariant
            pairs == pairs_of(entries@),
            index < entries.len(),
            i <= index,
            forall|j: int| 0 <= j < i ==> (#[trigger] pairs[j]).0 != pairs[index as int].0,
        decreases index - i,
    {
        if entries[i].0.same(&entries[index].0) {
            assert(pairs[i as int].0 == pairs[index as int].0);
            return false;
        }
        i += 1;
    }
    true
}

/// Whether the pairs in `entries` are those of a dictionary that the bus
/// can hold, with keys of signature `key` and values of signature `value`.
fn entries_conform(entries: &Vec<(Value, Value)>, key: &Signature, value: &Signature) -> (r: bool)
    ensures
        r == Term::Dict(key@, value@, pairs_of(entries@)).well_formed(),
    decreases entries, 1nat,
{
    let ghost pairs = pairs_of(entries@);
    assert(Term::Dict(key@, value@, pairs)->Dict_2 == pairs);
    let mut i: usize = 0;
    while i < entries.len()
        invariant
            pairs == pairs_of(entries@),
            Term::Dict(key@, value@, pairs)->Dict_2 == pairs,
            i <= entries.len(),
            forall|j: int|
                0 <= j < i ==> {
                    &&& (#[trigger] pairs[j]).0.well_formed()
                    &&& pairs[j].0.shape() == key@
                    &&& pairs[j].1.well_formed()
                    &&& pairs[j].1.shape() == value@
                },
            forall|a: int, b: int|
                0 <= a < b < i ==> (#[trigger] pairs[a]).0 != (#[trigger] pairs[b]).0,
        decreases entries.len() - i,
    {
        assert(decreases_to!(*entries => entries[i as int]));
        let shaped = entries[i].0.is_well_formed() && entries[i].0.signature().same(key)
            && entries[i].1.is_well_formed() && entries[i].1.signature().same(value);
        if !shaped {
            assert(!({
                &&& pairs[i as int].0.well_formed()
                &&& pairs[i as int].0.shape() == key@
                &&& pairs[i as int].1.well_formed()
                &&& pairs[i as int].1.shape() == value@
            }));
            return false;
        }
        if !key_is_new(entries, i) {
            let ghost a = choose|a: int| 0 <= a < i && (#[trigger] pairs[a]).0 == pairs[i as int].0;
            assert(pairs[a].0 == pairs[i as int].0);
            return false;
        }
        i += 1;
    }
    true
}

impl Value {
    /// The value that this dictionary holds for `key`: that of the first
    /// pair with that key.  `None` if there is no such pair, or if this
    /// value is no dictionary.
    pub fn get(&self, key: &Value) -> (found: Option<&Value>)
        ensures
            match self@ {
                Term::Dict(_, _, entries) => match found {
                    Some(value) => key_index(entries, key@) < entries.len() && value@
                        == entries[key_index(entries, key@)].1,
                    None => key_index(entries, key@) >= entries.len(),
                },
                _ => found is None,
            },
    {
        match self {
            Value::Dict(key_signature, value_signature, entries) => {
                let ghost pairs = pairs_of(entries@);
                proof {
                    lemma_dict_term(*key_signature, *value_signature, *entries);
                }
                let mut i: usize = 0;
                while i < entries.len() && !entries[i].0.same(key)
                    invariant
                        pairs == pairs_of(entries@),
                        i <= entries.len(),
                        key_index(pairs, key@) == key_index_from(pairs, key@, i as int),
                    decreases entries.len() - i,
                {
                    i += 1;
                }
                if i < entries.len() {
                    Some(&entries[i].1)
                } else {
                    None
                }
            },
            _ => None,
        }
    }

    /// Whether this value is one that the bus can hold.
    pub fn is_well_formed(&self) -> (r: bool)
        ensures
            r == self@.well_formed(),
        decreases self, 0nat,
    {
        match self {
            Value::F64(text) => is_float_text(text.as_str()),
            Value::Signature(text) => check_signature(text.as_str()),
            Value::ObjectPath(text) => check_object_path(text.as_str()),
            Value::Array(element, items) => {
                proof {
                    lemma_array_term(*element, *items);
                }
                items_conform(items, element)
            },
            Value::Dict(key, value, entries) => {
                proof {
                    lemma_dict_term(*key, *value, *entries);
                }
                entries_conform(entries, key, value)
            },
            Value::Structure(members) => {
                proof {
                    lemma_structure_term(*members);
                }
                members_well_formed(members)
            },
            Value::Variant(inner) => inner.is_well_formed(),
            _ => true,
        }
    }

    /// Whether this value is one of signature `signature` that the bus can
    /// hold.
    pub fn conforms_to(&self, signature: &Signature) -> (r: bool)
        ensures
            r == self@.conforms(signature@),
    {
        self.is_well_formed() && self.signature().same(signature)
    }

    /// Whether the literal of this value can be written: whether the
    /// signature of what each variant in it holds has a text that the bus
    /// takes.
    pub fn is_writable(&self) -> (r: bool)
        ensures
            r == self@.writable(),
        decreases self,
    {
        match self {
            Value::Array(element, items) => {
                let ghost terms = terms_of(items@);
                proof {
                    lemma_array_term(*element, *items);
                    assert(Term::Array(element@, terms)->Array_1 == terms);
                }
                let mut i: usize = 0;
                while i < items.len()
                    invariant
                        *self is Array,
                        self->Array_1 == *items,
                        terms == terms_of(items@),
                        self@ == Term::Array(element@, terms),
                        Term::Array(element@, terms)->Array_1 == terms,
                        i <= items.len(),
                        forall|j: int| 0 <= j < i ==> (#[trigger] terms[j]).writable(),
                    decreases items.len() - i,
                {
                    assert(decreases_to!(*items => items[i as int]));
                    if !items[i].is_writable() {
                        assert(!terms[i as int].writable());
                        return false;
                    }
                    i += 1;
                }
                true
            },
            Value::Dict(key, value, entries) => {
                let ghost pairs = pairs_of(entries@);
                proof {
                    lemma_dict_term(*key, *value, *entries);
                    assert(Term::Dict(key@, value@, pairs)->Dict_2 == pairs);
                }
                let mut i: usize = 0;
                while i < entries.len()
                    invariant
                        *self is Dict,
                        self->Dict_2 == *entries,
                        pairs == pairs_of(entries@),
                        self@ == Term::Dict(key@, value@, pairs),
                        Term::Dict(key@, value@, pairs)->Dict_2 == pairs,
                        i <= entries.len(),
                        forall|j: int|
                            0 <= j < i ==> (#[trigger] pairs[j]).0.writable()
                                && pairs[j].1.writable(),
                    decreases entries.len() - i,
                {
                    assert(decreases_to!(*entries => entries[i as int]));
                    if !(entries[i].0.is_writable() && entries[i].1.is_writable()) {
                        assert(!(pairs[i as int].0.writable() && pairs[i as int].1.writable()));
                        return false;
                    }
                    i += 1;
                }
                true
            },
            Value::Structure(members) => {
                let ghost terms = terms_of(members@);
                proof {
                    lemma_structure_term(*members);
                    assert(Term::Structure(terms)->Structure_0 == terms);
                }
                let mut i: usize = 0;
                while i < members.len()
                    invariant
                        *self is Structure,
                        self->Structure_0 == *members,
                        terms == terms_of(members@),
                        self@ == Term::Structure(terms),
                        Term::Structure(terms)->Structure_0 == terms,
                        i <= members.len(),
                        forall|j: int| 0 <= j < i ==> (#[trigger] terms[j]).writable(),
                    decreases members.len() - i,
                {
                    assert(decreases_to!(*members => members[i as int]));
                    if !members[i].is_writable() {
                        assert(!terms[i as int].writable());
                        return false;
                    }
                    i += 1;
                }
                true
            },
            Value::Variant(inner) => {
                if !inner.is_writable() {
                    return false;
                }
                let signature = inner.signature();
                is_codable(&signature) && check_signature(signature.encode().as_str())
            },
            _ => true,
        }
    }

    /// The literal of this value, if the value is one that the bus can hold
    /// and its literal can be written.  Parsing that literal at the value's
    /// signature gives the value back.
    pub fn to_literal(&self) -> (literal: Option<String>)
        ensures
            literal is Some <==> self@.well_formed() && self@.writable(),
            literal is Some ==> literal->0@ == rendered(self@) && parsed(
                self@.shape(),
                literal->0@,
            ) == Ok::<Term, Seq<ParseError>>(self@),
    {
        if self.is_well_formed() && self.is_writable() {
            proof {
                lemma_round_trip(self@, self@.shape());
            }
            Some(self.to_text())
        } else {
            None
        }
    }
}

} // verus!
