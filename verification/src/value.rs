use vstd::prelude::*;
use crate::bus::{is_object_path, signature_accepted};
use crate::chars::{digits_end, has_char};
use crate::signature::{codable, code, Shape, Signature};

verus! {

/// The mathematical model of a [`Value`].
pub enum Term {
    U8(u8),
    Bool(bool),
    I16(i16),
    U16(u16),
    I32(i32),
    U32(u32),
    I64(i64),
    U64(u64),
    /// The text of the literal: an optional `-`, digits, and an optional
    /// fraction.
    F64(Seq<char>),
    Str(Seq<char>),
    Signature(Seq<char>),
    ObjectPath(Seq<char>),
    /// The shape of the elements, and the elements.
    Array(Shape, Seq<Term>),
    /// The shape of the keys, that of the values, and the pairs in the order
    /// in which their keys first came.
    Dict(Shape, Shape, Seq<(Term, Term)>),
    Structure(Seq<Term>),
    Variant(Box<Term>),
}

/// Whether `text` is the literal of a floating point number: an optional
/// `-`, one or more digits, and optionally `.` with one or more digits.
pub open spec fn is_float_literal(text: Seq<char>) -> bool {
    let first: int = if has_char(text, 0, '-') {
        1
    } else {
        0
    };
    let whole_end = digits_end(text, first);
    &&& first < whole_end
    &&& (whole_end == text.len() || (has_char(text, whole_end, '.') && whole_end + 1 < text.len()
        && digits_end(text, whole_end + 1) == text.len()))
}

impl Term {
    /// The shape of this value.
    pub open spec fn shape(self) -> Shape
        decreases self, 0nat,
    {
        match self {
            Term::U8(_) => Shape::U8,
            Term::Bool(_) => Shape::Bool,
            Term::I16(_) => Shape::I16,
            Term::U16(_) => Shape::U16,
            Term::I32(_) => Shape::I32,
            Term::U32(_) => Shape::U32,
            Term::I64(_) => Shape::I64,
            Term::U64(_) => Shape::U64,
            Term::F64(_) => Shape::F64,
            Term::Str(_) => Shape::Str,
            Term::Signature(_) => Shape::Signature,
            Term::ObjectPath(_) => Shape::ObjectPath,
            Term::Array(element, _) => Shape::Array(Box::new(element)),
            Term::Dict(key, value, _) => Shape::Dict(Box::new(key), Box::new(value)),
            Term::Structure(members) => Shape::Structure(
                Seq::new(
                    members.len(),
                    |i: int|
                        if 0 <= i < members.len() {
                            members[i].shape()
                        } else {
                            Shape::Unit
                        },
                ),
            ),
            Term::Variant(_) => Shape::Variant,
        }
    }

    /// Whether this value is one that the bus can hold: a floating point
    /// number is a literal of one, a signature and an object path are legal,
    /// the elements of an array and the keys and values of a dictionary have
    /// the shapes that it names, and no key of a dictionary comes twice.
    pub open spec fn well_formed(self) -> bool
        decreases self,
    {
        match self {
            Term::F64(text) => is_float_literal(text),
            Term::Signature(text) => signature_accepted(text),
            Term::ObjectPath(text) => is_object_path(text),
            Term::Array(element, items) => forall|i: int|
                0 <= i < items.len() ==> (#[trigger] items[i]).well_formed() && items[i].shape()
                    == element,
            Term::Dict(key, value, entries) => {
                &&& forall|i: int|
                    0 <= i < entries.len() ==> {
                        &&& (#[trigger] entries[i]).0.well_formed()
                        &&& entries[i].0.shape() == key
                        &&& entries[i].1.well_formed()
                        &&& entries[i].1.shape() == value
                    }
                &&& forall|i: int, j: int|
                    0 <= i < j < entries.len() ==> (#[trigger] entries[i]).0 != (
                    #[trigger] entries[j]).0
            },
            Term::Structure(members) => forall|i: int|
                0 <= i < members.len() ==> (#[trigger] members[i]).well_formed(),
            Term::Variant(inner) => inner.well_formed(),
            _ => true,
        }
    }

    /// Whether this value and `other` are the same up to the order of the
    /// pairs of their dictionaries: two dictionaries are alike if they have
    /// the same shapes and as many pairs, and each pair of the first has a
    /// like pair in the second.
    pub open spec fn alike(self, other: Term) -> bool
        decreases self, 0nat,
    {
        match self {
            Term::Array(element, items) => {
                &&& other is Array
                &&& other->Array_0 == element
                &&& other->Array_1.len() == items.len()
                &&& forall|i: int|
                    0 <= i < items.len() ==> (#[trigger] items[i]).alike(other->Array_1[i])
            },
            Term::Dict(key, value, entries) => {
                &&& other is Dict
                &&& other->Dict_0 == key
                &&& other->Dict_1 == value
                &&& other->Dict_2.len() == entries.len()
                &&& forall|i: int|
                    0 <= i < entries.len() ==> has_like(#[trigger] entries[i], other->Dict_2)
            },
            Term::Structure(members) => {
                &&& other is Structure
                &&& other->Structure_0.len() == members.len()
                &&& forall|i: int|
                    0 <= i < members.len() ==> (#[trigger] members[i]).alike(
                        other->Structure_0[i],
                    )
            },
            Term::Variant(inner) => other is Variant && inner.alike(*other->Variant_0),
            _ => self == other,
        }
    }

    /// Whether this value is one of shape `shape` that the bus can hold.
    pub open spec fn conforms(self, shape: Shape) -> bool {
        self.well_formed() && self.shape() == shape
    }

    /// Whether the literal of this value can be written: whether the shape
    /// of what each variant in it holds has a signature text, and one that
    /// the bus takes.
    pub open spec fn writable(self) -> bool
        decreases self,
    {
        match self {
            Term::Array(_, items) => forall|i: int|
                0 <= i < items.len() ==> (#[trigger] items[i]).writable(),
            Term::Dict(_, _, entries) => forall|i: int|
                0 <= i < entries.len() ==> (#[trigger] entries[i]).0.writable()
                    && entries[i].1.writable(),
            Term::Structure(members) => forall|i: int|
                0 <= i < members.len() ==> (#[trigger] members[i]).writable(),
            Term::Variant(inner) => {
                &&& inner.writable()
                &&& codable(inner.shape())
                &&& signature_accepted(code(inner.shape()))
            },
            _ => true,
        }
    }
}

/// A value of the bus, as a literal writes it.
#[derive(Debug, PartialEq)]
pub enum Value {
    U8(u8),
    Bool(bool),
    I16(i16),
    U16(u16),
    I32(i32),
    U32(u32),
    I64(i64),
    U64(u64),
    /// A floating point number, held as the text of its literal.
    F64(String),
    Str(String),
    Signature(String),
    ObjectPath(String),
    Array(Signature, Vec<Value>),
    Dict(Signature, Signature, Vec<(Value, Value)>),
    Structure(Vec<Value>),
    Variant(Box<Value>),
}

impl Value {
    /// The model of this value.
    pub open spec fn term(self) -> Term
        decreases self,
    {
        match self {
            Value::U8(n) => Term::U8(n),
            Value::Bool(b) => Term::Bool(b),
            Value::I16(n) => Term::I16(n),
            Value::U16(n) => Term::U16(n),
            Value::I32(n) => Term::I32(n),
            Value::U32(n) => Term::U32(n),
            Value::I64(n) => Term::I64(n),
            Value::U64(n) => Term::U64(n),
            Value::F64(text) => Term::F64(text@),
            Value::Str(text) => Term::Str(text@),
            Value::Signature(text) => Term::Signature(text@),
            Value::ObjectPath(text) => Term::ObjectPath(text@),
            Value::Array(element, items) => Term::Array(
                element@,
                Seq::new(
                    items.len() as nat,
                    |i: int|
                        if 0 <= i < items.len() {
                            items[i].term()
                        } else {
                            Term::Bool(false)
                        },
                ),
            ),
            Value::Dict(key, value, entries) => Term::Dict(
                key@,
                value@,
                Seq::new(
                    entries.len() as nat,
                    |i: int|
                        if 0 <= i < entries.len() {
                            (entries[i].0.term(), entries[i].1.term())
                        } else {
                            (Term::Bool(false), Term::Bool(false))
                        },
                ),
            ),
            Value::Structure(members) => Term::Structure(
                Seq::new(
                    members.len() as nat,
                    |i: int|
                        if 0 <= i < members.len() {
                            members[i].term()
                        } else {
                            Term::Bool(false)
                        },
                ),
            ),
            Value::Variant(inner) => Term::Variant(Box::new(inner.term())),
        }
    }
}

impl View for Value {
    type V = Term;

    open spec fn view(&self) -> Term {
        self.term()
    }
}

/// The models of the values in `items`.
pub open spec fn terms_of(items: Seq<Value>) -> Seq<Term> {
    Seq::new(items.len(), |i: int| items[i]@)
}

/// The models of the pairs in `entries`.
pub open spec fn pairs_of(entries: Seq<(Value, Value)>) -> Seq<(Term, Term)> {
    Seq::new(entries.len(), |i: int| (entries[i].0@, entries[i].1@))
}

pub proof fn lemma_array_term(element: Signature, items: Vec<Value>)
    ensures
        Value::Array(element, items)@ == Term::Array(element@, terms_of(items@)),
{
    assert(Value::Array(element, items)@->Array_1 =~= terms_of(items@));
}

pub proof fn lemma_structure_term(members: Vec<Value>)
    ensures
        Value::Structure(members)@ == Term::Structure(terms_of(members@)),
{
    assert(Value::Structure(members)@->Structure_0 =~= terms_of(members@));
}

pub proof fn lemma_dict_term(key: Signature, value: Signature, entries: Vec<(Value, Value)>)
    ensures
        Value::Dict(key, value, entries)@ == Term::Dict(key@, value@, pairs_of(entries@)),
{
    assert(Value::Dict(key, value, entries)@->Dict_2 =~= pairs_of(entries@));
}

impl Value {
    /// Whether the two values are the same, member by member and in the
    /// same order.
    pub fn same(&self, other: &Value) -> (r: bool)
        ensures
            r == (self@ == other@),
        decreases self,
    {
        match (self, other) {
            (Value::U8(a), Value::U8(b)) => *a == *b,
            (Value::Bool(a), Value::Bool(b)) => *a == *b,
            (Value::I16(a), Value::I16(b)) => *a == *b,
            (Value::U16(a), Value::U16(b)) => *a == *b,
            (Value::I32(a), Value::I32(b)) => *a == *b,
            (Value::U32(a), Value::U32(b)) => *a == *b,
            (Value::I64(a), Value::I64(b)) => *a == *b,
            (Value::U64(a), Value::U64(b)) => *a == *b,
            (Value::F64(a), Value::F64(b)) => *a == *b,
            (Value::Str(a), Value::Str(b)) => *a == *b,
            (Value::Signature(a), Value::Signature(b)) => *a == *b,
            (Value::ObjectPath(a), Value::ObjectPath(b)) => *a == *b,
            (Value::Array(ea, ia), Value::Array(eb, ib)) => {
                assert(self@->Array_1.len() == ia.len());
                assert(other@->Array_1.len() == ib.len());
                if !ea.same(eb) || ia.len() != ib.len() {
                    return false;
                }
                let mut i: usize = 0;
                while i < ia.len()
                    invariant
                        *self is Array,
                        self->Array_1 == *ia,
                        *other is Array,
                        other->Array_1 == *ib,
                        ia.len() == ib.len(),
                        i <= ia.len(),
                        forall|j: int| 0 <= j < i ==> ia[j]@ == ib[j]@,
                    decreases ia.len() - i,
                {
                    assert(decreases_to!(*ia => ia[i as int]));
                    if !ia[i].same(&ib[i]) {
                        assert(self@->Array_1[i as int] != other@->Array_1[i as int]);
                        return false;
                    }
                    i += 1;
                }
                assert(self@->Array_1 =~= other@->Array_1);
                true
            },
            (Value::Dict(ka, va, pa), Value::Dict(kb, vb, pb)) => {
                assert(self@->Dict_2.len() == pa.len());
                assert(other@->Dict_2.len() == pb.len());
                if !ka.same(kb) || !va.same(vb) || pa.len() != pb.len() {
                    return false;
                }
                let mut i: usize = 0;
                while i < pa.len()
                    invariant
                        *self is Dict,
                        self->Dict_2 == *pa,
                        *other is Dict,
                        other->Dict_2 == *pb,
                        pa.len() == pb.len(),
                        i <= pa.len(),
                        forall|j: int|
                            0 <= j < i ==> pa[j].0@ == pb[j].0@ && pa[j].1@ == pb[j].1@,
                    decreases pa.len() - i,
                {
                    assert(decreases_to!(*pa => pa[i as int]));
                    if !pa[i].0.same(&pb[i].0) || !pa[i].1.same(&pb[i].1) {
                        assert(self@->Dict_2[i as int] != other@->Dict_2[i as int]);
                        return false;
                    }
                    i += 1;
                }
                assert(self@->Dict_2 =~= other@->Dict_2);
                true
            },
            (Value::Structure(ma), Value::Structure(mb)) => {
                assert(self@->Structure_0.len() == ma.len());
                assert(other@->Structure_0.len() == mb.len());
                if ma.len() != mb.len() {
                    return false;
                }
                let mut i: usize = 0;
                while i < ma.len()
                    invariant
                        *self is Structure,
                        self->Structure_0 == *ma,
                        *other is Structure,
                        other->Structure_0 == *mb,
                        ma.len() == mb.len(),
                        i <= ma.len(),
                        forall|j: int| 0 <= j < i ==> ma[j]@ == mb[j]@,
                    decreases ma.len() - i,
                {
                    assert(decreases_to!(*ma => ma[i as int]));
                    if !ma[i].same(&mb[i]) {
                        assert(self@->Structure_0[i as int] != other@->Structure_0[i as int]);
                        return false;
                    }
                    i += 1;
                }
                assert(self@->Structure_0 =~= other@->Structure_0);
                true
            },
            (Value::Variant(a), Value::Variant(b)) => a.same(b),
            _ => false,
        }
    }
}

/// Whether `pair` has a like pair among `others`.
pub open spec fn has_like(pair: (Term, Term), others: Seq<(Term, Term)>) -> bool
    decreases pair, 1nat,
{
    exists|j: int|
        0 <= j < others.len() && pair.0.alike((#[trigger] others[j]).0) && pair.1.alike(
            others[j].1,
        )
}

/// Whether `pair` has a like pair among `others`.
fn pair_among(pair: &(Value, Value), others: &Vec<(Value, Value)>) -> (r: bool)
    ensures
        r == has_like((pair.0@, pair.1@), pairs_of(others@)),
    decreases pair, 1nat,
{
    let ghost pairs = pairs_of(others@);
    let mut j: usize = 0;
    while j < others.len()
        invariant
            pairs == pairs_of(others@),
            j <= others.len(),
            forall|k: int|
                0 <= k < j ==> !(pair.0@.alike((#[trigger] pairs[k]).0) && pair.1@.alike(
                    pairs[k].1,
                )),
        decreases others.len() - j,
    {
        if pair.0.equivalent(&others[j].0) && pair.1.equivalent(&others[j].1) {
            assert(pair.0@.alike(pairs[j as int].0) && pair.1@.alike(pairs[j as int].1));
            return true;
        }
        j += 1;
    }
    false
}

impl Value {
    /// Whether this value and `other` are the same up to the order of the
    /// pairs of their dictionaries.
    pub fn equivalent(&self, other: &Value) -> (r: bool)
        ensures
            r == self@.alike(other@),
        decreases self, 0nat,
    {
        match (self, other) {
            (Value::Array(ea, ia), Value::Array(eb, ib)) => {
                proof {
                    lemma_array_term(*ea, *ia);
                    lemma_array_term(*eb, *ib);
                }
                if !ea.same(eb) || ia.len() != ib.len() {
                    return false;
                }
                let mut i: usize = 0;
                while i < ia.len()
                    invariant
                        *self is Array,
                        self->Array_1 == *ia,
                        self@ == Term::Array(ea@, terms_of(ia@)),
                        other@ == Term::Array(eb@, terms_of(ib@)),
                        ia.len() == ib.len(),
                        i <= ia.len(),
                        forall|j: int|
                            0 <= j < i ==> (#[trigger] terms_of(ia@)[j]).alike(terms_of(ib@)[j]),
                    decreases ia.len() - i,
                {
                    assert(decreases_to!(*ia => ia[i as int]));
                    if !ia[i].equivalent(&ib[i]) {
                        assert(!terms_of(ia@)[i as int].alike(terms_of(ib@)[i as int]));
                        return false;
                    }
                    i += 1;
                }
                true
            },
            (Value::Dict(ka, va, pa), Value::Dict(kb, vb, pb)) => {
                proof {
                    lemma_dict_term(*ka, *va, *pa);
                    lemma_dict_term(*kb, *vb, *pb);
                }
                if !ka.same(kb) || !va.same(vb) || pa.len() != pb.len() {
                    return false;
                }
                let ghost mine = pairs_of(pa@);
                let ghost theirs = pairs_of(pb@);
                let mut i: usize = 0;
                while i < pa.len()
                    invariant
                        *self is Dict,
                        self->Dict_2 == *pa,
                        mine == pairs_of(pa@),
                        theirs == pairs_of(pb@),
                        self@ == Term::Dict(ka@, va@, mine),
                        other@ == Term::Dict(kb@, vb@, theirs),
                        i <= pa.len(),
                        forall|j: int| 0 <= j < i ==> has_like(#[trigger] mine[j], theirs),
                    decreases pa.len() - i,
                {
                    assert(decreases_to!(*pa => pa[i as int]));
                    if !pair_among(&pa[i], pb) {
                        assert(!has_like(mine[i as int], theirs));
                        return false;
                    }
                    i += 1;
                }
                true
            },
            (Value::Structure(ma), Value::Structure(mb)) => {
                proof {
                    lemma_structure_term(*ma);
                    lemma_structure_term(*mb);
                }
                if ma.len() != mb.len() {
                    return false;
                }
                let mut i: usize = 0;
                while i < ma.len()
                    invariant
                        *self is Structure,
                        self->Structure_0 == *ma,
                        self@ == Term::Structure(terms_of(ma@)),
                        other@ == Term::Structure(terms_of(mb@)),
                        ma.len() == mb.len(),
                        i <= ma.len(),
                        forall|j: int|
                            0 <= j < i ==> (#[trigger] terms_of(ma@)[j]).alike(terms_of(mb@)[j]),
                    decreases ma.len() - i,
                {
                    assert(decreases_to!(*ma => ma[i as int]));
                    if !ma[i].equivalent(&mb[i]) {
                        assert(!terms_of(ma@)[i as int].alike(terms_of(mb@)[i as int]));
                        return false;
                    }
                    i += 1;
                }
                true
            },
            (Value::Variant(a), Value::Variant(b)) => a.equivalent(b),
            (Value::Array(_, _), _) => false,
            (Value::Dict(_, _, _), _) => false,
            (Value::Structure(_), _) => false,
            (Value::Variant(_), _) => false,
            _ => self.same(other),
        }
    }
}

/// A value is like itself: values that are the same are alike.
pub proof fn lemma_alike_reflexive(term: Term)
    ensures
        term.alike(term),
    decreases term,
{
    match term {
        Term::Array(_, items) => {
            assert forall|i: int| 0 <= i < items.len() implies (#[trigger] items[i]).alike(
                items[i],
            ) by {
                lemma_alike_reflexive(items[i]);
            }
        },
        Term::Dict(_, _, entries) => {
            assert forall|i: int| 0 <= i < entries.len() implies has_like(
                #[trigger] entries[i],
                entries,
            ) by {
                lemma_alike_reflexive(entries[i].0);
                lemma_alike_reflexive(entries[i].1);
            }
        },
        Term::Structure(members) => {
            assert forall|i: int| 0 <= i < members.len() implies (#[trigger] members[i]).alike(
                members[i],
            ) by {
                lemma_alike_reflexive(members[i]);
            }
        },
        Term::Variant(inner) => {
            lemma_alike_reflexive(*inner);
        },
        _ => {},
    }
}

impl Clone for Value {
    fn clone(&self) -> (copy: Value)
        ensures
            copy@ == self@,
        decreases self,
    {
        match self {
            Value::U8(n) => Value::U8(*n),
            Value::Bool(b) => Value::Bool(*b),
            Value::I16(n) => Value::I16(*n),
            Value::U16(n) => Value::U16(*n),
            Value::I32(n) => Value::I32(*n),
            Value::U32(n) => Value::U32(*n),
            Value::I64(n) => Value::I64(*n),
            Value::U64(n) => Value::U64(*n),
            Value::F64(text) => Value::F64(text.clone()),
            Value::Str(text) => Value::Str(text.clone()),
            Value::Signature(text) => Value::Signature(text.clone()),
            Value::ObjectPath(text) => Value::ObjectPath(text.clone()),
            Value::Array(element, items) => {
                let mut copies: Vec<Value> = Vec::new();
                let mut i: usize = 0;
                while i < items.len()
                    invariant
                        *self is Array,
                        self->Array_1 == *items,
                        i <= items.len(),
                        copies.len() == i,
                        forall|j: int| 0 <= j < i ==> copies[j]@ == items[j]@,
                    decreases items.len() - i,
                {
                    assert(decreases_to!(*items => items[i as int]));
                    copies.push(items[i].clone());
                    i += 1;
                }
                let copy = Value::Array(element.clone(), copies);
                assert(copy@->Array_1 =~= self@->Array_1);
                copy
            },
            Value::Dict(key, value, entries) => {
                let mut copies: Vec<(Value, Value)> = Vec::new();
                let mut i: usize = 0;
                while i < entries.len()
                    invariant
                        *self is Dict,
                        self->Dict_2 == *entries,
                        i <= entries.len(),
                        copies.len() == i,
                        forall|j: int|
                            0 <= j < i ==> copies[j].0@ == entries[j].0@ && copies[j].1@
                                == entries[j].1@,
                    decreases entries.len() - i,
                {
                    assert(decreases_to!(*entries => entries[i as int]));
                    let k = entries[i].0.clone();
                    let v = entries[i].1.clone();
                    copies.push((k, v));
                    i += 1;
                }
                let copy = Value::Dict(key.clone(), value.clone(), copies);
                assert(copy@->Dict_2 =~= self@->Dict_2);
                copy
            },
            Value::Structure(members) => {
                let mut copies: Vec<Value> = Vec::new();
                let mut i: usize = 0;
                while i < members.len()
                    invariant
                        *self is Structure,
                        self->Structure_0 == *members,
                        i <= members.len(),
                        copies.len() == i,
                        forall|j: int| 0 <= j < i ==> copies[j]@ == members[j]@,
                    decreases members.len() - i,
                {
                    assert(decreases_to!(*members => members[i as int]));
                    copies.push(members[i].clone());
                    i += 1;
                }
                let copy = Value::Structure(copies);
                assert(copy@->Structure_0 =~= self@->Structure_0);
                copy
            },
            Value::Variant(inner) => Value::Variant(Box::new((**inner).clone())),
        }
    }
}

} // verus!
