use vstd::prelude::*;

verus! {

/// The shape of a bus value, as introspection hands it over.
#[derive(Debug, PartialEq, Eq)]
pub enum Signature {
    Unit,
    U8,
    Bool,
    I16,
    U16,
    I32,
    U32,
    I64,
    U64,
    F64,
    Str,
    Signature,
    ObjectPath,
    Variant,
    Fd,
    Array(Box<Signature>),
    Dict(Box<Signature>, Box<Signature>),
    Structure(Vec<Signature>),
}

/// The mathematical model of a [`Signature`].
pub enum Shape {
    Unit,
    U8,
    Bool,
    I16,
    U16,
    I32,
    U32,
    I64,
    U64,
    F64,
    Str,
    Signature,
    ObjectPath,
    Variant,
    Fd,
    Array(Box<Shape>),
    Dict(Box<Shape>, Box<Shape>),
    Structure(Seq<Shape>),
}

impl Signature {
    /// The model of this signature.
    pub open spec fn shape(self) -> Shape
        decreases self,
    {
        match self {
            Signature::Unit => Shape::Unit,
            Signature::U8 => Shape::U8,
            Signature::Bool => Shape::Bool,
            Signature::I16 => Shape::I16,
            Signature::U16 => Shape::U16,
            Signature::I32 => Shape::I32,
            Signature::U32 => Shape::U32,
            Signature::I64 => Shape::I64,
            Signature::U64 => Shape::U64,
            Signature::F64 => Shape::F64,
            Signature::Str => Shape::Str,
            Signature::Signature => Shape::Signature,
            Signature::ObjectPath => Shape::ObjectPath,
            Signature::Variant => Shape::Variant,
            Signature::Fd => Shape::Fd,
            Signature::Array(element) => Shape::Array(Box::new(element.shape())),
            Signature::Dict(key, value) => Shape::Dict(
                Box::new(key.shape()),
                Box::new(value.shape()),
            ),
            Signature::Structure(fields) => Shape::Structure(
                Seq::new(
                    fields.len() as nat,
                    |i: int|
                        if 0 <= i < fields.len() {
                            fields[i].shape()
                        } else {
                            Shape::Unit
                        },
                ),
            ),
        }
    }
}

impl View for Signature {
    type V = Shape;

    open spec fn view(&self) -> Shape {
        self.shape()
    }
}

impl Clone for Signature {
    fn clone(&self) -> (copy: Signature)
        ensures
            copy@ == self@,
        decreases self,
    {
        match self {
            Signature::Unit => Signature::Unit,
            Signature::U8 => Signature::U8,
            Signature::Bool => Signature::Bool,
            Signature::I16 => Signature::I16,
            Signature::U16 => Signature::U16,
            Signature::I32 => Signature::I32,
            Signature::U32 => Signature::U32,
            Signature::I64 => Signature::I64,
            Signature::U64 => Signature::U64,
            Signature::F64 => Signature::F64,
            Signature::Str => Signature::Str,
            Signature::Signature => Signature::Signature,
            Signature::ObjectPath => Signature::ObjectPath,
            Signature::Variant => Signature::Variant,
            Signature::Fd => Signature::Fd,
            Signature::Array(element) => Signature::Array(Box::new((**element).clone())),
            Signature::Dict(key, value) => Signature::Dict(
                Box::new((**key).clone()),
                Box::new((**value).clone()),
            ),
            Signature::Structure(fields) => {
                let mut copies: Vec<Signature> = Vec::new();
                let mut i: usize = 0;
                while i < fields.len()
                    invariant
                        *self is Structure,
                        self->Structure_0 == *fields,
                        i <= fields.len(),
                        copies.len() == i,
                        forall|j: int| 0 <= j < i ==> copies[j]@ == fields[j]@,
                    decreases fields.len() - i,
                {
                    assert(decreases_to!(*fields => fields[i as int]));
                    copies.push(fields[i].clone());
                    i += 1;
                }
                let copy = Signature::Structure(copies);
                assert(copy@->Structure_0 =~= self@->Structure_0);
                copy
            },
        }
    }
}

impl Signature {
    /// Whether the two signatures describe the same shape.
    pub fn same(&self, other: &Signature) -> (r: bool)
        ensures
            r == (self@ == other@),
        decreases self,
    {
        match (self, other) {
            (Signature::Unit, Signature::Unit) => true,
            (Signature::U8, Signature::U8) => true,
            (Signature::Bool, Signature::Bool) => true,
            (Signature::I16, Signature::I16) => true,
            (Signature::U16, Signature::U16) => true,
            (Signature::I32, Signature::I32) => true,
            (Signature::U32, Signature::U32) => true,
            (Signature::I64, Signature::I64) => true,
            (Signature::U64, Signature::U64) => true,
            (Signature::F64, Signature::F64) => true,
            (Signature::Str, Signature::Str) => true,
            (Signature::Signature, Signature::Signature) => true,
            (Signature::ObjectPath, Signature::ObjectPath) => true,
            (Signature::Variant, Signature::Variant) => true,
            (Signature::Fd, Signature::Fd) => true,
            (Signature::Array(a), Signature::Array(b)) => a.same(b),
            (Signature::Dict(ka, va), Signature::Dict(kb, vb)) => ka.same(kb) && va.same(vb),
            (Signature::Structure(fa), Signature::Structure(fb)) => {
                assert(self@->Structure_0.len() == fa.len());
                assert(other@->Structure_0.len() == fb.len());
                if fa.len() != fb.len() {
                    return false;
                }
                let mut i: usize = 0;
                while i < fa.len()
                    invariant
                        *self is Structure,
                        self->Structure_0 == *fa,
                        *other is Structure,
                        other->Structure_0 == *fb,
                        fa.len() == fb.len(),
                        i <= fa.len(),
                        forall|j: int| 0 <= j < i ==> fa[j]@ == fb[j]@,
                    decreases fa.len() - i,
                {
                    assert(decreases_to!(*fa => fa[i as int]));
                    if !fa[i].same(&fb[i]) {
                        assert(self@->Structure_0[i as int] != other@->Structure_0[i as int]);
                        return false;
                    }
                    i += 1;
                }
                assert(self@->Structure_0 =~= other@->Structure_0);
                true
            },
            _ => false,
        }
    }
}

/// The shape that a one-letter type code names.
pub open spec fn basic_shape(c: char) -> Option<Shape> {
    if c == 'y' {
        Some(Shape::U8)
    } else if c == 'b' {
        Some(Shape::Bool)
    } else if c == 'n' {
        Some(Shape::I16)
    } else if c == 'q' {
        Some(Shape::U16)
    } else if c == 'i' {
        Some(Shape::I32)
    } else if c == 'u' {
        Some(Shape::U32)
    } else if c == 'x' {
        Some(Shape::I64)
    } else if c == 't' {
        Some(Shape::U64)
    } else if c == 'd' {
        Some(Shape::F64)
    } else if c == 's' {
        Some(Shape::Str)
    } else if c == 'g' {
        Some(Shape::Signature)
    } else if c == 'o' {
        Some(Shape::ObjectPath)
    } else if c == 'v' {
        Some(Shape::Variant)
    } else if c == 'h' {
        Some(Shape::Fd)
    } else {
        None
    }
}

/// The single complete type whose code starts at `pos`, with the position
/// after it: a one-letter code, `a` and the element's type, `a{` the key's
/// type, the value's type and `}`, or `(` one or more types and `)`.
pub open spec fn type_at(text: Seq<char>, pos: int) -> Option<(Shape, int)>
    decreases text.len() - pos, 0int,
{
    if !(0 <= pos < text.len()) {
        None
    } else if text[pos] == 'a' && pos + 1 < text.len() && text[pos + 1] == '{' {
        match type_at(text, pos + 2) {
            Some((key, after_key)) => if !(pos < after_key <= text.len()) {
                None
            } else {
                match type_at(text, after_key) {
                    Some((value, after_value)) => if 0 <= after_value < text.len()
                        && text[after_value] == '}' {
                        Some((Shape::Dict(Box::new(key), Box::new(value)), after_value + 1))
                    } else {
                        None
                    },
                    None => None,
                }
            },
            None => None,
        }
    } else if text[pos] == 'a' {
        match type_at(text, pos + 1) {
            Some((element, next)) => Some((Shape::Array(Box::new(element)), next)),
            None => None,
        }
    } else if text[pos] == '(' {
        match fields_at(text, pos + 1, Seq::empty()) {
            Some((fields, next)) => Some((Shape::Structure(fields), next)),
            None => None,
        }
    } else {
        match basic_shape(text[pos]) {
            Some(shape) => Some((shape, pos + 1)),
            None => None,
        }
    }
}

/// The types of a structure's fields from `pos` up to the closing `)`,
/// added to `fields`, with the position after the `)`.  A structure has at
/// least one field.
pub open spec fn fields_at(text: Seq<char>, pos: int, fields: Seq<Shape>) -> Option<
    (Seq<Shape>, int),
>
    decreases text.len() - pos, 1int,
{
    if 0 <= pos < text.len() && text[pos] == ')' {
        if fields.len() > 0 {
            Some((fields, pos + 1))
        } else {
            None
        }
    } else {
        match type_at(text, pos) {
            Some((field, next)) => if !(pos < next <= text.len()) {
                None
            } else {
                fields_at(text, next, fields.push(field))
            },
            None => None,
        }
    }
}

/// The complete types from `pos` to the end of `text`, added to `types`.
pub open spec fn types_to_end(text: Seq<char>, pos: int, types: Seq<Shape>) -> Option<Seq<Shape>>
    decreases text.len() - pos,
{
    if pos >= text.len() {
        Some(types)
    } else {
        match type_at(text, pos) {
            Some((shape, next)) => if !(pos < next <= text.len()) {
                None
            } else {
                types_to_end(text, next, types.push(shape))
            },
            None => None,
        }
    }
}

/// The shape that the signature text `text` names: the unit type for the
/// empty text, the type itself for a single complete type, and the structure
/// of the types for several.
pub open spec fn decoded(text: Seq<char>) -> Option<Shape> {
    match types_to_end(text, 0, Seq::empty()) {
        Some(types) => if types.len() == 0 {
            Some(Shape::Unit)
        } else if types.len() == 1 {
            Some(types[0])
        } else {
            Some(Shape::Structure(types))
        },
        None => None,
    }
}

/// The models of the signatures in `fields`.
pub open spec fn shapes_of(fields: Seq<Signature>) -> Seq<Shape> {
    Seq::new(fields.len(), |i: int| fields[i]@)
}

pub proof fn lemma_structure_shape(fields: Vec<Signature>)
    ensures
        Signature::Structure(fields)@ == Shape::Structure(shapes_of(fields@)),
{
    assert(Signature::Structure(fields)@->Structure_0 =~= shapes_of(fields@));
}

/// The signature that a one-letter type code names.
fn basic_signature(c: char) -> (r: Option<Signature>)
    ensures
        match r {
            Some(signature) => basic_shape(c) == Some(signature@),
            None => basic_shape(c) is None,
        },
{
    if c == 'y' {
        Some(Signature::U8)
    } else if c == 'b' {
        Some(Signature::Bool)
    } else if c == 'n' {
        Some(Signature::I16)
    } else if c == 'q' {
        Some(Signature::U16)
    } else if c == 'i' {
        Some(Signature::I32)
    } else if c == 'u' {
        Some(Signature::U32)
    } else if c == 'x' {
        Some(Signature::I64)
    } else if c == 't' {
        Some(Signature::U64)
    } else if c == 'd' {
        Some(Signature::F64)
    } else if c == 's' {
        Some(Signature::Str)
    } else if c == 'g' {
        Some(Signature::Signature)
    } else if c == 'o' {
        Some(Signature::ObjectPath)
    } else if c == 'v' {
        Some(Signature::Variant)
    } else if c == 'h' {
        Some(Signature::Fd)
    } else {
        None
    }
}

/// Reads the single complete type whose code starts at `pos`.
fn decode_type(text: &[char], pos: usize) -> (r: Option<(Signature, usize)>)
    requires
        pos <= text@.len(),
    ensures
        match r {
            Some((signature, next)) => type_at(text@, pos as int) == Some(
                (signature@, next as int),
            ) && pos < next <= text@.len(),
            None => type_at(text@, pos as int) is None,
        },
    decreases text@.len() - pos,
{
    let n = text.len();
    if pos >= n {
        return None;
    }
    let c = text[pos];
    if c == 'a' && pos + 1 < n && text[pos + 1] == '{' {
        let (key, after_key) = match decode_type(text, pos + 2) {
            Some(read) => read,
            None => {
                return None;
            },
        };
        let (value, after_value) = match decode_type(text, after_key) {
            Some(read) => read,
            None => {
                return None;
            },
        };
        if after_value < n && text[after_value] == '}' {
            Some((Signature::Dict(Box::new(key), Box::new(value)), after_value + 1))
        } else {
            None
        }
    } else if c == 'a' {
        match decode_type(text, pos + 1) {
            Some((element, next)) => Some((Signature::Array(Box::new(element)), next)),
            None => None,
        }
    } else if c == '(' {
        let mut fields: Vec<Signature> = Vec::new();
        let mut at: usize = pos + 1;
        assert(shapes_of(fields@) =~= Seq::empty());
        loop
            invariant
                n == text@.len(),
                pos < at <= n,
                text@[pos as int] == '(',
                fields_at(text@, pos + 1, Seq::empty()) == fields_at(
                    text@,
                    at as int,
                    shapes_of(fields@),
                ),
            decreases n - at,
        {
            if at < n && text[at] == ')' {
                if fields.len() > 0 {
                    proof {
                        lemma_structure_shape(fields);
                    }
                    return Some((Signature::Structure(fields), at + 1));
                } else {
                    return None;
                }
            }
            match decode_type(text, at) {
                Some((field, next)) => {
                    assert(shapes_of(fields@.push(field)) =~= shapes_of(fields@).push(field@));
                    fields.push(field);
                    at = next;
                },
                None => {
                    return None;
                },
            }
        }
    } else {
        match basic_signature(c) {
            Some(signature) => Some((signature, pos + 1)),
            None => None,
        }
    }
}

impl Signature {
    /// Reads a signature from its text, as introspection writes it: the
    /// unit type for the empty text, the type itself for one complete type,
    /// and the structure of the types for several.  `None` for a text that
    /// is no sequence of complete types.
    pub fn decode(text: &str) -> (r: Option<Signature>)
        ensures
            match r {
                Some(signature) => decoded(text@) == Some(signature@),
                None => decoded(text@) is None,
            },
    {
        let chars = crate::chars::chars_of(text);
        let code = chars.as_slice();
        let n = code.len();
        let mut types: Vec<Signature> = Vec::new();
        let mut at: usize = 0;
        assert(shapes_of(types@) =~= Seq::empty());
        while at < n
            invariant
                code@ == text@,
                n == code@.len(),
                at <= n,
                types_to_end(code@, 0, Seq::empty()) == types_to_end(
                    code@,
                    at as int,
                    shapes_of(types@),
                ),
            decreases n - at,
        {
            match decode_type(code, at) {
                Some((signature, next)) => {
                    assert(shapes_of(types@.push(signature)) =~= shapes_of(types@).push(
                        signature@,
                    ));
                    types.push(signature);
                    at = next;
                },
                None => {
                    return None;
                },
            }
        }
        if types.len() == 0 {
            Some(Signature::Unit)
        } else if types.len() == 1 {
            types.pop()
        } else {
            proof {
                lemma_structure_shape(types);
            }
            Some(Signature::Structure(types))
        }
    }
}

/// The text that names `shape`: the inverse of decoding.
pub open spec fn code(shape: Shape) -> Seq<char>
    decreases shape, 0nat,
{
    match shape {
        Shape::Unit => Seq::empty(),
        Shape::U8 => seq!['y'],
        Shape::Bool => seq!['b'],
        Shape::I16 => seq!['n'],
        Shape::U16 => seq!['q'],
        Shape::I32 => seq!['i'],
        Shape::U32 => seq!['u'],
        Shape::I64 => seq!['x'],
        Shape::U64 => seq!['t'],
        Shape::F64 => seq!['d'],
        Shape::Str => seq!['s'],
        Shape::Signature => seq!['g'],
        Shape::ObjectPath => seq!['o'],
        Shape::Variant => seq!['v'],
        Shape::Fd => seq!['h'],
        Shape::Array(element) => seq!['a'] + code(*element),
        Shape::Dict(key, value) => seq!['a', '{'] + code(*key) + code(*value) + seq!['}'],
        Shape::Structure(fields) => seq!['('] + codes(fields, 0) + seq![')'],
    }
}

/// The codes of the shapes `fields[from..]`, one after the other.
pub open spec fn codes(fields: Seq<Shape>, from: nat) -> Seq<char>
    decreases fields, fields.len() - from,
{
    if from < fields.len() {
        code(fields[from as int]) + codes(fields, (from + 1) as nat)
    } else {
        Seq::empty()
    }
}

/// Whether `shape` can be written as a signature text and read back: it
/// holds no unit type and no structure without fields.
pub open spec fn codable(shape: Shape) -> bool
    decreases shape,
{
    match shape {
        Shape::Unit => false,
        Shape::Array(element) => codable(*element),
        Shape::Dict(key, value) => codable(*key) && codable(*value),
        Shape::Structure(fields) => fields.len() > 0 && forall|i: int|
            0 <= i < fields.len() ==> codable(#[trigger] fields[i]),
        _ => true,
    }
}

} // verus!
