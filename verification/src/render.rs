use vstd::prelude::*;
use crate::chars::chars_of;
use crate::signature::{code, codes, lemma_structure_shape, shapes_of, Signature};
use crate::value::{
    lemma_array_term,
    lemma_dict_term,
    lemma_structure_term,
    pairs_of,
    terms_of,
    Term,
    Value,
};

verus! {

/// The character that writes the digit `d`.
pub open spec fn digit_char(d: int) -> char {
    ('0' as int + d) as char
}

/// The decimal digits that write `n`, without leading zeros.
pub open spec fn decimal_text(n: nat) -> Seq<char>
    decreases n,
{
    if n < 10 {
        seq![digit_char(n as int)]
    } else {
        decimal_text(n / 10).push(digit_char((n % 10) as int))
    }
}

/// The literal that writes the integer `n`.
pub open spec fn integer_text(n: int) -> Seq<char> {
    if n < 0 {
        seq!['-'] + decimal_text((-n) as nat)
    } else {
        decimal_text(n as nat)
    }
}

/// How `c` is written inside a quoted text: `\` and `"` after a `\`, any
/// other character as it is.
pub open spec fn escaped_char(c: char) -> Seq<char> {
    if c == '\\' || c == '"' {
        seq!['\\', c]
    } else {
        seq![c]
    }
}

/// How the characters `content[from..]` are written inside a quoted text.
pub open spec fn escaped_text(content: Seq<char>, from: nat) -> Seq<char>
    decreases content.len() - from,
{
    if from < content.len() {
        escaped_char(content[from as int]) + escaped_text(content, (from + 1) as nat)
    } else {
        Seq::empty()
    }
}

/// The quoted text that writes `content`.
pub open spec fn quoted_text(content: Seq<char>) -> Seq<char> {
    seq!['"'] + escaped_text(content, 0) + seq!['"']
}

/// The literal that writes `term`, without white space.
pub open spec fn rendered(term: Term) -> Seq<char>
    decreases term, 0nat,
{
    match term {
        Term::U8(n) => integer_text(n as int),
        Term::Bool(b) => if b {
            seq!['t', 'r', 'u', 'e']
        } else {
            seq!['f', 'a', 'l', 's', 'e']
        },
        Term::I16(n) => integer_text(n as int),
        Term::U16(n) => integer_text(n as int),
        Term::I32(n) => integer_text(n as int),
        Term::U32(n) => integer_text(n as int),
        Term::I64(n) => integer_text(n as int),
        Term::U64(n) => integer_text(n as int),
        Term::F64(text) => text,
        Term::Str(content) => quoted_text(content),
        Term::Signature(content) => quoted_text(content),
        Term::ObjectPath(content) => quoted_text(content),
        Term::Array(_, items) => seq!['['] + rendered_items(items, 0) + seq![']'],
        Term::Dict(_, _, entries) => seq!['{'] + rendered_pairs(entries, 0) + seq!['}'],
        Term::Structure(members) => seq!['('] + rendered_items(members, 0) + seq![')'],
        Term::Variant(inner) => quoted_text(code(inner.shape())) + seq!['-', '>'] + rendered(
            *inner,
        ),
    }
}

/// The literals of `items[from..]` with `,` between them.
pub open spec fn rendered_items(items: Seq<Term>, from: nat) -> Seq<char>
    decreases items, items.len() - from,
{
    if from + 1 < items.len() {
        rendered(items[from as int]) + seq![','] + rendered_items(items, (from + 1) as nat)
    } else if from < items.len() {
        rendered(items[from as int])
    } else {
        Seq::empty()
    }
}

/// The pairs `entries[from..]`, each written as its key, `:` and its value,
/// with `,` between them.
pub open spec fn rendered_pairs(entries: Seq<(Term, Term)>, from: nat) -> Seq<char>
    decreases entries, entries.len() - from,
{
    if from + 1 < entries.len() {
        rendered(entries[from as int].0) + seq![':'] + rendered(entries[from as int].1) + seq![
            ',',
        ] + rendered_pairs(entries, (from + 1) as nat)
    } else if from < entries.len() {
        rendered(entries[from as int].0) + seq![':'] + rendered(entries[from as int].1)
    } else {
        Seq::empty()
    }
}

/// Adds the decimal digits of `n` to `out`.
fn push_decimal(out: &mut String, n: u64)
    ensures
        final(out)@ == old(out)@ + decimal_text(n as nat),
    decreases n,
{
    if n >= 10 {
        push_decimal(out, n / 10);
    }
    let digit = (n % 10) as u32;
    match char::from_u32(48 + digit) {
        Some(c) => {
            out.push(c);
        },
        None => {},
    }
    assert(final(out)@ =~= old(out)@ + decimal_text(n as nat));
}

/// Adds the literal of the integer `n` to `out`.
fn push_integer(out: &mut String, n: i128)
    requires
        -0x1_0000_0000_0000_0000 < n < 0x1_0000_0000_0000_0000,
    ensures
        final(out)@ == old(out)@ + integer_text(n as int),
{
    if n < 0 {
        out.push('-');
        push_decimal(out, (-n) as u64);
        assert(final(out)@ =~= old(out)@ + integer_text(n as int));
    } else {
        push_decimal(out, n as u64);
    }
}

/// Adds the characters of `word` to `out`.
fn push_chars(out: &mut String, word: &[char])
    ensures
        final(out)@ == old(out)@ + word@,
{
    let mut i: usize = 0;
    assert(out@ =~= old(out)@ + word@.take(0));
    while i < word.len()
        invariant
            i <= word@.len(),
            out@ == old(out)@ + word@.take(i as int),
        decreases word@.len() - i,
    {
        out.push(word[i]);
        i += 1;
        assert(out@ =~= old(out)@ + word@.take(i as int));
    }
    assert(word@.take(i as int) =~= word@);
}

/// Adds the quoted text that writes `content` to `out`.
fn push_quoted(out: &mut String, content: &[char])
    ensures
        final(out)@ == old(out)@ + quoted_text(content@),
{
    out.push('"');
    let ghost opened = out@;
    let mut i: usize = 0;
    assert(out@ + escaped_text(content@, 0) =~= opened + escaped_text(content@, 0));
    while i < content.len()
        invariant
            i <= content@.len(),
            out@ + escaped_text(content@, i as nat) == opened + escaped_text(content@, 0),
        decreases content@.len() - i,
    {
        let c = content[i];
        let ghost before = out@;
        if c == '\\' || c == '"' {
            out.push('\\');
        }
        out.push(c);
        assert(out@ =~= before + escaped_char(c));
        assert(out@ + escaped_text(content@, (i + 1) as nat) =~= before + escaped_text(
            content@,
            i as nat,
        ));
        i += 1;
    }
    assert(out@ =~= opened + escaped_text(content@, 0));
    out.push('"');
    assert(final(out)@ =~= old(out)@ + quoted_text(content@));
}

/// Adds the signature text of `signature` to `out`.
fn push_code(out: &mut String, signature: &Signature)
    ensures
        final(out)@ == old(out)@ + code(signature@),
    decreases signature,
{
    match signature {
        Signature::Unit => {
            assert(out@ =~= old(out)@ + code(signature@));
        },
        Signature::U8 => push_letter(out, 'y'),
        Signature::Bool => push_letter(out, 'b'),
        Signature::I16 => push_letter(out, 'n'),
        Signature::U16 => push_letter(out, 'q'),
        Signature::I32 => push_letter(out, 'i'),
        Signature::U32 => push_letter(out, 'u'),
        Signature::I64 => push_letter(out, 'x'),
        Signature::U64 => push_letter(out, 't'),
        Signature::F64 => push_letter(out, 'd'),
        Signature::Str => push_letter(out, 's'),
        Signature::Signature => push_letter(out, 'g'),
        Signature::ObjectPath => push_letter(out, 'o'),
        Signature::Variant => push_letter(out, 'v'),
        Signature::Fd => push_letter(out, 'h'),
        Signature::Array(element) => {
            out.push('a');
            push_code(out, element);
            assert(final(out)@ =~= old(out)@ + code(signature@));
        },
        Signature::Dict(key, value) => {
            out.push('a');
            out.push('{');
            push_code(out, key);
            push_code(out, value);
            out.push('}');
            assert(final(out)@ =~= old(out)@ + code(signature@));
        },
        Signature::Structure(fields) => {
            out.push('(');
            let ghost opened = out@;
            let ghost shapes = shapes_of(fields@);
            proof {
                lemma_structure_shape(*fields);
                assert(out@ + codes(shapes, 0) =~= opened + codes(shapes, 0));
            }
            let mut i: usize = 0;
            while i < fields.len()
                invariant
                    *signature is Structure,
                    signature->Structure_0 == *fields,
                    shapes == shapes_of(fields@),
                    i <= fields.len(),
                    out@ + codes(shapes, i as nat) == opened + codes(shapes, 0),
                decreases fields.len() - i,
            {
                let ghost before = out@;
                assert(decreases_to!(*fields => fields[i as int]));
                push_code(out, &fields[i]);
                assert(out@ + codes(shapes, (i + 1) as nat) =~= before + codes(shapes, i as nat));
                i += 1;
            }
            assert(out@ =~= opened + codes(shapes, 0));
            out.push(')');
            assert(final(out)@ =~= old(out)@ + code(signature@));
        },
    }
}

/// Adds the one-letter code `c` to `out`.
fn push_letter(out: &mut String, c: char)
    ensures
        final(out)@ == old(out)@ + seq![c],
{
    out.push(c);
    assert(final(out)@ =~= old(out)@ + seq![c]);
}

impl Signature {
    /// The text that names this signature, as the bus writes it.
    pub fn encode(&self) -> (text: String)
        ensures
            text@ == code(self@),
    {
        let mut out = String::new();
        push_code(&mut out, self);
        assert(out@ =~= code(self@));
        out
    }
}

impl Value {
    /// The signature of this value.
    pub fn signature(&self) -> (signature: Signature)
        ensures
            signature@ == self@.shape(),
        decreases self,
    {
        match self {
            Value::U8(_) => Signature::U8,
            Value::Bool(_) => Signature::Bool,
            Value::I16(_) => Signature::I16,
            Value::U16(_) => Signature::U16,
            Value::I32(_) => Signature::I32,
            Value::U32(_) => Signature::U32,
            Value::I64(_) => Signature::I64,
            Value::U64(_) => Signature::U64,
            Value::F64(_) => Signature::F64,
            Value::Str(_) => Signature::Str,
            Value::Signature(_) => Signature::Signature,
            Value::ObjectPath(_) => Signature::ObjectPath,
            Value::Array(element, _) => Signature::Array(Box::new(element.clone())),
            Value::Dict(key, value, _) => Signature::Dict(
                Box::new(key.clone()),
                Box::new(value.clone()),
            ),
            Value::Structure(members) => {
                let mut fields: Vec<Signature> = Vec::new();
                let mut i: usize = 0;
                proof {
                    lemma_structure_term(*members);
                }
                while i < members.len()
                    invariant
                        *self is Structure,
                        self->Structure_0 == *members,
                        i <= members.len(),
                        fields.len() == i,
                        forall|j: int| 0 <= j < i ==> fields[j]@ == members[j]@.shape(),
                    decreases members.len() - i,
                {
                    assert(decreases_to!(*members => members[i as int]));
                    fields.push(members[i].signature());
                    i += 1;
                }
                proof {
                    lemma_structure_shape(fields);
                    assert(shapes_of(fields@) =~= self@.shape()->Structure_0);
                }
                Signature::Structure(fields)
            },
            Value::Variant(_) => Signature::Variant,
        }
    }

    /// The literal that writes this value, without white space.
    pub fn to_text(&self) -> (text: String)
        ensures
            text@ == rendered(self@),
    {
        let mut out = String::new();
        push_value(&mut out, self);
        assert(out@ =~= rendered(self@));
        out
    }
}

/// Adds the literals of `items` to `out`, with `,` between them.
fn push_items(out: &mut String, items: &Vec<Value>)
    ensures
        final(out)@ == old(out)@ + rendered_items(terms_of(items@), 0),
    decreases items, 0nat,
{
    let ghost terms = terms_of(items@);
    let ghost start = out@;
    let mut i: usize = 0;
    assert(out@ + rendered_items(terms, 0) =~= start + rendered_items(terms, 0));
    while i < items.len()
        invariant
            terms == terms_of(items@),
            i <= items.len(),
            out@ + rendered_items(terms, i as nat) == start + rendered_items(terms, 0),
        decreases items.len() - i,
    {
        let ghost before = out@;
        assert(decreases_to!(*items => items[i as int]));
        push_value(out, &items[i]);
        if i + 1 < items.len() {
            out.push(',');
        }
        assert(out@ + rendered_items(terms, (i + 1) as nat) =~= before + rendered_items(
            terms,
            i as nat,
        ));
        i += 1;
    }
    assert(out@ =~= start + rendered_items(terms, 0));
}

/// Adds the literal of `value` to `out`.
fn push_value(out: &mut String, value: &Value)
    ensures
        final(out)@ == old(out)@ + rendered(value@),
    decreases value, 1nat,
{
    match value {
        Value::U8(n) => push_integer(out, *n as i128),
        Value::Bool(b) => {
            if *b {
                out.push('t');
                out.push('r');
                out.push('u');
                out.push('e');
            } else {
                out.push('f');
                out.push('a');
                out.push('l');
                out.push('s');
                out.push('e');
            }
            assert(final(out)@ =~= old(out)@ + rendered(value@));
        },
        Value::I16(n) => push_integer(out, *n as i128),
        Value::U16(n) => push_integer(out, *n as i128),
        Value::I32(n) => push_integer(out, *n as i128),
        Value::U32(n) => push_integer(out, *n as i128),
        Value::I64(n) => push_integer(out, *n as i128),
        Value::U64(n) => push_integer(out, *n as i128),
        Value::F64(text) => {
            let chars = chars_of(text.as_str());
            push_chars(out, chars.as_slice());
        },
        Value::Str(content) => {
            let chars = chars_of(content.as_str());
            push_quoted(out, chars.as_slice());
        },
        Value::Signature(content) => {
            let chars = chars_of(content.as_str());
            push_quoted(out, chars.as_slice());
        },
        Value::ObjectPath(content) => {
            let chars = chars_of(content.as_str());
            push_quoted(out, chars.as_slice());
        },
        Value::Array(element, items) => {
            proof {
                lemma_array_term(*element, *items);
            }
            out.push('[');
            push_items(out, items);
            out.push(']');
            assert(final(out)@ =~= old(out)@ + rendered(value@));
        },
        Value::Dict(key, val, entries) => {
            out.push('{');
            let ghost pairs = pairs_of(entries@);
            let ghost opened = out@;
            proof {
                lemma_dict_term(*key, *val, *entries);
                assert(out@ + rendered_pairs(pairs, 0) =~= opened + rendered_pairs(pairs, 0));
            }
            let mut i: usize = 0;
            while i < entries.len()
                invariant
                    *value is Dict,
                    value->Dict_2 == *entries,
                    pairs == pairs_of(entries@),
                    i <= entries.len(),
                    out@ + rendered_pairs(pairs, i as nat) == opened + rendered_pairs(pairs, 0),
                decreases entries.len() - i,
            {
                let ghost before = out@;
                assert(decreases_to!(*entries => entries[i as int]));
                push_value(out, &entries[i].0);
                out.push(':');
                push_value(out, &entries[i].1);
                if i + 1 < entries.len() {
                    out.push(',');
                }
                assert(out@ + rendered_pairs(pairs, (i + 1) as nat) =~= before + rendered_pairs(
                    pairs,
                    i as nat,
                ));
                i += 1;
            }
            assert(out@ =~= opened + rendered_pairs(pairs, 0));
            out.push('}');
            assert(final(out)@ =~= old(out)@ + rendered(value@));
        },
        Value::Structure(members) => {
            proof {
                lemma_structure_term(*members);
            }
            out.push('(');
            push_items(out, members);
            out.push(')');
            assert(final(out)@ =~= old(out)@ + rendered(value@));
        },
        Value::Variant(inner) => {
            let signature = inner.signature();
            let text = signature.encode();
            let chars = chars_of(text.as_str());
            push_quoted(out, chars.as_slice());
            out.push('-');
            out.push('>');
            push_value(out, inner);
            assert(final(out)@ =~= old(out)@ + rendered(value@));
        },
    }
}

} // verus!
