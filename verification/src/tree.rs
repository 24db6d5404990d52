use vstd::prelude::*;
use crate::chars::chars_of;

verus! {

/// The three groups of members that an interface of the bus has.
#[derive(Debug, Clone, Copy, PartialEq, Eq, Hash, Structural)]
pub enum MemberTypes {
    Methods,
    Properties,
    Signals,
}

/// Whether an argument goes into a call or comes out of it.
#[derive(Debug, Clone, Copy, PartialEq, Eq, Hash, Structural)]
pub enum ArgDirection {
    In,
    Out,
}

/// One argument of a method or a signal, as introspection describes it: its
/// name if it has one, the text of its signature, and its direction if one
/// is given.
#[derive(Debug, Clone, PartialEq, Eq, Hash)]
pub struct MethodArgument {
    pub name: Option<String>,
    pub ty: String,
    pub direction: Option<ArgDirection>,
}

/// A method, as introspection describes it.
#[derive(Debug, Clone, PartialEq, Eq, Hash)]
pub struct MethodDescription {
    pub name: String,
    pub args: Vec<MethodArgument>,
}

/// Where an entry stands in the tree of a service: an object holds
/// interfaces, an interface its three groups of members, a group the
/// members themselves.
#[derive(Debug, Clone, PartialEq, Eq, Hash)]
pub enum DbusIdentifier {
    Object(String),
    Interface(String),
    Member(MemberTypes),
    Method(MethodDescription),
    Property(String),
    Signal(String),
}

impl Default for DbusIdentifier {
    fn default() -> (root: DbusIdentifier)
        ensures
            root matches DbusIdentifier::Object(path) && path@ == seq!['/'],
    {
        let mut path = String::new();
        path.push('/');
        assert(path@ =~= seq!['/']);
        DbusIdentifier::Object(path)
    }
}

/// How an argument is shown: its name, or nothing if it has none, then
/// `: ` and the text of its signature.
pub open spec fn argument_text(argument: MethodArgument) -> Seq<char> {
    (match argument.name {
        Some(name) => name@,
        None => Seq::empty(),
    }) + seq![':', ' '] + argument.ty@
}

/// How the arguments of direction `direction` among the first `count` of
/// `arguments` are shown, in their order.
pub open spec fn listed(arguments: Seq<MethodArgument>, direction: ArgDirection, count: int) -> Seq<
    Seq<char>,
>
    decreases count,
{
    if count <= 0 {
        Seq::empty()
    } else if arguments[count - 1].direction == Some(direction) {
        listed(arguments, direction, count - 1).push(argument_text(arguments[count - 1]))
    } else {
        listed(arguments, direction, count - 1)
    }
}

/// The texts `parts` with `, ` between them.
pub open spec fn joined(parts: Seq<Seq<char>>) -> Seq<char>
    decreases parts.len(),
{
    if parts.len() == 0 {
        Seq::empty()
    } else if parts.len() == 1 {
        parts[0]
    } else {
        joined(parts.drop_last()) + seq![',', ' '] + parts.last()
    }
}

/// How the arguments of direction `direction` are shown: each as
/// [`argument_text`] says, with `, ` between them.
pub open spec fn arguments_text(arguments: Seq<MethodArgument>, direction: ArgDirection) -> Seq<
    char,
> {
    joined(listed(arguments, direction, arguments.len() as int))
}

/// Whether one of `arguments` has the direction `direction`.
pub open spec fn has_direction(arguments: Seq<MethodArgument>, direction: ArgDirection) -> bool {
    exists|i: int| 0 <= i < arguments.len() && (#[trigger] arguments[i]).direction == Some(direction)
}

/// How a method is shown: its name, its inputs in round brackets, a space,
/// `=>` if it has outputs, a space, and its outputs.
pub open spec fn method_text(method: MethodDescription) -> Seq<char> {
    method.name@ + seq!['('] + arguments_text(method.args@, ArgDirection::In) + seq![')', ' '] + (
    if has_direction(method.args@, ArgDirection::Out) {
        seq!['=', '>']
    } else {
        Seq::empty()
    }) + seq![' '] + arguments_text(method.args@, ArgDirection::Out)
}

/// How a signal is shown: its name and its inputs in round brackets.
pub open spec fn signal_text(name: Seq<char>, arguments: Seq<MethodArgument>) -> Seq<char> {
    name + seq!['('] + arguments_text(arguments, ArgDirection::In) + seq![')']
}

/// How a property is shown: its name, `: ` and the text of its signature.
pub open spec fn property_text(name: Seq<char>, ty: Seq<char>) -> Seq<char> {
    name + seq![':', ' '] + ty
}

/// The path of the child `name` of the object at `parent`: the two with a
/// `/` between them, unless `parent` ends in one.
pub open spec fn child_path_text(parent: Seq<char>, name: Seq<char>) -> Seq<char> {
    if parent.len() > 0 && parent.last() == '/' {
        parent + name
    } else {
        parent + seq!['/'] + name
    }
}

/// Adds `argument`, as it is shown, to `out`.
fn push_argument(out: &mut String, argument: &MethodArgument)
    ensures
        final(out)@ == old(out)@ + argument_text(*argument),
{
    match &argument.name {
        Some(name) => {
            out.append(name.as_str());
        },
        None => {},
    }
    out.push(':');
    out.push(' ');
    out.append(argument.ty.as_str());
    assert(final(out)@ =~= old(out)@ + argument_text(*argument));
}

/// Whether `direction` is `wanted`.
fn is_direction(direction: &Option<ArgDirection>, wanted: ArgDirection) -> (r: bool)
    ensures
        r == (*direction == Some(wanted)),
{
    match direction {
        Some(ArgDirection::In) => wanted == ArgDirection::In,
        Some(ArgDirection::Out) => wanted == ArgDirection::Out,
        None => false,
    }
}

/// Adds the arguments of direction `direction`, as they are shown, to
/// `out`, and tells whether there was any.
fn push_arguments(out: &mut String, arguments: &Vec<MethodArgument>, direction: ArgDirection) -> (any:
    bool)
    ensures
        final(out)@ == old(out)@ + arguments_text(arguments@, direction),
        any == has_direction(arguments@, direction),
{
    let ghost start = out@;
    let mut any = false;
    let mut i: usize = 0;
    assert(out@ =~= start + joined(listed(arguments@, direction, 0)));
    while i < arguments.len()
        invariant
            i <= arguments.len(),
            out@ == start + joined(listed(arguments@, direction, i as int)),
            any == (listed(arguments@, direction, i as int).len() > 0),
            any == exists|j: int|
                0 <= j < i && (#[trigger] arguments@[j]).direction == Some(direction),
        decreases arguments.len() - i,
    {
        let ghost before = listed(arguments@, direction, i as int);
        if is_direction(&arguments[i].direction, direction) {
            if any {
                out.push(',');
                out.push(' ');
            }
            push_argument(out, &arguments[i]);
            any = true;
            proof {
                let after = listed(arguments@, direction, i + 1);
                assert(after.drop_last() =~= before);
                assert(out@ =~= start + joined(after));
            }
        }
        i += 1;
    }
    any
}

/// How `argument` is shown.
pub fn argument_label(argument: &MethodArgument) -> (label: String)
    ensures
        label@ == argument_text(*argument),
{
    let mut out = String::new();
    push_argument(&mut out, argument);
    assert(out@ =~= argument_text(*argument));
    out
}

/// How `method` is shown in the tree.
pub fn method_label(method: &MethodDescription) -> (label: String)
    ensures
        label@ == method_text(*method),
{
    let mut inputs = String::new();
    push_arguments(&mut inputs, &method.args, ArgDirection::In);
    let mut outputs = String::new();
    let has_outputs = push_arguments(&mut outputs, &method.args, ArgDirection::Out);
    let mut out = method.name.clone();
    out.push('(');
    out.append(inputs.as_str());
    out.push(')');
    out.push(' ');
    if has_outputs {
        out.push('=');
        out.push('>');
    }
    out.push(' ');
    out.append(outputs.as_str());
    assert(out@ =~= method_text(*method));
    out
}

/// How the signal `name` with the arguments `arguments` is shown in the
/// tree.
pub fn signal_label(name: &str, arguments: &Vec<MethodArgument>) -> (label: String)
    ensures
        label@ == signal_text(name@, arguments@),
{
    let mut out = String::from_str(name);
    out.push('(');
    push_arguments(&mut out, arguments, ArgDirection::In);
    out.push(')');
    assert(out@ =~= signal_text(name@, arguments@));
    out
}

/// How the property `name` of signature `ty` is shown in the tree.
pub fn property_label(name: &str, ty: &str) -> (label: String)
    ensures
        label@ == property_text(name@, ty@),
{
    let mut out = String::from_str(name);
    out.push(':');
    out.push(' ');
    out.append(ty);
    assert(out@ =~= property_text(name@, ty@));
    out
}

/// The path of the child `name` of the object at `parent`.
pub fn child_path(parent: &str, name: &str) -> (path: String)
    ensures
        path@ == child_path_text(parent@, name@),
{
    let chars = chars_of(parent);
    let mut out = String::from_str(parent);
    if !(chars.len() > 0 && chars[chars.len() - 1] == '/') {
        out.push('/');
    }
    out.append(name);
    assert(out@ =~= child_path_text(parent@, name@));
    out
}

/// The kinds of entries of the tree.
#[derive(Debug, Clone, Copy, PartialEq, Eq, Structural)]
pub enum IdentifierKind {
    Object,
    Interface,
    Member,
    Method,
    Property,
    Signal,
}

impl DbusIdentifier {
    /// The kind of this entry.
    pub open spec fn kind_of(self) -> IdentifierKind {
        match self {
            DbusIdentifier::Object(_) => IdentifierKind::Object,
            DbusIdentifier::Interface(_) => IdentifierKind::Interface,
            DbusIdentifier::Member(_) => IdentifierKind::Member,
            DbusIdentifier::Method(_) => IdentifierKind::Method,
            DbusIdentifier::Property(_) => IdentifierKind::Property,
            DbusIdentifier::Signal(_) => IdentifierKind::Signal,
        }
    }

    /// The kind of this entry.
    pub fn kind(&self) -> (kind: IdentifierKind)
        ensures
            kind == self.kind_of(),
    {
        match self {
            DbusIdentifier::Object(_) => IdentifierKind::Object,
            DbusIdentifier::Interface(_) => IdentifierKind::Interface,
            DbusIdentifier::Member(_) => IdentifierKind::Member,
            DbusIdentifier::Method(_) => IdentifierKind::Method,
            DbusIdentifier::Property(_) => IdentifierKind::Property,
            DbusIdentifier::Signal(_) => IdentifierKind::Signal,
        }
    }
}

/// The position of the first entry of kind `kind` at or after `from`, or
/// the length of `selected` if there is none.
pub open spec fn first_of(selected: Seq<DbusIdentifier>, kind: IdentifierKind, from: int) -> int
    decreases selected.len() - from,
{
    if 0 <= from < selected.len() && selected[from].kind_of() != kind {
        first_of(selected, kind, from + 1)
    } else {
        from
    }
}

/// The position of the first entry of kind `kind`, or the length of
/// `selected` if there is none.
pub fn find_first(selected: &[DbusIdentifier], kind: IdentifierKind) -> (index: usize)
    ensures
        index == first_of(selected@, kind, 0),
        index <= selected@.len(),
        index < selected@.len() ==> selected@[index as int].kind_of() == kind,
{
    let mut index: usize = 0;
    while index < selected.len() && selected[index].kind() != kind
        invariant
            index <= selected@.len(),
            first_of(selected@, kind, 0) == first_of(selected@, kind, index as int),
        decreases selected@.len() - index,
    {
        index += 1;
    }
    index
}

/// Where, in a selected path of the tree, the parts of a method call
/// stand.
#[derive(Debug, Clone, Copy, PartialEq, Eq, Structural)]
pub struct MethodPath {
    pub object: usize,
    pub interface: usize,
    pub method: usize,
}

/// The parts of a method call in the selected path `selected`: the first
/// object, the first interface and the first method in it.  `None` unless
/// the path holds all three.
pub fn extract_description(selected: &[DbusIdentifier]) -> (found: Option<MethodPath>)
    ensures
        match found {
            Some(path) => {
                &&& path.object == first_of(selected@, IdentifierKind::Object, 0)
                &&& path.interface == first_of(selected@, IdentifierKind::Interface, 0)
                &&& path.method == first_of(selected@, IdentifierKind::Method, 0)
                &&& path.object < selected@.len()
                &&& path.interface < selected@.len()
                &&& path.method < selected@.len()
                &&& selected@[path.object as int] is Object
                &&& selected@[path.interface as int] is Interface
                &&& selected@[path.method as int] is Method
            },
            None => {
                ||| first_of(selected@, IdentifierKind::Object, 0) >= selected@.len()
                ||| first_of(selected@, IdentifierKind::Interface, 0) >= selected@.len()
                ||| first_of(selected@, IdentifierKind::Method, 0) >= selected@.len()
            },
        },
{
    let object = find_first(selected, IdentifierKind::Object);
    let interface = find_first(selected, IdentifierKind::Interface);
    let method = find_first(selected, IdentifierKind::Method);
    if object < selected.len() && interface < selected.len() && method < selected.len() {
        Some(MethodPath { object, interface, method })
    } else {
        None
    }
}

} // verus!
