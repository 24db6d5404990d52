use vstd::prelude::*;
use crate::error::ParseError;
use crate::grammar::parsed;
use crate::parser::{compilable, get_parser, ValueParser};
use crate::signature::{decoded, Signature};
use crate::tree::{ArgDirection, MethodArgument, MethodDescription};
use crate::value::{terms_of, Term, Value};

verus! {

/// One argument of a method call as the operator sees it: the line of text
/// typed so far, the parser for the argument's signature, and whether the
/// argument goes into the call.
pub struct MethodArgVisual {
    pub text: String,
    pub parser: ValueParser,
    pub is_input: bool,
}

impl MethodArgVisual {
    /// What the text of this field says at present: a value of the
    /// argument's shape, or errors.
    pub open spec fn answer(self) -> Result<Term, Seq<ParseError>> {
        parsed(self.parser.shape(), self.text@)
    }

    /// Whether the text of this field is, at present, a literal of the
    /// argument's signature.
    pub fn is_valid(&self) -> (valid: bool)
        ensures
            valid == self.answer() is Ok,
    {
        self.parser.parse(self.text.as_str()).is_ok()
    }
}

/// Whether a field can be made for an argument whose signature has the
/// text `ty`: whether the text names a signature, and one that a parser can
/// be built for.
pub open spec fn usable(ty: Seq<char>) -> bool {
    decoded(ty) is Some && compilable(decoded(ty).unwrap())
}

/// Whether `field` is the empty field for `argument`: an argument is taken
/// to go into the call unless it says that it comes out.
pub open spec fn field_for(field: MethodArgVisual, argument: MethodArgument) -> bool {
    &&& field.text@ == Seq::<char>::empty()
    &&& decoded(argument.ty@) == Some(field.parser.shape())
    &&& field.is_input == (argument.direction != Some(ArgDirection::Out))
}

/// The empty fields for the arguments of `method`, in their order.  If the
/// signature of an argument names no type that a parser can be built for,
/// the position of the first such argument is the error.
pub fn fields_for(method: &MethodDescription) -> (made: Result<Vec<MethodArgVisual>, usize>)
    ensures
        match made {
            Ok(fields) => {
                &&& fields@.len() == method.args@.len()
                &&& forall|i: int|
                    0 <= i < fields@.len() ==> field_for(#[trigger] fields@[i], method.args@[i])
            },
            Err(bad) => {
                &&& bad < method.args@.len()
                &&& !usable(method.args@[bad as int].ty@)
                &&& forall|i: int| 0 <= i < bad ==> usable(#[trigger] method.args@[i].ty@)
            },
        },
{
    let mut fields: Vec<MethodArgVisual> = Vec::new();
    let mut i: usize = 0;
    while i < method.args.len()
        invariant
            i <= method.args@.len(),
            fields@.len() == i,
            forall|j: int| 0 <= j < i ==> field_for(#[trigger] fields@[j], method.args@[j]),
            forall|j: int| 0 <= j < i ==> usable(#[trigger] method.args@[j].ty@),
        decreases method.args@.len() - i,
    {
        let argument = &method.args[i];
        let signature = match Signature::decode(argument.ty.as_str()) {
            Some(signature) => signature,
            None => {
                return Err(i);
            },
        };
        let parser = match get_parser(signature) {
            Ok(parser) => parser,
            Err(_) => {
                return Err(i);
            },
        };
        let is_input = match argument.direction {
            Some(ArgDirection::Out) => false,
            _ => true,
        };
        fields.push(MethodArgVisual { text: String::new(), parser, is_input });
        i += 1;
    }
    Ok(fields)
}

/// The values of the inputs among the first `count` of `fields`, in their
/// order; `None` if the text of one of those inputs is no literal of its
/// signature.
pub open spec fn gathered(fields: Seq<MethodArgVisual>, count: int) -> Option<Seq<Term>>
    decreases count,
{
    if count <= 0 {
        Some(Seq::empty())
    } else {
        match gathered(fields, count - 1) {
            None => None,
            Some(values) => if !fields[count - 1].is_input {
                Some(values)
            } else {
                match fields[count - 1].answer() {
                    Ok(value) => Some(values.push(value)),
                    Err(_) => None,
                }
            },
        }
    }
}

/// How many of the first `count` of `fields` are outputs.
pub open spec fn outputs_before(fields: Seq<MethodArgVisual>, count: int) -> int
    decreases count,
{
    if count <= 0 {
        0
    } else if fields[count - 1].is_input {
        outputs_before(fields, count - 1)
    } else {
        outputs_before(fields, count - 1) + 1
    }
}

/// The form for one method call: where the call goes, the method, one field
/// for each of its arguments, which field the operator is at, and whether
/// the call has been answered.
pub struct MethodCallPopUp {
    pub service: String,
    pub object: String,
    pub interface: String,
    pub method_description: MethodDescription,
    pub method_arg_vis: Vec<MethodArgVisual>,
    pub selected: usize,
    pub called: bool,
}

impl MethodCallPopUp {
    /// The form for a call of `method_description`, as it is before its
    /// fields are made: without fields, at the first position, not called.
    pub fn new(
        service: String,
        object: String,
        interface: String,
        method_description: MethodDescription,
    ) -> (popup: MethodCallPopUp)
        ensures
            popup.service == service,
            popup.object == object,
            popup.interface == interface,
            popup.method_description == method_description,
            popup.method_arg_vis@.len() == 0,
            popup.selected == 0,
            !popup.called,
    {
        MethodCallPopUp {
            service,
            object,
            interface,
            method_description,
            method_arg_vis: Vec::new(),
            selected: 0,
            called: false,
        }
    }

    /// Moves to the next field.  From the last field the position goes one
    /// further, behind the fields, and stays there.
    pub fn select_next(&mut self)
        ensures
            final(self).selected == if old(self).selected < old(self).method_arg_vis@.len() {
                old(self).selected + 1
            } else {
                old(self).method_arg_vis@.len() as int
            },
            final(self).method_arg_vis == old(self).method_arg_vis,
            final(self).called == old(self).called,
            final(self).service == old(self).service,
            final(self).object == old(self).object,
            final(self).interface == old(self).interface,
            final(self).method_description == old(self).method_description,
    {
        let count = self.method_arg_vis.len();
        if self.selected < count {
            self.selected = self.selected + 1;
        } else {
            self.selected = count;
        }
    }

    /// Moves to the field before, and stays at the first.
    pub fn select_previous(&mut self)
        ensures
            final(self).selected == if old(self).selected > 0 {
                old(self).selected - 1
            } else {
                0
            },
            final(self).method_arg_vis == old(self).method_arg_vis,
            final(self).called == old(self).called,
            final(self).service == old(self).service,
            final(self).object == old(self).object,
            final(self).interface == old(self).interface,
            final(self).method_description == old(self).method_description,
    {
        if self.selected > 0 {
            self.selected = self.selected - 1;
        }
    }

    /// The field that takes what the operator types: the one at the
    /// position, unless the position is behind the fields.
    pub fn input_target(&self) -> (target: Option<usize>)
        ensures
            target == if self.selected < self.method_arg_vis@.len() {
                Some(self.selected)
            } else {
                None
            },
    {
        if self.selected < self.method_arg_vis.len() {
            Some(self.selected)
        } else {
            None
        }
    }

    /// The arguments of the call, if the call can be made: the values of
    /// the input fields, in the order of the fields.  If the text of one
    /// input field is no literal of its signature, no call is made.
    pub fn arguments(&self) -> (values: Option<Vec<Value>>)
        ensures
            match values {
                Some(values) => gathered(
                    self.method_arg_vis@,
                    self.method_arg_vis@.len() as int,
                ) == Some(terms_of(values@)),
                None => gathered(self.method_arg_vis@, self.method_arg_vis@.len() as int) is None,
            },
    {
        let fields = &self.method_arg_vis;
        let mut values: Vec<Value> = Vec::new();
        let mut i: usize = 0;
        assert(terms_of(values@) =~= Seq::empty());
        while i < fields.len()
            invariant
                *fields == self.method_arg_vis,
                i <= fields@.len(),
                gathered(fields@, i as int) == Some(terms_of(values@)),
            decreases fields@.len() - i,
        {
            if fields[i].is_input {
                match fields[i].parser.parse(fields[i].text.as_str()) {
                    Ok(value) => {
                        assert(terms_of(values@.push(value)) =~= terms_of(values@).push(value@));
                        values.push(value);
                    },
                    Err(_) => {
                        assert(gathered(fields@, i + 1) is None);
                        proof {
                            lemma_gathered_stays_none(fields@, i + 1, fields@.len() as int);
                        }
                        return None;
                    },
                }
            }
            i += 1;
        }
        Some(values)
    }
}

/// Whether `after` is `before` once the call has been answered with
/// `outputs`: each output field shows the output of its rank, as far as
/// there are outputs, and nothing else has changed.
pub open spec fn answered(
    before: Seq<MethodArgVisual>,
    after: Seq<MethodArgVisual>,
    outputs: Seq<String>,
) -> bool {
    &&& after.len() == before.len()
    &&& forall|i: int|
        0 <= i < before.len() ==> {
            &&& (#[trigger] after[i]).parser == before[i].parser
            &&& after[i].is_input == before[i].is_input
            &&& after[i].text@ == if !before[i].is_input && outputs_before(before, i)
                < outputs.len() {
                outputs[outputs_before(before, i)]@
            } else {
                before[i].text@
            }
        }
}

impl MethodCallPopUp {
    /// Notes that the call has been answered, and shows each output in the
    /// output field of its rank.
    pub fn record_response(&mut self, outputs: &Vec<String>)
        ensures
            final(self).called,
            answered(old(self).method_arg_vis@, final(self).method_arg_vis@, outputs@),
            final(self).selected == old(self).selected,
            final(self).service == old(self).service,
            final(self).object == old(self).object,
            final(self).interface == old(self).interface,
            final(self).method_description == old(self).method_description,
    {
        self.called = true;
        let mut rank: usize = 0;
        let mut i: usize = 0;
        while i < self.method_arg_vis.len()
            invariant
                self.called,
                self.selected == old(self).selected,
                self.service == old(self).service,
                self.object == old(self).object,
                self.interface == old(self).interface,
                self.method_description == old(self).method_description,
                self.method_arg_vis@.len() == old(self).method_arg_vis@.len(),
                i <= self.method_arg_vis@.len(),
                rank == outputs_before(old(self).method_arg_vis@, i as int),
                rank <= i,
                forall|j: int|
                    i <= j < self.method_arg_vis@.len() ==> self.method_arg_vis@[j] == old(
                        self,
                    ).method_arg_vis@[j],
                forall|j: int|
                    0 <= j < i ==> {
                        &&& (#[trigger] self.method_arg_vis@[j]).parser == old(
                            self,
                        ).method_arg_vis@[j].parser
                        &&& self.method_arg_vis@[j].is_input == old(
                            self,
                        ).method_arg_vis@[j].is_input
                        &&& self.method_arg_vis@[j].text@ == if !old(
                            self,
                        ).method_arg_vis@[j].is_input && outputs_before(
                            old(self).method_arg_vis@,
                            j,
                        ) < outputs@.len() {
                            outputs@[outputs_before(old(self).method_arg_vis@, j)]@
                        } else {
                            old(self).method_arg_vis@[j].text@
                        }
                    },
            decreases self.method_arg_vis@.len() - i,
        {
            if !self.method_arg_vis[i].is_input {
                if rank < outputs.len() {
                    self.method_arg_vis[i].text = outputs[rank].clone();
                }
                rank += 1;
            }
            i += 1;
        }
    }
}

/// Once an input has failed, no later field makes the call possible.
pub proof fn lemma_gathered_stays_none(fields: Seq<MethodArgVisual>, failed: int, count: int)
    requires
        failed <= count,
        gathered(fields, failed) is None,
    ensures
        gathered(fields, count) is None,
    decreases count - failed,
{
    if failed < count {
        lemma_gathered_stays_none(fields, failed, count - 1);
    }
}

} // verus!
