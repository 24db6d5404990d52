use vstd::prelude::*;

verus! {

/// Whether the bus library takes `text` as a type signature.
pub uninterp spec fn signature_accepted(text: Seq<char>) -> bool;

/// Whether `c` may stand in an object path: an ASCII letter or digit, `_`
/// or `/`.
pub open spec fn is_path_char(c: char) -> bool {
    ('a' <= c <= 'z') || ('A' <= c <= 'Z') || ('0' <= c <= '9') || c == '_' || c == '/'
}

/// Whether `text` is an object path: it starts with `/`, holds only letters,
/// digits, `_` and `/`, never two `/` in a row, and ends in `/` only if it
/// is the root path `/` itself.
pub open spec fn is_object_path(text: Seq<char>) -> bool {
    &&& text.len() > 0
    &&& text[0] == '/'
    &&& (text.len() > 1 ==> text[text.len() - 1] != '/')
    &&& forall|i: int| 0 <= i < text.len() ==> is_path_char(#[trigger] text[i])
    &&& forall|i: int| 0 < i < text.len() ==> !(text[i - 1] == '/' && #[trigger] text[i] == '/')
}

/// Asks `zvariant::Signature::try_from` whether `text` is a legal type
/// signature.  Nothing is proved of the answer: the contract only gives it
/// the name [`signature_accepted`], so that the same text is known to get
/// the same answer.
#[verifier::external_body]
pub(crate) fn check_signature(text: &str) -> (legal: bool)
    ensures
        legal == signature_accepted(text@),
{
    zvariant::Signature::try_from(text).is_ok()
}

/// Asks `zvariant::ObjectPath::try_from` whether `text` is a legal object
/// path.  The contract states the rules that the function applies: the text
/// is not empty, starts with `/`, holds only ASCII letters, digits, `_` and
/// `/`, holds no `//`, and does not end in `/` unless it is `/` alone.
#[verifier::external_body]
pub(crate) fn check_object_path(text: &str) -> (legal: bool)
    ensures
        legal == is_object_path(text@),
{
    zvariant::ObjectPath::try_from(text).is_ok()
}

} // verus!
