//! Camel case for the names that the Dart backend writes, computed by the
//! `convert_case` crate.
use crate::text::Text;
use vstd::prelude::*;

verus! {

/// The camel-case form of `name`: what `convert_case` makes of it with
/// `Case::Camel` and its default word boundaries. Verus knows nothing of
/// this text but that it depends on the characters of `name` alone.
pub uninterp spec fn camel_case(name: Text) -> Text;

/// The camel-case form of `name`.
///
/// This function is not verified: its body calls
/// `convert_case::Casing::to_case` with `Case::Camel`, and Verus takes the
/// contract on trust. The contract claims that the call returns for every
/// `name`, and that what it returns depends on the characters of `name`
/// alone: the conversion splits `name` into words and changes the case of
/// their letters, and reads nothing but its argument.
#[verifier::external_body]
pub(crate) fn to_camel_case(name: &str) -> (r: String)
    ensures
        r@ == camel_case(name@),
{
    convert_case::Casing::to_case(&name, convert_case::Case::Camel)
}

} // verus!
