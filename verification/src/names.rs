//! The names under which native methods are visible to scripts.

use convert_case::{Case, Casing};
use vstd::prelude::*;

verus! {

/// `text` in snake case, as `Casing::to_case` of the convert_case crate
/// writes it for `Case::Snake`.
pub uninterp spec fn snake_case(text: Seq<char>) -> Seq<char>;

/// `text` in camel case, as `Casing::to_case` of the convert_case crate
/// writes it for `Case::Camel`.
pub uninterp spec fn camel_case(text: Seq<char>) -> Seq<char>;

/// The name that scripts use for a native method known as `alias`: scripts
/// write camel case, so an alias in snake case is put in camel case; any
/// other alias is taken as it stands.
pub open spec fn script_name_of(alias: Seq<char>) -> Seq<char> {
    if snake_case(alias) == alias {
        camel_case(alias)
    } else {
        alias
    }
}

/// `Casing::is_case` of the convert_case crate, asked about `Case::Snake`.
/// The crate converts the text to snake case and tells whether that left it
/// as it was. The contract is believed, not proved.
#[verifier::external_body]
fn is_snake_case(text: &str) -> (is: bool)
    ensures
        is == (snake_case(text@) == text@),
{
    text.is_case(Case::Snake)
}

/// `Casing::to_case` of the convert_case crate, asked for `Case::Camel`.
/// What it returns depends on the text alone. The contract is believed, not
/// proved.
#[verifier::external_body]
fn to_camel_case(text: &str) -> (converted: String)
    ensures
        converted@ == camel_case(text@),
{
    text.to_case(Case::Camel)
}

/// The name that scripts use for a native method known as `alias`.
pub fn script_name(alias: &str) -> (name: String)
    ensures
        name@ == script_name_of(alias@),
{
    if is_snake_case(alias) {
        to_camel_case(alias)
    } else {
        alias.to_owned()
    }
}

} // verus!
