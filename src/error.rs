//! The one error kind of the library: an invalid specification, with a readable message.
use vstd::prelude::*;

use crate::text::{push_str, push_string, string_of};

verus! {

/// An input that does not specify a valid value; the message names the input.
#[derive(Clone, Debug, PartialEq, Eq)]
pub enum HolochainError {
    ErrorGeneric(String),
}

impl HolochainError {
    /// The message carried by the error.
    pub fn to_string(&self) -> (r: String)
        ensures
            match self {
                HolochainError::ErrorGeneric(m) => r@ == m@,
            },
    {
        match self {
            HolochainError::ErrorGeneric(m) => m.clone(),
        }
    }
}

/// How `{:?}` renders a string: quoted, with escapes.
pub uninterp spec fn debug_quoted(s: Seq<char>) -> Seq<char>;

/// Relies on `<str as Debug>::fmt`: the quoted rendering depends on the text alone.
#[verifier::external_body]
pub(crate) fn quoted(s: &str) -> (r: String)
    ensures
        r@ == debug_quoted(s@),
{
    format!("{:?}", s)
}

/// The error whose message is `prefix` followed by `s` quoted.
pub(crate) fn error_with(prefix: &str, s: &str) -> (r: HolochainError)
    ensures
        r matches HolochainError::ErrorGeneric(m) && m@ == prefix@ + debug_quoted(s@),
{
    let mut v: Vec<char> = Vec::new();
    push_str(&mut v, prefix);
    push_quoted(&mut v, s);
    HolochainError::ErrorGeneric(string_of(&v))
}

/// Appends `s` quoted.
pub(crate) fn push_quoted(out: &mut Vec<char>, s: &str)
    ensures
        final(out)@ == old(out)@ + debug_quoted(s@),
{
    let q = quoted(s);
    push_string(out, &q);
}

} // verus!
