//! String operations of the standard library that the control plane's
//! message format is read with.

use vstd::prelude::*;

verus! {

/// `text` without the prefix `prefix`, if it starts with it.
pub open spec fn without_prefix(text: Seq<char>, prefix: Seq<char>) -> Option<Seq<char>> {
    if prefix.is_prefix_of(text) {
        Some(text.skip(prefix.len() as int))
    } else {
        None
    }
}

/// `text` without the suffix `suffix`, if it ends with it.
pub open spec fn without_suffix(text: Seq<char>, suffix: Seq<char>) -> Option<Seq<char>> {
    if suffix.is_suffix_of(text) {
        Some(text.take(text.len() - suffix.len()))
    } else {
        None
    }
}

/// The result of a stripping call, as a mathematical value.
pub open spec fn stripped_view(stripped: Option<&str>) -> Option<Seq<char>> {
    match stripped {
        Some(rest) => Some(rest@),
        None => None,
    }
}

/// `str::strip_prefix` with a string as the pattern: the rest of `text`
/// behind `prefix` where `text` starts with it, and `None` where it does not,
/// as the standard library documents.
#[verifier::external_body]
pub(crate) fn strip_prefix<'a>(text: &'a str, prefix: &str) -> (stripped: Option<&'a str>)
    ensures
        stripped_view(stripped) == without_prefix(text@, prefix@),
{
    text.strip_prefix(prefix)
}

/// `str::strip_suffix` with a string as the pattern: the part of `text`
/// before `suffix` where `text` ends with it, and `None` where it does not,
/// as the standard library documents.
#[verifier::external_body]
pub(crate) fn strip_suffix<'a>(text: &'a str, suffix: &str) -> (stripped: Option<&'a str>)
    ensures
        stripped_view(stripped) == without_suffix(text@, suffix@),
{
    text.strip_suffix(suffix)
}

} // verus!
