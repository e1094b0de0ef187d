//! Trusted bindings to the outside routines the engine relies on:
//! URL parsing and joining from the `url` crate, and Unicode
//! lowercasing from the standard library.
//!
//! Each result is a function of the arguments alone, so it is given a
//! name (an uninterpreted spec function) that the callers' contracts
//! speak of exactly.

use vstd::prelude::*;

verus! {

/// The normalized serialization of `s` parsed as an absolute URL, or
/// nothing where `s` does not parse.
pub uninterp spec fn url_parse_of(s: Seq<char>) -> Option<Seq<char>>;

/// The normalized serialization of `reference` resolved against the
/// absolute URL `base`, or nothing where either step fails.
pub uninterp spec fn url_join_of(base: Seq<char>, reference: Seq<char>) -> Option<Seq<char>>;

/// The Unicode lowercase of `s`.
pub uninterp spec fn lower_of(s: Seq<char>) -> Seq<char>;

/// Relies on url::Url::parse: whether a string parses as an absolute
/// URL, and the parse's normalized serialization, depend on the string
/// alone.
#[verifier::external_body]
pub(crate) fn parse_url(s: &str) -> (r: Option<String>)
    ensures
        match r {
            Some(u) => url_parse_of(s@) == Some(u@),
            None => url_parse_of(s@) is None,
        },
{
    match url::Url::parse(s) {
        Ok(u) => Some(String::from(u)),
        Err(_) => None,
    }
}

/// Relies on url::Url::parse and url::Url::join: resolving a reference
/// against a base URL (standard relative-reference resolution) depends
/// on the two strings alone.
#[verifier::external_body]
pub(crate) fn join_url(base: &str, reference: &str) -> (r: Option<String>)
    ensures
        match r {
            Some(u) => url_join_of(base@, reference@) == Some(u@),
            None => url_join_of(base@, reference@) is None,
        },
{
    match url::Url::parse(base) {
        Ok(b) => match b.join(reference) {
            Ok(u) => Some(String::from(u)),
            Err(_) => None,
        },
        Err(_) => None,
    }
}

/// Relies on str::to_lowercase: the lowercased text depends on the
/// input characters alone.
#[verifier::external_body]
pub(crate) fn lowercase(s: &str) -> (r: String)
    ensures
        r@ == lower_of(s@),
{
    s.to_lowercase()
}

} // verus!
