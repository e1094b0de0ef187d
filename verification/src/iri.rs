//! Keyword and identifier predicates.
//!
//! A *keyword* is a reserved `@`-token with fixed meaning that can never
//! be redefined as a term.  An *absolute identifier* is a token carrying
//! a scheme (`alpha *(alpha / digit / "+" / "-" / ".")` followed by a
//! colon); a *relative identifier* is any token without one.

use vstd::prelude::*;
use vstd::string::*;
use crate::strutil::{find_colon, first_colon, str_eq};

verus! {

/// Whether `s` is one of the reserved keywords.
pub open spec fn spec_is_keyword(s: Seq<char>) -> bool {
    ||| s == "@base"@
    ||| s == "@container"@
    ||| s == "@context"@
    ||| s == "@graph"@
    ||| s == "@id"@
    ||| s == "@index"@
    ||| s == "@language"@
    ||| s == "@list"@
    ||| s == "@reverse"@
    ||| s == "@set"@
    ||| s == "@type"@
    ||| s == "@value"@
    ||| s == "@vocab"@
}

/// Whether `c` may open a scheme.
pub open spec fn spec_is_alpha(c: char) -> bool {
    ('a' <= c && c <= 'z') || ('A' <= c && c <= 'Z')
}

/// Whether `c` may continue a scheme.
pub open spec fn spec_is_scheme_char(c: char) -> bool {
    spec_is_alpha(c) || ('0' <= c && c <= '9') || c == '+' || c == '-' || c == '.'
}

/// Whether `s` starts with a scheme followed by a colon.
pub open spec fn spec_is_absolute_iri(s: Seq<char>) -> bool {
    match first_colon(s) {
        Some(i) => i >= 1 && spec_is_alpha(s[0]) && (forall|j: int|
            1 <= j < i ==> spec_is_scheme_char(#[trigger] s[j])),
        None => false,
    }
}

/// Whether `s` carries no scheme.
pub open spec fn spec_is_relative_iri(s: Seq<char>) -> bool {
    !spec_is_absolute_iri(s)
}

/// Whether `val` is a reserved keyword.
pub fn is_keyword(val: &str) -> (r: bool)
    ensures
        r == spec_is_keyword(val@),
{
    str_eq(val, "@base") || str_eq(val, "@container") || str_eq(val, "@context")
        || str_eq(val, "@graph") || str_eq(val, "@id") || str_eq(val, "@index")
        || str_eq(val, "@language") || str_eq(val, "@list") || str_eq(val, "@reverse")
        || str_eq(val, "@set") || str_eq(val, "@type") || str_eq(val, "@value")
        || str_eq(val, "@vocab")
}

/// Whether `iri` starts with a scheme followed by a colon.
pub fn is_absolute_iri(iri: &str) -> (r: bool)
    ensures
        r == spec_is_absolute_iri(iri@),
{
    let ci = match find_colon(iri) {
        Some(ci) => ci,
        None => {
            return false;
        },
    };
    proof {
        crate::strutil::lemma_first_colon_props(iri@, 0, ci as int);
    }
    if ci < 1 {
        return false;
    }
    let c0 = iri.get_char(0);
    if !(('a' <= c0 && c0 <= 'z') || ('A' <= c0 && c0 <= 'Z')) {
        return false;
    }
    let mut j: usize = 1;
    while j < ci
        invariant
            first_colon(iri@) == Some(ci as int),
            1 <= j <= ci < iri@.len(),
            spec_is_alpha(iri@[0]),
            forall|k: int| 1 <= k < j ==> spec_is_scheme_char(#[trigger] iri@[k]),
        decreases ci - j,
    {
        let c = iri.get_char(j);
        if !(('a' <= c && c <= 'z') || ('A' <= c && c <= 'Z') || ('0' <= c && c <= '9') || c == '+'
            || c == '-' || c == '.') {
            return false;
        }
        j = j + 1;
    }
    true
}

/// Whether `iri` carries no scheme.
pub fn is_relative_iri(iri: &str) -> (r: bool)
    ensures
        r == spec_is_relative_iri(iri@),
{
    !is_absolute_iri(iri)
}

} // verus!
