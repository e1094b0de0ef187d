//! Term definitions: what a resolved term means.

use vstd::prelude::*;

verus! {

/// Whether `c` is in the closed set of container mappings a term
/// definition may carry.
pub open spec fn spec_is_container(c: Seq<char>) -> bool {
    ||| c == "@set"@
    ||| c == "@index"@
    ||| c == "@list"@
    ||| c == "@language"@
    ||| c == "@type"@
    ||| c == "@graph"@
    ||| c == "@id"@
}

/// Whether `c` is in the closed container set.
pub fn is_container(c: &str) -> (r: bool)
    ensures
        r == spec_is_container(c@),
{
    crate::strutil::str_eq(c, "@set") || crate::strutil::str_eq(c, "@index")
        || crate::strutil::str_eq(c, "@list") || crate::strutil::str_eq(c, "@language")
        || crate::strutil::str_eq(c, "@type") || crate::strutil::str_eq(c, "@graph")
        || crate::strutil::str_eq(c, "@id")
}

/// A term's language mapping: a language tag, or the explicit marker
/// that values of the term carry no language.
#[derive(Clone, Debug, PartialEq, Eq)]
pub enum LanguageMapping {
    /// A language tag.
    Tag(String),
    /// The explicit "no language" marker (`"@language": null`).
    Null,
}

/// A fully-resolved term definition.
#[derive(Clone, Debug, PartialEq, Eq)]
pub struct Term {
    /// The absolute identifier or keyword the term expands to; absent
    /// only for a term intentionally defined as null.
    pub iri_mapping: Option<String>,
    /// Whether the term denotes a reverse (object-to-subject) relation.
    pub reverse: bool,
    /// An optional identifier constraining how values are interpreted.
    pub type_mapping: Option<String>,
    /// An optional language tag or explicit "no language" marker.
    pub language_mapping: Option<LanguageMapping>,
    /// An optional container mapping, one of a small closed set of
    /// keywords.
    pub container_mapping: Option<String>,
}

/// The mathematical shape of a term definition.
pub struct SpecTerm {
    /// See [`Term::iri_mapping`].
    pub iri_mapping: Option<Seq<char>>,
    /// See [`Term::reverse`].
    pub reverse: bool,
    /// See [`Term::type_mapping`].
    pub type_mapping: Option<Seq<char>>,
    /// See [`Term::language_mapping`]: absent, or an explicit
    /// "no language" marker (`Some(None)`), or a tag.
    pub language_mapping: Option<Option<Seq<char>>>,
    /// See [`Term::container_mapping`].
    pub container_mapping: Option<Seq<char>>,
}

/// The characters of an optional string.
pub open spec fn view_opt_string(o: Option<String>) -> Option<Seq<char>> {
    match o {
        Some(s) => Some(s@),
        None => None,
    }
}

/// The mathematical shape of an optional language mapping.
pub open spec fn view_opt_language(o: Option<LanguageMapping>) -> Option<Option<Seq<char>>> {
    match o {
        Some(LanguageMapping::Tag(s)) => Some(Some(s@)),
        Some(LanguageMapping::Null) => Some(None),
        None => None,
    }
}

impl View for Term {
    type V = SpecTerm;

    open spec fn view(&self) -> SpecTerm {
        SpecTerm {
            iri_mapping: view_opt_string(self.iri_mapping),
            reverse: self.reverse,
            type_mapping: view_opt_string(self.type_mapping),
            language_mapping: view_opt_language(self.language_mapping),
            container_mapping: view_opt_string(self.container_mapping),
        }
    }
}

/// What well-formedness means for one term definition: a reverse term
/// never carries a type or language mapping, and its container is
/// restricted to `@set`/`@index`.
pub open spec fn wf_term(t: SpecTerm) -> bool {
    t.reverse ==> {
        &&& t.type_mapping is None
        &&& t.language_mapping is None
        &&& (t.container_mapping is None || t.container_mapping == Some("@set"@)
            || t.container_mapping == Some("@index"@))
    }
}

} // verus!
