//! The context itself: an immutable snapshot mapping terms to their
//! definitions, with base, vocabulary and default-language directives.

use vstd::prelude::*;
use vstd::string::*;
use vstd::hash_map::StringHashMap;
use crate::define::{
    absorb, define_finish_spec, define_id_spec, define_prefix_spec, define_reverse_spec,
    define_spec, define_type_spec, expand_spec, lemma_define_grow, lemma_expand_grow,
    lemma_undefined_count_insert, lemma_undefined_count_mono, container_field_spec,
    language_field_spec, payload_fields, reverse_container_spec, undefined_count, DefineResult,
    ExpandResult, ResolutionEnv, ResolutionState,
};
use crate::error::JsonLdError;
use crate::iri::{is_absolute_iri, is_keyword, is_relative_iri, spec_is_keyword};
use crate::json::{find_key_index, lc_get, lc_has, lemma_lc_get_exists, obj_get, obj_has, JsonValue};
use crate::options::JsonLdOptions;
use crate::process::{
    base_directive_spec, define_all_spec, fragments_of, language_directive_spec,
    lemma_define_all_wf, no_string_fragment, process_fragment_spec, process_fragments_spec,
    process_object_spec, rev_frags, vocab_directive_spec,
};
use crate::remote_document::DocumentLoader;
use crate::strutil::{
    clone_vec_string, concat_str, contains_str, find_colon, first_colon, lemma_first_colon_props,
    str_eq,
};
use crate::term::{
    is_container, view_opt_language, view_opt_string, wf_term, LanguageMapping, SpecTerm, Term,
};
use crate::urls::{join_url, parse_url, url_join_of, url_parse_of};

verus! {

/// A resolved context.
pub struct Context {
    pub(crate) base: Option<String>,
    pub(crate) vocab: Option<String>,
    pub(crate) default_language: Option<String>,
    pub(crate) terms: StringHashMap<Term>,
}

/// The mathematical shape of a context.
#[verifier::ext_equal]
pub struct SpecContext {
    /// The default document resolution base, an absolute identifier.
    pub base: Option<Seq<char>>,
    /// The default prefix for bare terms, an absolute identifier.
    pub vocab: Option<Seq<char>>,
    /// The lowercase default language tag.
    pub default_language: Option<Seq<char>>,
    /// The term definitions, keyed by term.
    pub terms: Map<Seq<char>, SpecTerm>,
}

/// The definitions of a term table, term by term.
pub open spec fn terms_view(m: Map<Seq<char>, Term>) -> Map<Seq<char>, SpecTerm> {
    Map::new(|k: Seq<char>| m.dom().contains(k), |k: Seq<char>| m[k]@)
}

/// Inserting into a term table inserts its definition.
pub proof fn lemma_terms_view_insert(m: Map<Seq<char>, Term>, k: Seq<char>, v: Term)
    ensures
        terms_view(m.insert(k, v)) == terms_view(m).insert(k, v@),
{
    assert(terms_view(m.insert(k, v)) =~= terms_view(m).insert(k, v@));
}

/// Removing from a term table removes its definition.
pub proof fn lemma_terms_view_remove(m: Map<Seq<char>, Term>, k: Seq<char>)
    ensures
        terms_view(m.remove(k)) == terms_view(m).remove(k),
{
    assert(terms_view(m.remove(k)) =~= terms_view(m).remove(k));
}

impl View for Context {
    type V = SpecContext;

    closed spec fn view(&self) -> SpecContext {
        SpecContext {
            base: view_opt_string(self.base),
            vocab: view_opt_string(self.vocab),
            default_language: view_opt_string(self.default_language),
            terms: terms_view(self.terms@),
        }
    }
}

/// What well-formedness means for a term table: every definition is
/// well-formed.
pub open spec fn wf_terms(m: Map<Seq<char>, SpecTerm>) -> bool {
    forall|k: Seq<char>| m.dom().contains(k) ==> wf_term(#[trigger] m[k])
}

/// What well-formedness means for a context.
pub open spec fn wf(c: SpecContext) -> bool {
    wf_terms(c.terms)
}

/// The empty context.
pub open spec fn spec_empty_context() -> SpecContext {
    SpecContext { base: None, vocab: None, default_language: None, terms: Map::empty() }
}

/// The context that keeps only a base: what a `null` fragment resets to.
pub open spec fn spec_context_from_base(base: Option<Seq<char>>) -> SpecContext {
    SpecContext { base, vocab: None, default_language: None, terms: Map::empty() }
}

impl Context {
    /// The empty context.
    pub fn new() -> (c: Context)
        ensures
            c@ == spec_empty_context(),
            wf(c@),
    {
        let c = Context { base: None, vocab: None, default_language: None, terms: StringHashMap::new() };
        proof {
            assert(c@ =~= spec_empty_context());
        }
        c
    }

    /// The context holding only the given base identifier, which the
    /// caller asserts is absolute.
    pub fn from_base(base: Option<String>) -> (c: Context)
        ensures
            c@ == spec_context_from_base(view_opt_string(base)),
            wf(c@),
    {
        let ghost b = view_opt_string(base);
        let c = Context { base, vocab: None, default_language: None, terms: StringHashMap::new() };
        proof {
            assert(c@ =~= spec_context_from_base(b));
        }
        c
    }

    /// The context built from construction options: the optional base is
    /// parsed as an absolute identifier, or the whole construction is
    /// rejected with `InvalidBaseIRI`.
    pub fn from_options(options: JsonLdOptions) -> (r: Result<Context, JsonLdError>)
        ensures
            match options.base {
                None => r matches Ok(c) && c@ == spec_context_from_base(None) && wf(c@),
                Some(b) => match url_parse_of(b@) {
                    Some(u) => r matches Ok(c) && c@ == spec_context_from_base(Some(u)) && wf(c@),
                    None => r == Err::<Context, JsonLdError>(JsonLdError::InvalidBaseIRI),
                },
            },
    {
        match options.base {
            None => Ok(Context::from_base(None)),
            Some(b) => match parse_url(b.as_str()) {
                Some(u) => Ok(Context::from_base(Some(u))),
                None => Err(JsonLdError::InvalidBaseIRI),
            },
        }
    }

    /// Drops everything but the base: what a `null` fragment does.
    pub(crate) fn into_base_reset(self) -> (c: Context)
        ensures
            c@ == spec_context_from_base(self@.base),
    {
        let ghost b = self@.base;
        let c = Context {
            base: self.base,
            vocab: None,
            default_language: None,
            terms: StringHashMap::new(),
        };
        proof {
            assert(c@ =~= spec_context_from_base(b));
        }
        c
    }

    /// The base identifier, if one is set.
    pub fn base(&self) -> (r: Option<&String>)
        ensures
            match r {
                Some(b) => self@.base == Some(b@),
                None => self@.base is None,
            },
    {
        match &self.base {
            Some(b) => Some(b),
            None => None,
        }
    }

    /// The default vocabulary, if one is set.
    pub fn vocab(&self) -> (r: Option<&String>)
        ensures
            match r {
                Some(v) => self@.vocab == Some(v@),
                None => self@.vocab is None,
            },
    {
        match &self.vocab {
            Some(v) => Some(v),
            None => None,
        }
    }

    /// The default language, if one is set.
    pub fn default_language(&self) -> (r: Option<&String>)
        ensures
            match r {
                Some(l) => self@.default_language == Some(l@),
                None => self@.default_language is None,
            },
    {
        match &self.default_language {
            Some(l) => Some(l),
            None => None,
        }
    }

    /// The definition of a term, if the term is defined.
    pub fn term(&self, name: &str) -> (r: Option<&Term>)
        ensures
            match r {
                Some(t) => self@.terms.contains_key(name@) && t@ == self@.terms[name@],
                None => !self@.terms.contains_key(name@),
            },
    {
        self.terms.get(name)
    }

    /// The number of defined terms.
    pub fn term_count(&self) -> (n: usize)
        ensures
            n == self@.terms.len(),
    {
        proof {
            vstd::hash_map::axiom_string_hash_map_spec_len(&self.terms);
            assert(self@.terms.dom() =~= self.terms@.dom());
        }
        self.terms.len()
    }

    /// Re-runs identifier resolution against this finished context, for
    /// values outside term definitions.  No term definitions are created,
    /// so no error can arise; the result is absent exactly where the
    /// token names a term that was intentionally defined as null.
    pub fn resolve(&self, value: &str, relative: bool, vocab: bool) -> (r: Option<String>)
        ensures
            view_opt_string(r) == resolve_spec(self@, value@, relative, vocab),
    {
        if is_keyword(value) {
            return Some(value.to_owned());
        }
        if vocab {
            match self.terms.get(value) {
                Some(t) => {
                    return match &t.iri_mapping {
                        Some(m) => Some(m.clone()),
                        None => None,
                    };
                },
                None => {},
            }
        }
        let n = value.unicode_len();
        match find_colon(value) {
            Some(i) => {
                proof {
                    lemma_first_colon_props(value@, 0, i as int);
                }
                if (i == 1 && value.get_char(0) == '_') || (n - i >= 3 && value.get_char(i + 1)
                    == '/' && value.get_char(i + 2) == '/') {
                    return Some(value.to_owned());
                }
                let prefix = value.substring_char(0, i);
                let suffix = value.substring_char(i + 1, n);
                match self.terms.get(prefix) {
                    Some(t) => match &t.iri_mapping {
                        Some(m) => Some(concat_str(m.as_str(), suffix)),
                        None => Some(value.to_owned()),
                    },
                    None => Some(value.to_owned()),
                }
            },
            None => {
                if vocab {
                    match &self.vocab {
                        Some(v) => {
                            return Some(concat_str(v.as_str(), value));
                        },
                        None => {},
                    }
                }
                if relative {
                    match &self.base {
                        Some(b) => {
                            return match join_url(b.as_str(), value) {
                                Some(j) => Some(j),
                                None => Some(value.to_owned()),
                            };
                        },
                        None => {},
                    }
                }
                Some(value.to_owned())
            },
        }
    }
}

/// Whether a compact identifier's suffix marks the token as already
/// absolute (`//` opens an authority, so the colon ends a scheme).
pub open spec fn opens_authority(suffix: Seq<char>) -> bool {
    suffix.len() >= 2 && suffix[0] == '/' && suffix[1] == '/'
}

/// What identifier resolution against a finished context returns: the
/// token itself for keywords; a defined term's mapping (absent for a
/// term defined as null); a compact identifier's expansion where its
/// prefix is a defined term; otherwise the vocabulary- or
/// base-completed token where the flags allow, or the token unchanged.
pub open spec fn resolve_spec(
    ctx: SpecContext,
    value: Seq<char>,
    relative: bool,
    vocab: bool,
) -> Option<Seq<char>> {
    if spec_is_keyword(value) {
        Some(value)
    } else if vocab && ctx.terms.contains_key(value) {
        ctx.terms[value].iri_mapping
    } else {
        match first_colon(value) {
            Some(i) => {
                let prefix = value.take(i);
                let suffix = value.skip(i + 1);
                if (prefix.len() == 1 && prefix[0] == '_') || opens_authority(suffix) {
                    Some(value)
                } else if ctx.terms.contains_key(prefix) && ctx.terms[prefix].iri_mapping is Some {
                    match ctx.terms[prefix].iri_mapping {
                        Some(m) => Some(m + suffix),
                        None => None,
                    }
                } else {
                    Some(value)
                }
            },
            None => {
                if vocab && ctx.vocab is Some {
                    match ctx.vocab {
                        Some(v) => Some(v + value),
                        None => None,
                    }
                } else if relative && ctx.base is Some {
                    match ctx.base {
                        Some(b) => match url_join_of(b, value) {
                            Some(j) => Some(j),
                            None => Some(value),
                        },
                        None => None,
                    }
                } else {
                    Some(value)
                }
            },
        }
    }
}

/// The value under an optional reference.
pub open spec fn deref_opt(o: Option<&JsonValue>) -> Option<JsonValue> {
    match o {
        Some(v) => Some(*v),
        None => None,
    }
}

impl Context {
    /// Creates the validated definition of `term` from the payload the
    /// local context holds for it, exactly as [`define_spec`] says:
    /// the term table and the defined-state map are rewritten to the
    /// specified state on success, and the specified error is returned
    /// on failure.
    #[verifier::rlimit(40)]
    pub(crate) fn create_term_definition(
        &mut self,
        lc: &Vec<(String, JsonValue)>,
        term: &str,
        defined: &mut StringHashMap<bool>,
    ) -> (r: Result<(), JsonLdError>)
        ensures
            final(self)@.base == old(self)@.base,
            final(self)@.vocab == old(self)@.vocab,
            final(self)@.default_language == old(self)@.default_language,
            ({
                let env = ResolutionEnv { base: old(self)@.base, vocab: old(self)@.vocab, lc: lc@ };
                let st0 = ResolutionState { terms: old(self)@.terms, defined: old(defined)@ };
                match define_spec(env, st0, term@) {
                    DefineResult::Done(st) => r is Ok && final(self)@.terms == st.terms
                        && final(defined)@ == st.defined,
                    DefineResult::Fail(e) => r == Err::<(), JsonLdError>(e),
                }
            }),
            ((match lc_get(lc@, term@) {
                Some(p) => !(p is Str) && !(p is Object) && !(p is Null),
                None => false,
            }) && !old(defined)@.contains_key(term@) && !spec_is_keyword(term@) ==> r == Err::<
                (),
                JsonLdError,
            >(JsonLdError::InvalidTermDefinition) && !final(self)@.terms.contains_key(term@)),
        decreases undefined_count(lc@, defined@), 0int,
    {
        let ghost env = ResolutionEnv { base: self@.base, vocab: self@.vocab, lc: lc@ };
        let ghost st0 = ResolutionState { terms: self@.terms, defined: defined@ };

        match defined.get(term) {
            Some(b) => {
                if *b {
                    assert(define_spec(env, st0, term@) == DefineResult::Done(st0));
                    return Ok(());
                } else {
                    return Err(JsonLdError::CyclicIdentifierMapping);
                }
            },
            None => {},
        }

        defined.insert(term.to_owned(), false);
        if is_keyword(term) {
            return Err(JsonLdError::KeywordRedefinition);
        }
        let payload = match obj_get(lc, term) {
            Some(v) => v,
            None => {
                return Err(JsonLdError::InvalidTermDefinition);
            },
        };
        self.terms.remove(term);
        let ghost st2 = ResolutionState {
            terms: st0.terms.remove(term@),
            defined: st0.defined.insert(term@, false),
        };
        proof {
            lemma_terms_view_remove(old(self).terms@, term@);
            assert(self@.terms == st2.terms);
            assert(defined@ == st2.defined);
            lemma_lc_get_exists(lc@, term@, 0);
            lemma_undefined_count_insert(lc@, st0.defined, term@, false);
        }

        let id_val: Option<&JsonValue>;
        let typ_val: Option<&JsonValue>;
        let rev_val: Option<&JsonValue>;
        let nest_present: bool;
        let lang_val: Option<&JsonValue>;
        let cont_val: Option<&JsonValue>;
        match payload {
            JsonValue::Null => {
                let newterm = Term {
                    iri_mapping: None,
                    reverse: false,
                    type_mapping: None,
                    language_mapping: None,
                    container_mapping: None,
                };
                let ghost sterm = newterm@;
                let ghost pre_terms = self.terms@;
                self.terms.insert(term.to_owned(), newterm);
                defined.insert(term.to_owned(), true);
                proof {
                    lemma_terms_view_insert(pre_terms, term@, newterm);
                    assert(sterm == crate::define::null_spec_term());
                    assert(self@.terms == st2.terms.insert(term@, sterm));
                    assert(defined@ == st2.defined.insert(term@, true));
                }
                return Ok(());
            },
            JsonValue::Str(_) => {
                id_val = Some(payload);
                typ_val = None;
                rev_val = None;
                nest_present = false;
                lang_val = None;
                cont_val = None;
            },
            JsonValue::Object(entries) => {
                id_val = obj_get(entries, "@id");
                typ_val = obj_get(entries, "@type");
                rev_val = obj_get(entries, "@reverse");
                nest_present = obj_has(entries, "@nest");
                lang_val = obj_get(entries, "@language");
                cont_val = obj_get(entries, "@container");
            },
            _ => {
                proof {
                    assert(payload_fields(*payload) is None);
                    assert(!self@.terms.contains_key(term@));
                }
                return Err(JsonLdError::InvalidTermDefinition);
            },
        }
        let ghost p = payload_fields(*payload)->Some_0;
        proof {
            assert(payload_fields(*payload) == Some(p));
            assert(deref_opt(id_val) == p.id);
            assert(deref_opt(typ_val) == p.typ);
            assert(deref_opt(rev_val) == p.reverse);
            assert(nest_present == (p.nest is Some));
            assert(deref_opt(lang_val) == p.language);
            assert(deref_opt(cont_val) == p.container);
            assert(define_spec(env, st0, term@) == define_type_spec(env, st2, term@, p));
        }

        // The `@type` entry: a string resolving to `@id`, `@vocab` or an
        // absolute identifier.
        let mut type_mapping: Option<String> = None;
        let ghost mut stc: ResolutionState = st2;
        match typ_val {
            None => {},
            Some(tv) => match tv {
                JsonValue::Str(t) => {
                    match self.expand_iri(t.as_str(), false, true, lc, defined) {
                        Err(e) => {
                            return Err(e);
                        },
                        Ok(res) => {
                            proof {
                                let er = expand_spec(env, st2, t@, false, true);
                                lemma_expand_grow(env, st2, t@, false, true);
                                let sta = er->Done_0;
                                assert(absorb(st2, sta) =~= sta);
                                stc = sta;
                            }
                            match res {
                                Some(t2) => {
                                    if str_eq(t2.as_str(), "@id") || str_eq(t2.as_str(), "@vocab")
                                        || is_absolute_iri(t2.as_str()) {
                                        type_mapping = Some(t2);
                                    } else {
                                        return Err(JsonLdError::InvalidTypeMapping);
                                    }
                                },
                                None => {
                                    return Err(JsonLdError::InvalidTypeMapping);
                                },
                            }
                        },
                    }
                },
                _ => {
                    return Err(JsonLdError::InvalidTypeMapping);
                },
            },
        }
        let ghost tghost = view_opt_string(type_mapping);
        proof {
            assert(defined@ == stc.defined);
            assert(self@.terms == stc.terms);
            assert(forall|k: Seq<char>| #[trigger] st2.defined.contains_key(k)
                ==> stc.defined.contains_key(k));
            assert(define_type_spec(env, st2, term@, p) == define_reverse_spec(
                env,
                stc,
                term@,
                p,
                tghost,
            ));
        }

        // The `@reverse` entry: exclusive with `@id`/`@nest`, a string
        // resolving to an absolute identifier; the definition is stored
        // reverse with a restricted container and no type or language.
        match rev_val {
            None => {},
            Some(rv) => {
                if id_val.is_some() || nest_present {
                    return Err(JsonLdError::InvalidReverseProperty);
                }
                match rv {
                    JsonValue::Str(rstr) => {
                        proof {
                            lemma_undefined_count_mono(lc@, st2.defined, stc.defined);
                        }
                        match self.expand_iri(rstr.as_str(), false, true, lc, defined) {
                            Err(e) => {
                                return Err(e);
                            },
                            Ok(res) => {
                                let ghost str_ = stc;
                                proof {
                                    let er = expand_spec(env, stc, rstr@, false, true);
                                    lemma_expand_grow(env, stc, rstr@, false, true);
                                    let sta = er->Done_0;
                                    assert(absorb(str_, sta) =~= sta);
                                    stc = sta;
                                }
                                match res {
                                    Some(id) => {
                                        if !is_absolute_iri(id.as_str()) {
                                            return Err(JsonLdError::InvalidIdentifierMapping);
                                        }
                                        let container_mapping: Option<String> = match cont_val {
                                            None => None,
                                            Some(cv) => match cv {
                                                JsonValue::Null => None,
                                                JsonValue::Str(c) => {
                                                    if str_eq(c.as_str(), "@set") || str_eq(
                                                        c.as_str(),
                                                        "@index",
                                                    ) {
                                                        Some(c.clone())
                                                    } else {
                                                        return Err(
                                                            JsonLdError::InvalidReverseProperty,
                                                        );
                                                    }
                                                },
                                                _ => {
                                                    return Err(JsonLdError::InvalidReverseProperty);
                                                },
                                            },
                                        };
                                        proof {
                                            assert(reverse_container_spec(p.container) == Some(
                                                view_opt_string(container_mapping),
                                            ));
                                        }
                                        let ghost iri_ghost = id@;
                                        let newterm = Term {
                                            iri_mapping: Some(id),
                                            reverse: true,
                                            type_mapping: None,
                                            language_mapping: None,
                                            container_mapping,
                                        };
                                        let ghost sterm = newterm@;
                                        let ghost pre_terms = self.terms@;
                                        self.terms.insert(term.to_owned(), newterm);
                                        defined.insert(term.to_owned(), true);
                                        proof {
                                            lemma_terms_view_insert(pre_terms, term@, newterm);
                                            assert(self@.terms == stc.terms.insert(term@, sterm));
                                            assert(defined@ == stc.defined.insert(term@, true));
                                        }
                                        return Ok(());
                                    },
                                    None => {
                                        return Err(JsonLdError::InvalidIdentifierMapping);
                                    },
                                }
                            },
                        }
                    },
                    _ => {
                        return Err(JsonLdError::InvalidIdentifierMapping);
                    },
                }
            },
        }

        proof {
            assert(define_reverse_spec(env, stc, term@, p, tghost) == define_id_spec(
                env,
                stc,
                term@,
                p,
                tghost,
            ));
        }

        // The `@id` entry: a string differing from the term resolves to
        // an absolute identifier or keyword; equal to the term it counts
        // as absent.
        let mut iri_opt: Option<String> = None;
        let mut explicit_id = false;
        match id_val {
            None => {},
            Some(idv) => match idv {
                JsonValue::Str(s) => {
                    if !str_eq(s.as_str(), term) {
                        explicit_id = true;
                        proof {
                            lemma_undefined_count_mono(lc@, st2.defined, stc.defined);
                        }
                        match self.expand_iri(s.as_str(), false, true, lc, defined) {
                            Err(e) => {
                                return Err(e);
                            },
                            Ok(res) => {
                                let ghost str_ = stc;
                                proof {
                                    let er = expand_spec(env, stc, s@, false, true);
                                    lemma_expand_grow(env, stc, s@, false, true);
                                    let sta = er->Done_0;
                                    assert(absorb(str_, sta) =~= sta);
                                    stc = sta;
                                }
                                match res {
                                    Some(id) => {
                                        if is_absolute_iri(id.as_str()) || is_keyword(id.as_str()) {
                                            iri_opt = Some(id);
                                        } else {
                                            return Err(JsonLdError::InvalidIdentifierMapping);
                                        }
                                    },
                                    None => {
                                        return Err(JsonLdError::InvalidIdentifierMapping);
                                    },
                                }
                            },
                        }
                    }
                },
                _ => {
                    return Err(JsonLdError::InvalidIdentifierMapping);
                },
            },
        }

        // Without an explicit `@id`: a compact term expands through its
        // prefix (defined first where it is a local key), an
        // unexpandable compact term stands verbatim, and a bare term
        // requires a vocabulary.
        if !explicit_id {
            proof {
                assert(define_id_spec(env, stc, term@, p, tghost) == define_prefix_spec(
                    env,
                    stc,
                    term@,
                    p,
                    tghost,
                ));
            }
            let n = term.unicode_len();
            match find_colon(term) {
                Some(ci) => {
                    proof {
                        lemma_first_colon_props(term@, 0, ci as int);
                    }
                    let prefix = term.substring_char(0, ci);
                    let suffix = term.substring_char(ci + 1, n);
                    if obj_has(lc, prefix) {
                        proof {
                            lemma_undefined_count_mono(lc@, st2.defined, stc.defined);
                        }
                        match self.create_term_definition(lc, prefix, defined) {
                            Err(e) => {
                                return Err(e);
                            },
                            Ok(()) => {},
                        }
                    }
                    let ghost str_ = stc;
                    proof {
                        let r1 = if lc_has(lc@, prefix@) {
                            define_spec(env, str_, prefix@)
                        } else {
                            DefineResult::Done(str_)
                        };
                        if lc_has(lc@, prefix@) {
                            lemma_define_grow(env, str_, prefix@);
                        }
                        let sta = r1->Done_0;
                        assert(absorb(str_, sta) =~= sta);
                        stc = sta;
                        assert(defined@ == stc.defined);
                        assert(self@.terms == stc.terms);
                    }
                    match self.terms.get(prefix) {
                        Some(t) => match &t.iri_mapping {
                            Some(m) => {
                                iri_opt = Some(concat_str(m.as_str(), suffix));
                            },
                            None => {
                                iri_opt = Some(term.to_owned());
                            },
                        },
                        None => {
                            iri_opt = Some(term.to_owned());
                        },
                    }
                },
                None => {
                    match &self.vocab {
                        Some(v) => {
                            iri_opt = Some(concat_str(v.as_str(), term));
                        },
                        None => {
                            return Err(JsonLdError::InvalidIdentifierMapping);
                        },
                    }
                },
            }
        }

        let iri_mapping = match iri_opt {
            Some(m) => m,
            None => {
                proof {
                    assert(false);
                }
                return Err(JsonLdError::InvalidIdentifierMapping);
            },
        };
        let ghost iri_ghost = iri_mapping@;
        proof {
            assert(define_spec(env, st0, term@) == define_finish_spec(
                env,
                stc,
                term@,
                p,
                tghost,
                iri_ghost,
            ));
        }

        // The `@language` and `@container` entries, then the store.
        let language_mapping: Option<LanguageMapping> = match lang_val {
            None => None,
            Some(lv) => match lv {
                JsonValue::Null => Some(LanguageMapping::Null),
                JsonValue::Str(l) => Some(LanguageMapping::Tag(l.clone())),
                _ => {
                    return Err(JsonLdError::InvalidTermDefinition);
                },
            },
        };
        let container_mapping: Option<String> = match cont_val {
            None => None,
            Some(cv) => match cv {
                JsonValue::Null => None,
                JsonValue::Str(c) => {
                    if is_container(c.as_str()) {
                        Some(c.clone())
                    } else {
                        return Err(JsonLdError::InvalidTermDefinition);
                    }
                },
                _ => {
                    return Err(JsonLdError::InvalidTermDefinition);
                },
            },
        };
        proof {
            assert(language_field_spec(p.language) == Some(view_opt_language(language_mapping)));
            assert(container_field_spec(p.container) == Some(view_opt_string(container_mapping)));
        }
        let newterm = Term {
            iri_mapping: Some(iri_mapping),
            reverse: false,
            type_mapping,
            language_mapping,
            container_mapping,
        };
        let ghost sterm = newterm@;
        let ghost pre_terms = self.terms@;
        self.terms.insert(term.to_owned(), newterm);
        defined.insert(term.to_owned(), true);
        proof {
            lemma_terms_view_insert(pre_terms, term@, newterm);
            assert(self@.terms == stc.terms.insert(term@, sterm));
            assert(defined@ == stc.defined.insert(term@, true));
        }
        Ok(())
    }

    /// Resolves `value` during term definition, exactly as
    /// [`expand_spec`] says: local keys without a finished definition
    /// are defined on demand, and the term table and defined-state map
    /// are rewritten to the specified state.
    pub fn expand_iri(
        &mut self,
        value: &str,
        relative: bool,
        vocab: bool,
        lc: &Vec<(String, JsonValue)>,
        defined: &mut StringHashMap<bool>,
    ) -> (r: Result<Option<String>, JsonLdError>)
        ensures
            final(self)@.base == old(self)@.base,
            final(self)@.vocab == old(self)@.vocab,
            final(self)@.default_language == old(self)@.default_language,
            ({
                let env = ResolutionEnv { base: old(self)@.base, vocab: old(self)@.vocab, lc: lc@ };
                let st0 = ResolutionState { terms: old(self)@.terms, defined: old(defined)@ };
                match expand_spec(env, st0, value@, relative, vocab) {
                    ExpandResult::Done(st, res) => match r {
                        Ok(o) => final(self)@.terms == st.terms && final(defined)@ == st.defined
                            && view_opt_string(o) == res,
                        Err(_) => false,
                    },
                    ExpandResult::Fail(e) => r == Err::<Option<String>, JsonLdError>(e),
                }
            }),
        decreases undefined_count(lc@, defined@), 1int,
    {
        let ghost env = ResolutionEnv { base: self@.base, vocab: self@.vocab, lc: lc@ };
        let ghost st0 = ResolutionState { terms: self@.terms, defined: defined@ };

        if is_keyword(value) {
            return Ok(Some(value.to_owned()));
        }

        // A local key without a finished definition is defined first.
        let need_def = obj_has(lc, value) && (match defined.get(value) {
            Some(b) => !*b,
            None => true,
        });
        if need_def {
            match self.create_term_definition(lc, value, defined) {
                Err(e) => {
                    return Err(e);
                },
                Ok(()) => {},
            }
        }
        let ghost mut st1: ResolutionState = st0;
        proof {
            let r1 = if lc_has(lc@, value@) && !(st0.defined.contains_key(value@)
                && st0.defined[value@]) {
                define_spec(env, st0, value@)
            } else {
                DefineResult::Done(st0)
            };
            if need_def {
                lemma_define_grow(env, st0, value@);
            }
            let sta = r1->Done_0;
            assert(absorb(st0, sta) =~= sta);
            st1 = sta;
            assert(defined@ == st1.defined);
            assert(self@.terms == st1.terms);
        }

        // A defined term resolves to its mapping.
        if vocab {
            match self.terms.get(value) {
                Some(t) => {
                    let out = match &t.iri_mapping {
                        Some(m) => Some(m.clone()),
                        None => None,
                    };
                    return Ok(out);
                },
                None => {},
            }
        }

        let n = value.unicode_len();
        match find_colon(value) {
            Some(i) => {
                proof {
                    lemma_first_colon_props(value@, 0, i as int);
                }
                if (i == 1 && value.get_char(0) == '_') || (n - i >= 3 && value.get_char(i + 1)
                    == '/' && value.get_char(i + 2) == '/') {
                    return Ok(Some(value.to_owned()));
                }
                let prefix = value.substring_char(0, i);
                let suffix = value.substring_char(i + 1, n);
                let need2 = obj_has(lc, prefix) && (match defined.get(prefix) {
                    Some(b) => !*b,
                    None => true,
                });
                if need2 {
                    proof {
                        lemma_undefined_count_mono(lc@, st0.defined, st1.defined);
                    }
                    match self.create_term_definition(lc, prefix, defined) {
                        Err(e) => {
                            return Err(e);
                        },
                        Ok(()) => {},
                    }
                }
                let ghost mut st2: ResolutionState = st1;
                proof {
                    let r2 = if lc_has(lc@, prefix@) && !(st1.defined.contains_key(prefix@)
                        && st1.defined[prefix@]) {
                        define_spec(env, st1, prefix@)
                    } else {
                        DefineResult::Done(st1)
                    };
                    if need2 {
                        lemma_define_grow(env, st1, prefix@);
                    }
                    let stb = r2->Done_0;
                    assert(absorb(st1, stb) =~= stb);
                    st2 = stb;
                    assert(defined@ == st2.defined);
                    assert(self@.terms == st2.terms);
                }
                match self.terms.get(prefix) {
                    Some(t) => match &t.iri_mapping {
                        Some(m) => Ok(Some(concat_str(m.as_str(), suffix))),
                        None => Ok(Some(value.to_owned())),
                    },
                    None => Ok(Some(value.to_owned())),
                }
            },
            None => {
                if vocab {
                    match &self.vocab {
                        Some(v) => {
                            return Ok(Some(concat_str(v.as_str(), value)));
                        },
                        None => {},
                    }
                }
                if relative {
                    match &self.base {
                        Some(b) => {
                            return Ok(Some(match join_url(b.as_str(), value) {
                                Some(j) => j,
                                None => value.to_owned(),
                            }));
                        },
                        None => {},
                    }
                }
                Ok(Some(value.to_owned()))
            },
        }
    }
}



/// Whether a local-context value is a remote-context reference whose
/// URL is already in the chain of loaded contexts: an inclusion cycle.
pub open spec fn cycles_into_chain(v: JsonValue, chain: Seq<String>) -> bool {
    match v {
        JsonValue::Str(s) => exists|i: int| 0 <= i < chain.len() && #[trigger] chain[i]@ == s@,
        _ => false,
    }
}

/// How many levels of remote-context inclusion the builder follows
/// before giving up; chains longer than this fail as a loading failure.
pub const MAX_REMOTE_DEPTH: u32 = 64;

impl Context {
    /// Folds one object fragment onto this context, exactly as
    /// [`process_object_spec`] says: the `@base`, `@vocab` and
    /// `@language` directives first, then a definition for every
    /// remaining key against one fresh defined-state map.
    #[verifier::loop_isolation(false)]
    fn process_one_object(
        self,
        entries: &Vec<(String, JsonValue)>,
        remote_empty: bool,
    ) -> (r: Result<Context, JsonLdError>)
        ensures
            match process_object_spec(self@, entries@, remote_empty) {
                Ok(sc) => r matches Ok(c) && c@ == sc && (wf(self@) ==> wf(c@)),
                Err(e) => r == Err::<Context, JsonLdError>(e),
            },
    {
        let ghost ctx0 = self@;
        let mut ctx = self;

        // The `@base` directive, honoured only for directly-supplied
        // fragments.
        if remote_empty {
            match obj_get(entries, "@base") {
                None => {},
                Some(bv) => match bv {
                    JsonValue::Null => {
                        ctx.base = None;
                    },
                    JsonValue::Str(s) => {
                        if is_absolute_iri(s.as_str()) {
                            match parse_url(s.as_str()) {
                                Some(b) => {
                                    ctx.base = Some(b);
                                },
                                None => {
                                    return Err(JsonLdError::InvalidBaseIRI);
                                },
                            }
                        } else {
                            let join_res: Option<Option<String>> = match &ctx.base {
                                Some(b) => if is_relative_iri(s.as_str()) {
                                    Some(join_url(b.as_str(), s.as_str()))
                                } else {
                                    None
                                },
                                None => None,
                            };
                            match join_res {
                                Some(Some(nb)) => {
                                    ctx.base = Some(nb);
                                },
                                Some(None) => {
                                    return Err(JsonLdError::InvalidBaseIRI);
                                },
                                None => {},
                            }
                        }
                    },
                    _ => {
                        return Err(JsonLdError::InvalidBaseIRI);
                    },
                },
            }
        }
        proof {
            assert(base_directive_spec(ctx0.base, entries@, remote_empty) == Ok::<
                Option<Seq<char>>,
                JsonLdError,
            >(ctx@.base));
        }

        // The `@vocab` directive.
        match obj_get(entries, "@vocab") {
            None => {},
            Some(vv) => match vv {
                JsonValue::Null => {
                    ctx.vocab = None;
                },
                JsonValue::Str(s) => {
                    if is_absolute_iri(s.as_str()) {
                        ctx.vocab = Some(s.clone());
                    } else {
                        return Err(JsonLdError::InvalidVocabMapping);
                    }
                },
                _ => {
                    return Err(JsonLdError::InvalidVocabMapping);
                },
            },
        }
        proof {
            assert(vocab_directive_spec(ctx0.vocab, entries@) == Ok::<
                Option<Seq<char>>,
                JsonLdError,
            >(ctx@.vocab));
        }

        // The `@language` directive.
        match obj_get(entries, "@language") {
            None => {},
            Some(lv) => match lv {
                JsonValue::Null => {
                    ctx.default_language = None;
                },
                JsonValue::Str(s) => {
                    ctx.default_language = Some(crate::urls::lowercase(s.as_str()));
                },
                _ => {
                    return Err(JsonLdError::InvalidDefaultLanguage);
                },
            },
        }
        proof {
            assert(language_directive_spec(ctx0.default_language, entries@) == Ok::<
                Option<Seq<char>>,
                JsonLdError,
            >(ctx@.default_language));
        }

        // A definition for every remaining key, sharing one fresh
        // defined-state map so forward references within the fragment
        // resolve.
        let ghost env = ResolutionEnv { base: ctx@.base, vocab: ctx@.vocab, lc: entries@ };
        let ghost st_begin = ResolutionState { terms: ctx@.terms, defined: Map::empty() };
        let ghost lang_ghost = ctx@.default_language;
        let mut defined: StringHashMap<bool> = StringHashMap::new();
        let mut i: usize = 0;
        while i < entries.len()
            invariant
                0 <= i <= entries@.len(),
                ctx@.base == env.base,
                ctx@.vocab == env.vocab,
                ctx@.default_language == lang_ghost,
                env.lc == entries@,
                define_all_spec(env, st_begin, entries@, 0) == define_all_spec(
                    env,
                    (ResolutionState { terms: ctx@.terms, defined: defined@ }),
                    entries@,
                    i as int,
                ),
            decreases entries@.len() - i,
        {
            let ghost st_i = ResolutionState { terms: ctx@.terms, defined: defined@ };
            let is_directive = str_eq(entries[i].0.as_str(), "@base") || str_eq(
                entries[i].0.as_str(),
                "@vocab",
            ) || str_eq(entries[i].0.as_str(), "@language");
            if !is_directive {
                match ctx.create_term_definition(entries, entries[i].0.as_str(), &mut defined) {
                    Err(e) => {
                        proof {
                            assert(define_all_spec(env, st_i, entries@, i as int)
                                == DefineResult::Fail(e));
                        }
                        return Err(e);
                    },
                    Ok(()) => {},
                }
            }
            i = i + 1;
        }
        proof {
            let st_end = ResolutionState { terms: ctx@.terms, defined: defined@ };
            assert(define_all_spec(env, st_begin, entries@, 0) == DefineResult::Done(st_end));
            if wf(ctx0) {
                lemma_define_all_wf(env, st_begin, entries@, 0);
            }
            assert(process_object_spec(ctx0, entries@, remote_empty) == Ok::<
                SpecContext,
                JsonLdError,
            >(SpecContext {
                base: env.base,
                vocab: env.vocab,
                default_language: lang_ghost,
                terms: st_end.terms,
            }));
            assert(ctx@ =~= SpecContext {
                base: env.base,
                vocab: env.vocab,
                default_language: lang_ghost,
                terms: st_end.terms,
            });
        }
        Ok(ctx)
    }

    /// Folds the fragments of one local-context value onto `cur`,
    /// dereferencing string fragments through the loader with `chain`
    /// as the set of already-loaded context URLs, following at most
    /// `depth` further levels of inclusion.
    #[verifier::loop_isolation(false)]
    fn process_with_chain<L: DocumentLoader>(
        cur: Context,
        local_context: JsonValue,
        chain: &Vec<String>,
        loader: &mut L,
        depth: u32,
    ) -> (r: Result<Context, JsonLdError>)
        ensures
            no_string_fragment(fragments_of(local_context)) ==> (match process_fragments_spec(
                cur@,
                fragments_of(local_context),
                chain@.len() == 0,
            ) {
                Ok(sc) => r matches Ok(c) && c@ == sc,
                Err(e) => r == Err::<Context, JsonLdError>(e),
            }),
            match r {
                Ok(c) => wf(cur@) ==> wf(c@),
                Err(_) => true,
            },
            cycles_into_chain(local_context, chain@) ==> r == Err::<Context, JsonLdError>(
                JsonLdError::RecursiveContextInclusion,
            ),
        decreases depth,
    {
        let ghost ctx_in = cur@;
        let ghost frags0 = fragments_of(local_context);
        let ghost pure = no_string_fragment(frags0);
        let ghost cyc = cycles_into_chain(local_context, chain@);
        let remote_empty = chain.len() == 0;
        let mut cur = cur;

        // The pending fragments, on a stack whose top is the next one.
        let mut stack: Vec<JsonValue> = Vec::new();
        match local_context {
            JsonValue::Array(mut a) => {
                let ghost a0 = a@;
                proof {
                    assert(a@ =~= a0.take(a@.len() as int));
                }
                while a.len() > 0
                    invariant
                        frags0 == a0,
                        a@.len() <= a0.len(),
                        a@ =~= a0.take(a@.len() as int),
                        rev_frags(stack@) =~= a0.skip(a@.len() as int),
                    decreases a@.len(),
                {
                    let ghost k = a@.len() as int;
                    let ghost old_stack = stack@;
                    let x = a.pop().unwrap();
                    stack.push(x);
                    proof {
                        assert(a@ =~= a0.take(k - 1));
                        assert(x == a0[k - 1]);
                        assert(stack@.drop_last() =~= old_stack);
                        assert(stack@.last() == x);
                        assert(rev_frags(stack@) == seq![x] + rev_frags(stack@.drop_last()));
                        assert(rev_frags(stack@.drop_last()) == rev_frags(old_stack));
                        assert(rev_frags(old_stack) =~= a0.skip(k));
                        assert(seq![x] + a0.skip(k) =~= a0.skip(k - 1));
                        assert(rev_frags(stack@) =~= a0.skip(k - 1));
                    }
                }
                proof {
                    assert(a0.skip(0) =~= a0);
                    assert(rev_frags(stack@) =~= frags0);
                }
            },
            other => {
                let ghost v = other;
                stack.push(other);
                proof {
                    assert(stack@.drop_last() =~= Seq::<JsonValue>::empty());
                    assert(rev_frags(stack@.drop_last()) == rev_frags(Seq::<JsonValue>::empty()));
                    assert(rev_frags(Seq::<JsonValue>::empty()) =~= Seq::<JsonValue>::empty());
                    assert(rev_frags(stack@) =~= seq![v]);
                    assert(frags0 == seq![v]);
                    assert(stack@ =~= frags0);
                }
            },
        }

        while stack.len() > 0
            invariant
                remote_empty == (chain@.len() == 0),
                cyc ==> stack@ =~= frags0,
                wf(ctx_in) ==> wf(cur@),
                pure ==> process_fragments_spec(ctx_in, frags0, remote_empty)
                    == process_fragments_spec(cur@, rev_frags(stack@), remote_empty),
                pure ==> no_string_fragment(rev_frags(stack@)),
                pure == no_string_fragment(frags0),
            decreases stack@.len(),
        {
            let ghost stack_before = stack@;
            let ghost whole = rev_frags(stack_before);
            let f = stack.pop().unwrap();
            proof {
                assert(stack@ =~= stack_before.drop_last());
                assert(rev_frags(stack@) == rev_frags(stack_before.drop_last()));
                assert(f == stack_before.last());
                assert(whole == seq![f] + rev_frags(stack@));
                assert(whole[0] == f);
                assert(whole.skip(1) =~= rev_frags(stack@));
                if pure {
                    assert forall|j: int| 0 <= j < rev_frags(stack@).len() implies !(#[trigger]
                    rev_frags(stack@)[j] is Str) by {
                        assert(rev_frags(stack@)[j] == whole[j + 1]);
                    }
                }
            }
            proof {
                if cyc {
                    assert(frags0.len() == 1);
                    assert(f == frags0[0]);
                    assert(f is Str);
                }
            }
            match f {
                JsonValue::Null => {
                    cur = cur.into_base_reset();
                },
                JsonValue::Object(entries) => {
                    let ghost cur_pre = cur@;
                    cur = match cur.process_one_object(&entries, remote_empty) {
                        Ok(c) => c,
                        Err(e) => {
                            proof {
                                assert(process_fragment_spec(cur_pre, f, remote_empty) == Err::<
                                    SpecContext,
                                    JsonLdError,
                                >(e));
                                if pure {
                                    assert(process_fragments_spec(cur_pre, whole, remote_empty)
                                        == Err::<SpecContext, JsonLdError>(e));
                                }
                            }
                            return Err(e);
                        },
                    };
                    proof {
                        assert(process_fragment_spec(cur_pre, f, remote_empty) == Ok::<
                            SpecContext,
                            JsonLdError,
                        >(cur@));
                    }
                },
                JsonValue::Str(s) => {
                    proof {
                        if pure {
                            assert(no_string_fragment(whole));
                            assert(whole[0] == f);
                            assert(!(whole[0] is Str));
                            assert(false);
                        }
                        if cyc {
                            assert(f == frags0[0]);
                        }
                    }
                    if contains_str(chain, s.as_str()) {
                        return Err(JsonLdError::RecursiveContextInclusion);
                    }
                    proof {
                        if cyc {
                            assert(false);
                        }
                    }
                    if depth == 0 {
                        return Err(JsonLdError::LoadingRemoteContextFailed);
                    }
                    let doc = match loader.load(&s) {
                        Ok(d) => d,
                        Err(e) => {
                            return Err(e);
                        },
                    };
                    let ctxval = match doc.document {
                        JsonValue::Object(mut dentries) => {
                            match find_key_index(&dentries, "@context") {
                                Some(j) => {
                                    let pair = dentries.swap_remove(j);
                                    pair.1
                                },
                                None => {
                                    return Err(JsonLdError::InvalidLocalContext);
                                },
                            }
                        },
                        _ => {
                            return Err(JsonLdError::InvalidLocalContext);
                        },
                    };
                    let mut chain2 = clone_vec_string(chain);
                    chain2.push(s);
                    cur = match Context::process_with_chain(cur, ctxval, &chain2, loader, depth - 1) {
                        Ok(c) => c,
                        Err(e) => {
                            return Err(e);
                        },
                    };
                },
                _ => {
                    proof {
                        assert(process_fragment_spec(cur@, f, remote_empty) == Err::<
                            SpecContext,
                            JsonLdError,
                        >(JsonLdError::InvalidLocalContext));
                        if pure {
                            assert(process_fragments_spec(cur@, whole, remote_empty) == Err::<
                                SpecContext,
                                JsonLdError,
                            >(JsonLdError::InvalidLocalContext));
                        }
                    }
                    return Err(JsonLdError::InvalidLocalContext);
                },
            }
        }
        proof {
            assert(rev_frags(stack@) =~= Seq::<JsonValue>::empty());
        }
        Ok(cur)
    }

    /// Folds the given local context onto this context: a `null`
    /// fragment resets to the base, a string fragment is dereferenced
    /// through the loader (`remote_contexts` being the chain of
    /// already-loaded context URLs, used to reject inclusion cycles),
    /// and an object fragment applies its directives and defines its
    /// terms.  For a local context without string fragments the result
    /// is exactly [`process_fragments_spec`]; a well-formed context
    /// always stays well-formed.
    pub fn process<L: DocumentLoader>(
        self,
        local_context: JsonValue,
        remote_contexts: Vec<String>,
        loader: &mut L,
    ) -> (r: Result<Context, JsonLdError>)
        ensures
            no_string_fragment(fragments_of(local_context)) ==> (match process_fragments_spec(
                self@,
                fragments_of(local_context),
                remote_contexts@.len() == 0,
            ) {
                Ok(sc) => r matches Ok(c) && c@ == sc,
                Err(e) => r == Err::<Context, JsonLdError>(e),
            }),
            match r {
                Ok(c) => wf(self@) ==> wf(c@),
                Err(_) => true,
            },
            cycles_into_chain(local_context, remote_contexts@) ==> r == Err::<
                Context,
                JsonLdError,
            >(JsonLdError::RecursiveContextInclusion),
    {
        Context::process_with_chain(self, local_context, &remote_contexts, loader, MAX_REMOTE_DEPTH)
    }
}


} // verus!
