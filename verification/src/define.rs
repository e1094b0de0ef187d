//! The term definer and the identifier resolver, as one mathematical
//! interpreter.
//!
//! Term definitions may depend on each other: a definition's `@type`,
//! `@id` or `@reverse` value, or the prefix of a compact term, may name
//! another key of the same fragment that has no definition yet.  The
//! definer therefore works lazily: resolving such a token first forces
//! the definition of the named key.  A transient *defined-state* map
//! records, per fragment, which terms are finished (`true`) and which
//! are still being defined (`false`); meeting a term that is still in
//! progress is a cycle and fails.
//!
//! The functions below are the exact specification the executable
//! definer is proved against.  Their recursion terminates because every
//! nested definition first marks a fresh local key as in-progress, so
//! the number of local keys without a defined-state strictly shrinks;
//! this measure is what rules out stack overflow on cyclic input.

use vstd::prelude::*;
use crate::context::opens_authority;
use crate::error::JsonLdError;
use crate::iri::{spec_is_absolute_iri, spec_is_keyword};
use crate::json::{lc_get, lc_has, lemma_lc_get_exists, JsonValue};
use crate::strutil::first_colon;
use crate::term::{spec_is_container, SpecTerm};

verus! {

/// What stays fixed while one fragment's terms are defined: the base
/// and vocabulary directives already extracted from the fragment, and
/// the fragment's own entries.
pub struct ResolutionEnv {
    /// The base identifier in force.
    pub base: Option<Seq<char>>,
    /// The vocabulary in force.
    pub vocab: Option<Seq<char>>,
    /// The fragment's entries, the local context.
    pub lc: Seq<(String, JsonValue)>,
}

/// What one definition step reads and rewrites: the term table under
/// construction and the transient defined-state map.
#[verifier::ext_equal]
pub struct ResolutionState {
    /// The term table.
    pub terms: Map<Seq<char>, SpecTerm>,
    /// The defined-state map: absent = unprocessed, `false` =
    /// in progress, `true` = complete.
    pub defined: Map<Seq<char>, bool>,
}

/// The outcome of defining one term.
pub enum DefineResult {
    /// The rewritten state.
    Done(ResolutionState),
    /// The error that aborts the whole fragment.
    Fail(JsonLdError),
}

/// The outcome of resolving one token during definition: the rewritten
/// state and the resolved identifier (absent where the token names a
/// term defined as null).
pub enum ExpandResult {
    /// The rewritten state and the resolution.
    Done(ResolutionState, Option<Seq<char>>),
    /// The error that aborts the whole fragment.
    Fail(JsonLdError),
}

/// How many entries of `lc` have no defined-state yet.  Every nested
/// definition gives a fresh entry a state first, so this measure
/// strictly shrinks along the lazy recursion.
pub open spec fn undefined_count(lc: Seq<(String, JsonValue)>, defined: Map<Seq<char>, bool>) -> nat
    decreases lc.len(),
{
    if lc.len() == 0 {
        0
    } else {
        undefined_count(lc.drop_last(), defined) + (if defined.contains_key(lc.last().0@) {
            0nat
        } else {
            1nat
        })
    }
}

/// A defined-state map with at least the same keys leaves at most the
/// same entries uncounted.
pub proof fn lemma_undefined_count_mono(
    lc: Seq<(String, JsonValue)>,
    d1: Map<Seq<char>, bool>,
    d2: Map<Seq<char>, bool>,
)
    requires
        forall|k: Seq<char>| #[trigger] d1.contains_key(k) ==> d2.contains_key(k),
    ensures
        undefined_count(lc, d2) <= undefined_count(lc, d1),
    decreases lc.len(),
{
    if lc.len() > 0 {
        lemma_undefined_count_mono(lc.drop_last(), d1, d2);
    }
}

/// Giving a local key its first defined-state strictly shrinks the
/// measure.
pub proof fn lemma_undefined_count_insert(
    lc: Seq<(String, JsonValue)>,
    defined: Map<Seq<char>, bool>,
    k: Seq<char>,
    b: bool,
)
    requires
        exists|i: int| 0 <= i < lc.len() && #[trigger] lc[i].0@ == k,
        !defined.contains_key(k),
    ensures
        undefined_count(lc, defined.insert(k, b)) < undefined_count(lc, defined),
    decreases lc.len(),
{
    let i = choose|i: int| 0 <= i < lc.len() && #[trigger] lc[i].0@ == k;
    if i == lc.len() - 1 {
        lemma_undefined_count_mono(lc.drop_last(), defined, defined.insert(k, b));
    } else {
        assert(lc.drop_last()[i].0@ == k);
        lemma_undefined_count_insert(lc.drop_last(), defined, k, b);
    }
}

/// Carries a nested step's rewritten state forward.  A step only ever
/// adds defined-states, so folding the previous map in changes nothing;
/// it makes the growth visible to the termination measure.
pub open spec fn absorb(prev: ResolutionState, next: ResolutionState) -> ResolutionState {
    ResolutionState { terms: next.terms, defined: prev.defined.union_prefer_right(next.defined) }
}

/// The sequence under an optional value, for use under a guard that the
/// value is present.
pub open spec fn opt_or_empty(o: Option<Seq<char>>) -> Seq<char> {
    match o {
        Some(s) => s,
        None => Seq::empty(),
    }
}

/// The relevant entries of a term-definition payload, after a bare
/// string `S` is read as sugar for an object mapping `@id` to `S`.
/// Absent where the payload is no term definition at all.
pub struct PayloadFields {
    /// The `@id` entry.
    pub id: Option<JsonValue>,
    /// The `@type` entry.
    pub typ: Option<JsonValue>,
    /// The `@reverse` entry.
    pub reverse: Option<JsonValue>,
    /// The `@nest` entry.
    pub nest: Option<JsonValue>,
    /// The `@language` entry.
    pub language: Option<JsonValue>,
    /// The `@container` entry.
    pub container: Option<JsonValue>,
}

/// The intentionally-undefined definition a `null` payload stores: a
/// term with no identifier mapping, suppressing inherited definitions;
/// the resolver answers the explicit no-mapping value for it.
pub open spec fn null_spec_term() -> SpecTerm {
    SpecTerm {
        iri_mapping: None,
        reverse: false,
        type_mapping: None,
        language_mapping: None,
        container_mapping: None,
    }
}

/// Reads a payload's relevant entries, or nothing where the payload is
/// neither a string, an object, nor null (null is an intentional
/// undefine, handled before this).
pub open spec fn payload_fields(payload: JsonValue) -> Option<PayloadFields> {
    match payload {
        JsonValue::Str(s) => Some(
            PayloadFields {
                id: Some(JsonValue::Str(s)),
                typ: None,
                reverse: None,
                nest: None,
                language: None,
                container: None,
            },
        ),
        JsonValue::Object(entries) => Some(
            PayloadFields {
                id: lc_get(entries@, "@id"@),
                typ: lc_get(entries@, "@type"@),
                reverse: lc_get(entries@, "@reverse"@),
                nest: lc_get(entries@, "@nest"@),
                language: lc_get(entries@, "@language"@),
                container: lc_get(entries@, "@container"@),
            },
        ),
        _ => None,
    }
}

/// A reverse definition's container: absent or null stands for none,
/// `@set` and `@index` are kept, anything else is invalid (`None`).
pub open spec fn reverse_container_spec(c: Option<JsonValue>) -> Option<Option<Seq<char>>> {
    match c {
        None => Some(None),
        Some(JsonValue::Null) => Some(None),
        Some(JsonValue::Str(s)) => if s@ == "@set"@ || s@ == "@index"@ {
            Some(Some(s@))
        } else {
            None
        },
        Some(_) => None,
    }
}

/// A definition's language mapping: absent stays absent, null forces
/// the explicit "no language" marker, a string is a tag, anything else
/// is invalid (`None`).
pub open spec fn language_field_spec(l: Option<JsonValue>) -> Option<Option<Option<Seq<char>>>> {
    match l {
        None => Some(None),
        Some(JsonValue::Null) => Some(Some(None)),
        Some(JsonValue::Str(s)) => Some(Some(Some(s@))),
        Some(_) => None,
    }
}

/// A definition's container mapping: absent or null stands for none, a
/// string must be one of the closed container set, anything else is
/// invalid (`None`).
pub open spec fn container_field_spec(c: Option<JsonValue>) -> Option<Option<Seq<char>>> {
    match c {
        None => Some(None),
        Some(JsonValue::Null) => Some(None),
        Some(JsonValue::Str(s)) => if spec_is_container(s@) {
            Some(Some(s@))
        } else {
            None
        },
        Some(_) => None,
    }
}

/// Defines `term` from its payload in the local context: the memoized
/// no-op for a complete term, the cycle error for a term already in
/// progress, the keyword guard, the intentionally-undefined definition
/// for a `null` payload, and otherwise the staged validation of the
/// payload's entries.
pub open spec fn define_spec(env: ResolutionEnv, st: ResolutionState, term: Seq<char>) -> DefineResult
    decreases undefined_count(env.lc, st.defined), 0int,
{
    if st.defined.contains_key(term) {
        if st.defined[term] {
            DefineResult::Done(st)
        } else {
            DefineResult::Fail(JsonLdError::CyclicIdentifierMapping)
        }
    } else {
        let st1 = ResolutionState { terms: st.terms, defined: st.defined.insert(term, false) };
        if spec_is_keyword(term) {
            DefineResult::Fail(JsonLdError::KeywordRedefinition)
        } else {
            match lc_get(env.lc, term) {
                None => DefineResult::Fail(JsonLdError::InvalidTermDefinition),
                Some(payload) => {
                    let st2 = ResolutionState { terms: st1.terms.remove(term), defined: st1.defined };
                    match payload {
                        JsonValue::Null => DefineResult::Done(
                            ResolutionState {
                                terms: st2.terms.insert(term, null_spec_term()),
                                defined: st2.defined.insert(term, true),
                            },
                        ),
                        _ => match payload_fields(payload) {
                            None => DefineResult::Fail(JsonLdError::InvalidTermDefinition),
                            Some(p) => {
                                proof {
                                    lemma_lc_get_exists(env.lc, term, 0);
                                    lemma_undefined_count_insert(env.lc, st.defined, term, false);
                                }
                                define_type_spec(env, st2, term, p)
                            },
                        },
                    }
                },
            }
        }
    }
}

/// Validates a payload's `@type`: its value must be a string that
/// resolves to `@id`, `@vocab` or an absolute identifier.
pub open spec fn define_type_spec(
    env: ResolutionEnv,
    st: ResolutionState,
    term: Seq<char>,
    p: PayloadFields,
) -> DefineResult
    decreases undefined_count(env.lc, st.defined), 7int,
{
    match p.typ {
        None => define_reverse_spec(env, st, term, p, None),
        Some(tv) => match tv {
            JsonValue::Str(t) => match expand_spec(env, st, t@, false, true) {
                ExpandResult::Fail(e) => DefineResult::Fail(e),
                ExpandResult::Done(sta, res) => {
                    let st2 = absorb(st, sta);
                    match res {
                        Some(t2) => if t2 == "@id"@ || t2 == "@vocab"@ || spec_is_absolute_iri(t2) {
                            proof {
                                lemma_undefined_count_mono(env.lc, st.defined, st2.defined);
                            }
                            define_reverse_spec(env, st2, term, p, Some(t2))
                        } else {
                            DefineResult::Fail(JsonLdError::InvalidTypeMapping)
                        },
                        None => DefineResult::Fail(JsonLdError::InvalidTypeMapping),
                    }
                },
            },
            _ => DefineResult::Fail(JsonLdError::InvalidTypeMapping),
        },
    }
}

/// Handles a payload's `@reverse`: mutually exclusive with `@id` and
/// `@nest`; its value must be a string resolving to an absolute
/// identifier; the container is restricted; and the definition is
/// stored reverse, carrying no type or language mapping whatever the
/// payload held for them.
pub open spec fn define_reverse_spec(
    env: ResolutionEnv,
    st: ResolutionState,
    term: Seq<char>,
    p: PayloadFields,
    typ: Option<Seq<char>>,
) -> DefineResult
    decreases undefined_count(env.lc, st.defined), 6int,
{
    match p.reverse {
        None => define_id_spec(env, st, term, p, typ),
        Some(rv) => if p.id is Some || p.nest is Some {
            DefineResult::Fail(JsonLdError::InvalidReverseProperty)
        } else {
            match rv {
                JsonValue::Str(r) => match expand_spec(env, st, r@, false, true) {
                    ExpandResult::Fail(e) => DefineResult::Fail(e),
                    ExpandResult::Done(sta, res) => {
                        let st2 = absorb(st, sta);
                        match res {
                            Some(id) => if spec_is_absolute_iri(id) {
                                match reverse_container_spec(p.container) {
                                    None => DefineResult::Fail(JsonLdError::InvalidReverseProperty),
                                    Some(container) => DefineResult::Done(
                                        ResolutionState {
                                            terms: st2.terms.insert(
                                                term,
                                                SpecTerm {
                                                    iri_mapping: Some(id),
                                                    reverse: true,
                                                    type_mapping: None,
                                                    language_mapping: None,
                                                    container_mapping: container,
                                                },
                                            ),
                                            defined: st2.defined.insert(term, true),
                                        },
                                    ),
                                }
                            } else {
                                DefineResult::Fail(JsonLdError::InvalidIdentifierMapping)
                            },
                            None => DefineResult::Fail(JsonLdError::InvalidIdentifierMapping),
                        }
                    },
                },
                _ => DefineResult::Fail(JsonLdError::InvalidIdentifierMapping),
            }
        },
    }
}

/// Handles a payload's `@id`: a string value differing from the term
/// must resolve to an absolute identifier or a keyword, which becomes
/// the identifier mapping; a value equal to the term counts as absent.
pub open spec fn define_id_spec(
    env: ResolutionEnv,
    st: ResolutionState,
    term: Seq<char>,
    p: PayloadFields,
    typ: Option<Seq<char>>,
) -> DefineResult
    decreases undefined_count(env.lc, st.defined), 5int,
{
    match p.id {
        None => define_prefix_spec(env, st, term, p, typ),
        Some(idv) => match idv {
            JsonValue::Str(s) => if s@ != term {
                match expand_spec(env, st, s@, false, true) {
                    ExpandResult::Fail(e) => DefineResult::Fail(e),
                    ExpandResult::Done(sta, res) => {
                        let st2 = absorb(st, sta);
                        match res {
                            Some(id) => if spec_is_absolute_iri(id) || spec_is_keyword(id) {
                                proof {
                                    lemma_undefined_count_mono(env.lc, st.defined, st2.defined);
                                }
                                define_finish_spec(env, st2, term, p, typ, id)
                            } else {
                                DefineResult::Fail(JsonLdError::InvalidIdentifierMapping)
                            },
                            None => DefineResult::Fail(JsonLdError::InvalidIdentifierMapping),
                        }
                    },
                }
            } else {
                define_prefix_spec(env, st, term, p, typ)
            },
            _ => DefineResult::Fail(JsonLdError::InvalidIdentifierMapping),
        },
    }
}

/// Gives a term without an explicit `@id` its identifier mapping: a
/// compact term expands through its prefix (defining the prefix first
/// where it is itself a local key), an unexpandable compact term stands
/// verbatim, and a bare term requires a vocabulary.
pub open spec fn define_prefix_spec(
    env: ResolutionEnv,
    st: ResolutionState,
    term: Seq<char>,
    p: PayloadFields,
    typ: Option<Seq<char>>,
) -> DefineResult
    decreases undefined_count(env.lc, st.defined), 4int,
{
    match first_colon(term) {
        Some(ci) => {
            let prefix = term.take(ci);
            let suffix = term.skip(ci + 1);
            let r1 = if lc_has(env.lc, prefix) {
                define_spec(env, st, prefix)
            } else {
                DefineResult::Done(st)
            };
            match r1 {
                DefineResult::Fail(e) => DefineResult::Fail(e),
                DefineResult::Done(sta) => {
                    let st2 = absorb(st, sta);
                    proof {
                        lemma_undefined_count_mono(env.lc, st.defined, st2.defined);
                    }
                    if st2.terms.contains_key(prefix) && st2.terms[prefix].iri_mapping is Some {
                        define_finish_spec(
                            env,
                            st2,
                            term,
                            p,
                            typ,
                            opt_or_empty(st2.terms[prefix].iri_mapping) + suffix,
                        )
                    } else {
                        define_finish_spec(env, st2, term, p, typ, term)
                    }
                },
            }
        },
        None => match env.vocab {
            Some(v) => define_finish_spec(env, st, term, p, typ, v + term),
            None => DefineResult::Fail(JsonLdError::InvalidIdentifierMapping),
        },
    }
}

/// Validates the remaining payload entries and stores the finished
/// non-reverse definition, marking the term complete.
pub open spec fn define_finish_spec(
    env: ResolutionEnv,
    st: ResolutionState,
    term: Seq<char>,
    p: PayloadFields,
    typ: Option<Seq<char>>,
    iri: Seq<char>,
) -> DefineResult
    decreases undefined_count(env.lc, st.defined), 3int,
{
    match language_field_spec(p.language) {
        None => DefineResult::Fail(JsonLdError::InvalidTermDefinition),
        Some(language) => match container_field_spec(p.container) {
            None => DefineResult::Fail(JsonLdError::InvalidTermDefinition),
            Some(container) => DefineResult::Done(
                ResolutionState {
                    terms: st.terms.insert(
                        term,
                        SpecTerm {
                            iri_mapping: Some(iri),
                            reverse: false,
                            type_mapping: typ,
                            language_mapping: language,
                            container_mapping: container,
                        },
                    ),
                    defined: st.defined.insert(term, true),
                },
            ),
        },
    }
}

/// Resolves a token during definition: a keyword stands as itself; a
/// local key without a finished definition is defined first; a defined
/// term resolves to its mapping (where the vocabulary flag is set); a
/// compact identifier resolves through its prefix, defining the prefix
/// first where it is a local key; a bare token is completed against the
/// vocabulary or, for document-relative resolution, against the base.
pub open spec fn expand_spec(
    env: ResolutionEnv,
    st: ResolutionState,
    value: Seq<char>,
    relative: bool,
    vocab: bool,
) -> ExpandResult
    decreases undefined_count(env.lc, st.defined), 1int,
{
    if spec_is_keyword(value) {
        ExpandResult::Done(st, Some(value))
    } else {
        let r1 = if lc_has(env.lc, value) && !(st.defined.contains_key(value)
            && st.defined[value]) {
            define_spec(env, st, value)
        } else {
            DefineResult::Done(st)
        };
        match r1 {
            DefineResult::Fail(e) => ExpandResult::Fail(e),
            DefineResult::Done(sta) => {
                let st1 = absorb(st, sta);
                if vocab && st1.terms.contains_key(value) {
                    ExpandResult::Done(st1, st1.terms[value].iri_mapping)
                } else {
                    match first_colon(value) {
                        Some(i) => {
                            let prefix = value.take(i);
                            let suffix = value.skip(i + 1);
                            if (prefix.len() == 1 && prefix[0] == '_') || opens_authority(suffix) {
                                ExpandResult::Done(st1, Some(value))
                            } else {
                                let r2 = if lc_has(env.lc, prefix) && !(st1.defined.contains_key(
                                    prefix,
                                ) && st1.defined[prefix]) {
                                    proof {
                                        lemma_undefined_count_mono(env.lc, st.defined, st1.defined);
                                    }
                                    define_spec(env, st1, prefix)
                                } else {
                                    DefineResult::Done(st1)
                                };
                                match r2 {
                                    DefineResult::Fail(e) => ExpandResult::Fail(e),
                                    DefineResult::Done(stb) => {
                                        let st2 = absorb(st1, stb);
                                        if st2.terms.contains_key(prefix) && st2.terms[prefix].iri_mapping is Some {
                                            ExpandResult::Done(
                                                st2,
                                                Some(opt_or_empty(st2.terms[prefix].iri_mapping) + suffix),
                                            )
                                        } else {
                                            ExpandResult::Done(st2, Some(value))
                                        }
                                    },
                                }
                            }
                        },
                        None => if vocab && env.vocab is Some {
                            ExpandResult::Done(st1, Some(opt_or_empty(env.vocab) + value))
                        } else if relative && env.base is Some {
                            match crate::urls::url_join_of(opt_or_empty(env.base), value) {
                                Some(j) => ExpandResult::Done(st1, Some(j)),
                                None => ExpandResult::Done(st1, Some(value)),
                            }
                        } else {
                            ExpandResult::Done(st1, Some(value))
                        },
                    }
                }
            },
        }
    }
}

/// What a finished definition step guarantees: the defined-state map
/// only gains keys, well-formedness of the term table is preserved, and
/// the defined term is marked complete.
pub open spec fn define_post(
    st: ResolutionState,
    term: Seq<char>,
    r: DefineResult,
) -> bool {
    match r {
        DefineResult::Done(st2) => {
            &&& forall|k: Seq<char>| #[trigger] st.defined.contains_key(k)
                ==> st2.defined.contains_key(k) && (k != term ==> st2.defined[k] == st.defined[k])
            &&& (crate::context::wf_terms(st.terms) ==> crate::context::wf_terms(st2.terms))
            &&& st2.defined.contains_key(term)
            &&& st2.defined[term] == true
        },
        DefineResult::Fail(_) => true,
    }
}

/// What a finished resolution step guarantees: the defined-state map
/// only gains keys and well-formedness of the term table is preserved.
pub open spec fn expand_post(st: ResolutionState, r: ExpandResult) -> bool {
    match r {
        ExpandResult::Done(st2, _) => {
            &&& forall|k: Seq<char>| #[trigger] st.defined.contains_key(k)
                ==> st2.defined.contains_key(k) && st2.defined[k] == st.defined[k]
            &&& (crate::context::wf_terms(st.terms) ==> crate::context::wf_terms(st2.terms))
        },
        ExpandResult::Fail(_) => true,
    }
}

/// Key growth is transitive.
pub proof fn lemma_grow_trans(
    a: Map<Seq<char>, bool>,
    b: Map<Seq<char>, bool>,
    c: Map<Seq<char>, bool>,
)
    requires
        forall|k: Seq<char>| #[trigger] a.contains_key(k) ==> b.contains_key(k),
        forall|k: Seq<char>| #[trigger] b.contains_key(k) ==> c.contains_key(k),
    ensures
        forall|k: Seq<char>| #[trigger] a.contains_key(k) ==> c.contains_key(k),
{
    assert forall|k: Seq<char>| #[trigger] a.contains_key(k) implies c.contains_key(k) by {
        assert(b.contains_key(k));
    }
}

/// Defining a term only grows the defined-state map, preserves
/// well-formedness, and marks the term complete.
pub proof fn lemma_define_grow(env: ResolutionEnv, st: ResolutionState, term: Seq<char>)
    ensures
        define_post(st, term, define_spec(env, st, term)),
    decreases undefined_count(env.lc, st.defined), 0int,
{
    if st.defined.contains_key(term) {
    } else {
        let st1 = ResolutionState { terms: st.terms, defined: st.defined.insert(term, false) };
        if spec_is_keyword(term) {
        } else {
            match lc_get(env.lc, term) {
                None => {},
                Some(payload) => {
                    let st2 = ResolutionState {
                        terms: st1.terms.remove(term),
                        defined: st1.defined,
                    };
                    match payload {
                        JsonValue::Null => {},
                        _ => match payload_fields(payload) {
                        None => {},
                        Some(p) => {
                            lemma_lc_get_exists(env.lc, term, 0);
                            lemma_undefined_count_insert(env.lc, st.defined, term, false);
                            lemma_define_type_grow(env, st2, term, p);
                            assert(forall|k: Seq<char>| #[trigger] st.defined.contains_key(k)
                                ==> st2.defined.contains_key(k));
                            match define_type_spec(env, st2, term, p) {
                                DefineResult::Done(stf) => {
                                    lemma_grow_trans(st.defined, st2.defined, stf.defined);
                                },
                                DefineResult::Fail(_) => {},
                            }
                        },
                        },
                    }
                },
            }
        }
    }
}

/// See [`lemma_define_grow`]; the `@type` stage.
pub proof fn lemma_define_type_grow(
    env: ResolutionEnv,
    st: ResolutionState,
    term: Seq<char>,
    p: PayloadFields,
)
    ensures
        define_post(st, term, define_type_spec(env, st, term, p)),
    decreases undefined_count(env.lc, st.defined), 7int,
{
    match p.typ {
        None => {
            lemma_define_reverse_grow(env, st, term, p, None);
        },
        Some(tv) => match tv {
            JsonValue::Str(t) => {
                lemma_expand_grow(env, st, t@, false, true);
                match expand_spec(env, st, t@, false, true) {
                    ExpandResult::Fail(_) => {},
                    ExpandResult::Done(sta, res) => {
                        let st2 = absorb(st, sta);
                        match res {
                            Some(t2) => if t2 == "@id"@ || t2 == "@vocab"@
                                || spec_is_absolute_iri(t2) {
                                lemma_undefined_count_mono(env.lc, st.defined, st2.defined);
                                lemma_define_reverse_grow(env, st2, term, p, Some(t2));
                                assert(forall|k: Seq<char>| #[trigger] st.defined.contains_key(k)
                                    ==> st2.defined.contains_key(k));
                                match define_reverse_spec(env, st2, term, p, Some(t2)) {
                                    DefineResult::Done(stf) => {
                                        lemma_grow_trans(st.defined, st2.defined, stf.defined);
                                    },
                                    DefineResult::Fail(_) => {},
                                }
                            },
                            None => {},
                        }
                    },
                }
            },
            _ => {},
        },
    }
}

/// See [`lemma_define_grow`]; the `@reverse` stage.
pub proof fn lemma_define_reverse_grow(
    env: ResolutionEnv,
    st: ResolutionState,
    term: Seq<char>,
    p: PayloadFields,
    typ: Option<Seq<char>>,
)
    ensures
        define_post(st, term, define_reverse_spec(env, st, term, p, typ)),
    decreases undefined_count(env.lc, st.defined), 6int,
{
    match p.reverse {
        None => {
            lemma_define_id_grow(env, st, term, p, typ);
        },
        Some(rv) => if p.id is Some || p.nest is Some {
        } else {
            match rv {
                JsonValue::Str(r) => {
                    lemma_expand_grow(env, st, r@, false, true);
                },
                _ => {},
            }
        },
    }
}

/// See [`lemma_define_grow`]; the `@id` stage.
pub proof fn lemma_define_id_grow(
    env: ResolutionEnv,
    st: ResolutionState,
    term: Seq<char>,
    p: PayloadFields,
    typ: Option<Seq<char>>,
)
    ensures
        define_post(st, term, define_id_spec(env, st, term, p, typ)),
    decreases undefined_count(env.lc, st.defined), 5int,
{
    match p.id {
        None => {
            lemma_define_prefix_grow(env, st, term, p, typ);
        },
        Some(idv) => match idv {
            JsonValue::Str(s) => if s@ != term {
                lemma_expand_grow(env, st, s@, false, true);
                match expand_spec(env, st, s@, false, true) {
                    ExpandResult::Fail(_) => {},
                    ExpandResult::Done(sta, res) => {
                        let st2 = absorb(st, sta);
                        match res {
                            Some(id) => if spec_is_absolute_iri(id) || spec_is_keyword(id) {
                                lemma_undefined_count_mono(env.lc, st.defined, st2.defined);
                                assert(forall|k: Seq<char>| #[trigger] st.defined.contains_key(k)
                                    ==> st2.defined.contains_key(k));
                            },
                            None => {},
                        }
                    },
                }
            } else {
                lemma_define_prefix_grow(env, st, term, p, typ);
            },
            _ => {},
        },
    }
}

/// See [`lemma_define_grow`]; the compact-term and vocabulary stage.
pub proof fn lemma_define_prefix_grow(
    env: ResolutionEnv,
    st: ResolutionState,
    term: Seq<char>,
    p: PayloadFields,
    typ: Option<Seq<char>>,
)
    ensures
        define_post(st, term, define_prefix_spec(env, st, term, p, typ)),
    decreases undefined_count(env.lc, st.defined), 4int,
{
    match first_colon(term) {
        Some(ci) => {
            let prefix = term.take(ci);
            let r1 = if lc_has(env.lc, prefix) {
                lemma_define_grow(env, st, prefix);
                define_spec(env, st, prefix)
            } else {
                DefineResult::Done(st)
            };
            match r1 {
                DefineResult::Fail(_) => {},
                DefineResult::Done(sta) => {
                    let st2 = absorb(st, sta);
                    assert(forall|k: Seq<char>| #[trigger] st.defined.contains_key(k)
                        ==> st2.defined.contains_key(k));
                },
            }
        },
        None => {},
    }
}

/// Resolving a token only grows the defined-state map and preserves
/// well-formedness.
pub proof fn lemma_expand_grow(
    env: ResolutionEnv,
    st: ResolutionState,
    value: Seq<char>,
    relative: bool,
    vocab: bool,
)
    ensures
        expand_post(st, expand_spec(env, st, value, relative, vocab)),
    decreases undefined_count(env.lc, st.defined), 1int,
{
    if spec_is_keyword(value) {
    } else {
        if lc_has(env.lc, value) && !(st.defined.contains_key(value) && st.defined[value]) {
            lemma_define_grow(env, st, value);
        }
        let r1 = if lc_has(env.lc, value) && !(st.defined.contains_key(value)
            && st.defined[value]) {
            define_spec(env, st, value)
        } else {
            DefineResult::Done(st)
        };
        match r1 {
            DefineResult::Fail(_) => {},
            DefineResult::Done(sta) => {
                let st1 = absorb(st, sta);
                assert(forall|k: Seq<char>| #[trigger] st.defined.contains_key(k)
                    ==> st1.defined.contains_key(k));
                if vocab && st1.terms.contains_key(value) {
                } else {
                    match first_colon(value) {
                        Some(i) => {
                            let prefix = value.take(i);
                            let suffix = value.skip(i + 1);
                            if (prefix.len() == 1 && prefix[0] == '_') || opens_authority(suffix) {
                            } else {
                                let r2 = if lc_has(env.lc, prefix) && !(st1.defined.contains_key(
                                    prefix,
                                ) && st1.defined[prefix]) {
                                    lemma_undefined_count_mono(env.lc, st.defined, st1.defined);
                                    lemma_define_grow(env, st1, prefix);
                                    define_spec(env, st1, prefix)
                                } else {
                                    DefineResult::Done(st1)
                                };
                                match r2 {
                                    DefineResult::Fail(_) => {},
                                    DefineResult::Done(stb) => {
                                        let st2 = absorb(st1, stb);
                                        assert(forall|k: Seq<char>|
                                            #[trigger] st1.defined.contains_key(k)
                                                ==> st2.defined.contains_key(k));
                                        lemma_grow_trans(st.defined, st1.defined, st2.defined);
                                    },
                                }
                            }
                        },
                        None => {},
                    }
                }
            },
        }
    }
}

} // verus!
