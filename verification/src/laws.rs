//! What the library guarantees, stated once and proved: the laws of
//! term definition and identifier resolution.

use vstd::prelude::*;
use crate::context::{
    resolve_spec, spec_context_from_base, wf_terms, SpecContext,
};
use crate::define::{
    absorb, define_reverse_spec, define_spec, expand_spec, lemma_define_grow, lemma_expand_grow,
    null_spec_term, DefineResult, ExpandResult, PayloadFields, ResolutionEnv, ResolutionState,
};
use crate::error::JsonLdError;
use crate::iri::{spec_is_absolute_iri, spec_is_keyword};
use crate::json::{lc_get, lc_has, lemma_lc_get_exists, JsonValue};
use crate::process::{
    base_directive_spec, define_all_spec, language_directive_spec, process_fragment_spec,
    process_fragments_spec, process_object_spec, spec_is_directive, vocab_directive_spec,
};
use crate::strutil::{first_colon, first_colon_from};
use crate::term::SpecTerm;

verus! {

/// A term whose defined-state is already complete is not reprocessed:
/// defining it again returns the state unchanged.
pub proof fn completed_definition_unchanged(
    env: ResolutionEnv,
    st: ResolutionState,
    term: Seq<char>,
)
    requires
        st.defined.contains_key(term),
        st.defined[term] == true,
    ensures
        define_spec(env, st, term) == DefineResult::Done(st),
{
}

/// A term met again while its own definition is still in progress is a
/// cyclic identifier mapping, and fails as such.  (That such input can
/// never make the definer loop or overflow is built into the
/// definitions themselves: `define_spec` and `expand_spec` carry a
/// termination measure, as do their executable counterparts.)
pub proof fn cyclic_definition_rejected(env: ResolutionEnv, st: ResolutionState, term: Seq<char>)
    requires
        st.defined.contains_key(term),
        st.defined[term] == false,
    ensures
        define_spec(env, st, term) == DefineResult::Fail(JsonLdError::CyclicIdentifierMapping),
{
}

/// No keyword can be redefined as a term: whatever the payload holds,
/// and in either payload shape, defining a keyword fails.
pub proof fn keyword_redefinition_rejected(
    env: ResolutionEnv,
    st: ResolutionState,
    term: Seq<char>,
)
    requires
        spec_is_keyword(term),
        !st.defined.contains_key(term),
    ensures
        define_spec(env, st, term) == DefineResult::Fail(JsonLdError::KeywordRedefinition),
{
}

/// Processing a `null` fragment drops all terms, the vocabulary and
/// the default language, and retains only the working base.
pub proof fn null_fragment_resets(ctx: SpecContext, remote_empty: bool)
    ensures
        process_fragment_spec(ctx, JsonValue::Null, remote_empty) == Ok::<
            SpecContext,
            JsonLdError,
        >(spec_context_from_base(ctx.base)),
{
}

/// Processing a `null` fragment after any prior fragments that
/// succeed yields the base those fragments left, and nothing else.
pub proof fn null_reset_after_any(
    ctx: SpecContext,
    frags: Seq<JsonValue>,
    remote_empty: bool,
    mid: SpecContext,
)
    requires
        process_fragments_spec(ctx, frags, remote_empty) == Ok::<SpecContext, JsonLdError>(mid),
    ensures
        process_fragments_spec(ctx, frags.push(JsonValue::Null), remote_empty) == Ok::<
            SpecContext,
            JsonLdError,
        >(spec_context_from_base(mid.base)),
    decreases frags.len(),
{
    reveal_with_fuel(process_fragments_spec, 3);
    if frags.len() == 0 {
        assert(frags.push(JsonValue::Null)[0] is Null);
        assert(frags.push(JsonValue::Null).skip(1) =~= Seq::<JsonValue>::empty());
    } else {
        let appended = frags.push(JsonValue::Null);
        assert(appended[0] == frags[0]);
        match process_fragment_spec(ctx, frags[0], remote_empty) {
            Ok(c) => {
                assert(appended.skip(1) =~= frags.skip(1).push(JsonValue::Null));
                null_reset_after_any(c, frags.skip(1), remote_empty, mid);
            },
            Err(_) => {
                assert(false);
            },
        }
    }
}

/// No keyword holds a colon.
pub proof fn lemma_keyword_no_colon(k: Seq<char>)
    requires
        spec_is_keyword(k),
    ensures
        first_colon(k) is None,
{
    reveal_with_fuel(first_colon_from, 12);
    reveal_strlit("@base");
    reveal_strlit("@container");
    reveal_strlit("@context");
    reveal_strlit("@graph");
    reveal_strlit("@id");
    reveal_strlit("@index");
    reveal_strlit("@language");
    reveal_strlit("@list");
    reveal_strlit("@reverse");
    reveal_strlit("@set");
    reveal_strlit("@type");
    reveal_strlit("@value");
    reveal_strlit("@vocab");
}

/// The first colon of a token assembled around a colon-free prefix is
/// the assembling colon.
pub proof fn lemma_first_colon_at(token: Seq<char>, plen: int, i: int)
    requires
        0 <= i <= plen < token.len(),
        token[plen] == ':',
        forall|j: int| 0 <= j < plen ==> token[j] != ':',
    ensures
        first_colon_from(token, i) == Some(plen),
    decreases plen - i,
{
    if i < plen {
        lemma_first_colon_at(token, plen, i + 1);
    }
}

/// Compact-identifier resolution: a token `prefix:suffix` whose prefix
/// is a defined term with a mapping resolves to that mapping followed
/// by the suffix — whatever the resolution flags, as long as the whole
/// token is not itself a defined term consulted first.
pub proof fn compact_identifier_resolution(
    ctx: SpecContext,
    prefix: Seq<char>,
    suffix: Seq<char>,
    m: Seq<char>,
    relative: bool,
    vocab: bool,
)
    requires
        forall|j: int| 0 <= j < prefix.len() ==> prefix[j] != ':',
        !(prefix.len() == 1 && prefix[0] == '_'),
        !(suffix.len() >= 2 && suffix[0] == '/' && suffix[1] == '/'),
        ctx.terms.contains_key(prefix),
        ctx.terms[prefix].iri_mapping == Some(m),
        !(vocab && ctx.terms.contains_key(prefix + seq![':'] + suffix)),
    ensures
        resolve_spec(ctx, prefix + seq![':'] + suffix, relative, vocab) == Some(m + suffix),
{
    let token = prefix + seq![':'] + suffix;
    assert(token[prefix.len() as int] == ':');
    assert(forall|j: int| 0 <= j < prefix.len() ==> token[j] == prefix[j]);
    lemma_first_colon_at(token, prefix.len() as int, 0);
    if spec_is_keyword(token) {
        lemma_keyword_no_colon(token);
        assert(false);
    }
    assert(token.take(prefix.len() as int) =~= prefix);
    assert(token.skip(prefix.len() as int + 1) =~= suffix);
}

/// Vocabulary defaulting: a bare term defined by an object payload
/// with none of the special entries, under a context with a
/// vocabulary, is mapped to the vocabulary followed by the term.
pub proof fn vocabulary_defaulting(
    env: ResolutionEnv,
    st: ResolutionState,
    term: Seq<char>,
    v: Seq<char>,
    entries: Vec<(String, JsonValue)>,
)
    requires
        env.vocab == Some(v),
        first_colon(term) is None,
        !spec_is_keyword(term),
        !st.defined.contains_key(term),
        lc_get(env.lc, term) == Some(JsonValue::Object(entries)),
        lc_get(entries@, "@id"@) is None,
        lc_get(entries@, "@type"@) is None,
        lc_get(entries@, "@reverse"@) is None,
        lc_get(entries@, "@language"@) is None,
        lc_get(entries@, "@container"@) is None,
    ensures
        define_spec(env, st, term) == DefineResult::Done(
            ResolutionState {
                terms: st.terms.remove(term).insert(
                    term,
                    SpecTerm {
                        iri_mapping: Some(v + term),
                        reverse: false,
                        type_mapping: None,
                        language_mapping: None,
                        container_mapping: None,
                    },
                ),
                defined: st.defined.insert(term, true),
            },
        ),
{
    let st1 = ResolutionState { terms: st.terms, defined: st.defined.insert(term, false) };
    let st2 = ResolutionState { terms: st1.terms.remove(term), defined: st1.defined };
    let p = PayloadFields {
        id: lc_get(entries@, "@id"@),
        typ: lc_get(entries@, "@type"@),
        reverse: lc_get(entries@, "@reverse"@),
        nest: lc_get(entries@, "@nest"@),
        language: lc_get(entries@, "@language"@),
        container: lc_get(entries@, "@container"@),
    };
    assert(crate::define::payload_fields(JsonValue::Object(entries)) == Some(p));
    assert(define_spec(env, st, term) == crate::define::define_type_spec(env, st2, term, p));
    assert(crate::define::define_type_spec(env, st2, term, p)
        == define_reverse_spec(env, st2, term, p, None));
    assert(define_reverse_spec(env, st2, term, p, None) == crate::define::define_id_spec(
        env,
        st2,
        term,
        p,
        None,
    ));
    assert(crate::define::define_id_spec(env, st2, term, p, None)
        == crate::define::define_prefix_spec(env, st2, term, p, None));
    assert(crate::define::define_prefix_spec(env, st2, term, p, None)
        == crate::define::define_finish_spec(env, st2, term, p, None, v + term));
    assert(st.defined.insert(term, false).insert(term, true) =~= st.defined.insert(term, true));
    assert(define_spec(env, st, term) == DefineResult::Done(
        ResolutionState {
            terms: st2.terms.insert(
                term,
                SpecTerm {
                    iri_mapping: Some(v + term),
                    reverse: false,
                    type_mapping: None,
                    language_mapping: None,
                    container_mapping: None,
                },
            ),
            defined: st2.defined.insert(term, true),
        },
    ));
}

/// Forward reference: resolving a token that is a local key without a
/// finished definition first forces its definition, and then returns
/// the freshly-created mapping — even though the key may stand later
/// in the fragment than its user.
pub proof fn forward_reference_forced(
    env: ResolutionEnv,
    st: ResolutionState,
    value: Seq<char>,
    relative: bool,
    st1: ResolutionState,
    m: Seq<char>,
)
    requires
        lc_has(env.lc, value),
        !st.defined.contains_key(value),
        !spec_is_keyword(value),
        define_spec(env, st, value) == DefineResult::Done(st1),
        st1.terms.contains_key(value),
        st1.terms[value].iri_mapping == Some(m),
    ensures
        expand_spec(env, st, value, relative, true) == ExpandResult::Done(st1, Some(m)),
{
    lemma_define_grow(env, st, value);
    assert(absorb(st, st1) =~= st1);
}

/// Reverse short-circuit: a definition created through `@reverse`
/// never carries a type or language mapping, whatever the payload held
/// for `@type` or `@language` and in whatever order.
pub proof fn reverse_definition_carries_no_type_or_language(
    env: ResolutionEnv,
    st: ResolutionState,
    term: Seq<char>,
    p: PayloadFields,
    typ: Option<Seq<char>>,
    st2: ResolutionState,
)
    requires
        p.reverse is Some,
        define_reverse_spec(env, st, term, p, typ) == DefineResult::Done(st2),
    ensures
        st2.terms.contains_key(term),
        st2.terms[term].reverse == true,
        st2.terms[term].type_mapping is None,
        st2.terms[term].language_mapping is None,
{
}

/// The exposed resolver agrees with the definer's resolver: against a
/// finished context — an empty local context and a fresh defined-state
/// map — resolving a token during definition changes nothing and
/// returns exactly what [`resolve_spec`] says.
pub proof fn resolver_agrees_with_definition_resolution(
    ctx: SpecContext,
    value: Seq<char>,
    relative: bool,
    vocab: bool,
)
    ensures
        ({
            let env = ResolutionEnv { base: ctx.base, vocab: ctx.vocab, lc: Seq::empty() };
            let st = ResolutionState { terms: ctx.terms, defined: Map::empty() };
            expand_spec(env, st, value, relative, vocab) == ExpandResult::Done(
                st,
                resolve_spec(ctx, value, relative, vocab),
            )
        }),
{
    let env = ResolutionEnv { base: ctx.base, vocab: ctx.vocab, lc: Seq::empty() };
    let st = ResolutionState { terms: ctx.terms, defined: Map::empty() };
    assert(!lc_has(env.lc, value));
    assert(absorb(st, st) =~= st);
    match first_colon(value) {
        Some(i) => {
            assert(!lc_has(env.lc, value.take(i)));
        },
        None => {},
    }
}

/// Well-formedness is preserved: whatever one definition step does to
/// a well-formed term table, every definition in the rewritten table —
/// reverse definitions included — is still well-formed.
pub proof fn definition_preserves_well_formedness(
    env: ResolutionEnv,
    st: ResolutionState,
    term: Seq<char>,
)
    requires
        wf_terms(st.terms),
    ensures
        match define_spec(env, st, term) {
            DefineResult::Done(st2) => wf_terms(st2.terms),
            DefineResult::Fail(_) => true,
        },
{
    lemma_define_grow(env, st, term);
}


/// Whether two states cannot be told apart by one definition step:
/// equal defined-states, and equal term tables wherever the definer
/// can look — at keys outside the local context, and at local keys
/// whose definition is complete.  (A local key that is not complete is
/// always defined before its entry is read, so a stale entry for it is
/// never consulted.)
spec fn lookup_agree(
    lc: Seq<(String, JsonValue)>,
    st1: ResolutionState,
    st2: ResolutionState,
) -> bool {
    &&& st1.defined == st2.defined
    &&& forall|k: Seq<char>|
        (!lc_has(lc, k) || (st1.defined.contains_key(k) && st1.defined[k])) ==> {
            &&& (#[trigger] st1.terms.contains_key(k)) == st2.terms.contains_key(k)
            &&& (st1.terms.contains_key(k) ==> st1.terms[k] == st2.terms[k])
        }
}

/// Whether a definition step left every key it can never write — keys
/// outside the local context, and keyword keys — exactly as it was.
spec fn untouched_outside(
    lc: Seq<(String, JsonValue)>,
    st: ResolutionState,
    r: ResolutionState,
) -> bool {
    forall|k: Seq<char>|
        (!lc_has(lc, k) || spec_is_keyword(k)) ==> {
            &&& (#[trigger] st.terms.contains_key(k)) == r.terms.contains_key(k)
            &&& (st.terms.contains_key(k) ==> st.terms[k] == r.terms[k])
        }
}

proof fn lemma_untouched_trans(
    lc: Seq<(String, JsonValue)>,
    a: ResolutionState,
    b: ResolutionState,
    c: ResolutionState,
)
    requires
        untouched_outside(lc, a, b),
        untouched_outside(lc, b, c),
    ensures
        untouched_outside(lc, a, c),
{
    assert forall|k: Seq<char>| !lc_has(lc, k) || spec_is_keyword(k) implies {
        &&& (#[trigger] a.terms.contains_key(k)) == c.terms.contains_key(k)
        &&& (a.terms.contains_key(k) ==> a.terms[k] == c.terms[k])
    } by {
        assert(a.terms.contains_key(k) == b.terms.contains_key(k));
    }
}

/// What a pair of definition runs over indistinguishable states must
/// deliver: the same outcome, and states indistinguishable again.
spec fn define_pair_post(
    lc: Seq<(String, JsonValue)>,
    st1: ResolutionState,
    st2: ResolutionState,
    r1: DefineResult,
    r2: DefineResult,
) -> bool {
    match (r1, r2) {
        (DefineResult::Done(a), DefineResult::Done(b)) => {
            &&& lookup_agree(lc, a, b)
            &&& untouched_outside(lc, st1, a)
            &&& untouched_outside(lc, st2, b)
        },
        (DefineResult::Fail(e1), DefineResult::Fail(e2)) => e1 == e2,
        _ => false,
    }
}

/// See [`define_pair_post`]; a resolution pair also returns the same
/// identifier.
spec fn expand_pair_post(
    lc: Seq<(String, JsonValue)>,
    st1: ResolutionState,
    st2: ResolutionState,
    r1: ExpandResult,
    r2: ExpandResult,
) -> bool {
    match (r1, r2) {
        (ExpandResult::Done(a, o1), ExpandResult::Done(b, o2)) => {
            &&& o1 == o2
            &&& lookup_agree(lc, a, b)
            &&& untouched_outside(lc, st1, a)
            &&& untouched_outside(lc, st2, b)
        },
        (ExpandResult::Fail(e1), ExpandResult::Fail(e2)) => e1 == e2,
        _ => false,
    }
}

/// Two definitions of one term over indistinguishable states run in
/// lockstep: same outcome, indistinguishable states again, nothing
/// written outside the local keys.
proof fn lemma_define_pair(
    env: ResolutionEnv,
    st1: ResolutionState,
    st2: ResolutionState,
    term: Seq<char>,
)
    requires
        lookup_agree(env.lc, st1, st2),
    ensures
        define_pair_post(env.lc, st1, st2, define_spec(env, st1, term), define_spec(env, st2, term)),
    decreases crate::define::undefined_count(env.lc, st1.defined), 0int,
{
    if st1.defined.contains_key(term) {
    } else {
        let st1a = ResolutionState { terms: st1.terms, defined: st1.defined.insert(term, false) };
        let st2a = ResolutionState { terms: st2.terms, defined: st2.defined.insert(term, false) };
        if spec_is_keyword(term) {
        } else {
            match lc_get(env.lc, term) {
                None => {},
                Some(payload) => {
                    let st1b = ResolutionState { terms: st1a.terms.remove(term), defined: st1a.defined };
                    let st2b = ResolutionState { terms: st2a.terms.remove(term), defined: st2a.defined };
                    match crate::define::payload_fields(payload) {
                        None => {},
                        Some(p) => {
                            crate::json::lemma_lc_get_exists(env.lc, term, 0);
                            crate::define::lemma_undefined_count_insert(
                                env.lc,
                                st1.defined,
                                term,
                                false,
                            );
                            assert(lookup_agree(env.lc, st1b, st2b));
                            lemma_pair_type(env, st1b, st2b, term, p);
                            match (
                                crate::define::define_type_spec(env, st1b, term, p),
                                crate::define::define_type_spec(env, st2b, term, p),
                            ) {
                                (DefineResult::Done(a), DefineResult::Done(b)) => {
                                    assert(untouched_outside(env.lc, st1, st1b));
                                    assert(untouched_outside(env.lc, st2, st2b));
                                    lemma_untouched_trans(env.lc, st1, st1b, a);
                                    lemma_untouched_trans(env.lc, st2, st2b, b);
                                },
                                _ => {},
                            }
                        },
                    }
                },
            }
        }
    }
}

/// See [`lemma_define_pair`]; the `@type` stage.
proof fn lemma_pair_type(
    env: ResolutionEnv,
    st1: ResolutionState,
    st2: ResolutionState,
    term: Seq<char>,
    p: PayloadFields,
)
    requires
        lookup_agree(env.lc, st1, st2),
        lc_has(env.lc, term),
        !spec_is_keyword(term),
    ensures
        define_pair_post(
            env.lc,
            st1,
            st2,
            crate::define::define_type_spec(env, st1, term, p),
            crate::define::define_type_spec(env, st2, term, p),
        ),
    decreases crate::define::undefined_count(env.lc, st1.defined), 7int,
{
    match p.typ {
        None => {
            lemma_pair_reverse(env, st1, st2, term, p, None);
        },
        Some(tv) => match tv {
            JsonValue::Str(t) => {
                lemma_pair_expand(env, st1, st2, t@, false, true);
                lemma_expand_grow(env, st1, t@, false, true);
                lemma_expand_grow(env, st2, t@, false, true);
                match (
                    expand_spec(env, st1, t@, false, true),
                    expand_spec(env, st2, t@, false, true),
                ) {
                    (ExpandResult::Done(a, o1), ExpandResult::Done(b, o2)) => {
                        let st1c = absorb(st1, a);
                        let st2c = absorb(st2, b);
                        assert(st1c =~= a);
                        assert(st2c =~= b);
                        match o1 {
                            Some(t2) => if t2 == "@id"@ || t2 == "@vocab"@
                                || crate::iri::spec_is_absolute_iri(t2) {
                                crate::define::lemma_undefined_count_mono(
                                    env.lc,
                                    st1.defined,
                                    st1c.defined,
                                );
                                lemma_pair_reverse(env, st1c, st2c, term, p, Some(t2));
                                match (
                                    define_reverse_spec(env, st1c, term, p, Some(t2)),
                                    define_reverse_spec(env, st2c, term, p, Some(t2)),
                                ) {
                                    (DefineResult::Done(ra), DefineResult::Done(rb)) => {
                                        lemma_untouched_trans(env.lc, st1, st1c, ra);
                                        lemma_untouched_trans(env.lc, st2, st2c, rb);
                                    },
                                    _ => {},
                                }
                            },
                            None => {},
                        }
                    },
                    _ => {},
                }
            },
            _ => {},
        },
    }
}

/// See [`lemma_define_pair`]; the `@reverse` stage.
proof fn lemma_pair_reverse(
    env: ResolutionEnv,
    st1: ResolutionState,
    st2: ResolutionState,
    term: Seq<char>,
    p: PayloadFields,
    typ: Option<Seq<char>>,
)
    requires
        lookup_agree(env.lc, st1, st2),
        lc_has(env.lc, term),
        !spec_is_keyword(term),
    ensures
        define_pair_post(
            env.lc,
            st1,
            st2,
            define_reverse_spec(env, st1, term, p, typ),
            define_reverse_spec(env, st2, term, p, typ),
        ),
    decreases crate::define::undefined_count(env.lc, st1.defined), 6int,
{
    match p.reverse {
        None => {
            lemma_pair_id(env, st1, st2, term, p, typ);
        },
        Some(rv) => if p.id is Some || p.nest is Some {
        } else {
            match rv {
                JsonValue::Str(r) => {
                    lemma_pair_expand(env, st1, st2, r@, false, true);
                    lemma_expand_grow(env, st1, r@, false, true);
                    lemma_expand_grow(env, st2, r@, false, true);
                    match (
                        expand_spec(env, st1, r@, false, true),
                        expand_spec(env, st2, r@, false, true),
                    ) {
                        (ExpandResult::Done(a, o1), ExpandResult::Done(b, o2)) => {
                            let st1c = absorb(st1, a);
                            let st2c = absorb(st2, b);
                            assert(st1c =~= a);
                            assert(st2c =~= b);
                        },
                        _ => {},
                    }
                },
                _ => {},
            }
        },
    }
}

/// See [`lemma_define_pair`]; the `@id` stage.
proof fn lemma_pair_id(
    env: ResolutionEnv,
    st1: ResolutionState,
    st2: ResolutionState,
    term: Seq<char>,
    p: PayloadFields,
    typ: Option<Seq<char>>,
)
    requires
        lookup_agree(env.lc, st1, st2),
        lc_has(env.lc, term),
        !spec_is_keyword(term),
    ensures
        define_pair_post(
            env.lc,
            st1,
            st2,
            crate::define::define_id_spec(env, st1, term, p, typ),
            crate::define::define_id_spec(env, st2, term, p, typ),
        ),
    decreases crate::define::undefined_count(env.lc, st1.defined), 5int,
{
    match p.id {
        None => {
            lemma_pair_prefix(env, st1, st2, term, p, typ);
        },
        Some(idv) => match idv {
            JsonValue::Str(s) => if s@ != term {
                lemma_pair_expand(env, st1, st2, s@, false, true);
                lemma_expand_grow(env, st1, s@, false, true);
                lemma_expand_grow(env, st2, s@, false, true);
                match (
                    expand_spec(env, st1, s@, false, true),
                    expand_spec(env, st2, s@, false, true),
                ) {
                    (ExpandResult::Done(a, o1), ExpandResult::Done(b, o2)) => {
                        let st1c = absorb(st1, a);
                        let st2c = absorb(st2, b);
                        assert(st1c =~= a);
                        assert(st2c =~= b);
                    },
                    _ => {},
                }
            } else {
                lemma_pair_prefix(env, st1, st2, term, p, typ);
            },
            _ => {},
        },
    }
}

/// See [`lemma_define_pair`]; the compact-term and vocabulary stage.
proof fn lemma_pair_prefix(
    env: ResolutionEnv,
    st1: ResolutionState,
    st2: ResolutionState,
    term: Seq<char>,
    p: PayloadFields,
    typ: Option<Seq<char>>,
)
    requires
        lookup_agree(env.lc, st1, st2),
        lc_has(env.lc, term),
        !spec_is_keyword(term),
    ensures
        define_pair_post(
            env.lc,
            st1,
            st2,
            crate::define::define_prefix_spec(env, st1, term, p, typ),
            crate::define::define_prefix_spec(env, st2, term, p, typ),
        ),
    decreases crate::define::undefined_count(env.lc, st1.defined), 4int,
{
    match first_colon(term) {
        Some(ci) => {
            let prefix = term.take(ci);
            if lc_has(env.lc, prefix) {
                lemma_define_pair(env, st1, st2, prefix);
                lemma_define_grow(env, st1, prefix);
                lemma_define_grow(env, st2, prefix);
            }
            let r1 = if lc_has(env.lc, prefix) {
                define_spec(env, st1, prefix)
            } else {
                DefineResult::Done(st1)
            };
            let r2 = if lc_has(env.lc, prefix) {
                define_spec(env, st2, prefix)
            } else {
                DefineResult::Done(st2)
            };
            match (r1, r2) {
                (DefineResult::Done(a), DefineResult::Done(b)) => {
                    let st1c = absorb(st1, a);
                    let st2c = absorb(st2, b);
                    assert(st1c =~= a);
                    assert(st2c =~= b);
                    // either the prefix is no local key, or it is now
                    // complete: its entry reads the same in both runs
                    assert(st1c.terms.contains_key(prefix) == st2c.terms.contains_key(prefix));
                    if st1c.terms.contains_key(prefix) {
                        assert(st1c.terms[prefix] == st2c.terms[prefix]);
                    }
                },
                _ => {},
            }
        },
        None => {},
    }
}

/// See [`lemma_define_pair`]; the resolver.
proof fn lemma_pair_expand(
    env: ResolutionEnv,
    st1: ResolutionState,
    st2: ResolutionState,
    value: Seq<char>,
    relative: bool,
    vocab: bool,
)
    requires
        lookup_agree(env.lc, st1, st2),
    ensures
        expand_pair_post(
            env.lc,
            st1,
            st2,
            expand_spec(env, st1, value, relative, vocab),
            expand_spec(env, st2, value, relative, vocab),
        ),
    decreases crate::define::undefined_count(env.lc, st1.defined), 1int,
{
    if spec_is_keyword(value) {
    } else {
        let forced = lc_has(env.lc, value) && !(st1.defined.contains_key(value)
            && st1.defined[value]);
        if forced {
            lemma_define_pair(env, st1, st2, value);
            lemma_define_grow(env, st1, value);
            lemma_define_grow(env, st2, value);
        }
        let r1 = if forced {
            define_spec(env, st1, value)
        } else {
            DefineResult::Done(st1)
        };
        let r2 = if forced {
            define_spec(env, st2, value)
        } else {
            DefineResult::Done(st2)
        };
        match (r1, r2) {
            (DefineResult::Done(a), DefineResult::Done(b)) => {
                let st1c = absorb(st1, a);
                let st2c = absorb(st2, b);
                assert(st1c =~= a);
                assert(st2c =~= b);
                assert(st1c.terms.contains_key(value) == st2c.terms.contains_key(value));
                if st1c.terms.contains_key(value) {
                    assert(st1c.terms[value] == st2c.terms[value]);
                }
                match first_colon(value) {
                    Some(i) => {
                        let prefix = value.take(i);
                        let forced2 = lc_has(env.lc, prefix) && !(st1c.defined.contains_key(prefix)
                            && st1c.defined[prefix]);
                        if forced2 {
                            crate::define::lemma_undefined_count_mono(
                                env.lc,
                                st1.defined,
                                st1c.defined,
                            );
                            lemma_define_pair(env, st1c, st2c, prefix);
                            lemma_define_grow(env, st1c, prefix);
                            lemma_define_grow(env, st2c, prefix);
                        }
                        let q1 = if forced2 {
                            define_spec(env, st1c, prefix)
                        } else {
                            DefineResult::Done(st1c)
                        };
                        let q2 = if forced2 {
                            define_spec(env, st2c, prefix)
                        } else {
                            DefineResult::Done(st2c)
                        };
                        match (q1, q2) {
                            (DefineResult::Done(c), DefineResult::Done(d)) => {
                                let st1d = absorb(st1c, c);
                                let st2d = absorb(st2c, d);
                                assert(st1d =~= c);
                                assert(st2d =~= d);
                                assert(st1d.terms.contains_key(prefix) == st2d.terms.contains_key(
                                    prefix,
                                ));
                                if st1d.terms.contains_key(prefix) {
                                    assert(st1d.terms[prefix] == st2d.terms[prefix]);
                                }
                                lemma_untouched_trans(env.lc, st1, st1c, st1d);
                                lemma_untouched_trans(env.lc, st2, st2c, st2d);
                            },
                            _ => {},
                        }
                    },
                    None => {},
                }
            },
            _ => {},
        }
    }
}


/// See [`lemma_define_pair`]; a whole fragment's definitions run in
/// lockstep, every non-directive key ends complete, and completed
/// keys stay complete.
proof fn lemma_define_all_pair(
    env: ResolutionEnv,
    st1: ResolutionState,
    st2: ResolutionState,
    entries: Seq<(String, JsonValue)>,
    i: int,
)
    requires
        env.lc == entries,
        0 <= i <= entries.len(),
        lookup_agree(env.lc, st1, st2),
    ensures
        ({
            let r1 = define_all_spec(env, st1, entries, i);
            let r2 = define_all_spec(env, st2, entries, i);
            match (r1, r2) {
                (DefineResult::Done(a), DefineResult::Done(b)) => {
                    &&& lookup_agree(env.lc, a, b)
                    &&& untouched_outside(env.lc, st1, a)
                    &&& untouched_outside(env.lc, st2, b)
                    &&& forall|j: int|
                        i <= j < entries.len() && !spec_is_directive(#[trigger] entries[j].0@)
                            ==> a.defined.contains_key(entries[j].0@)
                                && a.defined[entries[j].0@] == true
                    &&& forall|k: Seq<char>|
                        st1.defined.contains_key(k) && #[trigger] st1.defined[k]
                            ==> a.defined.contains_key(k) && a.defined[k] == true
                },
                (DefineResult::Fail(e1), DefineResult::Fail(e2)) => e1 == e2,
                _ => false,
            }
        }),
    decreases entries.len() - i,
{
    if i >= entries.len() {
    } else if spec_is_directive(entries[i].0@) {
        lemma_define_all_pair(env, st1, st2, entries, i + 1);
    } else {
        let key = entries[i].0@;
        lemma_define_pair(env, st1, st2, key);
        lemma_define_grow(env, st1, key);
        lemma_define_grow(env, st2, key);
        match (define_spec(env, st1, key), define_spec(env, st2, key)) {
            (DefineResult::Done(a0), DefineResult::Done(b0)) => {
                lemma_define_all_pair(env, a0, b0, entries, i + 1);
                match (
                    define_all_spec(env, a0, entries, i + 1),
                    define_all_spec(env, b0, entries, i + 1),
                ) {
                    (DefineResult::Done(a), DefineResult::Done(b)) => {
                        lemma_untouched_trans(env.lc, st1, a0, a);
                        lemma_untouched_trans(env.lc, st2, b0, b);
                        assert(a0.defined.contains_key(key) && a0.defined[key]);
                        assert(a.defined.contains_key(key) && a.defined[key] == true);
                    },
                    _ => {},
                }
            },
            _ => {},
        }
    }
}

/// Idempotence: an object fragment whose terms a first pass has
/// already fully defined changes nothing when processed a second time
/// — provided the fragment does not move the base on every pass, that
/// is, its `@base` entry (if any, and honoured) is not a relative
/// reference over an existing base.
pub proof fn object_fragment_idempotent(
    ctx: SpecContext,
    entries: Seq<(String, JsonValue)>,
    remote_empty: bool,
    c1: SpecContext,
)
    requires
        process_object_spec(ctx, entries, remote_empty) == Ok::<SpecContext, JsonLdError>(c1),
        remote_empty ==> (match lc_get(entries, "@base"@) {
            Some(JsonValue::Str(s)) => spec_is_absolute_iri(s@) || ctx.base is None,
            _ => true,
        }),
    ensures
        process_object_spec(c1, entries, remote_empty) == Ok::<SpecContext, JsonLdError>(c1),
{
    match base_directive_spec(ctx.base, entries, remote_empty) {
        Err(_) => {
            assert(false);
        },
        Ok(b1) => {
            assert(base_directive_spec(b1, entries, remote_empty) == Ok::<
                Option<Seq<char>>,
                JsonLdError,
            >(b1));
            match vocab_directive_spec(ctx.vocab, entries) {
                Err(_) => {
                    assert(false);
                },
                Ok(v1) => {
                    assert(vocab_directive_spec(v1, entries) == Ok::<
                        Option<Seq<char>>,
                        JsonLdError,
                    >(v1));
                    match language_directive_spec(ctx.default_language, entries) {
                        Err(_) => {
                            assert(false);
                        },
                        Ok(l1) => {
                            assert(language_directive_spec(l1, entries) == Ok::<
                                Option<Seq<char>>,
                                JsonLdError,
                            >(l1));
                            let env = ResolutionEnv { base: b1, vocab: v1, lc: entries };
                            let st_a = ResolutionState { terms: ctx.terms, defined: Map::empty() };
                            let st_b = ResolutionState { terms: c1.terms, defined: Map::empty() };
                            match define_all_spec(env, st_a, entries, 0) {
                                DefineResult::Fail(_) => {
                                    assert(false);
                                },
                                DefineResult::Done(fa) => {
                                    assert(c1.terms == fa.terms);
                                    lemma_define_all_pair(env, st_a, st_a, entries, 0);
                                    assert forall|k: Seq<char>|
                                        (!lc_has(entries, k) || (st_a.defined.contains_key(k)
                                            && st_a.defined[k])) implies {
                                        &&& (#[trigger] st_a.terms.contains_key(k))
                                            == st_b.terms.contains_key(k)
                                        &&& (st_a.terms.contains_key(k) ==> st_a.terms[k]
                                            == st_b.terms[k])
                                    } by {
                                        assert(untouched_outside(entries, st_a, fa));
                                        assert(!lc_has(entries, k));
                                        assert(st_a.terms.contains_key(k) == fa.terms.contains_key(
                                            k,
                                        ));
                                    }
                                    assert(lookup_agree(entries, st_a, st_b));
                                    lemma_define_all_pair(env, st_a, st_b, entries, 0);
                                    match define_all_spec(env, st_b, entries, 0) {
                                        DefineResult::Fail(_) => {
                                            assert(false);
                                        },
                                        DefineResult::Done(fb) => {
                                            assert forall|k: Seq<char>| {
                                                &&& (#[trigger] fa.terms.contains_key(k))
                                                    == fb.terms.contains_key(k)
                                                &&& (fa.terms.contains_key(k) ==> fa.terms[k]
                                                    == fb.terms[k])
                                            } by {
                                                if lc_has(entries, k) && !spec_is_keyword(k) {
                                                    lemma_lc_get_exists(entries, k, 0);
                                                    let j = choose|j: int|
                                                        0 <= j < entries.len()
                                                            && #[trigger] entries[j].0@ == k;
                                                    assert(!spec_is_directive(entries[j].0@));
                                                    assert(fa.defined.contains_key(k)
                                                        && fa.defined[k]);
                                                } else {
                                                    assert(untouched_outside(entries, st_b, fb));
                                                    assert(fb.terms.contains_key(k)
                                                        == st_b.terms.contains_key(k));
                                                }
                                            }
                                            assert(fa.terms.dom() =~= fb.terms.dom());
                                            assert(fb.terms =~= fa.terms);
                                            assert(process_object_spec(c1, entries, remote_empty)
                                                == Ok::<SpecContext, JsonLdError>(
                                                SpecContext {
                                                    base: b1,
                                                    vocab: v1,
                                                    default_language: l1,
                                                    terms: fb.terms,
                                                },
                                            ));
                                            assert(c1 =~= SpecContext {
                                                base: b1,
                                                vocab: v1,
                                                default_language: l1,
                                                terms: fb.terms,
                                            });
                                        },
                                    }
                                },
                            }
                        },
                    }
                },
            }
        },
    }
}


/// A `null` payload defines the term as intentionally undefined: the
/// definition is stored without an identifier mapping and the term is
/// marked complete, suppressing any inherited definition.
pub proof fn null_payload_defines_intentional_undefine(
    env: ResolutionEnv,
    st: ResolutionState,
    term: Seq<char>,
)
    requires
        !spec_is_keyword(term),
        !st.defined.contains_key(term),
        lc_get(env.lc, term) == Some(JsonValue::Null),
    ensures
        define_spec(env, st, term) == DefineResult::Done(
            ResolutionState {
                terms: st.terms.remove(term).insert(term, null_spec_term()),
                defined: st.defined.insert(term, true),
            },
        ),
{
    assert(st.defined.insert(term, false).insert(term, true) =~= st.defined.insert(term, true));
}

/// A term intentionally defined as null resolves to the explicit
/// no-mapping answer — distinct from an absent term, which would be
/// completed against the vocabulary.
pub proof fn null_definition_resolves_to_no_mapping(
    ctx: SpecContext,
    term: Seq<char>,
    relative: bool,
)
    requires
        !spec_is_keyword(term),
        ctx.terms.contains_key(term),
        ctx.terms[term].iri_mapping is None,
    ensures
        resolve_spec(ctx, term, relative, true) is None,
{
}

} // verus!
