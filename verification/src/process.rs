//! The context builder: folding context fragments, in order, onto an
//! existing context.
//!
//! These functions are the exact specification of what processing
//! fragments does, as far as it is a function of the inputs: a `null`
//! fragment resets to the base, an object fragment applies its
//! directives and defines its terms.  What a string fragment means
//! depends on the injected document loader, so the executable builder
//! promises equality with [`process_fragments_spec`] only for fragment
//! lists without strings, and well-formedness always.

use vstd::prelude::*;
use crate::context::{spec_context_from_base, wf_terms, SpecContext};
use crate::define::{
    define_spec, lemma_define_grow, DefineResult, ResolutionEnv, ResolutionState,
};
use crate::error::JsonLdError;
use crate::iri::{spec_is_absolute_iri, spec_is_relative_iri};
use crate::json::{lc_get, JsonValue};
use crate::urls::{lower_of, url_join_of, url_parse_of};

verus! {

/// The fragments a local-context value denotes: an array is the list
/// of its elements, anything else a one-element list.
pub open spec fn fragments_of(v: JsonValue) -> Seq<JsonValue> {
    match v {
        JsonValue::Array(a) => a@,
        _ => seq![v],
    }
}

/// A fragment worklist read back to front: the executable builder
/// keeps pending fragments on a stack whose top is the next fragment.
pub open spec fn rev_frags(s: Seq<JsonValue>) -> Seq<JsonValue>
    decreases s.len(),
{
    if s.len() == 0 {
        Seq::empty()
    } else {
        seq![s.last()] + rev_frags(s.drop_last())
    }
}

/// Whether no fragment is a remote-context reference.
pub open spec fn no_string_fragment(frags: Seq<JsonValue>) -> bool {
    forall|i: int| 0 <= i < frags.len() ==> !((#[trigger] frags[i]) is Str)
}

/// Whether `key` is one of the directive keys an object fragment is
/// scanned for before its term definitions.
pub open spec fn spec_is_directive(key: Seq<char>) -> bool {
    key == "@base"@ || key == "@vocab"@ || key == "@language"@
}

/// What an object fragment's `@base` directive leaves as base: the
/// directive is ignored in remotely-loaded fragments; null clears;
/// an absolute string is parsed; a relative string resolves against
/// the current base, or is ignored without one.
pub open spec fn base_directive_spec(
    base: Option<Seq<char>>,
    entries: Seq<(String, JsonValue)>,
    remote_empty: bool,
) -> Result<Option<Seq<char>>, JsonLdError> {
    if !remote_empty {
        Ok(base)
    } else {
        match lc_get(entries, "@base"@) {
            None => Ok(base),
            Some(JsonValue::Null) => Ok(None),
            Some(JsonValue::Str(s)) => if spec_is_absolute_iri(s@) {
                match url_parse_of(s@) {
                    Some(b) => Ok(Some(b)),
                    None => Err(JsonLdError::InvalidBaseIRI),
                }
            } else if base is Some && spec_is_relative_iri(s@) {
                match url_join_of(crate::define::opt_or_empty(base), s@) {
                    Some(b) => Ok(Some(b)),
                    None => Err(JsonLdError::InvalidBaseIRI),
                }
            } else {
                Ok(base)
            },
            Some(_) => Err(JsonLdError::InvalidBaseIRI),
        }
    }
}

/// What an object fragment's `@vocab` directive leaves as vocabulary:
/// null clears, an absolute-identifier string sets, anything else is
/// invalid.
pub open spec fn vocab_directive_spec(
    vocab: Option<Seq<char>>,
    entries: Seq<(String, JsonValue)>,
) -> Result<Option<Seq<char>>, JsonLdError> {
    match lc_get(entries, "@vocab"@) {
        None => Ok(vocab),
        Some(JsonValue::Null) => Ok(None),
        Some(JsonValue::Str(s)) => if spec_is_absolute_iri(s@) {
            Ok(Some(s@))
        } else {
            Err(JsonLdError::InvalidVocabMapping)
        },
        Some(_) => Err(JsonLdError::InvalidVocabMapping),
    }
}

/// What an object fragment's `@language` directive leaves as default
/// language: null clears, a string is lower-cased and stored, anything
/// else is invalid.
pub open spec fn language_directive_spec(
    language: Option<Seq<char>>,
    entries: Seq<(String, JsonValue)>,
) -> Result<Option<Seq<char>>, JsonLdError> {
    match lc_get(entries, "@language"@) {
        None => Ok(language),
        Some(JsonValue::Null) => Ok(None),
        Some(JsonValue::Str(s)) => Ok(Some(lower_of(s@))),
        Some(_) => Err(JsonLdError::InvalidDefaultLanguage),
    }
}

/// Defines every non-directive key of the fragment from position `i`
/// on, in order, against one shared defined-state map.
pub open spec fn define_all_spec(
    env: ResolutionEnv,
    st: ResolutionState,
    entries: Seq<(String, JsonValue)>,
    i: int,
) -> DefineResult
    decreases entries.len() - i,
    when 0 <= i <= entries.len()
{
    if i >= entries.len() {
        DefineResult::Done(st)
    } else if spec_is_directive(entries[i].0@) {
        define_all_spec(env, st, entries, i + 1)
    } else {
        match define_spec(env, st, entries[i].0@) {
            DefineResult::Done(st2) => define_all_spec(env, st2, entries, i + 1),
            DefineResult::Fail(e) => DefineResult::Fail(e),
        }
    }
}

/// Defining every key preserves well-formedness of the term table.
pub proof fn lemma_define_all_wf(
    env: ResolutionEnv,
    st: ResolutionState,
    entries: Seq<(String, JsonValue)>,
    i: int,
)
    requires
        0 <= i <= entries.len(),
        wf_terms(st.terms),
    ensures
        match define_all_spec(env, st, entries, i) {
            DefineResult::Done(st2) => wf_terms(st2.terms),
            DefineResult::Fail(_) => true,
        },
    decreases entries.len() - i,
{
    if i >= entries.len() {
    } else if spec_is_directive(entries[i].0@) {
        lemma_define_all_wf(env, st, entries, i + 1);
    } else {
        lemma_define_grow(env, st, entries[i].0@);
        match define_spec(env, st, entries[i].0@) {
            DefineResult::Done(st2) => {
                lemma_define_all_wf(env, st2, entries, i + 1);
            },
            DefineResult::Fail(_) => {},
        }
    }
}

/// What processing one object fragment returns: the directives are
/// applied first, then every remaining key is defined against the
/// updated base and vocabulary, with a fresh defined-state map shared
/// across the fragment.
pub open spec fn process_object_spec(
    ctx: SpecContext,
    entries: Seq<(String, JsonValue)>,
    remote_empty: bool,
) -> Result<SpecContext, JsonLdError> {
    match base_directive_spec(ctx.base, entries, remote_empty) {
        Err(e) => Err(e),
        Ok(base) => match vocab_directive_spec(ctx.vocab, entries) {
            Err(e) => Err(e),
            Ok(vocab) => match language_directive_spec(ctx.default_language, entries) {
                Err(e) => Err(e),
                Ok(language) => {
                    let env = ResolutionEnv { base, vocab, lc: entries };
                    let st = ResolutionState { terms: ctx.terms, defined: Map::empty() };
                    match define_all_spec(env, st, entries, 0) {
                        DefineResult::Done(st2) => Ok(
                            SpecContext { base, vocab, default_language: language, terms: st2.terms },
                        ),
                        DefineResult::Fail(e) => Err(e),
                    }
                },
            },
        },
    }
}

/// What processing one fragment returns.  A string fragment denotes a
/// remote context, whose meaning depends on the injected loader; this
/// specification is only ever applied to fragment lists without
/// strings, and gives the string arm a failure so it stays total.
pub open spec fn process_fragment_spec(
    ctx: SpecContext,
    frag: JsonValue,
    remote_empty: bool,
) -> Result<SpecContext, JsonLdError> {
    match frag {
        JsonValue::Null => Ok(spec_context_from_base(ctx.base)),
        JsonValue::Object(entries) => process_object_spec(ctx, entries@, remote_empty),
        JsonValue::Str(_) => Err(JsonLdError::LoadingRemoteContextFailed),
        _ => Err(JsonLdError::InvalidLocalContext),
    }
}

/// What processing a fragment list returns: each fragment's effects
/// compose onto the previous result, in order.
pub open spec fn process_fragments_spec(
    ctx: SpecContext,
    frags: Seq<JsonValue>,
    remote_empty: bool,
) -> Result<SpecContext, JsonLdError>
    decreases frags.len(),
{
    if frags.len() == 0 {
        Ok(ctx)
    } else {
        match process_fragment_spec(ctx, frags[0], remote_empty) {
            Ok(c) => process_fragments_spec(c, frags.skip(1), remote_empty),
            Err(e) => Err(e),
        }
    }
}

} // verus!
