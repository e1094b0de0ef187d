//! The error taxonomy of context processing.
//!
//! Every failure is terminal for the in-flight processing call: no
//! partial context is ever returned.

use vstd::prelude::*;

verus! {

/// A tagged error identifying which context-processing rule was violated.
#[derive(Clone, Copy, Debug, PartialEq, Eq, Structural)]
pub enum JsonLdError {
    /// The supplied base identifier is not an absolute identifier.
    InvalidBaseIRI,
    /// An `@vocab` directive holds something other than null or an
    /// absolute identifier.
    InvalidVocabMapping,
    /// An `@language` directive holds something other than null or a string.
    InvalidDefaultLanguage,
    /// A context fragment is neither null, a string, nor an object.
    InvalidLocalContext,
    /// A keyword was used as a term in a term definition.
    KeywordRedefinition,
    /// A term definition transitively depends on itself.
    CyclicIdentifierMapping,
    /// A term-definition payload is not a string, an object, or otherwise
    /// well-formed.
    InvalidTermDefinition,
    /// An `@type` entry does not resolve to `@id`, `@vocab`, or an
    /// absolute identifier.
    InvalidTypeMapping,
    /// An `@reverse` entry is combined with `@id`/`@nest`, or carries an
    /// unsupported container.
    InvalidReverseProperty,
    /// A term cannot be given an identifier mapping, or an `@id`/`@reverse`
    /// value does not resolve to an acceptable identifier.
    InvalidIdentifierMapping,
    /// A remote context reference cycles back to an already-loaded context.
    RecursiveContextInclusion,
    /// The injected document loader failed to retrieve a remote context.
    LoadingRemoteContextFailed,
}

} // verus!
