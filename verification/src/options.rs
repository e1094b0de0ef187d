//! Construction options for a context-processing run.

use vstd::prelude::*;

verus! {

/// Options supplied by the embedder.  The document-loading capability
/// is passed separately, as an implementation of
/// [`crate::DocumentLoader`].
pub struct JsonLdOptions {
    /// The initial base identifier, validated on construction.
    pub base: Option<String>,
    /// Whether downstream compaction may collapse singleton arrays.
    pub compact_arrays: bool,
    /// A context applied ahead of expansion by downstream consumers.
    pub expand_context: Option<String>,
    /// The processing-mode tag, honoured by downstream consumers.
    pub processing_mode: Option<String>,
}

} // verus!
