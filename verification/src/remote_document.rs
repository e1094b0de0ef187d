//! Remote context documents and the injected capability that loads them.

use vstd::prelude::*;
use crate::error::JsonLdError;
use crate::json::JsonValue;

verus! {

/// A dereferenced remote document.
pub struct RemoteDocument {
    /// The retrieved document.
    pub document: JsonValue,
    /// The final URL of the document, after redirects.
    pub document_url: String,
    /// A context URL delivered alongside the document, if any.
    pub context_url: Option<String>,
}

/// The injected document-loading capability.  Only string context
/// fragments are dereferenced through it; a failure propagates as a
/// context-processing error.  Nothing is assumed of what it returns:
/// the engine validates every loaded document like an inline one.
pub trait DocumentLoader {
    /// Dereferences `url` into a remote document.
    fn load(&mut self, url: &String) -> Result<RemoteDocument, JsonLdError>;
}

} // verus!
