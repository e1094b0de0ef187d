//! A linked-data context resolution engine.
//!
//! A *context* maps short terms to absolute identifiers, together with
//! per-term typing and pluralization hints.  This crate builds such a
//! context from one or more JSON context fragments: it extracts the
//! `@base`, `@vocab` and `@language` directives, creates a validated
//! term definition for every remaining key (resolving forward references
//! and compact identifiers lazily, and detecting cyclic definitions),
//! and exposes the identifier resolver for values outside term
//! definitions.

pub mod context;
pub mod define;
mod error;
pub mod iri;
pub mod json;
pub mod laws;
mod options;
pub mod process;
mod remote_document;
pub mod strutil;
pub mod term;
pub mod urls;

pub use context::{Context, SpecContext};
pub use error::JsonLdError;
pub use iri::{is_absolute_iri, is_keyword, is_relative_iri};
pub use json::JsonValue;
pub use options::JsonLdOptions;
pub use remote_document::{DocumentLoader, RemoteDocument};
pub use term::{LanguageMapping, SpecTerm, Term};
