//! Closed-world JSON-schema validation.
//!
//! The crate hardens a loosely written schema description so that every
//! object node rejects unknown keys and demands every declared key
//! (`strictify`), compiles the hardened description with an off-the-shelf
//! Draft 7 evaluator (`Schema`), and streams documents out of a paginated
//! search backend one at a time (`ElasticSearchDocumentIterator`).

pub mod json;
pub mod strictify;
pub mod es_document_iterator;
pub mod schema;
pub mod semantics;
