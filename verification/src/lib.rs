//! Retrieval and assembly of paginated vector-graphics content from a remote
//! content portal.
//!
//! The library buffers HTTP response bodies for repeated inspection, resolves
//! chains of auto-submitting redirect forms, dispatches a landing page to a
//! per-origin scraper backend, inlines page-scoped assets into vector markup,
//! renders pages to document artifacts, and merges the artifacts into one
//! cumulative paginated document.  All network traffic is performed by the
//! caller; the library works on plain values and states what it does in
//! contracts.

pub mod assembler;
pub mod book;
pub mod buffered_response;
pub mod encoding;
pub mod error;
pub mod lti_form;
pub mod pdf;
pub mod scan;
pub mod scraper;
pub mod svg_scraper;
