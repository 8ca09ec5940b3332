//! Error types.  Transport failures are carried through unchanged; protocol
//! and format violations carry the offending markup or URL for diagnosis;
//! bounds violations carry the offending values.

use vstd::prelude::*;

verus! {

/// Declares reqwest's error type so transport failures can be carried through
/// the library's error enums unchanged.
#[verifier::external_type_specification]
#[verifier::external_body]
pub struct ExReqwestError(reqwest::Error);

/// Declares lopdf's error type so document failures can be carried through
/// the library's error enums unchanged.
#[verifier::external_type_specification]
#[verifier::external_body]
pub struct ExPdfError(lopdf::Error);

/// A failure while scraping or assembling content.
#[derive(Debug)]
pub enum ScraperError {
    /// A failure inside the document library.
    PdfError(lopdf::Error),
    /// A transport failure, supplied by the caller who performed the exchange.
    Request(reqwest::Error),
    /// The response body is not valid UTF-8, although the origin is
    /// contractually bound to emit it.
    NotUtf8,
    /// More than one element matched the redirect-form marker.
    AmbiguousRedirectForm,
    /// A required attribute of the redirect form or one of its fields is
    /// absent; carries the attribute's name and the offending raw markup.
    MissingFormAttribute { attribute: String, markup: Vec<u8> },
    /// A required attribute of the redirect form holds an unexpected value;
    /// carries the attribute's name, the value found, and the raw markup.
    BadFormAttribute { attribute: String, found: Vec<u8>, markup: Vec<u8> },
    /// The landing markup holds no page-count initialization marker; carries
    /// the landing URL and the full body.
    MissingPageCountMarker { url: Vec<u8>, body: Vec<u8> },
    /// The landing URL's origin has no registered scraper backend.
    UnsupportedSource { url: Vec<u8> },
    /// The inlined vector markup could not be parsed and rendered.
    MalformedMarkup,
    /// A fetched asset came without a content-type header; carries the
    /// asset's reference.
    MissingContentType { reference: Vec<u8> },
    /// A page index outside `1..=page_count` was requested.
    PageOutOfRange { page: u16, page_count: u16 },
    /// A document with zero pages cannot be assembled.
    NoPages,
    /// Merging would exhaust the document object-id space — a machine
    /// limit, not a protocol condition.
    TooManyObjects,
    /// An artifact's page tree changed shape under object renumbering, or
    /// lists the same page twice — a degenerate document structure.
    InconsistentPageTree,
    /// A multi-volume listing page held no volume entries.
    EmptyVolumeList,
}

/// A failure while establishing a session.
#[derive(Debug)]
pub enum LoginError {
    /// The login information was invalid.
    BadLogin,
    /// A transport failure, supplied by the caller who performed the exchange.
    Reqwest(reqwest::Error),
}

/// Any failure of the download pipeline.
#[derive(Debug)]
pub enum DigiDownloadError {
    Scraper(ScraperError),
    Login(LoginError),
    Request(reqwest::Error),
}

} // verus!
