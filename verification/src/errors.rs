//! Error taxonomy for the taxon cache.

use vstd::prelude::*;

verus! {

/// Everything that can go wrong while building, persisting or loading a
/// taxon cache.
///
/// `NotFound` and `InvalidTaxId` are reserved for future operations and are
/// not raised by any current one; `RegexError` is reserved for a failure to
/// build the fixed reference-ID pattern, which cannot occur with the built-in
/// pattern.  `Io` is produced only by the callers that do the actual file
/// handling; the library itself never performs I/O.
#[derive(Debug, Clone)]
pub enum ASDBTaxonError {
    Io(String),
    InvalidTaxId(String),
    NotFound(i64),
    JSONParserError(String),
    IntParserError(String),
    RegexError(String),
}

impl ASDBTaxonError {
    /// A human-readable description of the error.
    pub fn message(&self) -> String {
        match self {
            ASDBTaxonError::Io(detail) => join_msg("IO error: ", detail.as_str()),
            ASDBTaxonError::InvalidTaxId(detail) => join_msg("Invalid TaxID: ", detail.as_str()),
            ASDBTaxonError::NotFound(id) => {
                join_msg("TaxID not found: ", crate::digits::i64_to_string(*id).as_str())
            },
            ASDBTaxonError::JSONParserError(detail) => {
                join_msg("Failed to parse cache document: ", detail.as_str())
            },
            ASDBTaxonError::IntParserError(detail) => {
                join_msg("Failed to parse int: ", detail.as_str())
            },
            ASDBTaxonError::RegexError(detail) => {
                join_msg("Failed to generate regex: ", detail.as_str())
            },
        }
    }
}

fn join_msg(prefix: &str, detail: &str) -> (r: String)
    ensures
        r@ == prefix@ + detail@,
{
    let mut out = prefix.to_owned();
    out.append(detail);
    out
}

} // verus!
