//! The error type of the library's computations.
use vstd::prelude::*;

verus! {

/// Errors produced while parsing, filtering, or validating index data.
#[derive(Debug)]
pub enum IndexError {
    /// XML parse failure (the rfc-index.xml or an RFC body).
    Xml(roxmltree::Error),
    /// Caller-supplied regular expression failed to compile.
    Regex(regex::Error),
    /// Resource not present (e.g. fetching the body of an unknown RFC).
    NotFound(String),
    /// Upstream payload or stored data didn't match the expected shape.
    Malformed(String),
}

} // verus!
