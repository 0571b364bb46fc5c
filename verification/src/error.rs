//! The protocol-level error type shared by every parsing and conversion entry
//! point of the crate.

use vstd::prelude::*;

verus! {

/// Reserved code for a payload that cannot be decoded or re-encoded.
pub const PARSE_ERROR: i64 = -32700;

/// Reserved code for a malformed or truncated request.
pub const INVALID_REQUEST: i64 = -32600;

/// JSON-RPC protocol error: a reserved or method-defined code, a
/// human-friendly message, and optional diagnostic data echoing the
/// offending input.
#[derive(Debug, Clone, PartialEq)]
pub struct Error {
    /// Error code.
    pub code: i64,
    /// Human-friendly message.
    pub message: String,
    /// Underlying data.
    pub data: Option<serde_json::Value>,
}

} // verus!
