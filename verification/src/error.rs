use vstd::prelude::*;

verus! {

/// Why a fingerprint could not be turned back into a `Query`.
///
/// Decoding proceeds in stages, and each stage has its own failure kind so
/// that callers can branch on the kind without matching message text:
/// base64 first, then UTF-8, then the canonical JSON grammar, and last the
/// closed enumerations.
#[derive(Debug)]
pub enum QueryFingerprintConversionError {
    /// The input is not valid unpadded URL-safe base64.
    Base64Error { detail: String },
    /// The decoded bytes are not valid UTF-8 text.
    UnicodeError { detail: String },
    /// The decoded text is not a well-formed instance of the canonical
    /// JSON grammar (wrong shape, missing field, bad number).
    JsonError { detail: String },
    /// A field held a syntactically valid but unknown enumerated token.
    UnrecognizedVariant { token: String, enumeration: String },
}

/// The diagnostic line that `message` returns for each failure kind.
pub open spec fn message_of(e: &QueryFingerprintConversionError) -> Seq<char> {
    match e {
        QueryFingerprintConversionError::Base64Error { .. } => {
            "Something went wrong when decoding Base64."@
        },
        QueryFingerprintConversionError::UnicodeError { .. } => {
            "Could not convert byte array to string!"@
        },
        QueryFingerprintConversionError::JsonError { .. } => {
            "Something went wrong when (de)serializing JSON."@
        },
        QueryFingerprintConversionError::UnrecognizedVariant { .. } => {
            "Unrecognized enumeration token."@
        },
    }
}

impl QueryFingerprintConversionError {
    /// A short human-readable description of the failure kind.
    pub fn message(&self) -> (r: String)
        ensures
            r@ == message_of(self),
    {
        match self {
            QueryFingerprintConversionError::Base64Error { .. } => {
                "Something went wrong when decoding Base64.".to_owned()
            },
            QueryFingerprintConversionError::UnicodeError { .. } => {
                "Could not convert byte array to string!".to_owned()
            },
            QueryFingerprintConversionError::JsonError { .. } => {
                "Something went wrong when (de)serializing JSON.".to_owned()
            },
            QueryFingerprintConversionError::UnrecognizedVariant { .. } => {
                "Unrecognized enumeration token.".to_owned()
            },
        }
    }
}

} // verus!
