//! Request model and fingerprint codec for a media-transformation proxy.
//!
//! The library defines the closed vocabulary of transformation options
//! (`OutputFormat`, `ResizeStrategy`), the composite request record
//! (`Query`), and a deterministic, reversible encoding of a request into a
//! short URL-safe string: the fingerprint. A fingerprint is the unpadded
//! URL-safe base64 encoding of the UTF-8 bytes of a canonical JSON rendering
//! of the request, with a fixed field order, so that logically equal requests
//! always map to the identical string.

mod b64;
mod error;
mod fields;
mod json;
mod query;
mod text;

pub use b64::{b64_char, b64_val, decode_b64, encode_b64, lemma_b64_round_trip, valid_b64};

pub use error::QueryFingerprintConversionError;
pub use fields::OutputFormat;
pub use fields::OutputFormat as ImageProcessingOutput;
pub use fields::ResizeStrategy;
pub use fields::{format_token, parse_format_token, parse_resize_token, resize_token};
pub use json::{
    dec_digits, escape_char, escape_chars, json_of, json_text, lemma_alias_normalization,
    lemma_json_round_trip, lemma_parse_canonical, lemma_unknown_format, opt_u32_text, parse_json,
    JsonParse, QueryModel,
};
pub use query::{
    fingerprint_of, lemma_fingerprint_alphabet, lemma_fingerprint_deterministic,
    lemma_fingerprint_injective, lemma_fingerprint_round_trip, Query,
};
