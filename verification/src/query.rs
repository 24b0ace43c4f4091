use vstd::prelude::*;

verus! {

use vstd::utf8::{decode_utf8, encode_utf8, valid_utf8};
use crate::b64::{
    b64_decode_str, b64_encode_chars, b64_val, decode_b64, encode_b64, lemma_b64_round_trip,
    valid_b64,
};
use crate::error::QueryFingerprintConversionError;
use crate::fields::OutputFormat;
use crate::json::{
    json_of, lemma_json_round_trip, parse_json, parse_json_exec, render_json, JsonParse,
    ParsedText, QueryModel,
};
use crate::text::{chars_to_string, str_to_chars, utf8_to_string};

/// The default object that clients use to make requests to the proxy.
///
/// The codec never mutates a request; `width` and `height` carry presence
/// explicitly, and absence is preserved exactly through a round trip.
#[derive(Debug)]
pub struct Query {
    /// URL of the source image. Not validated at this layer: validation
    /// belongs to the downstream fetch and decode collaborators.
    pub source: String,
    /// The width of the processed image, when requested.
    pub width: Option<u32>,
    /// The height of the processed image, when requested.
    pub height: Option<u32>,
    /// Output format of the image.
    pub format: OutputFormat,
}

impl View for Query {
    type V = QueryModel;

    open spec fn view(&self) -> QueryModel {
        QueryModel {
            source: self.source@,
            width: self.width,
            height: self.height,
            format: self.format,
        }
    }
}

/// The fingerprint of a request value: the unpadded URL-safe base64 of the
/// UTF-8 bytes of its canonical JSON text.
pub open spec fn fingerprint_of(m: QueryModel) -> Seq<char> {
    encode_b64(encode_utf8(json_of(m)))
}

/// Every fingerprint is made of URL-safe base64 alphabet characters only
/// and never contains the padding character.
pub proof fn lemma_fingerprint_alphabet(m: QueryModel)
    ensures
        forall|i: int|
            0 <= i < fingerprint_of(m).len() ==> b64_val(#[trigger] fingerprint_of(m)[i]) >= 0
                && fingerprint_of(m)[i] != '=',
{
    lemma_b64_round_trip(encode_utf8(json_of(m)));
    assert(('=' as u32) == 0x3d);
    assert(b64_val('=') == -1);
}

/// Fingerprint round trip, stated over the codec's model: the fingerprint
/// of any request value is valid unpadded URL-safe base64, its decoded
/// bytes are valid UTF-8, and the decoded text parses back to exactly the
/// request value it came from.
pub proof fn lemma_fingerprint_round_trip(m: QueryModel)
    ensures
        valid_b64(fingerprint_of(m)),
        decode_b64(fingerprint_of(m)) == encode_utf8(json_of(m)),
        valid_utf8(decode_b64(fingerprint_of(m))),
        decode_utf8(decode_b64(fingerprint_of(m))) == json_of(m),
        parse_json(decode_utf8(decode_b64(fingerprint_of(m)))) == JsonParse::Value(m),
{
    lemma_b64_round_trip(encode_utf8(json_of(m)));
    vstd::utf8::encode_utf8_valid_utf8(json_of(m));
    vstd::utf8::encode_utf8_decode_utf8(json_of(m));
    lemma_json_round_trip(m);
}

/// Determinism: the fingerprint is a function of the request value alone,
/// so logically equal requests always produce the identical string.
pub proof fn lemma_fingerprint_deterministic(a: QueryModel, b: QueryModel)
    requires
        a == b,
    ensures
        fingerprint_of(a) == fingerprint_of(b),
{
}

/// Collision resistance by construction: logically different requests
/// always produce different strings, since each fingerprint parses back to
/// the one request value it came from.
pub proof fn lemma_fingerprint_injective(a: QueryModel, b: QueryModel)
    requires
        fingerprint_of(a) == fingerprint_of(b),
    ensures
        a == b,
{
    lemma_fingerprint_round_trip(a);
    lemma_fingerprint_round_trip(b);
}

impl Query {
    /// Convert a `Query` to a fingerprint: the unpadded URL-safe base64 of
    /// the UTF-8 bytes of the canonical JSON text of the request.
    ///
    /// The result is fully determined by the request value, so repeated
    /// calls on equal requests yield the identical string.
    pub fn to_fingerprint(self: &Self) -> (r: String)
        ensures
            r@ == fingerprint_of(self@),
    {
        let json = render_json(self.source.as_str(), self.width, self.height, self.format);
        b64_encode_chars(&json)
    }

    /// Create a `Query` from a base64 encoded fingerprint. Fingerprints can
    /// be created with `Query::to_fingerprint`.
    ///
    /// Decoding proceeds in stages and reports the stage that failed:
    /// base64 first, then UTF-8, then the canonical JSON grammar, and last
    /// the closed format enumeration. Decoding the fingerprint of any
    /// request value recovers that value exactly.
    pub fn from_fingerprint(fingerprint: String) -> (r: Result<
        Query,
        QueryFingerprintConversionError,
    >)
        ensures
            r is Ok <==> (valid_b64(fingerprint@) && valid_utf8(decode_b64(fingerprint@))
                && parse_json(decode_utf8(decode_b64(fingerprint@))) is Value),
            r matches Ok(q) ==> parse_json(decode_utf8(decode_b64(fingerprint@)))
                == JsonParse::Value(q@),
            r matches Err(e) ==> ((e is Base64Error) <==> !valid_b64(fingerprint@)),
            r matches Err(e) ==> ((e is UnicodeError) <==> (valid_b64(fingerprint@) && !valid_utf8(
                decode_b64(fingerprint@),
            ))),
            r matches Err(e) ==> ((e is JsonError) <==> (valid_b64(fingerprint@) && valid_utf8(
                decode_b64(fingerprint@),
            ) && parse_json(decode_utf8(decode_b64(fingerprint@))) is Malformed)),
            r matches Err(e) ==> ((e is UnrecognizedVariant) <==> (valid_b64(fingerprint@)
                && valid_utf8(decode_b64(fingerprint@)) && parse_json(
                decode_utf8(decode_b64(fingerprint@)),
            ) is Unknown)),
            r matches Err(e) ==> (e matches QueryFingerprintConversionError::UnrecognizedVariant {
                token,
                ..
            } ==> parse_json(decode_utf8(decode_b64(fingerprint@))) == JsonParse::Unknown(token@)),
            forall|m: QueryModel|
                fingerprint@ == fingerprint_of(m) ==> (r matches Ok(q) && q@ == m),
    {
        let bytes = match b64_decode_str(fingerprint.as_str()) {
            Ok(b) => b,
            Err(detail) => {
                proof {
                    assert forall|m: QueryModel| fingerprint@ != fingerprint_of(m) by {
                        lemma_fingerprint_round_trip(m);
                    }
                }
                return Err(QueryFingerprintConversionError::Base64Error { detail });
            },
        };
        let text = match utf8_to_string(bytes) {
            Ok(t) => t,
            Err(detail) => {
                proof {
                    assert forall|m: QueryModel| fingerprint@ != fingerprint_of(m) by {
                        lemma_fingerprint_round_trip(m);
                    }
                }
                return Err(QueryFingerprintConversionError::UnicodeError { detail });
            },
        };
        let chars = str_to_chars(text.as_str());
        match parse_json_exec(&chars) {
            ParsedText::Value { source, width, height, format } => {
                let q = Query { source: chars_to_string(&source), width, height, format };
                proof {
                    assert forall|m: QueryModel| fingerprint@ == fingerprint_of(m) implies q@
                        =~= m by {
                        lemma_fingerprint_round_trip(m);
                    }
                }
                Ok(q)
            },
            ParsedText::UnknownToken { token } => {
                proof {
                    assert forall|m: QueryModel| fingerprint@ != fingerprint_of(m) by {
                        lemma_fingerprint_round_trip(m);
                    }
                }
                Err(
                    QueryFingerprintConversionError::UnrecognizedVariant {
                        token: chars_to_string(&token),
                        enumeration: "OutputFormat".to_owned(),
                    },
                )
            },
            ParsedText::Malformed => {
                proof {
                    assert forall|m: QueryModel| fingerprint@ != fingerprint_of(m) by {
                        lemma_fingerprint_round_trip(m);
                    }
                }
                Err(
                    QueryFingerprintConversionError::JsonError {
                        detail: "the decoded text is not a canonical request object".to_owned(),
                    },
                )
            },
        }
    }
}

} // verus!
