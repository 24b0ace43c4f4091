use base64::Engine;
use mediaproxy_model::{
    ImageProcessingOutput, OutputFormat, Query, QueryFingerprintConversionError,
};

const DUMMY_FINGERPRINT: &str = "eyJzb3VyY2UiOiJodHRwczovL2R1bW15aW1hZ2UuY29tLzYwMHg0MDAvMDAwL2ZmZiIsIndpZHRoIjpudWxsLCJoZWlnaHQiOm51bGwsImZvcm1hdCI6ImpwZWcifQ";

fn b64(text: &str) -> String {
    base64::engine::general_purpose::URL_SAFE_NO_PAD.encode(text)
}

#[test]
fn query_to_fingerprint() {
    let query = Query {
        source: String::from("https://dummyimage.com/600x400/000/fff"),
        format: ImageProcessingOutput::Jpeg,
        width: None,
        height: None,
    };

    assert_eq!(query.to_fingerprint(), String::from(DUMMY_FINGERPRINT));
}

#[test]
fn fingerprint_to_query() {
    let fingerprint = String::from(DUMMY_FINGERPRINT);
    let query = Query::from_fingerprint(fingerprint).unwrap();
    assert_eq!(query.source, "https://dummyimage.com/600x400/000/fff");
}

#[test]
fn invalid_fingerprint() {
    let fingerprint = String::from("bruh"); // Perfectly fine base 64, not so fine JSON.
    let query = Query::from_fingerprint(fingerprint);
    assert_eq!(query.is_err(), true);
}

#[test]
fn encode_is_deterministic() {
    let query = Query {
        source: String::from("https://example.org/cat.png"),
        width: Some(320),
        height: None,
        format: OutputFormat::WebP,
    };
    let first = query.to_fingerprint();
    let second = query.to_fingerprint();
    assert_eq!(first, second);
}

#[test]
fn round_trip_preserves_every_field() {
    let query = Query {
        source: String::from("https://example.org/a b/ä☃.gif"),
        width: Some(0),
        height: Some(4294967295),
        format: OutputFormat::Gif,
    };
    let back = Query::from_fingerprint(query.to_fingerprint()).unwrap();
    assert_eq!(back.source, query.source);
    assert_eq!(back.width, Some(0));
    assert_eq!(back.height, Some(4294967295));
    assert_eq!(back.format, OutputFormat::Gif);
}

#[test]
fn round_trip_preserves_absence() {
    let query = Query {
        source: String::from(""),
        width: None,
        height: Some(1),
        format: OutputFormat::Png,
    };
    let back = Query::from_fingerprint(query.to_fingerprint()).unwrap();
    assert_eq!(back.source, "");
    assert_eq!(back.width, None);
    assert_eq!(back.height, Some(1));
    assert_eq!(back.format, OutputFormat::Png);
}

#[test]
fn round_trip_escapes_source() {
    let query = Query {
        source: String::from("quote \" slash \\ newline \n tab \t bell \u{7} end"),
        width: None,
        height: None,
        format: OutputFormat::Jpeg,
    };
    let back = Query::from_fingerprint(query.to_fingerprint()).unwrap();
    assert_eq!(back.source, query.source);
}

#[test]
fn fingerprint_alphabet_is_url_safe() {
    let query = Query {
        source: String::from("https://example.org/?q=a+b&r=c/d\u{1f}é"),
        width: Some(99),
        height: Some(100),
        format: OutputFormat::Jpeg,
    };
    let fingerprint = query.to_fingerprint();
    assert!(fingerprint.chars().all(|c| {
        c.is_ascii_alphanumeric() || c == '-' || c == '_'
    }));
    assert!(!fingerprint.contains('='));
}

#[test]
fn alias_jpg_decodes_to_jpeg_and_is_not_reemitted() {
    let text = "{\"source\":\"x\",\"width\":null,\"height\":null,\"format\":\"jpg\"}";
    let query = Query::from_fingerprint(b64(text)).unwrap();
    assert_eq!(query.format, OutputFormat::Jpeg);

    let reencoded = query.to_fingerprint();
    let bytes = base64::engine::general_purpose::URL_SAFE_NO_PAD
        .decode(&reencoded)
        .unwrap();
    let canonical = String::from_utf8(bytes).unwrap();
    assert!(canonical.contains("\"format\":\"jpeg\""));
    assert!(!canonical.contains("\"jpg\""));
}

#[test]
fn bad_alphabet_fails_at_base64_stage() {
    let result = Query::from_fingerprint(String::from("ab!c"));
    assert!(matches!(
        result,
        Err(QueryFingerprintConversionError::Base64Error { .. })
    ));
}

#[test]
fn padded_input_fails_at_base64_stage() {
    let padded = format!("{}=", b64("{\"a\":1}"));
    let result = Query::from_fingerprint(padded);
    assert!(matches!(
        result,
        Err(QueryFingerprintConversionError::Base64Error { .. })
    ));
}

#[test]
fn misaligned_length_fails_at_base64_stage() {
    let result = Query::from_fingerprint(String::from("abcde"));
    assert!(matches!(
        result,
        Err(QueryFingerprintConversionError::Base64Error { .. })
    ));
}

#[test]
fn invalid_utf8_fails_at_unicode_stage() {
    let fingerprint = base64::engine::general_purpose::URL_SAFE_NO_PAD.encode([0xffu8, 0xfe, 0x01]);
    let result = Query::from_fingerprint(fingerprint);
    assert!(matches!(
        result,
        Err(QueryFingerprintConversionError::UnicodeError { .. })
    ));
}

#[test]
fn bruh_fails_at_a_text_stage_not_a_crash() {
    // Valid base64 whose three decoded bytes are not UTF-8 text.
    let result = Query::from_fingerprint(String::from("bruh"));
    assert!(matches!(
        result,
        Err(QueryFingerprintConversionError::UnicodeError { .. })
    ));
}

#[test]
fn non_object_text_fails_at_json_stage() {
    let result = Query::from_fingerprint(b64("hello there"));
    assert!(matches!(
        result,
        Err(QueryFingerprintConversionError::JsonError { .. })
    ));
}

#[test]
fn missing_field_fails_at_json_stage() {
    let text = "{\"source\":\"x\",\"width\":null,\"height\":null}";
    let result = Query::from_fingerprint(b64(text));
    assert!(matches!(
        result,
        Err(QueryFingerprintConversionError::JsonError { .. })
    ));
}

#[test]
fn reordered_fields_fail_at_json_stage() {
    let text = "{\"width\":null,\"source\":\"x\",\"height\":null,\"format\":\"png\"}";
    let result = Query::from_fingerprint(b64(text));
    assert!(matches!(
        result,
        Err(QueryFingerprintConversionError::JsonError { .. })
    ));
}

#[test]
fn width_beyond_u32_fails_at_json_stage() {
    let text = "{\"source\":\"x\",\"width\":4294967296,\"height\":null,\"format\":\"png\"}";
    let result = Query::from_fingerprint(b64(text));
    assert!(matches!(
        result,
        Err(QueryFingerprintConversionError::JsonError { .. })
    ));
}

#[test]
fn trailing_text_fails_at_json_stage() {
    let text = "{\"source\":\"x\",\"width\":null,\"height\":null,\"format\":\"png\"}x";
    let result = Query::from_fingerprint(b64(text));
    assert!(matches!(
        result,
        Err(QueryFingerprintConversionError::JsonError { .. })
    ));
}

#[test]
fn unknown_format_fails_as_unrecognized_variant() {
    let text = "{\"source\":\"x\",\"width\":null,\"height\":null,\"format\":\"bmp\"}";
    let result = Query::from_fingerprint(b64(text));
    match result {
        Err(QueryFingerprintConversionError::UnrecognizedVariant { token, enumeration }) => {
            assert_eq!(token, "bmp");
            assert_eq!(enumeration, "OutputFormat");
        },
        other => panic!("expected an unrecognized variant, got {:?}", other),
    }
}

#[test]
fn uppercase_format_fails_as_unrecognized_variant() {
    let text = "{\"source\":\"x\",\"width\":null,\"height\":null,\"format\":\"JPEG\"}";
    let result = Query::from_fingerprint(b64(text));
    assert!(matches!(
        result,
        Err(QueryFingerprintConversionError::UnrecognizedVariant { .. })
    ));
}

#[test]
fn numeric_dimensions_round_trip_exactly() {
    let query = Query {
        source: String::from("s"),
        width: Some(600),
        height: Some(400),
        format: OutputFormat::Jpeg,
    };
    let fingerprint = query.to_fingerprint();
    let bytes = base64::engine::general_purpose::URL_SAFE_NO_PAD
        .decode(&fingerprint)
        .unwrap();
    let canonical = String::from_utf8(bytes).unwrap();
    assert_eq!(
        canonical,
        "{\"source\":\"s\",\"width\":600,\"height\":400,\"format\":\"jpeg\"}"
    );
    let back = Query::from_fingerprint(fingerprint).unwrap();
    assert_eq!(back.width, Some(600));
    assert_eq!(back.height, Some(400));
}

#[test]
fn error_messages_name_their_stage() {
    let base64_err = Query::from_fingerprint(String::from("!")).unwrap_err();
    assert_eq!(
        base64_err.message(),
        "Something went wrong when decoding Base64."
    );
    let unicode_err = Query::from_fingerprint(String::from("bruh")).unwrap_err();
    assert_eq!(
        unicode_err.message(),
        "Could not convert byte array to string!"
    );
    let json_err = Query::from_fingerprint(b64("nope")).unwrap_err();
    assert_eq!(
        json_err.message(),
        "Something went wrong when (de)serializing JSON."
    );
}
