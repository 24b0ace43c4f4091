use mediaproxy_model::{OutputFormat, QueryFingerprintConversionError, ResizeStrategy};

#[test]
fn format_tokens_are_canonical_lowercase() {
    assert_eq!(OutputFormat::Jpeg.as_token(), "jpeg");
    assert_eq!(OutputFormat::Png.as_token(), "png");
    assert_eq!(OutputFormat::WebP.as_token(), "webp");
    assert_eq!(OutputFormat::Gif.as_token(), "gif");
}

#[test]
fn resize_tokens_are_canonical_lowercase() {
    assert_eq!(ResizeStrategy::Contain.as_token(), "contain");
    assert_eq!(ResizeStrategy::Crop.as_token(), "crop");
    assert_eq!(ResizeStrategy::Stretch.as_token(), "stretch");
}

#[test]
fn format_from_token_accepts_canonical_tokens_and_the_alias() {
    assert_eq!(OutputFormat::from_token("jpeg").unwrap(), OutputFormat::Jpeg);
    assert_eq!(OutputFormat::from_token("jpg").unwrap(), OutputFormat::Jpeg);
    assert_eq!(OutputFormat::from_token("png").unwrap(), OutputFormat::Png);
    assert_eq!(OutputFormat::from_token("webp").unwrap(), OutputFormat::WebP);
    assert_eq!(OutputFormat::from_token("gif").unwrap(), OutputFormat::Gif);
}

#[test]
fn format_from_token_rejects_everything_else() {
    for bad in ["", "bmp", "JPEG", "jpeg ", "tiff", "jp"] {
        match OutputFormat::from_token(bad) {
            Err(QueryFingerprintConversionError::UnrecognizedVariant { token, enumeration }) => {
                assert_eq!(token, bad);
                assert_eq!(enumeration, "OutputFormat");
            },
            other => panic!("expected an unrecognized variant for {:?}, got {:?}", bad, other),
        }
    }
}

#[test]
fn resize_from_token_accepts_only_canonical_tokens() {
    assert_eq!(
        ResizeStrategy::from_token("contain").unwrap(),
        ResizeStrategy::Contain
    );
    assert_eq!(ResizeStrategy::from_token("crop").unwrap(), ResizeStrategy::Crop);
    assert_eq!(
        ResizeStrategy::from_token("stretch").unwrap(),
        ResizeStrategy::Stretch
    );
    for bad in ["", "fit", "cover", "Crop", "CONTAIN"] {
        match ResizeStrategy::from_token(bad) {
            Err(QueryFingerprintConversionError::UnrecognizedVariant { token, enumeration }) => {
                assert_eq!(token, bad);
                assert_eq!(enumeration, "ResizeStrategy");
            },
            other => panic!("expected an unrecognized variant for {:?}, got {:?}", bad, other),
        }
    }
}

#[test]
fn defaults_apply_only_when_nothing_was_supplied() {
    assert_eq!(OutputFormat::default(), OutputFormat::Jpeg);
    assert_eq!(ResizeStrategy::default(), ResizeStrategy::Crop);
}
