use vstd::prelude::*;

verus! {

use crate::error::QueryFingerprintConversionError;

/// Output format of the processed image.
///
/// A closed enumeration: an unknown textual token never becomes a variant,
/// it fails during parsing. The canonical lowercase tokens are `jpeg`,
/// `png`, `webp` and `gif`; `jpg` is accepted as an input alias for `Jpeg`
/// but is never produced.
#[derive(Clone, Copy, Debug, PartialEq, Eq, Structural)]
pub enum OutputFormat {
    /// Output the media as JPEG.
    Jpeg,
    /// Output the media as a PNG file.
    Png,
    /// Encode the media with WebP.
    WebP,
    /// Encode the media as a GIF.
    Gif,
}

/// How to reconcile a non-matching aspect ratio with requested dimensions.
#[derive(Clone, Copy, Debug, PartialEq, Eq, Structural)]
pub enum ResizeStrategy {
    /// Scale to the largest size that fits entirely within the target box.
    Contain,
    /// Scale and crop to exactly fill the target box; no stretching.
    Crop,
    /// Scale non-uniformly to exactly match the target box.
    Stretch,
}

/// The canonical lowercase token for an output format.
pub open spec fn format_token(f: OutputFormat) -> Seq<char> {
    match f {
        OutputFormat::Jpeg => "jpeg"@,
        OutputFormat::Png => "png"@,
        OutputFormat::WebP => "webp"@,
        OutputFormat::Gif => "gif"@,
    }
}

/// Which output format a token names: the canonical tokens plus the
/// documented alias `jpg` for `Jpeg`; anything else is unknown.
pub open spec fn parse_format_token(t: Seq<char>) -> Option<OutputFormat> {
    if t == "jpeg"@ || t == "jpg"@ {
        Some(OutputFormat::Jpeg)
    } else if t == "png"@ {
        Some(OutputFormat::Png)
    } else if t == "webp"@ {
        Some(OutputFormat::WebP)
    } else if t == "gif"@ {
        Some(OutputFormat::Gif)
    } else {
        None
    }
}

/// The canonical lowercase token for a resize strategy.
pub open spec fn resize_token(s: ResizeStrategy) -> Seq<char> {
    match s {
        ResizeStrategy::Contain => "contain"@,
        ResizeStrategy::Crop => "crop"@,
        ResizeStrategy::Stretch => "stretch"@,
    }
}

/// Which resize strategy a token names; no aliases are defined.
pub open spec fn parse_resize_token(t: Seq<char>) -> Option<ResizeStrategy> {
    if t == "contain"@ {
        Some(ResizeStrategy::Contain)
    } else if t == "crop"@ {
        Some(ResizeStrategy::Crop)
    } else if t == "stretch"@ {
        Some(ResizeStrategy::Stretch)
    } else {
        None
    }
}

impl Default for OutputFormat {
    /// The format used when a caller supplies none.
    fn default() -> (r: Self)
        ensures
            r == OutputFormat::Jpeg,
    {
        OutputFormat::Jpeg
    }
}

impl Default for ResizeStrategy {
    /// The strategy used when a caller supplies none.
    fn default() -> (r: Self)
        ensures
            r == ResizeStrategy::Crop,
    {
        ResizeStrategy::Crop
    }
}

/// Which output format a token names, reading the token as characters.
pub(crate) fn match_format_chars(v: &Vec<char>) -> (r: Option<OutputFormat>)
    ensures
        r == parse_format_token(v@),
{
    proof {
        reveal_strlit("jpeg");
        reveal_strlit("jpg");
        reveal_strlit("png");
        reveal_strlit("webp");
        reveal_strlit("gif");
    }
    if v.len() == 4 && v[0] == 'j' && v[1] == 'p' && v[2] == 'e' && v[3] == 'g' {
        proof {
            assert(v@ =~= "jpeg"@);
        }
        Some(OutputFormat::Jpeg)
    } else if v.len() == 3 && v[0] == 'j' && v[1] == 'p' && v[2] == 'g' {
        proof {
            assert(v@ =~= "jpg"@);
        }
        Some(OutputFormat::Jpeg)
    } else if v.len() == 3 && v[0] == 'p' && v[1] == 'n' && v[2] == 'g' {
        proof {
            assert(v@ =~= "png"@);
        }
        Some(OutputFormat::Png)
    } else if v.len() == 4 && v[0] == 'w' && v[1] == 'e' && v[2] == 'b' && v[3] == 'p' {
        proof {
            assert(v@ =~= "webp"@);
        }
        Some(OutputFormat::WebP)
    } else if v.len() == 3 && v[0] == 'g' && v[1] == 'i' && v[2] == 'f' {
        proof {
            assert(v@ =~= "gif"@);
        }
        Some(OutputFormat::Gif)
    } else {
        None
    }
}

/// Which resize strategy a token names, reading the token as characters.
pub(crate) fn match_resize_chars(v: &Vec<char>) -> (r: Option<ResizeStrategy>)
    ensures
        r == parse_resize_token(v@),
{
    proof {
        reveal_strlit("contain");
        reveal_strlit("crop");
        reveal_strlit("stretch");
    }
    if v.len() == 7 && v[0] == 'c' && v[1] == 'o' && v[2] == 'n' && v[3] == 't' && v[4] == 'a'
        && v[5] == 'i' && v[6] == 'n' {
        proof {
            assert(v@ =~= "contain"@);
        }
        Some(ResizeStrategy::Contain)
    } else if v.len() == 4 && v[0] == 'c' && v[1] == 'r' && v[2] == 'o' && v[3] == 'p' {
        proof {
            assert(v@ =~= "crop"@);
        }
        Some(ResizeStrategy::Crop)
    } else if v.len() == 7 && v[0] == 's' && v[1] == 't' && v[2] == 'r' && v[3] == 'e'
        && v[4] == 't' && v[5] == 'c' && v[6] == 'h' {
        proof {
            assert(v@ =~= "stretch"@);
        }
        Some(ResizeStrategy::Stretch)
    } else {
        None
    }
}

impl OutputFormat {
    /// The canonical lowercase token; never an alias.
    pub fn as_token(&self) -> (r: &'static str)
        ensures
            r@ == format_token(*self),
    {
        match *self {
            OutputFormat::Jpeg => "jpeg",
            OutputFormat::Png => "png",
            OutputFormat::WebP => "webp",
            OutputFormat::Gif => "gif",
        }
    }

    /// Decode a textual token: the canonical tokens and the alias `jpg`
    /// are accepted, anything else is an unrecognized variant.
    pub fn from_token(token: &str) -> (r: Result<OutputFormat, QueryFingerprintConversionError>)
        ensures
            r matches Ok(f) ==> parse_format_token(token@) == Some(f),
            r is Err <==> parse_format_token(token@) is None,
            r matches Err(e) ==> (e matches QueryFingerprintConversionError::UnrecognizedVariant {
                token: t,
                enumeration: n,
            } && t@ == token@ && n@ == "OutputFormat"@),
    {
        let chars = crate::text::str_to_chars(token);
        match match_format_chars(&chars) {
            Some(f) => Ok(f),
            None => Err(
                QueryFingerprintConversionError::UnrecognizedVariant {
                    token: token.to_owned(),
                    enumeration: "OutputFormat".to_owned(),
                },
            ),
        }
    }
}

impl ResizeStrategy {
    /// The canonical lowercase token.
    pub fn as_token(&self) -> (r: &'static str)
        ensures
            r@ == resize_token(*self),
    {
        match *self {
            ResizeStrategy::Contain => "contain",
            ResizeStrategy::Crop => "crop",
            ResizeStrategy::Stretch => "stretch",
        }
    }

    /// Decode a textual token: only the canonical tokens are accepted,
    /// no aliases are defined.
    pub fn from_token(token: &str) -> (r: Result<ResizeStrategy, QueryFingerprintConversionError>)
        ensures
            r matches Ok(s) ==> parse_resize_token(token@) == Some(s),
            r is Err <==> parse_resize_token(token@) is None,
            r matches Err(e) ==> (e matches QueryFingerprintConversionError::UnrecognizedVariant {
                token: t,
                enumeration: n,
            } && t@ == token@ && n@ == "ResizeStrategy"@),
    {
        let chars = crate::text::str_to_chars(token);
        match match_resize_chars(&chars) {
            Some(s) => Ok(s),
            None => Err(
                QueryFingerprintConversionError::UnrecognizedVariant {
                    token: token.to_owned(),
                    enumeration: "ResizeStrategy".to_owned(),
                },
            ),
        }
    }
}

} // verus!
