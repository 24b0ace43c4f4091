use vstd::prelude::*;

verus! {

use vstd::arithmetic::div_mod::{lemma_fundamental_div_mod, lemma_fundamental_div_mod_converse};
use vstd::utf8::encode_utf8;

// The fingerprint alphabet is the URL-safe base64 alphabet of RFC 4648
// section 5: `A`..`Z`, `a`..`z`, `0`..`9`, `-`, `_`, and no padding
// character. The spec functions below define the encoding exactly; the
// executable work is done by the `base64` crate behind trusted wrappers
// whose contracts are stated over these functions.

/// The URL-safe base64 character for a 6-bit value.
pub open spec fn b64_char(v: int) -> char
    recommends
        0 <= v < 64,
{
    if v < 26 {
        ((v + 0x41) as u8) as char  // 'A'..'Z'
    } else if v < 52 {
        ((v + 0x47) as u8) as char  // 'a'..'z'
    } else if v < 62 {
        ((v - 4) as u8) as char  // '0'..'9'
    } else if v == 62 {
        '-'
    } else {
        '_'
    }
}

/// The 6-bit value of a URL-safe base64 character, or -1 when the
/// character lies outside the alphabet.
pub open spec fn b64_val(c: char) -> int {
    let u = c as int;
    if 0x41 <= u && u <= 0x5a {
        u - 0x41
    } else if 0x61 <= u && u <= 0x7a {
        u - 0x47
    } else if 0x30 <= u && u <= 0x39 {
        u + 4
    } else if c == '-' {
        62
    } else if c == '_' {
        63
    } else {
        -1
    }
}

/// Unpadded URL-safe base64 of a byte sequence: each group of three bytes
/// becomes four characters, a trailing group of one or two bytes becomes
/// two or three characters, and the unused low bits of the last character
/// are zero.
pub open spec fn encode_b64(b: Seq<u8>) -> Seq<char>
    decreases b.len(),
{
    if b.len() == 0 {
        Seq::empty()
    } else if b.len() == 1 {
        let b0 = b[0] as int;
        seq![b64_char(b0 / 4), b64_char((b0 % 4) * 16)]
    } else if b.len() == 2 {
        let b0 = b[0] as int;
        let b1 = b[1] as int;
        seq![b64_char(b0 / 4), b64_char((b0 % 4) * 16 + b1 / 16), b64_char((b1 % 16) * 4)]
    } else {
        let b0 = b[0] as int;
        let b1 = b[1] as int;
        let b2 = b[2] as int;
        seq![
            b64_char(b0 / 4),
            b64_char((b0 % 4) * 16 + b1 / 16),
            b64_char((b1 % 16) * 4 + b2 / 64),
            b64_char(b2 % 64),
        ] + encode_b64(b.skip(3))
    }
}

/// Every character lies in the URL-safe alphabet.
pub open spec fn b64_chars_ok(s: Seq<char>) -> bool {
    forall|i: int| 0 <= i < s.len() ==> b64_val(s[i]) >= 0
}

/// Exactly the strings that unpadded URL-safe base64 decoding accepts:
/// alphabet characters only, a length that is not 1 modulo 4, and zero
/// unused bits in the final character.
pub open spec fn valid_b64(s: Seq<char>) -> bool {
    &&& b64_chars_ok(s)
    &&& s.len() % 4 != 1
    &&& (s.len() % 4 == 2 ==> b64_val(s.last()) % 16 == 0)
    &&& (s.len() % 4 == 3 ==> b64_val(s.last()) % 4 == 0)
}

/// The bytes that a valid unpadded URL-safe base64 string decodes to.
pub open spec fn decode_b64(s: Seq<char>) -> Seq<u8>
    decreases s.len(),
{
    if s.len() < 2 {
        Seq::empty()
    } else if s.len() == 2 {
        let v0 = b64_val(s[0]);
        let v1 = b64_val(s[1]);
        seq![(v0 * 4 + v1 / 16) as u8]
    } else if s.len() == 3 {
        let v0 = b64_val(s[0]);
        let v1 = b64_val(s[1]);
        let v2 = b64_val(s[2]);
        seq![(v0 * 4 + v1 / 16) as u8, ((v1 % 16) * 16 + v2 / 4) as u8]
    } else {
        let v0 = b64_val(s[0]);
        let v1 = b64_val(s[1]);
        let v2 = b64_val(s[2]);
        let v3 = b64_val(s[3]);
        seq![
            (v0 * 4 + v1 / 16) as u8,
            ((v1 % 16) * 16 + v2 / 4) as u8,
            ((v2 % 4) * 64 + v3) as u8,
        ] + decode_b64(s.skip(4))
    }
}

/// Reading a character back out of the alphabet recovers the 6-bit value,
/// and the padding character is not in the alphabet.
pub proof fn lemma_b64_char_val(v: int)
    requires
        0 <= v < 64,
    ensures
        b64_val(b64_char(v)) == v,
        b64_char(v) != '=',
{
}

/// Base64 round trip: encoding any byte sequence yields a valid unpadded
/// URL-safe string, and decoding that string recovers the bytes exactly.
pub proof fn lemma_b64_round_trip(b: Seq<u8>)
    ensures
        valid_b64(encode_b64(b)),
        decode_b64(encode_b64(b)) == b,
    decreases b.len(),
{
    let s = encode_b64(b);
    if b.len() == 0 {
        assert(decode_b64(s) =~= b);
    } else if b.len() == 1 {
        let b0 = b[0] as int;
        lemma_fundamental_div_mod(b0, 4);
        assert(0 <= b0 / 4 < 64);
        assert(0 <= (b0 % 4) * 16 < 64);
        lemma_b64_char_val(b0 / 4);
        lemma_b64_char_val((b0 % 4) * 16);
        lemma_fundamental_div_mod_converse((b0 % 4) * 16, 16, b0 % 4, 0);
        assert(b64_val(s[1]) % 16 == 0);
        assert(b64_val(s[0]) * 4 + b64_val(s[1]) / 16 == b0);
        assert(decode_b64(s) =~= b);
    } else if b.len() == 2 {
        let b0 = b[0] as int;
        let b1 = b[1] as int;
        lemma_fundamental_div_mod(b0, 4);
        lemma_fundamental_div_mod(b1, 16);
        assert(0 <= b0 / 4 < 64);
        assert(0 <= b1 / 16 < 16);
        lemma_b64_char_val(b0 / 4);
        lemma_b64_char_val((b0 % 4) * 16 + b1 / 16);
        lemma_b64_char_val((b1 % 16) * 4);
        let v1 = (b0 % 4) * 16 + b1 / 16;
        lemma_fundamental_div_mod_converse(v1, 16, b0 % 4, b1 / 16);
        lemma_fundamental_div_mod_converse((b1 % 16) * 4, 4, b1 % 16, 0);
        assert(b64_val(s[2]) % 4 == 0);
        assert(b64_val(s[0]) * 4 + b64_val(s[1]) / 16 == b0);
        assert((b64_val(s[1]) % 16) * 16 + b64_val(s[2]) / 4 == b1);
        assert(decode_b64(s) =~= b);
    } else {
        let b0 = b[0] as int;
        let b1 = b[1] as int;
        let b2 = b[2] as int;
        let rest = b.skip(3);
        let srest = encode_b64(rest);
        lemma_b64_round_trip(rest);
        lemma_fundamental_div_mod(b0, 4);
        lemma_fundamental_div_mod(b1, 16);
        lemma_fundamental_div_mod(b2, 64);
        assert(0 <= b0 / 4 < 64);
        assert(0 <= b1 / 16 < 16);
        assert(0 <= b2 / 64 < 4);
        let v1 = (b0 % 4) * 16 + b1 / 16;
        let v2 = (b1 % 16) * 4 + b2 / 64;
        lemma_b64_char_val(b0 / 4);
        lemma_b64_char_val(v1);
        lemma_b64_char_val(v2);
        lemma_b64_char_val(b2 % 64);
        lemma_fundamental_div_mod_converse(v1, 16, b0 % 4, b1 / 16);
        lemma_fundamental_div_mod_converse(v2, 4, b1 % 16, b2 / 64);
        // The four leading characters decode back to the three leading bytes.
        assert(b64_val(s[0]) * 4 + b64_val(s[1]) / 16 == b0);
        assert((b64_val(s[1]) % 16) * 16 + b64_val(s[2]) / 4 == b1);
        assert((b64_val(s[2]) % 4) * 64 + b64_val(s[3]) == b2);
        assert(s.skip(4) =~= srest);
        assert(decode_b64(s) =~= b);
        // Validity of the concatenation.
        assert(s.len() == 4 + srest.len());
        lemma_fundamental_div_mod(srest.len() as int, 4);
        lemma_fundamental_div_mod_converse(
            s.len() as int,
            4,
            srest.len() as int / 4 + 1,
            srest.len() as int % 4,
        );
        assert(s.len() % 4 == srest.len() % 4);
        if srest.len() > 0 {
            assert(s.last() == srest.last());
        }
        assert forall|i: int| 0 <= i < s.len() implies b64_val(s[i]) >= 0 by {
            if i >= 4 {
                assert(s[i] == srest[i - 4]);
            }
        }
    }
}

/// Relies on `base64::Engine::encode` with the `URL_SAFE_NO_PAD` engine:
/// it emits the unpadded URL-safe base64 of the UTF-8 bytes of its input;
/// and on `String::from_iter`, which collects the characters into that
/// input unchanged.
#[verifier::external_body]
pub(crate) fn b64_encode_chars(text: &Vec<char>) -> (r: String)
    ensures
        r@ == encode_b64(encode_utf8(text@)),
{
    let s: String = text.iter().collect();
    base64::Engine::encode(&base64::engine::general_purpose::URL_SAFE_NO_PAD, s)
}

/// Relies on `base64::Engine::decode` with the `URL_SAFE_NO_PAD` engine:
/// it accepts exactly the unpadded URL-safe strings (alphabet characters
/// only, length not 1 mod 4, no set trailing bits) and returns the decoded
/// bytes; on any other input it reports an error. The engine reads the
/// string's UTF-8 bytes; that agrees with this character-level statement,
/// since every accepted string is ASCII and any non-ASCII character yields
/// only bytes outside the alphabet.
#[verifier::external_body]
pub(crate) fn b64_decode_str(fingerprint: &str) -> (r: Result<Vec<u8>, String>)
    ensures
        r is Ok <==> valid_b64(fingerprint@),
        r matches Ok(b) ==> b@ == decode_b64(fingerprint@),
{
    match base64::Engine::decode(&base64::engine::general_purpose::URL_SAFE_NO_PAD, fingerprint) {
        Ok(b) => Ok(b),
        Err(e) => Err(format!("{}", e)),
    }
}

} // verus!
