use vstd::prelude::*;

verus! {

use vstd::string::StrSliceExecFns;
use crate::fields::{format_token, parse_format_token, OutputFormat};

// The canonical structured-text form of a request is a JSON object with a
// fixed field order and no whitespace:
//
//   {"source":<string>,"width":<number|null>,"height":<number|null>,"format":"<token>"}
//
// Two semantically equal requests render to byte-identical text, so the
// text (and the fingerprint derived from it) can serve as a cache key.
// This grammar is the library's own wire format; the spec functions below
// define it exactly, and the executable serializer and parser are verified
// against them.

/// The mathematical content of a request: the source characters, the two
/// optional dimensions and the output format.
#[verifier::ext_equal]
pub ghost struct QueryModel {
    pub source: Seq<char>,
    pub width: Option<u32>,
    pub height: Option<u32>,
    pub format: OutputFormat,
}

/// What the canonical grammar makes of a text: a request value, a
/// well-formed object whose format token is unknown, or no parse at all.
#[verifier::ext_equal]
pub ghost enum JsonParse {
    Value(QueryModel),
    Unknown(Seq<char>),
    Malformed,
}

/// The lowercase hexadecimal digit for a value below 16.
pub open spec fn hex_digit(v: int) -> char
    recommends
        0 <= v < 16,
{
    if v < 10 {
        ((v + 0x30) as u8) as char
    } else {
        ((v + 0x57) as u8) as char
    }
}

/// The numeric value of a lowercase hexadecimal digit.
pub open spec fn hex_val(c: char) -> int {
    if 0x30 <= c as u32 && c as u32 <= 0x39 {
        c as u32 - 0x30
    } else {
        c as u32 - 0x57
    }
}

/// True of the digits `0`..`9`.
pub open spec fn is_digit(c: char) -> bool {
    0x30 <= c as u32 && c as u32 <= 0x39
}

/// True of the lowercase hexadecimal digits.
pub open spec fn is_hex_lower(c: char) -> bool {
    is_digit(c) || (0x61 <= c as u32 && c as u32 <= 0x66)
}

/// How the canonical text renders one character of a string value: quote
/// and backslash get a two-character escape, the control characters with
/// short escapes use them, any other control character uses a lowercase
/// `\u00xx` escape, and every other character stands for itself.
pub open spec fn escape_char(c: char) -> Seq<char> {
    if c == '"' {
        seq!['\\', '"']
    } else if c == '\\' {
        seq!['\\', '\\']
    } else if c == '\u{8}' {
        seq!['\\', 'b']
    } else if c == '\t' {
        seq!['\\', 't']
    } else if c == '\n' {
        seq!['\\', 'n']
    } else if c == '\u{c}' {
        seq!['\\', 'f']
    } else if c == '\r' {
        seq!['\\', 'r']
    } else if (c as u32) < 0x20 {
        seq!['\\', 'u', '0', '0', hex_digit((c as u32 / 16) as int), hex_digit((c as u32 % 16) as int)]
    } else {
        seq![c]
    }
}

/// The canonical rendering of a whole string value, character by character.
pub open spec fn escape_chars(s: Seq<char>) -> Seq<char>
    decreases s.len(),
{
    if s.len() == 0 {
        Seq::empty()
    } else {
        escape_char(s[0]) + escape_chars(s.skip(1))
    }
}

/// The decimal digits of a nonnegative integer, most significant first.
pub open spec fn dec_digits(n: int) -> Seq<char>
    recommends
        n >= 0,
    decreases n,
{
    if n < 10 {
        seq![hex_digit(n)]
    } else {
        dec_digits(n / 10) + seq![hex_digit(n % 10)]
    }
}

/// The canonical rendering of an optional dimension: the decimal number,
/// or `null` when the field is absent. Absence is meaningful and distinct
/// from zero, so it is always written out explicitly.
pub open spec fn opt_u32_text(o: Option<u32>) -> Seq<char> {
    match o {
        Option::None => "null"@,
        Option::Some(n) => dec_digits(n as int),
    }
}

/// The canonical JSON text for the given field values.
pub open spec fn json_text(src: Seq<char>, w: Option<u32>, h: Option<u32>, tok: Seq<char>) -> Seq<
    char,
> {
    "{\"source\":\""@ + escape_chars(src) + "\",\"width\":"@ + opt_u32_text(w) + ",\"height\":"@
        + opt_u32_text(h) + ",\"format\":\""@ + tok + "\"}"@
}

/// The canonical JSON text of a request value.
pub open spec fn json_of(m: QueryModel) -> Seq<char> {
    json_text(m.source, m.width, m.height, format_token(m.format))
}

/// The short escapes of the canonical grammar, by their second character.
pub open spec fn short_unescape(e: char) -> Option<char> {
    if e == '"' {
        Some('"')
    } else if e == '\\' {
        Some('\\')
    } else if e == 'b' {
        Some('\u{8}')
    } else if e == 't' {
        Some('\t')
    } else if e == 'n' {
        Some('\n')
    } else if e == 'f' {
        Some('\u{c}')
    } else if e == 'r' {
        Some('\r')
    } else {
        None
    }
}

/// Prepend one decoded character to the outcome of a scan.
pub open spec fn cons_scan(c: char, r: Option<(Seq<char>, Seq<char>)>) -> Option<
    (Seq<char>, Seq<char>),
> {
    match r {
        Option::None => None,
        Option::Some((content, rest)) => Some((seq![c] + content, rest)),
    }
}

/// Reading a string value from the front of a text: the unescaped content
/// up to the closing quote, and the rest of the text after that quote.
/// Raw control characters are not admitted; escapes are admitted exactly
/// in the forms the canonical renderer emits, plus `\u00xx` for any
/// control character.
pub open spec fn scan_string(s: Seq<char>) -> Option<(Seq<char>, Seq<char>)>
    decreases s.len(),
{
    if s.len() == 0 {
        None
    } else if s[0] == '"' {
        Some((Seq::empty(), s.skip(1)))
    } else if s[0] == '\\' {
        if s.len() < 2 {
            None
        } else if s[1] == 'u' {
            if s.len() >= 6 && s[2] == '0' && s[3] == '0' && is_hex_lower(s[4]) && is_hex_lower(
                s[5],
            ) && hex_val(s[4]) * 16 + hex_val(s[5]) < 0x20 {
                cons_scan(
                    ((hex_val(s[4]) * 16 + hex_val(s[5])) as u8) as char,
                    scan_string(s.skip(6)),
                )
            } else {
                None
            }
        } else {
            match short_unescape(s[1]) {
                Option::Some(c) => cons_scan(c, scan_string(s.skip(2))),
                Option::None => None,
            }
        }
    } else if (s[0] as u32) < 0x20 {
        None
    } else {
        cons_scan(s[0], scan_string(s.skip(1)))
    }
}

/// How many leading characters of the text are decimal digits.
pub open spec fn digit_prefix_len(s: Seq<char>) -> int
    decreases s.len(),
{
    if s.len() == 0 || !is_digit(s[0]) {
        0
    } else {
        1 + digit_prefix_len(s.skip(1))
    }
}

/// Numeric value of a sequence of decimal digits, most significant first.
pub open spec fn dec_val(ds: Seq<char>) -> int
    decreases ds.len(),
{
    if ds.len() == 0 {
        0
    } else {
        dec_val(ds.drop_last()) * 10 + hex_val(ds.last())
    }
}

/// Reading a dimension from the front of a text: `null`, or a canonical
/// decimal number (no sign, no leading zero) that fits in a `u32`, and
/// the rest of the text after it.
pub open spec fn scan_opt_u32(s: Seq<char>) -> Option<(Option<u32>, Seq<char>)> {
    if s.len() >= 4 && s.subrange(0, 4) == "null"@ {
        Some((Option::None, s.skip(4)))
    } else {
        let k = digit_prefix_len(s);
        if k == 0 {
            None
        } else if s[0] == '0' && k > 1 {
            None
        } else if dec_val(s.subrange(0, k)) > u32::MAX {
            None
        } else {
            Some((Some(dec_val(s.subrange(0, k)) as u32), s.skip(k)))
        }
    }
}

/// Reading the format token from the front of a text: the characters up
/// to the next quote, and the rest after that quote.
pub open spec fn scan_token(s: Seq<char>) -> Option<(Seq<char>, Seq<char>)>
    decreases s.len(),
{
    if s.len() == 0 {
        None
    } else if s[0] == '"' {
        Some((Seq::empty(), s.skip(1)))
    } else {
        cons_scan(s[0], scan_token(s.skip(1)))
    }
}

/// The object opener up to and including the quote of the source value.
pub open spec fn lit_open() -> Seq<char> {
    "{\"source\":\""@
}

/// The separator between the source value and the width value.
pub open spec fn lit_width() -> Seq<char> {
    ",\"width\":"@
}

/// The separator between the width value and the height value.
pub open spec fn lit_height() -> Seq<char> {
    ",\"height\":"@
}

/// The separator between the height value and the quoted format token.
pub open spec fn lit_format() -> Seq<char> {
    ",\"format\":\""@
}

/// What the canonical grammar makes of a whole text. Structure is checked
/// in field order; a well-formed object whose format token falls outside
/// the closed set is reported as `Unknown` with the offending token, never
/// silently defaulted.
pub open spec fn parse_json(s: Seq<char>) -> JsonParse {
    if !lit_open().is_prefix_of(s) {
        JsonParse::Malformed
    } else {
        match scan_string(s.skip(11)) {
            Option::None => JsonParse::Malformed,
            Option::Some((src, r1)) => {
                if !lit_width().is_prefix_of(r1) {
                    JsonParse::Malformed
                } else {
                    match scan_opt_u32(r1.skip(9)) {
                        Option::None => JsonParse::Malformed,
                        Option::Some((w, r2)) => {
                            if !lit_height().is_prefix_of(r2) {
                                JsonParse::Malformed
                            } else {
                                match scan_opt_u32(r2.skip(10)) {
                                    Option::None => JsonParse::Malformed,
                                    Option::Some((h, r3)) => {
                                        if !lit_format().is_prefix_of(r3) {
                                            JsonParse::Malformed
                                        } else {
                                            match scan_token(r3.skip(11)) {
                                                Option::None => JsonParse::Malformed,
                                                Option::Some((tok, r4)) => {
                                                    match parse_format_token(tok) {
                                                        Option::None => JsonParse::Unknown(tok),
                                                        Option::Some(f) => {
                                                            if r4 == "}"@ {
                                                                JsonParse::Value(
                                                                    QueryModel {
                                                                        source: src,
                                                                        width: w,
                                                                        height: h,
                                                                        format: f,
                                                                    },
                                                                )
                                                            } else {
                                                                JsonParse::Malformed
                                                            }
                                                        },
                                                    }
                                                },
                                            }
                                        }
                                    },
                                }
                            }
                        },
                    }
                }
            },
        }
    }
}

/// Appending a character to a string appends its escape to the rendering.
pub proof fn lemma_escape_snoc(s: Seq<char>, c: char)
    ensures
        escape_chars(s.push(c)) == escape_chars(s) + escape_char(c),
    decreases s.len(),
{
    if s.len() == 0 {
        assert(s.push(c)[0] == c);
        assert(s.push(c).len() == 1);
        assert(s.push(c).skip(1) =~= Seq::<char>::empty());
        assert(escape_chars(s.push(c)) == escape_char(c) + escape_chars(Seq::<char>::empty()));
        assert(escape_chars(s) == Seq::<char>::empty());
        assert(escape_char(c) + Seq::<char>::empty() =~= Seq::<char>::empty() + escape_char(c));
    } else {
        assert(s.push(c)[0] == s[0]);
        assert(s.push(c).len() == s.len() + 1);
        assert(s.push(c).skip(1) =~= s.skip(1).push(c));
        lemma_escape_snoc(s.skip(1), c);
        assert(escape_chars(s.push(c)) == escape_char(s[0]) + (escape_chars(s.skip(1))
            + escape_char(c)));
        assert(escape_chars(s) == escape_char(s[0]) + escape_chars(s.skip(1)));
        assert(escape_char(s[0]) + (escape_chars(s.skip(1)) + escape_char(c)) =~= (escape_char(s[0])
            + escape_chars(s.skip(1))) + escape_char(c));
    }
}

/// The lowercase hexadecimal digit for a value below 16.
fn hex_digit_exec(v: u8) -> (r: char)
    requires
        v < 16,
    ensures
        r == hex_digit(v as int),
{
    if v < 10 {
        (v + 0x30) as char
    } else {
        (v + 0x57) as char
    }
}

/// Append every character of a string slice.
fn push_str_chars(out: &mut Vec<char>, s: &str)
    ensures
        final(out)@ == old(out)@ + s@,
{
    let n = s.unicode_len();
    let mut i: usize = 0;
    while i < n
        invariant
            i <= n,
            n == s@.len(),
            out@ == old(out)@ + s@.subrange(0, i as int),
        decreases n - i,
    {
        out.push(s.get_char(i));
        i = i + 1;
        proof {
            assert(out@ =~= old(out)@ + s@.subrange(0, i as int));
        }
    }
    proof {
        assert(old(out)@ + s@.subrange(0, n as int) =~= old(out)@ + s@);
    }
}

/// Append the canonical escape of one character.
fn push_escaped(out: &mut Vec<char>, c: char)
    ensures
        final(out)@ == old(out)@ + escape_char(c),
{
    if c == '"' {
        out.push('\\');
        out.push('"');
    } else if c == '\\' {
        out.push('\\');
        out.push('\\');
    } else if c == '\u{8}' {
        out.push('\\');
        out.push('b');
    } else if c == '\t' {
        out.push('\\');
        out.push('t');
    } else if c == '\n' {
        out.push('\\');
        out.push('n');
    } else if c == '\u{c}' {
        out.push('\\');
        out.push('f');
    } else if c == '\r' {
        out.push('\\');
        out.push('r');
    } else if (c as u32) < 0x20 {
        let v = c as u32;
        out.push('\\');
        out.push('u');
        out.push('0');
        out.push('0');
        out.push(hex_digit_exec((v / 16) as u8));
        out.push(hex_digit_exec((v % 16) as u8));
    } else {
        out.push(c);
    }
    proof {
        assert(out@ =~= old(out)@ + escape_char(c));
    }
}

/// Append the canonical decimal rendering of a number.
fn push_digits(out: &mut Vec<char>, n: u32)
    ensures
        final(out)@ == old(out)@ + dec_digits(n as int),
    decreases n,
{
    if n < 10 {
        out.push(hex_digit_exec(n as u8));
    } else {
        push_digits(out, n / 10);
        out.push(hex_digit_exec((n % 10) as u8));
    }
    proof {
        assert(out@ =~= old(out)@ + dec_digits(n as int));
    }
}

/// Append the canonical rendering of an optional dimension.
fn push_opt_u32(out: &mut Vec<char>, o: Option<u32>)
    ensures
        final(out)@ == old(out)@ + opt_u32_text(o),
{
    match o {
        Option::None => push_str_chars(out, "null"),
        Option::Some(n) => push_digits(out, n),
    }
}

/// The canonical JSON text for the given field values, as characters.
pub(crate) fn render_json(source: &str, width: Option<u32>, height: Option<u32>, format: OutputFormat) -> (out:
    Vec<char>)
    ensures
        out@ == json_text(source@, width, height, format_token(format)),
{
    let mut out: Vec<char> = Vec::new();
    push_str_chars(&mut out, "{\"source\":\"");
    let n = source.unicode_len();
    let mut i: usize = 0;
    while i < n
        invariant
            i <= n,
            n == source@.len(),
            out@ == "{\"source\":\""@ + escape_chars(source@.subrange(0, i as int)),
        decreases n - i,
    {
        push_escaped(&mut out, source.get_char(i));
        i = i + 1;
        proof {
            assert(source@.subrange(0, i as int) =~= source@.subrange(0, i - 1).push(
                source@[i - 1],
            ));
            lemma_escape_snoc(source@.subrange(0, i - 1), source@[i - 1]);
            assert(out@ =~= "{\"source\":\""@ + escape_chars(source@.subrange(0, i as int)));
        }
    }
    proof {
        assert(source@.subrange(0, n as int) =~= source@);
    }
    push_str_chars(&mut out, "\",\"width\":");
    push_opt_u32(&mut out, width);
    push_str_chars(&mut out, ",\"height\":");
    push_opt_u32(&mut out, height);
    push_str_chars(&mut out, ",\"format\":\"");
    push_str_chars(&mut out, format.as_token());
    push_str_chars(&mut out, "\"}");
    proof {
        assert(out@ =~= json_text(source@, width, height, format_token(format)));
    }
    out
}

/// True of a character in the digit range.
fn is_digit_exec(c: char) -> (r: bool)
    ensures
        r == is_digit(c),
{
    let u = c as u32;
    0x30 <= u && u <= 0x39
}

/// The numeric value of a decimal digit character.
fn digit_val_exec(c: char) -> (r: u32)
    requires
        is_digit(c),
    ensures
        r as int == hex_val(c),
{
    (c as u32) - 0x30
}

/// Powers of ten, for bounding decimal values.
pub open spec fn pow10(k: int) -> int
    decreases k,
{
    if k <= 0 {
        1
    } else {
        10 * pow10(k - 1)
    }
}

/// A digit string's value is bounded by powers of ten, from below when its
/// leading digit is not zero.
proof fn lemma_dec_val_bounds(ds: Seq<char>)
    requires
        forall|i: int| 0 <= i < ds.len() ==> is_digit(ds[i]),
    ensures
        0 <= dec_val(ds) < pow10(ds.len() as int),
        ds.len() > 0 && hex_val(ds[0]) >= 1 ==> dec_val(ds) >= pow10(ds.len() - 1),
    decreases ds.len(),
{
    if ds.len() == 0 {
    } else {
        let front = ds.drop_last();
        assert(forall|i: int| 0 <= i < front.len() ==> is_digit(#[trigger] front[i]));
        lemma_dec_val_bounds(front);
        assert(is_digit(ds.last()));
        assert(0 <= hex_val(ds.last()) <= 9);
        if ds.len() > 1 && hex_val(ds[0]) >= 1 {
            assert(front[0] == ds[0]);
        }
    }
}

/// The exact digit prefix length, from a pointwise description.
proof fn lemma_digit_prefix_exact(s: Seq<char>, k: int)
    requires
        0 <= k <= s.len(),
        forall|m: int| 0 <= m < k ==> is_digit(s[m]),
        k == s.len() || !is_digit(s[k]),
    ensures
        digit_prefix_len(s) == k,
    decreases s.len(),
{
    if k == 0 {
    } else {
        assert(is_digit(s[0]));
        assert(forall|m: int| 0 <= m < k - 1 ==> is_digit(#[trigger] s.skip(1)[m]));
        assert(k - 1 == s.skip(1).len() || !is_digit(s.skip(1)[k - 1]));
        lemma_digit_prefix_exact(s.skip(1), k - 1);
    }
}

/// Extending a digit string by one digit multiplies its value by ten.
proof fn lemma_dec_val_snoc(s: Seq<char>, x: int)
    requires
        0 <= x < s.len(),
    ensures
        dec_val(s.subrange(0, x + 1)) == dec_val(s.subrange(0, x)) * 10 + hex_val(s[x]),
{
    assert(s.subrange(0, x + 1).drop_last() =~= s.subrange(0, x));
    assert(s.subrange(0, x + 1).last() == s[x]);
}

/// Reading a dimension value at a position in the text.
fn scan_opt_u32_exec(t: &Vec<char>, i: usize) -> (r: Option<(Option<u32>, usize)>)
    requires
        i <= t@.len(),
    ensures
        ({
            match scan_opt_u32(t@.skip(i as int)) {
                Option::None => r is None,
                Option::Some(p) => r matches Some(q) && q.0 == p.0 && i <= q.1 <= t@.len()
                    && t@.skip(q.1 as int) == p.1,
            }
        }),
{
    let ghost s = t@.skip(i as int);
    let n = t.len();
    proof {
        assert(s.len() == n - i);
        reveal_strlit("null");
    }
    if n - i >= 4 && t[i] == 'n' && t[i + 1] == 'u' && t[i + 2] == 'l' && t[i + 3] == 'l' {
        proof {
            assert(s.subrange(0, 4) =~= "null"@);
            assert(s.skip(4) =~= t@.skip(i as int + 4));
        }
        return Some((None, i + 4));
    }
    proof {
        if s.len() >= 4 && s.subrange(0, 4) == "null"@ {
            assert(s.subrange(0, 4)[0] == t@[i as int]);
            assert(s.subrange(0, 4)[1] == t@[i as int + 1]);
            assert(s.subrange(0, 4)[2] == t@[i as int + 2]);
            assert(s.subrange(0, 4)[3] == t@[i as int + 3]);
            assert(false);
        }
    }
    let mut j = i;
    while j < n && is_digit_exec(t[j])
        invariant
            i <= j <= n,
            n == t@.len(),
            forall|m: int| i <= m < j ==> is_digit(t@[m]),
        decreases n - j,
    {
        j = j + 1;
    }
    let k = j - i;
    proof {
        assert(forall|m: int| 0 <= m < k ==> s[m] == t@[i + m]);
        if j < n {
            assert(s[k as int] == t@[j as int]);
        }
        lemma_digit_prefix_exact(s, k as int);
    }
    if k == 0 {
        return None;
    }
    if t[i] == '0' && k > 1 {
        return None;
    }
    let ghost ds = s.subrange(0, k as int);
    proof {
        assert(forall|m: int| 0 <= m < ds.len() ==> is_digit(#[trigger] ds[m]));
        lemma_dec_val_bounds(ds);
    }
    if k > 10 {
        proof {
            // A leading digit other than zero and more than ten digits force
            // the value past the u32 range.
            assert(is_digit(s[0]) && s[0] != '0');
            assert(('0' as u32) == 0x30);
            if s[0] as u32 == 0x30 {
                vstd::utf8::char_u32_cast(s[0], s[0] as u32);
                vstd::utf8::char_u32_cast('0', '0' as u32);
                assert(s[0] == '0');
            }
            assert(hex_val(ds[0]) >= 1);
            lemma_pow10_mono(10, k as int - 1);
            assert(pow10(10) == 10000000000) by {
                reveal_with_fuel(pow10, 11);
            }
            assert(dec_val(ds) >= 10000000000);
        }
        return None;
    }
    let mut acc: u64 = 0;
    let mut m = i;
    proof {
        assert(s.subrange(0, 0) =~= Seq::<char>::empty());
    }
    while m < j
        invariant
            i <= m <= j <= n,
            n == t@.len(),
            k == j - i,
            k <= 10,
            s == t@.skip(i as int),
            forall|x: int| i <= x < j ==> is_digit(t@[x]),
            forall|x: int| 0 <= x < s.len() ==> s[x] == t@[i + x],
            acc as int == dec_val(s.subrange(0, (m - i) as int)),
            (acc as int) < pow10((m - i) as int),
        decreases j - m,
    {
        let d = digit_val_exec(t[m]);
        proof {
            lemma_dec_val_snoc(s, (m - i) as int);
            lemma_pow10_mono((m - i) as int, 9);
            assert(pow10(9) == 1000000000) by {
                reveal_with_fuel(pow10, 10);
            }
        }
        acc = acc * 10 + (d as u64);
        m = m + 1;
    }
    if acc > 0xFFFF_FFFFu64 {
        return None;
    }
    proof {
        assert(s.skip(k as int) =~= t@.skip(i as int + k as int));
        assert((dec_val(ds) as u32) as int == dec_val(ds));
    }
    Some((Some(acc as u32), j))
}

/// Powers of ten do not shrink as the exponent grows.
proof fn lemma_pow10_mono(a: int, b: int)
    requires
        0 <= a <= b,
    ensures
        pow10(a) <= pow10(b),
        pow10(a) >= 1,
    decreases b,
{
    if a < b {
        lemma_pow10_mono(a, b - 1);
    } else if a == b && a > 0 {
        lemma_pow10_mono(a - 1, a - 1);
    }
}

/// The short escapes, decoded.
fn short_unescape_exec(e: char) -> (r: Option<char>)
    ensures
        r == short_unescape(e),
{
    if e == '"' {
        Some('"')
    } else if e == '\\' {
        Some('\\')
    } else if e == 'b' {
        Some('\u{8}')
    } else if e == 't' {
        Some('\t')
    } else if e == 'n' {
        Some('\n')
    } else if e == 'f' {
        Some('\u{c}')
    } else if e == 'r' {
        Some('\r')
    } else {
        None
    }
}

/// Reading a string value at a position in the text.
fn scan_string_exec(t: &Vec<char>, i: usize) -> (r: Option<(Vec<char>, usize)>)
    requires
        i <= t@.len(),
    ensures
        ({
            match scan_string(t@.skip(i as int)) {
                Option::None => r is None,
                Option::Some(p) => r matches Some(q) && q.0@ == p.0 && i <= q.1 <= t@.len()
                    && t@.skip(q.1 as int) == p.1,
            }
        }),
    decreases t@.len() - i,
{
    let ghost s = t@.skip(i as int);
    let n = t.len();
    proof {
        assert(s.len() == n - i);
    }
    if i == n {
        return None;
    }
    let c = t[i];
    proof {
        assert(s[0] == t@[i as int]);
    }
    if c == '"' {
        proof {
            assert(s.skip(1) =~= t@.skip(i as int + 1));
        }
        Some((Vec::new(), i + 1))
    } else if c == '\\' {
        if n - i < 2 {
            return None;
        }
        let e = t[i + 1];
        proof {
            assert(s[1] == t@[i as int + 1]);
        }
        if e == 'u' {
            proof {
                if s.len() >= 6 {
                    assert(s[2] == t@[i as int + 2]);
                    assert(s[3] == t@[i as int + 3]);
                    assert(s[4] == t@[i as int + 4]);
                    assert(s[5] == t@[i as int + 5]);
                }
            }
            if n - i >= 6 && t[i + 2] == '0' && t[i + 3] == '0' {
                let h1 = t[i + 4];
                let h2 = t[i + 5];
                let hex1 = hex_val_lower_exec(h1);
                let hex2 = hex_val_lower_exec(h2);
                match (hex1, hex2) {
                    (Some(v1), Some(v2)) => {
                        let v: u32 = v1 * 16 + v2;
                        if v < 0x20 {
                            match scan_string_exec(t, i + 6) {
                                Option::None => {
                                    proof {
                                        assert(s.skip(6) =~= t@.skip(i as int + 6));
                                    }
                                    None
                                },
                                Option::Some((mut content, j)) => {
                                    let ghost pre = content@;
                                    content.insert(0, (v as u8) as char);
                                    proof {
                                        assert(s.skip(6) =~= t@.skip(i as int + 6));
                                        assert(content@ =~= seq![((hex_val(s[4]) * 16 + hex_val(
                                            s[5],
                                        )) as u8) as char] + pre);
                                    }
                                    Some((content, j))
                                },
                            }
                        } else {
                            None
                        }
                    },
                    _ => None,
                }
            } else {
                None
            }
        } else {
            match short_unescape_exec(e) {
                Option::Some(u) => {
                    match scan_string_exec(t, i + 2) {
                        Option::None => {
                            proof {
                                assert(s.skip(2) =~= t@.skip(i as int + 2));
                            }
                            None
                        },
                        Option::Some((mut content, j)) => {
                            let ghost pre = content@;
                            content.insert(0, u);
                            proof {
                                assert(s.skip(2) =~= t@.skip(i as int + 2));
                                assert(content@ =~= seq![u] + pre);
                            }
                            Some((content, j))
                        },
                    }
                },
                Option::None => None,
            }
        }
    } else if (c as u32) < 0x20 {
        None
    } else {
        match scan_string_exec(t, i + 1) {
            Option::None => {
                proof {
                    assert(s.skip(1) =~= t@.skip(i as int + 1));
                }
                None
            },
            Option::Some((mut content, j)) => {
                let ghost pre = content@;
                content.insert(0, c);
                proof {
                    assert(s.skip(1) =~= t@.skip(i as int + 1));
                    assert(content@ =~= seq![c] + pre);
                }
                Some((content, j))
            },
        }
    }
}

/// The value of a lowercase hexadecimal digit, if the character is one.
fn hex_val_lower_exec(c: char) -> (r: Option<u32>)
    ensures
        r matches Some(v) ==> is_hex_lower(c) && v as int == hex_val(c),
        r is None ==> !is_hex_lower(c),
{
    let u = c as u32;
    if 0x30 <= u && u <= 0x39 {
        Some(u - 0x30)
    } else if 0x61 <= u && u <= 0x66 {
        Some(u - 0x57)
    } else {
        None
    }
}

/// Reading the format token at a position in the text.
fn scan_token_exec(t: &Vec<char>, i: usize) -> (r: Option<(Vec<char>, usize)>)
    requires
        i <= t@.len(),
    ensures
        ({
            match scan_token(t@.skip(i as int)) {
                Option::None => r is None,
                Option::Some(p) => r matches Some(q) && q.0@ == p.0 && i <= q.1 <= t@.len()
                    && t@.skip(q.1 as int) == p.1,
            }
        }),
    decreases t@.len() - i,
{
    let ghost s = t@.skip(i as int);
    let n = t.len();
    proof {
        assert(s.len() == n - i);
    }
    if i == n {
        return None;
    }
    let c = t[i];
    proof {
        assert(s[0] == t@[i as int]);
    }
    if c == '"' {
        proof {
            assert(s.skip(1) =~= t@.skip(i as int + 1));
        }
        Some((Vec::new(), i + 1))
    } else {
        match scan_token_exec(t, i + 1) {
            Option::None => {
                proof {
                    assert(s.skip(1) =~= t@.skip(i as int + 1));
                }
                None
            },
            Option::Some((mut content, j)) => {
                let ghost pre = content@;
                content.insert(0, c);
                proof {
                    assert(s.skip(1) =~= t@.skip(i as int + 1));
                    assert(content@ =~= seq![c] + pre);
                }
                Some((content, j))
            },
        }
    }
}

/// Whether the given literal text stands at the given position.
fn expect_lit(t: &Vec<char>, i: usize, lit: &str) -> (b: bool)
    requires
        i <= t@.len(),
    ensures
        b == lit@.is_prefix_of(t@.skip(i as int)),
        b ==> i + lit@.len() <= t@.len(),
{
    let ghost s = t@.skip(i as int);
    let tlen = t.len();
    let n = lit.unicode_len();
    if tlen - i < n {
        proof {
            assert(s.len() < lit@.len());
        }
        return false;
    }
    let mut m: usize = 0;
    while m < n
        invariant
            m <= n,
            n == lit@.len(),
            tlen == t@.len(),
            i + n <= tlen,
            s == t@.skip(i as int),
            forall|x: int| 0 <= x < m ==> t@[i + x] == lit@[x],
        decreases n - m,
    {
        if t[i + m] != lit.get_char(m) {
            proof {
                if lit@.is_prefix_of(s) {
                    assert(lit@[m as int] == s.subrange(0, n as int)[m as int]);
                    assert(s[m as int] == t@[i + m]);
                    assert(false);
                }
            }
            return false;
        }
        m = m + 1;
    }
    proof {
        assert(s.subrange(0, n as int) =~= lit@);
    }
    true
}

/// What the executable parser hands back: the parsed fields, an unknown
/// format token, or no parse.
pub(crate) enum ParsedText {
    Value { source: Vec<char>, width: Option<u32>, height: Option<u32>, format: OutputFormat },
    UnknownToken { token: Vec<char> },
    Malformed,
}

/// Parse a whole text against the canonical grammar.
pub(crate) fn parse_json_exec(t: &Vec<char>) -> (r: ParsedText)
    ensures
        ({
            match parse_json(t@) {
                JsonParse::Value(m) => r matches ParsedText::Value {
                    source,
                    width,
                    height,
                    format,
                } && source@ == m.source && width == m.width && height == m.height && format
                    == m.format,
                JsonParse::Unknown(tok) => r matches ParsedText::UnknownToken { token } && token@
                    == tok,
                JsonParse::Malformed => r is Malformed,
            }
        }),
{
    proof {
        reveal_strlit("{\"source\":\"");
        reveal_strlit(",\"width\":");
        reveal_strlit(",\"height\":");
        reveal_strlit(",\"format\":\"");
        reveal_strlit("}");
        assert(t@.skip(0) =~= t@);
    }
    if !expect_lit(t, 0, "{\"source\":\"") {
        return ParsedText::Malformed;
    }
    let r1 = scan_string_exec(t, 11);
    proof {
        assert(t@.skip(0).skip(11) =~= t@.skip(11));
    }
    match r1 {
        Option::None => ParsedText::Malformed,
        Option::Some((source, j1)) => {
            if !expect_lit(t, j1, ",\"width\":") {
                return ParsedText::Malformed;
            }
            let n = t.len();
            proof {
                assert(j1 + 9 <= n);
                assert(t@.skip(j1 as int).skip(9) =~= t@.skip(j1 as int + 9));
            }
            match scan_opt_u32_exec(t, j1 + 9) {
                Option::None => ParsedText::Malformed,
                Option::Some((width, j2)) => {
                    if !expect_lit(t, j2, ",\"height\":") {
                        return ParsedText::Malformed;
                    }
                    proof {
                        assert(j2 + 10 <= n);
                        assert(t@.skip(j2 as int).skip(10) =~= t@.skip(j2 as int + 10));
                    }
                    match scan_opt_u32_exec(t, j2 + 10) {
                        Option::None => ParsedText::Malformed,
                        Option::Some((height, j3)) => {
                            if !expect_lit(t, j3, ",\"format\":\"") {
                                return ParsedText::Malformed;
                            }
                            proof {
                                assert(j3 + 11 <= n);
                                assert(t@.skip(j3 as int).skip(11) =~= t@.skip(j3 as int + 11));
                            }
                            match scan_token_exec(t, j3 + 11) {
                                Option::None => ParsedText::Malformed,
                                Option::Some((token, j4)) => {
                                    match crate::fields::match_format_chars(&token) {
                                        Option::None => ParsedText::UnknownToken { token },
                                        Option::Some(format) => {
                                            if t.len() - j4 == 1 && t[j4] == '}' {
                                                proof {
                                                    assert(t@.skip(j4 as int) =~= "}"@);
                                                }
                                                ParsedText::Value { source, width, height, format }
                                            } else {
                                                proof {
                                                    let r4 = t@.skip(j4 as int);
                                                    if r4 == "}"@ {
                                                        assert(r4.len() == 1);
                                                        assert(r4[0] == t@[j4 as int]);
                                                        assert(false);
                                                    }
                                                }
                                                ParsedText::Malformed
                                            }
                                        },
                                    }
                                },
                            }
                        },
                    }
                },
            }
        },
    }
}

/// Hexadecimal digits are lowercase hexadecimal characters and read back
/// to their value.
proof fn lemma_hex_digit(v: int)
    requires
        0 <= v < 16,
    ensures
        is_hex_lower(hex_digit(v)),
        hex_val(hex_digit(v)) == v,
        is_digit(hex_digit(v)) <==> v < 10,
{
}

/// Scanning the canonical rendering of a string value recovers the value
/// and leaves exactly the text after the closing quote.
pub proof fn lemma_scan_string_canonical(src: Seq<char>, rest: Seq<char>)
    ensures
        scan_string(escape_chars(src) + seq!['"'] + rest) == Some((src, rest)),
    decreases src.len(),
{
    let s = escape_chars(src) + seq!['"'] + rest;
    if src.len() == 0 {
        assert(escape_chars(src).len() == 0);
        assert(s[0] == '"');
        assert(s.skip(1) =~= rest);
        assert(src =~= Seq::<char>::empty());
    } else {
        let c = src[0];
        let e = escape_char(c);
        let tail = escape_chars(src.skip(1)) + seq!['"'] + rest;
        assert(escape_chars(src) == e + escape_chars(src.skip(1)));
        assert(s =~= e + tail);
        lemma_scan_string_canonical(src.skip(1), rest);
        assert(seq![c] + src.skip(1) =~= src);
        if c == '"' {
            assert(s[0] == '\\' && s[1] == '"');
            assert(s.skip(2) =~= tail);
        } else if c == '\\' {
            assert(s[0] == '\\' && s[1] == '\\');
            assert(s.skip(2) =~= tail);
        } else if c == '\u{8}' {
            assert(s[0] == '\\' && s[1] == 'b');
            assert(s.skip(2) =~= tail);
        } else if c == '\t' {
            assert(s[0] == '\\' && s[1] == 't');
            assert(s.skip(2) =~= tail);
        } else if c == '\n' {
            assert(s[0] == '\\' && s[1] == 'n');
            assert(s.skip(2) =~= tail);
        } else if c == '\u{c}' {
            assert(s[0] == '\\' && s[1] == 'f');
            assert(s.skip(2) =~= tail);
        } else if c == '\r' {
            assert(s[0] == '\\' && s[1] == 'r');
            assert(s.skip(2) =~= tail);
        } else if (c as u32) < 0x20 {
            let cu = c as u32;
            assert(s[0] == '\\' && s[1] == 'u');
            assert(s[2] == '0' && s[3] == '0');
            assert(s[4] == hex_digit((cu / 16) as int));
            assert(s[5] == hex_digit((cu % 16) as int));
            lemma_hex_digit((cu / 16) as int);
            lemma_hex_digit((cu % 16) as int);
            assert(hex_val(s[4]) * 16 + hex_val(s[5]) == cu) by {
                vstd::arithmetic::div_mod::lemma_fundamental_div_mod(cu as int, 16);
            }
            let rebuilt = ((hex_val(s[4]) * 16 + hex_val(s[5])) as u8) as char;
            assert(rebuilt as u32 == cu);
            vstd::utf8::char_u32_cast(c, cu);
            vstd::utf8::char_u32_cast(rebuilt, cu);
            assert(rebuilt == c);
            assert(s.skip(6) =~= tail);
        } else {
            assert(s[0] == c);
            assert(s.skip(1) =~= tail);
        }
    }
}

/// Scanning a quote-free token followed by a quote recovers the token and
/// leaves exactly the text after the quote.
pub proof fn lemma_scan_token_canonical(tok: Seq<char>, rest: Seq<char>)
    requires
        forall|i: int| 0 <= i < tok.len() ==> tok[i] != '"',
    ensures
        scan_token(tok + seq!['"'] + rest) == Some((tok, rest)),
    decreases tok.len(),
{
    let s = tok + seq!['"'] + rest;
    if tok.len() == 0 {
        assert(s[0] == '"');
        assert(s.skip(1) =~= rest);
        assert(tok =~= Seq::<char>::empty());
    } else {
        assert(s[0] == tok[0]);
        assert(tok[0] != '"');
        assert(s.skip(1) =~= tok.skip(1) + seq!['"'] + rest);
        lemma_scan_token_canonical(tok.skip(1), rest);
        assert(seq![tok[0]] + tok.skip(1) =~= tok);
    }
}

/// The canonical decimal rendering of a number is made of digits, reads
/// back to the number, and carries no leading zero.
proof fn lemma_dec_digits_props(n: int)
    requires
        n >= 0,
    ensures
        forall|i: int| 0 <= i < dec_digits(n).len() ==> is_digit(#[trigger] dec_digits(n)[i]),
        dec_digits(n).len() >= 1,
        dec_val(dec_digits(n)) == n,
        n >= 10 ==> dec_digits(n)[0] != '0',
    decreases n,
{
    if n < 10 {
        lemma_hex_digit(n);
        assert(dec_digits(n) == seq![hex_digit(n)]);
        assert(dec_digits(n).drop_last() =~= Seq::<char>::empty());
        assert(dec_digits(n).last() == hex_digit(n));
        assert(dec_val(Seq::<char>::empty()) == 0);
        assert(dec_val(dec_digits(n)) == dec_val(Seq::<char>::empty()) * 10 + hex_val(
            hex_digit(n),
        ));
    } else {
        vstd::arithmetic::div_mod::lemma_fundamental_div_mod(n, 10);
        assert(1 <= n / 10 < n);
        lemma_dec_digits_props(n / 10);
        lemma_hex_digit(n % 10);
        let d = dec_digits(n);
        let front = dec_digits(n / 10);
        assert(d == front + seq![hex_digit(n % 10)]);
        assert(d.drop_last() =~= front);
        assert(d.last() == hex_digit(n % 10));
        assert(dec_val(d) == dec_val(front) * 10 + (n % 10));
        assert(forall|i: int|
            0 <= i < d.len() ==> is_digit(#[trigger] d[i]) == if i < front.len() {
                is_digit(front[i])
            } else {
                is_digit(hex_digit(n % 10))
            });
        // The leading digit of the quotient is the leading digit here.
        assert(d[0] == front[0]);
        if n / 10 < 10 {
            assert(front == seq![hex_digit(n / 10)]);
            lemma_hex_digit(n / 10);
            if front[0] == '0' {
                assert(hex_val(front[0]) == n / 10);
                assert(('0' as u32) == 0x30);
                assert(false);
            }
        }
    }
}

/// Scanning the canonical rendering of a dimension recovers the value and
/// leaves exactly the following text, which must not begin with a digit.
pub proof fn lemma_scan_opt_u32_canonical(o: Option<u32>, rest: Seq<char>)
    requires
        rest.len() > 0,
        !is_digit(rest[0]),
    ensures
        scan_opt_u32(opt_u32_text(o) + rest) == Some((o, rest)),
{
    reveal_strlit("null");
    let s = opt_u32_text(o) + rest;
    match o {
        Option::None => {
            assert(s.subrange(0, 4) =~= "null"@);
            assert(s.skip(4) =~= rest);
        },
        Option::Some(n) => {
            let d = dec_digits(n as int);
            lemma_dec_digits_props(n as int);
            assert(forall|i: int| 0 <= i < d.len() ==> s[i] == d[i]);
            assert(forall|i: int| 0 <= i < d.len() ==> is_digit(#[trigger] s[i]));
            assert(s[d.len() as int] == rest[0]);
            lemma_digit_prefix_exact(s, d.len() as int);
            // The null branch is off: the first character is a digit.
            if s.len() >= 4 && s.subrange(0, 4) == "null"@ {
                assert(s.subrange(0, 4)[0] == s[0]);
                assert(is_digit('n') == false);
                assert(false);
            }
            // No leading zero unless the number is exactly zero.
            if s[0] == '0' && d.len() > 1 {
                assert(d[0] == '0');
                assert((n as int) >= 10 ==> d[0] != '0');
                assert(d.len() >= 2 ==> n >= 10) by {
                    if n < 10 {
                        assert(d == seq![hex_digit(n as int)]);
                    }
                }
                assert(false);
            }
            assert(s.subrange(0, d.len() as int) =~= d);
            assert(dec_val(d) == n as int);
            assert(s.skip(d.len() as int) =~= rest);
        },
    }
}

/// The canonical token of every format parses back to that format, and no
/// canonical token contains a quote.
pub proof fn lemma_format_token_facts(f: OutputFormat)
    ensures
        parse_format_token(format_token(f)) == Some(f),
        forall|i: int| 0 <= i < format_token(f).len() ==> #[trigger] format_token(f)[i] != '"',
{
    reveal_strlit("jpeg");
    reveal_strlit("jpg");
    reveal_strlit("png");
    reveal_strlit("webp");
    reveal_strlit("gif");
    assert("jpeg"@.len() == 4 && "jpg"@.len() == 3 && "png"@.len() == 3 && "webp"@.len() == 4
        && "gif"@.len() == 3);
    match f {
        OutputFormat::Jpeg => {
            assert(format_token(f) == "jpeg"@);
        },
        OutputFormat::Png => {
            assert("png"@[0] == 'p' && "jpeg"@[0] == 'j' && "jpg"@[0] == 'j');
            assert(format_token(f) != "jpeg"@ && format_token(f) != "jpg"@);
        },
        OutputFormat::WebP => {
            assert("webp"@[0] == 'w' && "jpeg"@[0] == 'j' && "png"@[0] == 'p');
            assert(format_token(f) != "jpeg"@ && format_token(f) != "jpg"@ && format_token(f)
                != "png"@);
        },
        OutputFormat::Gif => {
            assert("gif"@[0] == 'g' && "jpeg"@[0] == 'j' && "jpg"@[0] == 'j' && "png"@[0] == 'p');
            assert(format_token(f) != "jpeg"@ && format_token(f) != "jpg"@ && format_token(f)
                != "png"@ && format_token(f) != "webp"@);
        },
    }
}

/// Parsing the canonical text built from given field values: a known
/// format token yields exactly those values, an unknown one yields the
/// token itself as an unrecognized variant.
pub proof fn lemma_parse_canonical(src: Seq<char>, w: Option<u32>, h: Option<u32>, tok: Seq<char>)
    requires
        forall|i: int| 0 <= i < tok.len() ==> tok[i] != '"',
    ensures
        parse_json(json_text(src, w, h, tok)) == (match parse_format_token(tok) {
            Option::Some(f) => JsonParse::Value(QueryModel { source: src, width: w, height: h, format: f }),
            Option::None => JsonParse::Unknown(tok),
        }),
{
    reveal_strlit("{\"source\":\"");
    reveal_strlit("\",\"width\":");
    reveal_strlit(",\"width\":");
    reveal_strlit(",\"height\":");
    reveal_strlit(",\"format\":\"");
    reveal_strlit("\"}");
    reveal_strlit("}");
    let s = json_text(src, w, h, tok);
    let r3 = lit_format() + tok + seq!['"'] + "}"@;
    let r2 = lit_height() + opt_u32_text(h) + r3;
    let r1 = lit_width() + opt_u32_text(w) + r2;
    assert(s =~= lit_open() + (escape_chars(src) + seq!['"'] + r1));
    assert(lit_open().len() == 11);
    assert(s.subrange(0, 11) =~= lit_open());
    assert(lit_open().is_prefix_of(s));
    assert(s.skip(11) =~= escape_chars(src) + seq!['"'] + r1);
    lemma_scan_string_canonical(src, r1);
    assert(scan_string(s.skip(11)) == Some((src, r1)));
    assert(lit_width().len() == 9);
    assert(r1.subrange(0, 9) =~= lit_width());
    assert(lit_width().is_prefix_of(r1));
    assert(r1.skip(9) =~= opt_u32_text(w) + r2);
    assert(!is_digit(r2[0]) && r2.len() > 0) by {
        assert(r2[0] == ',');
    }
    lemma_scan_opt_u32_canonical(w, r2);
    assert(lit_height().len() == 10);
    assert(r2.subrange(0, 10) =~= lit_height());
    assert(lit_height().is_prefix_of(r2));
    assert(r2.skip(10) =~= opt_u32_text(h) + r3);
    assert(!is_digit(r3[0]) && r3.len() > 0) by {
        assert(r3[0] == ',');
    }
    lemma_scan_opt_u32_canonical(h, r3);
    assert(lit_format().len() == 11);
    assert(r3.subrange(0, 11) =~= lit_format());
    assert(lit_format().is_prefix_of(r3));
    assert(r3.skip(11) =~= tok + seq!['"'] + "}"@);
    lemma_scan_token_canonical(tok, "}"@);
    assert(scan_token(r3.skip(11)) == Some((tok, "}"@)));
}

/// Canonical round trip at the text level: the canonical JSON text of any
/// request value parses back to exactly that value.
pub proof fn lemma_json_round_trip(m: QueryModel)
    ensures
        parse_json(json_of(m)) == JsonParse::Value(m),
{
    lemma_format_token_facts(m.format);
    lemma_parse_canonical(m.source, m.width, m.height, format_token(m.format));
    assert(QueryModel {
        source: m.source,
        width: m.width,
        height: m.height,
        format: m.format,
    } =~= m);
}

/// Alias normalization: canonical text whose format token is the alias
/// `jpg` parses to `Jpeg`, while the canonical token of `Jpeg` that the
/// renderer emits is `jpeg`, never `jpg`.
pub proof fn lemma_alias_normalization(src: Seq<char>, w: Option<u32>, h: Option<u32>)
    ensures
        parse_json(json_text(src, w, h, "jpg"@)) == JsonParse::Value(
            QueryModel { source: src, width: w, height: h, format: OutputFormat::Jpeg },
        ),
        format_token(OutputFormat::Jpeg) == "jpeg"@,
        format_token(OutputFormat::Jpeg) != "jpg"@,
{
    reveal_strlit("jpeg");
    reveal_strlit("jpg");
    assert(forall|i: int| 0 <= i < "jpg"@.len() ==> "jpg"@[i] != '"');
    lemma_parse_canonical(src, w, h, "jpg"@);
}

/// Closed-set exhaustiveness at the text level: canonical text whose
/// format token lies outside the closed set parses to an unrecognized
/// variant carrying that token, never to a default.
pub proof fn lemma_unknown_format(src: Seq<char>, w: Option<u32>, h: Option<u32>, tok: Seq<char>)
    requires
        forall|i: int| 0 <= i < tok.len() ==> tok[i] != '"',
        parse_format_token(tok) is None,
    ensures
        parse_json(json_text(src, w, h, tok)) == JsonParse::Unknown(tok),
{
    lemma_parse_canonical(src, w, h, tok);
}

} // verus!

