//! The codecs: percent-encoding, base64, hexadecimal, UTF-8, HMAC, lower case and URLs.
//!
//! Each function here hands its argument to one outside function. The specification functions
//! above it say what comes back.

use crate::text::Text;
use base64::engine::general_purpose::{STANDARD, URL_SAFE_NO_PAD};
use base64::Engine;
use hmac::{Hmac, Mac};
use percent_encoding::{percent_decode_str, utf8_percent_encode, NON_ALPHANUMERIC};
use sha2::Sha256;
use vstd::prelude::*;
use vstd::utf8::*;
use worker::Url;

verus! {

// ---------------------------------------------------------------------------
// Percent-encoding
// ---------------------------------------------------------------------------

/// The value of an ASCII hexadecimal digit of either case.
pub open spec fn hex_value(b: u8) -> Option<int> {
    if 48 <= b <= 57 {
        Some(b - 48)
    } else if 65 <= b <= 70 {
        Some(b - 55)
    } else if 97 <= b <= 102 {
        Some(b - 87)
    } else {
        None
    }
}

/// `bytes` with each `%` that two hexadecimal digits follow decoded to one byte.
pub open spec fn percent_decoded(bytes: Seq<u8>) -> Seq<u8>
    decreases bytes.len(),
{
    if bytes.len() == 0 {
        Seq::empty()
    } else if bytes[0] == 37 && bytes.len() >= 3 && hex_value(bytes[1]) is Some && hex_value(
        bytes[2],
    ) is Some {
        seq![(16 * hex_value(bytes[1])->0 + hex_value(bytes[2])->0) as u8] + percent_decoded(
            bytes.skip(3),
        )
    } else {
        seq![bytes[0]] + percent_decoded(bytes.skip(1))
    }
}

/// The text that `path` stands for once its UTF-8 bytes are percent-decoded; none if the decoded
/// bytes are not UTF-8.
pub open spec fn decoded_path(path: Text) -> Option<Text> {
    let bytes = percent_decoded(encode_utf8(path));
    if valid_utf8(bytes) {
        Some(decode_utf8(bytes))
    } else {
        None
    }
}

/// `percent_decode_str(path).decode_utf8()` of the percent-encoding crate: decodes every `%XX` and
/// reads the resulting bytes as UTF-8, failing exactly when they are not well formed.
#[verifier::external_body]
pub(crate) fn percent_decode(path: &str) -> (r: Option<String>)
    ensures
        r.deep_view() == decoded_path(path@),
{
    match percent_decode_str(path).decode_utf8() {
        Ok(text) => Some(text.into_owned()),
        Err(_) => None,
    }
}

/// An ASCII letter or digit.
pub open spec fn is_alphanumeric(b: u8) -> bool {
    48 <= b <= 57 || 65 <= b <= 90 || 97 <= b <= 122
}

/// The capital hexadecimal digit for `v`.
pub open spec fn upper_hex_digit(v: int) -> char {
    if v < 10 {
        (48 + v) as char
    } else {
        (55 + v) as char
    }
}

/// One byte in percent-encoding: letters and digits stay, all else becomes `%XX`.
pub open spec fn percent_encoded_byte(b: u8) -> Text {
    if is_alphanumeric(b) {
        seq![b as char]
    } else {
        seq!['%', upper_hex_digit(b as int / 16), upper_hex_digit(b as int % 16)]
    }
}

/// `bytes` in percent-encoding.
pub open spec fn percent_encoded(bytes: Seq<u8>) -> Text
    decreases bytes.len(),
{
    if bytes.len() == 0 {
        Seq::empty()
    } else {
        percent_encoded_byte(bytes[0]) + percent_encoded(bytes.skip(1))
    }
}

/// `utf8_percent_encode(text, NON_ALPHANUMERIC)` of the percent-encoding crate: every byte of the
/// UTF-8 encoding that is no ASCII letter or digit becomes `%` and two capital hexadecimal digits.
#[verifier::external_body]
pub(crate) fn percent_encode(text: &str) -> (r: String)
    ensures
        r@ == percent_encoded(encode_utf8(text@)),
{
    utf8_percent_encode(text, NON_ALPHANUMERIC).to_string()
}

// ---------------------------------------------------------------------------
// Base64
// ---------------------------------------------------------------------------

/// The base64 digit for a value below 64; `c62` and `c63` are the last two of the alphabet.
pub open spec fn base64_digit(v: int, c62: char, c63: char) -> char {
    if v < 26 {
        (65 + v) as char
    } else if v < 52 {
        (71 + v) as char
    } else if v < 62 {
        (v - 4) as char
    } else if v == 62 {
        c62
    } else {
        c63
    }
}

/// `bytes` in base64: each three bytes give four digits of six bits, and one or two bytes at the
/// end give two or three digits, filled up with `=` where `pad` says so.
pub open spec fn base64_text(bytes: Seq<u8>, c62: char, c63: char, pad: bool) -> Text
    decreases bytes.len(),
{
    let d = |v: int| base64_digit(v, c62, c63);
    if bytes.len() == 0 {
        Seq::empty()
    } else if bytes.len() == 1 {
        let a = bytes[0] as int;
        seq![d(a / 4), d(a % 4 * 16)] + if pad { seq!['=', '='] } else { Seq::empty() }
    } else if bytes.len() == 2 {
        let a = bytes[0] as int;
        let b = bytes[1] as int;
        seq![d(a / 4), d(a % 4 * 16 + b / 16), d(b % 16 * 4)] + if pad {
            seq!['=']
        } else {
            Seq::empty()
        }
    } else {
        let a = bytes[0] as int;
        let b = bytes[1] as int;
        let c = bytes[2] as int;
        seq![d(a / 4), d(a % 4 * 16 + b / 16), d(b % 16 * 4 + c / 64), d(c % 64)] + base64_text(
            bytes.skip(3),
            c62,
            c63,
            pad,
        )
    }
}

/// `bytes` in the standard base64 alphabet, with padding.
pub open spec fn standard_base64(bytes: Seq<u8>) -> Text {
    base64_text(bytes, '+', '/', true)
}

/// `bytes` in the URL-safe base64 alphabet, without padding.
pub open spec fn url_base64(bytes: Seq<u8>) -> Text {
    base64_text(bytes, '-', '_', false)
}

/// `STANDARD.encode` of the base64 crate: RFC 4648 base64 with padding.
#[verifier::external_body]
pub(crate) fn base64_encode(bytes: &[u8]) -> (r: String)
    ensures
        r@ == standard_base64(bytes@),
{
    STANDARD.encode(bytes)
}

/// `STANDARD.decode` of the base64 crate: the bytes whose canonical padded encoding `text` is; it
/// fails on every other text, such as one with bits left over or without its padding.
#[verifier::external_body]
pub(crate) fn base64_decode(text: &str) -> (r: Option<Vec<u8>>)
    ensures
        r matches Some(bytes) ==> text@ == standard_base64(bytes@),
        r is None ==> forall|bytes: Seq<u8>| text@ != #[trigger] standard_base64(bytes),
{
    STANDARD.decode(text).ok()
}

/// `URL_SAFE_NO_PAD.encode` of the base64 crate: URL-safe base64 without padding.
#[verifier::external_body]
pub(crate) fn base64_url_encode(bytes: &[u8]) -> (r: String)
    ensures
        r@ == url_base64(bytes@),
{
    URL_SAFE_NO_PAD.encode(bytes)
}

/// `URL_SAFE_NO_PAD.decode` of the base64 crate: the bytes whose encoding without padding `text`
/// is; it fails on every other text.
#[verifier::external_body]
pub(crate) fn base64_url_decode(text: &str) -> (r: Option<Vec<u8>>)
    ensures
        r matches Some(bytes) ==> text@ == url_base64(bytes@),
        r is None ==> forall|bytes: Seq<u8>| text@ != #[trigger] url_base64(bytes),
{
    URL_SAFE_NO_PAD.decode(text).ok()
}

// ---------------------------------------------------------------------------
// Hexadecimal, HMAC, UTF-8, lower case
// ---------------------------------------------------------------------------

/// The small hexadecimal digit for `v`.
pub open spec fn lower_hex_digit(v: int) -> char {
    if v < 10 {
        (48 + v) as char
    } else {
        (87 + v) as char
    }
}

/// `bytes` in hexadecimal: two digits for each byte, the high one first.
pub open spec fn lower_hex(bytes: Seq<u8>) -> Text {
    Seq::new(
        2 * bytes.len(),
        |i: int|
            lower_hex_digit(
                if i % 2 == 0 {
                    bytes[i / 2] as int / 16
                } else {
                    bytes[i / 2] as int % 16
                },
            ),
    )
}

/// `hex::encode`: two small hexadecimal digits for each byte.
#[verifier::external_body]
pub(crate) fn hex_encode(bytes: &[u8]) -> (r: String)
    ensures
        r@ == lower_hex(bytes@),
{
    hex::encode(bytes)
}

/// The HMAC-SHA256 of a message under a key.
pub uninterp spec fn hmac_sha256(key: Seq<u8>, message: Seq<u8>) -> Seq<u8>;

/// `Hmac::<Sha256>` of the hmac and sha2 crates, keyed with `key` and fed `message`. It takes keys
/// of any length, and the code has the 32 bytes of a SHA-256 digest. How it is computed is left
/// unsaid.
#[verifier::external_body]
pub(crate) fn hmac_sha256_of(key: &[u8], message: &[u8]) -> (r: Vec<u8>)
    ensures
        r@ == hmac_sha256(key@, message@),
        r@.len() == 32,
{
    let mut mac = <Hmac<Sha256> as Mac>::new_from_slice(key)
        .expect("HMAC accepts arbitrary key lengths");
    mac.update(message);
    mac.finalize().into_bytes().to_vec()
}

/// `bytes` read as UTF-8, if they are UTF-8.
pub open spec fn utf8_text(bytes: Seq<u8>) -> Option<Text> {
    if valid_utf8(bytes) {
        Some(decode_utf8(bytes))
    } else {
        None
    }
}

/// `std::str::from_utf8`: the text that the bytes encode, failing exactly when they are not valid
/// UTF-8.
#[verifier::external_body]
pub(crate) fn text_from_utf8(bytes: &[u8]) -> (r: Option<String>)
    ensures
        r.deep_view() == utf8_text(bytes@),
{
    match std::str::from_utf8(bytes) {
        Ok(text) => Some(text.to_owned()),
        Err(_) => None,
    }
}

/// A text in lower case, by the rules of Unicode.
pub uninterp spec fn unicode_lowercase(s: Text) -> Text;

/// `str::to_lowercase`: the lower-case form of the text. The tables of Unicode are left unsaid.
#[verifier::external_body]
pub(crate) fn to_lowercase(s: &str) -> (r: String)
    ensures
        r@ == unicode_lowercase(s@),
{
    s.to_lowercase()
}

// ---------------------------------------------------------------------------
// URLs
// ---------------------------------------------------------------------------

/// The path of an absolute URL; none if the text is no absolute URL.
pub uninterp spec fn url_path(url: Text) -> Option<Text>;

/// `Url::parse` of the worker crate, and the path of what it parsed. The grammar of URLs is left
/// unsaid.
#[verifier::external_body]
pub(crate) fn parse_url_path(url: &str) -> (r: Option<String>)
    ensures
        r.deep_view() == url_path(url@),
{
    match Url::parse(url) {
        Ok(parsed) => Some(parsed.path().to_string()),
        Err(_) => None,
    }
}

/// The decoded name and value pairs in the query of an absolute URL, in their order; none if the
/// text is no absolute URL.
pub uninterp spec fn url_query_pairs(url: Text) -> Option<Seq<(Text, Text)>>;

/// `Url::parse` of the worker crate, and the `query_pairs` of what it parsed. The grammar of URLs
/// and of their queries is left unsaid.
#[verifier::external_body]
pub(crate) fn parse_url_query(url: &str) -> (r: Option<Vec<(String, String)>>)
    ensures
        r.deep_view() == url_query_pairs(url@),
{
    match Url::parse(url) {
        Ok(parsed) => Some(
            parsed.query_pairs().map(|(name, value)| (name.into_owned(), value.into_owned())).collect(),
        ),
        Err(_) => None,
    }
}

// ---------------------------------------------------------------------------
// What the codecs undo
// ---------------------------------------------------------------------------

/// The ASCII bytes of a text.
pub open spec fn ascii_bytes(s: Text) -> Seq<u8> {
    Seq::new(s.len(), |i: int| s[i] as u8)
}

/// Percent-encoding is ASCII, and holds no `/`.
pub proof fn lemma_percent_encoded_ascii(bytes: Seq<u8>)
    ensures
        forall|i: int|
            0 <= i < percent_encoded(bytes).len() ==> {
                let c = #[trigger] percent_encoded(bytes)[i];
                c == '%' || '0' <= c <= '9' || 'A' <= c <= 'Z' || 'a' <= c <= 'z'
            },
    decreases bytes.len(),
{
    if bytes.len() > 0 {
        let head = percent_encoded_byte(bytes[0]);
        let tail = percent_encoded(bytes.skip(1));
        lemma_percent_encoded_ascii(bytes.skip(1));
        let all = percent_encoded(bytes);
        assert forall|i: int| 0 <= i < all.len() implies {
            let c = #[trigger] all[i];
            c == '%' || '0' <= c <= '9' || 'A' <= c <= 'Z' || 'a' <= c <= 'z'
        } by {
            if i < head.len() {
                assert(all[i] == head[i]);
            } else {
                assert(all[i] == tail[i - head.len()]);
            }
        }
    }
}

/// Decoding percent-encoded bytes, whatever follows them, gives the bytes back.
pub proof fn lemma_percent_round_trip(bytes: Seq<u8>, rest: Seq<u8>)
    ensures
        percent_decoded(ascii_bytes(percent_encoded(bytes)) + rest) == bytes + percent_decoded(
            rest,
        ),
    decreases bytes.len(),
{
    if bytes.len() == 0 {
        assert(ascii_bytes(percent_encoded(bytes)) + rest == rest);
        assert(bytes + percent_decoded(rest) == percent_decoded(rest));
    } else {
        let b = bytes[0];
        let tail = bytes.skip(1);
        lemma_percent_round_trip(tail, rest);
        let tail_code = ascii_bytes(percent_encoded(tail)) + rest;
        let code = ascii_bytes(percent_encoded(bytes)) + rest;
        assert(code == ascii_bytes(percent_encoded_byte(b)) + tail_code);
        if is_alphanumeric(b) {
            assert(code[0] == b);
            assert(code.skip(1) == tail_code);
        } else {
            let h = b as int / 16;
            let l = b as int % 16;
            assert(code[0] == 37);
            assert(code[1] == upper_hex_digit(h) as u8);
            assert(code[2] == upper_hex_digit(l) as u8);
            assert(hex_value(code[1]) == Some(h));
            assert(hex_value(code[2]) == Some(l));
            assert(code.skip(3) == tail_code);
            assert((16 * h + l) as u8 == b);
        }
        assert(percent_decoded(code) == seq![b] + (tail + percent_decoded(rest)));
        assert(seq![b] + (tail + percent_decoded(rest)) == bytes + percent_decoded(rest));
    }
}

/// Two byte strings with the same base64 form are the same.
pub proof fn lemma_base64_injective(x: Seq<u8>, y: Seq<u8>, c62: char, c63: char, pad: bool)
    requires
        base64_text(x, c62, c63, pad) == base64_text(y, c62, c63, pad),
        (c62 == '+' && c63 == '/') || (c62 == '-' && c63 == '_'),
    ensures
        x == y,
    decreases x.len(),
{
    let s = base64_text(x, c62, c63, pad);
    lemma_base64_shape(x, c62, c63, pad);
    lemma_base64_shape(y, c62, c63, pad);
    if x.len() == 0 {
        assert(y.len() == 0);
    } else if x.len() >= 3 {
        assert(y.len() >= 3);
        lemma_base64_head(x, c62, c63, pad);
        lemma_base64_head(y, c62, c63, pad);
        lemma_base64_injective(x.skip(3), y.skip(3), c62, c63, pad);
        assert forall|i: int| 0 <= i < x.len() implies x[i] == y[i] by {
            if i >= 3 {
                assert(x[i] == x.skip(3)[i - 3]);
                assert(y[i] == y.skip(3)[i - 3]);
            }
        }
        assert(x.skip(3).len() == y.skip(3).len());
    } else {
        assert(x.len() == y.len());
        lemma_base64_digit_injective(x[0] as int / 4, y[0] as int / 4, c62, c63);
        assert(s[0] == base64_digit(x[0] as int / 4, c62, c63));
        assert(s[0] == base64_digit(y[0] as int / 4, c62, c63));
        if x.len() == 1 {
            assert(s[1] == base64_digit(x[0] as int % 4 * 16, c62, c63));
            assert(s[1] == base64_digit(y[0] as int % 4 * 16, c62, c63));
            lemma_base64_digit_injective(
                x[0] as int % 4 * 16,
                y[0] as int % 4 * 16,
                c62,
                c63,
            );
        } else {
            assert(s[1] == base64_digit(x[0] as int % 4 * 16 + x[1] as int / 16, c62, c63));
            assert(s[1] == base64_digit(y[0] as int % 4 * 16 + y[1] as int / 16, c62, c63));
            assert(s[2] == base64_digit(x[1] as int % 16 * 4, c62, c63));
            assert(s[2] == base64_digit(y[1] as int % 16 * 4, c62, c63));
            lemma_base64_digit_injective(
                x[0] as int % 4 * 16 + x[1] as int / 16,
                y[0] as int % 4 * 16 + y[1] as int / 16,
                c62,
                c63,
            );
            lemma_base64_digit_injective(
                x[1] as int % 16 * 4,
                y[1] as int % 16 * 4,
                c62,
                c63,
            );
        }
        assert(x =~= y);
    }
}

proof fn lemma_base64_digit_injective(v: int, w: int, c62: char, c63: char)
    requires
        0 <= v < 64,
        0 <= w < 64,
        (c62 == '+' && c63 == '/') || (c62 == '-' && c63 == '_'),
    ensures
        base64_digit(v, c62, c63) == base64_digit(w, c62, c63) ==> v == w,
        base64_digit(v, c62, c63) != '=',
        base64_digit(v, c62, c63) != '.',
{
}

/// How long a base64 form is, and which form it ends in.
proof fn lemma_base64_shape(x: Seq<u8>, c62: char, c63: char, pad: bool)
    requires
        (c62 == '+' && c63 == '/') || (c62 == '-' && c63 == '_'),
    ensures
        ({
            let s = base64_text(x, c62, c63, pad);
            let n = x.len();
            &&& pad ==> s.len() == (n + 2) / 3 * 4
            &&& !pad ==> s.len() == n / 3 * 4 + (if n % 3 == 0 { 0 } else { n % 3 + 1 })
            &&& pad && n > 0 ==> (s[s.len() - 1] == '=' <==> n % 3 != 0)
            &&& pad && n > 0 ==> (s[s.len() - 2] == '=' <==> n % 3 == 1)
            &&& forall|i: int| 0 <= i < s.len() ==> #[trigger] s[i] != '.'
        }),
    decreases x.len(),
{
    let s = base64_text(x, c62, c63, pad);
    if x.len() >= 3 {
        lemma_base64_shape(x.skip(3), c62, c63, pad);
        lemma_base64_head(x, c62, c63, pad);
        let rest = base64_text(x.skip(3), c62, c63, pad);
        assert forall|i: int| 0 <= i < s.len() implies #[trigger] s[i] != '.' by {
            if i >= 4 {
                assert(s[i] == rest[i - 4]);
            }
        }
        if x.len() > 3 {
            assert(s[s.len() - 1] == rest[rest.len() - 1]);
            assert(s[s.len() - 2] == rest[rest.len() - 2]);
        } else {
            assert(rest.len() == 0);
        }
    } else if x.len() == 2 {
        lemma_base64_digit_injective(x[0] as int / 4, 0, c62, c63);
        lemma_base64_digit_injective(x[0] as int % 4 * 16 + x[1] as int / 16, 0, c62, c63);
        lemma_base64_digit_injective(x[1] as int % 16 * 4, 0, c62, c63);
    } else if x.len() == 1 {
        lemma_base64_digit_injective(x[0] as int / 4, 0, c62, c63);
        lemma_base64_digit_injective(x[0] as int % 4 * 16, 0, c62, c63);
    }
}

/// The first four digits fix the first three bytes.
proof fn lemma_base64_head(x: Seq<u8>, c62: char, c63: char, pad: bool)
    requires
        x.len() >= 3,
        (c62 == '+' && c63 == '/') || (c62 == '-' && c63 == '_'),
    ensures
        ({
            let s = base64_text(x, c62, c63, pad);
            &&& s.len() >= 4
            &&& s.skip(4) == base64_text(x.skip(3), c62, c63, pad)
            &&& s[0] != '=' && s[1] != '=' && s[2] != '=' && s[3] != '='
            &&& s[0] != '.' && s[1] != '.' && s[2] != '.' && s[3] != '.'
            &&& forall|y: Seq<u8>|
                y.len() >= 3 && (#[trigger] base64_text(y, c62, c63, pad)) == s ==> x[0] == y[0]
                    && x[1] == y[1] && x[2] == y[2]
        }),
{
    let s = base64_text(x, c62, c63, pad);
    let (a, b, c) = (x[0] as int, x[1] as int, x[2] as int);
    assert(s.skip(4) =~= base64_text(x.skip(3), c62, c63, pad));
    lemma_base64_digit_injective(a / 4, 0, c62, c63);
    lemma_base64_digit_injective(a % 4 * 16 + b / 16, 0, c62, c63);
    lemma_base64_digit_injective(b % 16 * 4 + c / 64, 0, c62, c63);
    lemma_base64_digit_injective(c % 64, 0, c62, c63);
    assert forall|y: Seq<u8>|
        y.len() >= 3 && (#[trigger] base64_text(y, c62, c63, pad)) == s implies x[0] == y[0]
        && x[1] == y[1] && x[2] == y[2] by {
        let t = base64_text(y, c62, c63, pad);
        let (d, e, f) = (y[0] as int, y[1] as int, y[2] as int);
        assert(t[0] == base64_digit(d / 4, c62, c63));
        assert(t[1] == base64_digit(d % 4 * 16 + e / 16, c62, c63));
        assert(t[2] == base64_digit(e % 16 * 4 + f / 64, c62, c63));
        assert(t[3] == base64_digit(f % 64, c62, c63));
        lemma_base64_digit_injective(a / 4, d / 4, c62, c63);
        lemma_base64_digit_injective(a % 4 * 16 + b / 16, d % 4 * 16 + e / 16, c62, c63);
        lemma_base64_digit_injective(b % 16 * 4 + c / 64, e % 16 * 4 + f / 64, c62, c63);
        lemma_base64_digit_injective(c % 64, f % 64, c62, c63);
    }
}

/// The standard base64 form fixes the bytes.
pub proof fn lemma_standard_base64_injective(x: Seq<u8>, y: Seq<u8>)
    requires
        standard_base64(x) == standard_base64(y),
    ensures
        x == y,
{
    lemma_base64_injective(x, y, '+', '/', true);
}

/// The URL-safe base64 form fixes the bytes and holds no dot.
pub proof fn lemma_url_base64(x: Seq<u8>)
    ensures
        !url_base64(x).contains('.'),
        forall|y: Seq<u8>| #[trigger] url_base64(y) == url_base64(x) ==> x == y,
{
    lemma_base64_shape(x, '-', '_', false);
    assert forall|y: Seq<u8>| #[trigger] url_base64(y) == url_base64(x) implies x == y by {
        lemma_base64_injective(x, y, '-', '_', false);
    }
}

} // verus!
