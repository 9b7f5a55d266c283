//! Request signatures of notification channels: HMAC-SHA256 in hexadecimal,
//! and the timestamped DingTalk and Feishu signatures.

use vstd::prelude::*;
use vstd::string::*;
use hmac::Mac;
use base64::Engine;

verus! {

/// HMAC-SHA256 of a message under a key.
pub uninterp spec fn hmac_sha256_digest(key: Seq<u8>, message: Seq<u8>) -> Seq<u8>;

/// Digit `n` (below 64) of the standard base64 alphabet.
pub open spec fn b64_char(n: int) -> char {
    if n < 26 {
        ((n + 65) as u32) as char
    } else if n < 52 {
        ((n + 71) as u32) as char
    } else if n < 62 {
        ((n - 4) as u32) as char
    } else if n == 62 {
        '+'
    } else {
        '/'
    }
}

/// Standard base64 with padding: each group of three bytes becomes four
/// digits; a final group of one or two bytes becomes two or three digits
/// padded with `=` to four.
pub open spec fn base64_standard(bytes: Seq<u8>) -> Seq<char>
    decreases bytes.len(),
{
    if bytes.len() == 0 {
        seq![]
    } else if bytes.len() == 1 {
        let a = bytes[0] as int;
        seq![b64_char(a / 4), b64_char((a % 4) * 16), '=', '=']
    } else if bytes.len() == 2 {
        let a = bytes[0] as int;
        let b = bytes[1] as int;
        seq![b64_char(a / 4), b64_char((a % 4) * 16 + b / 16), b64_char((b % 16) * 4), '=']
    } else {
        let a = bytes[0] as int;
        let b = bytes[1] as int;
        let c = bytes[2] as int;
        seq![b64_char(a / 4), b64_char((a % 4) * 16 + b / 16), b64_char((b % 16) * 4 + c / 64), b64_char(c % 64)]
            + base64_standard(bytes.subrange(3, bytes.len() as int))
    }
}

/// Bytes a URL component carries as they are: ASCII letters, digits and
/// `-`, `.`, `_`, `~`.
pub open spec fn url_unreserved(b: u8) -> bool {
    (48 <= b <= 57) || (65 <= b <= 90) || (97 <= b <= 122) || b == 45 || b == 46 || b == 95 || b == 126
}

/// Upper-case hexadecimal digit of a nibble.
pub open spec fn upper_hex(n: int) -> char {
    if n < 10 {
        ((n + 48) as u32) as char
    } else {
        ((n + 55) as u32) as char
    }
}

/// Percent-encoding of bytes: unreserved bytes as themselves, every other
/// byte as `%` and two upper-case hexadecimal digits.
pub open spec fn percent_encoded(bytes: Seq<u8>) -> Seq<char>
    decreases bytes.len(),
{
    if bytes.len() == 0 {
        seq![]
    } else {
        let b = bytes.last();
        percent_encoded(bytes.drop_last()) + if url_unreserved(b) {
            seq![(b as u32) as char]
        } else {
            seq!['%', upper_hex(b as int / 16), upper_hex(b as int % 16)]
        }
    }
}

/// Percent-encoding of a text for a URL component: of its UTF-8 bytes.
pub open spec fn url_component(text: Seq<char>) -> Seq<char> {
    percent_encoded(vstd::utf8::encode_utf8(text))
}

/// HMAC-SHA256 (`hmac::Hmac<sha2::Sha256>`: `new_from_slice`, `update`,
/// `finalize`): the 32-byte tag of the message under the key. HMAC accepts
/// keys of every length, so construction does not fail.
#[verifier::external_body]
fn hmac_sha256(key: &[u8], message: &[u8]) -> (r: Vec<u8>)
    ensures
        r@ == hmac_sha256_digest(key@, message@),
        r@.len() == 32,
{
    let mut mac = hmac::Hmac::<sha2::Sha256>::new_from_slice(key).expect("HMAC accepts any key size");
    mac.update(message);
    mac.finalize().into_bytes().to_vec()
}

/// `base64::engine::general_purpose::STANDARD.encode`: base64 over the
/// standard alphabet, padded.
#[verifier::external_body]
fn base64_encode(bytes: &[u8]) -> (r: String)
    ensures
        r@ == base64_standard(bytes@),
{
    base64::engine::general_purpose::STANDARD.encode(bytes)
}

/// `urlencoding::encode`: percent-encoding of every byte outside the
/// unreserved set.
#[verifier::external_body]
fn url_encode(text: &str) -> (r: String)
    ensures
        r@ == url_component(text@),
{
    urlencoding::encode(text).into_owned()
}

/// Lower-case hexadecimal digit of a nibble.
pub open spec fn hex_char(n: int) -> char {
    if n < 10 {
        ((n + 48) as u32) as char
    } else {
        ((n + 87) as u32) as char
    }
}

/// Lower-case hexadecimal text of some bytes, two digits per byte.
pub open spec fn hex_lower(bytes: Seq<u8>) -> Seq<char>
    decreases bytes.len(),
{
    if bytes.len() == 0 {
        Seq::empty()
    } else {
        hex_lower(bytes.drop_last()) + seq![hex_char(bytes.last() as int / 16), hex_char(bytes.last() as int % 16)]
    }
}

fn nibble_char(n: u8) -> (c: char)
    requires
        n < 16,
    ensures
        c == hex_char(n as int),
{
    if n < 10 {
        (n + 48) as char
    } else {
        (n + 87) as char
    }
}

/// Lower-case hexadecimal text of some bytes.
pub fn hex_encode(bytes: &[u8]) -> (r: String)
    ensures
        r@ == hex_lower(bytes@),
{
    let mut out: Vec<char> = Vec::new();
    let mut i: usize = 0;
    while i < bytes.len()
        invariant
            0 <= i <= bytes@.len(),
            out@ == hex_lower(bytes@.take(i as int)),
        decreases bytes@.len() - i,
    {
        let b = bytes[i];
        out.push(nibble_char(b / 16));
        out.push(nibble_char(b % 16));
        assert(bytes@.take(i + 1).drop_last() == bytes@.take(i as int));
        i = i + 1;
    }
    assert(bytes@.take(bytes@.len() as int) == bytes@);
    crate::text::string_of(&out)
}

proof fn lemma_hex_lower_len(bytes: Seq<u8>)
    ensures
        hex_lower(bytes).len() == 2 * bytes.len(),
    decreases bytes.len(),
{
    if bytes.len() > 0 {
        lemma_hex_lower_len(bytes.drop_last());
    }
}

/// Hexadecimal HMAC-SHA256 of a request body under the channel secret.
pub fn hmac_sha256_hex(secret: &str, body: &[u8]) -> (r: String)
    ensures
        r@ == hex_lower(hmac_sha256_digest(secret.spec_bytes(), body@)),
        r@.len() == 64,
{
    let tag = hmac_sha256(secret.as_bytes(), body);
    proof {
        lemma_hex_lower_len(tag@);
    }
    hex_encode(&tag)
}

/// Decimal text of a signed number.
pub open spec fn signed_decimal(v: i64) -> Seq<char> {
    if v < 0 {
        seq!['-'] + crate::text::decimal((-(v as int)) as nat)
    } else {
        crate::text::decimal(v as nat)
    }
}

pub fn signed_decimal_chars(v: i64) -> (r: Vec<char>)
    ensures
        r@ == signed_decimal(v),
{
    if v < 0 {
        let mag: u64 = if v == i64::MIN {
            9_223_372_036_854_775_808u64
        } else {
            (-v) as u64
        };
        let mut out: Vec<char> = vec!['-'];
        let digits = crate::text::decimal_chars(mag);
        crate::text::extend_chars(&mut out, &digits);
        assert(out@ =~= signed_decimal(v));
        out
    } else {
        crate::text::decimal_chars(v as u64)
    }
}

/// `timestamp` and `secret` joined by a newline.
pub open spec fn signing_text(timestamp: i64, secret: Seq<char>) -> Seq<char> {
    signed_decimal(timestamp) + seq!['\n'] + secret
}

fn signing_string(timestamp: i64, secret: &str) -> (r: String)
    ensures
        r@ == signing_text(timestamp, secret@),
{
    let mut cs = signed_decimal_chars(timestamp);
    cs.push('\n');
    let s = crate::text::chars_of(secret);
    crate::text::extend_chars(&mut cs, &s);
    crate::text::string_of(&cs)
}

/// DingTalk robot signature: the URL-encoded base64 HMAC-SHA256 of
/// "timestamp\nsecret" under the secret.
pub fn dingtalk_sign(timestamp_ms: i64, secret: &str) -> (r: String)
    ensures
        r@ == url_component(base64_standard(hmac_sha256_digest(secret.spec_bytes(), vstd::utf8::encode_utf8(signing_text(timestamp_ms, secret@))))),
{
    let string_to_sign = signing_string(timestamp_ms, secret);
    let tag = hmac_sha256(secret.as_bytes(), string_to_sign.as_str().as_bytes());
    let b64 = base64_encode(&tag);
    url_encode(b64.as_str())
}

/// Feishu robot signature: the base64 HMAC-SHA256 of the empty message under
/// the key "timestamp\nsecret".
pub fn feishu_sign(timestamp_secs: i64, secret: &str) -> (r: String)
    ensures
        r@ == base64_standard(hmac_sha256_digest(vstd::utf8::encode_utf8(signing_text(timestamp_secs, secret@)), Seq::<u8>::empty())),
{
    let key = signing_string(timestamp_secs, secret);
    let empty: Vec<u8> = Vec::new();
    assert(empty@ =~= Seq::<u8>::empty());
    let tag = hmac_sha256(key.as_str().as_bytes(), &empty);
    base64_encode(&tag)
}

/// Milliseconds of a time given in whole seconds: the seconds as an `i64`,
/// times 1000 with two's-complement wrap.
pub open spec fn spec_millis(secs: u64) -> i64 {
    vstd::wrapping::i64_specs::wrapping_mul(secs as i64, 1000)
}

/// Milliseconds of a time given in whole seconds (two's-complement wrap on overflow).
pub fn millis_from_secs(secs: u64) -> (r: i64)
    ensures
        r == spec_millis(secs),
        secs <= 9_223_372_036_854_775 ==> r == secs * 1000,
{
    (secs as i64).wrapping_mul(1000)
}

/// Current time in milliseconds since the Unix epoch: the milliseconds of
/// the whole seconds the system clock reads.
pub fn now_millis() -> (r: i64)
    ensures
        exists|secs: u64| r == #[trigger] spec_millis(secs),
{
    let secs = crate::events::now_unix();
    let r = millis_from_secs(secs);
    assert(r == spec_millis(secs));
    r
}

} // verus!
