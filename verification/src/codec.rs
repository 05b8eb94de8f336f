//! Base64 (standard alphabet, padded) and UTF-8 decoding: the calls into the
//! `base64` crate and `String::from_utf8`.
use vstd::prelude::*;
use vstd::utf8::{decode_utf8, encode_utf8, valid_utf8};

use base64::Engine;

verus! {

/// The digit of a 6-bit value in the standard base64 alphabet:
/// `A`..`Z`, `a`..`z`, `0`..`9`, `+`, `/`.
pub open spec fn base64_digit(n: int) -> char {
    if n < 26 {
        (('A' as int) + n) as char
    } else if n < 52 {
        (('a' as int) + n - 26) as char
    } else if n < 62 {
        (('0' as int) + n - 52) as char
    } else if n == 62 {
        '+'
    } else {
        '/'
    }
}

/// The standard padded base64 text of `b`: every 3 bytes become 4 digits
/// of 6 bits each; a last group of 1 or 2 bytes becomes 2 or 3 digits (its
/// last bits padded with zeros) and `=` up to 4 characters.
pub open spec fn base64_of(b: Seq<u8>) -> Seq<char>
    decreases b.len(),
{
    if b.len() == 0 {
        seq![]
    } else if b.len() == 1 {
        let n = b[0] as int;
        seq![base64_digit(n / 4), base64_digit((n % 4) * 16), '=', '=']
    } else if b.len() == 2 {
        let n = (b[0] as int) * 256 + (b[1] as int);
        seq![base64_digit(n / 1024), base64_digit((n / 16) % 64), base64_digit((n % 16) * 4), '=']
    } else {
        let n = (b[0] as int) * 65536 + (b[1] as int) * 256 + (b[2] as int);
        seq![
            base64_digit(n / 262144),
            base64_digit((n / 4096) % 64),
            base64_digit((n / 64) % 64),
            base64_digit(n % 64),
        ] + base64_of(b.subrange(3, b.len() as int))
    }
}

/// What `base64::engine::general_purpose::STANDARD.decode` gives for the
/// UTF-8 bytes of `text`: the decoded bytes, or `None` for a decode error.
pub uninterp spec fn base64_standard_decoding(text: Seq<char>) -> Option<Seq<u8>>;

/// `base64::engine::general_purpose::STANDARD.encode(text)`: the standard
/// padded base64 of the UTF-8 bytes of `text`. The call panics only when
/// the encoded length overflows `usize`, which no string that fits in
/// memory reaches.
#[verifier::external_body]
pub(crate) fn base64_encode(text: &str) -> (r: String)
    ensures
        r@ == base64_of(encode_utf8(text@)),
{
    base64::engine::general_purpose::STANDARD.encode(text)
}

/// `base64::engine::general_purpose::STANDARD.decode(text)`, with the error
/// turned into `None`. The engine requires canonical padding and no
/// trailing bits, so it decodes exactly the texts that `base64_of` writes:
/// the bytes it returns encode to `text`, and it fails when no bytes do.
#[verifier::external_body]
pub(crate) fn base64_decode(text: &str) -> (r: Option<Vec<u8>>)
    ensures
        r matches Some(b) ==> base64_standard_decoding(text@) == Some(b@) && base64_of(b@)
            == text@,
        r is None ==> base64_standard_decoding(text@) is None && forall|b: Seq<u8>|
            base64_of(b) != text@,
{
    base64::engine::general_purpose::STANDARD.decode(text).ok()
}

/// `String::from_utf8(bytes)`, with the error turned into `None`: the string
/// that the bytes encode when they are valid UTF-8.
#[verifier::external_body]
pub(crate) fn utf8_text(bytes: Vec<u8>) -> (r: Option<String>)
    ensures
        r matches Some(s) ==> valid_utf8(bytes@) && s@ == decode_utf8(bytes@),
        r is None ==> !valid_utf8(bytes@),
{
    String::from_utf8(bytes).ok()
}

} // verus!
