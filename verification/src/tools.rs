//! Decoding of base64 and of percent-encoded text.

use base64::prelude::BASE64_STANDARD;
use base64::Engine;
use vstd::prelude::*;
use vstd::utf8::{decode_utf8, valid_utf8};

use crate::text::chars_of;

verus! {

#[verifier::external_type_specification]
#[verifier::external_body]
pub struct ExDecodeError(base64::DecodeError);

#[verifier::external_type_specification]
#[verifier::external_body]
pub struct ExFromUtf8Error(std::string::FromUtf8Error);

/// The bytes that the standard base64 alphabet with canonical padding
/// decodes `input` to, if `input` is such an encoding.
pub uninterp spec fn base64_decoded(input: Seq<char>) -> Option<Seq<u8>>;

/// The text that percent-decoding makes of `encoded`, if the decoded bytes
/// are UTF-8.
pub uninterp spec fn percent_decoded(encoded: Seq<char>) -> Option<Seq<char>>;

/// `Engine::decode` of `base64::prelude::BASE64_STANDARD`: the decoded bytes,
/// or the decoder's error. What it decodes to is named by `base64_decoded`;
/// the one value stated is that the empty input decodes to no bytes.
#[verifier::external_body]
fn base64_decode(input: &str) -> (r: Result<Vec<u8>, base64::DecodeError>)
    ensures
        match r {
            Ok(bytes) => base64_decoded(input@) == Some(bytes@),
            Err(_) => base64_decoded(input@) is None,
        },
        input@.len() == 0 ==> r is Ok && r->Ok_0@.len() == 0,
{
    BASE64_STANDARD.decode(input)
}

/// `String::from_utf8`: the string that the bytes encode, exactly when they
/// are well-formed UTF-8.
#[verifier::external_body]
fn string_from_utf8(bytes: Vec<u8>) -> (r: Result<String, std::string::FromUtf8Error>)
    ensures
        match r {
            Ok(s) => valid_utf8(bytes@) && s@ == decode_utf8(bytes@),
            Err(_) => !valid_utf8(bytes@),
        },
{
    String::from_utf8(bytes)
}

/// `urlencoding::decode`: the percent-decoded text, or nothing where the
/// decoded bytes are not UTF-8. What it decodes to is named by
/// `percent_decoded`; the one case stated is that a text without `%` comes
/// back as it is.
#[verifier::external_body]
fn percent_decode(encoded: &str) -> (r: Option<String>)
    ensures
        match r {
            Some(s) => percent_decoded(encoded@) == Some(s@),
            None => percent_decoded(encoded@) is None,
        },
        !encoded@.contains('%') ==> r is Some && r->Some_0@ == encoded@,
{
    match urlencoding::decode(encoded) {
        Ok(text) => Some(text.into_owned()),
        Err(_) => None,
    }
}

/// Why a text that looks like base64 could not be decoded.
#[derive(Debug, Clone, Copy, PartialEq, Eq, Structural)]
pub enum DecodeFailure {
    /// The text is no canonical base64 encoding.
    NotBase64,
    /// The decoded bytes are not UTF-8.
    NotUtf8,
}

/// A character of the base64 alphabet, the padding sign included.
pub open spec fn is_base64_char(c: char) -> bool {
    ('0' <= c <= '9') || ('a' <= c <= 'z') || ('A' <= c <= 'Z') || c == '+' || c == '/' || c
        == '='
}

/// Every character of `s` belongs to the base64 alphabet.
pub open spec fn is_base64_text(s: Seq<char>) -> bool {
    forall|i: int| 0 <= i < s.len() ==> is_base64_char(#[trigger] s[i])
}

/// What `decode_base64` makes of `input`: a text with a character outside
/// the base64 alphabet stands for itself; any other text is decoded, and
/// gives nothing where it is no base64 encoding or encodes no UTF-8.
pub open spec fn decoded_text(input: Seq<char>) -> Option<Seq<char>> {
    if !is_base64_text(input) {
        Some(input)
    } else {
        match base64_decoded(input) {
            Some(bytes) => if valid_utf8(bytes) {
                Some(decode_utf8(bytes))
            } else {
                None
            },
            None => None,
        }
    }
}

/// Whether every character of `input` belongs to the base64 alphabet.
pub fn is_base64(input: &str) -> (r: bool)
    ensures
        r == is_base64_text(input@),
{
    let chars = chars_of(input);
    let mut i: usize = 0;
    while i < chars.len()
        invariant
            i <= chars.len(),
            chars@ == input@,
            forall|k: int| 0 <= k < i ==> is_base64_char(#[trigger] chars@[k]),
        decreases chars.len() - i,
    {
        let c = chars[i];
        let ok = ('0' <= c && c <= '9') || ('a' <= c && c <= 'z') || ('A' <= c && c <= 'Z') || c
            == '+' || c == '/' || c == '=';
        if !ok {
            assert(!is_base64_char(input@[i as int]));
            return false;
        }
        i += 1;
    }
    true
}

/// The text that a subscription body or a ShadowSocks user part stands for.
///
/// A text with a character outside the base64 alphabet is returned as it is.
/// Any other text is decoded as standard base64 and read as UTF-8; it fails
/// with `NotBase64` where the decoder rejects it and with `NotUtf8` where the
/// decoded bytes are not UTF-8.
pub fn decode_base64(input: &str) -> (r: Result<String, DecodeFailure>)
    ensures
        match r {
            Ok(s) => decoded_text(input@) == Some(s@),
            Err(DecodeFailure::NotBase64) => is_base64_text(input@) && base64_decoded(input@)
                is None,
            Err(DecodeFailure::NotUtf8) => is_base64_text(input@) && base64_decoded(input@)
                is Some && !valid_utf8(base64_decoded(input@)->Some_0),
        },
        (forall|i: int| 0 <= i < input@.len() ==> !is_base64_char(#[trigger] input@[i])) ==> r
            is Ok && r->Ok_0@ == input@,
{
    if is_base64(input) {
        match base64_decode(input) {
            Ok(bytes) => {
                let ghost decoded_bytes = bytes@;
                match string_from_utf8(bytes) {
                    Ok(s) => {
                        proof {
                            if input@.len() == 0 {
                                assert(s@ == input@);
                            } else {
                                assert(is_base64_char(input@[0]));
                            }
                        }
                        Ok(s)
                    },
                    Err(_) => {
                        proof {
                            if input@.len() == 0 {
                                assert(valid_utf8(decoded_bytes));
                            } else {
                                assert(is_base64_char(input@[0]));
                            }
                        }
                        Err(DecodeFailure::NotUtf8)
                    },
                }
            },
            Err(_) => {
                proof {
                    if input@.len() > 0 {
                        assert(is_base64_char(input@[0]));
                    }
                }
                Err(DecodeFailure::NotBase64)
            },
        }
    } else {
        Ok(input.to_owned())
    }
}

/// The name that a remark stands for, given what percent-decoding made of
/// it: the decoded text, or a fixed notice where there is none.
pub open spec fn url_param_text(decoded: Option<Seq<char>>) -> Seq<char> {
    match decoded {
        Some(s) => s,
        None => "Invalid encoding"@,
    }
}

/// The decoded text, or the notice `Invalid encoding` in its place.
pub fn url_param_or_notice(decoded: Option<String>) -> (r: String)
    ensures
        r@ == url_param_text(
            match decoded {
                Some(s) => Some(s@),
                None => None,
            },
        ),
{
    match decoded {
        Some(s) => s,
        None => "Invalid encoding".to_owned(),
    }
}

/// Percent-decodes `encoded`. Where the decoded bytes are not UTF-8 the
/// result is the notice `Invalid encoding`.
pub fn decode_url_param(encoded: &str) -> (r: String)
    ensures
        r@ == url_param_text(percent_decoded(encoded@)),
        !encoded@.contains('%') ==> r@ == encoded@,
{
    url_param_or_notice(percent_decode(encoded))
}

} // verus!
