use base64::prelude::BASE64_STANDARD;
use base64::Engine;
use sub_rust::tools::{
    decode_base64, decode_url_param, is_base64, url_param_or_notice, DecodeFailure,
};

#[test]
fn text_outside_the_alphabet_is_returned_unchanged() {
    assert_eq!(decode_base64("!!!---???").unwrap(), "!!!---???");
    assert_eq!(decode_base64("香港 节点").unwrap(), "香港 节点");
    assert_eq!(decode_base64("::").unwrap(), "::");
}

#[test]
fn text_with_one_character_outside_the_alphabet_is_returned_unchanged() {
    assert_eq!(
        decode_base64("trojan://pw@host:443#n").unwrap(),
        "trojan://pw@host:443#n"
    );
    assert_eq!(decode_base64("aGVsbG8=\n").unwrap(), "aGVsbG8=\n");
    assert_eq!(decode_base64("aGVs bG8=").unwrap(), "aGVs bG8=");
}

#[test]
fn empty_text_decodes_to_empty_text() {
    assert_eq!(decode_base64("").unwrap(), "");
}

#[test]
fn base64_is_decoded() {
    assert_eq!(decode_base64("aGVsbG8=").unwrap(), "hello");
    assert_eq!(decode_base64("aGVsbG8gd29ybGR+Cg==").unwrap(), "hello world~\n");
    assert_eq!(decode_base64("YWVzLTEyOC1nY206aWQ=").unwrap(), "aes-128-gcm:id");
    assert_eq!(decode_base64("6aaZ5riv").unwrap(), "香港");
}

#[test]
fn encoding_then_decoding_gives_the_text_back() {
    let texts = [
        "",
        "a",
        "ab",
        "abc",
        "trojan://pw@host:443#n\nss://x@h:1#m\n",
        "香港 01 → 東京",
    ];
    for text in texts {
        let encoded = BASE64_STANDARD.encode(text);
        assert!(is_base64(&encoded));
        assert_eq!(decode_base64(&encoded).unwrap(), text);
        let decoded = decode_base64(&encoded).unwrap();
        assert_eq!(BASE64_STANDARD.encode(decoded), encoded);
    }
}

#[test]
fn text_of_the_alphabet_that_is_no_encoding_fails() {
    assert!(matches!(decode_base64("abc"), Err(DecodeFailure::NotBase64)));
    assert!(matches!(decode_base64("a"), Err(DecodeFailure::NotBase64)));
    assert!(matches!(decode_base64("ab=c"), Err(DecodeFailure::NotBase64)));
    assert!(matches!(decode_base64("===="), Err(DecodeFailure::NotBase64)));
    assert!(matches!(decode_base64("trojan"), Err(DecodeFailure::NotBase64)));
}

#[test]
fn encoded_bytes_that_are_no_utf8_fail() {
    let encoded = BASE64_STANDARD.encode([0xffu8, 0xfe, 0x00]);
    assert!(matches!(decode_base64(&encoded), Err(DecodeFailure::NotUtf8)));
    assert!(matches!(decode_base64("//4="), Err(DecodeFailure::NotUtf8)));
}

#[test]
fn alphabet_check() {
    assert!(is_base64(""));
    assert!(is_base64("abcXYZ019+/="));
    assert!(!is_base64("abc-"));
    assert!(!is_base64("abc_"));
    assert!(!is_base64("ab c"));
    assert!(!is_base64("abc\n"));
    assert!(!is_base64("é"));
    assert!(!is_base64("ａ"));
}

#[test]
fn percent_decoding() {
    assert_eq!(decode_url_param("%E9%A6%99%E6%B8%AF%2001"), "香港 01");
    assert_eq!(decode_url_param("US%20West%231"), "US West#1");
    assert_eq!(decode_url_param("a+b"), "a+b");
    assert_eq!(decode_url_param("100%"), "100%");
    assert_eq!(decode_url_param("%zz"), "%zz");
    assert_eq!(decode_url_param("%4"), "%4");
}

#[test]
fn text_without_escapes_is_unchanged() {
    assert_eq!(decode_url_param(""), "");
    assert_eq!(decode_url_param("plain name"), "plain name");
    assert_eq!(decode_url_param("日本"), "日本");
}

#[test]
fn escapes_that_are_no_utf8_give_the_notice() {
    assert_eq!(decode_url_param("%FF"), "Invalid encoding");
    assert_eq!(decode_url_param("abc%C3"), "Invalid encoding");
    assert_eq!(decode_url_param("%E9%A6"), "Invalid encoding");
}

#[test]
fn notice_stands_for_a_missing_text() {
    assert_eq!(url_param_or_notice(Some(String::from("x"))), "x");
    assert_eq!(url_param_or_notice(Some(String::new())), "");
    assert_eq!(url_param_or_notice(None), "Invalid encoding");
}
