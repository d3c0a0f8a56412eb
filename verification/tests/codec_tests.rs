use hasuchanbot::codec::{decode_quote, encode_quote};

#[test]
fn quotes_are_stored_in_base64() {
    assert_eq!(encode_quote("hi"), "aGk=");
    assert_eq!(encode_quote("h"), "aA==");
    assert_eq!(encode_quote("abc"), "YWJj");
    assert_eq!(encode_quote(""), "");
    assert_eq!(encode_quote("貼貼"), "6LK86LK8");
}

#[test]
fn stored_quotes_read_back() {
    for t in ["hi", "貼貼^ ^", "a\nb", "  ", "x", "12345678"] {
        assert_eq!(decode_quote(&encode_quote(t)), t);
    }
}

#[test]
fn lines_that_are_no_base64_show_as_they_are() {
    assert_eq!(decode_quote(&"not base64!".to_string()), "not base64!");
    assert_eq!(decode_quote(&"貼貼".to_string()), "貼貼");
}

#[test]
fn base64_of_no_utf8_shows_the_line() {
    // "/w==" decodes to the single byte 0xff, which is no UTF-8.
    assert_eq!(decode_quote(&"/w==".to_string()), "/w==");
}

#[test]
fn unpadded_base64_is_decoded_too() {
    assert_eq!(decode_quote(&"aGk".to_string()), "hi");
}

#[test]
fn padding_may_be_left_off() {
    assert_eq!(decode_quote(&"QQ==".to_string()), "A");
    assert_eq!(decode_quote(&"QQ=".to_string()), "A");
    assert_eq!(decode_quote(&"QQ".to_string()), "A");
    // Three '=' or bits left over in the last symbol are no encoding.
    assert_eq!(decode_quote(&"QQ===".to_string()), "QQ===");
    assert_eq!(decode_quote(&"QR==".to_string()), "QR==");
    assert_eq!(decode_quote(&"".to_string()), "");
}
