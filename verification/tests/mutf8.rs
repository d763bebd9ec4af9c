use cucumber::mutf8::java_string;

#[test]
fn utf8_text_is_read_as_is() {
    assert_eq!(java_string(b"Accent (default)"), Some("Accent (default)".to_string()));
    assert_eq!(java_string("Grün".as_bytes()), Some("Grün".to_string()));
    assert_eq!(java_string(b""), Some(String::new()));
}

#[test]
fn modified_utf8_is_read_through_utf16() {
    // The modified UTF-8 form of NUL.
    assert_eq!(java_string(&[b'a', 0xc0, 0x80]), Some("a\u{0}".to_string()));
    // U+1F600 as a surrogate pair, each half in three bytes.
    assert_eq!(java_string(&[0xed, 0xa0, 0xbd, 0xed, 0xb8, 0x80]), Some("\u{1F600}".to_string()));
}

#[test]
fn unreadable_bytes_give_no_text() {
    assert_eq!(java_string(&[0xff]), None);
    assert_eq!(java_string(&[0x00, 0xff]), None);
    // A high surrogate with no low one after it.
    assert_eq!(java_string(&[0xed, 0xa0, 0x80, b'a']), None);
}

#[test]
fn a_cut_sequence_at_the_end_is_dropped() {
    assert_eq!(java_string(&[b'a', 0xff - 0x20]), Some("a".to_string()));
}
