use backend_rove::text::{
    after_prefix, before_first, byte_len, chars_of, decimal_text, has_suffix, hex_char, is_blank,
    padded_text, same, signed_text, string_of, trimmed, trimmed_start, without_suffixes,
    without_trailing,
};

#[test]
fn trimming_agrees_with_std_on_every_character() {
    for code in 0..=0x10ffffu32 {
        if let Some(c) = char::from_u32(code) {
            if code < 0x3100 || code > 0xfe00 && code < 0x10000 {
                let text = format!("{c}x{c}");
                assert_eq!(trimmed(&text), text.trim());
                assert_eq!(trimmed_start(&text), text.trim_start());
                assert_eq!(is_blank(&c.to_string()), c.is_whitespace());
            }
        }
    }
}

#[test]
fn trimming_keeps_what_is_inside() {
    assert_eq!(trimmed(" \t a b\u{3000}\n"), "a b");
    assert_eq!(trimmed_start(" \t a b \n"), "a b \n");
    assert_eq!(trimmed(" \n"), "");
    assert!(is_blank(""));
    assert!(!is_blank(" . "));
}

#[test]
fn affixes_are_found_and_removed() {
    assert_eq!(without_trailing("http://x///", '/'), "http://x");
    assert_eq!(without_trailing("///", '/'), "");
    assert_eq!(without_trailing("http://x", '/'), "http://x");
    assert_eq!(without_suffixes("u/responses", "/responses"), "u");
    assert_eq!(without_suffixes("u/responses/responses", "/responses"), "u");
    assert_eq!(without_suffixes("u/response", "/responses"), "u/response");
    assert_eq!(after_prefix("data: x", "data:"), Some(" x".to_string()));
    assert_eq!(after_prefix("dat", "data:"), None);
    assert!(has_suffix("a.tmp", ".tmp"));
    assert!(!has_suffix("tmp", ".tmp"));
    assert_eq!(before_first("audio/webm;codecs=opus;x", ';'), "audio/webm");
    assert_eq!(before_first("audio/webm", ';'), "audio/webm");
    assert_eq!(before_first(";x", ';'), "");
}

#[test]
fn characters_and_bytes_are_counted_apart() {
    assert_eq!(byte_len("aé€🙂"), 10);
    assert_eq!(byte_len(""), 0);
    let chars = chars_of("aé€🙂");
    assert_eq!(chars, vec!['a', 'é', '€', '🙂']);
    assert_eq!(string_of(&chars, 1, 3), "é€");
    assert!(same("é", "é"));
    assert!(!same("é", "e"));
    assert!(!same("a", "ab"));
}

#[test]
fn numbers_are_written_as_std_writes_them() {
    for n in [0u128, 7, 10, 1999, u64::MAX as u128, u128::MAX] {
        assert_eq!(decimal_text(n), n.to_string());
    }
    for n in [0i64, -1, 42, i64::MIN, i64::MAX] {
        assert_eq!(signed_text(n), n.to_string());
    }
    assert_eq!(padded_text(7, 2), "07");
    assert_eq!(padded_text(7, 3), "007");
    assert_eq!(padded_text(1234, 3), "1234");
    assert_eq!(padded_text(0, 2), "00");
    let digits: String = (0u8..16).map(hex_char).collect();
    assert_eq!(digits, "0123456789abcdef");
}
