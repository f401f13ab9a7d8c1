use ducia::text::{is_whitespace, trim};

#[test]
fn white_space_agrees_with_char_is_whitespace() {
    for code in 0u32..=0x10FFFF {
        if let Some(c) = char::from_u32(code) {
            assert_eq!(is_whitespace(c), c.is_whitespace(), "U+{:04X}", code);
        }
    }
}

#[test]
fn trim_removes_unicode_white_space() {
    assert_eq!(trim(" alice "), "alice");
    assert_eq!(trim("\u{3000}\t名字\u{A0}\n"), "名字");
    assert_eq!(trim("   "), "");
    assert_eq!(trim("a b"), "a b");
}
