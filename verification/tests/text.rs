use tool_glass::text::{char_is_whitespace, trim};

#[test]
fn white_space_agrees_with_std_on_every_char() {
    for c in (0u32..=0x10FFFF).filter_map(char::from_u32) {
        assert_eq!(char_is_whitespace(c), c.is_whitespace(), "U+{:04X}", c as u32);
    }
}

#[test]
fn trim_matches_std() {
    for s in ["", "  ", " a b ", "\u{3000}x\u{85}", "\tq\r\n", "\u{200b}z"] {
        assert_eq!(trim(s), s.trim());
    }
}
