use astrid_capsule_openai_compat::text::{
    decimal_text, is_blank, joined, parse_u64, same_text, strip_prefix, trim_end_char, white_space,
};

#[test]
fn white_space_is_what_std_says() {
    for code in 0..=0x10ffff {
        if let Some(c) = char::from_u32(code) {
            assert_eq!(white_space(c), c.is_whitespace(), "{code:x}");
        }
    }
}

#[test]
fn blank_texts_trim_to_nothing() {
    for text in ["", " ", "\t\r\n", "a", " a ", "\u{2003}\u{85}", "\u{2003}b"] {
        assert_eq!(is_blank(text), text.trim().is_empty(), "{text:?}");
    }
}

#[test]
fn numbers_are_read_as_std_reads_them() {
    for text in [
        "", "0", "+", "-", "+0", "-0", "00", "12", "+12", "++1", "1_0", " 1", "1 ", "0x1", "\u{661}",
        "18446744073709551615", "18446744073709551616", "99999999999999999999", "000018446744073709551615",
        "18446744073709551615a",
    ] {
        assert_eq!(parse_u64(text), text.parse::<u64>().ok(), "{text:?}");
    }
}

#[test]
fn numbers_are_written_in_decimal() {
    for n in 0..=u16::MAX {
        assert_eq!(decimal_text(n), n.to_string());
    }
}

#[test]
fn ends_are_trimmed_as_std_trims_them() {
    for text in ["", "/", "a", "a/", "a//", "/a/b//", "\u{e9}/"] {
        assert_eq!(trim_end_char(text, '/'), text.trim_end_matches('/'));
    }
}

#[test]
fn prefixes_are_stripped_as_std_strips_them() {
    for text in ["", "data", "data: ", "data: x", " data: x", "data:x", "data: data: "] {
        assert_eq!(strip_prefix(text, "data: "), text.strip_prefix("data: ").map(str::to_string));
    }
}

#[test]
fn texts_are_joined_and_compared() {
    assert_eq!(joined("a", "\u{e9}b"), "a\u{e9}b");
    assert!(same_text("ab", "ab"));
    assert!(!same_text("ab", "a"));
}
