use mfj::text::{
    find_char, find_whitespace, is_whitespace, push_decimal, push_signed, same_text,
    strip_bidi_controls, trim,
};

#[test]
fn strip_bidi_controls_removes_every_occurrence() {
    assert_eq!(strip_bidi_controls("a\u{200f}b\u{200f}"), "ab");
    assert_eq!(
        strip_bidi_controls("\u{202e}x\u{2066}y\u{2069}\u{061c}\u{200e}z\u{202a}\u{202c}"),
        "xyz"
    );
    let kept = "\u{2029}\u{202f}\u{2065}\u{206a}\u{200d}";
    assert_eq!(strip_bidi_controls(kept), kept);
}

#[test]
fn find_whitespace_counts_characters() {
    assert_eq!(find_whitespace("/tilasto 2 hours"), 8);
    assert_eq!(find_whitespace("äö\tx"), 2);
    assert_eq!(find_whitespace("abc"), 3);
}

#[test]
fn trim_matches_std() {
    assert_eq!(trim("  2 hours \n"), "2 hours");
    assert_eq!(trim(" \t "), "");
    assert_eq!(trim(""), "");
    assert_eq!(trim("x"), "x");
}

#[test]
fn whitespace_is_that_of_std() {
    for code in 0..=0x10ffffu32 {
        if let Some(c) = char::from_u32(code) {
            assert_eq!(is_whitespace(c), c.is_whitespace(), "U+{:04X}", code);
        }
    }
}

#[test]
fn decimal_numerals_are_those_of_std() {
    for n in [0u128, 1, 9, 10, 11, 99, 100, 101, 12345, u64::MAX as u128, u128::MAX] {
        let mut text = String::from("n=");
        push_decimal(&mut text, n);
        assert_eq!(text, format!("n={}", n));
    }
    for i in [0i64, 1, -1, 7, -9, 10, -10, 123456, i32::MIN as i64, i64::MAX, i64::MIN] {
        let mut text = String::new();
        push_signed(&mut text, i);
        assert_eq!(text, i.to_string());
    }
}

#[test]
fn same_text_compares_characters() {
    assert!(same_text("", ""));
    assert!(same_text("kesko", "kesko"));
    assert!(!same_text("kesko", "Kesko"));
    assert!(!same_text("kesko", "kesk"));
    assert!(!same_text("kesk", "kesko"));
    assert!(same_text("äö", "äö"));
    assert!(!same_text("äö", "äo"));
}

#[test]
fn find_char_counts_characters() {
    assert_eq!(find_char("/tilasto@bot", '@'), 8);
    assert_eq!(find_char("ä@b@", '@'), 1);
    assert_eq!(find_char("abc", '@'), 3);
    assert_eq!(find_char("", '@'), 0);
}

#[test]
fn trim_knows_every_kind_of_whitespace() {
    assert_eq!(trim("\u{3000}\u{a0}a b\u{2003}\u{85}"), "a b");
    assert_eq!(trim("\u{200b}a\u{200b}"), "\u{200b}a\u{200b}");
    assert_eq!(find_whitespace("a\u{2028}b"), 1);
}
