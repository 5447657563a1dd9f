//! Texts.
use yggstack::json::json_string;
use yggstack::text::{lowered, trimmed};

#[test]
fn json_strings_are_quoted() {
    assert_eq!(json_string("a"), "\"a\"");
    assert_eq!(json_string("a\"b\\c\n\u{1}"), "\"a\\\"b\\\\c\\n\\u0001\"");
    assert_eq!(json_string("\u{7f}\u{e9}"), "\"\u{7f}\u{e9}\"");
}

#[test]
fn white_space_is_trimmed_like_std_trims_it() {
    for s in ["", " ", "a", " a b ", "\u{a0}x\u{2003}", "\t\r\n\u{b}\u{c}y\u{85}", "\u{200b}z"] {
        let c: Vec<char> = s.chars().collect();
        let t: String = trimmed(&c).iter().collect();
        assert_eq!(t, s.trim());
    }
}

#[test]
fn letters_are_lowered_in_ascii() {
    let c: Vec<char> = "HoSt-1\u{c9}".chars().collect();
    let t: String = lowered(&c).iter().collect();
    assert_eq!(t, "HoSt-1\u{c9}".to_ascii_lowercase());
}
