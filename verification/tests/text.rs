use ng_analyzer::text::{
    char_is_identifier, char_is_whitespace, chars_of, str_contains, str_equal,
    string_of, to_ascii_lowercase, to_ascii_uppercase, trimmed,
};

#[test]
fn whitespace_class_agrees_with_the_standard_library() {
    let mut code: u32 = 0;
    while code <= 0x10FFFF {
        if let Some(c) = char::from_u32(code) {
            assert_eq!(char_is_whitespace(c), c.is_whitespace(), "U+{:04X}", code);
        }
        code += 1;
    }
}

#[test]
fn ascii_case_agrees_with_the_standard_library() {
    let mut code: u32 = 0;
    while code <= 0x10FFFF {
        if let Some(c) = char::from_u32(code) {
            assert_eq!(to_ascii_uppercase(c), c.to_ascii_uppercase());
            assert_eq!(to_ascii_lowercase(c), c.to_ascii_lowercase());
        }
        code += 1;
    }
}

#[test]
fn identifier_characters_are_ascii_word_characters() {
    let mut code: u32 = 0;
    while code <= 0x10FFFF {
        if let Some(c) = char::from_u32(code) {
            assert_eq!(char_is_identifier(c), c.is_ascii_alphanumeric() || c == '_');
        }
        code += 1;
    }
}

#[test]
fn trimmed_agrees_with_str_trim() {
    for s in ["", " ", "  a  ", "\t\nx y\r\n", "\u{3000}z\u{A0}", "no-space", " \u{200A}\u{2028} "] {
        assert_eq!(trimmed(s), s.trim());
    }
}

#[test]
fn chars_round_trip_through_strings() {
    for s in ["", "abc", "héllo wörld", "日本語"] {
        let chars = chars_of(s);
        assert_eq!(chars, s.chars().collect::<Vec<char>>());
        assert_eq!(string_of(&chars), s);
    }
}

#[test]
fn substring_tests_agree_with_the_standard_library() {
    let texts = ["", "a", "user.component.ts", "app-routing.module.ts", "x.spec.ts", "aaa"];
    let needles = ["", "a", "aa", ".ts", ".spec.", "routing", "user.component.ts", "longer than any"];
    for t in texts {
        for n in needles {
            assert_eq!(str_contains(t, n), t.contains(n), "{:?} contains {:?}", t, n);
            assert_eq!(str_equal(t, n), t == n);
        }
    }
}
