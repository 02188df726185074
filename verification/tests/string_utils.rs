use ng_analyzer::utils::string_utils::{
    camel_case, char_is_lowercase, char_is_uppercase, kebab_case, pascal_case,
};

#[test]
fn pascal_case_joins_capitalized_words() {
    assert_eq!(pascal_case("user-profile"), "UserProfile");
    assert_eq!(pascal_case("login_form"), "LoginForm");
    assert_eq!(pascal_case(""), "");
    assert_eq!(pascal_case("--a--b"), "AB");
}

#[test]
fn kebab_case_hyphenates_at_case_changes() {
    assert_eq!(kebab_case("userProfile"), "user-profile");
    assert_eq!(kebab_case("UserProfile"), "user-profile");
    assert_eq!(kebab_case("HTTPServer"), "httpserver");
    assert_eq!(kebab_case(""), "");
}

#[test]
fn camel_case_lowers_the_first_letter() {
    assert_eq!(camel_case("user-profile"), "userProfile");
    assert_eq!(camel_case(""), "");
    assert_eq!(camel_case("x"), "x");
}

#[test]
fn letter_case_agrees_with_the_standard_library() {
    let mut code: u32 = 0;
    while code <= 0x10FFFF {
        if let Some(c) = char::from_u32(code) {
            assert_eq!(char_is_uppercase(c), c.is_uppercase(), "U+{:04X}", code);
            assert_eq!(char_is_lowercase(c), c.is_lowercase(), "U+{:04X}", code);
        }
        code += 1;
    }
}

#[test]
fn kebab_case_of_a_class_name() {
    assert_eq!(kebab_case("LoginForm"), "login-form");
    assert_eq!(kebab_case("ÉcoleÉté"), "École-Été");
    assert_eq!(kebab_case("a1B"), "a1b");
}
