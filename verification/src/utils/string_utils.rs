//! Conversions between the naming styles of file names and class names.

use vstd::prelude::*;
use crate::text::{
    ascii_lowercase, ascii_uppercase, chars_of, to_ascii_lowercase, to_ascii_uppercase,
};

verus! {

/// Whether `c` carries the Unicode `Uppercase` property, as
/// `char::is_uppercase` reports it.
pub uninterp spec fn unicode_uppercase(c: char) -> bool;

/// Whether `c` carries the Unicode `Lowercase` property, as
/// `char::is_lowercase` reports it.
pub uninterp spec fn unicode_lowercase(c: char) -> bool;

/// `char::is_uppercase` looks the character up in the tables of the Unicode
/// `Uppercase` property; the answer depends on the character alone.
pub assume_specification[ char::is_uppercase ](c: char) -> (b: bool)
    ensures
        b == unicode_uppercase(c),
;

/// `char::is_lowercase` looks the character up in the tables of the Unicode
/// `Lowercase` property; the answer depends on the character alone.
pub assume_specification[ char::is_lowercase ](c: char) -> (b: bool)
    ensures
        b == unicode_lowercase(c),
;

/// An upper-case letter: within ASCII the letters `A..Z`, beyond ASCII
/// the characters with the Unicode `Uppercase` property.
pub open spec fn is_uppercase(c: char) -> bool {
    if c <= '\u{7f}' {
        'A' <= c <= 'Z'
    } else {
        unicode_uppercase(c)
    }
}

/// A lower-case letter: within ASCII the letters `a..z`, beyond ASCII the
/// characters with the Unicode `Lowercase` property.
pub open spec fn is_lowercase(c: char) -> bool {
    if c <= '\u{7f}' {
        'a' <= c <= 'z'
    } else {
        unicode_lowercase(c)
    }
}

/// Whether `c` is an upper-case letter.
pub fn char_is_uppercase(c: char) -> (b: bool)
    ensures
        b == is_uppercase(c),
{
    if c <= '\u{7f}' {
        'A' <= c && c <= 'Z'
    } else {
        c.is_uppercase()
    }
}

/// Whether `c` is a lower-case letter.
pub fn char_is_lowercase(c: char) -> (b: bool)
    ensures
        b == is_lowercase(c),
{
    if c <= '\u{7f}' {
        'a' <= c && c <= 'z'
    } else {
        c.is_lowercase()
    }
}

/// `-` and `_` separate the words of a name.
pub open spec fn is_word_break(c: char) -> bool {
    c == '-' || c == '_'
}

/// The capitalized-word form of the first `n` characters of `s`: word
/// breaks are dropped, and a character that starts the text or follows a
/// word break takes its ASCII upper-case form.
pub open spec fn pascal_prefix(s: Seq<char>, n: int) -> Seq<char>
    decreases n,
{
    if n <= 0 {
        Seq::<char>::empty()
    } else {
        let before = pascal_prefix(s, n - 1);
        let c = s[n - 1];
        if is_word_break(c) {
            before
        } else if n == 1 || is_word_break(s[n - 2]) {
            before.push(ascii_uppercase(c))
        } else {
            before.push(c)
        }
    }
}

/// The capitalized-word form of `s`.
pub open spec fn pascal_form(s: Seq<char>) -> Seq<char> {
    pascal_prefix(s, s.len() as int)
}

/// The character before position `i` is a lower-case letter.
pub open spec fn follows_lowercase(s: Seq<char>, i: int) -> bool {
    i > 0 && !is_uppercase(s[i - 1]) && is_lowercase(s[i - 1])
}

/// The hyphenated form of the first `n` characters of `s`: an upper-case
/// letter takes its ASCII lower-case form, behind a hyphen where it follows
/// a lower-case letter; every other character stays.
pub open spec fn kebab_prefix(s: Seq<char>, n: int) -> Seq<char>
    decreases n,
{
    if n <= 0 {
        Seq::<char>::empty()
    } else {
        let before = kebab_prefix(s, n - 1);
        let c = s[n - 1];
        if is_uppercase(c) {
            if follows_lowercase(s, n - 1) {
                before.push('-').push(ascii_lowercase(c))
            } else {
                before.push(ascii_lowercase(c))
            }
        } else {
            before.push(c)
        }
    }
}

/// The hyphenated form of `s`.
pub open spec fn kebab_form(s: Seq<char>) -> Seq<char> {
    kebab_prefix(s, s.len() as int)
}

/// The capitalized-word form of `s` with its first character in ASCII
/// lower case.
pub open spec fn camel_form(s: Seq<char>) -> Seq<char> {
    let pascal = pascal_form(s);
    if pascal.len() == 0 {
        pascal
    } else {
        seq![ascii_lowercase(pascal[0])] + pascal.drop_first()
    }
}

/// `userProfile` becomes `user-profile`.
pub fn kebab_case(s: &str) -> (result: String)
    ensures
        result@ == kebab_form(s@),
{
    let chars = chars_of(s);
    let mut result = String::new();
    let mut prev_char_is_lowercase = false;
    let mut i: usize = 0;
    while i < chars.len()
        invariant
            chars@ == s@,
            i <= chars.len(),
            result@ == kebab_prefix(s@, i as int),
            prev_char_is_lowercase == follows_lowercase(s@, i as int),
        decreases chars.len() - i,
    {
        let c = chars[i];
        if char_is_uppercase(c) {
            if i > 0 && prev_char_is_lowercase {
                result.push('-');
            }
            result.push(to_ascii_lowercase(c));
            prev_char_is_lowercase = false;
        } else {
            result.push(c);
            prev_char_is_lowercase = char_is_lowercase(c);
        }
        i += 1;
    }
    result
}

/// `user-profile` becomes `UserProfile`.
pub fn pascal_case(s: &str) -> (result: String)
    ensures
        result@ == pascal_form(s@),
{
    let chars = chars_of(s);
    let mut result = String::new();
    let mut capitalize_next = true;
    let mut i: usize = 0;
    while i < chars.len()
        invariant
            chars@ == s@,
            i <= chars.len(),
            result@ == pascal_prefix(s@, i as int),
            capitalize_next == (i == 0 || is_word_break(s@[i - 1])),
        decreases chars.len() - i,
    {
        let c = chars[i];
        if c == '-' || c == '_' {
            capitalize_next = true;
        } else if capitalize_next {
            result.push(to_ascii_uppercase(c));
            capitalize_next = false;
        } else {
            result.push(c);
        }
        i += 1;
    }
    result
}

/// `user-profile` becomes `userProfile`.
pub fn camel_case(s: &str) -> (result: String)
    ensures
        result@ == camel_form(s@),
{
    let pascal = pascal_case(s);
    let chars = chars_of(pascal.as_str());
    let mut result = String::new();
    if chars.len() == 0 {
        return result;
    }
    result.push(to_ascii_lowercase(chars[0]));
    let mut i: usize = 1;
    while i < chars.len()
        invariant
            1 <= i <= chars.len(),
            result@ == seq![ascii_lowercase(chars@[0])] + chars@.subrange(1, i as int),
        decreases chars.len() - i,
    {
        result.push(chars[i]);
        i += 1;
        assert(chars@.subrange(1, i as int) == chars@.subrange(1, i - 1).push(chars@[i - 1]));
    }
    assert(chars@.subrange(1, chars@.len() as int) == chars@.drop_first());
    result
}

} // verus!
