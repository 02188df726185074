//! Character-level primitives shared by every scanner: conversions between
//! strings and character vectors, character classes, trimming, and plain
//! substring tests. Everything is stated over `Seq<char>`.

use vstd::prelude::*;

verus! {

/// `String::push` appends one character to the end of the string.
pub assume_specification[ String::push ](s: &mut String, ch: char)
    ensures
        final(s)@ == old(s)@.push(ch),
;

/// The characters of a string, in order.
pub fn chars_of(s: &str) -> (out: Vec<char>)
    ensures
        out@ == s@,
{
    broadcast use vstd::string::group_string_axioms;

    let mut out: Vec<char> = Vec::new();
    let it = s.chars();
    for c in iter: it
        invariant
            iter.seq() == s@,
            out@ == s@.subrange(0, iter.index()),
    {
        out.push(c);
    }
    assert(s@.subrange(0, s@.len() as int) == s@);
    out
}

/// The string made of the characters `text[start..end]`.
pub fn string_of_range(text: &Vec<char>, start: usize, end: usize) -> (out: String)
    requires
        start <= end <= text.len(),
    ensures
        out@ == text@.subrange(start as int, end as int),
{
    let mut out = String::new();
    let mut i: usize = start;
    while i < end
        invariant
            start <= i <= end <= text.len(),
            out@ == text@.subrange(start as int, i as int),
        decreases end - i,
    {
        out.push(text[i]);
        i += 1;
        assert(text@.subrange(start as int, i as int) == text@.subrange(
            start as int,
            i - 1,
        ).push(text@[i - 1]));
    }
    out
}

/// The string made of all the characters of `text`.
pub fn string_of(text: &Vec<char>) -> (out: String)
    ensures
        out@ == text@,
{
    let out = string_of_range(text, 0, text.len());
    assert(text@.subrange(0, text@.len() as int) == text@);
    out
}

/// The views of a sequence of strings.
pub open spec fn string_views(v: Seq<String>) -> Seq<Seq<char>> {
    Seq::new(v.len(), |i: int| v[i]@)
}

/// The view of an optional string.
pub open spec fn option_view(o: Option<String>) -> Option<Seq<char>> {
    match o {
        Some(s) => Some(s@),
        None => None,
    }
}

/// The view of an optional string slice.
pub open spec fn option_str_view(o: Option<&str>) -> Option<Seq<char>> {
    match o {
        Some(s) => Some(s@),
        None => None,
    }
}

/// The characters that carry the Unicode `White_Space` property.
pub open spec fn is_whitespace(c: char) -> bool {
    let n = c as u32;
    ||| 0x09 <= n <= 0x0D
    ||| n == 0x20
    ||| n == 0x85
    ||| n == 0xA0
    ||| n == 0x1680
    ||| 0x2000 <= n <= 0x200A
    ||| n == 0x2028
    ||| n == 0x2029
    ||| n == 0x202F
    ||| n == 0x205F
    ||| n == 0x3000
}

pub fn char_is_whitespace(c: char) -> (b: bool)
    ensures
        b == is_whitespace(c),
{
    let n: u32 = c as u32;
    (0x09 <= n && n <= 0x0D) || n == 0x20 || n == 0x85 || n == 0xA0 || n == 0x1680 || (0x2000 <= n
        && n <= 0x200A) || n == 0x2028 || n == 0x2029 || n == 0x202F || n == 0x205F || n == 0x3000
}

/// ASCII letters, ASCII digits and the underscore: the characters of an
/// identifier-like token.
pub open spec fn is_identifier_char(c: char) -> bool {
    ||| 'A' <= c <= 'Z'
    ||| 'a' <= c <= 'z'
    ||| '0' <= c <= '9'
    ||| c == '_'
}

pub fn char_is_identifier(c: char) -> (b: bool)
    ensures
        b == is_identifier_char(c),
{
    ('A' <= c && c <= 'Z') || ('a' <= c && c <= 'z') || ('0' <= c && c <= '9') || c == '_'
}

/// The ASCII upper-case form of `c`: `a..z` move to `A..Z`, every other
/// character stays.
pub open spec fn ascii_uppercase(c: char) -> char {
    if 'a' <= c <= 'z' {
        ((c as u8) - 32) as char
    } else {
        c
    }
}

/// The ASCII lower-case form of `c`: `A..Z` move to `a..z`, every other
/// character stays.
pub open spec fn ascii_lowercase(c: char) -> char {
    if 'A' <= c <= 'Z' {
        ((c as u8) + 32) as char
    } else {
        c
    }
}

pub fn to_ascii_uppercase(c: char) -> (u: char)
    ensures
        u == ascii_uppercase(c),
{
    if 'a' <= c && c <= 'z' {
        let b: u8 = c as u8;
        (b - 32) as char
    } else {
        c
    }
}

pub fn to_ascii_lowercase(c: char) -> (l: char)
    ensures
        l == ascii_lowercase(c),
{
    if 'A' <= c && c <= 'Z' {
        let b: u8 = c as u8;
        (b + 32) as char
    } else {
        c
    }
}

/// `s` without its leading whitespace.
pub open spec fn trim_start(s: Seq<char>) -> Seq<char>
    decreases s.len(),
{
    if s.len() > 0 && is_whitespace(s[0]) {
        trim_start(s.drop_first())
    } else {
        s
    }
}

/// `s` without its trailing whitespace.
pub open spec fn trim_end(s: Seq<char>) -> Seq<char>
    decreases s.len(),
{
    if s.len() > 0 && is_whitespace(s.last()) {
        trim_end(s.drop_last())
    } else {
        s
    }
}

/// `s` without its leading and trailing whitespace.
pub open spec fn trim(s: Seq<char>) -> Seq<char> {
    trim_end(trim_start(s))
}

/// Dropping leading whitespace from a range moves only its left end.
pub proof fn lemma_trim_start_skips(s: Seq<char>, from: int, to: int)
    requires
        0 <= from < to <= s.len(),
        is_whitespace(s[from]),
    ensures
        trim_start(s.subrange(from, to)) == trim_start(s.subrange(from + 1, to)),
{
    assert(s.subrange(from, to).drop_first() == s.subrange(from + 1, to));
}

/// Dropping trailing whitespace from a range moves only its right end.
pub proof fn lemma_trim_end_skips(s: Seq<char>, from: int, to: int)
    requires
        0 <= from < to <= s.len(),
        is_whitespace(s[to - 1]),
    ensures
        trim_end(s.subrange(from, to)) == trim_end(s.subrange(from, to - 1)),
{
    assert(s.subrange(from, to).drop_last() == s.subrange(from, to - 1));
}

/// The bounds of the trimmed form of `text[start..end]`.
pub fn trim_range(text: &Vec<char>, start: usize, end: usize) -> (span: (usize, usize))
    requires
        start <= end <= text.len(),
    ensures
        start <= span.0 <= span.1 <= end,
        text@.subrange(span.0 as int, span.1 as int) == trim(
            text@.subrange(start as int, end as int),
        ),
{
    let mut a: usize = start;
    while a < end && char_is_whitespace(text[a])
        invariant
            start <= a <= end <= text.len(),
            trim_start(text@.subrange(start as int, end as int)) == trim_start(
                text@.subrange(a as int, end as int),
            ),
        decreases end - a,
    {
        proof {
            lemma_trim_start_skips(text@, a as int, end as int);
        }
        a += 1;
    }
    assert(trim_start(text@.subrange(a as int, end as int)) == text@.subrange(
        a as int,
        end as int,
    )) by {
        if a < end {
            assert(text@.subrange(a as int, end as int)[0] == text@[a as int]);
        }
    }
    let mut b: usize = end;
    while a < b && char_is_whitespace(text[b - 1])
        invariant
            a <= b <= end <= text.len(),
            trim_end(text@.subrange(a as int, end as int)) == trim_end(
                text@.subrange(a as int, b as int),
            ),
        decreases b - a,
    {
        proof {
            lemma_trim_end_skips(text@, a as int, b as int);
        }
        b -= 1;
    }
    assert(trim_end(text@.subrange(a as int, b as int)) == text@.subrange(a as int, b as int)) by {
        if a < b {
            assert(text@.subrange(a as int, b as int).last() == text@[b - 1]);
        }
    }
    (a, b)
}

/// The trimmed form of a string.
pub fn trimmed(s: &str) -> (out: String)
    ensures
        out@ == trim(s@),
{
    let text = chars_of(s);
    let span = trim_range(&text, 0, text.len());
    assert(text@.subrange(0, text@.len() as int) == text@);
    string_of_range(&text, span.0, span.1)
}

/// `needle` stands in `text` at position `at`.
pub open spec fn occurs_at(text: Seq<char>, needle: Seq<char>, at: int) -> bool {
    &&& 0 <= at
    &&& at + needle.len() <= text.len()
    &&& text.subrange(at, at + needle.len()) == needle
}

/// `text` ends with `suffix`.
pub open spec fn ends_with(text: Seq<char>, suffix: Seq<char>) -> bool {
    occurs_at(text, suffix, text.len() - suffix.len())
}

/// `needle` stands somewhere in `text`.
pub open spec fn contains(text: Seq<char>, needle: Seq<char>) -> bool {
    exists|at: int| occurs_at(text, needle, at)
}

pub fn chars_occur_at(text: &Vec<char>, needle: &Vec<char>, at: usize) -> (b: bool)
    ensures
        b == occurs_at(text@, needle@, at as int),
{
    if needle.len() > text.len() || at > text.len() - needle.len() {
        return false;
    }
    let mut k: usize = 0;
    while k < needle.len()
        invariant
            k <= needle.len(),
            at + needle.len() <= text.len(),
            forall|j: int| 0 <= j < k ==> text@[at + j] == needle@[j],
        decreases needle.len() - k,
    {
        if text[at + k] != needle[k] {
            proof {
                let window = text@.subrange(at as int, at + needle@.len());
                assert(window[k as int] == text@[at + k]);
            }
            return false;
        }
        k += 1;
    }
    assert(text@.subrange(at as int, at + needle@.len()) =~= needle@);
    true
}

pub fn chars_end_with(text: &Vec<char>, suffix: &Vec<char>) -> (b: bool)
    ensures
        b == ends_with(text@, suffix@),
{
    if suffix.len() > text.len() {
        return false;
    }
    chars_occur_at(text, suffix, text.len() - suffix.len())
}

pub fn chars_contain(text: &Vec<char>, needle: &Vec<char>) -> (b: bool)
    ensures
        b == contains(text@, needle@),
{
    if needle.len() > text.len() {
        return false;
    }
    let last: usize = text.len() - needle.len();
    let mut at: usize = 0;
    while at < last
        invariant
            last == text.len() - needle.len(),
            at <= last,
            forall|j: int| 0 <= j < at ==> !occurs_at(text@, needle@, j),
        decreases last - at,
    {
        if chars_occur_at(text, needle, at) {
            return true;
        }
        at += 1;
    }
    chars_occur_at(text, needle, last)
}

/// Whether a string holds another.
pub fn str_contains(text: &str, needle: &str) -> (b: bool)
    ensures
        b == contains(text@, needle@),
{
    let t = chars_of(text);
    let n = chars_of(needle);
    chars_contain(&t, &n)
}

/// Whether two strings hold the same characters.
pub fn str_equal(a: &str, b: &str) -> (same: bool)
    ensures
        same == (a@ == b@),
{
    let x = chars_of(a);
    let y = chars_of(b);
    if x.len() != y.len() {
        return false;
    }
    let r = chars_occur_at(&x, &y, 0);
    proof {
        assert(x@.subrange(0, x@.len() as int) == x@);
    }
    r
}

/// `text` with every occurrence of `needle` taken out, the occurrences
/// found from left to right without overlap. An empty needle takes nothing
/// out.
pub open spec fn without_all(text: Seq<char>, needle: Seq<char>) -> Seq<char>
    decreases text.len(),
{
    if needle.len() == 0 || text.len() < needle.len() {
        text
    } else if text.subrange(0, needle.len() as int) == needle {
        without_all(text.subrange(needle.len() as int, text.len() as int), needle)
    } else {
        seq![text[0]] + without_all(text.drop_first(), needle)
    }
}

/// `text` with every occurrence of `needle` taken out.
pub fn remove_all(text: &str, needle: &str) -> (out: String)
    ensures
        out@ == without_all(text@, needle@),
{
    let chars = chars_of(text);
    let pat = chars_of(needle);
    let n = chars.len();
    if pat.len() == 0 {
        return string_of(&chars);
    }
    let mut out = String::new();
    let mut i: usize = 0;
    assert(chars@.subrange(0, n as int) == chars@);
    while i < n
        invariant
            n == chars.len(),
            chars@ == text@,
            pat@ == needle@,
            pat.len() > 0,
            i <= n,
            out@ + without_all(chars@.subrange(i as int, n as int), pat@) == without_all(
                text@,
                needle@,
            ),
        decreases n - i,
    {
        let ghost rest = chars@.subrange(i as int, n as int);
        if chars_occur_at(&chars, &pat, i) {
            proof {
                assert(rest.subrange(0, pat@.len() as int) == chars@.subrange(
                    i as int,
                    i + pat@.len(),
                ));
                assert(rest.subrange(pat@.len() as int, rest.len() as int) == chars@.subrange(
                    i + pat@.len(),
                    n as int,
                ));
            }
            i += pat.len();
        } else {
            proof {
                if rest.len() >= pat@.len() {
                    assert(rest.subrange(0, pat@.len() as int) == chars@.subrange(
                        i as int,
                        i + pat@.len(),
                    ));
                }
                let tail = chars@.subrange(i + 1, n as int);
                assert(rest.drop_first() == tail);
                assert(rest[0] == chars@[i as int]);
                if rest.len() < pat@.len() {
                    assert(without_all(rest, pat@) == rest);
                    assert(without_all(tail, pat@) == tail);
                    assert(rest == seq![rest[0]] + tail);
                }
                assert(without_all(rest, pat@) == seq![chars@[i as int]] + without_all(tail, pat@));
                assert(out@.push(chars@[i as int]) + without_all(tail, pat@) == out@ + (
                seq![chars@[i as int]] + without_all(tail, pat@)));
            }
            out.push(chars[i]);
            i += 1;
        }
    }
    assert(chars@.subrange(n as int, n as int) == Seq::<char>::empty());
    assert(out@ + Seq::<char>::empty() == out@);
    out
}

/// The two texts, one behind the other.
pub fn concatenate(a: &str, b: &str) -> (out: String)
    ensures
        out@ == a@ + b@,
{
    let mut out = a.to_owned();
    out.append(b);
    out
}

} // verus!
