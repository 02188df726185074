//! Field lookups inside one span of source text: single values found by a
//! pattern keyed by the field's name, and the names listed in an array
//! field.

use vstd::prelude::*;
use crate::pattern::{captured, first_group};
use crate::scanner::{
    enclosed_prefix, enclosed_text, item_spans, span_texts, span_view, spans_within,
    top_level_items,
};
use crate::text::{
    char_is_identifier, chars_of, is_identifier_char, option_view, string_of_range, string_views,
};

verus! {

/// A class declaration that the file exports; group 1 is the class name.
pub const CLASS_PATTERN: &'static str = r"export\s+class\s+([A-Za-z0-9_]+)";

/// A quoted `selector` field; group 1 is the text between the quotes.
pub const SELECTOR_PATTERN: &'static str = r#"selector\s*:\s*['"]([^'"]+)['"]"#;

/// A quoted `providedIn` field; group 1 is the text between the quotes.
pub const SCOPE_PATTERN: &'static str = r#"providedIn\s*:\s*['"]([^'"]+)['"]"#;

/// What follows a field's name in the pattern that finds the opening of an
/// array field; group 1 is all the text behind the opening bracket.
pub const ARRAY_PATTERN_TAIL: &'static str = r"\s*:\s*\[([\s\S]*)";

/// The name of the first class that `content` exports, if it declares one.
pub fn extract_class_name(content: &str) -> (name: Option<String>)
    ensures
        option_view(name) == captured(CLASS_PATTERN@, content@),
{
    first_group(CLASS_PATTERN, content)
}

/// The value of the first quoted `selector` field in `content`.
pub fn extract_selector(content: &str) -> (selector: Option<String>)
    ensures
        option_view(selector) == captured(SELECTOR_PATTERN@, content@),
{
    first_group(SELECTOR_PATTERN, content)
}

/// The value of the first quoted `providedIn` field in `content`.
pub fn extract_injectable_scope(content: &str) -> (scope: Option<String>)
    ensures
        option_view(scope) == captured(SCOPE_PATTERN@, content@),
{
    first_group(SCOPE_PATTERN, content)
}

/// The pattern that finds the opening of the array field called `property`.
pub open spec fn array_pattern(property: Seq<char>) -> Seq<char> {
    property + ARRAY_PATTERN_TAIL@
}

/// The text between the brackets of the first array field called
/// `property`: from its opening bracket to the closer that matches it,
/// over line breaks and over brackets nested in between. `None` where
/// `content` holds no such field, or never closes it.
pub open spec fn field_interior(content: Seq<char>, property: Seq<char>) -> Option<Seq<char>> {
    match captured(array_pattern(property), content) {
        Some(rest) => enclosed_prefix(rest),
        None => None,
    }
}

/// The text between the brackets of the first array field called
/// `property_name`. An empty pair of brackets gives the empty text, a field
/// that is absent gives `None`.
pub fn array_interior(content: &str, property_name: &str) -> (interior: Option<String>)
    ensures
        option_view(interior) == field_interior(content@, property_name@),
{
    let mut pattern = property_name.to_owned();
    pattern.append(ARRAY_PATTERN_TAIL);
    match first_group(pattern.as_str(), content) {
        Some(rest) => enclosed_text(rest.as_str()),
        None => None,
    }
}

/// The length of the run of identifier characters that `s` starts with.
pub open spec fn identifier_run(s: Seq<char>) -> nat
    decreases s.len(),
{
    if s.len() > 0 && is_identifier_char(s[0]) {
        1 + identifier_run(s.drop_first())
    } else {
        0
    }
}

/// The first identifier-like token of `s`: the longest run of identifier
/// characters that starts at the first such character; `None` where `s`
/// holds none.
pub open spec fn first_identifier(s: Seq<char>) -> Option<Seq<char>>
    decreases s.len(),
{
    if s.len() == 0 {
        None
    } else if is_identifier_char(s[0]) {
        Some(s.subrange(0, identifier_run(s) as int))
    } else {
        first_identifier(s.drop_first())
    }
}

/// A text made of identifier characters alone, and of at least one.
pub open spec fn is_identifier(s: Seq<char>) -> bool {
    &&& s.len() > 0
    &&& forall|i: int| 0 <= i < s.len() ==> is_identifier_char(#[trigger] s[i])
}

/// A run of identifier characters that ends at the end of the text, or in
/// front of another character, is the whole leading run.
pub proof fn lemma_identifier_run(s: Seq<char>, k: int)
    requires
        0 <= k <= s.len(),
        forall|i: int| 0 <= i < k ==> is_identifier_char(#[trigger] s[i]),
        k < s.len() ==> !is_identifier_char(s[k]),
    ensures
        identifier_run(s) == k,
    decreases k,
{
    if k > 0 {
        let rest = s.drop_first();
        assert forall|i: int| 0 <= i < k - 1 implies is_identifier_char(#[trigger] rest[i]) by {
            assert(rest[i] == s[i + 1]);
        }
        if k - 1 < rest.len() {
            assert(rest[k - 1] == s[k]);
        }
        lemma_identifier_run(rest, k - 1);
    }
}

/// The names that the items of a list give: the first identifier of each
/// item, in order; an item without one gives none.
pub open spec fn names_of(items: Seq<Seq<char>>) -> Seq<Seq<char>>
    decreases items.len(),
{
    if items.len() == 0 {
        Seq::<Seq<char>>::empty()
    } else {
        let before = names_of(items.drop_last());
        match first_identifier(items.last()) {
            Some(name) => before.push(name),
            None => before,
        }
    }
}

/// The names listed in the interior of an array literal: the first
/// identifier of each top-level, comma-separated item. The order of the
/// source stays, and a name listed twice comes twice.
pub open spec fn item_names(interior: Seq<char>) -> Seq<Seq<char>> {
    names_of(top_level_items(interior, ','))
}

/// The names that the array field `property` lists in `content`; none
/// where the field is absent.
pub open spec fn listed_names(content: Seq<char>, property: Seq<char>) -> Seq<Seq<char>> {
    match field_interior(content, property) {
        Some(interior) => item_names(interior),
        None => Seq::<Seq<char>>::empty(),
    }
}

/// The bounds of the first identifier in `text[start..end]`.
pub fn identifier_span(text: &Vec<char>, start: usize, end: usize) -> (span: Option<(usize, usize)>)
    requires
        start <= end <= text.len(),
    ensures
        span.is_some() == first_identifier(text@.subrange(start as int, end as int)).is_some(),
        span matches Some(found) ==> start <= found.0 < found.1 <= end && first_identifier(
            text@.subrange(start as int, end as int),
        ) == Some(text@.subrange(found.0 as int, found.1 as int)),
{
    let mut a: usize = start;
    while a < end && !char_is_identifier(text[a])
        invariant
            start <= a <= end <= text.len(),
            first_identifier(text@.subrange(start as int, end as int)) == first_identifier(
                text@.subrange(a as int, end as int),
            ),
        decreases end - a,
    {
        proof {
            let here = text@.subrange(a as int, end as int);
            assert(here[0] == text@[a as int]);
            assert(here.drop_first() == text@.subrange(a + 1, end as int));
        }
        a += 1;
    }
    if a == end {
        return None;
    }
    let mut b: usize = a + 1;
    while b < end && char_is_identifier(text[b])
        invariant
            a < b <= end <= text.len(),
            forall|j: int| a <= j < b ==> is_identifier_char(#[trigger] text@[j]),
        decreases end - b,
    {
        b += 1;
    }
    proof {
        let here = text@.subrange(a as int, end as int);
        assert(here[0] == text@[a as int]);
        assert forall|i: int| 0 <= i < b - a implies is_identifier_char(#[trigger] here[i]) by {
            assert(here[i] == text@[a + i]);
        }
        if b < end {
            assert(here[b - a] == text@[b as int]);
        }
        lemma_identifier_run(here, b - a);
        assert(here.subrange(0, b - a) == text@.subrange(a as int, b as int));
    }
    Some((a, b))
}

/// The first identifier-like token of `item`.
pub fn extract_item_name(item: &str) -> (name: Option<String>)
    ensures
        option_view(name) == first_identifier(item@),
{
    let chars = chars_of(item);
    assert(chars@.subrange(0, chars@.len() as int) == chars@);
    match identifier_span(&chars, 0, chars.len()) {
        Some((a, b)) => Some(string_of_range(&chars, a, b)),
        None => None,
    }
}

/// The names listed in the interior of an array literal.
pub fn list_item_names(interior: &str) -> (names: Vec<String>)
    ensures
        string_views(names@) == item_names(interior@),
{
    let chars = chars_of(interior);
    let spans = item_spans(&chars, ',');
    let ghost items = top_level_items(interior@, ',');
    let mut names: Vec<String> = Vec::new();
    let mut k: usize = 0;
    while k < spans.len()
        invariant
            chars@ == interior@,
            k <= spans.len(),
            spans_within(span_view(spans@), chars@.len() as int),
            span_texts(chars@, span_view(spans@)) == items,
            string_views(names@) == names_of(items.subrange(0, k as int)),
        decreases spans.len() - k,
    {
        let span = spans[k];
        let ghost before = string_views(names@);
        proof {
            assert(span_view(spans@)[k as int] == (span.0 as int, span.1 as int));
            assert(items[k as int] == chars@.subrange(span.0 as int, span.1 as int));
            let upto = items.subrange(0, k + 1);
            assert(upto.drop_last() == items.subrange(0, k as int));
            assert(upto.last() == items[k as int]);
        }
        match identifier_span(&chars, span.0, span.1) {
            Some((a, b)) => {
                let name = string_of_range(&chars, a, b);
                names.push(name);
                assert(string_views(names@) == before.push(chars@.subrange(a as int, b as int)));
            },
            None => {},
        }
        k += 1;
    }
    assert(items.subrange(0, spans.len() as int) == items);
    names
}

/// The names that the array field `property_name` lists in `content`, in
/// source order. A field that is absent gives the empty list, as does an
/// empty pair of brackets.
pub fn extract_array_property(content: &str, property_name: &str) -> (names: Vec<String>)
    ensures
        string_views(names@) == listed_names(content@, property_name@),
{
    match array_interior(content, property_name) {
        Some(interior) => list_item_names(interior.as_str()),
        None => {
            let names: Vec<String> = Vec::new();
            assert(string_views(names@) == Seq::<Seq<char>>::empty());
            names
        },
    }
}

} // verus!
