//! Depth-aware scanning of source text: the nesting depth across the three
//! bracket pairs, the split of a span at separators of depth zero, and the
//! balanced blocks of one bracket pair.

use vstd::prelude::*;
use crate::text::{chars_of, option_view, string_of_range, string_views, trim, trim_range};

verus! {

/// `{`, `[` and `(` open a nesting level.
pub open spec fn is_opener(c: char) -> bool {
    c == '{' || c == '[' || c == '('
}

/// `}`, `]` and `)` close a nesting level, whatever opened it.
pub open spec fn is_closer(c: char) -> bool {
    c == '}' || c == ']' || c == ')'
}

/// What one character adds to the shared depth counter.
pub open spec fn depth_step(c: char) -> int {
    if is_opener(c) {
        1
    } else if is_closer(c) {
        -1
    } else {
        0
    }
}

/// The nesting depth after the first `n` characters of `text`: openers seen
/// minus closers seen, of any kind. It may be negative.
pub open spec fn depth_after(text: Seq<char>, n: int) -> int
    decreases n,
{
    if n <= 0 {
        0
    } else {
        depth_after(text, n - 1) + depth_step(text[n - 1])
    }
}

/// The depth never leaves the band that the number of characters allows.
pub proof fn lemma_depth_bounded(text: Seq<char>, n: int)
    requires
        0 <= n,
    ensures
        -n <= depth_after(text, n) <= n,
    decreases n,
{
    if n > 0 {
        lemma_depth_bounded(text, n - 1);
    }
}

fn step_of(c: char) -> (d: i128)
    ensures
        d == depth_step(c),
{
    if c == '{' || c == '[' || c == '(' {
        1
    } else if c == '}' || c == ']' || c == ')' {
        -1
    } else {
        0
    }
}

/// The nesting depth after each character of `text`.
pub fn nesting_depths(text: &str) -> (depths: Vec<i128>)
    ensures
        depths@.len() == text@.len(),
        forall|i: int| 0 <= i < depths@.len() ==> depths@[i] == depth_after(text@, i + 1),
{
    let chars = chars_of(text);
    let mut depths: Vec<i128> = Vec::new();
    let mut depth: i128 = 0;
    let mut i: usize = 0;
    while i < chars.len()
        invariant
            chars@ == text@,
            i <= chars.len(),
            depth == depth_after(text@, i as int),
            depths@.len() == i,
            forall|k: int| 0 <= k < i ==> depths@[k] == depth_after(text@, k + 1),
        decreases chars.len() - i,
    {
        proof {
            lemma_depth_bounded(text@, i as int);
        }
        depth = depth + step_of(chars[i]);
        depths.push(depth);
        i += 1;
    }
    depths
}

/// Position `i` holds a separator at depth zero. A bracket is never a
/// separator.
pub open spec fn is_cut(text: Seq<char>, separator: char, i: int) -> bool {
    &&& 0 <= i < text.len()
    &&& text[i] == separator
    &&& depth_step(separator) == 0
    &&& depth_after(text, i) == 0
}

/// The raw pieces of the first `n` characters of `text`: a separator at
/// depth zero opens a new piece, every other character extends the last one.
pub open spec fn pieces(text: Seq<char>, separator: char, n: int) -> Seq<Seq<char>>
    decreases n,
{
    if n <= 0 {
        seq![Seq::<char>::empty()]
    } else {
        let before = pieces(text, separator, n - 1);
        if is_cut(text, separator, n - 1) {
            before.push(Seq::<char>::empty())
        } else {
            before.drop_last().push(before.last().push(text[n - 1]))
        }
    }
}

/// The pieces, each trimmed, without those that trimming leaves empty.
pub open spec fn kept_items(raw: Seq<Seq<char>>) -> Seq<Seq<char>>
    decreases raw.len(),
{
    if raw.len() == 0 {
        Seq::<Seq<char>>::empty()
    } else {
        let before = kept_items(raw.drop_last());
        let item = trim(raw.last());
        if item.len() > 0 {
            before.push(item)
        } else {
            before
        }
    }
}

/// The items of `text`: what stands between separators of depth zero,
/// trimmed, in source order, empty items left out.
pub open spec fn top_level_items(text: Seq<char>, separator: char) -> Seq<Seq<char>> {
    kept_items(pieces(text, separator, text.len() as int))
}

/// The texts that a sequence of spans cuts out of `text`.
pub open spec fn span_texts(text: Seq<char>, spans: Seq<(int, int)>) -> Seq<Seq<char>> {
    Seq::new(spans.len(), |k: int| text.subrange(spans[k].0, spans[k].1))
}

/// Spans of machine integers, read as spans of integers.
pub open spec fn span_view(spans: Seq<(usize, usize)>) -> Seq<(int, int)> {
    Seq::new(spans.len(), |k: int| (spans[k].0 as int, spans[k].1 as int))
}

/// Every span lies inside the first `n` characters and is not reversed.
pub open spec fn spans_within(spans: Seq<(int, int)>, n: int) -> bool {
    forall|k: int| 0 <= k < spans.len() ==> 0 <= (#[trigger] spans[k]).0 <= spans[k].1 <= n
}

proof fn lemma_pieces_nonempty(text: Seq<char>, separator: char, n: int)
    ensures
        pieces(text, separator, n).len() >= 1,
    decreases n,
{
    if n > 0 {
        lemma_pieces_nonempty(text, separator, n - 1);
    }
}

/// The spans of the items of `text`, in source order.
pub fn item_spans(text: &Vec<char>, separator: char) -> (spans: Vec<(usize, usize)>)
    ensures
        spans_within(span_view(spans@), text@.len() as int),
        span_texts(text@, span_view(spans@)) == top_level_items(text@, separator),
{
    let n = text.len();
    let mut spans: Vec<(usize, usize)> = Vec::new();
    let mut start: usize = 0;
    let mut depth: i128 = 0;
    let mut i: usize = 0;
    while i < n
        invariant
            n == text.len(),
            start <= i <= n,
            depth == depth_after(text@, i as int),
            pieces(text@, separator, i as int).len() >= 1,
            pieces(text@, separator, i as int).last() == text@.subrange(start as int, i as int),
            spans_within(span_view(spans@), i as int),
            span_texts(text@, span_view(spans@)) == kept_items(
                pieces(text@, separator, i as int).drop_last(),
            ),
        decreases n - i,
    {
        let c = text[i];
        let step = step_of(c);
        let ghost before = pieces(text@, separator, i as int);
        let ghost old_spans = span_view(spans@);
        proof {
            lemma_depth_bounded(text@, i as int);
            lemma_pieces_nonempty(text@, separator, i + 1);
        }
        if step == 0 && c == separator && depth == 0 {
            let span = trim_range(text, start, i);
            if span.0 < span.1 {
                spans.push(span);
            }
            proof {
                let after = pieces(text@, separator, i + 1);
                assert(is_cut(text@, separator, i as int));
                assert(after == before.push(Seq::<char>::empty()));
                assert(after.drop_last() == before);
                assert(after.last() == text@.subrange(i + 1, i + 1));
                let now = span_view(spans@);
                if span.0 < span.1 {
                    assert(now == old_spans.push((span.0 as int, span.1 as int)));
                    assert(span_texts(text@, now) == span_texts(text@, old_spans).push(
                        trim(before.last()),
                    ));
                } else {
                    assert(now == old_spans);
                    assert(trim(before.last()).len() == 0);
                }
            }
            start = i + 1;
        } else {
            proof {
                let after = pieces(text@, separator, i + 1);
                assert(!is_cut(text@, separator, i as int));
                assert(after == before.drop_last().push(before.last().push(text@[i as int])));
                assert(after.drop_last() == before.drop_last());
                assert(after.last() == text@.subrange(start as int, i + 1));
            }
        }
        depth = depth + step;
        i += 1;
    }
    let ghost before = pieces(text@, separator, n as int);
    let ghost old_spans = span_view(spans@);
    let span = trim_range(text, start, n);
    if span.0 < span.1 {
        spans.push(span);
    }
    proof {
        let now = span_view(spans@);
        if span.0 < span.1 {
            assert(now == old_spans.push((span.0 as int, span.1 as int)));
            assert(span_texts(text@, now) == span_texts(text@, old_spans).push(
                trim(before.last()),
            ));
        } else {
            assert(now == old_spans);
            assert(trim(before.last()).len() == 0);
        }
    }
    spans
}

/// The strings that a sequence of spans cuts out of `text`.
pub fn strings_of_spans(text: &Vec<char>, spans: &Vec<(usize, usize)>) -> (out: Vec<String>)
    requires
        spans_within(span_view(spans@), text@.len() as int),
    ensures
        string_views(out@) == span_texts(text@, span_view(spans@)),
{
    let mut out: Vec<String> = Vec::new();
    let mut k: usize = 0;
    while k < spans.len()
        invariant
            k <= spans.len(),
            spans_within(span_view(spans@), text@.len() as int),
            out@.len() == k,
            forall|j: int|
                0 <= j < k ==> (#[trigger] out@[j])@ == text@.subrange(
                    spans@[j].0 as int,
                    spans@[j].1 as int,
                ),
        decreases spans.len() - k,
    {
        let span = spans[k];
        assert(span_view(spans@)[k as int] == (span.0 as int, span.1 as int));
        let item = string_of_range(text, span.0, span.1);
        out.push(item);
        k += 1;
    }
    assert(string_views(out@) =~= span_texts(text@, span_view(spans@)));
    out
}

/// Splits `text` at the separators that stand at depth zero and returns the
/// trimmed, non-empty items in source order.
pub fn split_top_level(text: &str, separator: char) -> (items: Vec<String>)
    ensures
        string_views(items@) == top_level_items(text@, separator),
{
    let chars = chars_of(text);
    let spans = item_spans(&chars, separator);
    strings_of_spans(&chars, &spans)
}

/// The raw pieces of the first `n` characters of `text` where every
/// separator counts, whatever brackets stand around it.
pub open spec fn flat_pieces(text: Seq<char>, separator: char, n: int) -> Seq<Seq<char>>
    decreases n,
{
    if n <= 0 {
        seq![Seq::<char>::empty()]
    } else {
        let before = flat_pieces(text, separator, n - 1);
        if text[n - 1] == separator {
            before.push(Seq::<char>::empty())
        } else {
            before.drop_last().push(before.last().push(text[n - 1]))
        }
    }
}

/// The items of a flat list: what stands between separators, trimmed, in
/// source order, empty items left out.
pub open spec fn flat_items(text: Seq<char>, separator: char) -> Seq<Seq<char>> {
    kept_items(flat_pieces(text, separator, text.len() as int))
}

proof fn lemma_flat_pieces_nonempty(text: Seq<char>, separator: char, n: int)
    ensures
        flat_pieces(text, separator, n).len() >= 1,
    decreases n,
{
    if n > 0 {
        lemma_flat_pieces_nonempty(text, separator, n - 1);
    }
}

/// The spans of the items of the flat list `text`, in source order.
pub fn flat_item_spans(text: &Vec<char>, separator: char) -> (spans: Vec<(usize, usize)>)
    ensures
        spans_within(span_view(spans@), text@.len() as int),
        span_texts(text@, span_view(spans@)) == flat_items(text@, separator),
{
    let n = text.len();
    let mut spans: Vec<(usize, usize)> = Vec::new();
    let mut start: usize = 0;
    let mut i: usize = 0;
    while i < n
        invariant
            n == text.len(),
            start <= i <= n,
            flat_pieces(text@, separator, i as int).len() >= 1,
            flat_pieces(text@, separator, i as int).last() == text@.subrange(
                start as int,
                i as int,
            ),
            spans_within(span_view(spans@), i as int),
            span_texts(text@, span_view(spans@)) == kept_items(
                flat_pieces(text@, separator, i as int).drop_last(),
            ),
        decreases n - i,
    {
        let ghost before = flat_pieces(text@, separator, i as int);
        let ghost old_spans = span_view(spans@);
        proof {
            lemma_flat_pieces_nonempty(text@, separator, i + 1);
        }
        if text[i] == separator {
            let span = trim_range(text, start, i);
            if span.0 < span.1 {
                spans.push(span);
            }
            proof {
                let after = flat_pieces(text@, separator, i + 1);
                assert(after == before.push(Seq::<char>::empty()));
                assert(after.drop_last() == before);
                assert(after.last() == text@.subrange(i + 1, i + 1));
                let now = span_view(spans@);
                if span.0 < span.1 {
                    assert(now == old_spans.push((span.0 as int, span.1 as int)));
                    assert(span_texts(text@, now) == span_texts(text@, old_spans).push(
                        trim(before.last()),
                    ));
                } else {
                    assert(now == old_spans);
                    assert(trim(before.last()).len() == 0);
                }
            }
            start = i + 1;
        } else {
            proof {
                let after = flat_pieces(text@, separator, i + 1);
                assert(after == before.drop_last().push(before.last().push(text@[i as int])));
                assert(after.drop_last() == before.drop_last());
                assert(after.last() == text@.subrange(start as int, i + 1));
            }
        }
        i += 1;
    }
    let ghost before = flat_pieces(text@, separator, n as int);
    let ghost old_spans = span_view(spans@);
    let span = trim_range(text, start, n);
    if span.0 < span.1 {
        spans.push(span);
    }
    proof {
        let now = span_view(spans@);
        if span.0 < span.1 {
            assert(now == old_spans.push((span.0 as int, span.1 as int)));
            assert(span_texts(text@, now) == span_texts(text@, old_spans).push(
                trim(before.last()),
            ));
        } else {
            assert(now == old_spans);
            assert(trim(before.last()).len() == 0);
        }
    }
    spans
}

/// Splits `text` at every separator and returns the trimmed, non-empty
/// items in source order.
pub fn split_flat(text: &str, separator: char) -> (items: Vec<String>)
    ensures
        string_views(items@) == flat_items(text@, separator),
{
    let chars = chars_of(text);
    let spans = flat_item_spans(&chars, separator);
    strings_of_spans(&chars, &spans)
}

/// The first position among the first `n` at which the depth falls below
/// zero: where the closer stands that closes a bracket opened in front of
/// the text. `None` where the depth stays at zero or above.
pub open spec fn outer_closer(text: Seq<char>, n: int) -> Option<int>
    decreases n,
{
    if n <= 0 {
        None
    } else {
        match outer_closer(text, n - 1) {
            Some(at) => Some(at),
            None => if depth_after(text, n) < 0 {
                Some(n - 1)
            } else {
                None
            },
        }
    }
}

/// What a bracket encloses whose opener stands right in front of `text`:
/// the text up to the closer that matches that opener, brackets nested in
/// between counted by the shared depth. `None` where the opener is never
/// closed.
pub open spec fn enclosed_prefix(text: Seq<char>) -> Option<Seq<char>> {
    match outer_closer(text, text.len() as int) {
        Some(at) => Some(text.subrange(0, at)),
        None => None,
    }
}

/// The closer, once found, stays the first, and it lies inside the text
/// that was searched.
pub proof fn lemma_outer_closer_stays(text: Seq<char>, m: int, n: int)
    requires
        0 <= m <= n,
    ensures
        outer_closer(text, m) matches Some(at) ==> 0 <= at < m && outer_closer(text, n) == Some(
            at,
        ),
        outer_closer(text, n) matches Some(at) ==> 0 <= at < n,
    decreases n,
{
    if n > 0 {
        if m < n {
            lemma_outer_closer_stays(text, m, n - 1);
        } else {
            lemma_outer_closer_stays(text, m - 1, n - 1);
        }
        lemma_outer_closer_stays(text, n - 1, n - 1);
    }
}

/// What a bracket encloses whose opener stands right in front of `text`.
pub fn enclosed_text(text: &str) -> (interior: Option<String>)
    ensures
        option_view(interior) == enclosed_prefix(text@),
{
    let chars = chars_of(text);
    let n = chars.len();
    let mut depth: i128 = 0;
    let mut i: usize = 0;
    while i < n
        invariant
            n == chars.len(),
            chars@ == text@,
            i <= n,
            depth == depth_after(text@, i as int),
            outer_closer(text@, i as int).is_none(),
        decreases n - i,
    {
        proof {
            lemma_depth_bounded(text@, i as int);
        }
        depth = depth + step_of(chars[i]);
        if depth < 0 {
            proof {
                assert(outer_closer(text@, i + 1) == Some(i as int));
                lemma_outer_closer_stays(text@, i + 1, n as int);
            }
            return Some(string_of_range(&chars, 0, i));
        }
        i += 1;
    }
    None
}

/// What one character adds to the depth of a single bracket pair.
pub open spec fn kind_step(c: char, open: char, close: char) -> int {
    if c == open {
        1
    } else if c == close {
        -1
    } else {
        0
    }
}

/// The depth of the pair `open`/`close` after the first `n` characters of
/// `text`; characters of other kinds do not count.
pub open spec fn kind_depth(text: Seq<char>, open: char, close: char, n: int) -> int
    decreases n,
{
    if n <= 0 {
        0
    } else {
        kind_depth(text, open, close, n - 1) + kind_step(text[n - 1], open, close)
    }
}

/// The last position at or before `n` at which the pair's depth is zero.
pub open spec fn last_level(text: Seq<char>, open: char, close: char, n: int) -> int
    decreases n,
{
    if n <= 0 {
        0
    } else if kind_depth(text, open, close, n) == 0 {
        n
    } else {
        last_level(text, open, close, n - 1)
    }
}

/// The character at `j` is a closer that brings the pair's depth from one
/// back to zero.
pub open spec fn closes_block(text: Seq<char>, open: char, close: char, j: int) -> bool {
    &&& 0 <= j < text.len()
    &&& kind_step(text[j], open, close) == -1
    &&& kind_depth(text, open, close, j) == 1
}

/// The spans of the balanced blocks that close within the first `n`
/// characters, in source order. A block runs from the last position of depth
/// zero, where its opener stands, through the closer that returns to depth
/// zero. An opener that is never closed yields no span.
pub open spec fn block_spans(text: Seq<char>, open: char, close: char, n: int) -> Seq<(int, int)>
    decreases n,
{
    if n <= 0 {
        Seq::<(int, int)>::empty()
    } else {
        let before = block_spans(text, open, close, n - 1);
        if closes_block(text, open, close, n - 1) {
            before.push((last_level(text, open, close, n - 1), n))
        } else {
            before
        }
    }
}

/// The balanced blocks of `text`, each with its two delimiters, in source
/// order.
pub open spec fn balanced_blocks(text: Seq<char>, open: char, close: char) -> Seq<Seq<char>> {
    span_texts(text, block_spans(text, open, close, text.len() as int))
}

proof fn lemma_kind_depth_bounded(text: Seq<char>, open: char, close: char, n: int)
    requires
        0 <= n,
    ensures
        -n <= kind_depth(text, open, close, n) <= n,
        0 <= last_level(text, open, close, n) <= n,
    decreases n,
{
    if n > 0 {
        lemma_kind_depth_bounded(text, open, close, n - 1);
    }
}

/// The spans of the blocks that close within the first `n` characters lie
/// inside them, are not empty, and follow one another without overlap.
pub proof fn lemma_block_spans_ordered(text: Seq<char>, open: char, close: char, n: int)
    requires
        0 <= n <= text.len(),
    ensures
        spans_within(block_spans(text, open, close, n), n),
        forall|k: int|
            0 <= k < block_spans(text, open, close, n).len() ==> (#[trigger] block_spans(
                text,
                open,
                close,
                n,
            )[k]).0 < block_spans(text, open, close, n)[k].1,
        forall|k: int|
            0 < k < block_spans(text, open, close, n).len() ==> block_spans(text, open, close, n)[k
                - 1].1 <= (#[trigger] block_spans(text, open, close, n)[k]).0,
        block_spans(text, open, close, n).len() > 0 ==> block_spans(text, open, close, n).last().1
            <= last_level(text, open, close, n),
    decreases n,
{
    if n > 0 {
        lemma_block_spans_ordered(text, open, close, n - 1);
        lemma_kind_depth_bounded(text, open, close, n - 1);
        lemma_kind_depth_bounded(text, open, close, n);
        let before = block_spans(text, open, close, n - 1);
        let now = block_spans(text, open, close, n);
        if closes_block(text, open, close, n - 1) {
            assert(kind_depth(text, open, close, n) == 0);
            assert(last_level(text, open, close, n) == n);
            assert(n - 1 >= 1);
            lemma_kind_depth_bounded(text, open, close, n - 2);
            assert(last_level(text, open, close, n - 1) == last_level(text, open, close, n - 2));
            assert forall|k: int| 0 <= k < now.len() implies 0 <= (#[trigger] now[k]).0 <= now[k].1
                <= n && now[k].0 < now[k].1 by {
                if k < before.len() {
                    assert(now[k] == before[k]);
                }
            }
            assert forall|k: int| 0 < k < now.len() implies now[k - 1].1 <= (#[trigger] now[k]).0 by {
                if k < before.len() {
                    assert(now[k] == before[k]);
                    assert(now[k - 1] == before[k - 1]);
                } else {
                    assert(now[k - 1] == before.last());
                }
            }
        } else {
            assert(now == before);
            assert(last_level(text, open, close, n - 1) <= last_level(text, open, close, n));
        }
    }
}

/// The spans of the balanced blocks of `text` for the pair `open`/`close`.
pub fn balanced_block_spans(text: &Vec<char>, open: char, close: char) -> (spans: Vec<(usize, usize)>)
    ensures
        spans_within(span_view(spans@), text@.len() as int),
        span_view(spans@) == block_spans(text@, open, close, text@.len() as int),
{
    let n = text.len();
    let mut spans: Vec<(usize, usize)> = Vec::new();
    let mut start: usize = 0;
    let mut depth: i128 = 0;
    let mut i: usize = 0;
    while i < n
        invariant
            n == text.len(),
            i <= n,
            depth == kind_depth(text@, open, close, i as int),
            depth > 0 ==> start == last_level(text@, open, close, i as int),
            spans_within(span_view(spans@), i as int),
            span_view(spans@) == block_spans(text@, open, close, i as int),
        decreases n - i,
    {
        let c = text[i];
        let ghost old_spans = span_view(spans@);
        proof {
            lemma_kind_depth_bounded(text@, open, close, i as int);
            lemma_kind_depth_bounded(text@, open, close, i + 1);
        }
        if c == open {
            if depth == 0 {
                start = i;
            }
            depth = depth + 1;
        } else if c == close {
            depth = depth - 1;
            if depth == 0 {
                spans.push((start, i + 1));
                proof {
                    assert(closes_block(text@, open, close, i as int));
                    assert(span_view(spans@) == old_spans.push((start as int, i + 1)));
                }
            }
        }
        i += 1;
    }
    spans
}

/// Every balanced block of `text` for the pair `open`/`close`, with both
/// delimiters, in source order.
pub fn extract_balanced_blocks(text: &str, open: char, close: char) -> (blocks: Vec<String>)
    ensures
        string_views(blocks@) == balanced_blocks(text@, open, close),
{
    let chars = chars_of(text);
    let spans = balanced_block_spans(&chars, open, close);
    strings_of_spans(&chars, &spans)
}

} // verus!
