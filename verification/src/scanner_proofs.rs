//! What holds of the scanners on every input: the blocks and the text
//! between them make up the whole text, and splitting a joined list gives
//! the list back.

use vstd::prelude::*;
use crate::scanner::{
    balanced_blocks, block_spans, closes_block, depth_after, depth_step, enclosed_prefix,
    is_closer, is_cut, kept_items, kind_depth, kind_step, last_level, lemma_block_spans_ordered,
    lemma_outer_closer_stays, outer_closer, pieces, span_texts, spans_within, top_level_items,
};
use crate::text::{is_whitespace, trim, trim_end, trim_start};

verus! {

/// The texts around the spans: before the first, between each two
/// neighbours, and after the last. There is one more gap than there are
/// spans.
pub open spec fn gaps_between(text: Seq<char>, spans: Seq<(int, int)>) -> Seq<Seq<char>> {
    Seq::new(
        spans.len() + 1,
        |k: int|
            text.subrange(
                if k == 0 {
                    0
                } else {
                    spans[k - 1].1
                },
                if k == spans.len() {
                    text.len() as int
                } else {
                    spans[k].0
                },
            ),
    )
}

/// The text between the balanced blocks of `text`.
pub open spec fn block_gaps(text: Seq<char>, open: char, close: char) -> Seq<Seq<char>> {
    gaps_between(text, block_spans(text, open, close, text.len() as int))
}

/// `gaps[0] + blocks[0] + gaps[1] + .. + blocks[n - 1] + gaps[n]`.
pub open spec fn interleave(gaps: Seq<Seq<char>>, blocks: Seq<Seq<char>>) -> Seq<char>
    decreases blocks.len(),
{
    if blocks.len() == 0 || gaps.len() == 0 {
        if gaps.len() == 0 {
            Seq::<char>::empty()
        } else {
            gaps[0]
        }
    } else {
        interleave(gaps.drop_last(), blocks.drop_last()) + blocks.last() + gaps.last()
    }
}

/// Spans that lie in `text`, none reversed, each starting where the one
/// before has ended or later.
pub open spec fn spans_in_order(spans: Seq<(int, int)>, n: int) -> bool {
    &&& spans_within(spans, n)
    &&& forall|k: int| 0 < k < spans.len() ==> spans[k - 1].1 <= (#[trigger] spans[k]).0
}

proof fn lemma_interleave_prefix(text: Seq<char>, spans: Seq<(int, int)>, m: int)
    requires
        spans_in_order(spans, text.len() as int),
        0 <= m <= spans.len(),
    ensures
        interleave(
            gaps_between(text, spans).subrange(0, m + 1),
            span_texts(text, spans).subrange(0, m),
        ) == text.subrange(
            0,
            if m == spans.len() {
                text.len() as int
            } else {
                spans[m].0
            },
        ),
    decreases m,
{
    let gaps = gaps_between(text, spans);
    let blocks = span_texts(text, spans);
    let g = gaps.subrange(0, m + 1);
    let b = blocks.subrange(0, m);
    let end = if m == spans.len() {
        text.len() as int
    } else {
        spans[m].0
    };
    if m == 0 {
        assert(g[0] == text.subrange(0, end));
    } else {
        lemma_interleave_prefix(text, spans, m - 1);
        assert(g.drop_last() == gaps.subrange(0, m));
        assert(b.drop_last() == blocks.subrange(0, m - 1));
        assert(b.last() == text.subrange(spans[m - 1].0, spans[m - 1].1));
        assert(g.last() == text.subrange(spans[m - 1].1, end));
        assert(spans[m - 1].1 <= end) by {
            if m < spans.len() {
                assert(spans[m - 1].1 <= spans[m].0);
            }
        }
        assert(text.subrange(0, spans[m - 1].0) + text.subrange(spans[m - 1].0, spans[m - 1].1)
            + text.subrange(spans[m - 1].1, end) == text.subrange(0, end));
    }
}

/// The balanced blocks of a text, put back between the stretches of text
/// that separate them, give the text again. This holds of every text: what
/// follows an opener that is never closed belongs to the last gap.
pub proof fn lemma_blocks_rebuild_text(text: Seq<char>, open: char, close: char)
    ensures
        block_gaps(text, open, close).len() == balanced_blocks(text, open, close).len() + 1,
        interleave(block_gaps(text, open, close), balanced_blocks(text, open, close)) == text,
{
    let spans = block_spans(text, open, close, text.len() as int);
    lemma_block_spans_ordered(text, open, close, text.len() as int);
    lemma_interleave_prefix(text, spans, spans.len() as int);
    let gaps = gaps_between(text, spans);
    let blocks = span_texts(text, spans);
    assert(gaps.subrange(0, (spans.len() + 1) as int) == gaps);
    assert(blocks.subrange(0, spans.len() as int) == blocks);
    assert(text.subrange(0, text.len() as int) == text);
}

/// The pieces put together again, with one separator between each two
/// neighbours.
pub open spec fn join(parts: Seq<Seq<char>>, separator: char) -> Seq<char>
    decreases parts.len(),
{
    if parts.len() == 0 {
        Seq::<char>::empty()
    } else if parts.len() == 1 {
        parts[0]
    } else {
        join(parts.drop_last(), separator) + seq![separator] + parts.last()
    }
}

/// A text that closes every bracket it opens and holds no separator at its
/// own depth zero: what one entry of a list looks like.
pub open spec fn is_level_piece(part: Seq<char>, separator: char) -> bool {
    &&& depth_after(part, part.len() as int) == 0
    &&& forall|i: int| 0 <= i < part.len() ==> !is_cut(part, separator, i)
}

proof fn lemma_depth_of_prefix(a: Seq<char>, b: Seq<char>, n: int)
    requires
        0 <= n <= a.len(),
    ensures
        depth_after(a + b, n) == depth_after(a, n),
    decreases n,
{
    if n > 0 {
        lemma_depth_of_prefix(a, b, n - 1);
        assert((a + b)[n - 1] == a[n - 1]);
    }
}

proof fn lemma_depth_of_concat(a: Seq<char>, b: Seq<char>, k: int)
    requires
        0 <= k <= b.len(),
    ensures
        depth_after(a + b, a.len() + k) == depth_after(a, a.len() as int) + depth_after(b, k),
    decreases k,
{
    if k == 0 {
        lemma_depth_of_prefix(a, b, a.len() as int);
    } else {
        lemma_depth_of_concat(a, b, k - 1);
        assert((a + b)[a.len() + k - 1] == b[k - 1]);
    }
}

proof fn lemma_pieces_of_prefix(a: Seq<char>, b: Seq<char>, separator: char, n: int)
    requires
        0 <= n <= a.len(),
    ensures
        pieces(a + b, separator, n) == pieces(a, separator, n),
    decreases n,
{
    if n > 0 {
        lemma_pieces_of_prefix(a, b, separator, n - 1);
        lemma_depth_of_prefix(a, b, n - 1);
        assert((a + b)[n - 1] == a[n - 1]);
    }
}

proof fn lemma_pieces_extend(text: Seq<char>, separator: char, m: int, k: int)
    requires
        0 <= m,
        0 <= k,
        m + k <= text.len(),
        forall|i: int| m <= i < m + k ==> !is_cut(text, separator, i),
    ensures
        pieces(text, separator, m + k).len() >= 1,
        pieces(text, separator, m).len() >= 1,
        pieces(text, separator, m + k) == pieces(text, separator, m).drop_last().push(
            pieces(text, separator, m).last() + text.subrange(m, m + k),
        ),
    decreases k,
{
    let base = pieces(text, separator, m);
    if k == 0 {
        lemma_pieces_len(text, separator, m);
        assert(text.subrange(m, m) == Seq::<char>::empty());
        assert(base.last() + Seq::<char>::empty() == base.last());
        assert(base.drop_last().push(base.last()) == base);
    } else {
        lemma_pieces_extend(text, separator, m, k - 1);
        let before = pieces(text, separator, m + k - 1);
        assert(!is_cut(text, separator, m + k - 1));
        let grown = base.last() + text.subrange(m, m + k - 1);
        assert(before == base.drop_last().push(grown));
        assert(before.drop_last() == base.drop_last());
        assert(before.last() == grown);
        assert(grown.push(text[m + k - 1]) == base.last() + text.subrange(m, m + k));
    }
}

proof fn lemma_pieces_len(text: Seq<char>, separator: char, n: int)
    ensures
        pieces(text, separator, n).len() >= 1,
    decreases n,
{
    if n > 0 {
        lemma_pieces_len(text, separator, n - 1);
    }
}

proof fn lemma_join_depth(parts: Seq<Seq<char>>, separator: char)
    requires
        depth_step(separator) == 0,
        forall|k: int| 0 <= k < parts.len() ==> is_level_piece(#[trigger] parts[k], separator),
    ensures
        depth_after(join(parts, separator), join(parts, separator).len() as int) == 0,
    decreases parts.len(),
{
    if parts.len() >= 2 {
        let head = join(parts.drop_last(), separator);
        assert forall|k: int| 0 <= k < parts.drop_last().len() implies is_level_piece(
            #[trigger] parts.drop_last()[k],
            separator,
        ) by {
            assert(parts.drop_last()[k] == parts[k]);
        }
        lemma_join_depth(parts.drop_last(), separator);
        let mid = head + seq![separator];
        lemma_depth_of_concat(head, seq![separator], 1);
        assert(depth_after(seq![separator], 1) == depth_after(seq![separator], 0) + depth_step(
            seq![separator][0],
        ));
        assert(depth_after(mid, mid.len() as int) == 0);
        assert(is_level_piece(parts.last(), separator));
        lemma_depth_of_concat(mid, parts.last(), parts.last().len() as int);
    } else if parts.len() == 1 {
        assert(is_level_piece(parts[0], separator));
    }
}

/// Splitting a joined list at its separators gives back the pieces that were
/// joined, whatever brackets they nest inside themselves.
pub proof fn lemma_pieces_of_join(parts: Seq<Seq<char>>, separator: char)
    requires
        parts.len() >= 1,
        depth_step(separator) == 0,
        forall|k: int| 0 <= k < parts.len() ==> is_level_piece(#[trigger] parts[k], separator),
    ensures
        pieces(join(parts, separator), separator, join(parts, separator).len() as int) == parts,
    decreases parts.len(),
{
    let text = join(parts, separator);
    let last = parts.last();
    assert(is_level_piece(last, separator));
    if parts.len() == 1 {
        assert(text == last);
        lemma_pieces_extend(text, separator, 0, text.len() as int);
        assert(text.subrange(0, text.len() as int) == text);
        assert(pieces(text, separator, 0) == seq![Seq::<char>::empty()]);
        assert(Seq::<char>::empty() + text == text);
        assert(seq![Seq::<char>::empty()].drop_last().push(text) == seq![text]);
        assert(parts == seq![text]);
    } else {
        let rest = parts.drop_last();
        let head = join(rest, separator);
        assert forall|k: int| 0 <= k < rest.len() implies is_level_piece(
            #[trigger] rest[k],
            separator,
        ) by {
            assert(rest[k] == parts[k]);
        }
        lemma_pieces_of_join(rest, separator);
        lemma_join_depth(rest, separator);
        let mid = head + seq![separator];
        assert(text == mid + last);
        let h = head.len() as int;
        // the head keeps its pieces inside the longer text
        assert(text == head + (seq![separator] + last));
        lemma_pieces_of_prefix(head, seq![separator] + last, separator, h);
        lemma_depth_of_prefix(head, seq![separator] + last, h);
        // the separator after the head is a cut
        assert(text[h] == separator);
        assert(is_cut(text, separator, h));
        assert(pieces(text, separator, h + 1) == rest.push(Seq::<char>::empty()));
        // nothing in the last piece is a cut
        assert forall|i: int| h + 1 <= i < h + 1 + last.len() implies !is_cut(
            text,
            separator,
            i,
        ) by {
            lemma_depth_of_concat(mid, last, i - (h + 1));
            lemma_depth_of_concat(head, seq![separator], 1);
            assert(depth_after(seq![separator], 1) == depth_after(seq![separator], 0) + depth_step(
                seq![separator][0],
            ));
            assert(text[i] == last[i - (h + 1)]);
            assert(!is_cut(last, separator, i - (h + 1)));
        }
        lemma_pieces_extend(text, separator, h + 1, last.len() as int);
        assert(text.subrange(h + 1, h + 1 + last.len()) == last);
        assert(Seq::<char>::empty() + last == last);
        assert(rest.push(Seq::<char>::empty()).drop_last() == rest);
        assert(rest.push(last) == parts);
    }
}

proof fn lemma_kept_items_all(raw: Seq<Seq<char>>)
    requires
        forall|k: int| 0 <= k < raw.len() ==> trim(#[trigger] raw[k]).len() > 0,
    ensures
        kept_items(raw).len() == raw.len(),
        forall|k: int| 0 <= k < raw.len() ==> (#[trigger] kept_items(raw)[k]) == trim(raw[k]),
    decreases raw.len(),
{
    if raw.len() > 0 {
        let rest = raw.drop_last();
        assert forall|k: int| 0 <= k < rest.len() implies trim(#[trigger] rest[k]).len() > 0 by {
            assert(rest[k] == raw[k]);
        }
        lemma_kept_items_all(rest);
        assert(trim(raw.last()).len() > 0);
        assert forall|k: int| 0 <= k < raw.len() implies (#[trigger] kept_items(raw)[k]) == trim(
            raw[k],
        ) by {
            if k < rest.len() {
                assert(kept_items(raw)[k] == kept_items(rest)[k]);
                assert(rest[k] == raw[k]);
            }
        }
    }
}

/// A list text of `n` entries splits into exactly `n` items. Let the entries
/// be joined by the separator, each closing the brackets it opens, holding
/// no separator at its own depth zero, and not blank. Then the items are the
/// trimmed entries, one for one and in the same order, however deep the
/// brackets inside an entry nest.
pub proof fn lemma_split_of_join(entries: Seq<Seq<char>>, separator: char)
    requires
        depth_step(separator) == 0,
        forall|k: int| 0 <= k < entries.len() ==> is_level_piece(#[trigger] entries[k], separator),
        forall|k: int| 0 <= k < entries.len() ==> trim(#[trigger] entries[k]).len() > 0,
    ensures
        top_level_items(join(entries, separator), separator).len() == entries.len(),
        forall|k: int|
            0 <= k < entries.len() ==> (#[trigger] top_level_items(
                join(entries, separator),
                separator,
            )[k]) == trim(entries[k]),
{
    let text = join(entries, separator);
    if entries.len() == 0 {
        let raw = pieces(text, separator, 0);
        assert(raw == seq![Seq::<char>::empty()]);
        assert(raw.drop_last() == Seq::<Seq<char>>::empty());
        assert(trim(Seq::<char>::empty()) == Seq::<char>::empty());
        assert(kept_items(raw.drop_last()).len() == 0);
        assert(kept_items(raw).len() == 0);
    } else {
        lemma_pieces_of_join(entries, separator);
        lemma_kept_items_all(entries);
    }
}

proof fn lemma_trim_start_shape(s: Seq<char>)
    ensures
        trim_start(s).len() <= s.len(),
        trim_start(s).len() > 0 ==> !is_whitespace(trim_start(s)[0]),
    decreases s.len(),
{
    if s.len() > 0 && is_whitespace(s[0]) {
        lemma_trim_start_shape(s.drop_first());
    }
}

proof fn lemma_trim_end_shape(s: Seq<char>)
    ensures
        trim_end(s).len() <= s.len(),
        trim_end(s) == s.subrange(0, trim_end(s).len() as int),
        trim_end(s).len() > 0 ==> !is_whitespace(trim_end(s).last()),
    decreases s.len(),
{
    if s.len() > 0 && is_whitespace(s.last()) {
        let shorter = s.drop_last();
        lemma_trim_end_shape(shorter);
        assert(shorter.subrange(0, trim_end(s).len() as int) == s.subrange(
            0,
            trim_end(s).len() as int,
        ));
    } else {
        assert(s.subrange(0, s.len() as int) == s);
    }
}

/// A trimmed text has no whitespace at either end, so trimming it again
/// changes nothing.
pub proof fn lemma_trim_idempotent(s: Seq<char>)
    ensures
        trim(s).len() <= s.len(),
        trim(s).len() > 0 ==> !is_whitespace(trim(s)[0]) && !is_whitespace(trim(s).last()),
        trim(trim(s)) == trim(s),
{
    let inner = trim_start(s);
    let done = trim(s);
    lemma_trim_start_shape(s);
    lemma_trim_end_shape(inner);
    if done.len() > 0 {
        assert(done[0] == inner[0]);
        assert(trim_start(done) == done);
        assert(trim_end(done) == done);
    } else {
        assert(trim_start(done) == done);
        assert(trim_end(done) == done);
    }
}

proof fn lemma_kept_items_trimmed(raw: Seq<Seq<char>>)
    ensures
        kept_items(raw).len() <= raw.len(),
        forall|k: int|
            0 <= k < kept_items(raw).len() ==> (#[trigger] kept_items(raw)[k]).len() > 0 && trim(
                kept_items(raw)[k],
            ) == kept_items(raw)[k],
    decreases raw.len(),
{
    if raw.len() > 0 {
        let before = kept_items(raw.drop_last());
        lemma_kept_items_trimmed(raw.drop_last());
        lemma_trim_idempotent(raw.last());
        assert forall|k: int| 0 <= k < kept_items(raw).len() implies (#[trigger] kept_items(
            raw,
        )[k]).len() > 0 && trim(kept_items(raw)[k]) == kept_items(raw)[k] by {
            if k < before.len() {
                assert(kept_items(raw)[k] == before[k]);
            }
        }
    }
}

/// Every item that a split returns is non-empty and trimmed.
pub proof fn lemma_items_are_trimmed(text: Seq<char>, separator: char)
    ensures
        forall|k: int|
            0 <= k < top_level_items(text, separator).len() ==> (#[trigger] top_level_items(
                text,
                separator,
            )[k]).len() > 0 && trim(top_level_items(text, separator)[k]) == top_level_items(
                text,
                separator,
            )[k],
{
    lemma_kept_items_trimmed(pieces(text, separator, text.len() as int));
}

/// A balanced block: it starts with the opener, ends with the closer, and
/// the depth of the pair, counted inside it, is at least one between its
/// two ends and zero behind its closer.
pub open spec fn is_balanced_block(block: Seq<char>, open: char, close: char) -> bool {
    &&& block.len() >= 2
    &&& block[0] == open
    &&& kind_step(block.last(), open, close) == -1
    &&& kind_depth(block, open, close, block.len() as int) == 0
    &&& forall|k: int| 0 < k < block.len() ==> kind_depth(block, open, close, k) >= 1
}

proof fn lemma_last_level_opens(text: Seq<char>, open: char, close: char, n: int)
    requires
        0 <= n <= text.len(),
        kind_depth(text, open, close, n) >= 1,
    ensures
        0 <= last_level(text, open, close, n) < n,
        kind_depth(text, open, close, last_level(text, open, close, n)) == 0,
        text[last_level(text, open, close, n)] == open,
        forall|k: int|
            last_level(text, open, close, n) < k <= n ==> kind_depth(text, open, close, k) >= 1,
    decreases n,
{
    if n > 0 {
        if kind_depth(text, open, close, n - 1) >= 1 {
            lemma_last_level_opens(text, open, close, n - 1);
        } else {
            assert(kind_depth(text, open, close, n - 1) == 0);
            assert(last_level(text, open, close, n - 1) == n - 1);
        }
    }
}

proof fn lemma_kind_depth_shift(text: Seq<char>, open: char, close: char, from: int, to: int, k: int)
    requires
        0 <= from <= to <= text.len(),
        0 <= k <= to - from,
    ensures
        kind_depth(text.subrange(from, to), open, close, k) == kind_depth(
            text,
            open,
            close,
            from + k,
        ) - kind_depth(text, open, close, from),
    decreases k,
{
    if k > 0 {
        lemma_kind_depth_shift(text, open, close, from, to, k - 1);
        assert(text.subrange(from, to)[k - 1] == text[from + k - 1]);
    }
}

proof fn lemma_spans_are_balanced(text: Seq<char>, open: char, close: char, n: int)
    requires
        0 <= n <= text.len(),
    ensures
        forall|i: int|
            0 <= i < block_spans(text, open, close, n).len() ==> is_balanced_block(
                #[trigger] span_texts(text, block_spans(text, open, close, n))[i],
                open,
                close,
            ),
    decreases n,
{
    if n > 0 {
        lemma_spans_are_balanced(text, open, close, n - 1);
        lemma_block_spans_ordered(text, open, close, n);
        lemma_block_spans_ordered(text, open, close, n - 1);
        let before = block_spans(text, open, close, n - 1);
        let now = block_spans(text, open, close, n);
        assert forall|i: int| 0 <= i < now.len() implies is_balanced_block(
            #[trigger] span_texts(text, now)[i],
            open,
            close,
        ) by {
            if i < before.len() {
                assert(now[i] == before[i]);
                assert(span_texts(text, now)[i] == span_texts(text, before)[i]);
            } else {
                assert(closes_block(text, open, close, n - 1));
                lemma_last_level_opens(text, open, close, n - 1);
                let start = last_level(text, open, close, n - 1);
                let block = text.subrange(start, n);
                assert(span_texts(text, now)[i] == block);
                assert(block[0] == text[start]);
                assert(block.last() == text[n - 1]);
                lemma_kind_depth_shift(text, open, close, start, n, n - start);
                assert forall|k: int| 0 < k < block.len() implies kind_depth(
                    block,
                    open,
                    close,
                    k,
                ) >= 1 by {
                    lemma_kind_depth_shift(text, open, close, start, n, k);
                }
            }
        }
    }
}

/// Every block that the extractor returns is balanced: it runs from an
/// opener through the closer that matches it.
pub proof fn lemma_blocks_are_balanced(text: Seq<char>, open: char, close: char)
    ensures
        forall|i: int|
            0 <= i < balanced_blocks(text, open, close).len() ==> is_balanced_block(
                #[trigger] balanced_blocks(text, open, close)[i],
                open,
                close,
            ),
{
    lemma_spans_are_balanced(text, open, close, text.len() as int);
}

/// A text in which the pair is balanced: the depth never falls below zero
/// and ends at zero.
pub open spec fn is_balanced(text: Seq<char>, open: char, close: char) -> bool {
    &&& kind_depth(text, open, close, text.len() as int) == 0
    &&& forall|n: int| 0 <= n <= text.len() ==> kind_depth(text, open, close, n) >= 0
}

/// Position `p` lies inside one of the spans.
pub open spec fn in_some_span(spans: Seq<(int, int)>, p: int) -> bool {
    exists|i: int| 0 <= i < spans.len() && (#[trigger] spans[i]).0 <= p < spans[i].1
}

proof fn lemma_delimiters_are_covered(text: Seq<char>, open: char, close: char, n: int)
    requires
        0 <= n <= text.len(),
        forall|m: int| 0 <= m <= n ==> kind_depth(text, open, close, m) >= 0,
    ensures
        forall|p: int|
            0 <= p < (if kind_depth(text, open, close, n) > 0 {
                last_level(text, open, close, n)
            } else {
                n
            }) ==> in_some_span(block_spans(text, open, close, n), p) || kind_step(
                #[trigger] text[p],
                open,
                close,
            ) == 0,
    decreases n,
{
    if n > 0 {
        lemma_delimiters_are_covered(text, open, close, n - 1);
        let before = block_spans(text, open, close, n - 1);
        let now = block_spans(text, open, close, n);
        let d0 = kind_depth(text, open, close, n - 1);
        let d1 = kind_depth(text, open, close, n);
        assert(d0 >= 0 && d1 >= 0);
        assert forall|p: int| in_some_span(before, p) implies in_some_span(now, p) by {
            let i = choose|i: int| 0 <= i < before.len() && (#[trigger] before[i]).0 <= p
                < before[i].1;
            assert(now[i] == before[i]);
        }
        let frontier = if d1 > 0 {
            last_level(text, open, close, n)
        } else {
            n
        };
        assert forall|p: int| 0 <= p < frontier implies in_some_span(now, p) || kind_step(
            #[trigger] text[p],
            open,
            close,
        ) == 0 by {
            if d1 > 0 {
                if d0 > 0 {
                    assert(frontier == last_level(text, open, close, n - 1));
                } else {
                    assert(frontier == n - 1);
                }
            } else if d0 == 0 {
                if p == n - 1 {
                    assert(kind_step(text[n - 1], open, close) == 0);
                }
            } else {
                assert(closes_block(text, open, close, n - 1));
                let start = last_level(text, open, close, n - 1);
                assert(now == before.push((start, n)));
                if p >= start {
                    assert(now[before.len() as int] == (start, n));
                    assert(in_some_span(now, p));
                }
            }
        }
    }
}

proof fn lemma_spans_monotone(spans: Seq<(int, int)>, n: int, i: int, j: int)
    requires
        spans_in_order(spans, n),
        forall|k: int| 0 <= k < spans.len() ==> (#[trigger] spans[k]).0 < spans[k].1,
        0 <= i <= j < spans.len(),
    ensures
        spans[i].0 <= spans[j].0,
        spans[i].1 <= spans[j].1,
    decreases j - i,
{
    if i < j {
        lemma_spans_monotone(spans, n, i, j - 1);
        assert(spans[j - 1].1 <= spans[j].0);
        assert(spans[j - 1].0 < spans[j - 1].1);
        assert(spans[j].0 < spans[j].1);
    }
}

/// In a balanced text every delimiter of the pair belongs to a block: the
/// text between the blocks holds neither an opener nor a closer.
pub proof fn lemma_balanced_gaps_hold_no_delimiter(text: Seq<char>, open: char, close: char)
    requires
        is_balanced(text, open, close),
    ensures
        forall|k: int, j: int|
            0 <= k < block_gaps(text, open, close).len() && 0 <= j < block_gaps(
                text,
                open,
                close,
            )[k].len() ==> kind_step(#[trigger] block_gaps(text, open, close)[k][j], open, close)
                == 0,
{
    let n = text.len() as int;
    let spans = block_spans(text, open, close, n);
    let gaps = block_gaps(text, open, close);
    lemma_block_spans_ordered(text, open, close, n);
    lemma_delimiters_are_covered(text, open, close, n);
    assert forall|k: int, j: int| 0 <= k < gaps.len() && 0 <= j < gaps[k].len() implies kind_step(
        #[trigger] gaps[k][j],
        open,
        close,
    ) == 0 by {
        let from = if k == 0 {
            0
        } else {
            spans[k - 1].1
        };
        let to = if k == spans.len() {
            n
        } else {
            spans[k].0
        };
        assert(gaps[k] == text.subrange(from, to));
        if k > 0 {
            assert(0 <= spans[k - 1].1 <= n);
        }
        if k < spans.len() {
            assert(0 <= spans[k].0 <= n);
        }
        let p = from + j;
        assert(gaps[k][j] == text[p]);
        if in_some_span(spans, p) {
            let i = choose|i: int| 0 <= i < spans.len() && (#[trigger] spans[i]).0 <= p
                < spans[i].1;
            if i < k {
                lemma_spans_monotone(spans, n, i, k - 1);
            } else {
                lemma_spans_monotone(spans, n, k, i);
            }
        }
    }
}

/// A text that closes every bracket it opens and closes none that it has
/// not opened: the depth never falls below zero and ends at zero.
pub open spec fn is_level(text: Seq<char>) -> bool {
    &&& depth_after(text, text.len() as int) == 0
    &&& forall|n: int| 0 <= n <= text.len() ==> depth_after(text, n) >= 0
}

proof fn lemma_no_closer_in_level(text: Seq<char>, tail: Seq<char>, n: int)
    requires
        is_level(text),
        0 <= n <= text.len(),
    ensures
        outer_closer(text + tail, n).is_none(),
    decreases n,
{
    if n > 0 {
        lemma_no_closer_in_level(text, tail, n - 1);
        lemma_depth_of_prefix(text, tail, n);
    }
}

/// What stands between a pair of brackets is found again: behind a level
/// text, the next closer is the one that matches the opener in front, so
/// the enclosed text is the level text itself, whatever follows the closer
/// and however the text nests brackets or breaks lines inside.
pub proof fn lemma_enclosed_prefix_of_closed(interior: Seq<char>, closer: char, tail: Seq<char>)
    requires
        is_level(interior),
        is_closer(closer),
    ensures
        enclosed_prefix(interior + seq![closer] + tail) == Some(interior),
{
    let rest = seq![closer] + tail;
    let text = interior + seq![closer] + tail;
    let n = interior.len() as int;
    assert(text == interior + rest);
    lemma_no_closer_in_level(interior, rest, n);
    lemma_depth_of_prefix(interior, rest, n);
    assert(text[n] == closer);
    assert(depth_after(text, n + 1) == -1);
    assert(outer_closer(text, n + 1) == Some(n));
    lemma_outer_closer_stays(text, n + 1, text.len() as int);
    assert(text.subrange(0, n) == interior);
}

} // verus!
