use ng_analyzer::scanner::{
    enclosed_text, extract_balanced_blocks, nesting_depths, split_flat, split_top_level,
};

#[test]
fn depth_counts_all_bracket_kinds_together() {
    assert_eq!(nesting_depths("a(b[c]{d})e"), vec![0, 1, 1, 2, 2, 1, 2, 2, 1, 0, 0]);
    assert_eq!(nesting_depths(""), Vec::<i128>::new());
}

#[test]
fn depth_ignores_mismatched_kinds_and_may_go_negative() {
    assert_eq!(nesting_depths("{)"), vec![1, 0]);
    assert_eq!(nesting_depths("}]x("), vec![-1, -2, -2, -1]);
}

#[test]
fn split_keeps_nested_commas_inside_items() {
    assert_eq!(
        split_top_level("A, f(b, c), { x: [1, 2], y: 3 } ,D", ','),
        vec!["A", "f(b, c)", "{ x: [1, 2], y: 3 }", "D"]
    );
}

#[test]
fn split_drops_empty_items() {
    assert_eq!(split_top_level("a,,b,", ','), vec!["a", "b"]);
    assert_eq!(split_top_level(" , ,", ','), Vec::<String>::new());
    assert_eq!(split_top_level("", ','), Vec::<String>::new());
}

#[test]
fn split_without_separator_gives_the_trimmed_span() {
    assert_eq!(split_top_level("  only one  ", ','), vec!["only one"]);
}

#[test]
fn split_of_unbalanced_span_emits_the_partial_tail() {
    assert_eq!(split_top_level("a, f(b, c", ','), vec!["a", "f(b, c"]);
    assert_eq!(split_top_level("a), b, c", ','), vec!["a), b, c"]);
}

#[test]
fn split_of_n_joined_items_gives_n_items() {
    let items = ["Foo", "bar(1, 2)", "{a: [x, y]}", "[(,),{,}]"];
    let text = items.join(" , ");
    assert_eq!(split_top_level(&text, ','), items);
}

#[test]
fn split_flat_cuts_at_every_separator() {
    assert_eq!(split_flat(" a, f(b, c) ,, d ", ','), vec!["a", "f(b", "c)", "d"]);
}

#[test]
fn blocks_are_found_in_source_order() {
    assert_eq!(
        extract_balanced_blocks("x {a} y {b {c} d} z", '{', '}'),
        vec!["{a}", "{b {c} d}"]
    );
    assert_eq!(extract_balanced_blocks("no blocks", '{', '}'), Vec::<String>::new());
}

#[test]
fn blocks_track_one_kind_only() {
    assert_eq!(extract_balanced_blocks("{ [ } ] ( {x) }", '{', '}'), vec!["{ [ }", "{x) }"]);
    assert_eq!(extract_balanced_blocks("{ [a] } [b]", '[', ']'), vec!["[a]", "[b]"]);
}

#[test]
fn dangling_opener_gives_no_block() {
    assert_eq!(extract_balanced_blocks("{a} {b {c}", '{', '}'), vec!["{a}"]);
    assert_eq!(extract_balanced_blocks("{{{", '{', '}'), Vec::<String>::new());
}

#[test]
fn stray_closer_hides_what_follows_until_depth_returns() {
    assert_eq!(extract_balanced_blocks("} {a} {b}", '{', '}'), Vec::<String>::new());
    assert_eq!(extract_balanced_blocks("}{ {a}", '{', '}'), vec!["{a}"]);
}

#[test]
fn blocks_and_gaps_rebuild_the_text() {
    let text = "ab{c{d}e}fg{}h{i";
    let blocks = extract_balanced_blocks(text, '{', '}');
    assert_eq!(blocks, vec!["{c{d}e}", "{}"]);
    let mut rebuilt = String::new();
    let mut rest = text;
    for block in &blocks {
        let at = rest.find(block.as_str()).unwrap();
        rebuilt.push_str(&rest[..at]);
        rebuilt.push_str(block);
        rest = &rest[at + block.len()..];
    }
    rebuilt.push_str(rest);
    assert_eq!(rebuilt, text);
}

#[test]
fn every_item_is_trimmed_and_not_empty() {
    for text in ["", " a ,\tb\n, , c(d , e) ", ",,,", "  x  ", "a, (b, c", "\u{3000}a\u{A0},b"] {
        for item in split_top_level(text, ',') {
            assert!(!item.is_empty(), "{:?}", text);
            assert_eq!(item.trim(), item, "{:?}", text);
        }
    }
}

#[test]
fn every_block_runs_from_an_opener_to_its_closer() {
    for text in ["{a}{b{c}}", "x{y}z}{{w}", "{{{}}}{", "no", "}{}{"] {
        for block in extract_balanced_blocks(text, '{', '}') {
            assert!(block.starts_with('{') && block.ends_with('}'), "{:?}", text);
            let opened = block.chars().filter(|c| *c == '{').count();
            let closed = block.chars().filter(|c| *c == '}').count();
            assert_eq!(opened, closed, "{:?}", text);
        }
    }
}

#[test]
fn balanced_text_keeps_no_delimiter_outside_its_blocks() {
    let text = "a {b {c}} d {} e {f} g";
    let mut rest = text.to_string();
    for block in extract_balanced_blocks(text, '{', '}') {
        rest = rest.replacen(block.as_str(), "", 1);
    }
    assert_eq!(rest, "a  d  e  g");
}

#[test]
fn enclosed_text_ends_at_the_matching_closer() {
    assert_eq!(enclosed_text("a, b] rest"), Some("a, b".to_string()));
    assert_eq!(enclosed_text("f([x], {y}), z] ] ]"), Some("f([x], {y}), z".to_string()));
    assert_eq!(enclosed_text("\n  a,\n  b\n]"), Some("\n  a,\n  b\n".to_string()));
    assert_eq!(enclosed_text("]"), Some(String::new()));
    assert_eq!(enclosed_text("a) b]"), Some("a".to_string()));
}

#[test]
fn enclosed_text_needs_a_closer() {
    assert_eq!(enclosed_text(""), None);
    assert_eq!(enclosed_text("a, b"), None);
    assert_eq!(enclosed_text("(a]"), None);
}
