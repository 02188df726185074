//! What holds of the list lookup on every input: the names it returns are
//! identifiers, and a list of them, written out with commas, reads back as
//! the same list.

use vstd::prelude::*;
use crate::fields::{
    array_pattern, first_identifier, identifier_run, is_identifier, item_names,
    lemma_identifier_run, listed_names, names_of,
};
use crate::pattern::captured;
use crate::scanner::{depth_after, is_cut, top_level_items};
use crate::scanner_proofs::{
    is_level, is_level_piece, join, lemma_enclosed_prefix_of_closed, lemma_split_of_join,
};
use crate::text::{is_identifier_char, trim, trim_end, trim_start};

verus! {

proof fn lemma_run_is_identifier(s: Seq<char>)
    ensures
        identifier_run(s) <= s.len(),
        forall|i: int| 0 <= i < identifier_run(s) ==> is_identifier_char(#[trigger] s[i]),
    decreases s.len(),
{
    if s.len() > 0 && is_identifier_char(s[0]) {
        let rest = s.drop_first();
        lemma_run_is_identifier(rest);
        assert forall|i: int| 0 <= i < identifier_run(s) implies is_identifier_char(
            #[trigger] s[i],
        ) by {
            if i > 0 {
                assert(s[i] == rest[i - 1]);
            }
        }
    }
}

/// The first identifier of a text, where there is one, is an identifier.
pub proof fn lemma_first_identifier_is_identifier(s: Seq<char>)
    ensures
        first_identifier(s) matches Some(name) ==> is_identifier(name),
    decreases s.len(),
{
    if s.len() > 0 {
        if is_identifier_char(s[0]) {
            lemma_run_is_identifier(s);
            let name = s.subrange(0, identifier_run(s) as int);
            assert forall|i: int| 0 <= i < name.len() implies is_identifier_char(
                #[trigger] name[i],
            ) by {
                assert(name[i] == s[i]);
            }
        } else {
            lemma_first_identifier_is_identifier(s.drop_first());
        }
    }
}

/// Every name that a list of items gives is an identifier.
pub proof fn lemma_names_are_identifiers(items: Seq<Seq<char>>)
    ensures
        forall|k: int| 0 <= k < names_of(items).len() ==> is_identifier(#[trigger] names_of(items)[k]),
    decreases items.len(),
{
    if items.len() > 0 {
        let before = names_of(items.drop_last());
        lemma_names_are_identifiers(items.drop_last());
        lemma_first_identifier_is_identifier(items.last());
        assert forall|k: int| 0 <= k < names_of(items).len() implies is_identifier(
            #[trigger] names_of(items)[k],
        ) by {
            if k < before.len() {
                assert(names_of(items)[k] == before[k]);
            }
        }
    }
}

proof fn lemma_identifier_depth(name: Seq<char>, n: int)
    requires
        is_identifier(name),
        0 <= n <= name.len(),
    ensures
        depth_after(name, n) == 0,
    decreases n,
{
    if n > 0 {
        lemma_identifier_depth(name, n - 1);
        assert(is_identifier_char(name[n - 1]));
    }
}

/// An identifier is a list entry as it stands: it nests nothing, holds no
/// comma, has no whitespace to trim, and is its own first identifier.
pub proof fn lemma_identifier_is_own_item(name: Seq<char>)
    requires
        is_identifier(name),
    ensures
        is_level_piece(name, ','),
        trim(name) == name,
        first_identifier(name) == Some(name),
{
    lemma_identifier_depth(name, name.len() as int);
    assert forall|i: int| 0 <= i < name.len() implies !is_cut(name, ',', i) by {
        assert(is_identifier_char(name[i]));
    }
    assert(is_identifier_char(name[0]));
    assert(trim_start(name) == name);
    assert(is_identifier_char(name[name.len() - 1]));
    assert(trim_end(name) == name);
    lemma_identifier_run(name, name.len() as int);
    assert(name.subrange(0, name.len() as int) == name);
}

proof fn lemma_names_of_identifiers(names: Seq<Seq<char>>)
    requires
        forall|k: int| 0 <= k < names.len() ==> is_identifier(#[trigger] names[k]),
    ensures
        names_of(names) == names,
    decreases names.len(),
{
    if names.len() > 0 {
        let rest = names.drop_last();
        assert forall|k: int| 0 <= k < rest.len() implies is_identifier(#[trigger] rest[k]) by {
            assert(rest[k] == names[k]);
        }
        lemma_names_of_identifiers(rest);
        assert(is_identifier(names.last()));
        lemma_identifier_is_own_item(names.last());
        assert(rest.push(names.last()) == names);
    } else {
        assert(names == Seq::<Seq<char>>::empty());
    }
}

/// A list of identifiers, written out with commas between them, reads back
/// as the same list.
pub proof fn lemma_identifier_list_reads_back(names: Seq<Seq<char>>)
    requires
        forall|k: int| 0 <= k < names.len() ==> is_identifier(#[trigger] names[k]),
    ensures
        item_names(join(names, ',')) == names,
{
    assert forall|k: int| 0 <= k < names.len() implies is_level_piece(
        #[trigger] names[k],
        ',',
    ) && trim(names[k]) == names[k] && trim(names[k]).len() > 0 by {
        assert(is_identifier(names[k]));
        lemma_identifier_is_own_item(names[k]);
    }
    lemma_split_of_join(names, ',');
    let items = top_level_items(join(names, ','), ',');
    assert(items =~= names);
    lemma_names_of_identifiers(names);
}

/// Reading a list is idempotent: the names found in the interior of an
/// array literal, joined by commas and read again, come out unchanged.
pub proof fn lemma_item_names_idempotent(interior: Seq<char>)
    ensures
        item_names(join(item_names(interior), ',')) == item_names(interior),
{
    lemma_names_are_identifiers(top_level_items(interior, ','));
    lemma_identifier_list_reads_back(item_names(interior));
}

/// An array field lists what stands between its brackets. Where the text
/// behind the field's opening bracket is a level text, a closing bracket
/// and anything more, the names are those of the level text: brackets
/// nested in an item and line breaks between items do not end the list.
pub proof fn lemma_listed_names_of_closed_field(
    content: Seq<char>,
    property: Seq<char>,
    interior: Seq<char>,
    tail: Seq<char>,
)
    requires
        captured(array_pattern(property), content) == Some(interior + seq![']'] + tail),
        is_level(interior),
    ensures
        listed_names(content, property) == item_names(interior),
{
    lemma_enclosed_prefix_of_closed(interior, ']', tail);
}

} // verus!
