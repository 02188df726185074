//! Dependency edges: one for each name that a file imports, classified by
//! the name's ending.

use vstd::prelude::*;
use std::path::PathBuf;
use crate::models::{Dependency, ImportType};
use crate::pattern::{group_pairs, pair_views, regex_group_pairs};
use crate::scanner::{flat_items, split_flat};
use crate::text::{chars_end_with, chars_of, ends_with, string_views};

verus! {

/// An import statement with a braced list of names; group 1 is the text
/// between the braces, group 2 the module specifier between the quotes.
pub const IMPORT_PATTERN: &'static str = r#"import\s+\{([^}]+)\}\s+from\s+['"]([^'"]+)['"]"#;

/// The kind that the ending of a name suggests. The endings are tried in
/// this order, and a name with none of them is `Other`.
pub open spec fn import_kind(name: Seq<char>) -> ImportType {
    if ends_with(name, "Component"@) {
        ImportType::Component
    } else if ends_with(name, "Service"@) {
        ImportType::Service
    } else if ends_with(name, "Module"@) {
        ImportType::Module
    } else if ends_with(name, "Directive"@) {
        ImportType::Directive
    } else if ends_with(name, "Pipe"@) {
        ImportType::Pipe
    } else if ends_with(name, "Guard"@) {
        ImportType::Guard
    } else if ends_with(name, "Resolver"@) {
        ImportType::Resolver
    } else if ends_with(name, "Model"@) || ends_with(name, "Interface"@) {
        ImportType::Model
    } else {
        ImportType::Other
    }
}

fn has_ending(name: &Vec<char>, ending: &str) -> (b: bool)
    ensures
        b == ends_with(name@, ending@),
{
    let suffix = chars_of(ending);
    chars_end_with(name, &suffix)
}

/// The kind that the ending of `import` suggests.
pub fn determine_import_type(import: &str) -> (kind: ImportType)
    ensures
        kind == import_kind(import@),
{
    let name = chars_of(import);
    if has_ending(&name, "Component") {
        ImportType::Component
    } else if has_ending(&name, "Service") {
        ImportType::Service
    } else if has_ending(&name, "Module") {
        ImportType::Module
    } else if has_ending(&name, "Directive") {
        ImportType::Directive
    } else if has_ending(&name, "Pipe") {
        ImportType::Pipe
    } else if has_ending(&name, "Guard") {
        ImportType::Guard
    } else if has_ending(&name, "Resolver") {
        ImportType::Resolver
    } else if has_ending(&name, "Model") || has_ending(&name, "Interface") {
        ImportType::Model
    } else {
        ImportType::Other
    }
}

/// The names of a braced import list, in source order. The list is flat:
/// every comma separates. A name is trimmed, and a blank one is left out.
pub open spec fn import_names(list: Seq<char>) -> Seq<Seq<char>> {
    flat_items(list, ',')
}

/// One dependency edge as a mathematical value: the module specifier and
/// the kind of the imported name.
pub struct Edge {
    pub target: Seq<char>,
    pub kind: ImportType,
}

/// The edges of one import statement: one for each name of its list, all
/// with the module specifier, as it stands between the quotes, as their
/// target.
pub open spec fn statement_edges(list: Seq<char>, specifier: Seq<char>) -> Seq<Edge> {
    let names = import_names(list);
    Seq::new(
        names.len(),
        |i: int| Edge { target: specifier, kind: import_kind(names[i]) },
    )
}

/// The edges of the first `n` import statements found in a file, in the
/// order of the statements and, within one, of its names. A match that
/// lacks one of its two groups gives no edge.
pub open spec fn edges_of_matches(
    matches: Seq<(Option<Seq<char>>, Option<Seq<char>>)>,
    n: int,
) -> Seq<Edge>
    decreases n,
{
    if n <= 0 {
        Seq::<Edge>::empty()
    } else {
        let before = edges_of_matches(matches, n - 1);
        match matches[n - 1] {
            (Some(list), Some(specifier)) => before + statement_edges(list, specifier),
            _ => before,
        }
    }
}

/// The dependency edges of a file, as mathematical values.
pub open spec fn file_edges(content: Seq<char>) -> Seq<Edge> {
    let matches = regex_group_pairs(IMPORT_PATTERN@, content);
    edges_of_matches(matches, matches.len() as int)
}

/// The edges that a sequence of dependencies stands for.
pub open spec fn edge_views(dependencies: Seq<Dependency>) -> Seq<Edge> {
    Seq::new(
        dependencies.len(),
        |i: int| Edge { target: dependencies[i].target@, kind: dependencies[i].import_type },
    )
}

/// Every dependency of the sequence starts at `source`.
pub open spec fn all_from(dependencies: Seq<Dependency>, source: PathBuf) -> bool {
    forall|i: int| 0 <= i < dependencies.len() ==> (#[trigger] dependencies[i]).source == source
}

/// Adds to `dependencies` the edges of one import statement of the file
/// `source`.
fn push_statement_edges(
    dependencies: &mut Vec<Dependency>,
    source: &PathBuf,
    list: &str,
    specifier: &str,
)
    requires
        all_from(old(dependencies)@, *source),
    ensures
        all_from(final(dependencies)@, *source),
        edge_views(final(dependencies)@) == edge_views(old(dependencies)@) + statement_edges(
            list@,
            specifier@,
        ),
{
    let names = split_flat(list, ',');
    let ghost before = edge_views(dependencies@);
    let ghost added = statement_edges(list@, specifier@);
    let mut k: usize = 0;
    while k < names.len()
        invariant
            k <= names.len(),
            string_views(names@) == import_names(list@),
            added == statement_edges(list@, specifier@),
            all_from(dependencies@, *source),
            edge_views(dependencies@) == before + added.subrange(0, k as int),
        decreases names.len() - k,
    {
        let ghost so_far = edge_views(dependencies@);
        let target = specifier.to_owned();
        let name = names[k].as_str();
        assert(string_views(names@)[k as int] == name@);
        let import_type = determine_import_type(name);
        dependencies.push(Dependency { source: source.clone(), target, import_type });
        k += 1;
        proof {
            assert(edge_views(dependencies@) =~= so_far.push(added[k - 1]));
            assert(added.subrange(0, k as int) =~= added.subrange(0, k - 1).push(added[k - 1]));
            assert(before + added.subrange(0, k as int) =~= (before + added.subrange(
                0,
                k - 1,
            )).push(added[k - 1]));
        }
    }
    assert(added.subrange(0, names@.len() as int) =~= added);
}

/// The dependency edges of the file `source`, given the import statements
/// that were found in it: for each, the text of its braced list and its
/// module specifier.
pub fn dependencies_of_matches(
    source: &PathBuf,
    matches: &Vec<(Option<String>, Option<String>)>,
) -> (dependencies: Vec<Dependency>)
    ensures
        all_from(dependencies@, *source),
        edge_views(dependencies@) == edges_of_matches(
            pair_views(matches@),
            matches@.len() as int,
        ),
{
    let mut dependencies: Vec<Dependency> = Vec::new();
    let mut m: usize = 0;
    assert(edge_views(dependencies@) =~= Seq::<Edge>::empty());
    while m < matches.len()
        invariant
            m <= matches.len(),
            all_from(dependencies@, *source),
            edge_views(dependencies@) == edges_of_matches(pair_views(matches@), m as int),
        decreases matches.len() - m,
    {
        let found = &matches[m];
        match (&found.0, &found.1) {
            (Some(list), Some(specifier)) => {
                push_statement_edges(&mut dependencies, source, list.as_str(), specifier.as_str());
            },
            _ => {},
        }
        m += 1;
    }
    dependencies
}

/// The dependency edges of the file `source` whose text is `content`: one
/// for each name of each import statement with a braced list.
pub fn parse_file_dependencies(source: &PathBuf, content: &str) -> (dependencies: Vec<Dependency>)
    ensures
        all_from(dependencies@, *source),
        edge_views(dependencies@) == file_edges(content@),
{
    let matches = group_pairs(IMPORT_PATTERN, content);
    dependencies_of_matches(source, &matches)
}

} // verus!
