//! The settings of an analysis run and the decisions that the walk over the
//! project tree takes from them.

use vstd::prelude::*;
use std::path::PathBuf;
use crate::files::{
    determine_file_type, file_type_of, is_style_file, is_style_name, is_test_file, is_test_name,
};
use crate::models::{DirectoryNode, FileNode};
use crate::text::{contains, option_str_view, str_contains, str_equal, string_views};

verus! {

pub struct Analyzer {
    pub root_path: PathBuf,
    pub include_tests: bool,
    pub include_styles: bool,
    pub include_node_modules: bool,
    pub max_depth: usize,
}

/// A directory that holds tooling rather than sources.
pub open spec fn is_tooling_name(name: Seq<char>) -> bool {
    name == ".angular"@ || name == ".vscode"@ || name == ".git"@
}

/// A directory that a walk leaves out: the dependency directory and the
/// tooling directories.
pub open spec fn is_excluded_name(name: Seq<char>) -> bool {
    name == "node_modules"@ || is_tooling_name(name)
}

/// One of the names is excluded.
pub open spec fn any_excluded(names: Seq<Seq<char>>) -> bool {
    exists|i: int| 0 <= i < names.len() && is_excluded_name(#[trigger] names[i])
}

fn name_is_excluded(name: &str) -> (b: bool)
    ensures
        b == is_excluded_name(name@),
{
    str_equal(name, "node_modules") || str_equal(name, ".angular") || str_equal(name, ".vscode")
        || str_equal(name, ".git")
}

/// The text of a package file names the framework's core package, between
/// double or single quotes.
pub open spec fn names_framework(package: Seq<char>) -> bool {
    contains(package, "\"@angular/core\""@) || contains(package, "'@angular/core'"@)
}

/// Whether the text of a package file names the framework's core package.
pub fn mentions_framework(package: &str) -> (b: bool)
    ensures
        b == names_framework(package@),
{
    str_contains(package, "\"@angular/core\"") || str_contains(package, "'@angular/core'")
}

impl Analyzer {
    pub fn new(
        root_path: PathBuf,
        include_tests: bool,
        include_styles: bool,
        include_node_modules: bool,
        max_depth: usize,
    ) -> (analyzer: Self)
        ensures
            analyzer.root_path == root_path,
            analyzer.include_tests == include_tests,
            analyzer.include_styles == include_styles,
            analyzer.include_node_modules == include_node_modules,
            analyzer.max_depth == max_depth,
    {
        Self { root_path, include_tests, include_styles, include_node_modules, max_depth }
    }

    /// The scan of the tree stops in front of a directory that lies at the
    /// depth limit or deeper, of the dependency directory unless it is
    /// included, and of a tooling directory.
    pub open spec fn stops_at(&self, dir_name: Option<Seq<char>>, depth: int) -> bool {
        ||| depth >= self.max_depth
        ||| (!self.include_node_modules && dir_name == Some("node_modules"@))
        ||| (dir_name matches Some(name) && is_tooling_name(name))
    }

    /// Whether the scan of the tree leaves out the directory called
    /// `dir_name`, found `depth` levels below the root.
    pub fn skips_directory(&self, dir_name: Option<&str>, depth: usize) -> (skip: bool)
        ensures
            skip == self.stops_at(option_str_view(dir_name), depth as int),
    {
        if depth >= self.max_depth {
            return true;
        }
        match dir_name {
            Some(name) => {
                if !self.include_node_modules && str_equal(name, "node_modules") {
                    return true;
                }
                str_equal(name, ".angular") || str_equal(name, ".vscode") || str_equal(name, ".git")
            },
            None => false,
        }
    }

    /// A file is listed unless it is a test file while tests are left out,
    /// or a style sheet while styles are left out.
    pub open spec fn lists_file(&self, name: Seq<char>) -> bool {
        &&& self.include_tests || !is_test_name(name)
        &&& self.include_styles || !is_style_name(name)
    }

    /// The node of the file at `path`, called `file_name`; `None` for a
    /// file that is not listed.
    pub fn create_file_node(&self, path: PathBuf, file_name: &str) -> (node: Option<FileNode>)
        ensures
            node.is_some() == self.lists_file(file_name@),
            node matches Some(file) ==> file.name@ == file_name@ && file.path == path
                && file.file_type == file_type_of(file_name@),
    {
        if !self.include_tests && is_test_file(file_name) {
            return None;
        }
        if !self.include_styles && is_style_file(file_name) {
            return None;
        }
        let file_type = determine_file_type(file_name);
        Some(FileNode { name: file_name.to_owned(), path, file_type })
    }

    /// An entry is walked unless one of the directories on its path is
    /// excluded while the dependency directory is left out, or its own name
    /// makes it a file that is not listed.
    pub open spec fn walks_entry(
        &self,
        components: Seq<Seq<char>>,
        file_name: Option<Seq<char>>,
    ) -> bool {
        &&& self.include_node_modules || !any_excluded(components)
        &&& file_name matches Some(name) ==> self.lists_file(name)
    }

    /// Whether a walk over the project's files visits an entry. `components`
    /// are the names on the entry's path, `file_name` is the last of them
    /// where the path has one.
    pub fn is_included_entry(&self, components: &Vec<String>, file_name: Option<&str>) -> (keep: bool)
        ensures
            keep == self.walks_entry(string_views(components@), option_str_view(file_name)),
    {
        if !self.include_node_modules {
            let mut k: usize = 0;
            while k < components.len()
                invariant
                    !self.include_node_modules,
                    k <= components.len(),
                    forall|j: int|
                        0 <= j < k ==> !is_excluded_name(#[trigger] string_views(components@)[j]),
                decreases components.len() - k,
            {
                let name = components[k].as_str();
                assert(string_views(components@)[k as int] == name@);
                if name_is_excluded(name) {
                    assert(any_excluded(string_views(components@)));
                    return false;
                }
                k += 1;
            }
        }
        match file_name {
            Some(name) => {
                if !self.include_tests && is_test_file(name) {
                    return false;
                }
                if !self.include_styles && is_style_file(name) {
                    return false;
                }
                true
            },
            None => true,
        }
    }
}

/// A directory node without files and without directories.
pub open spec fn is_bare(node: DirectoryNode) -> bool {
    node.files@.len() == 0 && node.directories@.len() == 0
}

/// Puts the directory `child` under `parent`, behind the directories that
/// are there, unless `child` holds neither files nor directories.
pub fn attach_directory(parent: &mut DirectoryNode, child: DirectoryNode)
    ensures
        final(parent).name == old(parent).name,
        final(parent).path == old(parent).path,
        final(parent).files == old(parent).files,
        is_bare(child) ==> final(parent).directories@ == old(parent).directories@,
        !is_bare(child) ==> final(parent).directories@ == old(parent).directories@.push(child),
{
    if !child.files.is_empty() || !child.directories.is_empty() {
        parent.directories.push(child);
    }
}

} // verus!
