//! The entities that an analysis run produces.

use vstd::prelude::*;
use std::path::PathBuf;

verus! {

/// `std::path::PathBuf`, carried through as an opaque value.
#[verifier::external_type_specification]
#[verifier::external_body]
pub struct ExPathBuf(PathBuf);

/// `PathBuf::clone` returns a path equal to the one it is given.
pub assume_specification[ <PathBuf as Clone>::clone ](path: &PathBuf) -> (copy: PathBuf)
    ensures
        copy == *path,
;

#[derive(Debug, PartialEq, Eq)]
pub struct ProjectStructure {
    pub root: DirectoryNode,
}

#[derive(Debug, PartialEq, Eq)]
pub struct DirectoryNode {
    pub name: String,
    pub path: PathBuf,
    pub directories: Vec<DirectoryNode>,
    pub files: Vec<FileNode>,
}

#[derive(Debug, PartialEq, Eq)]
pub struct FileNode {
    pub name: String,
    pub path: PathBuf,
    pub file_type: FileType,
}

/// What a file is, judged by its name alone. The variants are ordered as
/// they are listed.
#[derive(Debug, PartialEq, Eq, Structural, Clone, Copy, Hash, PartialOrd, Ord)]
pub enum FileType {
    Component,
    Service,
    Module,
    Directive,
    Pipe,
    Template,
    Guard,
    Resolver,
    Model,
    Config,
    Style,
    Test,
    NgRxAction,
    NgRxReducer,
    NgRxEffect,
    NgRxSelector,
    NgRxOther,
    Other,
}

/// A component class found in one file, with the files that belong to it.
#[derive(Debug, PartialEq, Eq)]
pub struct Component {
    pub name: String,
    pub selector: Option<String>,
    pub path: PathBuf,
    pub template_path: Option<PathBuf>,
    pub style_paths: Vec<PathBuf>,
    pub test_path: Option<PathBuf>,
}

/// An injectable service class found in one file.
#[derive(Debug, PartialEq, Eq)]
pub struct Service {
    pub name: String,
    pub path: PathBuf,
    pub injectable_scope: Option<String>,
    pub test_path: Option<PathBuf>,
}

/// A module class with the five lists of its metadata. Each list keeps the
/// order of the source and may name a unit twice.
#[derive(Debug, PartialEq, Eq)]
pub struct Module {
    pub name: String,
    pub path: PathBuf,
    pub declarations: Vec<String>,
    pub imports: Vec<String>,
    pub exports: Vec<String>,
    pub providers: Vec<String>,
    pub bootstrap: Vec<String>,
}

/// One imported name: the file that imports, the module specifier it
/// imports from, and the kind that the name's ending suggests.
#[derive(Debug, PartialEq, Eq)]
pub struct Dependency {
    pub source: PathBuf,
    pub target: String,
    pub import_type: ImportType,
}

/// What an imported name refers to, judged by the name's ending alone.
#[derive(Debug, PartialEq, Eq, Structural, Clone, Copy, Hash)]
pub enum ImportType {
    Module,
    Component,
    Service,
    Directive,
    Pipe,
    Guard,
    Resolver,
    Model,
    Other,
}

/// One entry of a routing table, with the entries nested under it.
#[derive(Debug, PartialEq, Eq)]
pub struct Route {
    pub path: String,
    pub component: Option<String>,
    pub children: Vec<Route>,
    pub lazy_module: Option<String>,
}

/// A routing entry as a mathematical value.
pub struct RouteTree {
    pub path: Seq<char>,
    pub component: Option<Seq<char>>,
    pub lazy_module: Option<Seq<char>>,
    pub children: Seq<RouteTree>,
}

impl View for Route {
    type V = RouteTree;

    open spec fn view(&self) -> RouteTree
        decreases self,
    {
        RouteTree {
            path: self.path@,
            component: crate::text::option_view(self.component),
            lazy_module: crate::text::option_view(self.lazy_module),
            children: Seq::new(
                self.children@.len(),
                |i: int|
                    if 0 <= i < self.children@.len() {
                        self.children@[i]@
                    } else {
                        arbitrary()
                    },
            ),
        }
    }
}

/// The values of a sequence of routing entries.
pub open spec fn route_views(routes: Seq<Route>) -> Seq<RouteTree> {
    Seq::new(routes.len(), |i: int| routes[i]@)
}

} // verus!
