//! What the name of a file tells about it: its extension, its category, and
//! which analysis reads it.

use vstd::prelude::*;
use crate::models::FileType;
use crate::text::{
    chars_contain, chars_end_with, chars_occur_at, chars_of, contains, ends_with,
    string_of_range,
};

verus! {

/// The position of the last `.` among the first `n` characters of `name`,
/// or -1 where there is none.
pub open spec fn last_dot(name: Seq<char>, n: int) -> int
    decreases n,
{
    if n <= 0 {
        -1
    } else if name[n - 1] == '.' {
        n - 1
    } else {
        last_dot(name, n - 1)
    }
}

/// The extension of a file name: what follows its last `.`. A name without
/// a `.`, a name whose only `.` is its first character, and the name `..`
/// have none.
pub open spec fn extension_of(name: Seq<char>) -> Option<Seq<char>> {
    let dot = last_dot(name, name.len() as int);
    if dot <= 0 || name == ".."@ {
        None
    } else {
        Some(name.subrange(dot + 1, name.len() as int))
    }
}

proof fn lemma_last_dot_bounded(name: Seq<char>, n: int)
    requires
        0 <= n <= name.len(),
    ensures
        -1 <= last_dot(name, n) < n,
    decreases n,
{
    if n > 0 {
        lemma_last_dot_bounded(name, n - 1);
    }
}

fn extension_chars(name: &Vec<char>) -> (start: Option<usize>)
    ensures
        start.is_some() == extension_of(name@).is_some(),
        start matches Some(at) ==> at <= name.len() && extension_of(name@) == Some(
            name@.subrange(at as int, name@.len() as int),
        ),
{
    let parent = chars_of("..");
    proof {
        assert(name@.subrange(0, name@.len() as int) == name@);
    }
    if name.len() == parent.len() && chars_occur_at(name, &parent, 0) {
        return None;
    }
    let mut n: usize = name.len();
    while n > 0 && name[n - 1] != '.'
        invariant
            n <= name.len(),
            last_dot(name@, name@.len() as int) == last_dot(name@, n as int),
        decreases n,
    {
        n -= 1;
    }
    if n <= 1 {
        None
    } else {
        Some(n)
    }
}

/// The extension of the file called `file_name`.
pub fn file_extension(file_name: &str) -> (extension: Option<String>)
    ensures
        crate::text::option_view(extension) == extension_of(file_name@),
{
    let name = chars_of(file_name);
    match extension_chars(&name) {
        Some(at) => Some(string_of_range(&name, at, name.len())),
        None => None,
    }
}

/// The extension of `name` is `extension`.
pub open spec fn has_extension(name: Seq<char>, extension: Seq<char>) -> bool {
    extension_of(name) == Some(extension)
}

fn name_has_extension(name: &Vec<char>, extension: &str) -> (b: bool)
    ensures
        b == has_extension(name@, extension@),
{
    let wanted = chars_of(extension);
    match extension_chars(name) {
        Some(at) => {
            let same = name.len() - at == wanted.len() && chars_occur_at(name, &wanted, at);
            proof {
                assert(wanted@.subrange(0, wanted@.len() as int) == wanted@);
                if name.len() - at == wanted.len() {
                    assert(name@.subrange(at as int, at + wanted@.len()) == name@.subrange(
                        at as int,
                        name@.len() as int,
                    ));
                } else {
                    assert(name@.subrange(at as int, name@.len() as int).len() != wanted@.len());
                }
            }
            same
        },
        None => false,
    }
}

/// A style sheet: a file with the extension `css`, `scss`, `sass` or
/// `less`.
pub open spec fn is_style_name(name: Seq<char>) -> bool {
    ||| has_extension(name, "css"@)
    ||| has_extension(name, "scss"@)
    ||| has_extension(name, "sass"@)
    ||| has_extension(name, "less"@)
}

fn name_is_style(name: &Vec<char>) -> (b: bool)
    ensures
        b == is_style_name(name@),
{
    name_has_extension(name, "css") || name_has_extension(name, "scss") || name_has_extension(
        name,
        "sass",
    ) || name_has_extension(name, "less")
}

/// Whether the file called `file_name` is a style sheet.
pub fn is_style_file(file_name: &str) -> (b: bool)
    ensures
        b == is_style_name(file_name@),
{
    let name = chars_of(file_name);
    name_is_style(&name)
}

/// The category of a file, by its name. The rules are tried in this order,
/// and the first that fits decides.
pub open spec fn file_type_of(name: Seq<char>) -> FileType {
    if ends_with(name, ".action.ts"@) {
        FileType::NgRxAction
    } else if ends_with(name, ".html"@) {
        FileType::Template
    } else if ends_with(name, ".reducer.ts"@) {
        FileType::NgRxReducer
    } else if ends_with(name, ".effects.ts"@) {
        FileType::NgRxEffect
    } else if ends_with(name, ".selector.ts"@) {
        FileType::NgRxSelector
    } else if ends_with(name, ".ngrx.ts"@) {
        FileType::NgRxOther
    } else if ends_with(name, ".component.ts"@) {
        FileType::Component
    } else if ends_with(name, ".service.ts"@) {
        FileType::Service
    } else if ends_with(name, ".module.ts"@) {
        FileType::Module
    } else if ends_with(name, ".directive.ts"@) {
        FileType::Directive
    } else if ends_with(name, ".pipe.ts"@) {
        FileType::Pipe
    } else if ends_with(name, ".guard.ts"@) {
        FileType::Guard
    } else if ends_with(name, ".resolver.ts"@) {
        FileType::Resolver
    } else if ends_with(name, ".model.ts"@) || ends_with(name, ".interface.ts"@) {
        FileType::Model
    } else if name == "tsconfig.json"@ || name == "angular.json"@ {
        FileType::Config
    } else if ends_with(name, ".spec.ts"@) {
        FileType::Test
    } else if is_style_name(name) {
        FileType::Style
    } else {
        FileType::Other
    }
}

fn name_ends_with(name: &Vec<char>, ending: &str) -> (b: bool)
    ensures
        b == ends_with(name@, ending@),
{
    let suffix = chars_of(ending);
    chars_end_with(name, &suffix)
}

fn name_is(name: &Vec<char>, other: &str) -> (b: bool)
    ensures
        b == (name@ == other@),
{
    let wanted = chars_of(other);
    let same = name.len() == wanted.len() && chars_occur_at(name, &wanted, 0);
    proof {
        assert(name@.subrange(0, name@.len() as int) == name@);
    }
    same
}

fn name_contains(name: &Vec<char>, part: &str) -> (b: bool)
    ensures
        b == contains(name@, part@),
{
    let needle = chars_of(part);
    chars_contain(name, &needle)
}

/// The category of the file called `file_name`.
pub fn determine_file_type(file_name: &str) -> (file_type: FileType)
    ensures
        file_type == file_type_of(file_name@),
{
    let name = chars_of(file_name);
    if name_ends_with(&name, ".action.ts") {
        FileType::NgRxAction
    } else if name_ends_with(&name, ".html") {
        FileType::Template
    } else if name_ends_with(&name, ".reducer.ts") {
        FileType::NgRxReducer
    } else if name_ends_with(&name, ".effects.ts") {
        FileType::NgRxEffect
    } else if name_ends_with(&name, ".selector.ts") {
        FileType::NgRxSelector
    } else if name_ends_with(&name, ".ngrx.ts") {
        FileType::NgRxOther
    } else if name_ends_with(&name, ".component.ts") {
        FileType::Component
    } else if name_ends_with(&name, ".service.ts") {
        FileType::Service
    } else if name_ends_with(&name, ".module.ts") {
        FileType::Module
    } else if name_ends_with(&name, ".directive.ts") {
        FileType::Directive
    } else if name_ends_with(&name, ".pipe.ts") {
        FileType::Pipe
    } else if name_ends_with(&name, ".guard.ts") {
        FileType::Guard
    } else if name_ends_with(&name, ".resolver.ts") {
        FileType::Resolver
    } else if name_ends_with(&name, ".model.ts") || name_ends_with(&name, ".interface.ts") {
        FileType::Model
    } else if name_is(&name, "tsconfig.json") || name_is(&name, "angular.json") {
        FileType::Config
    } else if name_ends_with(&name, ".spec.ts") {
        FileType::Test
    } else if name_is_style(&name) {
        FileType::Style
    } else {
        FileType::Other
    }
}

/// A test file: its name holds `.spec.`.
pub open spec fn is_test_name(name: Seq<char>) -> bool {
    contains(name, ".spec."@)
}

/// Whether the file called `file_name` is a test file.
pub fn is_test_file(file_name: &str) -> (b: bool)
    ensures
        b == is_test_name(file_name@),
{
    let name = chars_of(file_name);
    name_contains(&name, ".spec.")
}

/// The source of a component: `*.component.ts`.
pub open spec fn is_component_name(name: Seq<char>) -> bool {
    ends_with(name, ".component.ts"@) && !ends_with(name, ".spec.ts"@)
}

/// The source of a service: `*.service.ts`.
pub open spec fn is_service_name(name: Seq<char>) -> bool {
    ends_with(name, ".service.ts"@) && !ends_with(name, ".spec.ts"@)
}

/// The source of a module: `*.module.ts`.
pub open spec fn is_module_name(name: Seq<char>) -> bool {
    ends_with(name, ".module.ts"@)
}

/// The source of a routing module: a module whose name holds `routing`.
pub open spec fn is_routing_module_name(name: Seq<char>) -> bool {
    contains(name, "routing"@) && ends_with(name, ".module.ts"@)
}

/// A TypeScript source: a file with the extension `ts`.
pub open spec fn is_typescript_name(name: Seq<char>) -> bool {
    has_extension(name, "ts"@)
}

/// Whether the component analysis reads the file called `file_name`.
pub fn is_component_file(file_name: &str) -> (b: bool)
    ensures
        b == is_component_name(file_name@),
{
    let name = chars_of(file_name);
    name_ends_with(&name, ".component.ts") && !name_ends_with(&name, ".spec.ts")
}

/// Whether the service analysis reads the file called `file_name`.
pub fn is_service_file(file_name: &str) -> (b: bool)
    ensures
        b == is_service_name(file_name@),
{
    let name = chars_of(file_name);
    name_ends_with(&name, ".service.ts") && !name_ends_with(&name, ".spec.ts")
}

/// Whether the module analysis reads the file called `file_name`.
pub fn is_module_file(file_name: &str) -> (b: bool)
    ensures
        b == is_module_name(file_name@),
{
    let name = chars_of(file_name);
    name_ends_with(&name, ".module.ts")
}

/// Whether the route analysis reads the file called `file_name`.
pub fn is_routing_module_file(file_name: &str) -> (b: bool)
    ensures
        b == is_routing_module_name(file_name@),
{
    let name = chars_of(file_name);
    name_contains(&name, "routing") && name_ends_with(&name, ".module.ts")
}

/// Whether the dependency analysis reads the file called `file_name`.
pub fn is_typescript_file(file_name: &str) -> (b: bool)
    ensures
        b == is_typescript_name(file_name@),
{
    let name = chars_of(file_name);
    name_has_extension(&name, "ts")
}

} // verus!
