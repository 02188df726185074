//! The declared units of a project: components, services and modules, each
//! assembled from the text of the file that declares it.

use vstd::prelude::*;
use std::path::PathBuf;
use crate::fields::{
    extract_array_property, extract_class_name, extract_injectable_scope, extract_selector,
    listed_names, CLASS_PATTERN, SCOPE_PATTERN, SELECTOR_PATTERN,
};
use crate::models::{Component, Module, Service};
use crate::pattern::captured;
use crate::text::{concatenate, option_view, remove_all, string_views, without_all};
use crate::utils::string_utils::{pascal_case, pascal_form};

verus! {

/// The name that a file's own name gives to its unit: the stem in
/// capitalized-word form, with the suffix of the unit's kind behind it.
pub open spec fn fallback_name(stem: Seq<char>, suffix: Seq<char>) -> Seq<char> {
    pascal_form(stem) + suffix
}

/// The name of the unit that a file declares: the class that the file
/// exports, and the name that the file's own name gives where it exports
/// none.
pub open spec fn unit_name(content: Seq<char>, stem: Seq<char>, suffix: Seq<char>) -> Seq<char> {
    match captured(CLASS_PATTERN@, content) {
        Some(name) => name,
        None => fallback_name(stem, suffix),
    }
}

/// The name that a file's own name gives to its unit. It ends with the
/// suffix, so it is empty only where the suffix is, and an empty stem gives
/// the bare suffix.
pub fn synthesize_name(stem: &str, suffix: &str) -> (name: String)
    ensures
        name@ == fallback_name(stem@, suffix@),
        name@.len() >= suffix@.len(),
        stem@.len() == 0 ==> name@ == suffix@,
{
    let words = pascal_case(stem);
    let name = concatenate(words.as_str(), suffix);
    proof {
        if stem@.len() == 0 {
            assert(pascal_form(stem@) + suffix@ == suffix@);
        }
    }
    name
}

/// The name of the unit that the file declares.
pub fn resolve_unit_name(content: &str, stem: &str, suffix: &str) -> (name: String)
    ensures
        name@ == unit_name(content@, stem@, suffix@),
{
    match extract_class_name(content) {
        Some(name) => name,
        None => synthesize_name(stem, suffix),
    }
}

/// The name of a file that belongs to a unit: the unit's base name, a dot,
/// and the ending of the related file.
pub fn related_file_name(base_name: &str, extension: &str) -> (name: String)
    ensures
        name@ == base_name@ + "."@ + extension@,
{
    let head = concatenate(base_name, ".");
    concatenate(head.as_str(), extension)
}

/// The component that the file at `path` declares. `file_stem` is the
/// file's name without its extension, `content` its text; the three kinds
/// of related files are those that were found beside it.
pub fn parse_component(
    path: PathBuf,
    file_stem: &str,
    content: &str,
    template_path: Option<PathBuf>,
    style_paths: Vec<PathBuf>,
    test_path: Option<PathBuf>,
) -> (component: Component)
    ensures
        component.name@ == unit_name(
            content@,
            without_all(file_stem@, ".component"@),
            "Component"@,
        ),
        option_view(component.selector) == captured(SELECTOR_PATTERN@, content@),
        component.path == path,
        component.template_path == template_path,
        component.style_paths == style_paths,
        component.test_path == test_path,
{
    let stem = remove_all(file_stem, ".component");
    let name = resolve_unit_name(content, stem.as_str(), "Component");
    let selector = extract_selector(content);
    Component { name, selector, path, template_path, style_paths, test_path }
}

/// The service that the file at `path` declares.
pub fn parse_service(
    path: PathBuf,
    file_stem: &str,
    content: &str,
    test_path: Option<PathBuf>,
) -> (service: Service)
    ensures
        service.name@ == unit_name(content@, without_all(file_stem@, ".service"@), "Service"@),
        option_view(service.injectable_scope) == captured(SCOPE_PATTERN@, content@),
        service.path == path,
        service.test_path == test_path,
{
    let stem = remove_all(file_stem, ".service");
    let name = resolve_unit_name(content, stem.as_str(), "Service");
    let injectable_scope = extract_injectable_scope(content);
    Service { name, path, injectable_scope, test_path }
}

/// The module that the file at `path` declares, with the five lists of its
/// metadata.
pub fn parse_module(path: PathBuf, file_stem: &str, content: &str) -> (module: Module)
    ensures
        module.name@ == unit_name(content@, without_all(file_stem@, ".module"@), "Module"@),
        module.path == path,
        string_views(module.declarations@) == listed_names(content@, "declarations"@),
        string_views(module.imports@) == listed_names(content@, "imports"@),
        string_views(module.exports@) == listed_names(content@, "exports"@),
        string_views(module.providers@) == listed_names(content@, "providers"@),
        string_views(module.bootstrap@) == listed_names(content@, "bootstrap"@),
{
    let stem = remove_all(file_stem, ".module");
    let name = resolve_unit_name(content, stem.as_str(), "Module");
    let declarations = extract_array_property(content, "declarations");
    let imports = extract_array_property(content, "imports");
    let exports = extract_array_property(content, "exports");
    let providers = extract_array_property(content, "providers");
    let bootstrap = extract_array_property(content, "bootstrap");
    Module { name, path, declarations, imports, exports, providers, bootstrap }
}

} // verus!
