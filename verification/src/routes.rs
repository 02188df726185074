//! The routing tree of a routing module: the objects of the `routes` array,
//! each with the objects nested under its `children` field.

use vstd::prelude::*;
use crate::models::{route_views, Route, RouteTree};
use crate::pattern::{captured, first_group};
use crate::scanner::{
    balanced_blocks, enclosed_prefix, enclosed_text, extract_balanced_blocks,
    lemma_block_spans_ordered, lemma_outer_closer_stays,
};
use crate::scanner_proofs::{is_level, lemma_enclosed_prefix_of_closed};
use crate::text::{occurs_at, option_view, string_views, trim, trimmed};

verus! {

/// The opening of the declaration of the routes array; group 1 is all the
/// text behind its opening bracket.
pub const ROUTES_PATTERN: &'static str = r"const\s+routes\s*:\s*Routes\s*=\s*\[([\s\S]*)";

/// A quoted `path` field; group 1 is the text between the quotes.
pub const PATH_PATTERN: &'static str = r#"path\s*:\s*['"]([^'"]+)['"]"#;

/// A `component` field; group 1 is the identifier it names.
pub const COMPONENT_PATTERN: &'static str = r"component\s*:\s*([A-Za-z0-9_]+)";

/// A quoted `loadChildren` field; group 1 is the text between the quotes.
pub const LAZY_PATTERN: &'static str = r#"loadChildren\s*:\s*['"](.*?)['"]"#;

/// The opening of a `children` array; group 1 is all the text behind its
/// opening bracket.
pub const CHILDREN_PATTERN: &'static str = r"children\s*:\s*\[([\s\S]*)";

/// The entry that the fields of a route object describe, without the
/// entries nested under it. Each field is the first of its name in the text
/// of the object, and an object without a `path` has the empty path.
pub open spec fn shallow_route(object: Seq<char>) -> RouteTree {
    RouteTree {
        path: match captured(PATH_PATTERN@, object) {
            Some(path) => path,
            None => Seq::<char>::empty(),
        },
        component: captured(COMPONENT_PATTERN@, object),
        lazy_module: captured(LAZY_PATTERN@, object),
        children: Seq::<RouteTree>::empty(),
    }
}

/// The text between the brackets of the `children` array of `object`, from
/// its opening bracket to the closer that matches it; `None` where the
/// object has no such array, or never closes it.
pub open spec fn children_interior(object: Seq<char>) -> Option<Seq<char>> {
    match captured(CHILDREN_PATTERN@, object) {
        Some(rest) => enclosed_prefix(rest),
        None => None,
    }
}

/// The objects nested under `object`: the balanced brace blocks between the
/// brackets of its `children` array, none where it has no such array.
pub open spec fn child_objects(object: Seq<char>) -> Seq<Seq<char>> {
    match children_interior(object) {
        Some(interior) => balanced_blocks(interior, '{', '}'),
        None => Seq::<Seq<char>>::empty(),
    }
}

/// Every object nested under `object` is shorter than `object`: it lies
/// between the brackets of an array that lies inside the object.
pub proof fn lemma_child_objects_shorter(object: Seq<char>)
    ensures
        forall|i: int|
            0 <= i < child_objects(object).len() ==> (#[trigger] child_objects(object)[i]).len()
                < object.len(),
{
    match captured(CHILDREN_PATTERN@, object) {
        Some(rest) => {
            let at = choose|at: int| occurs_at(object, rest, at);
            assert(rest.len() <= object.len());
            lemma_outer_closer_stays(rest, rest.len() as int, rest.len() as int);
            match enclosed_prefix(rest) {
                Some(interior) => {
                    assert(interior.len() < rest.len());
                    lemma_block_spans_ordered(interior, '{', '}', interior.len() as int);
                },
                None => {},
            }
        },
        None => {},
    }
}

/// The objects nested under `object` are all the objects of its `children`
/// array. Where the text behind the array's opening bracket is a level
/// text, a closing bracket and anything more, they are the balanced brace
/// blocks of the level text, whatever arrays those blocks hold themselves.
pub proof fn lemma_children_of_closed_array(object: Seq<char>, interior: Seq<char>, tail: Seq<char>)
    requires
        captured(CHILDREN_PATTERN@, object) == Some(interior + seq![']'] + tail),
        is_level(interior),
    ensures
        child_objects(object) == balanced_blocks(interior, '{', '}'),
{
    lemma_enclosed_prefix_of_closed(interior, ']', tail);
}

/// The routing entry that a route object describes, with the entries nested
/// under it, to any depth.
pub open spec fn route_of(object: Seq<char>) -> RouteTree
    decreases object.len(),
    via route_of_decreases
{
    let node = shallow_route(object);
    let nested = child_objects(object);
    RouteTree {
        path: node.path,
        component: node.component,
        lazy_module: node.lazy_module,
        children: Seq::new(
            nested.len(),
            |i: int|
                if 0 <= i < nested.len() {
                    route_of(nested[i])
                } else {
                    arbitrary()
                },
        ),
    }
}

#[via_fn]
proof fn route_of_decreases(object: Seq<char>) {
    lemma_child_objects_shorter(object);
}

/// The routing entries that the interior of a routes array describes: one
/// for each balanced brace block, in source order.
pub open spec fn routes_in(interior: Seq<char>) -> Seq<RouteTree> {
    let objects = balanced_blocks(interior, '{', '}');
    Seq::new(objects.len(), |i: int| route_of(objects[i]))
}

/// The trimmed text between the brackets of the routes array that a routing
/// module declares, from the opening bracket to the closer that matches it;
/// `None` where the module declares no such array, or never closes it.
pub open spec fn routes_interior(content: Seq<char>) -> Option<Seq<char>> {
    match captured(ROUTES_PATTERN@, content) {
        Some(rest) => match enclosed_prefix(rest) {
            Some(interior) => Some(trim(interior)),
            None => None,
        },
        None => None,
    }
}

/// The routing entries that a routing module declares: those of its routes
/// array, none where it declares no such array.
pub open spec fn routes_of_file(content: Seq<char>) -> Seq<RouteTree> {
    match routes_interior(content) {
        Some(interior) => routes_in(interior),
        None => Seq::<RouteTree>::empty(),
    }
}

/// The trimmed text between the brackets of the routes array that `content`
/// declares; `None` where it declares none.
pub fn extract_routes_array(content: &str) -> (interior: Option<String>)
    ensures
        option_view(interior) == routes_interior(content@),
{
    let interior = match first_group(ROUTES_PATTERN, content) {
        Some(rest) => enclosed_text(rest.as_str()),
        None => None,
    };
    match interior {
        Some(found) => Some(trimmed(found.as_str())),
        None => None,
    }
}

/// The route objects of the interior of an array: its balanced brace
/// blocks, braces included, in source order. An opening brace that is never
/// closed gives no object.
pub fn parse_route_objects(routes_content: &str) -> (objects: Vec<String>)
    ensures
        string_views(objects@) == balanced_blocks(routes_content@, '{', '}'),
{
    extract_balanced_blocks(routes_content, '{', '}')
}

/// The entry that the fields of a route object describe, without the
/// entries nested under it.
pub fn read_route_fields(route_obj: &str) -> (route: Route)
    ensures
        route@ == shallow_route(route_obj@),
{
    let path = match first_group(PATH_PATTERN, route_obj) {
        Some(path) => path,
        None => String::new(),
    };
    let component = first_group(COMPONENT_PATTERN, route_obj);
    let lazy_module = first_group(LAZY_PATTERN, route_obj);
    let route = Route { path, component, children: Vec::new(), lazy_module };
    assert(route@.children =~= Seq::<RouteTree>::empty());
    route
}

/// The text of the objects nested under a route object.
pub fn nested_route_objects(route_obj: &str) -> (objects: Vec<String>)
    ensures
        string_views(objects@) == child_objects(route_obj@),
{
    let interior = match first_group(CHILDREN_PATTERN, route_obj) {
        Some(rest) => enclosed_text(rest.as_str()),
        None => None,
    };
    match interior {
        Some(inner) => parse_route_objects(inner.as_str()),
        None => {
            let objects: Vec<String> = Vec::new();
            assert(string_views(objects@) =~= Seq::<Seq<char>>::empty());
            objects
        },
    }
}

/// The routing entry that a route object describes, with the entries nested
/// under it. Every object yields an entry, whether or not it has a path.
pub fn parse_route_object(route_obj: &str) -> (route: Route)
    ensures
        route@ == route_of(route_obj@),
    decreases route_obj@.len(),
{
    let fields = read_route_fields(route_obj);
    let nested = nested_route_objects(route_obj);
    let mut children: Vec<Route> = Vec::new();
    let mut k: usize = 0;
    proof {
        lemma_child_objects_shorter(route_obj@);
    }
    while k < nested.len()
        invariant
            k <= nested.len(),
            string_views(nested@) == child_objects(route_obj@),
            forall|i: int|
                0 <= i < child_objects(route_obj@).len() ==> (#[trigger] child_objects(
                    route_obj@,
                )[i]).len() < route_obj@.len(),
            children@.len() == k,
            forall|j: int|
                0 <= j < k ==> (#[trigger] children@[j])@ == route_of(route_obj@).children[j],
        decreases nested.len() - k,
    {
        let child_text = nested[k].as_str();
        assert(string_views(nested@)[k as int] == child_text@);
        let child = parse_route_object(child_text);
        children.push(child);
        k += 1;
    }
    let route = Route {
        path: fields.path,
        component: fields.component,
        children,
        lazy_module: fields.lazy_module,
    };
    assert(route@.children =~= route_of(route_obj@).children);
    route
}

/// The routing entries that the interior of a routes array describes.
pub fn parse_route_list(routes_content: &str) -> (routes: Vec<Route>)
    ensures
        route_views(routes@) == routes_in(routes_content@),
{
    let objects = parse_route_objects(routes_content);
    let mut routes: Vec<Route> = Vec::new();
    let mut k: usize = 0;
    while k < objects.len()
        invariant
            k <= objects.len(),
            string_views(objects@) == balanced_blocks(routes_content@, '{', '}'),
            routes@.len() == k,
            forall|j: int| 0 <= j < k ==> (#[trigger] routes@[j])@ == routes_in(routes_content@)[j],
        decreases objects.len() - k,
    {
        let text = objects[k].as_str();
        assert(string_views(objects@)[k as int] == text@);
        let route = parse_route_object(text);
        routes.push(route);
        k += 1;
    }
    assert(route_views(routes@) =~= routes_in(routes_content@));
    routes
}

/// The routing entries that a routing module declares, in source order. A
/// module without a routes array has none.
pub fn parse_routes(content: &str) -> (routes: Vec<Route>)
    ensures
        route_views(routes@) == routes_of_file(content@),
{
    match extract_routes_array(content) {
        Some(interior) => parse_route_list(interior.as_str()),
        None => {
            let routes: Vec<Route> = Vec::new();
            assert(route_views(routes@) =~= Seq::<RouteTree>::empty());
            routes
        },
    }
}

} // verus!
