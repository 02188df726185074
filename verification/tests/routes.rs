use ng_analyzer::models::Route;
use ng_analyzer::routes::{
    extract_routes_array, nested_route_objects, parse_route_list, parse_route_object,
    parse_route_objects, parse_routes, read_route_fields,
};

fn leaf(path: &str, component: Option<&str>, lazy_module: Option<&str>) -> Route {
    Route {
        path: path.to_string(),
        component: component.map(|c| c.to_string()),
        children: Vec::new(),
        lazy_module: lazy_module.map(|m| m.to_string()),
    }
}

#[test]
fn nested_routes_round_trip() {
    let routes =
        parse_route_list("{path:'a', component: Foo, children: [{path:'b', component: Bar}]}");
    let mut parent = leaf("a", Some("Foo"), None);
    parent.children.push(leaf("b", Some("Bar"), None));
    assert_eq!(routes, vec![parent]);
}

#[test]
fn routes_are_read_from_a_routing_module() {
    let content = "import { Routes } from '@angular/router';\n\
        const routes: Routes = [\n\
          { path: '', component: HomeComponent },\n\
          { path: 'admin', loadChildren: './admin/admin.module#AdminModule' },\n\
          { path: 'users', component: UsersComponent, children: [\n\
              { path: ':id', component: UserDetailComponent },\n\
              { path: 'new', component: UserNewComponent }\n\
          ] }\n\
        ];\n";
    let routes = parse_routes(content);
    let mut users = leaf("users", Some("UsersComponent"), None);
    users.children.push(leaf(":id", Some("UserDetailComponent"), None));
    users.children.push(leaf("new", Some("UserNewComponent"), None));
    assert_eq!(
        routes,
        vec![
            leaf("", Some("HomeComponent"), None),
            leaf("admin", None, Some("./admin/admin.module#AdminModule")),
            users,
        ]
    );
}

#[test]
fn file_without_routes_array_has_no_routes() {
    assert_eq!(parse_routes("export class AppModule {}"), Vec::<Route>::new());
    assert_eq!(extract_routes_array("routes = [{path: 'a'}]"), None);
}

#[test]
fn routes_array_interior_is_trimmed() {
    assert_eq!(
        extract_routes_array("const routes : Routes = [  {path: 'a'}  ];"),
        Some("{path: 'a'}".to_string())
    );
    assert_eq!(extract_routes_array("const routes: Routes = [];"), Some(String::new()));
}

#[test]
fn routes_array_runs_to_its_matching_bracket() {
    assert_eq!(
        extract_routes_array("const routes: Routes = [{path: 'a', data: [1]; }, {path: 'b'}]\nnext = [];"),
        Some("{path: 'a', data: [1]; }, {path: 'b'}".to_string())
    );
    assert_eq!(extract_routes_array("const routes: Routes = [{path: 'a'}"), None);
    let routes = parse_routes(
        "const routes: Routes = [\n  {path:'a', children: [{path:'b', children: [{path:'c'}]}]}\n];",
    );
    assert_eq!(routes.len(), 1);
    assert_eq!(routes[0].children[0].children[0].path, "c");
}

#[test]
fn object_without_path_still_yields_a_route() {
    assert_eq!(parse_route_object("{ component: Lost }"), leaf("", Some("Lost"), None));
    assert_eq!(parse_route_object("{}"), leaf("", None, None));
    assert_eq!(parse_route_list("{}, {path: 'x'}").len(), 2);
}

#[test]
fn route_objects_are_the_balanced_brace_blocks() {
    assert_eq!(
        parse_route_objects(" {a: {b}}, {c} , {d"),
        vec!["{a: {b}}", "{c}"]
    );
}

#[test]
fn route_fields_are_read_without_children() {
    let object = "{ path: \"p\", component: C, children: [{ path: 'q' }] }";
    assert_eq!(read_route_fields(object), leaf("p", Some("C"), None));
    assert_eq!(nested_route_objects(object), vec!["{ path: 'q' }"]);
    assert_eq!(nested_route_objects("{ path: 'p' }"), Vec::<String>::new());
}

#[test]
fn tree_mirrors_nesting_at_every_depth() {
    let route = parse_route_object("{path:'a', children: [{path:'b', children: [{path:'c'}]}]}");
    assert_eq!(route.path, "a");
    assert_eq!(route.children.len(), 1);
    assert_eq!(route.children[0].path, "b");
    assert_eq!(route.children[0].children.len(), 1);
    assert_eq!(route.children[0].children[0].path, "c");
    assert_eq!(route.children[0].children[0].children, Vec::<Route>::new());
}

#[test]
fn children_array_runs_to_its_matching_bracket() {
    let route = parse_route_object(
        "{ path: 'a', children: [ { path: 'b', data: [1] }, { path: 'c', component: Late } ] }",
    );
    assert_eq!(route.path, "a");
    assert_eq!(
        route.children,
        vec![leaf("b", None, None), leaf("c", Some("Late"), None)]
    );
    assert_eq!(
        nested_route_objects("{ children: [\n  { path: 'x' },\n  { path: 'y' }\n] }"),
        vec!["{ path: 'x' }", "{ path: 'y' }"]
    );
}

#[test]
fn children_array_that_never_closes_gives_no_children() {
    let route = parse_route_object("{ path: 'a', children: [ { path: 'b' }");
    assert_eq!(route, leaf("a", None, None));
}

#[test]
fn deep_trees_are_read_in_full() {
    let mut text = String::from("{path:'leaf'}");
    for level in 0..30 {
        text = format!("{{path:'n{}', children: [{}, {{path:'side'}}]}}", level, text);
    }
    let mut node = parse_route_object(&text);
    let mut depth = 0;
    while !node.children.is_empty() {
        assert_eq!(node.children.len(), 2);
        assert_eq!(node.children[1], leaf("side", None, None));
        node = node.children.swap_remove(0);
        depth += 1;
    }
    assert_eq!(depth, 30);
    assert_eq!(node.path, "leaf");
}

#[test]
fn siblings_under_one_parent_keep_their_order() {
    let route = parse_route_object(
        "{ path: 'p', children: [ { path: 'x' }, { component: Y }, { path: 'z', loadChildren: 'm#M' } ] }",
    );
    assert_eq!(
        route.children,
        vec![leaf("x", None, None), leaf("", Some("Y"), None), leaf("z", None, Some("m#M"))]
    );
}
