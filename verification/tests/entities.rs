use std::path::PathBuf;

use ng_analyzer::entities::{
    parse_component, parse_module, parse_service, related_file_name, resolve_unit_name,
    synthesize_name,
};
use ng_analyzer::text::{concatenate, remove_all};

#[test]
fn fallback_name_for_a_component_file() {
    assert_eq!(synthesize_name("login-form", "Component"), "LoginFormComponent");
    assert_eq!(synthesize_name("user-profile", "Component"), "UserProfileComponent");
}

#[test]
fn empty_stem_yields_the_bare_suffix() {
    assert_eq!(synthesize_name("", "Service"), "Service");
    assert_eq!(synthesize_name("-_-", "Module"), "Module");
}

#[test]
fn file_without_declaration_is_named_after_its_stem() {
    let component = parse_component(
        PathBuf::from("src/app/login-form.component.ts"),
        "login-form.component",
        "const nothing = 1;",
        None,
        Vec::new(),
        None,
    );
    assert_eq!(component.name, "LoginFormComponent");
    assert_eq!(component.selector, None);
    assert_eq!(component.path, PathBuf::from("src/app/login-form.component.ts"));
}

#[test]
fn declared_class_name_wins_over_the_file_name() {
    assert_eq!(resolve_unit_name("export class Real {}", "other", "Component"), "Real");
    assert_eq!(resolve_unit_name("class Hidden {}", "other", "Component"), "OtherComponent");
}

#[test]
fn component_keeps_what_was_found_beside_it() {
    let component = parse_component(
        PathBuf::from("a/user.component.ts"),
        "user.component",
        "@Component({ selector: 'app-user' })\nexport class UserComponent {}",
        Some(PathBuf::from("a/user.component.html")),
        vec![PathBuf::from("a/user.component.css"), PathBuf::from("a/user.component.scss")],
        Some(PathBuf::from("a/user.component.spec.ts")),
    );
    assert_eq!(component.name, "UserComponent");
    assert_eq!(component.selector, Some("app-user".to_string()));
    assert_eq!(component.template_path, Some(PathBuf::from("a/user.component.html")));
    assert_eq!(
        component.style_paths,
        vec![PathBuf::from("a/user.component.css"), PathBuf::from("a/user.component.scss")]
    );
    assert_eq!(component.test_path, Some(PathBuf::from("a/user.component.spec.ts")));
}

#[test]
fn service_is_read_with_its_scope() {
    let service = parse_service(
        PathBuf::from("a/auth.service.ts"),
        "auth.service",
        "@Injectable({ providedIn: 'root' })\nexport class AuthService {}",
        None,
    );
    assert_eq!(service.name, "AuthService");
    assert_eq!(service.injectable_scope, Some("root".to_string()));
    assert_eq!(service.test_path, None);

    let bare = parse_service(PathBuf::from("a/data-store.service.ts"), "data-store.service", "", None);
    assert_eq!(bare.name, "DataStoreService");
    assert_eq!(bare.injectable_scope, None);
}

#[test]
fn module_is_read_with_its_five_lists() {
    let content = "@NgModule({\n\
        declarations: [AppComponent, NavComponent, AppComponent],\n\
        imports: [BrowserModule, RouterModule.forRoot(routes)],\n\
        exports: [],\n\
        providers: [AuthService],\n\
        bootstrap: [AppComponent]\n\
        })\nexport class AppModule {}";
    let module = parse_module(PathBuf::from("src/app/app.module.ts"), "app.module", content);
    assert_eq!(module.name, "AppModule");
    assert_eq!(module.declarations, vec!["AppComponent", "NavComponent", "AppComponent"]);
    assert_eq!(module.imports, vec!["BrowserModule", "RouterModule"]);
    assert_eq!(module.exports, Vec::<String>::new());
    assert_eq!(module.providers, vec!["AuthService"]);
    assert_eq!(module.bootstrap, vec!["AppComponent"]);

    let unnamed = parse_module(PathBuf::from("x/shared.module.ts"), "shared.module", "");
    assert_eq!(unnamed.name, "SharedModule");
    assert_eq!(unnamed.declarations, Vec::<String>::new());
}

#[test]
fn related_file_names_are_joined_with_a_dot() {
    assert_eq!(related_file_name("user", "component.html"), "user.component.html");
    assert_eq!(related_file_name("", "x"), ".x");
}

#[test]
fn kind_marker_is_removed_wherever_it_stands() {
    for (text, needle) in [
        ("user.component", ".component"),
        ("a.component.b.component", ".component"),
        ("aaa", "aa"),
        ("abab", "ab"),
        ("xaxbx", "x"),
        ("plain", ".service"),
        ("", "x"),
        ("x", ""),
        ("short", "much longer needle"),
    ] {
        assert_eq!(remove_all(text, needle), text.replace(needle, ""), "{:?} {:?}", text, needle);
    }
    assert_eq!(concatenate("ab", "cd"), "abcd");
}
