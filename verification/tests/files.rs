use std::path::Path;

use ng_analyzer::files::{
    determine_file_type, file_extension, is_component_file, is_module_file,
    is_routing_module_file, is_service_file, is_style_file, is_test_file, is_typescript_file,
};
use ng_analyzer::models::FileType;

#[test]
fn extension_agrees_with_the_standard_library() {
    for name in [
        "", "a", "a.ts", "a.b.ts", ".gitignore", ".a.b", "a.", "..", "...", "a..b", ".", "x.css",
        "archive.tar.gz", "noext", "ünï.côde",
    ] {
        let expected =
            Path::new(name).extension().and_then(|e| e.to_str()).map(|e| e.to_string());
        let expected = if Path::new(name).file_name().is_none() { None } else { expected };
        assert_eq!(file_extension(name), expected, "{:?}", name);
    }
}

#[test]
fn style_files_are_known_by_extension() {
    for name in ["a.css", "a.scss", "a.sass", "a.less", "x.component.scss"] {
        assert!(is_style_file(name), "{}", name);
    }
    for name in ["a.ts", "css", ".css", "a.css.ts", "a.CSS", "a.csss", ""] {
        assert!(!is_style_file(name), "{}", name);
    }
}

#[test]
fn file_type_follows_the_name() {
    let cases = [
        ("user.action.ts", FileType::NgRxAction),
        ("index.html", FileType::Template),
        ("user.reducer.ts", FileType::NgRxReducer),
        ("user.effects.ts", FileType::NgRxEffect),
        ("user.selector.ts", FileType::NgRxSelector),
        ("user.ngrx.ts", FileType::NgRxOther),
        ("user.component.ts", FileType::Component),
        ("user.service.ts", FileType::Service),
        ("app.module.ts", FileType::Module),
        ("hl.directive.ts", FileType::Directive),
        ("date.pipe.ts", FileType::Pipe),
        ("auth.guard.ts", FileType::Guard),
        ("user.resolver.ts", FileType::Resolver),
        ("user.model.ts", FileType::Model),
        ("user.interface.ts", FileType::Model),
        ("tsconfig.json", FileType::Config),
        ("angular.json", FileType::Config),
        ("user.component.spec.ts", FileType::Test),
        ("styles.scss", FileType::Style),
        ("main.ts", FileType::Other),
        ("package.json", FileType::Other),
        ("", FileType::Other),
        ("unknown", FileType::Other),
    ];
    for (name, expected) in cases {
        assert_eq!(determine_file_type(name), expected, "{}", name);
    }
}

#[test]
fn earlier_rules_win_over_later_ones() {
    assert_eq!(determine_file_type("x.spec.ts.html"), FileType::Template);
    assert_eq!(determine_file_type("my-tsconfig.json"), FileType::Other);
}

#[test]
fn analyses_pick_their_files_by_name() {
    assert!(is_component_file("a.component.ts"));
    assert!(!is_component_file("a.component.spec.ts"));
    assert!(!is_component_file("a.component.html"));
    assert!(is_service_file("a.service.ts"));
    assert!(!is_service_file("a.service.spec.ts"));
    assert!(is_module_file("app.module.ts"));
    assert!(is_module_file("app-routing.module.ts"));
    assert!(!is_module_file("app.module.js"));
    assert!(is_routing_module_file("app-routing.module.ts"));
    assert!(is_routing_module_file("routing.module.ts"));
    assert!(!is_routing_module_file("app.module.ts"));
    assert!(!is_routing_module_file("app-routing.ts"));
    assert!(is_typescript_file("main.ts"));
    assert!(is_typescript_file("a.d.ts"));
    assert!(!is_typescript_file("main.tsx"));
    assert!(!is_typescript_file(".ts"));
    assert!(!is_typescript_file("ts"));
    assert!(is_test_file("a.spec.ts"));
    assert!(is_test_file("a.spec.js"));
    assert!(!is_test_file("a.spec"));
    assert!(!is_test_file("spec.ts"));
}
