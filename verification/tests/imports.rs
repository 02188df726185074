use std::path::PathBuf;

use ng_analyzer::imports::{
    dependencies_of_matches, determine_import_type, parse_file_dependencies,
};
use ng_analyzer::models::{Dependency, ImportType};

fn edge(source: &str, target: &str, import_type: ImportType) -> Dependency {
    Dependency { source: PathBuf::from(source), target: target.to_string(), import_type }
}

#[test]
fn each_imported_name_yields_an_edge() {
    let source = PathBuf::from("src/app/a.ts");
    let deps = parse_file_dependencies(&source, "import { Foo, BarService } from './x'");
    assert_eq!(
        deps,
        vec![
            edge("src/app/a.ts", "./x", ImportType::Other),
            edge("src/app/a.ts", "./x", ImportType::Service),
        ]
    );
}

#[test]
fn statements_are_read_in_order() {
    let source = PathBuf::from("m.ts");
    let content = "import { NgModule } from \"@angular/core\";\n\
        import {\n  AComponent,\n  BPipe,\n} from './ab';\n\
        import * as x from 'y';\n\
        import { AuthGuard , UserResolver } from '../auth';\n";
    let deps = parse_file_dependencies(&source, content);
    assert_eq!(
        deps,
        vec![
            edge("m.ts", "@angular/core", ImportType::Module),
            edge("m.ts", "./ab", ImportType::Component),
            edge("m.ts", "./ab", ImportType::Pipe),
            edge("m.ts", "../auth", ImportType::Guard),
            edge("m.ts", "../auth", ImportType::Resolver),
        ]
    );
}

#[test]
fn file_without_braced_imports_has_no_edges() {
    let source = PathBuf::from("m.ts");
    assert_eq!(parse_file_dependencies(&source, "import x from 'y';"), Vec::<Dependency>::new());
    assert_eq!(parse_file_dependencies(&source, ""), Vec::<Dependency>::new());
}

#[test]
fn import_type_follows_the_name_ending() {
    assert_eq!(determine_import_type("FooComponent"), ImportType::Component);
    assert_eq!(determine_import_type("FooService"), ImportType::Service);
    assert_eq!(determine_import_type("FooModule"), ImportType::Module);
    assert_eq!(determine_import_type("FooDirective"), ImportType::Directive);
    assert_eq!(determine_import_type("FooPipe"), ImportType::Pipe);
    assert_eq!(determine_import_type("FooGuard"), ImportType::Guard);
    assert_eq!(determine_import_type("FooResolver"), ImportType::Resolver);
    assert_eq!(determine_import_type("FooModel"), ImportType::Model);
    assert_eq!(determine_import_type("FooInterface"), ImportType::Model);
    assert_eq!(determine_import_type("Foo"), ImportType::Other);
    assert_eq!(determine_import_type(""), ImportType::Other);
    assert_eq!(determine_import_type("Component"), ImportType::Component);
    assert_eq!(determine_import_type("component"), ImportType::Other);
    assert_eq!(determine_import_type("X as FooService"), ImportType::Service);
}

#[test]
fn matches_that_lack_a_group_give_no_edge() {
    let source = PathBuf::from("m.ts");
    let matches = vec![
        (Some("A, BService".to_string()), None),
        (None, Some("./x".to_string())),
        (Some(" CPipe ,, ".to_string()), Some(" ./c ".to_string())),
    ];
    assert_eq!(
        dependencies_of_matches(&source, &matches),
        vec![edge("m.ts", " ./c ", ImportType::Pipe)]
    );
}

#[test]
fn module_specifier_is_copied_verbatim() {
    let source = PathBuf::from("m.ts");
    let deps = parse_file_dependencies(&source, "import { A, B } from ' ./with blanks '");
    assert_eq!(
        deps,
        vec![
            edge("m.ts", " ./with blanks ", ImportType::Other),
            edge("m.ts", " ./with blanks ", ImportType::Other),
        ]
    );
}
