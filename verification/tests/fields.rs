use ng_analyzer::fields::{
    array_interior, extract_array_property, extract_class_name, extract_injectable_scope,
    extract_item_name, extract_selector, list_item_names,
};

#[test]
fn class_name_is_read_from_the_declaration() {
    let content = "@Component({})\nexport   class UserProfileComponent implements OnInit {}";
    assert_eq!(extract_class_name(content), Some("UserProfileComponent".to_string()));
    assert_eq!(extract_class_name("class Hidden {}"), None);
    assert_eq!(extract_class_name(""), None);
}

#[test]
fn first_class_declaration_wins() {
    assert_eq!(
        extract_class_name("export class A_1 {}\nexport class B {}"),
        Some("A_1".to_string())
    );
}

#[test]
fn selector_is_read_with_either_quote() {
    assert_eq!(extract_selector("selector: 'app-root',"), Some("app-root".to_string()));
    assert_eq!(extract_selector("selector : \"app-user\""), Some("app-user".to_string()));
    assert_eq!(extract_selector("selector: ''"), None);
    assert_eq!(extract_selector("template: '<p></p>'"), None);
}

#[test]
fn injectable_scope_is_read() {
    assert_eq!(
        extract_injectable_scope("@Injectable({ providedIn: 'root' })"),
        Some("root".to_string())
    );
    assert_eq!(extract_injectable_scope("@Injectable()"), None);
}

#[test]
fn declarations_are_listed_in_source_order() {
    assert_eq!(
        extract_array_property("declarations: [FooComponent, BarComponent]", "declarations"),
        vec!["FooComponent", "BarComponent"]
    );
}

#[test]
fn repeated_declarations_are_kept() {
    assert_eq!(
        extract_array_property("declarations: [A, B, A, A]", "declarations"),
        vec!["A", "B", "A", "A"]
    );
}

#[test]
fn empty_array_is_an_empty_list_not_an_absent_field() {
    assert_eq!(array_interior("declarations: []", "declarations"), Some(String::new()));
    assert_eq!(
        extract_array_property("declarations: []", "declarations"),
        Vec::<String>::new()
    );
    assert_eq!(array_interior("imports: [A]", "declarations"), None);
    assert_eq!(extract_array_property("imports: [A]", "declarations"), Vec::<String>::new());
}

#[test]
fn array_field_is_found_by_its_own_name() {
    let content = "@NgModule({\n  declarations: [A],\n  imports: [ CommonModule , RouterModule.forChild(routes) ],\n  exports: [A]\n})";
    assert_eq!(extract_array_property(content, "imports"), vec!["CommonModule", "RouterModule"]);
    assert_eq!(extract_array_property(content, "exports"), vec!["A"]);
    assert_eq!(extract_array_property(content, "providers"), Vec::<String>::new());
}

#[test]
fn array_field_runs_to_its_matching_bracket() {
    assert_eq!(
        extract_array_property("imports: [RouterModule.forRoot([a, b]), Foo]", "imports"),
        vec!["RouterModule", "Foo"]
    );
    assert_eq!(
        extract_array_property("providers: [{ provide: X, useValue: [1, 2] }, Y]", "providers"),
        vec!["provide", "Y"]
    );
    assert_eq!(
        array_interior("a: [b(c)[d]{e}] f: [g]", "a"),
        Some("b(c)[d]{e}".to_string())
    );
}

#[test]
fn array_field_may_span_lines() {
    assert_eq!(
        extract_array_property("declarations: [\n  FooComponent,\n  BarComponent\n]", "declarations"),
        vec!["FooComponent", "BarComponent"]
    );
    assert_eq!(
        extract_array_property("imports : [\r\n\tA ,\r\n\tB,\r\n]\nexports: [C]", "imports"),
        vec!["A", "B"]
    );
}

#[test]
fn array_field_that_never_closes_is_absent() {
    assert_eq!(array_interior("imports: [A, B", "imports"), None);
    assert_eq!(array_interior("imports: [A, (B]", "imports"), None);
    assert_eq!(extract_array_property("imports: [A, B", "imports"), Vec::<String>::new());
}

#[test]
fn items_without_an_identifier_are_left_out() {
    assert_eq!(list_item_names("A, '!!', (B), -, C9_"), vec!["A", "B", "C9_"]);
    assert_eq!(list_item_names(""), Vec::<String>::new());
}

#[test]
fn item_name_is_the_first_identifier_run() {
    assert_eq!(extract_item_name("FooComponent"), Some("FooComponent".to_string()));
    assert_eq!(extract_item_name("{ provide: Token }"), Some("provide".to_string()));
    assert_eq!(extract_item_name("...spread"), Some("spread".to_string()));
    assert_eq!(extract_item_name("Foo.bar()"), Some("Foo".to_string()));
    assert_eq!(extract_item_name("{ - }"), None);
    assert_eq!(extract_item_name(""), None);
}

#[test]
fn reading_a_list_again_gives_the_same_list() {
    for interior in ["A, B.c(), { d: E }, A", "", " , ", "x", "f(a, b), [c, d], e"] {
        let names = list_item_names(interior);
        let joined = names.join(",");
        assert_eq!(list_item_names(&joined), names);
    }
}
