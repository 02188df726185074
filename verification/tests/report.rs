use std::path::PathBuf;

use ng_analyzer::grouping::{distinct_edges, group_by_source, DependencyGroup};
use ng_analyzer::models::{DirectoryNode, FileNode, FileType, ImportType};
use ng_analyzer::report::{
    collect_all_files, count_file_types, file_type_indicator, file_type_label, import_type_label,
};
use ng_analyzer::sorting::{name_le, sort_by_name};

fn file(name: &str, file_type: FileType) -> FileNode {
    FileNode { name: name.to_string(), path: PathBuf::from(name), file_type }
}

fn directory(name: &str, directories: Vec<DirectoryNode>, files: Vec<FileNode>) -> DirectoryNode {
    DirectoryNode { name: name.to_string(), path: PathBuf::from(name), directories, files }
}

const ALL_TYPES: [FileType; 18] = [
    FileType::Component,
    FileType::Service,
    FileType::Module,
    FileType::Directive,
    FileType::Pipe,
    FileType::Template,
    FileType::Guard,
    FileType::Resolver,
    FileType::Model,
    FileType::Config,
    FileType::Style,
    FileType::Test,
    FileType::NgRxAction,
    FileType::NgRxReducer,
    FileType::NgRxEffect,
    FileType::NgRxSelector,
    FileType::NgRxOther,
    FileType::Other,
];

#[test]
fn labels_are_the_variant_names() {
    for file_type in ALL_TYPES {
        assert_eq!(file_type_label(file_type), format!("{:?}", file_type));
    }
    for kind in [
        ImportType::Module,
        ImportType::Component,
        ImportType::Service,
        ImportType::Directive,
        ImportType::Pipe,
        ImportType::Guard,
        ImportType::Resolver,
        ImportType::Model,
        ImportType::Other,
    ] {
        assert_eq!(import_type_label(kind), format!("{:?}", kind));
    }
}

#[test]
fn indicators_are_short_marks() {
    let marks: Vec<&str> = ALL_TYPES.iter().map(|t| file_type_indicator(*t)).collect();
    assert_eq!(
        marks,
        vec![
            "C", "S", "M", "D", "P", "H", "G", "R", "I", "CF", "ST", "T", "NGA", "NGR", "NGE",
            "NGS", "NGO", "O"
        ]
    );
}

#[test]
fn files_are_collected_own_files_first() {
    let tree = directory(
        "root",
        vec![
            directory(
                "a",
                vec![directory("deep", vec![], vec![file("p", FileType::Pipe)])],
                vec![file("c", FileType::Component)],
            ),
            directory("b", vec![], vec![file("s", FileType::Service), file("t", FileType::Test)]),
        ],
        vec![file("m", FileType::Module), file("o", FileType::Other)],
    );
    let mut types = vec![FileType::Config];
    collect_all_files(&tree, &mut types);
    assert_eq!(
        types,
        vec![
            FileType::Config,
            FileType::Module,
            FileType::Other,
            FileType::Component,
            FileType::Pipe,
            FileType::Service,
            FileType::Test,
        ]
    );
}

#[test]
fn counts_follow_the_order_of_the_categories() {
    let types = vec![
        FileType::Other,
        FileType::Service,
        FileType::Component,
        FileType::Service,
        FileType::NgRxAction,
        FileType::Other,
        FileType::Other,
    ];
    assert_eq!(
        count_file_types(&types),
        vec![
            (FileType::Component, 1),
            (FileType::Service, 2),
            (FileType::NgRxAction, 1),
            (FileType::Other, 3),
        ]
    );
    assert_eq!(count_file_types(&Vec::new()), Vec::<(FileType, usize)>::new());
    let mut sorted = ALL_TYPES.to_vec();
    sorted.sort();
    assert_eq!(sorted, ALL_TYPES.to_vec());
    let every: Vec<(FileType, usize)> = ALL_TYPES.iter().map(|t| (*t, 1)).collect();
    assert_eq!(count_file_types(&ALL_TYPES.to_vec()), every);
}

#[test]
fn name_order_agrees_with_string_order() {
    let names = ["", "a", "A", "ab", "b", "a-b", "a_b", "Z", "é", "日本", "a.ts", "a.component.ts"];
    for a in names {
        for b in names {
            assert_eq!(name_le(a, b), a <= b, "{:?} <= {:?}", a, b);
        }
    }
}

#[test]
fn nodes_are_sorted_by_name_and_equal_names_keep_their_order() {
    let mut files = vec![
        file("b.ts", FileType::Other),
        file("a.ts", FileType::Service),
        file("c.ts", FileType::Other),
        file("a.ts", FileType::Component),
        file("B.ts", FileType::Other),
    ];
    let mut expected = vec![
        file("b.ts", FileType::Other),
        file("a.ts", FileType::Service),
        file("c.ts", FileType::Other),
        file("a.ts", FileType::Component),
        file("B.ts", FileType::Other),
    ];
    expected.sort_by(|a, b| a.name.cmp(&b.name));
    sort_by_name(&mut files);
    assert_eq!(files, expected);

    let mut directories = vec![directory("z", vec![], vec![]), directory("m", vec![], vec![])];
    sort_by_name(&mut directories);
    assert_eq!(directories[0].name, "m");
    assert_eq!(directories[1].name, "z");

    let mut none: Vec<FileNode> = Vec::new();
    sort_by_name(&mut none);
    assert!(none.is_empty());
}

fn entry(source: &str, target: &str, kind: ImportType) -> (String, String, ImportType) {
    (source.to_string(), target.to_string(), kind)
}

#[test]
fn edges_are_grouped_under_sorted_sources() {
    let entries = vec![
        entry("b.ts", "./x", ImportType::Other),
        entry("a.ts", "./y", ImportType::Service),
        entry("b.ts", "./a", ImportType::Pipe),
        entry("a.ts", "./y", ImportType::Service),
        entry("c.ts", "./z", ImportType::Module),
    ];
    assert_eq!(
        group_by_source(&entries),
        vec![
            DependencyGroup {
                source: "a.ts".to_string(),
                edges: vec![
                    ("./y".to_string(), ImportType::Service),
                    ("./y".to_string(), ImportType::Service)
                ],
            },
            DependencyGroup {
                source: "b.ts".to_string(),
                edges: vec![
                    ("./x".to_string(), ImportType::Other),
                    ("./a".to_string(), ImportType::Pipe)
                ],
            },
            DependencyGroup {
                source: "c.ts".to_string(),
                edges: vec![("./z".to_string(), ImportType::Module)],
            },
        ]
    );
    assert_eq!(group_by_source(&Vec::new()), Vec::<DependencyGroup>::new());
}

#[test]
fn graph_edges_are_distinct_and_sorted_by_target() {
    let edges = vec![
        ("./y".to_string(), ImportType::Service),
        ("./x".to_string(), ImportType::Other),
        ("./y".to_string(), ImportType::Service),
        ("./y".to_string(), ImportType::Other),
        ("./a".to_string(), ImportType::Pipe),
        ("./x".to_string(), ImportType::Other),
    ];
    assert_eq!(
        distinct_edges(&edges),
        vec![
            ("./a".to_string(), ImportType::Pipe),
            ("./x".to_string(), ImportType::Other),
            ("./y".to_string(), ImportType::Service),
            ("./y".to_string(), ImportType::Other),
        ]
    );
}
