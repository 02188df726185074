use std::path::PathBuf;

use ng_analyzer::analyzer::{attach_directory, mentions_framework, Analyzer};
use ng_analyzer::models::{DirectoryNode, FileNode, FileType};

fn settings(tests: bool, styles: bool, node_modules: bool, max_depth: usize) -> Analyzer {
    Analyzer::new(PathBuf::from("/project"), tests, styles, node_modules, max_depth)
}

fn directory(name: &str) -> DirectoryNode {
    DirectoryNode {
        name: name.to_string(),
        path: PathBuf::from(name),
        directories: Vec::new(),
        files: Vec::new(),
    }
}

#[test]
fn new_keeps_the_settings() {
    let analyzer = settings(true, false, true, 7);
    assert_eq!(analyzer.root_path, PathBuf::from("/project"));
    assert!(analyzer.include_tests);
    assert!(!analyzer.include_styles);
    assert!(analyzer.include_node_modules);
    assert_eq!(analyzer.max_depth, 7);
}

#[test]
fn scan_stops_at_the_depth_limit() {
    let analyzer = settings(false, false, false, 2);
    assert!(!analyzer.skips_directory(Some("src"), 0));
    assert!(!analyzer.skips_directory(Some("src"), 1));
    assert!(analyzer.skips_directory(Some("src"), 2));
    assert!(analyzer.skips_directory(None, 3));
    assert!(settings(false, false, false, 0).skips_directory(Some("src"), 0));
}

#[test]
fn scan_skips_dependency_and_tooling_directories() {
    let analyzer = settings(false, false, false, 10);
    assert!(analyzer.skips_directory(Some("node_modules"), 0));
    assert!(analyzer.skips_directory(Some(".git"), 0));
    assert!(analyzer.skips_directory(Some(".angular"), 0));
    assert!(analyzer.skips_directory(Some(".vscode"), 0));
    assert!(!analyzer.skips_directory(Some("node_modules2"), 0));
    assert!(!analyzer.skips_directory(None, 0));
    let with_deps = settings(false, false, true, 10);
    assert!(!with_deps.skips_directory(Some("node_modules"), 0));
    assert!(with_deps.skips_directory(Some(".git"), 0));
}

#[test]
fn file_nodes_are_made_for_listed_files() {
    let analyzer = settings(false, false, false, 10);
    let node = analyzer.create_file_node(PathBuf::from("a/user.service.ts"), "user.service.ts");
    assert_eq!(
        node,
        Some(FileNode {
            name: "user.service.ts".to_string(),
            path: PathBuf::from("a/user.service.ts"),
            file_type: FileType::Service,
        })
    );
    assert_eq!(analyzer.create_file_node(PathBuf::from("a.spec.ts"), "a.spec.ts"), None);
    assert_eq!(analyzer.create_file_node(PathBuf::from("a.scss"), "a.scss"), None);

    let everything = settings(true, true, false, 10);
    let test = everything.create_file_node(PathBuf::from("a.spec.ts"), "a.spec.ts").unwrap();
    assert_eq!(test.file_type, FileType::Test);
    let style = everything.create_file_node(PathBuf::from("a.scss"), "a.scss").unwrap();
    assert_eq!(style.file_type, FileType::Style);
}

#[test]
fn walk_leaves_out_excluded_directories_tests_and_styles() {
    let analyzer = settings(false, false, false, 10);
    let path = |parts: &[&str]| parts.iter().map(|p| p.to_string()).collect::<Vec<String>>();
    assert!(analyzer.is_included_entry(&path(&["src", "app", "a.ts"]), Some("a.ts")));
    assert!(!analyzer.is_included_entry(&path(&["node_modules", "x", "a.ts"]), Some("a.ts")));
    assert!(!analyzer.is_included_entry(&path(&["src", ".git", "a.ts"]), Some("a.ts")));
    assert!(!analyzer.is_included_entry(&path(&["src", "a.spec.ts"]), Some("a.spec.ts")));
    assert!(!analyzer.is_included_entry(&path(&["src", "a.less"]), Some("a.less")));
    assert!(analyzer.is_included_entry(&path(&[]), None));

    let open = settings(true, true, true, 10);
    assert!(open.is_included_entry(&path(&["node_modules", ".git", "a.spec.ts"]), Some("a.spec.ts")));
    assert!(open.is_included_entry(&path(&["a.css"]), Some("a.css")));
}

#[test]
fn only_directories_with_content_are_attached() {
    let mut root = directory("root");
    attach_directory(&mut root, directory("empty"));
    assert_eq!(root.directories.len(), 0);

    let mut with_file = directory("with_file");
    with_file.files.push(FileNode {
        name: "a.ts".to_string(),
        path: PathBuf::from("with_file/a.ts"),
        file_type: FileType::Other,
    });
    attach_directory(&mut root, with_file);
    let mut with_dir = directory("outer");
    attach_directory(&mut with_dir, directory("again_empty"));
    attach_directory(&mut root, with_dir);
    assert_eq!(root.directories.len(), 1);
    assert_eq!(root.directories[0].name, "with_file");
}

#[test]
fn framework_is_recognized_in_a_package_file() {
    assert!(mentions_framework("{ \"dependencies\": { \"@angular/core\": \"^17\" } }"));
    assert!(mentions_framework("deps: { '@angular/core': '^17' }"));
    assert!(!mentions_framework("{ \"dependencies\": { \"@angular/common\": \"^17\" } }"));
    assert!(!mentions_framework("@angular/core"));
    assert!(!mentions_framework(""));
}
