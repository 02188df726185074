use std::path::{Path, PathBuf};

use ng_analyzer::utils::fs_utils::relative_path;

fn names(path: &str) -> Vec<String> {
    Path::new(path).components().map(|c| c.as_os_str().to_string_lossy().into_owned()).collect()
}

#[test]
fn path_under_base_loses_the_base() {
    assert_eq!(relative_path(&names("/a/b/c.ts"), &names("/a")), vec!["b", "c.ts"]);
    assert_eq!(relative_path(&names("a/b"), &names("a/b")), Vec::<String>::new());
    assert_eq!(relative_path(&names("a/b"), &names("")), vec!["a", "b"]);
}

#[test]
fn path_outside_base_stays_whole() {
    assert_eq!(relative_path(&names("/a/b"), &names("/x")), vec!["/", "a", "b"]);
    assert_eq!(relative_path(&names("ab/c"), &names("a")), vec!["ab", "c"]);
    assert_eq!(relative_path(&names("a"), &names("a/b")), vec!["a"]);
}

#[test]
fn relative_path_agrees_with_strip_prefix() {
    let paths = ["/a/b/c", "a/b", "a", "", "/", "ab/c", "a/b/../c", "x/y/z.ts"];
    for path in paths {
        for base in paths {
            let expected = match Path::new(path).strip_prefix(base) {
                Ok(rest) => rest.to_path_buf(),
                Err(_) => PathBuf::from(path),
            };
            let relative: PathBuf = relative_path(&names(path), &names(base)).iter().collect();
            assert_eq!(relative, expected, "{:?} under {:?}", path, base);
        }
    }
}
