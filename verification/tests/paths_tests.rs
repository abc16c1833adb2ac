use std::path::Path;

use matrix_gotify_bridge::paths::{dedup_paths, path_parts, same_path};

#[test]
fn parts_of_paths() {
    let p = path_parts("/a//b/./c/");
    assert!(p.absolute);
    assert!(!p.leading_dot);
    assert_eq!(p.parts, vec!["a".to_string(), "b".to_string(), "c".to_string()]);
    let q = path_parts("./x/../y");
    assert!(!q.absolute);
    assert!(q.leading_dot);
    assert_eq!(q.parts, vec!["x".to_string(), "..".to_string(), "y".to_string()]);
    let e = path_parts("");
    assert!(!e.absolute && !e.leading_dot && e.parts.is_empty());
}

#[test]
fn same_path_agrees_with_std_path_equality() {
    let samples = [
        "", ".", "./", "./.", "a", "a/", "a//", "./a", "a/.", "a/./b", "a//b", "a/b", "/a/b", "//a/b", "/", "//",
        "/.", "..", "../a", "a/..", ".a", "a/.b", "x/t.md", "x//t.md", "x/./t.md", "t.md/", "t.md", "./t.md",
    ];
    for a in samples {
        for b in samples {
            assert_eq!(same_path(a, b), Path::new(a) == Path::new(b), "{:?} vs {:?}", a, b);
        }
    }
}

#[test]
fn first_spelling_of_each_path_is_kept() {
    let v: Vec<String> = ["x/t.md", "x//t.md", "y.md", "./y.md", "x/t.md/"].iter().map(|s| s.to_string()).collect();
    assert_eq!(dedup_paths(&v), vec!["x/t.md".to_string(), "y.md".to_string(), "./y.md".to_string()]);
}
