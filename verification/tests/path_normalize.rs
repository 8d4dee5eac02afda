use vrift::manifest::normalize_vfs_path;
use vrift::path::{normalize_bytes, raw_path_normalize};

fn norm(p: &str, cap: usize) -> Option<String> {
    let mut buf = vec![0u8; cap];
    raw_path_normalize(p, &mut buf).map(|n| String::from_utf8(buf[..n].to_vec()).unwrap())
}

#[test]
fn test_raw_path_normalize_components() {
    assert_eq!(norm("/a/./b//c/", 1024).as_deref(), Some("/a/b/c"));
    assert_eq!(norm("/vrift/a/../b//c.txt", 1024).as_deref(), Some("/vrift/b/c.txt"));
    // backing out of the last component keeps the slash before it
    assert_eq!(norm("/a/b/..", 1024).as_deref(), Some("/a/"));
    assert_eq!(norm("/a/..", 1024).as_deref(), Some("/"));
    assert_eq!(norm("/..", 1024).as_deref(), Some("/"));
    assert_eq!(norm("/", 1024).as_deref(), Some("/"));
    // relative paths: a leading `..` has nothing to back out of
    assert_eq!(norm("a/..", 1024).as_deref(), Some("a"));
    assert_eq!(norm("../a", 1024).as_deref(), Some("a"));
    assert_eq!(norm(".", 1024).as_deref(), Some("."));
    assert_eq!(norm("sub/./x.rs", 1024).as_deref(), Some("sub/x.rs"));
}

#[test]
fn test_raw_path_normalize_limits() {
    assert_eq!(norm("", 1024), None);
    assert_eq!(norm("/a", 0), None);
    assert_eq!(norm("/abc", 3), None);
    assert_eq!(norm("/abc", 4).as_deref(), Some("/abc"));
    let mut buf = [0u8; 8];
    assert_eq!(normalize_bytes(b"//x//y", &mut buf), Some(4));
    assert_eq!(&buf[..4], b"/x/y");
}

#[test]
fn test_normalize_vfs_path() {
    assert_eq!(normalize_vfs_path("a//b/"), b"/a/b".to_vec());
    assert_eq!(normalize_vfs_path("/"), b"/".to_vec());
    assert_eq!(normalize_vfs_path("///x"), b"//x".to_vec());
}

fn clean_absolute(s: &str) -> bool {
    s.starts_with('/')
        && !s.contains("//")
        && s.split('/').skip(1).all(|c| c != "." && c != "..")
}

#[test]
fn test_normalized_absolute_paths_are_clean() {
    let inputs = ["/a/./b//c/", "/x/y/../../..//z/.", "//..//./a/b/../c", "/a/b/..", "/./.././", "/a/.b/..c/...", "/.x/.."];
    for p in inputs {
        let n = norm(p, 1024).unwrap();
        assert!(clean_absolute(&n), "{} -> {}", p, n);
    }
    assert_eq!(norm("/a/.b/..c/...", 1024).as_deref(), Some("/a/.b/..c/..."));
    assert_eq!(norm("/.x/..", 1024).as_deref(), Some("/"));
    // a relative path is outside the promise: backing out of `.x` keeps its first byte
    assert_eq!(norm(".x/..", 1024).as_deref(), Some("."));
}
