use vrift::resolver::PathResolver;
use vrift::fnv::fnv1a_hash;

#[test]
fn test_resolver_virtual_prefix_keeps_full_path() {
    let r = PathResolver::new("/vrift", "/home/u/proj");
    let v = r.resolve("/vrift/a/../b//c.txt", None).unwrap();
    assert_eq!(v.absolute.as_str(), "/vrift/b/c.txt");
    assert_eq!(v.manifest_key.as_str(), "/vrift/b/c.txt");
    assert_eq!(v.manifest_key_hash, fnv1a_hash("/vrift/b/c.txt"));
}

#[test]
fn test_resolver_project_root_key() {
    let r = PathResolver::new("/vrift", "/work1/proj");
    let v = r.resolve("/work1/proj/target/debug/app", None).unwrap();
    assert_eq!(v.manifest_key.as_str(), "/target/debug/app");
    assert_eq!(v.absolute.as_str(), "/work1/proj/target/debug/app");
    // same bytes without a component boundary are outside the domain
    assert!(r.resolve("/work1/projX/file", None).is_none());
    // real paths under the project root are in the domain, whatever the prefix
    let r2 = PathResolver::new("/vrift", "/home/u/proj");
    let w = r2.resolve("/home/u/proj/target/a.o", None).unwrap();
    assert_eq!(w.absolute.as_str(), "/home/u/proj/target/a.o");
    assert_eq!(w.manifest_key.as_str(), "/target/a.o");
    assert_eq!(w.manifest_key_hash, fnv1a_hash("/target/a.o"));
    let top = r2.resolve("/home/u/proj", None).unwrap();
    assert_eq!(top.manifest_key.as_str(), "/");
    assert!(r2.resolve("/home/u/projX/a.o", None).is_none());
}

#[test]
fn test_resolver_relative_path_uses_cwd() {
    let r = PathResolver::new("/vrift", "");
    let v = r.resolve("sub/./x.rs", Some("/vrift/work")).unwrap();
    assert_eq!(v.absolute.as_str(), "/vrift/work/sub/x.rs");
    // relative path with unknown working directory
    assert!(r.resolve("x.rs", None).is_none());
}

#[test]
fn test_resolver_outside_domain() {
    let r = PathResolver::new("/vrift", "");
    assert!(r.resolve("/etc/passwd", None).is_none());
    // prefix match must end at a component boundary
    assert!(r.resolve("/vriftx/file", None).is_none());
    // not configured
    let none = PathResolver::new("", "");
    assert!(none.resolve("/vrift/a", None).is_none());
}

#[test]
fn test_resolver_physical_prefix_is_stripped() {
    // prefix under the project root: the key is the part below the prefix
    let r = PathResolver::new("/home/u/proj", "/home/u/proj");
    let v = r.resolve("/home/u/proj/src/lib.rs", None).unwrap();
    assert_eq!(v.manifest_key.as_str(), "/src/lib.rs");
}
