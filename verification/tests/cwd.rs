use vrift::cwd::{real_dir, virtual_cwd};

#[test]
fn test_virtual_cwd_mapping() {
    assert_eq!(virtual_cwd("/home/u/proj", "/home/u/proj", "/vrift").as_deref(), Some("/vrift"));
    assert_eq!(virtual_cwd("/home/u/proj/src/bin", "/home/u/proj", "/vrift").as_deref(), Some("/vrift/src/bin"));
    assert_eq!(virtual_cwd("/home/u/proj/", "/home/u/proj", "/vrift").as_deref(), Some("/vrift"));
    // the root is matched as a plain text prefix, not at a component boundary
    assert_eq!(virtual_cwd("/home/u/projX", "/home/u/proj", "/vrift").as_deref(), Some("/vrift/X"));
    assert_eq!(virtual_cwd("/tmp", "/home/u/proj", "/vrift"), None);
    assert_eq!(virtual_cwd("/tmp", "", "/vrift"), None);
}

#[test]
fn test_real_dir_mapping() {
    assert_eq!(real_dir("/vrift/src", "/vrift", "/home/u/proj"), "/home/u/proj/src");
    assert_eq!(real_dir("/vrift", "/vrift", "/home/u/proj"), "/home/u/proj");
    assert_eq!(real_dir("/vrift/", "/vrift", "/home/u/proj"), "/home/u/proj");
    assert_eq!(real_dir("/elsewhere", "/vrift", "/home/u/proj"), "/home/u/proj");
    // round trip
    let v = virtual_cwd("/home/u/proj/a/b", "/home/u/proj", "/vrift").unwrap();
    assert_eq!(real_dir(&v, "/vrift", "/home/u/proj"), "/home/u/proj/a/b");
}
