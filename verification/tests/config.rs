use vrift::config::is_switched_on;
use vrift::config::{canonical_or, project_root_of_manifest, socket_path_of, vfs_prefix_of};

#[test]
fn test_project_root_of_manifest() {
    assert_eq!(project_root_of_manifest("/home/u/proj/.vrift/manifest.lmdb"), "/home/u/proj");
    assert_eq!(project_root_of_manifest("/home/u/proj/.vrift"), "/home/u/proj");
    assert_eq!(project_root_of_manifest("/home/u/proj/manifest.lmdb"), "/home/u/proj");
    assert_eq!(project_root_of_manifest("/a/.vrift/x/m.lmdb"), "/a/.vrift/x");
    assert_eq!(project_root_of_manifest("/.vrift/m.lmdb"), "/");
    assert_eq!(project_root_of_manifest("/manifest.lmdb"), "/");
    assert_eq!(project_root_of_manifest("/"), "/");
    assert_eq!(project_root_of_manifest("manifest"), "");
}

#[test]
fn test_vfs_prefix_and_socket() {
    assert_eq!(vfs_prefix_of("/vrift/", None), "/vrift/");
    assert_eq!(vfs_prefix_of("/vrift/", Some("/private/vrift")), "/private/vrift");
    assert_eq!(canonical_or("/home/u/proj", Some("/data/proj")), "/data/proj");
    assert_eq!(canonical_or("/home/u/proj", None), "/home/u/proj");
    assert_eq!(socket_path_of(None), "/tmp/vrift.sock");
    assert_eq!(socket_path_of(Some("/run/v.sock")), "/run/v.sock");
}

#[test]
fn test_is_switched_on() {
    assert!(is_switched_on("1"));
    assert!(is_switched_on("true"));
    assert!(!is_switched_on("0"));
    assert!(!is_switched_on("TRUE"));
    assert!(!is_switched_on(""));
    assert!(!is_switched_on("truex"));
}
