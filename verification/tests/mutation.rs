use vrift::fnv::fnv1a_hash;
use vrift::mutation::{
    fd_mutation_verdict, link_verdict, path_mutation_verdict, path_to_virtual_ino, rename_asks_daemon, rename_verdict,
    under_vfs_prefix, Verdict, EPERM, EXDEV, flock_request, LockRequest, LOCK_UN,
};

#[test]
fn test_rename_verdicts() {
    // across the boundary, either way
    assert_eq!(rename_verdict(true, false, true, true, true), Verdict::Fail(EXDEV));
    assert_eq!(rename_verdict(false, true, false, false, false), Verdict::Fail(EXDEV));
    // managed file renamed by the daemon
    assert_eq!(rename_verdict(true, true, true, true, true), Verdict::Succeed);
    assert_eq!(rename_verdict(true, true, true, true, false), Verdict::Fail(EPERM));
    // local file in the domain, or unresolved paths: the real call
    assert_eq!(rename_verdict(true, true, true, false, false), Verdict::Passthrough);
    assert_eq!(rename_verdict(true, true, false, true, true), Verdict::Passthrough);
    assert_eq!(rename_verdict(false, false, true, true, true), Verdict::Passthrough);
    assert!(rename_asks_daemon(true, true, true));
    assert!(!rename_asks_daemon(true, false, true));
    assert_eq!(EXDEV, 18);
    assert_eq!(EPERM, 1);
}

#[test]
fn test_link_and_mutation_verdicts() {
    assert_eq!(link_verdict(true, false, false), Verdict::Fail(EXDEV));
    assert_eq!(link_verdict(true, true, true), Verdict::Fail(EXDEV));
    assert_eq!(link_verdict(true, true, false), Verdict::Passthrough);
    assert_eq!(link_verdict(false, false, true), Verdict::Passthrough);
    assert_eq!(path_mutation_verdict(false, true, true, true), Verdict::Passthrough);
    assert_eq!(path_mutation_verdict(true, true, true, false), Verdict::Fail(EPERM));
    assert_eq!(path_mutation_verdict(true, true, false, true), Verdict::Passthrough);
    assert_eq!(path_mutation_verdict(true, false, false, true), Verdict::Fail(EPERM));
    assert_eq!(path_mutation_verdict(true, false, true, false), Verdict::Passthrough);
    assert_eq!(fd_mutation_verdict(false, true), Verdict::Fail(EPERM));
    assert_eq!(fd_mutation_verdict(false, false), Verdict::Passthrough);
}

#[test]
fn test_under_vfs_prefix_and_ino() {
    assert!(under_vfs_prefix("/vrift/a", Some("/vrift")));
    assert!(under_vfs_prefix("/vriftx", Some("/vrift")));
    assert!(!under_vfs_prefix("/etc", Some("/vrift")));
    assert!(!under_vfs_prefix("/vrift/a", None));
    assert!(under_vfs_prefix("/anything", Some("")));
    assert_eq!(path_to_virtual_ino("/a/b"), fnv1a_hash("/a/b"));
    assert_eq!(path_to_virtual_ino(""), 0xcbf29ce484222325);
}

#[test]
fn test_flock_requests() {
    // LOCK_SH = 1, LOCK_EX = 2, LOCK_NB = 4, LOCK_UN = 8
    assert_eq!(LOCK_UN, 8);
    assert_eq!(flock_request(1), LockRequest::Acquire(1));
    assert_eq!(flock_request(2 | 4), LockRequest::Acquire(6));
    assert_eq!(flock_request(8), LockRequest::Release);
    assert_eq!(flock_request(8 | 4), LockRequest::Release);
}
