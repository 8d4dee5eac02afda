use vrift::open_route::{is_mutation_open, is_write_open, open_route, OpenRoute, O_APPEND, O_CREAT, O_RDWR, O_TRUNC, O_WRONLY};
use vrift::vdir::VDirEntry;

fn entry_with_content(mtime: i64) -> VDirEntry {
    let mut e = VDirEntry::zeroed();
    e.cas_hash[3] = 9;
    e.mtime_sec = mtime;
    e
}

#[test]
fn test_open_flags() {
    assert!(!is_write_open(0));
    assert!(is_write_open(O_WRONLY));
    assert!(is_write_open(O_RDWR));
    assert!(is_write_open(O_APPEND));
    assert!(is_write_open(O_TRUNC));
    assert!(!is_write_open(O_CREAT));
    assert!(is_mutation_open(O_CREAT));
    assert!(!is_mutation_open(O_APPEND));
}

#[test]
fn test_open_routes() {
    let e = entry_with_content(100);
    assert_eq!(open_route(true, Some(&e), None, false), OpenRoute::Daemon);
    assert_eq!(open_route(false, None, None, false), OpenRoute::Daemon);
    assert_eq!(open_route(false, Some(&VDirEntry::zeroed()), None, false), OpenRoute::Daemon);
    assert_eq!(open_route(false, Some(&e), None, false), OpenRoute::CasRead);
    assert_eq!(open_route(false, Some(&e), None, true), OpenRoute::CowWrite);
    assert_eq!(open_route(false, Some(&e), Some((101, 0)), false), OpenRoute::Physical);
    assert_eq!(open_route(false, Some(&e), Some((100, 1)), false), OpenRoute::Physical);
    assert_eq!(open_route(false, Some(&e), Some((100, 0)), true), OpenRoute::CowWrite);
    assert_eq!(open_route(false, Some(&e), Some((99, 5)), false), OpenRoute::CasRead);
}
