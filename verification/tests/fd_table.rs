use vrift::fd_table::{close_task, fstat_source, virtual_stat, FdEntry, FdTable, FstatSource, RIFT_DEV};
use vrift::ring_buffer::Task;

#[test]
fn test_fd_table_track_untrack_count() {
    let mut t = FdTable::new();
    assert_eq!(t.open_count(), 0);
    assert!(t.track(3, FdEntry::new("/vrift/a", true, None, 7)).is_none());
    assert!(t.track(4, FdEntry::new("/tmp/b", false, None, 8)).is_none());
    assert_eq!(t.open_count(), 2);
    // re-tracking a descriptor replaces its entry, the count stays
    let old = t.track(3, FdEntry::new("/vrift/c", true, None, 9)).unwrap();
    assert_eq!(old.vpath.as_str(), "/vrift/a");
    assert_eq!(t.open_count(), 2);
    assert_eq!(t.get(3).unwrap().manifest_key.as_str(), "/vrift/c");
    assert!(t.is_vfs_fd(3));
    assert!(!t.is_vfs_fd(4));
    assert!(!t.is_vfs_fd(5));
    // negative descriptors are ignored
    assert!(t.track(-1, FdEntry::new("/x", true, None, 1)).is_none());
    assert!(t.get(-1).is_none());
    assert_eq!(t.open_count(), 2);
    assert!(t.untrack(3).is_some());
    assert!(t.untrack(3).is_none());
    assert!(t.get(3).is_none());
    assert_eq!(t.open_count(), 1);
}

#[test]
fn test_virtual_stat_and_fstat_source() {
    let s = virtual_stat(10, 0o100644, 1706448000, 42);
    assert_eq!(s.dev, RIFT_DEV);
    assert_eq!(s.dev, 0x52494654);
    assert_eq!(s.nlink, 1);
    assert_eq!(s.ino, 42);
    assert_eq!(s.size, 10);
    assert!(matches!(fstat_source(None), FstatSource::Passthrough));
    let cached = FdEntry::new("/vrift/a", true, Some(s), 42);
    assert!(matches!(fstat_source(Some(&cached)), FstatSource::Cached(x) if x == s));
    let plain_vfs = FdEntry::new("/vrift/a", true, None, 42);
    assert!(matches!(fstat_source(Some(&plain_vfs)), FstatSource::Daemon));
    let local = FdEntry::new("/tmp/a", false, None, 0);
    assert!(matches!(fstat_source(Some(&local)), FstatSource::Passthrough));
    let mut cow = FdEntry::new("/vrift/a", true, Some(s), 42);
    cow.temp_path.set("/tmp/staging");
    assert!(matches!(fstat_source(Some(&cow)), FstatSource::StagingFile));
}

#[test]
fn test_live_staging_entry() {
    let mut t = FdTable::new();
    t.track(3, FdEntry::new("/vrift/a", true, None, 1));
    assert!(t.live_staging_entry(b"/vrift/a").is_none());
    let mut cow = FdEntry::new("/vrift/a", true, None, 1);
    cow.temp_path.set("/p/.vrift/staging/vrift_cow_1_2_3_0.tmp");
    t.track(5, cow);
    let e = t.live_staging_entry(b"/vrift/a").unwrap();
    assert_eq!(e.temp_path.as_str(), "/p/.vrift/staging/vrift_cow_1_2_3_0.tmp");
    assert!(t.live_staging_entry(b"/vrift/b").is_none());
    assert!(t.live_staging_entry(b"/vrift/").is_none());
}

#[test]
fn test_fd_table_close_counts_every_descriptor() {
    let mut t = FdTable::new();
    t.track(3, FdEntry::new("/vrift/a", true, None, 1));
    t.track(4, FdEntry::new("/vrift/b", true, None, 2));
    // closing an untracked descriptor still lowers the count
    assert!(t.close(9).is_none());
    assert_eq!(t.open_count(), 1);
    let e = t.close(3).unwrap();
    assert_eq!(e.vpath.as_str(), "/vrift/a");
    assert_eq!(t.open_count(), 0);
    assert!(t.get(3).is_none());
    assert!(t.close(4).is_some());
    assert_eq!(t.open_count(), 0);
    // untracking below zero wraps, as the counter does
    let mut u = FdTable::new();
    u.track(5, FdEntry::new("/x", false, None, 0));
    u.close(6);
    assert_eq!(u.open_count(), 0);
    u.untrack(5);
    assert_eq!(u.open_count(), usize::MAX);
}

#[test]
fn test_close_hands_tracked_entries_to_reingest() {
    assert!(close_task(None).is_none());
    let mut e = FdEntry::new("/vrift/src/main.rs", true, None, 11);
    e.temp_path.set("/proj/.vrift/staging/1_2_3_0");
    match close_task(Some(e)) {
        Some(Task::Reingest { vpath, temp_path }) => {
            assert_eq!(vpath, "/vrift/src/main.rs");
            assert_eq!(temp_path, "/proj/.vrift/staging/1_2_3_0");
        }
        _ => panic!("expected a reingest task"),
    }
    let mut t = FdTable::new();
    t.track(9, FdEntry::new("/vrift/a", true, None, 1));
    let closed = t.close(9);
    assert!(matches!(close_task(closed), Some(Task::Reingest { .. })));
    assert!(close_task(t.close(9)).is_none());
}
