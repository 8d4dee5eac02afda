use vrift::fd_table::{VirtualStat, RIFT_DEV};
use vrift::ipc::DirEntry;
use vrift::listing::{
    dirent_name_len, dirent_type, show_physical_entry, MergedListing, ReaddirStep, DT_DIR, DT_REG,
};
use vrift::manifest::VnodeEntry;
use vrift::mmap::MmapStatEntry;
use vrift::stat_route::{stat_after_manifest, stat_first_step, vnode_from_cache, StatStep};
use vrift::vdir::VDirEntry;

fn entry(name: &str, is_dir: bool) -> DirEntry {
    DirEntry { name: name.to_string(), is_dir }
}

#[test]
fn test_physical_entries_skip_dots_and_listed_names() {
    let listed = vec![entry("src", true), entry("Cargo.toml", false)];
    assert!(!show_physical_entry(&listed, "."));
    assert!(!show_physical_entry(&listed, ".."));
    assert!(!show_physical_entry(&listed, "src"));
    assert!(!show_physical_entry(&listed, "Cargo.toml"));
    assert!(show_physical_entry(&listed, "target"));
    assert!(show_physical_entry(&listed, ".git"));
    assert!(show_physical_entry(&[], "README.md"));
}

#[test]
fn test_dirent_type_and_name_len() {
    assert_eq!(dirent_type(true), DT_DIR);
    assert_eq!(dirent_type(false), DT_REG);
    assert_eq!(DT_DIR, 4);
    assert_eq!(DT_REG, 8);
    assert_eq!(dirent_name_len(5), 5);
    assert_eq!(dirent_name_len(1022), 1022);
    assert_eq!(dirent_name_len(1023), 1023);
    assert_eq!(dirent_name_len(5000), 1023);
}

#[test]
fn test_merged_listing_order() {
    assert!(MergedListing::open(Vec::new(), false).is_none());
    let mut l = MergedListing::open(vec![entry("a", false), entry("b", true)], true).unwrap();
    assert!(matches!(l.next_step(), ReaddirStep::Listed(0)));
    assert!(matches!(l.next_step(), ReaddirStep::Listed(1)));
    assert!(matches!(l.next_step(), ReaddirStep::Physical));
    assert!(matches!(l.next_step(), ReaddirStep::Physical));
    let mut only_listed = MergedListing::open(vec![entry("a", false)], false).unwrap();
    assert!(matches!(only_listed.next_step(), ReaddirStep::Listed(0)));
    assert!(matches!(only_listed.next_step(), ReaddirStep::End));
    let mut only_real = MergedListing::open(Vec::new(), true).unwrap();
    assert!(matches!(only_real.next_step(), ReaddirStep::Physical));
}

#[test]
fn test_stat_first_step() {
    let mut e = VDirEntry::zeroed();
    e.size = 42;
    e.mode = 0o100644;
    e.mtime_sec = 1_700_000_000;
    assert!(matches!(stat_first_step(true, true, Some(&e), 7), StatStep::StatStaging));
    assert!(matches!(stat_first_step(true, false, Some(&e), 7), StatStep::AskManifest));
    assert!(matches!(stat_first_step(false, true, None, 7), StatStep::AskManifest));
    match stat_first_step(false, false, Some(&e), 7) {
        StatStep::Listed(s) => {
            assert_eq!(
                s,
                VirtualStat { size: 42, mode: 0o100644, mtime_sec: 1_700_000_000, dev: RIFT_DEV, nlink: 1, ino: 7 }
            );
            assert_eq!(s.dev, 0x52494654);
        }
        _ => panic!("expected an answer from the listing"),
    }
}

#[test]
fn test_stat_from_manifest_entries() {
    let cached = MmapStatEntry { path_hash: 9, size: 10, mtime: 123, mtime_nsec: 5, mode: 0o755, flags: 1 };
    let v = vnode_from_cache(&cached);
    assert_eq!(v.content_hash, [0u8; 32]);
    assert_eq!(v.size, 10);
    assert_eq!(v.mtime, 123);
    assert_eq!(v.mode, 0o755);
    assert_eq!(v.flags, 1);
    assert_eq!(v._pad, 0);
    let s = stat_after_manifest(Some(&v), 99).unwrap();
    assert_eq!(s, VirtualStat { size: 10, mode: 0o755, mtime_sec: 123, dev: RIFT_DEV, nlink: 1, ino: 99 });
    let none: Option<&VnodeEntry> = None;
    assert!(stat_after_manifest(none, 99).is_none());
}

#[test]
fn test_vdir_entry_zeroed_slot() {
    let e = VDirEntry::zeroed();
    assert_eq!(e.path_hash, 0);
    assert_eq!(e.cas_hash, [0u8; 32]);
    assert_eq!((e.size, e.mtime_sec, e.mtime_nsec, e.mode), (0, 0, 0, 0));
    assert_eq!((e.path_offset, e.flags, e.path_len), (0, 0, 0));
    assert!(e.is_empty());
}
