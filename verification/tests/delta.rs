use vrift::delta::merged_len;
use vrift::delta::{merged_get, CommitOp, DeltaLayer, DeltaLookup};
use vrift::manifest::{compute_path_hash, AssetTier, ManifestEntry, VnodeEntry};

fn vnode(size: u64) -> VnodeEntry {
    VnodeEntry::new_file([3u8; 32], size, 1706448000, 0o644)
}

#[test]
fn test_delta_insert_lookup_remove() {
    let mut d = DeltaLayer::new();
    assert!(d.is_empty());
    d.insert("/app/main.py", vnode(1024), AssetTier::Tier2Mutable);
    let h = compute_path_hash("/app/main.py");
    match d.lookup(&h) {
        DeltaLookup::Hit(e) => {
            assert_eq!(e.vnode.size, 1024);
            assert!(!e.stale);
        }
        _ => panic!("expected hit"),
    }
    assert_eq!(d.path_of(&h), Some("/app/main.py".to_string()));
    d.remove("/app/main.py");
    assert!(matches!(d.lookup(&h), DeltaLookup::Whiteout));
    assert_eq!(d.path_of(&h), None);
    assert!(merged_get(d.lookup(&h), None).is_none());
}

#[test]
fn test_delta_override_and_miss() {
    let mut d = DeltaLayer::new();
    d.insert("/file.txt", vnode(100), AssetTier::Tier2Mutable);
    d.insert("/file.txt", vnode(200), AssetTier::Tier2Mutable);
    let h = compute_path_hash("/file.txt");
    let base = ManifestEntry { vnode: vnode(5), tier: AssetTier::Tier1Immutable, stale: false };
    assert_eq!(merged_get(d.lookup(&h), Some(base)).unwrap().vnode.size, 200);
    let other = compute_path_hash("/other");
    assert!(matches!(d.lookup(&other), DeltaLookup::Miss));
    assert_eq!(merged_get(d.lookup(&other), Some(base)).unwrap().vnode.size, 5);
}

#[test]
fn test_delta_mark_stale() {
    let mut d = DeltaLayer::new();
    let base = ManifestEntry { vnode: vnode(7), tier: AssetTier::Tier2Mutable, stale: false };
    d.mark_stale("/b.txt", Some(base), Some("/b.txt".to_string()));
    let h = compute_path_hash("/b.txt");
    match d.lookup(&h) {
        DeltaLookup::Hit(e) => assert!(e.stale && e.vnode.size == 7),
        _ => panic!("expected hit"),
    }
    d.insert("/c.txt", vnode(1), AssetTier::Tier2Mutable);
    d.mark_stale("/c.txt", None, None);
    match d.lookup(&compute_path_hash("/c.txt")) {
        DeltaLookup::Hit(e) => assert!(e.stale && e.vnode.size == 1),
        _ => panic!("expected hit"),
    }
    d.mark_stale("/none.txt", None, None);
    assert!(matches!(d.lookup(&compute_path_hash("/none.txt")), DeltaLookup::Miss));
}

#[test]
fn test_delta_commit_ops_and_clear() {
    let mut d = DeltaLayer::new();
    d.insert("/test.txt", vnode(512), AssetTier::Tier2Mutable);
    d.remove("/gone.txt");
    let ops = d.commit_ops();
    assert_eq!(ops.len(), 2);
    let puts = ops.iter().filter(|o| matches!(o, CommitOp::Put { .. })).count();
    assert_eq!(puts, 1);
    for op in &ops {
        if let CommitOp::Put { path, entry, .. } = op {
            assert_eq!(path.as_deref(), Some("/test.txt"));
            assert_eq!(entry.vnode.size, 512);
        }
    }
    d.clear();
    assert!(d.is_empty());
}

#[test]
fn test_delta_touched_and_merged_len() {
    let mut d = DeltaLayer::new();
    d.insert("/new.txt", vnode(1), AssetTier::Tier2Mutable);
    d.insert("/changed.txt", vnode(2), AssetTier::Tier2Mutable);
    d.remove("/gone.txt");
    let mut t = d.touched();
    t.sort();
    let mut expect = vec![
        (compute_path_hash("/new.txt"), true),
        (compute_path_hash("/changed.txt"), true),
        (compute_path_hash("/gone.txt"), false),
    ];
    expect.sort();
    assert_eq!(t, expect);
    // base holds /changed.txt and /gone.txt and one more entry: 3 entries
    let flags: Vec<(bool, bool)> = vec![(true, false), (true, true), (false, true)];
    assert_eq!(merged_len(3, &flags), Some(3));
    assert_eq!(merged_len(0, &[(false, true)]), None);
    assert_eq!(merged_len(5, &[]), Some(5));
}

#[test]
fn test_delta_listings() {
    let mut d = DeltaLayer::new();
    d.insert("/a", vnode(1), AssetTier::Tier2Mutable);
    d.remove("/b");
    let m = d.modified_listing();
    assert_eq!(m.len(), 1);
    assert_eq!(m[0].0, compute_path_hash("/a"));
    assert_eq!(m[0].1, "/a");
    assert_eq!(m[0].2.vnode.size, 1);
    let base_a = ManifestEntry { vnode: vnode(10), tier: AssetTier::Tier2Mutable, stale: false };
    let base_c = ManifestEntry { vnode: vnode(30), tier: AssetTier::Tier1Immutable, stale: false };
    let base = vec![
        (compute_path_hash("/a"), base_a, Some("/a".to_string())),
        (compute_path_hash("/b"), base_a, Some("/b".to_string())),
        (compute_path_hash("/c"), base_c, Some("/c".to_string())),
        (compute_path_hash("/d"), base_c, None),
    ];
    let u = d.untouched_listing(&base);
    assert_eq!(u.len(), 1);
    assert_eq!(u[0].0, "/c");
    assert_eq!(u[0].1.vnode.size, 30);
}
