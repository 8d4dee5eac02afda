use vrift::state::{fnv1a_hash, DirtyTracker};

#[test]
fn test_mark_dirty_basic() {
    let mut tracker = DirtyTracker::new();
    assert!(!tracker.is_dirty("src/main.rs"));

    assert!(tracker.mark_dirty("src/main.rs"));
    assert!(tracker.is_dirty("src/main.rs"));
}

#[test]
fn test_clear_dirty() {
    let mut tracker = DirtyTracker::new();
    tracker.mark_dirty("src/lib.rs");
    assert!(tracker.is_dirty("src/lib.rs"));

    tracker.clear_dirty("src/lib.rs");
    assert!(!tracker.is_dirty("src/lib.rs"));
}

#[test]
fn test_multiple_paths() {
    let mut tracker = DirtyTracker::new();
    let paths = [
        "src/main.rs",
        "src/lib.rs",
        "Cargo.toml",
        "README.md",
        "tests/integration.rs",
    ];

    for path in &paths {
        tracker.mark_dirty(path);
    }

    for path in &paths {
        assert!(tracker.is_dirty(path), "Expected {} to be dirty", path);
    }

    assert!(!tracker.is_dirty("nonexistent.rs"));
}

#[test]
fn test_clear_nonexistent() {
    let mut tracker = DirtyTracker::new();
    tracker.clear_dirty("nonexistent.rs");
    assert!(!tracker.is_dirty("nonexistent.rs"));
}

#[test]
fn test_mark_same_path_twice() {
    let mut tracker = DirtyTracker::new();
    assert!(tracker.mark_dirty("src/main.rs"));
    assert!(tracker.mark_dirty("src/main.rs"));
    assert!(tracker.is_dirty("src/main.rs"));

    assert_eq!(tracker.count(), 1);
}

#[test]
fn test_count() {
    let mut tracker = DirtyTracker::new();
    assert_eq!(tracker.count(), 0);

    tracker.mark_dirty("file1.rs");
    assert_eq!(tracker.count(), 1);

    tracker.mark_dirty("file2.rs");
    assert_eq!(tracker.count(), 2);

    tracker.clear_dirty("file1.rs");
    assert_eq!(tracker.count(), 1);
}

#[test]
fn test_fnv1a_hash_deterministic() {
    let path = "src/main.rs";
    let h1 = fnv1a_hash(path);
    let h2 = fnv1a_hash(path);
    assert_eq!(h1, h2);
}

#[test]
fn test_fnv1a_hash_different_paths() {
    let h1 = fnv1a_hash("src/main.rs");
    let h2 = fnv1a_hash("src/lib.rs");
    assert_ne!(h1, h2);
}

#[test]
fn test_fnv1a_hash_empty_string() {
    let h = fnv1a_hash("");
    assert_ne!(h, 0);
}

#[test]
fn test_long_path() {
    let mut tracker = DirtyTracker::new();
    let long_path = "a".repeat(1000) + "/very/long/path/to/file.rs";

    assert!(tracker.mark_dirty(&long_path));
    assert!(tracker.is_dirty(&long_path));

    tracker.clear_dirty(&long_path);
    assert!(!tracker.is_dirty(&long_path));
}

#[test]
fn test_stress_many_entries() {
    let mut tracker = DirtyTracker::new();

    for i in 0..500 {
        let path = format!("file_{}.rs", i);
        assert!(tracker.mark_dirty(&path), "Failed to mark {}", path);
    }

    assert_eq!(tracker.count(), 500);

    for i in 0..500 {
        let path = format!("file_{}.rs", i);
        assert!(tracker.is_dirty(&path), "Expected {} to be dirty", path);
    }

    for i in 0..250 {
        let path = format!("file_{}.rs", i);
        tracker.clear_dirty(&path);
    }

    for i in 0..250 {
        let path = format!("file_{}.rs", i);
        assert!(!tracker.is_dirty(&path), "Expected {} to NOT be dirty", path);
    }

    for i in 250..500 {
        let path = format!("file_{}.rs", i);
        assert!(tracker.is_dirty(&path), "Expected {} to remain dirty", path);
    }
}

#[test]
fn test_fnv1a_known_values() {
    // FNV-1a 64 of the empty string is the offset basis; of "a" a known constant.
    assert_eq!(fnv1a_hash(""), 0xcbf29ce484222325);
    assert_eq!(fnv1a_hash("a"), 0xaf63dc4c8601ec8c);
}

#[test]
fn test_dirty_count_after_reinsert_over_tombstone() {
    let mut tracker = DirtyTracker::new();
    assert!(tracker.mark_dirty("x.rs"));
    tracker.clear_dirty("x.rs");
    assert_eq!(tracker.count(), 0);
    assert!(tracker.mark_dirty("x.rs"));
    assert_eq!(tracker.count(), 1);
    assert!(tracker.is_dirty("x.rs"));
}

#[test]
fn test_cleared_slots_are_reused_up_to_capacity() {
    let mut tracker = DirtyTracker::new();
    // fill every slot, then clear them all: the table holds only tombstones
    for i in 0..1024 {
        assert!(tracker.mark_dirty(&format!("first_{}.rs", i)));
    }
    assert_eq!(tracker.count(), 1024);
    assert!(!tracker.mark_dirty("one_too_many.rs"));
    assert!(tracker.mark_dirty("first_7.rs"));
    for i in 0..1024 {
        tracker.clear_dirty(&format!("first_{}.rs", i));
    }
    assert_eq!(tracker.count(), 0);
    // 1024 new paths fit again, and the next one does not
    for i in 0..1024 {
        let p = format!("second_{}.rs", i);
        assert!(tracker.mark_dirty(&p), "Failed to mark {}", p);
        assert!(tracker.is_dirty(&p));
    }
    assert_eq!(tracker.count(), 1024);
    assert!(!tracker.mark_dirty("overflow.rs"));
    for i in 0..1024 {
        assert!(tracker.is_dirty(&format!("second_{}.rs", i)));
        assert!(!tracker.is_dirty(&format!("first_{}.rs", i)));
    }
}
