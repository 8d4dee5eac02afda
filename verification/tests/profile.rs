use vrift::profile::json_escape;
use vrift::profile::{HotPathTable, VriftProfile};

#[test]
fn test_profile_new_is_zero() {
    let p = VriftProfile::new();
    assert_eq!(p.stat_calls, 0);
    assert_eq!(p.open_ns, 0);
    assert_eq!(p.init_ns, 0);
}

#[test]
fn test_hot_paths_accumulate_and_sort() {
    let mut t = HotPathTable::new();
    t.record(b"/a", 10);
    t.record(b"/b", 50);
    t.record(b"/a", 15);
    t.record(b"/c", 5);
    let top = t.collect_hot_paths(20);
    assert_eq!(top.len(), 3);
    assert_eq!(top[0], ("/b".to_string(), 50, 1));
    assert_eq!(top[1], ("/a".to_string(), 25, 2));
    assert_eq!(top[2], ("/c".to_string(), 5, 1));
    let top2 = t.collect_hot_paths(2);
    assert_eq!(top2.len(), 2);
    assert_eq!(top2[1].0, "/a");
}

#[test]
fn test_hot_paths_ignore_empty_and_truncate_name() {
    let mut t = HotPathTable::new();
    t.record(b"", 10);
    assert!(t.collect_hot_paths(5).is_empty());
    let long = vec![b'x'; 300];
    t.record(&long, 1);
    let top = t.collect_hot_paths(5);
    assert_eq!(top[0].0.len(), 127);
}

#[test]
fn test_hot_paths_ties_keep_slot_order() {
    let mut t = HotPathTable::new();
    t.record(b"/p", 7);
    t.record(b"/q", 7);
    let top = t.collect_hot_paths(10);
    assert_eq!(top.len(), 2);
    assert_eq!(top[0].1, 7);
    assert_eq!(top[1].1, 7);
}

#[test]
fn test_json_escape_path() {
    assert_eq!(json_escape("/a/b.rs"), "/a/b.rs");
    assert_eq!(json_escape("a\"b\\c"), "a\\\"b\\\\c");
    assert_eq!(json_escape(""), "");
    assert_eq!(json_escape("é\""), "é\\\"");
}
