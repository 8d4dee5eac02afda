use vrift::manifest::VnodeEntry;

#[test]
fn test_vnode_entry_size() {
    let entry = VnodeEntry::new_file([0u8; 32], 1024, 1706448000, 0o644);
    assert!(entry.is_file());
    assert!(!entry.is_dir());
}

#[test]
fn test_vnode_entry_kinds() {
    let dir = VnodeEntry::new_directory(5, 0o755);
    assert!(dir.is_dir());
    assert!(!dir.is_file());
    assert_eq!(dir.size, 0);
    assert_eq!(dir.flags, 1);
    let link = VnodeEntry::new_symlink([7u8; 32], 12, 9);
    assert!(link.is_symlink());
    assert!(!link.is_dir());
    assert_eq!(link.mode, 0o777);
    assert_eq!(link.size, 12);
    assert_eq!(link.content_hash, [7u8; 32]);
}
