use vrift::mmap::{fnv1a_hash, mmap_file_size, ManifestMmapHeader, MmapDirChild, MmapStatEntry, BLOOM_SIZE, MMAP_MAGIC};
use vrift::mmap_build::ManifestMmapBuilder;
use vrift::mmap_read::{mmap_dir_children, mmap_dir_listing, mmap_dir_lookup, mmap_lookup};

fn sample_builder() -> ManifestMmapBuilder {
    let mut b = ManifestMmapBuilder::new();
    b.add_entry("/proj/src", 0, 100, 0o755, true, false);
    b.add_entry("/proj/src/main.rs", 42, 1700000000, 0o644, false, false);
    b.add_entry("/proj/src/lib.rs", 7, 1700000001, 0o644, false, false);
    b.add_entry("/proj/link", 0, 5, 0o777, false, true);
    b
}

#[test]
fn test_builder_len() {
    let b = sample_builder();
    assert_eq!(b.len(), 4);
    assert!(!b.is_empty());
    assert!(ManifestMmapBuilder::new().is_empty());
}

#[test]
fn test_image_header_and_size() {
    let img = sample_builder().build_image();
    // 4 entries -> 1024 stat slots; 2 directories (/proj, /proj/src) -> 256 dir slots; 4 children
    assert_eq!(img.len(), mmap_file_size(1024, 256, 4));
    assert_eq!(img.len(), 40 + BLOOM_SIZE + 1024 * 40 + 256 * 16 + 4 * 136);
    assert_eq!(u32::from_le_bytes([img[0], img[1], img[2], img[3]]), MMAP_MAGIC);
    assert_eq!(u32::from_le_bytes([img[8], img[9], img[10], img[11]]), 4);
    assert_eq!(u32::from_le_bytes([img[20], img[21], img[22], img[23]]), 1024);
    assert_eq!(u32::from_le_bytes([img[28], img[29], img[30], img[31]]), 256);
    assert_eq!(u32::from_le_bytes([img[36], img[37], img[38], img[39]]), 4);
}

#[test]
fn test_lookup_finds_added_entries() {
    let img = sample_builder().build_image();
    let e = mmap_lookup(&img, "/proj/src/main.rs").unwrap();
    assert_eq!(e.size, 42);
    assert_eq!(e.mtime, 1700000000);
    assert_eq!(e.mode, 0o644);
    assert_eq!(e.path_hash, fnv1a_hash("/proj/src/main.rs"));
    assert!(!e.is_dir());
    let d = mmap_lookup(&img, "/proj/src").unwrap();
    assert!(d.is_dir());
    let l = mmap_lookup(&img, "/proj/link").unwrap();
    assert!(l.is_symlink());
    assert!(mmap_lookup(&img, "/proj/missing.rs").is_none());
}

#[test]
fn test_lookup_first_added_wins() {
    let mut b = ManifestMmapBuilder::new();
    b.add_entry("/a", 1, 0, 0, false, false);
    b.add_entry("/a", 2, 0, 0, false, false);
    let img = b.build_image();
    assert_eq!(mmap_lookup(&img, "/a").unwrap().size, 1);
}

#[test]
fn test_lookup_on_short_or_empty_image() {
    assert!(mmap_lookup(&[], "/x").is_none());
    assert!(mmap_lookup(&[0u8; 39], "/x").is_none());
    // a header with zero table capacity finds nothing
    assert!(mmap_lookup(&[0u8; 64], "/x").is_none());
}

#[test]
fn test_dir_listing_in_insertion_order() {
    let img = sample_builder().build_image();
    let listing = mmap_dir_listing(&img, "/proj/src").unwrap();
    let names: Vec<&str> = listing.iter().map(|d| d.name.as_str()).collect();
    assert_eq!(names, vec!["main.rs", "lib.rs"]);
    assert!(listing.iter().all(|d| !d.is_dir));
    let top = mmap_dir_listing(&img, "/proj").unwrap();
    let top_names: Vec<(&str, bool)> = top.iter().map(|d| (d.name.as_str(), d.is_dir)).collect();
    assert_eq!(top_names, vec![("src", true), ("link", false)]);
    assert!(mmap_dir_listing(&img, "/nowhere").is_none());
}

#[test]
fn test_dir_children_point_at_stat_slots() {
    let img = sample_builder().build_image();
    let (first, count) = mmap_dir_lookup(&img, "/proj/src").unwrap();
    assert_eq!(count, 2);
    let children: Vec<MmapDirChild> = mmap_dir_children(&img, "/proj/src").unwrap();
    assert_eq!(children.len(), 2);
    assert_eq!(children[0].name_as_str(), "main.rs");
    // the stat slot of a child holds its entry
    let slot = children[0].stat_index as usize;
    let off = 40 + BLOOM_SIZE + slot * 40;
    let hash = u64::from_le_bytes(img[off..off + 8].try_into().unwrap());
    assert_eq!(hash, fnv1a_hash("/proj/src/main.rs"));
    assert!(first as usize + 136 * count as usize <= img.len());
}

#[test]
fn test_root_parent_is_slash() {
    let mut b = ManifestMmapBuilder::new();
    b.add_entry("/top.txt", 3, 0, 0o644, false, false);
    b.add_entry("/", 0, 0, 0o755, true, false);
    let img = b.build_image();
    let listing = mmap_dir_listing(&img, "/").unwrap();
    assert_eq!(listing.len(), 1);
    assert_eq!(listing[0].name, "top.txt");
}

#[test]
fn test_long_child_name_is_truncated() {
    let mut b = ManifestMmapBuilder::new();
    let name = "n".repeat(200);
    b.add_entry(&format!("/d/{}", name), 1, 0, 0, false, false);
    let img = b.build_image();
    let listing = mmap_dir_listing(&img, "/d").unwrap();
    assert_eq!(listing[0].name.len(), 127);
}

#[test]
fn test_bloom_bits_set() {
    let mut b = ManifestMmapBuilder::new();
    b.add_entry("ab", 0, 0, 0, false, false);
    let img = b.build_image();
    let (h1, h2) = vrift::mmap::bloom_hashes("ab");
    // h1 = 'a'*1 + 'b'*2 = 97 + 196; h2 = 'a'*31 + 'b'*32
    assert_eq!(h1, 293);
    assert_eq!(h2, 97 * 31 + 98 * 32);
    let bloom = &img[40..40 + BLOOM_SIZE];
    assert_ne!(bloom[h1 / 8] & (1 << (h1 % 8)), 0);
    assert_ne!(bloom[h2 / 8] & (1 << (h2 % 8)), 0);
}

#[test]
fn test_header_new_offsets() {
    let h = ManifestMmapHeader::new(3, 1024, 256, 5);
    assert_eq!(h.bloom_offset, 40);
    assert_eq!(h.table_offset, 40 + 32768);
    assert_eq!(h.dir_index_offset, 40 + 32768 + 1024 * 40);
    assert_eq!(h.children_offset, 40 + 32768 + 1024 * 40 + 256 * 16);
    assert!(h.is_valid());
}

#[test]
fn test_stat_entry_flags() {
    let mut e = MmapStatEntry::zeroed();
    assert!(e.is_empty());
    e.flags = 3;
    assert!(e.is_dir() && e.is_symlink());
}

#[test]
fn test_builder_image_fits() {
    let mut b = vrift::mmap_build::ManifestMmapBuilder::new();
    assert!(b.image_fits());
    b.add_entry("/a/b", 1, 0, 0o644, false, false);
    assert!(b.image_fits());
    // 1024 stat slots, 256 directory slots, one child
    assert_eq!(b.build_image().len(), 40 + 32768 + 1024 * 40 + 256 * 16 + 136);
}
