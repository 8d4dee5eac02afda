use vrift::bytes::{contains, matches_at, prepend, starts_with, to_vec};
use vrift::fnv::fnv1a_hash_bytes;
use vrift::le::{get_u32, get_u64, write_bytes, write_u32, write_u64};
use vrift::manifest::{AssetTier, ManifestEntry, ManifestStats, VnodeEntry, VnodeFlags};
use vrift::mmap::MmapStatEntry;
use vrift::mmap_layout::{read_stat, write_stat};
use vrift::pack::same_hash;
use vrift::probe::{place_all, probe_at};
use vrift::sys_types::{virtual_statx, zero_timestamp};

#[test]
fn test_little_endian_fields() {
    let mut buf = vec![0xAAu8; 16];
    write_u32(&mut buf, 1, 0x0403_0201);
    assert_eq!(&buf[..6], &[0xAA, 1, 2, 3, 4, 0xAA]);
    assert_eq!(get_u32(&buf, 1), 0x0403_0201);
    write_u64(&mut buf, 8, 0x0807_0605_0403_0201);
    assert_eq!(&buf[8..], &[1, 2, 3, 4, 5, 6, 7, 8]);
    assert_eq!(get_u64(&buf, 8), 0x0807_0605_0403_0201);
    write_bytes(&mut buf, 0, b"xy");
    assert_eq!(&buf[..3], b"xy\x02");
}

#[test]
fn test_byte_helpers() {
    assert!(matches_at(b"abcdef", b"cd", 2));
    assert!(!matches_at(b"abcdef", b"cd", 3));
    assert!(contains(b"/p/.vrift/m", b"/.vrift/"));
    assert!(!contains(b"/p/vrift/m", b"/.vrift/"));
    assert!(contains(b"abc", b""));
    assert!(starts_with(b"/vrift/a", b"/vrift"));
    assert!(!starts_with(b"/vr", b"/vrift"));
    assert_eq!(prepend(b'/', b"ab"), b"/ab".to_vec());
    assert_eq!(to_vec(b"ab"), b"ab".to_vec());
    assert_eq!(fnv1a_hash_bytes(b""), 0xcbf29ce484222325);
    assert_eq!(fnv1a_hash_bytes(b"a"), 0xaf63dc4c8601ec8c);
    assert!(same_hash(&[5u8; 32], &[5u8; 32]));
    let mut other = [5u8; 32];
    other[31] = 6;
    assert!(!same_hash(&[5u8; 32], &other));
}

#[test]
fn test_vnode_kinds_and_stats() {
    assert_eq!(VnodeFlags::Directory.bits(), 1);
    assert_eq!(VnodeFlags::Executable.bits(), 3);
    let f = VnodeEntry::new_file([1u8; 32], 100, 0, 0o644);
    let d = VnodeEntry::new_directory(0, 0o755);
    let l = VnodeEntry::new_symlink([2u8; 32], 5, 0);
    assert!(f.is_file() && !f.is_dir() && !f.is_symlink() && !f.is_executable());
    assert!(d.is_dir() && !d.is_file() && !d.is_executable() && !d.is_symlink());
    assert!(l.is_symlink() && !l.is_file() && !l.is_executable() && !l.is_dir() && l.mode == 0o777);
    let mut x = VnodeEntry::new_file([3u8; 32], 1, 0, 0o755);
    x.flags = VnodeFlags::Executable.bits();
    assert!(x.is_executable() && !x.is_dir() && !x.is_symlink() && !x.is_file());
    let entries = vec![
        ManifestEntry { vnode: f, tier: AssetTier::Tier1Immutable, stale: false },
        ManifestEntry { vnode: d, tier: AssetTier::Tier2Mutable, stale: false },
        ManifestEntry { vnode: l, tier: AssetTier::Tier2Mutable, stale: true },
    ];
    let s = ManifestStats::from_entries(&entries);
    assert_eq!((s.file_count, s.dir_count, s.total_size, s.tier1_count, s.tier2_count), (2, 1, 105, 1, 2));
    let z = ManifestStats::default();
    assert_eq!(z.file_count + z.dir_count + z.total_size, 0);
}

#[test]
fn test_probing() {
    assert_eq!(probe_at(5, 8, 0), 5);
    assert_eq!(probe_at(5, 8, 4), 1);
    assert_eq!(probe_at(13, 8, 2), 7);
    // hashes 1, 9 and 1 collide in 8 slots: they take 1, 2 and 3
    let (owners, slots) = place_all(&vec![1, 9, 1], 8);
    assert_eq!(slots, vec![1, 2, 3]);
    assert_eq!(owners[1], Some(0));
    assert_eq!(owners[2], Some(1));
    assert_eq!(owners[3], Some(2));
    assert_eq!(owners[0], None);
}

#[test]
fn test_stat_entry_layout_roundtrip() {
    let e = MmapStatEntry { path_hash: 77, size: 12, mtime: -5, mtime_nsec: 9, mode: 0o644, flags: 1 };
    let mut buf = vec![0u8; 48];
    write_stat(&mut buf, 8, &e);
    let back = read_stat(&buf, 8);
    assert_eq!(
        (back.path_hash, back.size, back.mtime, back.mtime_nsec, back.mode, back.flags),
        (77, 12, -5, 9, 0o644, 1)
    );
    assert!(buf[..8].iter().all(|b| *b == 0));
    assert!(back.is_dir());
    assert!(!MmapStatEntry::zeroed().is_dir());
    assert!(MmapStatEntry::zeroed().is_empty());
}

#[test]
fn test_virtual_statx_fields() {
    let v = VnodeEntry::new_file([1u8; 32], 1000, 1706448000, 0o100644);
    let st = virtual_statx(&v, "/vrift/a");
    assert_eq!(st.stx_mask, 0x7FF);
    assert_eq!(st.stx_size, 1000);
    assert_eq!(st.stx_nlink, 1);
    assert_eq!(st.stx_ino, vrift::fnv::fnv1a_hash("/vrift/a"));
    assert_eq!(st.stx_mtime.tv_sec, 1706448000);
    assert_eq!(st.stx_blksize, 4096);
    assert_eq!(st.stx_blocks, 2);
    let z = zero_timestamp();
    assert_eq!((z.tv_sec, z.tv_nsec), (0, 0));
}

#[test]
fn test_stats_fit_and_image_accepted() {
    let big = VnodeEntry::new_file([1u8; 32], u64::MAX, 0, 0o644);
    let one = VnodeEntry::new_file([2u8; 32], 1, 0, 0o644);
    let dir = VnodeEntry::new_directory(0, 0o755);
    let e = |v: VnodeEntry| ManifestEntry { vnode: v, tier: AssetTier::Tier2Mutable, stale: false };
    assert!(vrift::manifest::stats_fit(&[e(big), e(dir)]));
    assert!(!vrift::manifest::stats_fit(&[e(big), e(one)]));
    assert!(vrift::manifest::stats_fit(&[]));

    let mut b = vrift::mmap_build::ManifestMmapBuilder::new();
    assert!(b.is_empty());
    b.add_entry("/p/a.rs", 3, 1, 0o644, false, false);
    b.add_entry("/p/a.rs", 4, 2, 0o644, false, false);
    assert_eq!(b.len(), 2);
    assert!(b.image_fits());
    let img = b.build_image();
    assert!(vrift::mmap_layout::accepts_image(&img));
    assert!(!vrift::mmap_layout::accepts_image(&img[..39]));
    let mut bad = img.clone();
    bad[0] ^= 0xff;
    assert!(!vrift::mmap_layout::accepts_image(&bad));
    // the first entry added under a path is the one found
    assert_eq!(vrift::mmap_read::mmap_lookup(&img, "/p/a.rs").unwrap().size, 3);
}
