//! Linux kernel structures used by the syscall layer: `open_how` of
//! `openat2` and the `statx` result with its timestamps.
use vstd::prelude::*;
use vstd::string::StringSliceAdditionalSpecFns;
use crate::fnv::{fnv1a_hash, fnv1a_spec};
use crate::manifest::VnodeEntry;

verus! {

/// Argument of `openat2`.
#[allow(non_camel_case_types)]
#[derive(Clone, Copy)]
pub struct open_how {
    pub flags: u64,
    pub mode: u64,
    pub resolve: u64,
}

/// Timestamp of a `statx` result.
#[allow(non_camel_case_types)]
#[derive(Clone, Copy)]
pub struct statx_timestamp {
    pub tv_sec: i64,
    pub tv_nsec: u32,
    pub __reserved: i32,
}

/// Result of `statx`.
#[allow(non_camel_case_types)]
#[derive(Clone, Copy)]
pub struct statx {
    pub stx_mask: u32,
    pub stx_blksize: u32,
    pub stx_attributes: u64,
    pub stx_nlink: u32,
    pub stx_uid: u32,
    pub stx_gid: u32,
    pub stx_mode: u16,
    pub __spare0: [u16; 1],
    pub stx_ino: u64,
    pub stx_size: u64,
    pub stx_blocks: u64,
    pub stx_attributes_mask: u64,
    pub stx_atime: statx_timestamp,
    pub stx_btime: statx_timestamp,
    pub stx_ctime: statx_timestamp,
    pub stx_mtime: statx_timestamp,
    pub stx_rdev_major: u32,
    pub stx_rdev_minor: u32,
    pub stx_dev_major: u32,
    pub stx_dev_minor: u32,
    pub __spare2: [u64; 14],
}

/// A zero timestamp.
pub fn zero_timestamp() -> (t: statx_timestamp)
    ensures
        t.tv_sec == 0 && t.tv_nsec == 0 && t.__reserved == 0,
{
    statx_timestamp { tv_sec: 0, tv_nsec: 0, __reserved: 0 }
}

/// Number of 512-byte blocks that hold `size` bytes (rounded up).
pub open spec fn blocks_of(size: u64) -> int {
    (size as int + 511) / 512
}

/// The `statx` result reported for a VFS file: basic-stats mask, size,
/// mode, the path's FNV-1a hash as inode, one link, the modification time,
/// 4096-byte blocks and the number of 512-byte blocks; all else zero.
pub fn virtual_statx(entry: &VnodeEntry, path: &str) -> (st: statx)
    ensures
        st.stx_mask == 0x7FF,
        st.stx_size == entry.size,
        st.stx_mode == entry.mode as u16,
        st.stx_ino == fnv1a_spec(path.spec_bytes()),
        st.stx_nlink == 1,
        st.stx_mtime.tv_sec == entry.mtime as i64,
        st.stx_mtime.tv_nsec == 0,
        st.stx_blksize == 4096,
        st.stx_blocks == blocks_of(entry.size),
        st.stx_attributes == 0 && st.stx_uid == 0 && st.stx_gid == 0 && st.stx_attributes_mask == 0,
        st.stx_atime.tv_sec == 0 && st.stx_btime.tv_sec == 0 && st.stx_ctime.tv_sec == 0,
        st.stx_rdev_major == 0 && st.stx_rdev_minor == 0 && st.stx_dev_major == 0 && st.stx_dev_minor == 0,
{
    let z = zero_timestamp();
    let blocks: u64 = entry.size / 512 + if entry.size % 512 != 0 { 1 } else { 0 };
    let mut mt = zero_timestamp();
    mt.tv_sec = entry.mtime as i64;
    statx {
        stx_mask: 0x7FF,
        stx_blksize: 4096,
        stx_attributes: 0,
        stx_nlink: 1,
        stx_uid: 0,
        stx_gid: 0,
        stx_mode: entry.mode as u16,
        __spare0: [0u16; 1],
        stx_ino: fnv1a_hash(path),
        stx_size: entry.size,
        stx_blocks: blocks,
        stx_attributes_mask: 0,
        stx_atime: z,
        stx_btime: z,
        stx_ctime: z,
        stx_mtime: mt,
        stx_rdev_major: 0,
        stx_rdev_minor: 0,
        stx_dev_major: 0,
        stx_dev_minor: 0,
        __spare2: [0u64; 14],
    }
}

} // verus!
