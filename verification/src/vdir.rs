//! VDir shared-memory layout: header and hash-table entries shared by the
//! daemon (writer) and the inception layer (reader).
use vstd::prelude::*;

verus! {

/// VDir magic number: "VRFT" in little-endian.
pub const VDIR_MAGIC: u32 = 0x56524654;

/// VDir format version (3: path string pool).
pub const VDIR_VERSION: u32 = 3;

/// Default hash table capacity (slots), a prime.
pub const VDIR_DEFAULT_CAPACITY: usize = 131101;

/// Default string pool capacity (8 MiB).
pub const VDIR_STRING_POOL_CAPACITY: usize = 8388608;

/// Size of one entry in bytes.
pub const VDIR_ENTRY_SIZE: usize = 72;

/// Size of the header in bytes.
pub const VDIR_HEADER_SIZE: usize = 64;

/// Entry has pending writes in staging.
pub const FLAG_DIRTY: u16 = 0x0001;
/// Entry has been logically deleted.
pub const FLAG_DELETED: u16 = 0x0002;
/// Entry is a symlink.
pub const FLAG_SYMLINK: u16 = 0x0004;
/// Entry is a directory.
pub const FLAG_DIR: u16 = 0x0008;

/// VDir header in shared memory (64 bytes).
#[derive(Debug, Clone, Copy)]
pub struct VDirHeader {
    pub magic: u32,
    pub version: u32,
    /// Seqlock generation counter.
    pub generation: u64,
    pub entry_count: u32,
    pub table_capacity: u32,
    pub table_offset: u32,
    /// CRC32 of the header fields before it.
    pub crc32: u32,
    /// Byte offset of the string pool.
    pub string_pool_offset: u32,
    /// Used bytes of the string pool.
    pub string_pool_size: u32,
    /// Allocated bytes of the string pool.
    pub string_pool_capacity: u32,
    pub _pad: [u8; 20],
}

/// One slot of the VDir hash table (72 bytes; open addressing, linear probing).
#[derive(Debug, Clone, Copy)]
pub struct VDirEntry {
    /// FNV-1a hash of the path (0 = empty slot).
    pub path_hash: u64,
    /// BLAKE3 content hash.
    pub cas_hash: [u8; 32],
    pub size: u64,
    pub mtime_sec: i64,
    pub mtime_nsec: u32,
    pub mode: u32,
    /// Offset of the path in the string pool (0 = none).
    pub path_offset: u32,
    /// `FLAG_*` bits.
    pub flags: u16,
    /// Length of the path string.
    pub path_len: u16,
}

impl VDirEntry {
    /// An all-zero (empty) slot.
    pub fn zeroed() -> (e: Self)
        ensures
            e.path_hash == 0 && e.flags == 0 && e.size == 0,
            e.cas_hash@ == Seq::new(32, |i: int| 0u8),
            e.mtime_sec == 0 && e.mtime_nsec == 0 && e.mode == 0,
            e.path_offset == 0 && e.path_len == 0,
    {
        let e = VDirEntry {
            path_hash: 0,
            cas_hash: [0u8; 32],
            size: 0,
            mtime_sec: 0,
            mtime_nsec: 0,
            mode: 0,
            path_offset: 0,
            flags: 0,
            path_len: 0,
        };
        assert(e.cas_hash@ =~= Seq::new(32, |i: int| 0u8));
        e
    }

    /// True if the slot was never written.
    pub fn is_empty(&self) -> (r: bool)
        ensures
            r == (self.path_hash == 0),
    {
        self.path_hash == 0
    }

    /// True if the entry has pending writes.
    pub fn is_dirty(&self) -> (r: bool)
        ensures
            r == (self.flags & FLAG_DIRTY != 0),
    {
        (self.flags & FLAG_DIRTY) != 0
    }

    /// True if the entry is a directory.
    pub fn is_dir(&self) -> (r: bool)
        ensures
            r == (self.flags & FLAG_DIR != 0),
    {
        (self.flags & FLAG_DIR) != 0
    }

    /// True if the entry has been logically deleted.
    pub fn is_deleted(&self) -> (r: bool)
        ensures
            r == (self.flags & FLAG_DELETED != 0),
    {
        (self.flags & FLAG_DELETED) != 0
    }

    /// True if the entry is a symlink.
    pub fn is_symlink(&self) -> (r: bool)
        ensures
            r == (self.flags & FLAG_SYMLINK != 0),
    {
        (self.flags & FLAG_SYMLINK) != 0
    }
}

} // verus!
