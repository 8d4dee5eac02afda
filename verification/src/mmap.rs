//! Manifest mmap image (hot stat cache): the header, the stat hash table,
//! the directory index and children pool, the builder that lays them out
//! in a byte image, and the lookups that read an image.
use vstd::prelude::*;
use vstd::string::StringSliceAdditionalSpecFns;
use crate::text::utf8_str;

pub use crate::fnv::fnv1a_hash;

verus! {

/// Magic number of the manifest mmap file: "VMMP".
pub const MMAP_MAGIC: u32 = 0x504D4D56;

/// Current mmap format version.
pub const MMAP_VERSION: u32 = 1;

/// Maximum number of slots of the hash tables.
pub const MMAP_MAX_ENTRIES: usize = 65536;

/// Size of the bloom filter in bytes.
pub const BLOOM_SIZE: usize = 32768;

/// Size of the bloom filter in bits.
pub const BLOOM_BITS: usize = 262144;

/// Size of the serialized header.
pub const HEADER_SIZE: usize = 40;

/// Size of a serialized stat entry.
pub const STAT_ENTRY_SIZE: usize = 40;

/// Size of a serialized directory index entry.
pub const DIR_INDEX_ENTRY_SIZE: usize = 16;

/// Size of a serialized directory child.
pub const DIR_CHILD_SIZE: usize = 136;

/// Header of the mmap'd manifest file: `[Header][Bloom][Stat table][Dir index][Children]`.
#[derive(Debug, Clone, Copy)]
pub struct ManifestMmapHeader {
    pub magic: u32,
    pub version: u32,
    pub entry_count: u32,
    /// Offset of the bloom filter.
    pub bloom_offset: u32,
    /// Offset of the stat hash table.
    pub table_offset: u32,
    /// Number of slots of the stat hash table.
    pub table_capacity: u32,
    /// Offset of the directory index table.
    pub dir_index_offset: u32,
    /// Number of slots of the directory index table.
    pub dir_index_capacity: u32,
    /// Offset of the children pool.
    pub children_offset: u32,
    /// Total number of children.
    pub children_count: u32,
}

impl ManifestMmapHeader {
    /// Size of the header in bytes.
    pub const SIZE: usize = 40;

    /// A header whose sections follow each other: header, bloom filter,
    /// stat table, directory index, children.
    pub fn new(entry_count: u32, table_capacity: u32, dir_index_capacity: u32, children_count: u32) -> (h: Self)
        requires
            HEADER_SIZE + BLOOM_SIZE + table_capacity * STAT_ENTRY_SIZE + dir_index_capacity * DIR_INDEX_ENTRY_SIZE <= u32::MAX,
        ensures
            h.magic == MMAP_MAGIC && h.version == MMAP_VERSION,
            h.entry_count == entry_count && h.table_capacity == table_capacity,
            h.dir_index_capacity == dir_index_capacity && h.children_count == children_count,
            h.bloom_offset == HEADER_SIZE,
            h.table_offset == HEADER_SIZE + BLOOM_SIZE,
            h.dir_index_offset == HEADER_SIZE + BLOOM_SIZE + table_capacity * STAT_ENTRY_SIZE,
            h.children_offset == HEADER_SIZE + BLOOM_SIZE + table_capacity * STAT_ENTRY_SIZE
                + dir_index_capacity * DIR_INDEX_ENTRY_SIZE,
    {
        let bloom_offset: u32 = 40;
        let table_offset: u32 = bloom_offset + 32768;
        let dir_index_offset: u32 = table_offset + table_capacity * 40;
        let children_offset: u32 = dir_index_offset + dir_index_capacity * 16;
        ManifestMmapHeader {
            magic: MMAP_MAGIC,
            version: MMAP_VERSION,
            entry_count,
            bloom_offset,
            table_offset,
            table_capacity,
            dir_index_offset,
            dir_index_capacity,
            children_offset,
            children_count,
        }
    }

    /// Whether the header carries the magic and the current version.
    pub fn is_valid(&self) -> (r: bool)
        ensures
            r == (self.magic == MMAP_MAGIC && self.version == MMAP_VERSION),
    {
        self.magic == MMAP_MAGIC && self.version == MMAP_VERSION
    }
}

/// One stat entry of the hash table (open addressing, linear probing).
#[derive(Debug, Clone, Copy)]
pub struct MmapStatEntry {
    /// FNV-1a hash of the path (0 = empty slot).
    pub path_hash: u64,
    pub size: u64,
    pub mtime: i64,
    pub mtime_nsec: i64,
    pub mode: u32,
    /// Bit 0: directory; bit 1: symlink.
    pub flags: u32,
}

impl MmapStatEntry {
    /// Size of a serialized entry in bytes.
    pub const SIZE: usize = 40;

    /// An all-zero (empty) entry.
    pub fn zeroed() -> (e: Self)
        ensures
            e.path_hash == 0 && e.size == 0 && e.mtime == 0 && e.mtime_nsec == 0 && e.mode == 0 && e.flags == 0,
    {
        MmapStatEntry { path_hash: 0, size: 0, mtime: 0, mtime_nsec: 0, mode: 0, flags: 0 }
    }

    /// True if the slot is empty.
    pub fn is_empty(&self) -> (r: bool)
        ensures
            r == (self.path_hash == 0),
    {
        self.path_hash == 0
    }

    /// True if the directory bit is set.
    pub fn is_dir(&self) -> (r: bool)
        ensures
            r == (self.flags & 1 != 0),
    {
        (self.flags & 0x01) != 0
    }

    /// True if the symlink bit is set.
    pub fn is_symlink(&self) -> (r: bool)
        ensures
            r == (self.flags & 2 != 0),
    {
        (self.flags & 0x02) != 0
    }
}

/// Directory index entry (parent directory to its run of children).
#[derive(Debug, Clone, Copy)]
pub struct MmapDirIndexEntry {
    /// FNV-1a hash of the parent directory path.
    pub parent_hash: u64,
    /// Index of the first child in the children pool.
    pub children_start: u32,
    /// Number of children.
    pub children_count: u32,
}

impl MmapDirIndexEntry {
    /// Size of a serialized entry in bytes.
    pub const SIZE: usize = 16;
}

/// Child entry of a directory listing.
#[derive(Debug, Clone, Copy)]
pub struct MmapDirChild {
    /// Name (at most 127 bytes, NUL padded).
    pub name: [u8; 128],
    /// Slot of the child in the stat table.
    pub stat_index: u32,
    pub is_dir: u8,
    pub _pad: [u8; 3],
}

/// Length of the name: up to the first NUL byte, or the whole array.
pub open spec fn name_len(name: Seq<u8>) -> int {
    if exists|i: int| 0 <= i < name.len() && name[i] == 0 {
        choose|i: int| 0 <= i < name.len() && name[i] == 0 && forall|j: int| 0 <= j < i ==> name[j] != 0
    } else {
        name.len() as int
    }
}

impl MmapDirChild {
    /// Size of a serialized child in bytes.
    pub const SIZE: usize = 136;

    /// The name up to its first NUL byte, or the empty string if those
    /// bytes are not valid UTF-8.
    pub fn name_as_str(&self) -> (s: &str)
        ensures
            ({
                let n = self.name@.take(name_len(self.name@));
                &&& vstd::utf8::valid_utf8(n) ==> s.spec_bytes() == n
                &&& !vstd::utf8::valid_utf8(n) ==> s@ == ""@
            }),
    {
        let mut len: usize = 0;
        while len < 128 && self.name[len] != 0
            invariant
                0 <= len <= 128,
                self.name@.len() == 128,
                forall|j: int| 0 <= j < len ==> self.name@[j] != 0,
            decreases 128 - len,
        {
            len = len + 1;
        }
        proof {
            if len < 128 {
                assert(self.name@[len as int] == 0);
                let c = choose|i: int| 0 <= i < self.name@.len() && self.name@[i] == 0 && forall|j: int| 0 <= j < i ==> self.name@[j] != 0;
                if c < len { } else if c > len { assert(self.name@[len as int] != 0); }
            } else {
                assert forall|i: int| 0 <= i < self.name@.len() implies self.name@[i] != 0 by {}
            }
        }
        let (head, _) = self.name.as_slice().split_at(len);
        assert(head@ =~= self.name@.take(len as int));
        match utf8_str(head) {
            Some(s) => s,
            None => "",
        }
    }
}

/// Total size of an mmap image with the given capacities.
pub open spec fn mmap_file_size_spec(table_capacity: int, dir_index_capacity: int, children_count: int) -> int {
    HEADER_SIZE + BLOOM_SIZE + table_capacity * STAT_ENTRY_SIZE + dir_index_capacity * DIR_INDEX_ENTRY_SIZE
        + children_count * DIR_CHILD_SIZE
}

/// Total size of an mmap image with the given capacities.
pub fn mmap_file_size(table_capacity: usize, dir_index_capacity: usize, children_count: usize) -> (n: usize)
    requires
        mmap_file_size_spec(table_capacity as int, dir_index_capacity as int, children_count as int) <= usize::MAX,
    ensures
        n == mmap_file_size_spec(table_capacity as int, dir_index_capacity as int, children_count as int),
{
    HEADER_SIZE + BLOOM_SIZE + table_capacity * STAT_ENTRY_SIZE + dir_index_capacity * DIR_INDEX_ENTRY_SIZE
        + children_count * DIR_CHILD_SIZE
}

/// The two bloom hashes of the first `n` bytes: wrapping sums of
/// `byte * (i + 1)` and `byte * (i + 31)` over byte positions `i`.
pub open spec fn bloom_hashes_spec(b: Seq<u8>, n: int) -> (usize, usize)
    decreases n,
{
    if n <= 0 {
        (0, 0)
    } else {
        let (h1, h2) = bloom_hashes_spec(b, n - 1);
        (
            h1.wrapping_add((b[n - 1] as usize).wrapping_mul(n as usize)),
            h2.wrapping_add((b[n - 1] as usize).wrapping_mul((n + 30) as usize)),
        )
    }
}

/// Bloom filter hash pair of a path.
pub fn bloom_hashes(s: &str) -> (r: (usize, usize))
    requires
        s.spec_bytes().len() + 31 <= usize::MAX,
    ensures
        r == bloom_hashes_spec(s.spec_bytes(), s.spec_bytes().len() as int),
{
    let b = s.as_bytes();
    let mut h1: usize = 0;
    let mut h2: usize = 0;
    let mut i: usize = 0;
    while i < b.len()
        invariant
            b@.len() + 31 <= usize::MAX,
            0 <= i <= b@.len(),
            (h1, h2) == bloom_hashes_spec(b@, i as int),
        decreases b@.len() - i,
    {
        let x = b[i] as usize;
        h1 = h1.wrapping_add(x.wrapping_mul(i + 1));
        h2 = h2.wrapping_add(x.wrapping_mul(i + 31));
        i = i + 1;
    }
    (h1, h2)
}

} // verus!
