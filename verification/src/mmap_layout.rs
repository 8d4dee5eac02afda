//! Byte layout of the records of the manifest mmap image (little-endian,
//! `repr(C)` field order): what it means for a record to be stored at an
//! offset, how records are written, and how they are read back.
use vstd::prelude::*;
use crate::le::{holds_at, le_u32, le_u64, read_u32, read_u64, lemma_read_u32, lemma_read_u64, write_u32, write_u64, get_u32, get_u64};
use crate::mmap::{ManifestMmapHeader, MmapStatEntry, MmapDirIndexEntry, MmapDirChild};

verus! {

/// The stat entry `e` is stored at `off`.
pub open spec fn stat_at(b: Seq<u8>, off: int, e: MmapStatEntry) -> bool {
    &&& holds_at(b, off, le_u64(e.path_hash))
    &&& holds_at(b, off + 8, le_u64(e.size))
    &&& holds_at(b, off + 16, le_u64(e.mtime as u64))
    &&& holds_at(b, off + 24, le_u64(e.mtime_nsec as u64))
    &&& holds_at(b, off + 32, le_u32(e.mode))
    &&& holds_at(b, off + 36, le_u32(e.flags))
}

/// The stat entry stored at `off`.
pub open spec fn parse_stat(b: Seq<u8>, off: int) -> MmapStatEntry {
    MmapStatEntry {
        path_hash: read_u64(b, off),
        size: read_u64(b, off + 8),
        mtime: read_u64(b, off + 16) as i64,
        mtime_nsec: read_u64(b, off + 24) as i64,
        mode: read_u32(b, off + 32),
        flags: read_u32(b, off + 36),
    }
}

/// The directory index entry `d` is stored at `off`.
pub open spec fn dir_entry_at(b: Seq<u8>, off: int, d: MmapDirIndexEntry) -> bool {
    &&& holds_at(b, off, le_u64(d.parent_hash))
    &&& holds_at(b, off + 8, le_u32(d.children_start))
    &&& holds_at(b, off + 12, le_u32(d.children_count))
}

/// The directory index entry stored at `off`.
pub open spec fn parse_dir_entry(b: Seq<u8>, off: int) -> MmapDirIndexEntry {
    MmapDirIndexEntry {
        parent_hash: read_u64(b, off),
        children_start: read_u32(b, off + 8),
        children_count: read_u32(b, off + 12),
    }
}

/// The directory child `c` is stored at `off`.
pub open spec fn child_at(b: Seq<u8>, off: int, c: MmapDirChild) -> bool {
    &&& holds_at(b, off, c.name@)
    &&& holds_at(b, off + 128, le_u32(c.stat_index))
    &&& holds_at(b, off + 132, seq![c.is_dir])
    &&& holds_at(b, off + 133, c._pad@)
}

/// The header `h` is stored at offset 0.
pub open spec fn header_at(b: Seq<u8>, h: ManifestMmapHeader) -> bool {
    &&& holds_at(b, 0, le_u32(h.magic))
    &&& holds_at(b, 4, le_u32(h.version))
    &&& holds_at(b, 8, le_u32(h.entry_count))
    &&& holds_at(b, 12, le_u32(h.bloom_offset))
    &&& holds_at(b, 16, le_u32(h.table_offset))
    &&& holds_at(b, 20, le_u32(h.table_capacity))
    &&& holds_at(b, 24, le_u32(h.dir_index_offset))
    &&& holds_at(b, 28, le_u32(h.dir_index_capacity))
    &&& holds_at(b, 32, le_u32(h.children_offset))
    &&& holds_at(b, 36, le_u32(h.children_count))
}

/// The header stored at offset 0.
pub open spec fn parse_header(b: Seq<u8>) -> ManifestMmapHeader {
    ManifestMmapHeader {
        magic: read_u32(b, 0),
        version: read_u32(b, 4),
        entry_count: read_u32(b, 8),
        bloom_offset: read_u32(b, 12),
        table_offset: read_u32(b, 16),
        table_capacity: read_u32(b, 20),
        dir_index_offset: read_u32(b, 24),
        dir_index_capacity: read_u32(b, 28),
        children_offset: read_u32(b, 32),
        children_count: read_u32(b, 36),
    }
}

/// Bytes outside `[lo, hi)` are unchanged.
pub open spec fn same_outside(a: Seq<u8>, b: Seq<u8>, lo: int, hi: int) -> bool {
    &&& a.len() == b.len()
    &&& forall|j: int| 0 <= j < a.len() && !(lo <= j < hi) ==> #[trigger] b[j] == a[j]
}

/// A stored value stays stored while its bytes are unchanged.
pub proof fn lemma_holds_kept(a: Seq<u8>, b: Seq<u8>, off: int, v: Seq<u8>, lo: int, hi: int)
    requires
        holds_at(a, off, v),
        same_outside(a, b, lo, hi),
        off + v.len() <= lo || hi <= off,
    ensures
        holds_at(b, off, v),
{
    assert forall|j: int| 0 <= j < v.len() implies #[trigger] b[off + j] == v[j] by {
        assert(b[off + j] == a[off + j]);
    }
}

pub proof fn lemma_parse_stat(b: Seq<u8>, off: int, e: MmapStatEntry)
    requires
        stat_at(b, off, e),
    ensures
        parse_stat(b, off) == e,
{
    lemma_read_u64(b, off, e.path_hash);
    lemma_read_u64(b, off + 8, e.size);
    lemma_read_u64(b, off + 16, e.mtime as u64);
    lemma_read_u64(b, off + 24, e.mtime_nsec as u64);
    lemma_read_u32(b, off + 32, e.mode);
    lemma_read_u32(b, off + 36, e.flags);
    let m = e.mtime;
    let n = e.mtime_nsec;
    assert((m as u64) as i64 == m) by (bit_vector);
    assert((n as u64) as i64 == n) by (bit_vector);
}

pub proof fn lemma_parse_dir_entry(b: Seq<u8>, off: int, d: MmapDirIndexEntry)
    requires
        dir_entry_at(b, off, d),
    ensures
        parse_dir_entry(b, off) == d,
{
    lemma_read_u64(b, off, d.parent_hash);
    lemma_read_u32(b, off + 8, d.children_start);
    lemma_read_u32(b, off + 12, d.children_count);
}

pub proof fn lemma_parse_header(b: Seq<u8>, h: ManifestMmapHeader)
    requires
        header_at(b, h),
    ensures
        parse_header(b) == h,
{
    lemma_read_u32(b, 0, h.magic);
    lemma_read_u32(b, 4, h.version);
    lemma_read_u32(b, 8, h.entry_count);
    lemma_read_u32(b, 12, h.bloom_offset);
    lemma_read_u32(b, 16, h.table_offset);
    lemma_read_u32(b, 20, h.table_capacity);
    lemma_read_u32(b, 24, h.dir_index_offset);
    lemma_read_u32(b, 28, h.dir_index_capacity);
    lemma_read_u32(b, 32, h.children_offset);
    lemma_read_u32(b, 36, h.children_count);
}

/// Store a stat entry at `off`.
pub fn write_stat(buf: &mut Vec<u8>, off: usize, e: &MmapStatEntry)
    requires
        off + 40 <= old(buf)@.len(),
    ensures
        stat_at(final(buf)@, off as int, *e),
        same_outside(old(buf)@, final(buf)@, off as int, off + 40),
{
    let _len: usize = buf.len();
    let ghost b0 = buf@;
    write_u64(buf, off, e.path_hash);
    let ghost b1 = buf@;
    write_u64(buf, off + 8, e.size);
    let ghost b2 = buf@;
    write_u64(buf, off + 16, e.mtime as u64);
    let ghost b3 = buf@;
    write_u64(buf, off + 24, e.mtime_nsec as u64);
    let ghost b4 = buf@;
    write_u32(buf, off + 32, e.mode);
    let ghost b5 = buf@;
    write_u32(buf, off + 36, e.flags);
    proof {
        let b6 = buf@;
        let o = off as int;
        lemma_holds_kept(b1, b2, o, le_u64(e.path_hash), o + 8, o + 16);
        lemma_holds_kept(b2, b3, o, le_u64(e.path_hash), o + 16, o + 24);
        lemma_holds_kept(b3, b4, o, le_u64(e.path_hash), o + 24, o + 32);
        lemma_holds_kept(b4, b5, o, le_u64(e.path_hash), o + 32, o + 36);
        lemma_holds_kept(b5, b6, o, le_u64(e.path_hash), o + 36, o + 40);
        lemma_holds_kept(b2, b3, o + 8, le_u64(e.size), o + 16, o + 24);
        lemma_holds_kept(b3, b4, o + 8, le_u64(e.size), o + 24, o + 32);
        lemma_holds_kept(b4, b5, o + 8, le_u64(e.size), o + 32, o + 36);
        lemma_holds_kept(b5, b6, o + 8, le_u64(e.size), o + 36, o + 40);
        lemma_holds_kept(b3, b4, o + 16, le_u64(e.mtime as u64), o + 24, o + 32);
        lemma_holds_kept(b4, b5, o + 16, le_u64(e.mtime as u64), o + 32, o + 36);
        lemma_holds_kept(b5, b6, o + 16, le_u64(e.mtime as u64), o + 36, o + 40);
        lemma_holds_kept(b4, b5, o + 24, le_u64(e.mtime_nsec as u64), o + 32, o + 36);
        lemma_holds_kept(b5, b6, o + 24, le_u64(e.mtime_nsec as u64), o + 36, o + 40);
        lemma_holds_kept(b5, b6, o + 32, le_u32(e.mode), o + 36, o + 40);
    }
}

/// Store a directory index entry at `off`.
pub fn write_dir_entry(buf: &mut Vec<u8>, off: usize, d: &MmapDirIndexEntry)
    requires
        off + 16 <= old(buf)@.len(),
    ensures
        dir_entry_at(final(buf)@, off as int, *d),
        same_outside(old(buf)@, final(buf)@, off as int, off + 16),
{
    let _len: usize = buf.len();
    write_u64(buf, off, d.parent_hash);
    let ghost b1 = buf@;
    write_u32(buf, off + 8, d.children_start);
    let ghost b2 = buf@;
    write_u32(buf, off + 12, d.children_count);
    proof {
        let b3 = buf@;
        let o = off as int;
        lemma_holds_kept(b1, b2, o, le_u64(d.parent_hash), o + 8, o + 12);
        lemma_holds_kept(b2, b3, o, le_u64(d.parent_hash), o + 12, o + 16);
        lemma_holds_kept(b2, b3, o + 8, le_u32(d.children_start), o + 12, o + 16);
    }
}

/// Store a directory child at `off`.
pub fn write_child(buf: &mut Vec<u8>, off: usize, c: &MmapDirChild)
    requires
        off + 136 <= old(buf)@.len(),
    ensures
        child_at(final(buf)@, off as int, *c),
        same_outside(old(buf)@, final(buf)@, off as int, off + 136),
{
    let _len: usize = buf.len();
    crate::le::write_bytes(buf, off, c.name.as_slice());
    let ghost b1 = buf@;
    write_u32(buf, off + 128, c.stat_index);
    let ghost b2 = buf@;
    let flag: [u8; 1] = [c.is_dir];
    crate::le::write_bytes(buf, off + 132, flag.as_slice());
    let ghost b3 = buf@;
    crate::le::write_bytes(buf, off + 133, c._pad.as_slice());
    proof {
        let b4 = buf@;
        let o = off as int;
        assert(flag@ =~= seq![c.is_dir]);
        lemma_holds_kept(b1, b2, o, c.name@, o + 128, o + 132);
        lemma_holds_kept(b2, b3, o, c.name@, o + 132, o + 133);
        lemma_holds_kept(b3, b4, o, c.name@, o + 133, o + 136);
        lemma_holds_kept(b2, b3, o + 128, le_u32(c.stat_index), o + 132, o + 133);
        lemma_holds_kept(b3, b4, o + 128, le_u32(c.stat_index), o + 133, o + 136);
        lemma_holds_kept(b3, b4, o + 132, seq![c.is_dir], o + 133, o + 136);
    }
}

/// Store the header at offset 0.
pub fn write_header(buf: &mut Vec<u8>, h: &ManifestMmapHeader)
    requires
        40 <= old(buf)@.len(),
    ensures
        header_at(final(buf)@, *h),
        same_outside(old(buf)@, final(buf)@, 0, 40),
{
    let ghost b0 = buf@;
    write_u32(buf, 0, h.magic);
    let ghost b1 = buf@;
    write_u32(buf, 4, h.version);
    let ghost b2 = buf@;
    write_u32(buf, 8, h.entry_count);
    let ghost b3 = buf@;
    write_u32(buf, 12, h.bloom_offset);
    let ghost b4 = buf@;
    write_u32(buf, 16, h.table_offset);
    let ghost b5 = buf@;
    write_u32(buf, 20, h.table_capacity);
    let ghost b6 = buf@;
    write_u32(buf, 24, h.dir_index_offset);
    let ghost b7 = buf@;
    write_u32(buf, 28, h.dir_index_capacity);
    let ghost b8 = buf@;
    write_u32(buf, 32, h.children_offset);
    let ghost b9 = buf@;
    write_u32(buf, 36, h.children_count);
    proof {
        let b10 = buf@;
        lemma_same_outside_trans(b8, b9, b10, 32, 36, 40);
        lemma_same_outside_trans(b7, b8, b10, 28, 32, 40);
        lemma_same_outside_trans(b6, b7, b10, 24, 28, 40);
        lemma_same_outside_trans(b5, b6, b10, 20, 24, 40);
        lemma_same_outside_trans(b4, b5, b10, 16, 20, 40);
        lemma_same_outside_trans(b3, b4, b10, 12, 16, 40);
        lemma_same_outside_trans(b2, b3, b10, 8, 12, 40);
        lemma_same_outside_trans(b1, b2, b10, 4, 8, 40);
        lemma_holds_kept(b1, b10, 0, le_u32(h.magic), 4, 40);
        lemma_holds_kept(b2, b10, 4, le_u32(h.version), 8, 40);
        lemma_holds_kept(b3, b10, 8, le_u32(h.entry_count), 12, 40);
        lemma_holds_kept(b4, b10, 12, le_u32(h.bloom_offset), 16, 40);
        lemma_holds_kept(b5, b10, 16, le_u32(h.table_offset), 20, 40);
        lemma_holds_kept(b6, b10, 20, le_u32(h.table_capacity), 24, 40);
        lemma_holds_kept(b7, b10, 24, le_u32(h.dir_index_offset), 28, 40);
        lemma_holds_kept(b8, b10, 28, le_u32(h.dir_index_capacity), 32, 40);
        lemma_holds_kept(b9, b10, 32, le_u32(h.children_offset), 36, 40);
    }
}

/// Two adjacent changed ranges make one.
pub proof fn lemma_same_outside_trans(a: Seq<u8>, b: Seq<u8>, c: Seq<u8>, lo: int, mid: int, hi: int)
    requires
        same_outside(a, b, lo, mid),
        same_outside(b, c, mid, hi),
        lo <= mid <= hi,
    ensures
        same_outside(a, c, lo, hi),
{
    assert forall|j: int| 0 <= j < a.len() && !(lo <= j < hi) implies #[trigger] c[j] == a[j] by {
        assert(c[j] == b[j]);
    }
}

/// Read the stat entry at `off`.
pub fn read_stat(b: &[u8], off: usize) -> (e: MmapStatEntry)
    requires
        off + 40 <= b@.len(),
    ensures
        e == parse_stat(b@, off as int),
{
    let _len: usize = b.len();
    MmapStatEntry {
        path_hash: get_u64(b, off),
        size: get_u64(b, off + 8),
        mtime: get_u64(b, off + 16) as i64,
        mtime_nsec: get_u64(b, off + 24) as i64,
        mode: get_u32(b, off + 32),
        flags: get_u32(b, off + 36),
    }
}

/// Read the directory index entry at `off`.
pub fn read_dir_entry(b: &[u8], off: usize) -> (d: MmapDirIndexEntry)
    requires
        off + 16 <= b@.len(),
    ensures
        d == parse_dir_entry(b@, off as int),
{
    let _len: usize = b.len();
    MmapDirIndexEntry {
        parent_hash: get_u64(b, off),
        children_start: get_u32(b, off + 8),
        children_count: get_u32(b, off + 12),
    }
}

/// Whether mapped bytes are taken as a stat cache image: they hold a whole
/// header, and it carries the magic and the current version.
pub fn accepts_image(b: &[u8]) -> (r: bool)
    ensures
        r == (b@.len() >= 40 && parse_header(b@).magic == crate::mmap::MMAP_MAGIC
            && parse_header(b@).version == crate::mmap::MMAP_VERSION),
{
    if b.len() < 40 {
        return false;
    }
    read_header(b).is_valid()
}

/// Read the header at offset 0.
pub fn read_header(b: &[u8]) -> (h: ManifestMmapHeader)
    requires
        40 <= b@.len(),
    ensures
        h == parse_header(b@),
{
    ManifestMmapHeader {
        magic: get_u32(b, 0),
        version: get_u32(b, 4),
        entry_count: get_u32(b, 8),
        bloom_offset: get_u32(b, 12),
        table_offset: get_u32(b, 16),
        table_capacity: get_u32(b, 20),
        dir_index_offset: get_u32(b, 24),
        dir_index_capacity: get_u32(b, 28),
        children_offset: get_u32(b, 32),
        children_count: get_u32(b, 36),
    }
}

} // verus!
