//! Lookups in a manifest mmap image: the stat of a path and the children
//! of a directory, by linear probing from the FNV-1a hash of the path.
use vstd::prelude::*;
use vstd::string::StringSliceAdditionalSpecFns;
use crate::fnv::fnv1a_hash;
use crate::le::{read_u32, read_u64, get_u32, get_u64};
use crate::mmap::{MmapStatEntry, MmapDirChild, MMAP_MAGIC, MMAP_VERSION};
use crate::mmap_layout::{parse_dir_entry, parse_header, parse_stat, read_dir_entry, read_header, read_stat};
use crate::mmap::{MMAP_MAX_ENTRIES, name_len};
use crate::ipc::DirEntry;
use crate::mmap_build::{text_hash, ManifestMmapBuilder, image_header, table_offset, table_entry, dir_table_entry,
    stat_hashes, dir_hashes, group_start, key_count, group_of, group_keys, child_pos, child_name, name_field,
    dir_byte, child_fields_at, lemma_group_keys_distinct, lemma_key_count_mono, lemma_key_count_le};
use crate::mmap_layout::{lemma_parse_header, lemma_parse_stat, lemma_parse_dir_entry, stat_at};
use crate::probe::{lookup_from, probe_at, first_index_from, owner_keys, placement, placement_inv,
    lemma_placement_inv, lemma_lookup_placement, lemma_live_inv, lemma_lookup_placement_any, lemma_first_index_some, lemma_first_index_none, chosen_slot};
use crate::le::{holds_at, lemma_read_u32};
use vstd::utf8::encode_utf8;

verus! {

/// Path hashes of the `cap` stat slots at `toff`.
pub open spec fn stat_keys(img: Seq<u8>, toff: int, cap: int) -> Seq<u64> {
    Seq::new(cap as nat, |s: int| read_u64(img, toff + 40 * s))
}

/// Empty stat slots (path hash 0).
pub open spec fn stat_empty(img: Seq<u8>, toff: int, cap: int) -> Seq<bool> {
    Seq::new(cap as nat, |s: int| read_u64(img, toff + 40 * s) == 0)
}

/// Parent hashes of the `cap` directory index slots at `doff`.
pub open spec fn dir_keys(img: Seq<u8>, doff: int, cap: int) -> Seq<u64> {
    Seq::new(cap as nat, |s: int| read_u64(img, doff + 16 * s))
}

/// Empty directory index slots (parent hash 0 and no children).
pub open spec fn dir_empty(img: Seq<u8>, doff: int, cap: int) -> Seq<bool> {
    Seq::new(cap as nat, |s: int| read_u64(img, doff + 16 * s) == 0 && read_u32(img, doff + 16 * s + 12) == 0)
}

/// Stat entry of the path with hash `h` in the image: none if the image is
/// shorter than a header, its stat table is empty or lies outside the
/// image, or probing reaches an empty slot before a slot holding `h`.
pub open spec fn stat_lookup(img: Seq<u8>, h: u64) -> Option<MmapStatEntry> {
    if img.len() < 40 {
        None
    } else {
        let hdr = parse_header(img);
        let cap = hdr.table_capacity as int;
        let toff = hdr.table_offset as int;
        if cap == 0 || toff + 40 * cap > img.len() {
            None
        } else {
            match lookup_from(stat_keys(img, toff, cap), stat_empty(img, toff, cap), h, cap, 0) {
                Some(s) => Some(parse_stat(img, toff + 40 * s)),
                None => None,
            }
        }
    }
}

/// Children run of the directory with hash `h`: the offset of its first
/// child and the number of children. None if the image is shorter than a
/// header, has a wrong magic or version, its directory index is empty or
/// lies outside the image, or probing reaches an empty slot first.
pub open spec fn dir_lookup(img: Seq<u8>, h: u64) -> Option<(u64, u32)> {
    if img.len() < 40 {
        None
    } else {
        let hdr = parse_header(img);
        let cap = hdr.dir_index_capacity as int;
        let doff = hdr.dir_index_offset as int;
        if !(hdr.magic == MMAP_MAGIC && hdr.version == MMAP_VERSION) || cap == 0 || doff + 16 * cap > img.len() {
            None
        } else {
            match lookup_from(dir_keys(img, doff, cap), dir_empty(img, doff, cap), h, cap, 0) {
                Some(s) => {
                    let d = parse_dir_entry(img, doff + 16 * s);
                    Some(((hdr.children_offset + 136 * d.children_start) as u64, d.children_count))
                },
                None => None,
            }
        }
    }
}

/// O(1) stat lookup in the hot stat cache: linear probing from the path's
/// FNV-1a hash until an empty slot or a slot with that hash.
pub fn mmap_lookup(img: &[u8], path: &str) -> (r: Option<MmapStatEntry>)
    ensures
        r == stat_lookup(img@, text_hash(path@)),
{
    let len = img.len();
    if len < 40 {
        return None;
    }
    let hdr = read_header(img);
    let h = fnv1a_hash(path);
    let cap = hdr.table_capacity as usize;
    let toff = hdr.table_offset as usize;
    if cap == 0 || (toff as u64) + 40 * (cap as u64) > len as u64 {
        return None;
    }
    let ghost keys = stat_keys(img@, toff as int, cap as int);
    let ghost empty = stat_empty(img@, toff as int, cap as int);
    let mut k: usize = 0;
    while k < cap
        invariant
            0 < cap,
            len == img@.len(),
            toff + 40 * cap <= img@.len(),
            keys == stat_keys(img@, toff as int, cap as int),
            empty == stat_empty(img@, toff as int, cap as int),
            img@.len() >= 40,
            h == text_hash(path@),
            cap == parse_header(img@).table_capacity,
            toff == parse_header(img@).table_offset,
            0 <= k <= cap,
            lookup_from(keys, empty, h, cap as int, 0) == lookup_from(keys, empty, h, cap as int, k as int),
        decreases cap - k,
    {
        let slot = probe_at(h, cap, k);
        let off = toff + 40 * slot;
        let e = read_stat(img, off);
        assert(keys[slot as int] == e.path_hash && empty[slot as int] == (e.path_hash == 0));
        if e.path_hash == 0 {
            return None;
        }
        if e.path_hash == h {
            return Some(e);
        }
        k = k + 1;
    }
    None
}

/// Children run of a directory in the image: offset of its first child and
/// number of children (linear probing from the FNV-1a hash of the path).
pub fn mmap_dir_lookup(img: &[u8], path: &str) -> (r: Option<(u64, u32)>)
    ensures
        r == dir_lookup(img@, text_hash(path@)),
{
    let len = img.len();
    if len < 40 {
        return None;
    }
    let hdr = read_header(img);
    if !hdr.is_valid() {
        return None;
    }
    let h = fnv1a_hash(path);
    let cap = hdr.dir_index_capacity as usize;
    let doff = hdr.dir_index_offset as usize;
    if cap == 0 || (doff as u64) + 16 * (cap as u64) > len as u64 {
        return None;
    }
    let ghost keys = dir_keys(img@, doff as int, cap as int);
    let ghost empty = dir_empty(img@, doff as int, cap as int);
    let mut k: usize = 0;
    while k < cap
        invariant
            0 < cap,
            len == img@.len(),
            doff + 16 * cap <= img@.len(),
            keys == dir_keys(img@, doff as int, cap as int),
            empty == dir_empty(img@, doff as int, cap as int),
            hdr == parse_header(img@),
            img@.len() >= 40,
            hdr.magic == MMAP_MAGIC && hdr.version == MMAP_VERSION,
            h == text_hash(path@),
            cap == hdr.dir_index_capacity,
            doff == hdr.dir_index_offset,
            0 <= k <= cap,
            lookup_from(keys, empty, h, cap as int, 0) == lookup_from(keys, empty, h, cap as int, k as int),
        decreases cap - k,
    {
        let slot = probe_at(h, cap, k);
        let off = doff + 16 * slot;
        let d = read_dir_entry(img, off);
        assert(keys[slot as int] == d.parent_hash && empty[slot as int] == (d.parent_hash == 0 && d.children_count == 0));
        if d.parent_hash == 0 && d.children_count == 0 {
            return None;
        }
        if d.parent_hash == h {
            let first = (hdr.children_offset as u64) + 136 * (d.children_start as u64);
            return Some((first, d.children_count));
        }
        k = k + 1;
    }
    None
}

/// The directory child stored at `off`.
pub open spec fn parse_child_fields(b: Seq<u8>, off: int, c: MmapDirChild) -> bool {
    &&& c.name@ == b.subrange(off, off + 128)
    &&& c.stat_index == read_u32(b, off + 128)
    &&& c.is_dir == b[off + 132]
    &&& c._pad@ == b.subrange(off + 133, off + 136)
}

/// Read the directory child stored at `off`.
pub fn read_dir_child(b: &[u8], off: usize) -> (c: MmapDirChild)
    requires
        off + 136 <= b@.len(),
    ensures
        parse_child_fields(b@, off as int, c),
{
    let _len: usize = b.len();
    let mut name = [0u8; 128];
    let mut k: usize = 0;
    while k < 128
        invariant
            off + 136 <= b@.len(),
            _len == b@.len(),
            0 <= k <= 128,
            name@.len() == 128,
            forall|t: int| 0 <= t < k ==> name@[t] == b@[off + t],
        decreases 128 - k,
    {
        name[k] = b[off + k];
        k = k + 1;
    }
    let pad: [u8; 3] = [b[off + 133], b[off + 134], b[off + 135]];
    let c = MmapDirChild { name, stat_index: get_u32(b, off + 128), is_dir: b[off + 132], _pad: pad };
    assert(c.name@ =~= b@.subrange(off as int, off + 128));
    assert(c._pad@ =~= b@.subrange(off + 133, off + 136));
    c
}

/// The children of a directory in the image, read from the run that
/// `dir_lookup` finds; none if there is no run or it lies outside the image.
pub open spec fn dir_children_ok(img: Seq<u8>, h: u64, r: Option<Vec<MmapDirChild>>) -> bool {
    match dir_lookup(img, h) {
        None => r is None,
        Some((first, count)) => if first + 136 * count > img.len() {
            r is None
        } else {
            r matches Some(v) && v@.len() == count && forall|j: int| 0 <= j < count ==> parse_child_fields(
                img,
                first + 136 * j,
                #[trigger] v@[j],
            )
        },
    }
}

/// The children listed for a directory in the image.
pub fn mmap_dir_children(img: &[u8], path: &str) -> (r: Option<Vec<MmapDirChild>>)
    ensures
        dir_children_ok(img@, text_hash(path@), r),
{
    let len = img.len();
    match mmap_dir_lookup(img, path) {
        None => None,
        Some((first, count)) => {
            if first + 136 * (count as u64) > len as u64 {
                return None;
            }
            let mut v: Vec<MmapDirChild> = Vec::new();
            let mut j: u32 = 0;
            while j < count
                invariant
                    first + 136 * count <= img@.len(),
                    len == img@.len(),
                    0 <= j <= count,
                    v@.len() == j,
                    forall|t: int| 0 <= t < j ==> parse_child_fields(img@, first + 136 * t, #[trigger] v@[t]),
                decreases count - j,
            {
                let off = (first as usize) + 136 * (j as usize);
                v.push(read_dir_child(img, off));
                j = j + 1;
            }
            Some(v)
        },
    }
}

/// The first index whose key is `h` is `g` when `g` holds `h` and no
/// earlier index does.
proof fn lemma_first_index_is(hs: Seq<u64>, n: int, h: u64, g: int)
    requires
        0 <= g < n,
        hs[g] == h,
        forall|j: int| 0 <= j < g ==> hs[j] != h,
    ensures
        first_index_from(hs, n, h, 0) == Some(g),
{
    match first_index_from(hs, n, h, 0) {
        Some(f) => {
            lemma_first_index_some(hs, n, h, 0);
        },
        None => {
            lemma_first_index_none(hs, n, h, 0);
        },
    }
}

/// The header of a built image reads back.
proof fn lemma_built_header(b: &ManifestMmapBuilder, img: Seq<u8>)
    requires
        b.wf(),
        b.image_ok(img),
    ensures
        img.len() >= 40,
        parse_header(img) == image_header(b.stats().len() as int, b.stat_capacity(), b.dir_capacity(), b.children_total()),
        parse_header(img).table_capacity as int == b.stat_capacity(),
        parse_header(img).table_offset as int == table_offset(),
        parse_header(img).dir_index_capacity as int == b.dir_capacity(),
        parse_header(img).dir_index_offset as int == b.dir_offset(),
        parse_header(img).children_offset as int == b.children_offset(),
        parse_header(img).magic == MMAP_MAGIC && parse_header(img).version == MMAP_VERSION,
{
    lemma_parse_header(img, image_header(b.stats().len() as int, b.stat_capacity(), b.dir_capacity(), b.children_total()));
}

/// The stat slots of a built image read back as the placed entries.
proof fn lemma_stat_slots(b: &ManifestMmapBuilder, img: Seq<u8>)
    requires
        b.stat_section_ok(img, b.stat_capacity()),
        forall|s: int| 0 <= s < b.stat_capacity() ==> -1 <= #[trigger] b.stat_owners()[s] < b.stats().len(),
    ensures
        ({
            let tc = b.stat_capacity();
            let own = b.stat_owners();
            &&& stat_keys(img, table_offset(), tc) =~= owner_keys(stat_hashes(b.stats()), own, tc)
            &&& forall|s: int| 0 <= s < tc ==> (#[trigger] stat_empty(img, table_offset(), tc)[s]
                <==> owner_keys(stat_hashes(b.stats()), own, tc)[s] == 0)
            &&& forall|s: int| 0 <= s < tc ==> #[trigger] parse_stat(img, table_offset() + 40 * s) == table_entry(b.stats(), own, s)
        }),
{
    let tc = b.stat_capacity();
    let own = b.stat_owners();
    let hs = stat_hashes(b.stats());
    assert forall|s: int| 0 <= s < tc implies #[trigger] parse_stat(img, table_offset() + 40 * s) == table_entry(b.stats(), own, s) by {
        assert(stat_at(img, table_offset() + 40 * s, table_entry(b.stats(), own, s)));
        lemma_parse_stat(img, table_offset() + 40 * s, table_entry(b.stats(), own, s));
    }
    assert forall|s: int| 0 <= s < tc implies #[trigger] stat_keys(img, table_offset(), tc)[s] == owner_keys(hs, own, tc)[s] by {
        assert(parse_stat(img, table_offset() + 40 * s) == table_entry(b.stats(), own, s));
    }
    assert forall|s: int| 0 <= s < tc implies (#[trigger] stat_empty(img, table_offset(), tc)[s]
        <==> owner_keys(hs, own, tc)[s] == 0) by {
        assert(parse_stat(img, table_offset() + 40 * s) == table_entry(b.stats(), own, s));
    }
}

/// Hot stat cache law: in the image built from at most `MMAP_MAX_ENTRIES`
/// entries, looking up a nonzero path hash finds the stat entry of the
/// first entry added with that hash, and nothing if none was; looking up
/// the hash 0 (the mark of an empty slot) finds nothing.
pub proof fn law_lookup_after_build(b: &ManifestMmapBuilder, img: Seq<u8>, h: u64)
    requires
        b.wf(),
        b.image_ok(img),
        b.stats().len() <= MMAP_MAX_ENTRIES,
    ensures
        h == 0 ==> stat_lookup(img, h) is None,
        h != 0 ==> stat_lookup(img, h) == match first_index_from(stat_hashes(b.stats()), b.stats().len() as int, h, 0) {
            Some(i) => Some(b.stats()[i]),
            None => None,
        },
{
    let n = b.stats().len() as int;
    let tc = b.stat_capacity();
    let hs = stat_hashes(b.stats());
    let own = b.stat_owners();
    assert(img.len() >= 40 && parse_header(img).table_capacity as int == tc
        && parse_header(img).table_offset as int == table_offset()) by {
        lemma_built_header(b, img);
    }
    assert(table_offset() + 40 * tc <= img.len()) by {
        lemma_start_nonneg(b.keys(), b.groups(), n, b.groups().len() as int);
    }
    assert({
        &&& stat_keys(img, table_offset(), tc) == owner_keys(hs, own, tc)
        &&& forall|s: int| 0 <= s < tc ==> (#[trigger] stat_empty(img, table_offset(), tc)[s] <==> owner_keys(hs, own, tc)[s] == 0)
        &&& forall|s: int| 0 <= s < tc ==> #[trigger] parse_stat(img, table_offset() + 40 * s) == table_entry(b.stats(), own, s)
    }) by {
        lemma_live_inv(hs, n, tc);
        assert(forall|s: int| 0 <= s < tc ==> -1 <= #[trigger] own[s] < n);
        assert(b.stat_section_ok(img, tc));
        lemma_stat_slots(b, img);
    }
    lemma_stat_lookup_core(img, b.stats(), tc, h);
}

/// Lookup over a table whose slots read back as a placement of the stat entries.
proof fn lemma_stat_lookup_core(img: Seq<u8>, stats: Seq<MmapStatEntry>, tc: int, h: u64)
    requires
        img.len() >= 40,
        parse_header(img).table_capacity as int == tc,
        parse_header(img).table_offset as int == table_offset(),
        0 < tc,
        table_offset() + 40 * tc <= img.len(),
        stats.len() <= tc,
        stat_keys(img, table_offset(), tc) == owner_keys(stat_hashes(stats), placement(stat_hashes(stats), stats.len() as int, tc), tc),
        forall|s: int| 0 <= s < tc ==> (#[trigger] stat_empty(img, table_offset(), tc)[s]
            <==> owner_keys(stat_hashes(stats), placement(stat_hashes(stats), stats.len() as int, tc), tc)[s] == 0),
        forall|s: int| 0 <= s < tc ==> #[trigger] parse_stat(img, table_offset() + 40 * s)
            == table_entry(stats, placement(stat_hashes(stats), stats.len() as int, tc), s),
    ensures
        h == 0 ==> stat_lookup(img, h) is None,
        h != 0 ==> stat_lookup(img, h) == match first_index_from(stat_hashes(stats), stats.len() as int, h, 0) {
            Some(i) => Some(stats[i]),
            None => None,
        },
{
    let n = stats.len() as int;
    let hs = stat_hashes(stats);
    let own = placement(hs, n, tc);
    let empty = stat_empty(img, table_offset(), tc);
    let keys = stat_keys(img, table_offset(), tc);
    lemma_lookup_placement_any(hs, n, tc, empty, h);
    assert(parse_header(img).table_capacity != 0);
    assert(!(parse_header(img).table_offset + 40 * parse_header(img).table_capacity > img.len()));
    if h == 0 {
        assert(lookup_from(keys, empty, h, tc, 0) is None);
    } else {
        match first_index_from(hs, n, h, 0) {
            Some(i) => {
                lemma_first_index_some(hs, n, h, 0);
                let s = lookup_from(keys, empty, h, tc, 0)->0;
                assert(0 <= s < tc && own[s] == i);
                assert(parse_stat(img, table_offset() + 40 * s) == table_entry(stats, own, s));
                assert(table_entry(stats, own, s) == stats[i]);
            },
            None => {
                assert(lookup_from(keys, empty, h, tc, 0) is None);
            },
        }
    }
}

/// The directory index slots of a built image read back as the placed directories.
proof fn lemma_dir_slots(b: &ManifestMmapBuilder, img: Seq<u8>)
    requires
        b.dir_section_ok(img, b.dir_capacity()),
        forall|g: int| 0 <= g < b.groups().len() ==> #[trigger] text_hash(b.groups()[g]) != 0,
        forall|s: int| 0 <= s < b.dir_capacity() ==> -1 <= #[trigger] b.dir_owners()[s] < b.groups().len(),
    ensures
        ({
            let dc = b.dir_capacity();
            let own = b.dir_owners();
            let n = b.stats().len() as int;
            &&& dir_keys(img, b.dir_offset(), dc) =~= owner_keys(dir_hashes(b.groups()), own, dc)
            &&& forall|s: int| 0 <= s < dc ==> (#[trigger] dir_empty(img, b.dir_offset(), dc)[s] <==> own[s] < 0)
            &&& forall|s: int| 0 <= s < dc ==> #[trigger] parse_dir_entry(img, b.dir_offset() + 16 * s)
                == dir_table_entry(b.keys(), b.groups(), n, own, s)
        }),
{
    let dc = b.dir_capacity();
    let own = b.dir_owners();
    let n = b.stats().len() as int;
    let gs = b.groups();
    let hs = dir_hashes(gs);
    assert forall|s: int| 0 <= s < dc implies #[trigger] parse_dir_entry(img, b.dir_offset() + 16 * s)
        == dir_table_entry(b.keys(), gs, n, own, s) by {
        assert(crate::mmap_layout::dir_entry_at(img, b.dir_offset() + 16 * s, dir_table_entry(b.keys(), gs, n, own, s)));
        lemma_parse_dir_entry(img, b.dir_offset() + 16 * s, dir_table_entry(b.keys(), gs, n, own, s));
    }
    assert forall|s: int| 0 <= s < dc implies #[trigger] dir_keys(img, b.dir_offset(), dc)[s] == owner_keys(hs, own, dc)[s] by {
        assert(parse_dir_entry(img, b.dir_offset() + 16 * s) == dir_table_entry(b.keys(), gs, n, own, s));
    }
    assert forall|s: int| 0 <= s < dc implies (#[trigger] dir_empty(img, b.dir_offset(), dc)[s] <==> own[s] < 0) by {
        assert(parse_dir_entry(img, b.dir_offset() + 16 * s) == dir_table_entry(b.keys(), gs, n, own, s));
        if own[s] >= 0 {
            assert(text_hash(gs[own[s]]) != 0);
        }
    }
}

/// Directory index law: in the image built from at most `MMAP_MAX_ENTRIES`
/// entries, whose directories have nonzero hashes, looking up a directory
/// hash finds the children run of the first directory with that hash (its
/// position in the pool and its number of entries), and nothing if none has it.
pub proof fn law_dir_lookup_after_build(b: &ManifestMmapBuilder, img: Seq<u8>, h: u64)
    requires
        b.wf(),
        b.image_ok(img),
        b.stats().len() <= MMAP_MAX_ENTRIES,
        forall|g: int| 0 <= g < b.groups().len() ==> #[trigger] text_hash(b.groups()[g]) != 0,
    ensures
        dir_lookup(img, h) == match first_index_from(dir_hashes(b.groups()), b.groups().len() as int, h, 0) {
            Some(g) => Some((
                (b.children_offset() + 136 * (group_start(b.keys(), b.groups(), b.stats().len() as int, g) as u32)) as u64,
                key_count(b.keys(), b.stats().len() as int, b.groups()[g]) as u32,
            )),
            None => None,
        },
{
    let n = b.stats().len() as int;
    let gs = b.groups();
    let ng = gs.len() as int;
    let dc = b.dir_capacity();
    let hs = dir_hashes(gs);
    let own = b.dir_owners();
    assert(img.len() >= 40 && parse_header(img).dir_index_capacity as int == dc
        && parse_header(img).dir_index_offset as int == b.dir_offset()
        && parse_header(img).children_offset as int == b.children_offset()
        && parse_header(img).magic == MMAP_MAGIC && parse_header(img).version == MMAP_VERSION) by {
        lemma_built_header(b, img);
    }
    assert(b.dir_offset() + 16 * dc <= img.len()) by {
        lemma_start_nonneg(b.keys(), b.groups(), n, b.groups().len() as int);
    }
    assert(ng <= dc) by {
        lemma_group_count_bound(b.keys(), n);
    }
    assert(forall|g: int| 0 <= g < ng ==> #[trigger] hs[g] != 0) by {
        assert forall|g: int| 0 <= g < ng implies #[trigger] hs[g] != 0 by {
            assert(text_hash(gs[g]) != 0);
        }
    }
    assert({
        &&& dir_keys(img, b.dir_offset(), dc) == owner_keys(hs, own, dc)
        &&& forall|s: int| 0 <= s < dc ==> (#[trigger] dir_empty(img, b.dir_offset(), dc)[s] <==> own[s] < 0)
        &&& forall|s: int| 0 <= s < dc ==> #[trigger] parse_dir_entry(img, b.dir_offset() + 16 * s)
            == dir_table_entry(b.keys(), gs, n, own, s)
    }) by {
        lemma_placement_inv(hs, ng, dc);
        assert(forall|s: int| 0 <= s < dc ==> -1 <= #[trigger] own[s] < ng);
        assert(b.dir_section_ok(img, dc));
        lemma_dir_slots(b, img);
    }
    lemma_dir_lookup_core(img, b.keys(), n, dc, b.dir_offset(), b.children_offset(), h);
}

/// Lookup over a directory index whose slots read back as a placement of the directories.
proof fn lemma_dir_lookup_core(img: Seq<u8>, ks: Seq<Option<Seq<char>>>, n: int, dc: int, doff: int, coff: int, h: u64)
    requires
        0 <= n,
        img.len() >= 40,
        parse_header(img).dir_index_capacity as int == dc,
        parse_header(img).dir_index_offset as int == doff,
        parse_header(img).children_offset as int == coff,
        parse_header(img).magic == MMAP_MAGIC && parse_header(img).version == MMAP_VERSION,
        0 < dc,
        doff + 16 * dc <= img.len(),
        group_keys(ks, n).len() <= dc,
        n <= MMAP_MAX_ENTRIES,
        forall|g: int| 0 <= g < group_keys(ks, n).len() ==> #[trigger] dir_hashes(group_keys(ks, n))[g] != 0,
        dir_keys(img, doff, dc) == owner_keys(dir_hashes(group_keys(ks, n)),
            placement(dir_hashes(group_keys(ks, n)), group_keys(ks, n).len() as int, dc), dc),
        forall|s: int| 0 <= s < dc ==> (#[trigger] dir_empty(img, doff, dc)[s]
            <==> placement(dir_hashes(group_keys(ks, n)), group_keys(ks, n).len() as int, dc)[s] < 0),
        forall|s: int| 0 <= s < dc ==> #[trigger] parse_dir_entry(img, doff + 16 * s)
            == dir_table_entry(ks, group_keys(ks, n), n,
                placement(dir_hashes(group_keys(ks, n)), group_keys(ks, n).len() as int, dc), s),
    ensures
        dir_lookup(img, h) == match first_index_from(dir_hashes(group_keys(ks, n)), group_keys(ks, n).len() as int, h, 0) {
            Some(g) => Some((
                (coff + 136 * (group_start(ks, group_keys(ks, n), n, g) as u32)) as u64,
                key_count(ks, n, group_keys(ks, n)[g]) as u32,
            )),
            None => None,
        },
{
    let gs = group_keys(ks, n);
    let ng = gs.len() as int;
    let hs = dir_hashes(gs);
    let empty = dir_empty(img, doff, dc);
    lemma_lookup_placement(hs, ng, dc, empty, h);
    match first_index_from(hs, ng, h, 0) {
        Some(g) => {
            lemma_first_index_some(hs, ng, h, 0);
        },
        None => {},
    }
}

/// There are at most as many directories as entries.
proof fn lemma_group_count_bound(ks: Seq<Option<Seq<char>>>, n: int)
    requires
        0 <= n,
    ensures
        group_keys(ks, n).len() <= n,
    decreases n,
{
    if n > 0 {
        lemma_group_count_bound(ks, n - 1);
    }
}

/// Children runs lie within the first `n` pool positions.
proof fn lemma_start_bound(ks: Seq<Option<Seq<char>>>, n: int, g: int)
    requires
        0 <= n,
        0 <= g < group_keys(ks, n).len(),
    ensures
        0 <= group_start(ks, group_keys(ks, n), n, g),
        group_start(ks, group_keys(ks, n), n, g) + key_count(ks, n, group_keys(ks, n)[g])
            <= group_start(ks, group_keys(ks, n), n, group_keys(ks, n).len() as int),
{
    let gs = group_keys(ks, n);
    lemma_start_nonneg(ks, gs, n, g);
    lemma_start_mono(ks, gs, n, g + 1, gs.len() as int);
}

proof fn lemma_start_nonneg(ks: Seq<Option<Seq<char>>>, gs: Seq<Seq<char>>, n: int, g: int)
    requires
        0 <= n,
        0 <= g,
    ensures
        0 <= group_start(ks, gs, n, g),
    decreases g,
{
    if g > 0 {
        lemma_start_nonneg(ks, gs, n, g - 1);
        lemma_count_nonneg(ks, n, gs[g - 1]);
    }
}

proof fn lemma_count_nonneg(ks: Seq<Option<Seq<char>>>, n: int, k: Seq<char>)
    requires
        0 <= n,
    ensures
        0 <= key_count(ks, n, k),
    decreases n,
{
    if n > 0 {
        lemma_count_nonneg(ks, n - 1, k);
    }
}

proof fn lemma_start_mono(ks: Seq<Option<Seq<char>>>, gs: Seq<Seq<char>>, n: int, g1: int, g2: int)
    requires
        0 <= n,
        0 <= g1 <= g2,
    ensures
        group_start(ks, gs, n, g1) <= group_start(ks, gs, n, g2),
    decreases g2,
{
    if g1 < g2 {
        lemma_start_mono(ks, gs, n, g1, g2 - 1);
        lemma_count_nonneg(ks, n, gs[g2 - 1]);
    }
}

/// Directory listing law: in the image built from at most
/// `MMAP_MAX_ENTRIES` entries whose directories have nonzero hashes, the
/// children read for the directory of an entry (when no other directory
/// shares its hash) are as many as the entries added under it, and the
/// child at the entry's rank among them carries the entry's name field,
/// the slot of its stat entry and its directory byte.
pub proof fn law_children_after_build(b: &ManifestMmapBuilder, img: Seq<u8>, i: int, r: Option<Vec<MmapDirChild>>)
    requires
        b.wf(),
        b.image_ok(img),
        b.stats().len() <= MMAP_MAX_ENTRIES,
        forall|g: int| 0 <= g < b.groups().len() ==> #[trigger] text_hash(b.groups()[g]) != 0,
        0 <= i < b.stats().len(),
        b.keys()[i] is Some,
        forall|g: int| 0 <= g < b.groups().len() && b.groups()[g] != b.keys()[i]->0
            ==> #[trigger] text_hash(b.groups()[g]) != text_hash(b.keys()[i]->0),
        dir_children_ok(img, text_hash(b.keys()[i]->0), r),
    ensures
        r matches Some(v) && {
            let k = b.keys()[i]->0;
            let j = key_count(b.keys(), i, k);
            &&& v@.len() == key_count(b.keys(), b.stats().len() as int, k)
            &&& 0 <= j < v@.len()
            &&& v@[j].name@ == name_field(encode_utf8(child_name(b.paths()[i])))
            &&& v@[j].stat_index == chosen_slot(stat_hashes(b.stats()), i, b.stat_capacity()) as u32
            &&& v@[j].is_dir == dir_byte(b.stats()[i])
        },
{
    let n = b.stats().len() as int;
    let ks = b.keys();
    let gs = b.groups();
    let ng = gs.len() as int;
    let k = ks[i]->0;
    let h = text_hash(k);
    assert(gs.contains(k) && forall|a: int, c: int| 0 <= a < c < gs.len() ==> gs[a] != gs[c]) by {
        lemma_group_keys_distinct(ks, n);
    }
    let g = group_of(gs, k);
    assert(0 <= g < ng && gs[g] == k);
    assert(first_index_from(dir_hashes(gs), ng, h, 0) == Some(g)) by {
        assert(forall|g2: int| 0 <= g2 < g ==> dir_hashes(gs)[g2] != h);
        lemma_first_index_is(dir_hashes(gs), ng, h, g);
    }
    let start = group_start(ks, gs, n, g);
    let count = key_count(ks, n, k);
    let j = key_count(ks, i, k);
    assert(0 <= start && start + count <= n && 0 <= j < count) by {
        lemma_start_bound(ks, n, g);
        lemma_key_count_mono(ks, i, n, k);
        lemma_key_count_le(ks, i, k);
        lemma_children_total(ks, n);
    }
    let first = b.children_offset() + 136 * start;
    assert(dir_lookup(img, h) == Some((first as u64, count as u32))) by {
        law_dir_lookup_after_build(b, img, h);
    }
    assert(first + 136 * count <= img.len()) by {
        lemma_children_total(ks, n);
        lemma_start_bound(ks, n, g);
    }
    let v = r->0;
    assert(r is Some && v@.len() == count);
    let off = first + 136 * j;
    assert(parse_child_fields(img, off, v@[j]));
    assert(b.child_ok(img, i));
    assert(child_pos(ks, gs, n, i) == start + j);
    lemma_child_read(img, off, name_field(encode_utf8(child_name(b.paths()[i]))),
        chosen_slot(stat_hashes(b.stats()), i, b.stat_capacity()) as u32, dir_byte(b.stats()[i]), v@[j]);
}

/// A child read where a child with these fields is stored has these fields.
proof fn lemma_child_read(img: Seq<u8>, off: int, name: Seq<u8>, si: u32, d: u8, c: MmapDirChild)
    requires
        name.len() == 128,
        child_fields_at(img, off, name, si, d),
        parse_child_fields(img, off, c),
    ensures
        c.name@ == name,
        c.stat_index == si,
        c.is_dir == d,
{
    assert forall|t: int| 0 <= t < 128 implies c.name@[t] == name[t] by {
        assert(img[off + t] == name[t]);
    }
    assert(c.name@ =~= name);
    lemma_read_u32(img, off + 128, si);
    assert(img[(off + 132) + 0] == seq![d][0]);
}

/// The children pool holds one child per entry with a directory, so at most `n`.
proof fn lemma_children_total(ks: Seq<Option<Seq<char>>>, n: int)
    requires
        0 <= n,
    ensures
        group_start(ks, group_keys(ks, n), n, group_keys(ks, n).len() as int) <= n,
{
    lemma_group_sum(ks, n, n);
}

/// Number of the first `m` entries that have a directory.
spec fn keyed_count(ks: Seq<Option<Seq<char>>>, m: int) -> int
    decreases m,
{
    if m <= 0 {
        0
    } else {
        keyed_count(ks, m - 1) + if ks[m - 1] is Some {
            1int
        } else {
            0int
        }
    }
}

/// Summing the counts of the directories of the first `m` entries, counted
/// over the first `m` entries, gives the number of those entries with a directory.
proof fn lemma_group_sum(ks: Seq<Option<Seq<char>>>, m: int, n: int)
    requires
        0 <= m <= n,
    ensures
        group_start(ks, group_keys(ks, m), m, group_keys(ks, m).len() as int) == keyed_count(ks, m),
        keyed_count(ks, m) <= m,
    decreases m,
{
    if m > 0 {
        lemma_group_sum(ks, m - 1, n);
        let gs0 = group_keys(ks, m - 1);
        let gs1 = group_keys(ks, m);
        lemma_sum_step(ks, m, gs0.len() as int);
        match ks[m - 1] {
            Some(k) => {
                if gs0.contains(k) {
                } else {
                    lemma_group_keys_distinct(ks, m - 1);
                    assert forall|t: int| 0 <= t < m - 1 implies ks[t] != Some(k) by {
                        if ks[t] == Some(k) {
                            assert(exists|t2: int| 0 <= t2 < m - 1 && ks[t2] == Some(k));
                        }
                    }
                    crate::mmap_build::lemma_key_count_zero(ks, m - 1, k);
                    assert(gs1 == gs0.push(k));
                    assert(gs1[gs0.len() as int] == k);
                    assert(group_start(ks, gs1, m, gs1.len() as int) == group_start(ks, gs1, m, gs0.len() as int) + key_count(ks, m, k));
                    lemma_start_prefix(ks, gs0, gs1, m, gs0.len() as int);
                }
            },
            None => {},
        }
    }
}

/// Group starts only depend on the groups before.
proof fn lemma_start_prefix(ks: Seq<Option<Seq<char>>>, gs0: Seq<Seq<char>>, gs1: Seq<Seq<char>>, m: int, g: int)
    requires
        0 <= g <= gs0.len(),
        g <= gs1.len(),
        forall|t: int| 0 <= t < g ==> gs0[t] == gs1[t],
    ensures
        group_start(ks, gs0, m, g) == group_start(ks, gs1, m, g),
    decreases g,
{
    if g > 0 {
        lemma_start_prefix(ks, gs0, gs1, m, g - 1);
    }
}

/// Adding entry `m - 1` adds one to the sum of counts over the old directories
/// if it has one of them, and nothing otherwise.
proof fn lemma_sum_step(ks: Seq<Option<Seq<char>>>, m: int, g: int)
    requires
        0 < m,
        0 <= g <= group_keys(ks, m - 1).len(),
    ensures
        ({
            let gs0 = group_keys(ks, m - 1);
            let gs1 = group_keys(ks, m);
            let inc = match ks[m - 1] {
                Some(k) => if exists|t: int| 0 <= t < g && gs0[t] == k { 1int } else { 0int },
                None => 0int,
            };
            group_start(ks, gs1, m, g) == group_start(ks, gs0, m - 1, g) + inc
        }),
    decreases g,
{
    let gs0 = group_keys(ks, m - 1);
    let gs1 = group_keys(ks, m);
    lemma_group_keys_distinct(ks, m - 1);
    assert(gs0.len() <= gs1.len());
    assert(forall|t: int| 0 <= t < gs0.len() ==> gs1[t] == gs0[t]);
    if g > 0 {
        lemma_sum_step(ks, m, g - 1);
        let kg = gs0[g - 1];
        assert(gs1[g - 1] == kg);
        match ks[m - 1] {
            Some(k) => {
                if kg == k {
                    assert(forall|t: int| 0 <= t < g - 1 ==> gs0[t] != k);
                } else {
                    if exists|t: int| 0 <= t < g && gs0[t] == k {
                        let t = choose|t: int| 0 <= t < g && gs0[t] == k;
                        assert(t != g - 1);
                    }
                }
            },
            None => {},
        }
    }
}

/// The listing entry of the child stored at `off`: its name up to the
/// first NUL (empty if not valid UTF-8) and whether it is a directory.
pub open spec fn listing_entry_ok(img: Seq<u8>, off: int, d: DirEntry) -> bool {
    let name = img.subrange(off, off + 128);
    let n = name.take(name_len(name));
    &&& d.is_dir == (img[off + 132] != 0)
    &&& vstd::utf8::valid_utf8(n) ==> vstd::utf8::encode_utf8(d.name@) == n
    &&& !vstd::utf8::valid_utf8(n) ==> d.name@ == ""@
}

/// Directory listing from the image: the children of the directory as
/// names and directory flags; none when `mmap_dir_children` finds none.
pub fn mmap_dir_listing(img: &[u8], path: &str) -> (r: Option<Vec<DirEntry>>)
    ensures
        match dir_lookup(img@, text_hash(path@)) {
            None => r is None,
            Some((first, count)) => if first + 136 * count > img@.len() {
                r is None
            } else {
                r matches Some(v) && v@.len() == count && forall|j: int| 0 <= j < count ==> listing_entry_ok(
                    img@,
                    first + 136 * j,
                    #[trigger] v@[j],
                )
            },
        },
{
    match mmap_dir_children(img, path) {
        None => None,
        Some(children) => {
            let ghost h = text_hash(path@);
            let mut out: Vec<DirEntry> = Vec::new();
            let mut j: usize = 0;
            while j < children.len()
                invariant
                    dir_children_ok(img@, h, Some(children)),
                    dir_lookup(img@, h) matches Some((first, count)) && first + 136 * count <= img@.len()
                        && children@.len() == count,
                    0 <= j <= children@.len(),
                    out@.len() == j,
                    forall|t: int| 0 <= t < j ==> listing_entry_ok(img@, (dir_lookup(img@, h)->0).0 + 136 * t, #[trigger] out@[t]),
                decreases children@.len() - j,
            {
                let c = &children[j];
                let name = c.name_as_str();
                let d = DirEntry { name: String::from_str(name), is_dir: c.is_dir != 0 };
                proof {
                    let first = (dir_lookup(img@, h)->0).0;
                    assert(parse_child_fields(img@, first + 136 * j, children@[j as int]));
                }
                out.push(d);
                j = j + 1;
            }
            Some(out)
        },
    }
}

} // verus!
