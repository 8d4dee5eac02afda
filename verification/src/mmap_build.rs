//! Builder of the manifest mmap image (hot stat cache): collects stat
//! entries and the bloom filter, then lays out header, bloom filter, stat
//! hash table, directory index and children pool in one byte image.
use vstd::prelude::*;
use vstd::string::StringSliceAdditionalSpecFns;
use vstd::utf8::encode_utf8;
use crate::fnv::{fnv1a_hash, fnv1a_spec};
use crate::mmap::{bloom_hashes, bloom_hashes_spec, mmap_file_size, mmap_file_size_spec, ManifestMmapHeader,
    MmapStatEntry, MmapDirIndexEntry, MmapDirChild, BLOOM_SIZE, BLOOM_BITS, MMAP_MAGIC, MMAP_VERSION};
use crate::mmap_layout::{child_at, dir_entry_at, header_at, stat_at, same_outside, lemma_holds_kept,
    write_child, write_dir_entry, write_header, write_stat};
use crate::le::{holds_at, le_u32, le_u64, write_bytes};
use crate::probe::{chosen_slot, owners_of, place_all, placement};
use std::collections::HashMap;

verus! {

/// Text of the parent of a path, as `std::path::Path::parent` computes it.
pub uninterp spec fn std_path_parent(p: Seq<char>) -> Option<Seq<char>>;

/// Text of the last component of a path, as `std::path::Path::file_name` computes it.
pub uninterp spec fn std_path_file_name(p: Seq<char>) -> Option<Seq<char>>;

/// Calls `std::path::Path::parent` and returns the parent as text. Trusted:
/// the result depends on the path alone (it is named `std_path_parent`);
/// nothing more is stated about how the path is split.
#[verifier::external_body]
pub(crate) fn path_parent(p: &str) -> (r: Option<String>)
    ensures
        r is Some <==> std_path_parent(p@) is Some,
        r matches Some(q) ==> std_path_parent(p@) == Some(q@),
{
    match std::path::Path::new(p).parent() {
        Some(q) => Some(q.to_string_lossy().into_owned()),
        None => None,
    }
}

/// Calls `std::path::Path::file_name` and returns the name as text. Trusted:
/// the result depends on the path alone (it is named `std_path_file_name`).
#[verifier::external_body]
pub(crate) fn path_file_name(p: &str) -> (r: Option<String>)
    ensures
        r is Some <==> std_path_file_name(p@) is Some,
        r matches Some(q) ==> std_path_file_name(p@) == Some(q@),
{
    match std::path::Path::new(p).file_name() {
        Some(q) => Some(q.to_string_lossy().into_owned()),
        None => None,
    }
}

/// Directory under which an entry is listed: its parent, with `/` for an
/// empty parent; none for a path without parent (such as `/`).
pub open spec fn parent_key(p: Seq<char>) -> Option<Seq<char>> {
    match std_path_parent(p) {
        Some(q) => Some(if q.len() == 0 { "/"@ } else { q }),
        None => None,
    }
}

/// Name under which an entry is listed (empty if the path has no file name).
pub open spec fn child_name(p: Seq<char>) -> Seq<char> {
    match std_path_file_name(p) {
        Some(n) => n,
        None => Seq::empty(),
    }
}

/// FNV-1a hash of the UTF-8 bytes of a path.
pub open spec fn text_hash(p: Seq<char>) -> u64 {
    fnv1a_spec(encode_utf8(p))
}

/// Flags of a stat entry: bit 0 directory, bit 1 symlink.
pub open spec fn entry_flags(is_dir: bool, is_symlink: bool) -> u32 {
    (if is_dir { 1u32 } else { 0u32 }) | (if is_symlink { 2u32 } else { 0u32 })
}

/// Bloom filter with bit `bit` set.
pub open spec fn bloom_set(bl: Seq<u8>, bit: int) -> Seq<u8> {
    bl.update(bit / 8, bl[bit / 8] | (1u8 << ((bit % 8) as u8)))
}

/// Bloom filter after adding a path: the bits of its two bloom hashes are set.
pub open spec fn bloom_add(bl: Seq<u8>, path_bytes: Seq<u8>) -> Seq<u8> {
    let (h1, h2) = bloom_hashes_spec(path_bytes, path_bytes.len() as int);
    bloom_set(bloom_set(bl, (h1 % BLOOM_BITS) as int), (h2 % BLOOM_BITS) as int)
}

/// Directory key of each path.
pub open spec fn parent_keys(paths: Seq<Seq<char>>) -> Seq<Option<Seq<char>>> {
    paths.map_values(|p: Seq<char>| parent_key(p))
}

/// Distinct directory keys of the first `n` entries, in order of first appearance.
pub open spec fn group_keys(ks: Seq<Option<Seq<char>>>, n: int) -> Seq<Seq<char>>
    decreases n,
{
    if n <= 0 {
        Seq::empty()
    } else {
        let g = group_keys(ks, n - 1);
        match ks[n - 1] {
            Some(k) => if g.contains(k) {
                g
            } else {
                g.push(k)
            },
            None => g,
        }
    }
}

/// Number of the first `n` entries listed under directory key `k`.
pub open spec fn key_count(ks: Seq<Option<Seq<char>>>, n: int, k: Seq<char>) -> int
    decreases n,
{
    if n <= 0 {
        0
    } else {
        key_count(ks, n - 1, k) + if ks[n - 1] == Some(k) {
            1int
        } else {
            0int
        }
    }
}

/// Position in the children pool of the first child of group `g`: the
/// children of the earlier groups come first.
pub open spec fn group_start(ks: Seq<Option<Seq<char>>>, gs: Seq<Seq<char>>, n: int, g: int) -> int
    decreases g,
{
    if g <= 0 {
        0
    } else {
        group_start(ks, gs, n, g - 1) + key_count(ks, n, gs[g - 1])
    }
}

/// Buckets of group indices by key hash: every group is in the bucket of
/// its hash, and every bucket holds only groups with that hash.
pub open spec fn buckets_ok(bm: Map<u64, Vec<usize>>, keys: Seq<Seq<char>>) -> bool {
    &&& forall|g: int| 0 <= g < keys.len() ==> bm.contains_key(#[trigger] text_hash(keys[g]))
        && bm[text_hash(keys[g])]@.contains(g as usize)
    &&& forall|h: u64, j: int| bm.contains_key(h) && 0 <= j < bm[h]@.len() ==> (#[trigger] bm[h]@[j] as int)
        < keys.len() && text_hash(keys[bm[h]@[j] as int]) == h
}

pub proof fn lemma_group_keys_distinct(ks: Seq<Option<Seq<char>>>, n: int)
    ensures
        forall|a: int, b: int| 0 <= a < b < group_keys(ks, n).len() ==> group_keys(ks, n)[a] != group_keys(ks, n)[b],
        forall|k: Seq<char>| #[trigger] group_keys(ks, n).contains(k) <==> exists|i: int| 0 <= i < n && ks[i] == Some(k),
    decreases n,
{
    if n > 0 {
        lemma_group_keys_distinct(ks, n - 1);
        let g = group_keys(ks, n - 1);
        assert forall|k: Seq<char>| #[trigger] group_keys(ks, n).contains(k) <==> exists|i: int| 0 <= i < n && ks[i] == Some(k) by {
            if group_keys(ks, n).contains(k) {
                if g.contains(k) {
                    let i = choose|i: int| 0 <= i < n - 1 && ks[i] == Some(k);
                } else {
                    assert(ks[n - 1] == Some(k)) by {
                        let j = choose|j: int| 0 <= j < group_keys(ks, n).len() && group_keys(ks, n)[j] == k;
                        if j < g.len() { assert(g[j] == k); assert(g.contains(k)); }
                    }
                }
            }
            if exists|i: int| 0 <= i < n && ks[i] == Some(k) {
                let i = choose|i: int| 0 <= i < n && ks[i] == Some(k);
                if i < n - 1 {
                    assert(g.contains(k));
                    let j = choose|j: int| 0 <= j < g.len() && g[j] == k;
                    assert(group_keys(ks, n)[j] == k);
                } else if !g.contains(k) {
                    assert(group_keys(ks, n)[g.len() as int] == k);
                }
            }
        }
    }
}

pub proof fn lemma_key_count_zero(ks: Seq<Option<Seq<char>>>, n: int, k: Seq<char>)
    requires
        forall|i: int| 0 <= i < n ==> ks[i] != Some(k),
    ensures
        key_count(ks, n, k) == 0,
    decreases n,
{
    if n > 0 {
        lemma_key_count_zero(ks, n - 1, k);
    }
}

/// Directory key of a path (see `parent_key`).
fn entry_parent_key(p: &str) -> (r: Option<String>)
    ensures
        r is Some <==> parent_key(p@) is Some,
        r matches Some(q) ==> parent_key(p@) == Some(q@),
{
    match path_parent(p) {
        None => None,
        Some(q) => if q.as_str().is_empty() {
            Some(String::from_str("/"))
        } else {
            Some(q)
        },
    }
}

/// The first group in `bucket` whose key is `key`.
fn scan_bucket(keys: &Vec<String>, bucket: &Vec<usize>, key: &String) -> (r: Option<usize>)
    requires
        forall|t: int| 0 <= t < bucket@.len() ==> (#[trigger] bucket@[t] as int) < keys@.len(),
    ensures
        match r {
            Some(g) => g < keys@.len() && keys@[g as int]@ == key@,
            None => forall|t: int| 0 <= t < bucket@.len() ==> keys@[#[trigger] bucket@[t] as int]@ != key@,
        },
{
    let mut j: usize = 0;
    while j < bucket.len()
        invariant
            forall|t: int| 0 <= t < bucket@.len() ==> (#[trigger] bucket@[t] as int) < keys@.len(),
            0 <= j <= bucket@.len(),
            forall|t: int| 0 <= t < j ==> keys@[#[trigger] bucket@[t] as int]@ != key@,
        decreases bucket@.len() - j,
    {
        let g = bucket[j];
        if keys[g] == *key {
            return Some(g);
        }
        j = j + 1;
    }
    None
}

/// Index of the group with key `key`, looked up through the hash buckets.
fn find_group(keys: &Vec<String>, buckets: &HashMap<u64, Vec<usize>>, key: &String, h: u64) -> (r: Option<usize>)
    requires
        buckets_ok(buckets@, keys@.map_values(|s: String| s@)),
        h == text_hash(key@),
    ensures
        match r {
            Some(g) => g < keys@.len() && keys@[g as int]@ == key@,
            None => forall|g: int| 0 <= g < keys@.len() ==> keys@[g]@ != key@,
        },
{
    broadcast use {
        vstd::std_specs::hash::axiom_maps_deref_key_to_value,
        vstd::std_specs::hash::axiom_contains_deref_key,
        vstd::std_specs::hash::axiom_u64_obeys_hash_table_key_model,
        vstd::std_specs::hash::axiom_random_state_builds_valid_hashers,
    };
    let ghost kv = keys@.map_values(|s: String| s@);
    let _n: usize = keys.len();
    match buckets.get(&h) {
        None => {
            proof {
                assert forall|g: int| 0 <= g < keys@.len() implies keys@[g]@ != key@ by {
                    if keys@[g]@ == key@ {
                        assert(kv[g] == key@);
                        assert(buckets@.contains_key(text_hash(kv[g])));
                    }
                }
            }
            None
        },
        Some(bucket) => {
            proof {
                assert(buckets@.contains_key(h) && buckets@[h] == *bucket);
                assert forall|t: int| 0 <= t < bucket@.len() implies (#[trigger] bucket@[t] as int) < keys@.len() by {
                    assert((buckets@[h]@[t] as int) < kv.len());
                }
            }
            let r = scan_bucket(keys, bucket, key);
            proof {
                if r is None {
                    assert forall|g: int| 0 <= g < keys@.len() implies keys@[g]@ != key@ by {
                        if keys@[g]@ == key@ {
                            assert(kv[g] == key@);
                            assert(buckets@[text_hash(kv[g])]@.contains(g as usize));
                            let t = choose|t: int| 0 <= t < bucket@.len() && bucket@[t] == g as usize;
                            assert(keys@[bucket@[t] as int]@ != key@);
                        }
                    }
                }
            }
            r
        },
    }
}

/// Entries grouped by directory key.
struct Grouping {
    /// Distinct directory keys, in order of first appearance.
    keys: Vec<String>,
    /// Hash of each key.
    hashes: Vec<u64>,
    /// Group of each entry (none for an entry without directory).
    gidx: Vec<Option<usize>>,
    /// Number of entries of each group.
    counts: Vec<usize>,
}

/// The grouping of the first `n` entries with directory keys `ks`.
spec fn grouping_ok(gr: Grouping, ks: Seq<Option<Seq<char>>>, n: int) -> bool {
    let gs = group_keys(ks, n);
    &&& gr.keys@.len() == gs.len()
    &&& forall|g: int| 0 <= g < gs.len() ==> #[trigger] gr.keys@[g]@ == gs[g]
    &&& gr.hashes@.len() == gs.len()
    &&& forall|g: int| 0 <= g < gs.len() ==> #[trigger] gr.hashes@[g] == text_hash(gs[g])
    &&& gr.gidx@.len() == n
    &&& forall|i: int| 0 <= i < n ==> match ks[i] {
        Some(k) => #[trigger] gr.gidx@[i] matches Some(g) && g < gs.len() && gs[g as int] == k,
        None => gr.gidx@[i] is None,
    }
    &&& gr.counts@.len() == gs.len()
    &&& forall|g: int| 0 <= g < gs.len() ==> #[trigger] gr.counts@[g] == key_count(ks, n, gs[g])
}

pub proof fn lemma_key_count_le(ks: Seq<Option<Seq<char>>>, n: int, k: Seq<char>)
    requires
        0 <= n,
    ensures
        0 <= key_count(ks, n, k) <= n,
    decreases n,
{
    if n > 0 {
        lemma_key_count_le(ks, n - 1, k);
    }
}

impl ManifestMmapBuilder {
    /// Group the entries by directory key, in order of first appearance.
    fn group_entries(&self) -> (gr: Grouping)
        requires
            self.wf(),
        ensures
            grouping_ok(gr, parent_keys(self.paths()), self.paths().len() as int),
    {
        broadcast use {
            vstd::std_specs::hash::axiom_maps_deref_key_to_value,
            vstd::std_specs::hash::axiom_contains_deref_key,
            vstd::std_specs::hash::axiom_deref_key_removed,
            vstd::std_specs::hash::axiom_u64_obeys_hash_table_key_model,
            vstd::std_specs::hash::axiom_random_state_builds_valid_hashers,
        };
        let ghost ks = parent_keys(self.paths());
        let n = self.entries.len();
        let mut gr = Grouping { keys: Vec::new(), hashes: Vec::new(), gidx: Vec::new(), counts: Vec::new() };
        let mut buckets: HashMap<u64, Vec<usize>> = HashMap::new();
        proof {
            assert(buckets_ok(buckets@, gr.keys@.map_values(|s: String| s@)));
        }
        let mut i: usize = 0;
        while i < n
            invariant
                n == self.entries@.len(),
                ks == parent_keys(self.paths()),
                ks.len() == n,
                0 <= i <= n,
                grouping_ok(gr, ks, i as int),
                buckets_ok(buckets@, gr.keys@.map_values(|s: String| s@)),
                gr.keys@.len() <= i,
            decreases n - i,
        {
            let ghost gs = group_keys(ks, i as int);
            proof {
                lemma_group_keys_distinct(ks, i as int);
                assert(ks[i as int] == parent_key(self.entries@[i as int].0@));
            }
            match entry_parent_key(self.entries[i].0.as_str()) {
                None => {
                    gr.gidx.push(None);
                    proof {
                        assert(group_keys(ks, i + 1) == gs);
                        assert forall|g: int| 0 <= g < gs.len() implies #[trigger] gr.counts@[g] == key_count(ks, i + 1, gs[g]) by {}
                    }
                },
                Some(key) => {
                    let h = fnv1a_hash(key.as_str());
                    let ghost k = key@;
                    proof {
                        assert(ks[i as int] == Some(k));
                    }
                    match find_group(&gr.keys, &buckets, &key, h) {
                        Some(g) => {
                            proof {
                                assert(gs[g as int] == k);
                                assert(gs.contains(k));
                                assert(group_keys(ks, i + 1) == gs);
                                lemma_key_count_le(ks, i as int, k);
                            }
                            let c = gr.counts[g];
                            gr.counts.set(g, c + 1);
                            gr.gidx.push(Some(g));
                            proof {
                                assert forall|g2: int| 0 <= g2 < gs.len() implies #[trigger] gr.counts@[g2] == key_count(ks, i + 1, gs[g2]) by {
                                    if g2 != g as int {
                                        assert(gs[g2] != gs[g as int]);
                                    }
                                }
                                assert forall|i2: int| 0 <= i2 < i + 1 implies match ks[i2] {
                                    Some(k2) => #[trigger] gr.gidx@[i2] matches Some(g3) && g3 < gs.len() && gs[g3 as int] == k2,
                                    None => gr.gidx@[i2] is None,
                                } by {}
                            }
                        },
                        None => {
                            let gnew = gr.keys.len();
                            proof {
                                assert(!gs.contains(k)) by {
                                    if gs.contains(k) {
                                        let g2 = choose|g2: int| 0 <= g2 < gs.len() && gs[g2] == k;
                                        assert(gr.keys@[g2]@ == k);
                                    }
                                }
                                assert(group_keys(ks, i + 1) == gs.push(k));
                                assert forall|j: int| 0 <= j < i implies ks[j] != Some(k) by {
                                    if ks[j] == Some(k) {
                                        assert(exists|j2: int| 0 <= j2 < i && ks[j2] == Some(k));
                                    }
                                }
                                lemma_key_count_zero(ks, i as int, k);
                            }
                            let ghost old_kv = gr.keys@.map_values(|s: String| s@);
                            let ghost old_bm = buckets@;
                            let mut b: Vec<usize> = match buckets.remove(&h) {
                                Some(v) => v,
                                None => Vec::new(),
                            };
                            let ghost old_b = b@;
                            b.push(gnew);
                            buckets.insert(h, b);
                            gr.keys.push(key);
                            gr.hashes.push(h);
                            gr.counts.push(1);
                            gr.gidx.push(Some(gnew));
                            proof {
                                let kv = gr.keys@.map_values(|s: String| s@);
                                let gs2 = gs.push(k);
                                assert(kv =~= old_kv.push(k));
                                assert(old_bm.contains_key(h) ==> old_b == old_bm[h]@);
                                assert(!old_bm.contains_key(h) ==> old_b == Seq::<usize>::empty());
                                assert forall|g: int| 0 <= g < kv.len() implies buckets@.contains_key(#[trigger] text_hash(kv[g]))
                                    && buckets@[text_hash(kv[g])]@.contains(g as usize) by {
                                    if g == gnew as int {
                                        assert(buckets@[h]@[old_b.len() as int] == gnew);
                                    } else if text_hash(kv[g]) == h {
                                        assert(old_kv[g] == kv[g]);
                                        let t = choose|t: int| 0 <= t < old_bm[h]@.len() && old_bm[h]@[t] == g as usize;
                                        assert(buckets@[h]@[t] == g as usize);
                                    } else {
                                        assert(old_kv[g] == kv[g]);
                                    }
                                }
                                assert forall|h2: u64, j: int| buckets@.contains_key(h2) && 0 <= j < buckets@[h2]@.len() implies
                                    (#[trigger] buckets@[h2]@[j] as int) < kv.len() && text_hash(kv[buckets@[h2]@[j] as int]) == h2 by {
                                    if h2 == h {
                                        if j < old_b.len() {
                                            assert(buckets@[h2]@[j] == old_bm[h]@[j]);
                                        }
                                    } else {
                                        assert(buckets@[h2] == old_bm[h2]);
                                        assert(old_bm[h2]@[j] == buckets@[h2]@[j]);
                                    }
                                }
                                assert forall|g: int| 0 <= g < gs2.len() implies #[trigger] gr.counts@[g] == key_count(ks, i + 1, gs2[g]) by {
                                    if g < gs.len() {
                                        assert(gs2[g] != k);
                                    }
                                }
                                assert forall|g: int| 0 <= g < gs2.len() implies #[trigger] gr.keys@[g]@ == gs2[g] by {}
                                assert forall|g: int| 0 <= g < gs2.len() implies #[trigger] gr.hashes@[g] == text_hash(gs2[g]) by {}
                                assert forall|i2: int| 0 <= i2 < i + 1 implies match ks[i2] {
                                    Some(k2) => #[trigger] gr.gidx@[i2] matches Some(g3) && g3 < gs2.len() && gs2[g3 as int] == k2,
                                    None => gr.gidx@[i2] is None,
                                } by {}
                            }
                        },
                    }
                },
            }
            i = i + 1;
        }
        gr
    }
}

/// Number of slots of the stat table for `n` entries.
pub open spec fn table_cap(n: int) -> int {
    if 2 * n < 1024 {
        1024
    } else if 2 * n > 65536 {
        65536
    } else {
        2 * n
    }
}

/// Number of slots of the directory index for `g` directories.
pub open spec fn dir_cap(g: int) -> int {
    if 2 * g < 256 {
        256
    } else if 2 * g > 65536 {
        65536
    } else {
        2 * g
    }
}

/// Offset of the stat table in the image.
pub open spec fn table_offset() -> int {
    32808int
}

/// Path hashes of the stat entries.
pub open spec fn stat_hashes(stats: Seq<MmapStatEntry>) -> Seq<u64> {
    stats.map_values(|e: MmapStatEntry| e.path_hash)
}

/// Hashes of the directory keys.
pub open spec fn dir_hashes(gs: Seq<Seq<char>>) -> Seq<u64> {
    gs.map_values(|k: Seq<char>| text_hash(k))
}

/// Stat table slot `s` under the owners `own`.
pub open spec fn table_entry(stats: Seq<MmapStatEntry>, own: Seq<int>, s: int) -> MmapStatEntry {
    if own[s] >= 0 {
        stats[own[s]]
    } else {
        MmapStatEntry { path_hash: 0, size: 0, mtime: 0, mtime_nsec: 0, mode: 0, flags: 0 }
    }
}

/// Directory index entry of group `g`: its key's hash and its run of children.
pub open spec fn dir_entry(ks: Seq<Option<Seq<char>>>, gs: Seq<Seq<char>>, n: int, g: int) -> MmapDirIndexEntry {
    MmapDirIndexEntry {
        parent_hash: text_hash(gs[g]),
        children_start: group_start(ks, gs, n, g) as u32,
        children_count: key_count(ks, n, gs[g]) as u32,
    }
}

/// Directory index slot `s` under the owners `own`.
pub open spec fn dir_table_entry(ks: Seq<Option<Seq<char>>>, gs: Seq<Seq<char>>, n: int, own: Seq<int>, s: int) -> MmapDirIndexEntry {
    if own[s] >= 0 {
        dir_entry(ks, gs, n, own[s])
    } else {
        MmapDirIndexEntry { parent_hash: 0, children_start: 0, children_count: 0 }
    }
}

/// Name field of a child: the first 127 bytes of the name, NUL padded to 128.
pub open spec fn name_field(b: Seq<u8>) -> Seq<u8> {
    Seq::new(128, |k: int| if k < b.len() && k < 127 { b[k] } else { 0u8 })
}

/// Index of directory key `k` among the group keys.
pub open spec fn group_of(gs: Seq<Seq<char>>, k: Seq<char>) -> int {
    choose|g: int| 0 <= g < gs.len() && gs[g] == k
}

/// Position in the children pool of entry `i`: after the children of the
/// earlier groups and after the earlier entries of its own group.
pub open spec fn child_pos(ks: Seq<Option<Seq<char>>>, gs: Seq<Seq<char>>, n: int, i: int) -> int {
    group_start(ks, gs, n, group_of(gs, ks[i]->0)) + key_count(ks, i, ks[i]->0)
}

/// Directory byte of a child.
pub open spec fn dir_byte(e: MmapStatEntry) -> u8 {
    if e.flags & 1 != 0 {
        1u8
    } else {
        0u8
    }
}

/// A child with these fields (and zero padding) is stored at `off`.
pub open spec fn child_fields_at(b: Seq<u8>, off: int, name: Seq<u8>, stat_index: u32, is_dir: u8) -> bool {
    &&& holds_at(b, off, name)
    &&& holds_at(b, off + 128, le_u32(stat_index))
    &&& holds_at(b, off + 132, seq![is_dir])
    &&& holds_at(b, off + 133, seq![0u8, 0u8, 0u8])
}

/// Header of an image with `n` entries, the given capacities and `cc` children.
pub open spec fn image_header(n: int, tc: int, dc: int, cc: int) -> ManifestMmapHeader {
    ManifestMmapHeader {
        magic: MMAP_MAGIC,
        version: MMAP_VERSION,
        entry_count: n as u32,
        bloom_offset: 40,
        table_offset: table_offset() as u32,
        table_capacity: tc as u32,
        dir_index_offset: (table_offset() + 40 * tc) as u32,
        dir_index_capacity: dc as u32,
        children_offset: (table_offset() + 40 * tc + 16 * dc) as u32,
        children_count: cc as u32,
    }
}

pub proof fn lemma_stat_kept(a: Seq<u8>, b: Seq<u8>, off: int, e: MmapStatEntry, lo: int, hi: int)
    requires
        stat_at(a, off, e),
        same_outside(a, b, lo, hi),
        off + 40 <= lo || hi <= off,
    ensures
        stat_at(b, off, e),
{
    lemma_holds_kept(a, b, off, le_u64(e.path_hash), lo, hi);
    lemma_holds_kept(a, b, off + 8, le_u64(e.size), lo, hi);
    lemma_holds_kept(a, b, off + 16, le_u64(e.mtime as u64), lo, hi);
    lemma_holds_kept(a, b, off + 24, le_u64(e.mtime_nsec as u64), lo, hi);
    lemma_holds_kept(a, b, off + 32, le_u32(e.mode), lo, hi);
    lemma_holds_kept(a, b, off + 36, le_u32(e.flags), lo, hi);
}

pub proof fn lemma_dir_entry_kept(a: Seq<u8>, b: Seq<u8>, off: int, d: MmapDirIndexEntry, lo: int, hi: int)
    requires
        dir_entry_at(a, off, d),
        same_outside(a, b, lo, hi),
        off + 16 <= lo || hi <= off,
    ensures
        dir_entry_at(b, off, d),
{
    lemma_holds_kept(a, b, off, le_u64(d.parent_hash), lo, hi);
    lemma_holds_kept(a, b, off + 8, le_u32(d.children_start), lo, hi);
    lemma_holds_kept(a, b, off + 12, le_u32(d.children_count), lo, hi);
}

pub proof fn lemma_child_kept(a: Seq<u8>, b: Seq<u8>, off: int, name: Seq<u8>, si: u32, d: u8, lo: int, hi: int)
    requires
        child_fields_at(a, off, name, si, d),
        name.len() == 128,
        same_outside(a, b, lo, hi),
        off + 136 <= lo || hi <= off,
    ensures
        child_fields_at(b, off, name, si, d),
{
    lemma_holds_kept(a, b, off, name, lo, hi);
    lemma_holds_kept(a, b, off + 128, le_u32(si), lo, hi);
    lemma_holds_kept(a, b, off + 132, seq![d], lo, hi);
    lemma_holds_kept(a, b, off + 133, seq![0u8, 0u8, 0u8], lo, hi);
}

pub proof fn lemma_header_kept(a: Seq<u8>, b: Seq<u8>, h: ManifestMmapHeader, lo: int, hi: int)
    requires
        header_at(a, h),
        same_outside(a, b, lo, hi),
        40 <= lo,
    ensures
        header_at(b, h),
{
    lemma_holds_kept(a, b, 0, le_u32(h.magic), lo, hi);
    lemma_holds_kept(a, b, 4, le_u32(h.version), lo, hi);
    lemma_holds_kept(a, b, 8, le_u32(h.entry_count), lo, hi);
    lemma_holds_kept(a, b, 12, le_u32(h.bloom_offset), lo, hi);
    lemma_holds_kept(a, b, 16, le_u32(h.table_offset), lo, hi);
    lemma_holds_kept(a, b, 20, le_u32(h.table_capacity), lo, hi);
    lemma_holds_kept(a, b, 24, le_u32(h.dir_index_offset), lo, hi);
    lemma_holds_kept(a, b, 28, le_u32(h.dir_index_capacity), lo, hi);
    lemma_holds_kept(a, b, 32, le_u32(h.children_offset), lo, hi);
    lemma_holds_kept(a, b, 36, le_u32(h.children_count), lo, hi);
}

proof fn lemma_group_start_mono(ks: Seq<Option<Seq<char>>>, gs: Seq<Seq<char>>, n: int, g1: int, g2: int)
    requires
        0 <= n,
        0 <= g1 <= g2,
    ensures
        group_start(ks, gs, n, g1) <= group_start(ks, gs, n, g2),
    decreases g2,
{
    if g1 < g2 {
        lemma_group_start_mono(ks, gs, n, g1, g2 - 1);
        lemma_key_count_le(ks, n, gs[g2 - 1]);
    }
}

pub proof fn lemma_key_count_mono(ks: Seq<Option<Seq<char>>>, m: int, n: int, k: Seq<char>)
    requires
        0 <= m <= n,
    ensures
        key_count(ks, m, k) <= key_count(ks, n, k),
        m < n && ks[m] == Some(k) ==> key_count(ks, m, k) < key_count(ks, n, k),
    decreases n - m,
{
    if m < n {
        lemma_key_count_mono(ks, m, n - 1, k);
        if m < n - 1 {
            lemma_key_count_mono(ks, m + 1, n - 1, k);
        }
    }
}

/// Builder of the mmap manifest image, used by the daemon to export the
/// manifest to shared memory.
#[derive(Debug)]
pub struct ManifestMmapBuilder {
    entries: Vec<(String, MmapStatEntry)>,
    bloom: Vec<u8>,
}

impl ManifestMmapBuilder {
    /// Paths added so far, in order.
    pub closed spec fn paths(&self) -> Seq<Seq<char>> {
        Seq::new(self.entries@.len(), |i: int| self.entries@[i].0@)
    }

    /// Stat entries added so far, in order.
    pub closed spec fn stats(&self) -> Seq<MmapStatEntry> {
        Seq::new(self.entries@.len(), |i: int| self.entries@[i].1)
    }

    /// Bytes of the bloom filter.
    pub closed spec fn bloom_bytes(&self) -> Seq<u8> {
        self.bloom@
    }

    /// The builder holds one stat entry per path, keyed by the path's hash,
    /// and a bloom filter of `BLOOM_SIZE` bytes.
    pub open spec fn wf(&self) -> bool {
        &&& self.paths().len() == self.stats().len()
        &&& self.bloom_bytes().len() == BLOOM_SIZE
        &&& forall|i: int| 0 <= i < self.stats().len() ==> #[trigger] self.stats()[i].path_hash
            == text_hash(self.paths()[i])
    }

    /// An empty builder with a clear bloom filter.
    pub fn new() -> (b: Self)
        ensures
            b.wf(),
            b.paths() == Seq::<Seq<char>>::empty(),
            b.stats() == Seq::<MmapStatEntry>::empty(),
            b.bloom_bytes() == Seq::new(BLOOM_SIZE as nat, |i: int| 0u8),
    {
        let mut bloom: Vec<u8> = Vec::new();
        let mut i: usize = 0;
        while i < BLOOM_SIZE
            invariant
                0 <= i <= BLOOM_SIZE,
                bloom@.len() == i,
                forall|j: int| 0 <= j < i ==> bloom@[j] == 0,
            decreases BLOOM_SIZE - i,
        {
            bloom.push(0);
            i = i + 1;
        }
        let b = ManifestMmapBuilder { entries: Vec::new(), bloom };
        assert(b.paths() =~= Seq::<Seq<char>>::empty());
        assert(b.stats() =~= Seq::<MmapStatEntry>::empty());
        assert(b.bloom_bytes() =~= Seq::new(BLOOM_SIZE as nat, |i: int| 0u8));
        b
    }

    /// Add a manifest entry: its stat entry (keyed by the FNV-1a hash of the
    /// path, with the directory and symlink flags) and its two bloom bits.
    pub fn add_entry(&mut self, path: &str, size: u64, mtime: i64, mode: u32, is_dir: bool, is_symlink: bool)
        requires
            old(self).wf(),
            path.spec_bytes().len() + 31 <= usize::MAX,
        ensures
            final(self).wf(),
            final(self).paths() == old(self).paths().push(path@),
            final(self).stats() == old(self).stats().push(
                MmapStatEntry {
                    path_hash: text_hash(path@),
                    size,
                    mtime,
                    mtime_nsec: 0,
                    mode,
                    flags: entry_flags(is_dir, is_symlink),
                },
            ),
            final(self).bloom_bytes() == bloom_add(old(self).bloom_bytes(), path.spec_bytes()),
    {
        let path_hash = fnv1a_hash(path);
        let flags: u32 = (if is_dir { 1u32 } else { 0u32 }) | (if is_symlink { 2u32 } else { 0u32 });
        let (h1, h2) = bloom_hashes(path);
        let b1 = h1 % BLOOM_BITS;
        let b2 = h2 % BLOOM_BITS;
        let v1 = self.bloom[b1 / 8];
        self.bloom.set(b1 / 8, v1 | (1u8 << ((b1 % 8) as u8)));
        let v2 = self.bloom[b2 / 8];
        self.bloom.set(b2 / 8, v2 | (1u8 << ((b2 % 8) as u8)));
        let entry = MmapStatEntry { path_hash, size, mtime, mtime_nsec: 0, mode, flags };
        let ghost old_paths = self.paths();
        let ghost old_stats = self.stats();
        self.entries.push((String::from_str(path), entry));
        assert(self.paths() =~= old_paths.push(path@));
        assert(self.stats() =~= old_stats.push(entry));
    }

    /// Number of entries added.
    pub fn len(&self) -> (n: usize)
        ensures
            n == self.stats().len(),
    {
        self.entries.len()
    }

    /// True if no entry was added.
    pub fn is_empty(&self) -> (r: bool)
        ensures
            r == (self.stats().len() == 0),
    {
        self.entries.len() == 0
    }
}

/// Length law: a builder made by `new` and then given entries for the
/// paths `added`, one `add_entry` call each (repeated paths included),
/// holds those paths in order, so its length is their number and it is
/// empty exactly when none was added. `states[i]` is the builder after `i`
/// calls.
pub proof fn law_len_after_adds(states: Seq<ManifestMmapBuilder>, added: Seq<Seq<char>>)
    requires
        states.len() == added.len() + 1,
        states[0].wf(),
        states[0].paths() == Seq::<Seq<char>>::empty(),
        forall|i: int| 0 <= i < added.len() ==> #[trigger] states[i + 1].paths() == states[i].paths().push(added[i])
            && states[i + 1].wf(),
    ensures
        states.last().paths() == added,
        states.last().stats().len() == added.len(),
        (states.last().stats().len() == 0) == (added.len() == 0),
{
    assert forall|k: int| 0 <= k <= added.len() implies #[trigger] states[k].paths() == added.take(k) by {
        lemma_paths_prefix(states, added, k);
    }
    assert(added.take(added.len() as int) =~= added);
    assert(states.last() == states[added.len() as int]);
}

proof fn lemma_paths_prefix(states: Seq<ManifestMmapBuilder>, added: Seq<Seq<char>>, k: int)
    requires
        states.len() == added.len() + 1,
        states[0].paths() == Seq::<Seq<char>>::empty(),
        forall|i: int| 0 <= i < added.len() ==> #[trigger] states[i + 1].paths() == states[i].paths().push(added[i])
            && states[i + 1].wf(),
        0 <= k <= added.len(),
    ensures
        states[k].paths() == added.take(k),
    decreases k,
{
    if k == 0 {
        assert(added.take(0) =~= Seq::<Seq<char>>::empty());
    } else {
        lemma_paths_prefix(states, added, k - 1);
        assert(states[k].paths() == states[k - 1].paths().push(added[k - 1]));
        assert(added.take(k - 1).push(added[k - 1]) =~= added.take(k));
    }
}

impl Default for ManifestMmapBuilder {
    fn default() -> (b: Self)
        ensures
            b.wf(),
            b.paths() == Seq::<Seq<char>>::empty(),
            b.stats() == Seq::<MmapStatEntry>::empty(),
            b.bloom_bytes() == Seq::new(BLOOM_SIZE as nat, |i: int| 0u8),
    {
        Self::new()
    }
}

} // verus!

verus! {

/// Name field of the child listed for path `p`.
fn name_field_of(p: &str) -> (name: [u8; 128])
    ensures
        name@ == name_field(encode_utf8(child_name(p@))),
{
    let mut name = [0u8; 128];
    match path_file_name(p) {
        None => {
            assert(name@ =~= name_field(encode_utf8(child_name(p@))));
        },
        Some(nm) => {
            let b = nm.as_str().as_bytes();
            let copy_len: usize = if b.len() < 127 { b.len() } else { 127 };
            let mut k: usize = 0;
            while k < copy_len
                invariant
                    copy_len <= 127,
                    copy_len <= b@.len(),
                    0 <= k <= copy_len,
                    name@.len() == 128,
                    forall|t: int| 0 <= t < k ==> name@[t] == b@[t],
                    forall|t: int| k <= t < 128 ==> name@[t] == 0,
                decreases copy_len - k,
            {
                name[k] = b[k];
                k = k + 1;
            }
            proof {
                assert(b@ == encode_utf8(child_name(p@)));
                assert(name@ =~= name_field(b@));
            }
        },
    }
    name
}

/// Index of group `g` agrees with `group_of` when the keys are distinct.
proof fn lemma_group_of(gs: Seq<Seq<char>>, g: int)
    requires
        0 <= g < gs.len(),
        forall|a: int, b: int| 0 <= a < b < gs.len() ==> gs[a] != gs[b],
    ensures
        group_of(gs, gs[g]) == g,
{
    let g2 = group_of(gs, gs[g]);
    assert(0 <= g2 < gs.len() && gs[g2] == gs[g]);
    if g2 < g {
        assert(gs[g2] != gs[g]);
    } else if g < g2 {
        assert(gs[g] != gs[g2]);
    }
}

impl ManifestMmapBuilder {
    /// Directory keys of the entries.
    pub open spec fn keys(&self) -> Seq<Option<Seq<char>>> {
        parent_keys(self.paths())
    }

    /// Distinct directory keys, in order of first appearance.
    pub open spec fn groups(&self) -> Seq<Seq<char>> {
        group_keys(self.keys(), self.stats().len() as int)
    }

    /// Number of slots of the stat table.
    pub open spec fn stat_capacity(&self) -> int {
        table_cap(self.stats().len() as int)
    }

    /// Number of slots of the directory index.
    pub open spec fn dir_capacity(&self) -> int {
        dir_cap(self.groups().len() as int)
    }

    /// Number of children in the pool.
    pub open spec fn children_total(&self) -> int {
        group_start(self.keys(), self.groups(), self.stats().len() as int, self.groups().len() as int)
    }

    /// Offset of the directory index in the image.
    pub open spec fn dir_offset(&self) -> int {
        table_offset() + 40 * self.stat_capacity()
    }

    /// Offset of the children pool in the image.
    pub open spec fn children_offset(&self) -> int {
        self.dir_offset() + 16 * self.dir_capacity()
    }

    /// Size of the image.
    pub open spec fn image_size(&self) -> int {
        mmap_file_size_spec(self.stat_capacity(), self.dir_capacity(), self.children_total())
    }

    /// Owners of the stat table slots.
    pub open spec fn stat_owners(&self) -> Seq<int> {
        placement(stat_hashes(self.stats()), self.stats().len() as int, self.stat_capacity())
    }

    /// Owners of the directory index slots.
    pub open spec fn dir_owners(&self) -> Seq<int> {
        placement(dir_hashes(self.groups()), self.groups().len() as int, self.dir_capacity())
    }

    /// The stat table section of `img` holds the entries placed by linear probing.
    pub open spec fn stat_section_ok(&self, img: Seq<u8>, upto: int) -> bool {
        forall|s: int| 0 <= s < upto ==> stat_at(img, table_offset() + 40 * s, #[trigger] table_entry(self.stats(), self.stat_owners(), s))
    }

    /// The directory index section of `img` holds the groups placed by linear probing.
    pub open spec fn dir_section_ok(&self, img: Seq<u8>, upto: int) -> bool {
        forall|s: int| 0 <= s < upto ==> dir_entry_at(img, self.dir_offset() + 16 * s,
            #[trigger] dir_table_entry(self.keys(), self.groups(), self.stats().len() as int, self.dir_owners(), s))
    }

    /// The child of entry `i` is stored in `img` at its pool position.
    pub open spec fn child_ok(&self, img: Seq<u8>, i: int) -> bool {
        child_fields_at(
            img,
            self.children_offset() + 136 * child_pos(self.keys(), self.groups(), self.stats().len() as int, i),
            name_field(encode_utf8(child_name(self.paths()[i]))),
            chosen_slot(stat_hashes(self.stats()), i, self.stat_capacity()) as u32,
            dir_byte(self.stats()[i]),
        )
    }

    /// The children section of `img` holds a child for every entry (below
    /// `upto`) that has a directory.
    pub open spec fn children_section_ok(&self, img: Seq<u8>, upto: int) -> bool {
        forall|i: int| 0 <= i < upto && (#[trigger] self.keys()[i]) is Some ==> self.child_ok(img, i)
    }

    /// `img` is the mmap image of this builder: header, bloom filter, stat
    /// table, directory index and children pool, each at its offset.
    pub open spec fn image_ok(&self, img: Seq<u8>) -> bool {
        let n = self.stats().len() as int;
        &&& img.len() == self.image_size()
        &&& header_at(img, image_header(n, self.stat_capacity(), self.dir_capacity(), self.children_total()))
        &&& holds_at(img, 40, self.bloom_bytes())
        &&& self.stat_section_ok(img, self.stat_capacity())
        &&& self.dir_section_ok(img, self.dir_capacity())
        &&& self.children_section_ok(img, n)
    }

    /// Write the stat table: slot by slot, the entry placed there or zeros.
    fn write_stat_table(&self, buf: &mut Vec<u8>, own: &Vec<Option<usize>>, tc: usize)
        requires
            self.wf(),
            tc == self.stat_capacity(),
            own@.len() == tc,
            owners_of(own@) == self.stat_owners(),
            forall|s: int| 0 <= s < tc ==> (#[trigger] own@[s] matches Some(j) ==> j < self.stats().len()),
            table_offset() + 40 * tc <= old(buf)@.len(),
        ensures
            same_outside(old(buf)@, final(buf)@, table_offset(), table_offset() + 40 * tc),
            self.stat_section_ok(final(buf)@, tc as int),
    {
        let mut s: usize = 0;
        while s < tc
            invariant
                self.wf(),
                tc == self.stat_capacity(),
                tc <= 65536,
                own@.len() == tc,
                owners_of(own@) == self.stat_owners(),
                forall|s2: int| 0 <= s2 < tc ==> (#[trigger] own@[s2] matches Some(j) ==> j < self.stats().len()),
                table_offset() + 40 * tc <= old(buf)@.len(),
                0 <= s <= tc,
                same_outside(old(buf)@, buf@, table_offset(), table_offset() + 40 * s),
                self.stat_section_ok(buf@, s as int),
            decreases tc - s,
        {
            let e = match own[s] {
                Some(j) => self.entries[j].1,
                None => MmapStatEntry::zeroed(),
            };
            let ghost before = buf@;
            proof {
                assert(e == table_entry(self.stats(), self.stat_owners(), s as int));
            }
            write_stat(buf, 32808 + 40 * s, &e);
            proof {
                crate::mmap_layout::lemma_same_outside_trans(old(buf)@, before, buf@, table_offset(),
                    table_offset() + 40 * s, table_offset() + 40 * (s + 1));
                assert forall|s2: int| 0 <= s2 < s + 1 implies stat_at(buf@, table_offset() + 40 * s2,
                    #[trigger] table_entry(self.stats(), self.stat_owners(), s2)) by {
                    if s2 < s {
                        lemma_stat_kept(before, buf@, table_offset() + 40 * s2, table_entry(self.stats(), self.stat_owners(), s2),
                            table_offset() + 40 * s, table_offset() + 40 * s + 40);
                    }
                }
            }
            s = s + 1;
        }
    }
}

impl ManifestMmapBuilder {
    /// Write the directory index: slot by slot, the group placed there or zeros.
    fn write_dir_table(&self, buf: &mut Vec<u8>, gr: &Grouping, starts: &Vec<usize>, down: &Vec<Option<usize>>, dc: usize, doff: usize)
        requires
            self.wf(),
            grouping_ok(*gr, self.keys(), self.stats().len() as int),
            starts@.len() == self.groups().len(),
            forall|g: int| 0 <= g < self.groups().len() ==> #[trigger] starts@[g] == group_start(self.keys(), self.groups(), self.stats().len() as int, g),
            dc == self.dir_capacity(),
            doff == self.dir_offset(),
            down@.len() == dc,
            owners_of(down@) == self.dir_owners(),
            forall|s: int| 0 <= s < dc ==> (#[trigger] down@[s] matches Some(g) ==> g < self.groups().len()),
            doff + 16 * dc <= old(buf)@.len(),
        ensures
            same_outside(old(buf)@, final(buf)@, doff as int, doff + 16 * dc),
            self.dir_section_ok(final(buf)@, dc as int),
    {
        let mut s: usize = 0;
        while s < dc
            invariant
                self.wf(),
                grouping_ok(*gr, self.keys(), self.stats().len() as int),
                starts@.len() == self.groups().len(),
                forall|g: int| 0 <= g < self.groups().len() ==> #[trigger] starts@[g] == group_start(self.keys(), self.groups(), self.stats().len() as int, g),
                dc == self.dir_capacity(),
                dc <= 65536,
                doff == self.dir_offset(),
                down@.len() == dc,
                owners_of(down@) == self.dir_owners(),
                forall|s2: int| 0 <= s2 < dc ==> (#[trigger] down@[s2] matches Some(g) ==> g < self.groups().len()),
                doff + 16 * dc <= old(buf)@.len(),
                0 <= s <= dc,
                same_outside(old(buf)@, buf@, doff as int, doff + 16 * s),
                self.dir_section_ok(buf@, s as int),
            decreases dc - s,
        {
            let d = match down[s] {
                Some(g) => MmapDirIndexEntry {
                    parent_hash: gr.hashes[g],
                    children_start: starts[g] as u32,
                    children_count: gr.counts[g] as u32,
                },
                None => MmapDirIndexEntry { parent_hash: 0, children_start: 0, children_count: 0 },
            };
            let ghost before = buf@;
            proof {
                assert(d == dir_table_entry(self.keys(), self.groups(), self.stats().len() as int, self.dir_owners(), s as int));
            }
            write_dir_entry(buf, doff + 16 * s, &d);
            proof {
                crate::mmap_layout::lemma_same_outside_trans(old(buf)@, before, buf@, doff as int, doff + 16 * s, doff + 16 * (s + 1));
                assert forall|s2: int| 0 <= s2 < s + 1 implies dir_entry_at(buf@, self.dir_offset() + 16 * s2,
                    #[trigger] dir_table_entry(self.keys(), self.groups(), self.stats().len() as int, self.dir_owners(), s2)) by {
                    if s2 < s {
                        lemma_dir_entry_kept(before, buf@, self.dir_offset() + 16 * s2,
                            dir_table_entry(self.keys(), self.groups(), self.stats().len() as int, self.dir_owners(), s2),
                            doff + 16 * s, doff + 16 * s + 16);
                    }
                }
            }
            s = s + 1;
        }
    }
}

/// Child positions of two different entries with directories differ.
proof fn lemma_child_pos_distinct(ks: Seq<Option<Seq<char>>>, n: int, j: int, i: int)
    requires
        0 <= j < i < n,
        n <= ks.len(),
        ks[j] is Some,
        ks[i] is Some,
    ensures
        ({
            let gs = group_keys(ks, n);
            let pj = child_pos(ks, gs, n, j);
            let pi = group_start(ks, gs, n, group_of(gs, ks[i]->0)) + key_count(ks, i, ks[i]->0);
            pj != pi
        }),
{
    let gs = group_keys(ks, n);
    lemma_group_keys_distinct(ks, n);
    let kj = ks[j]->0;
    let ki = ks[i]->0;
    assert(gs.contains(kj));
    assert(gs.contains(ki));
    let gj = group_of(gs, kj);
    let gi = group_of(gs, ki);
    assert(gs[gj] == kj && 0 <= gj < gs.len());
    assert(gs[gi] == ki && 0 <= gi < gs.len());
    assert(group_start(ks, gs, n, gj + 1) == group_start(ks, gs, n, gj) + key_count(ks, n, gs[gj]));
    assert(group_start(ks, gs, n, gi + 1) == group_start(ks, gs, n, gi) + key_count(ks, n, gs[gi]));
    if kj == ki {
        lemma_key_count_mono(ks, j, i, ki);
    } else {
        lemma_key_count_mono(ks, j, n, kj);
        lemma_key_count_mono(ks, i, n, ki);
        lemma_key_count_le(ks, i, ki);
        lemma_key_count_le(ks, j, kj);
        assert(gj != gi);
        if gj < gi {
            lemma_group_start_mono(ks, gs, n, gj + 1, gi);
        } else {
            lemma_group_start_mono(ks, gs, n, gi + 1, gj);
        }
    }
}

impl ManifestMmapBuilder {
    /// Write the children pool: each entry with a directory goes after the
    /// earlier entries of its group.
    fn write_children(&self, buf: &mut Vec<u8>, gr: &Grouping, starts: &Vec<usize>, slots: &Vec<u32>, coff: usize, cc: usize)
        requires
            self.wf(),
            grouping_ok(*gr, self.keys(), self.stats().len() as int),
            starts@.len() == self.groups().len(),
            forall|g: int| 0 <= g < self.groups().len() ==> #[trigger] starts@[g] == group_start(self.keys(), self.groups(), self.stats().len() as int, g),
            slots@.len() == self.stats().len(),
            forall|i: int| 0 <= i < self.stats().len() ==> #[trigger] slots@[i] as int == chosen_slot(stat_hashes(self.stats()), i, self.stat_capacity()),
            coff == self.children_offset(),
            cc == self.children_total(),
            coff + 136 * cc <= old(buf)@.len(),
        ensures
            same_outside(old(buf)@, final(buf)@, coff as int, coff + 136 * cc),
            self.children_section_ok(final(buf)@, self.stats().len() as int),
    {
        let _len: usize = buf.len();
        let n = self.entries.len();
        let ghost ks = self.keys();
        let ghost gs = self.groups();
        proof {
            lemma_group_keys_distinct(ks, n as int);
        }
        let ng = gr.keys.len();
        let mut fill: Vec<usize> = Vec::new();
        let mut g: usize = 0;
        while g < ng
            invariant
                ng == gs.len(),
                starts@.len() == ng,
                0 <= g <= ng,
                fill@.len() == g,
                forall|g2: int| 0 <= g2 < g ==> #[trigger] fill@[g2] == starts@[g2],
            decreases ng - g,
        {
            fill.push(starts[g]);
            g = g + 1;
        }
        let mut i: usize = 0;
        while i < n
            invariant
                self.wf(),
                n == self.stats().len(),
                ks == self.keys(),
                gs == self.groups(),
                ks.len() == n,
                grouping_ok(*gr, ks, n as int),
                forall|a: int, b: int| 0 <= a < b < gs.len() ==> gs[a] != gs[b],
                forall|k: Seq<char>| #[trigger] gs.contains(k) <==> exists|t: int| 0 <= t < n && ks[t] == Some(k),
                starts@.len() == gs.len(),
                forall|g2: int| 0 <= g2 < gs.len() ==> #[trigger] starts@[g2] == group_start(ks, gs, n as int, g2),
                slots@.len() == n,
                forall|i2: int| 0 <= i2 < n ==> #[trigger] slots@[i2] as int == chosen_slot(stat_hashes(self.stats()), i2, self.stat_capacity()),
                coff == self.children_offset(),
                cc == self.children_total(),
                coff + 136 * cc <= old(buf)@.len(),
                old(buf)@.len() <= usize::MAX,
                0 <= i <= n,
                fill@.len() == gs.len(),
                forall|g2: int| 0 <= g2 < gs.len() ==> #[trigger] fill@[g2] == group_start(ks, gs, n as int, g2) + key_count(ks, i as int, gs[g2]),
                same_outside(old(buf)@, buf@, coff as int, coff + 136 * cc),
                self.children_section_ok(buf@, i as int),
            decreases n - i,
        {
            proof {
                assert(ks[i as int] == parent_key(self.paths()[i as int]));
            }
            match gr.gidx[i] {
                None => {
                    proof {
                        assert forall|g2: int| 0 <= g2 < gs.len() implies #[trigger] fill@[g2] == group_start(ks, gs, n as int, g2)
                            + key_count(ks, i + 1, gs[g2]) by {}
                        assert forall|i2: int| 0 <= i2 < i + 1 && (#[trigger] self.keys()[i2]) is Some implies self.child_ok(buf@, i2) by {}
                    }
                },
                Some(g) => {
                    let ghost k = gs[g as int];
                    proof {
                        assert(ks[i as int] == Some(k));
                        lemma_group_of(gs, g as int);
                        lemma_key_count_mono(ks, i as int, n as int, k);
                        lemma_group_start_mono(ks, gs, n as int, g + 1, gs.len() as int);
                        lemma_key_count_le(ks, n as int, k);
                    }
                    let pos = fill[g];
                    proof {
                        assert(pos < group_start(ks, gs, n as int, g + 1));
                        assert(pos < cc);
                    }
                    fill.set(g, pos + 1);
                    let name = name_field_of(self.entries[i].0.as_str());
                    let child = MmapDirChild {
                        name,
                        stat_index: slots[i],
                        is_dir: if self.entries[i].1.flags & 1 != 0 { 1u8 } else { 0u8 },
                        _pad: [0u8; 3],
                    };
                    let ghost before = buf@;
                    let off = coff + 136 * pos;
                    write_child(buf, off, &child);
                    proof {
                        assert(child._pad@ =~= seq![0u8, 0u8, 0u8]);
                        assert(child_pos(ks, gs, n as int, i as int) == pos);
                        assert(self.child_ok(buf@, i as int));
                        assert(same_outside(old(buf)@, buf@, coff as int, coff + 136 * cc)) by {
                            assert forall|t: int| 0 <= t < old(buf)@.len() && !(coff <= t < coff + 136 * cc) implies #[trigger] buf@[t] == old(buf)@[t] by {
                                assert(buf@[t] == before[t]);
                            }
                        }
                        assert forall|g2: int| 0 <= g2 < gs.len() implies #[trigger] fill@[g2] == group_start(ks, gs, n as int, g2)
                            + key_count(ks, i + 1, gs[g2]) by {
                            if g2 != g as int {
                                assert(gs[g2] != k);
                            }
                        }
                        assert forall|j: int| 0 <= j < i + 1 && (#[trigger] self.keys()[j]) is Some implies self.child_ok(buf@, j) by {
                            if j < i {
                                lemma_child_pos_distinct(ks, n as int, j, i as int);
                                let pj = child_pos(ks, gs, n as int, j);
                                lemma_child_pos_bounds(ks, n as int, j);
                                lemma_child_kept(before, buf@, coff + 136 * pj, name_field(encode_utf8(child_name(self.paths()[j]))),
                                    chosen_slot(stat_hashes(self.stats()), j, self.stat_capacity()) as u32, dir_byte(self.stats()[j]),
                                    off as int, off + 136);
                            }
                        }
                    }
                },
            }
            i = i + 1;
        }
    }
}

/// A child position is a pool index.
proof fn lemma_child_pos_bounds(ks: Seq<Option<Seq<char>>>, n: int, i: int)
    requires
        0 <= i < n,
        n <= ks.len(),
        ks[i] is Some,
    ensures
        0 <= child_pos(ks, group_keys(ks, n), n, i) < group_start(ks, group_keys(ks, n), n, group_keys(ks, n).len() as int),
{
    let gs = group_keys(ks, n);
    lemma_group_keys_distinct(ks, n);
    let k = ks[i]->0;
    assert(gs.contains(k));
    let g = group_of(gs, k);
    assert(gs[g] == k && 0 <= g < gs.len());
    assert(group_start(ks, gs, n, g + 1) == group_start(ks, gs, n, g) + key_count(ks, n, gs[g]));
    lemma_key_count_mono(ks, i, n, k);
    lemma_key_count_le(ks, i, k);
    lemma_group_start_mono(ks, gs, n, 0, g);
    lemma_group_start_mono(ks, gs, n, g + 1, gs.len() as int);
}

impl ManifestMmapBuilder {
    proof fn lemma_stat_section_kept(&self, a: Seq<u8>, b: Seq<u8>, lo: int, hi: int)
        requires
            self.stat_section_ok(a, self.stat_capacity()),
            same_outside(a, b, lo, hi),
            table_offset() + 40 * self.stat_capacity() <= lo,
        ensures
            self.stat_section_ok(b, self.stat_capacity()),
    {
        assert forall|s: int| 0 <= s < self.stat_capacity() implies stat_at(b, table_offset() + 40 * s,
            #[trigger] table_entry(self.stats(), self.stat_owners(), s)) by {
            lemma_stat_kept(a, b, table_offset() + 40 * s, table_entry(self.stats(), self.stat_owners(), s), lo, hi);
        }
    }

    proof fn lemma_dir_section_kept(&self, a: Seq<u8>, b: Seq<u8>, lo: int, hi: int)
        requires
            self.dir_section_ok(a, self.dir_capacity()),
            same_outside(a, b, lo, hi),
            self.dir_offset() + 16 * self.dir_capacity() <= lo,
        ensures
            self.dir_section_ok(b, self.dir_capacity()),
    {
        assert forall|s: int| 0 <= s < self.dir_capacity() implies dir_entry_at(b, self.dir_offset() + 16 * s,
            #[trigger] dir_table_entry(self.keys(), self.groups(), self.stats().len() as int, self.dir_owners(), s)) by {
            lemma_dir_entry_kept(a, b, self.dir_offset() + 16 * s,
                dir_table_entry(self.keys(), self.groups(), self.stats().len() as int, self.dir_owners(), s), lo, hi);
        }
    }

    /// Whether the image of the entries added fits in the address space, as
    /// `build_image` needs.
    pub fn image_fits(&self) -> (r: bool)
        requires
            self.wf(),
        ensures
            r == (self.image_size() <= usize::MAX),
    {
        let n = self.entries.len();
        let gr = self.group_entries();
        let ghost ks = self.keys();
        let ghost gs = self.groups();
        let ng = gr.keys.len();
        let tc: usize = if n < 512 { 1024 } else if n > 32768 { 65536 } else { 2 * n };
        let dc: usize = if ng < 128 { 256 } else if ng > 32768 { 65536 } else { 2 * ng };
        assert(n == self.stats().len());
        let mut total: u128 = 0;
        let mut g: usize = 0;
        while g < ng
            invariant
                ng == gs.len(),
                gs == group_keys(ks, n as int),
                grouping_ok(gr, ks, n as int),
                0 <= g <= ng,
                total == group_start(ks, gs, n as int, g as int),
                total <= usize::MAX,
                ks == self.keys(),
                gs == self.groups(),
                n == self.stats().len(),
            decreases ng - g,
        {
            total = total + gr.counts[g] as u128;
            g = g + 1;
            if total > usize::MAX as u128 {
                proof {
                    lemma_group_start_mono(ks, gs, n as int, g as int, ng as int);
                }
                return false;
            }
        }
        assert(total == self.children_total());
        assert(tc == self.stat_capacity());
        assert(dc == self.dir_capacity());
        let size: u128 = 32808 + 40 * (tc as u128) + 16 * (dc as u128) + 136 * total;
        size <= usize::MAX as u128
    }

    /// Lay out the mmap image: header, bloom filter, stat table (entries
    /// placed by linear probing from their path hash), directory index
    /// (directories placed the same way from the hash of their path) and
    /// children pool (the entries of each directory, directories in order of
    /// first appearance, entries in the order they were added).
    pub fn build_image(&self) -> (img: Vec<u8>)
        requires
            self.wf(),
            self.image_size() <= usize::MAX,
        ensures
            self.image_ok(img@),
    {
        let n = self.entries.len();
        let gr = self.group_entries();
        let ghost ks = self.keys();
        let ghost gs = self.groups();
        let ng = gr.keys.len();
        let tc: usize = if n < 512 { 1024 } else if n > 32768 { 65536 } else { 2 * n };
        let dc: usize = if ng < 128 { 256 } else if ng > 32768 { 65536 } else { 2 * ng };
        let mut starts: Vec<usize> = Vec::new();
        let mut total: usize = 0;
        let mut g: usize = 0;
        while g < ng
            invariant
                ng == gs.len(),
                gs == group_keys(ks, n as int),
                grouping_ok(gr, ks, n as int),
                self.image_size() <= usize::MAX,
                self.children_total() == group_start(ks, gs, n as int, ng as int),
                self.image_size() == mmap_file_size_spec(self.stat_capacity(), self.dir_capacity(), self.children_total()),
                0 <= g <= ng,
                starts@.len() == g,
                forall|g2: int| 0 <= g2 < g ==> #[trigger] starts@[g2] == group_start(ks, gs, n as int, g2),
                total == group_start(ks, gs, n as int, g as int),
            decreases ng - g,
        {
            proof {
                lemma_group_start_mono(ks, gs, n as int, g + 1, ng as int);
                lemma_key_count_le(ks, n as int, gs[g as int]);
            }
            starts.push(total);
            total = total + gr.counts[g];
            g = g + 1;
        }
        let size = mmap_file_size(tc, dc, total);
        let mut buf: Vec<u8> = Vec::new();
        let mut z: usize = 0;
        while z < size
            invariant
                0 <= z <= size,
                buf@.len() == z,
            decreases size - z,
        {
            buf.push(0);
            z = z + 1;
        }
        let header = ManifestMmapHeader::new(n as u32, tc as u32, dc as u32, total as u32);
        let ghost b0 = buf@;
        write_header(&mut buf, &header);
        let ghost b1 = buf@;
        write_bytes(&mut buf, 40, self.bloom.as_slice());
        let ghost b2 = buf@;
        let mut hs: Vec<u64> = Vec::new();
        let mut i: usize = 0;
        while i < n
            invariant
                n == self.stats().len(),
                0 <= i <= n,
                hs@.len() == i,
                forall|i2: int| 0 <= i2 < i ==> #[trigger] hs@[i2] == self.stats()[i2].path_hash,
            decreases n - i,
        {
            hs.push(self.entries[i].1.path_hash);
            i = i + 1;
        }
        proof {
            assert(hs@ =~= stat_hashes(self.stats()));
            assert(gr.hashes@ =~= dir_hashes(gs));
        }
        let (own, slots) = place_all(&hs, tc);
        self.write_stat_table(&mut buf, &own, tc);
        let ghost b3 = buf@;
        let (down, _dslots) = place_all(&gr.hashes, dc);
        let doff = 32808 + 40 * tc;
        self.write_dir_table(&mut buf, &gr, &starts, &down, dc, doff);
        let ghost b4 = buf@;
        let coff = doff + 16 * dc;
        self.write_children(&mut buf, &gr, &starts, &slots, coff, total);
        proof {
            let b5 = buf@;
            let end = coff + 136 * total;
            crate::mmap_layout::lemma_same_outside_trans(b3, b4, b5, doff as int, coff as int, end);
            crate::mmap_layout::lemma_same_outside_trans(b2, b3, b5, table_offset(), doff as int, end);
            crate::mmap_layout::lemma_same_outside_trans(b1, b2, b5, 40, table_offset(), end);
            assert(header == image_header(n as int, tc as int, dc as int, total as int));
            lemma_header_kept(b1, b5, header, 40, end);
            lemma_holds_kept(b2, b5, 40, self.bloom_bytes(), table_offset(), end);
            self.lemma_stat_section_kept(b3, b5, doff as int, end);
            self.lemma_dir_section_kept(b4, b5, coff as int, end);
        }
        buf
    }
}

} // verus!
