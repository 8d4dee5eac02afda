//! Modification layer of the persistent manifest: per-session inserts,
//! stale marks and deletions (whiteouts) kept in concurrent maps over the
//! immutable base layer, how a read merges the two layers, and the writes
//! that commit the layer to the base.
use vstd::prelude::*;
use vstd::string::StringSliceAdditionalSpecFns;
use dashmap::DashMap;
use std::collections::hash_map::RandomState;
use crate::manifest::{AssetTier, Blake3Hash, DeltaEntry, ManifestEntry, VnodeEntry, blake3_digest,
    compute_path_hash, normalize_vfs_path_spec};

verus! {

#[verifier::external_type_specification]
#[verifier::external_body]
#[verifier::reject_recursive_types(K)]
#[verifier::reject_recursive_types(V)]
#[verifier::reject_recursive_types(S)]
pub struct ExDashMap<K, V, S>(DashMap<K, V, S>);

/// Entries held by a map of modification entries.
pub uninterp spec fn delta_map(m: DashMap<Blake3Hash, DeltaEntry, RandomState>) -> Map<Blake3Hash, DeltaEntry>;

/// Entries held by a map of paths.
pub uninterp spec fn path_map(m: DashMap<Blake3Hash, String, RandomState>) -> Map<Blake3Hash, Seq<char>>;

/// No modification entries.
pub open spec fn no_deltas() -> Map<Blake3Hash, DeltaEntry> {
    Map::empty()
}

/// No paths.
pub open spec fn no_paths() -> Map<Blake3Hash, Seq<char>> {
    Map::empty()
}

/// Calls `DashMap::new`: an empty map.
#[verifier::external_body]
fn delta_map_new() -> (m: DashMap<Blake3Hash, DeltaEntry, RandomState>)
    ensures
        delta_map(m) == no_deltas(),
{
    DashMap::new()
}

/// Calls `DashMap::new`: an empty map.
#[verifier::external_body]
fn path_map_new() -> (m: DashMap<Blake3Hash, String, RandomState>)
    ensures
        path_map(m) == no_paths(),
{
    DashMap::new()
}

/// Calls `DashMap::insert`: the key now maps to the value.
#[verifier::external_body]
fn delta_map_insert(m: &mut DashMap<Blake3Hash, DeltaEntry, RandomState>, k: Blake3Hash, v: DeltaEntry)
    ensures
        delta_map(*final(m)) == delta_map(*old(m)).insert(k, v),
{
    m.insert(k, v);
}

/// Calls `DashMap::insert`: the key now maps to the path.
#[verifier::external_body]
fn path_map_insert(m: &mut DashMap<Blake3Hash, String, RandomState>, k: Blake3Hash, v: String)
    ensures
        path_map(*final(m)) == path_map(*old(m)).insert(k, v@),
{
    m.insert(k, v);
}

/// Calls `DashMap::remove`: the key no longer maps to anything.
#[verifier::external_body]
fn path_map_remove(m: &mut DashMap<Blake3Hash, String, RandomState>, k: &Blake3Hash)
    ensures
        path_map(*final(m)) == path_map(*old(m)).remove(*k),
{
    m.remove(k);
}

/// Calls `DashMap::get` and copies the value out.
#[verifier::external_body]
fn delta_map_get(m: &DashMap<Blake3Hash, DeltaEntry, RandomState>, k: &Blake3Hash) -> (r: Option<DeltaEntry>)
    ensures
        r == (if delta_map(*m).contains_key(*k) { Some(delta_map(*m)[*k]) } else { None }),
{
    match m.get(k) {
        Some(e) => Some(*e.value()),
        None => None,
    }
}

/// Calls `DashMap::get` and clones the path out.
#[verifier::external_body]
fn path_map_get(m: &DashMap<Blake3Hash, String, RandomState>, k: &Blake3Hash) -> (r: Option<String>)
    ensures
        r is Some <==> path_map(*m).contains_key(*k),
        r matches Some(p) ==> p@ == path_map(*m)[*k],
{
    match m.get(k) {
        Some(p) => Some(p.value().clone()),
        None => None,
    }
}

/// Calls `DashMap::clear`: the map holds nothing.
#[verifier::external_body]
fn delta_map_clear(m: &mut DashMap<Blake3Hash, DeltaEntry, RandomState>)
    ensures
        delta_map(*final(m)) == no_deltas(),
{
    m.clear();
}

/// Calls `DashMap::clear`: the map holds nothing.
#[verifier::external_body]
fn path_map_clear(m: &mut DashMap<Blake3Hash, String, RandomState>)
    ensures
        path_map(*final(m)) == no_paths(),
{
    m.clear();
}

/// Walks the map with `DashMap::iter` and copies out every entry, in the
/// map's (unspecified) order: each key once, with its value.
#[verifier::external_body]
fn delta_map_entries(m: &DashMap<Blake3Hash, DeltaEntry, RandomState>) -> (v: Vec<(Blake3Hash, DeltaEntry)>)
    ensures
        forall|i: int| 0 <= i < v@.len() ==> delta_map(*m).contains_key(#[trigger] v@[i].0) && delta_map(*m)[v@[i].0] == v@[i].1,
        forall|k: Blake3Hash| delta_map(*m).contains_key(k) ==> exists|i: int| 0 <= i < v@.len() && #[trigger] v@[i].0 == k,
        forall|i: int, j: int| 0 <= i < j < v@.len() ==> v@[i].0 != v@[j].0,
{
    let mut v = Vec::new();
    for e in m.iter() {
        v.push((*e.key(), *e.value()));
    }
    v
}

/// What the modification layer says of a path hash.
#[derive(Debug, Clone, Copy)]
pub enum DeltaLookup {
    /// Modified or new entry.
    Hit(ManifestEntry),
    /// Deleted in this session.
    Whiteout,
    /// Not touched in this session: the base layer decides.
    Miss,
}

/// A read through both layers: the modification layer first, then the base.
pub open spec fn merged_read(delta: Map<Blake3Hash, DeltaEntry>, base: Map<Blake3Hash, ManifestEntry>, h: Blake3Hash) -> Option<ManifestEntry> {
    if delta.contains_key(h) {
        match delta[h] {
            DeltaEntry::Modified(e) => Some(e),
            DeltaEntry::Deleted => None,
        }
    } else if base.contains_key(h) {
        Some(base[h])
    } else {
        None
    }
}

/// One write of a commit to the base layer.
#[derive(Debug, Clone)]
pub enum CommitOp {
    /// Store the entry (and its path, when known) under the hash.
    Put { hash: Blake3Hash, entry: ManifestEntry, path: Option<String> },
    /// Delete the entry and path stored under the hash.
    Delete { hash: Blake3Hash },
}

/// Base entries after one write.
pub open spec fn apply_op(base: Map<Blake3Hash, ManifestEntry>, op: CommitOp) -> Map<Blake3Hash, ManifestEntry> {
    match op {
        CommitOp::Put { hash, entry, path } => base.insert(hash, entry),
        CommitOp::Delete { hash } => base.remove(hash),
    }
}

/// Base entries after the writes, in order.
pub open spec fn apply_ops(base: Map<Blake3Hash, ManifestEntry>, ops: Seq<CommitOp>) -> Map<Blake3Hash, ManifestEntry>
    decreases ops.len(),
{
    if ops.len() == 0 {
        base
    } else {
        apply_op(apply_ops(base, ops.drop_last()), ops.last())
    }
}

/// Hash a write applies to.
pub open spec fn op_hash(op: CommitOp) -> Blake3Hash {
    match op {
        CommitOp::Put { hash, entry, path } => hash,
        CommitOp::Delete { hash } => hash,
    }
}

/// The writes commit exactly the modification layer: one write per
/// modified or deleted hash, a put of the entry or a delete.
pub open spec fn commits(ops: Seq<CommitOp>, delta: Map<Blake3Hash, DeltaEntry>) -> bool {
    &&& forall|i: int| 0 <= i < ops.len() ==> delta.contains_key(#[trigger] op_hash(ops[i])) && match delta[op_hash(ops[i])] {
        DeltaEntry::Modified(e) => ops[i] matches CommitOp::Put { hash, entry, path } && entry == e,
        DeltaEntry::Deleted => ops[i] is Delete,
    }
    &&& forall|h: Blake3Hash| delta.contains_key(h) ==> exists|i: int| 0 <= i < ops.len() && #[trigger] op_hash(ops[i]) == h
    &&& forall|i: int, j: int| 0 <= i < j < ops.len() ==> op_hash(ops[i]) != op_hash(ops[j])
}

/// The write `op` commits the modification entry `e` of hash `h`: a put of
/// the entry, with its path when `paths` holds one, or a delete.
pub open spec fn commits_entry(op: CommitOp, h: Blake3Hash, e: DeltaEntry, paths: Map<Blake3Hash, Seq<char>>) -> bool {
    &&& op_hash(op) == h
    &&& match e {
        DeltaEntry::Modified(me) => op matches CommitOp::Put { hash, entry, path } && entry == me
            && (path is Some <==> paths.contains_key(hash)) && (path matches Some(p) ==> p@ == paths[hash]),
        DeltaEntry::Deleted => op is Delete,
    }
}

/// The path hash of a manifest path.
pub open spec fn manifest_path_hash(path: &str) -> Seq<u8> {
    blake3_digest(normalize_vfs_path_spec(path.spec_bytes()))
}

/// The modification layer: entries and paths keyed by path hash.
pub struct DeltaLayer {
    delta: DashMap<Blake3Hash, DeltaEntry, RandomState>,
    delta_paths: DashMap<Blake3Hash, String, RandomState>,
}

impl DeltaLayer {
    /// Modification entries by path hash.
    pub closed spec fn entries(&self) -> Map<Blake3Hash, DeltaEntry> {
        delta_map(self.delta)
    }

    /// Paths of the modified entries by path hash.
    pub closed spec fn paths(&self) -> Map<Blake3Hash, Seq<char>> {
        path_map(self.delta_paths)
    }

    /// Every recorded path belongs to a modification entry.
    pub open spec fn wf(&self) -> bool {
        self.paths().dom().subset_of(self.entries().dom())
    }

    /// An empty layer.
    pub fn new() -> (d: Self)
        ensures
            d.wf(),
            d.entries() == Map::<Blake3Hash, DeltaEntry>::empty(),
            d.paths() == Map::<Blake3Hash, Seq<char>>::empty(),
    {
        DeltaLayer { delta: delta_map_new(), delta_paths: path_map_new() }
    }

    /// Record a new or modified entry for `path` (not stale).
    pub fn insert(&mut self, path: &str, vnode: VnodeEntry, tier: AssetTier)
        requires
            old(self).wf(),
        ensures
            final(self).wf(),
            ({
                let h = compute_hash_of(path);
                &&& final(self).entries() == old(self).entries().insert(h, DeltaEntry::Modified(ManifestEntry { vnode, tier, stale: false }))
                &&& final(self).paths() == old(self).paths().insert(h, path@)
            }),
    {
        let hash = compute_path_hash(path);
        let entry = ManifestEntry { vnode, tier, stale: false };
        delta_map_insert(&mut self.delta, hash, DeltaEntry::Modified(entry));
        path_map_insert(&mut self.delta_paths, hash, String::from_str(path));
        proof { lemma_hash_of(path, hash); }
    }

    /// Record a deletion (whiteout) of `path`.
    pub fn remove(&mut self, path: &str)
        requires
            old(self).wf(),
        ensures
            final(self).wf(),
            ({
                let h = compute_hash_of(path);
                &&& final(self).entries() == old(self).entries().insert(h, DeltaEntry::Deleted)
                &&& final(self).paths() == old(self).paths().remove(h)
            }),
    {
        let hash = compute_path_hash(path);
        delta_map_insert(&mut self.delta, hash, DeltaEntry::Deleted);
        path_map_remove(&mut self.delta_paths, &hash);
        proof { lemma_hash_of(path, hash); }
    }

    /// What the layer says of a hash.
    pub fn lookup(&self, hash: &Blake3Hash) -> (r: DeltaLookup)
        ensures
            self.entries().contains_key(*hash) ==> match self.entries()[*hash] {
                DeltaEntry::Modified(e) => r matches DeltaLookup::Hit(x) && x == e,
                DeltaEntry::Deleted => r is Whiteout,
            },
            !self.entries().contains_key(*hash) ==> r is Miss,
    {
        match delta_map_get(&self.delta, hash) {
            None => DeltaLookup::Miss,
            Some(DeltaEntry::Modified(e)) => DeltaLookup::Hit(e),
            Some(DeltaEntry::Deleted) => DeltaLookup::Whiteout,
        }
    }

    /// Path recorded for a hash in this layer.
    pub fn path_of(&self, hash: &Blake3Hash) -> (r: Option<String>)
        ensures
            r is Some <==> self.paths().contains_key(*hash),
            r matches Some(p) ==> p@ == self.paths()[*hash],
    {
        path_map_get(&self.delta_paths, hash)
    }

    /// Mark `path` stale (pending re-ingest after a write). A modified entry
    /// of this layer is marked in place (a whiteout stays); otherwise the
    /// base entry `base_entry`, if any, is copied into this layer marked
    /// stale, with its base path `base_path` when known.
    pub fn mark_stale(&mut self, path: &str, base_entry: Option<ManifestEntry>, base_path: Option<String>)
        requires
            old(self).wf(),
        ensures
            final(self).wf(),
            ({
                let h = compute_hash_of(path);
                let d = old(self).entries();
                if d.contains_key(h) {
                    &&& final(self).paths() == old(self).paths()
                    &&& final(self).entries() == match d[h] {
                        DeltaEntry::Modified(e) => d.insert(h, DeltaEntry::Modified(ManifestEntry { stale: true, ..e })),
                        DeltaEntry::Deleted => d,
                    }
                } else {
                    match base_entry {
                        None => final(self).entries() == d && final(self).paths() == old(self).paths(),
                        Some(e) => {
                            &&& final(self).entries() == d.insert(h, DeltaEntry::Modified(ManifestEntry { stale: true, ..e }))
                            &&& final(self).paths() == match base_path {
                                Some(p) => old(self).paths().insert(h, p@),
                                None => old(self).paths(),
                            }
                        },
                    }
                }
            }),
    {
        let hash = compute_path_hash(path);
        proof { lemma_hash_of(path, hash); }
        match delta_map_get(&self.delta, &hash) {
            Some(DeltaEntry::Modified(e)) => {
                let marked = ManifestEntry { stale: true, ..e };
                delta_map_insert(&mut self.delta, hash, DeltaEntry::Modified(marked));
                assert(self.entries().dom() =~= old(self).entries().dom());
            },
            Some(DeltaEntry::Deleted) => {},
            None => {
                match base_entry {
                    None => {},
                    Some(e) => {
                        let marked = ManifestEntry { stale: true, ..e };
                        delta_map_insert(&mut self.delta, hash, DeltaEntry::Modified(marked));
                        match base_path {
                            Some(p) => path_map_insert(&mut self.delta_paths, hash, p),
                            None => {},
                        }
                    },
                }
            },
        }
    }

    /// Whether the layer holds no modification.
    pub fn is_empty(&self) -> (r: bool)
        ensures
            r == (self.entries() == Map::<Blake3Hash, DeltaEntry>::empty()),
    {
        let es = delta_map_entries(&self.delta);
        proof {
            if es@.len() == 0 {
                assert(self.entries() =~= Map::<Blake3Hash, DeltaEntry>::empty());
            } else {
                assert(self.entries().contains_key(es@[0].0));
            }
        }
        es.len() == 0
    }

    /// The writes that commit this layer to the base (in the layer's
    /// iteration order): a put of each modified entry with its path, a
    /// delete of each whiteout.
    pub fn commit_ops(&self) -> (ops: Vec<CommitOp>)
        ensures
            commits(ops@, self.entries()),
            forall|i: int| 0 <= i < ops@.len() ==> (#[trigger] ops@[i] matches CommitOp::Put { hash, entry, path } ==> (
                path is Some <==> self.paths().contains_key(hash)) && (path matches Some(p) ==> p@ == self.paths()[hash])),
    {
        let es = delta_map_entries(&self.delta);
        let mut ops: Vec<CommitOp> = Vec::new();
        let mut i: usize = 0;
        while i < es.len()
            invariant
                0 <= i <= es@.len(),
                ops@.len() == i,
                forall|t: int| 0 <= t < es@.len() ==> self.entries().contains_key(#[trigger] es@[t].0)
                    && self.entries()[es@[t].0] == es@[t].1,
                forall|t: int, u: int| 0 <= t < u < es@.len() ==> es@[t].0 != es@[u].0,
                forall|t: int| 0 <= t < i ==> #[trigger] commits_entry(ops@[t], es@[t].0, es@[t].1, self.paths()),
            decreases es@.len() - i,
        {
            let pair = es[i];
            let op = match pair.1 {
                DeltaEntry::Modified(me) => CommitOp::Put { hash: pair.0, entry: me, path: path_map_get(&self.delta_paths, &pair.0) },
                DeltaEntry::Deleted => CommitOp::Delete { hash: pair.0 },
            };
            assert(commits_entry(op, es@[i as int].0, es@[i as int].1, self.paths()));
            let ghost old_ops = ops@;
            ops.push(op);
            proof {
                assert forall|t: int| 0 <= t < i + 1 implies #[trigger] commits_entry(ops@[t], es@[t].0, es@[t].1, self.paths()) by {
                    if t < i {
                        assert(ops@[t] == old_ops[t]);
                    }
                }
            }
            i = i + 1;
        }
        proof {
            assert forall|t: int| 0 <= t < ops@.len() implies (#[trigger] ops@[t] matches CommitOp::Put { hash, entry, path } ==> (
                path is Some <==> self.paths().contains_key(hash)) && (path matches Some(p) ==> p@ == self.paths()[hash])) by {
                assert(commits_entry(ops@[t], es@[t].0, es@[t].1, self.paths()));
            }
            assert forall|t: int| 0 <= t < ops@.len() implies self.entries().contains_key(#[trigger] op_hash(ops@[t])) && match self.entries()[op_hash(ops@[t])] {
                DeltaEntry::Modified(e) => ops@[t] matches CommitOp::Put { hash, entry, path } && entry == e,
                DeltaEntry::Deleted => ops@[t] is Delete,
            } by {
                assert(commits_entry(ops@[t], es@[t].0, es@[t].1, self.paths()));
            }
            assert forall|h: Blake3Hash| self.entries().contains_key(h) implies exists|t: int| 0 <= t < ops@.len() && #[trigger] op_hash(ops@[t]) == h by {
                let t = choose|t: int| 0 <= t < es@.len() && #[trigger] es@[t].0 == h;
                assert(commits_entry(ops@[t], es@[t].0, es@[t].1, self.paths()));
                assert(op_hash(ops@[t]) == h);
            }
            assert forall|t: int, u: int| 0 <= t < u < ops@.len() implies op_hash(ops@[t]) != op_hash(ops@[u]) by {
                assert(commits_entry(ops@[t], es@[t].0, es@[t].1, self.paths()));
                assert(commits_entry(ops@[u], es@[u].0, es@[u].1, self.paths()));
            }
        }
        ops
    }

    /// Each key of the layer once (in the layer's iteration order), with
    /// whether its entry is a modification (else a whiteout).
    pub fn touched(&self) -> (v: Vec<(Blake3Hash, bool)>)
        ensures
            forall|i: int| 0 <= i < v@.len() ==> self.entries().contains_key(#[trigger] v@[i].0)
                && v@[i].1 == (self.entries()[v@[i].0] is Modified),
            forall|h: Blake3Hash| self.entries().contains_key(h) ==> exists|i: int| 0 <= i < v@.len() && #[trigger] v@[i].0 == h,
            forall|i: int, j: int| 0 <= i < j < v@.len() ==> v@[i].0 != v@[j].0,
    {
        let es = delta_map_entries(&self.delta);
        let mut v: Vec<(Blake3Hash, bool)> = Vec::new();
        let mut i: usize = 0;
        while i < es.len()
            invariant
                0 <= i <= es@.len(),
                v@.len() == i,
                forall|t: int| 0 <= t < i ==> #[trigger] v@[t] == (es@[t].0, es@[t].1 is Modified),
            decreases es@.len() - i,
        {
            let pair = es[i];
            let m = match pair.1 {
                DeltaEntry::Modified(_) => true,
                DeltaEntry::Deleted => false,
            };
            v.push((pair.0, m));
            i = i + 1;
        }
        assert forall|h: Blake3Hash| self.entries().contains_key(h) implies exists|t: int| 0 <= t < v@.len() && #[trigger] v@[t].0 == h by {
            let t = choose|t: int| 0 <= t < es@.len() && #[trigger] es@[t].0 == h;
            assert(v@[t].0 == h);
        }
        assert forall|a: int, b: int| 0 <= a < b < v@.len() implies v@[a].0 != v@[b].0 by {
            assert(v@[a].0 == es@[a].0 && v@[b].0 == es@[b].0);
        }
        v
    }

    /// The modified entries whose path is recorded, each once (in the
    /// layer's iteration order), with hash and path.
    pub fn modified_listing(&self) -> (v: Vec<(Blake3Hash, String, ManifestEntry)>)
        ensures
            forall|i: int| 0 <= i < v@.len() ==> self.entries().contains_key(#[trigger] v@[i].0)
                && self.entries()[v@[i].0] == DeltaEntry::Modified(v@[i].2)
                && self.paths().contains_key(v@[i].0) && v@[i].1@ == self.paths()[v@[i].0],
            forall|h: Blake3Hash| self.entries().contains_key(h) && self.entries()[h] is Modified && self.paths().contains_key(h)
                ==> exists|i: int| 0 <= i < v@.len() && #[trigger] v@[i].0 == h,
            forall|i: int, j: int| 0 <= i < j < v@.len() ==> v@[i].0 != v@[j].0,
    {
        let es = delta_map_entries(&self.delta);
        let mut v: Vec<(Blake3Hash, String, ManifestEntry)> = Vec::new();
        let ghost mut src: Seq<int> = Seq::empty();
        let mut i: usize = 0;
        while i < es.len()
            invariant
                0 <= i <= es@.len(),
                forall|t: int| 0 <= t < es@.len() ==> self.entries().contains_key(#[trigger] es@[t].0)
                    && self.entries()[es@[t].0] == es@[t].1,
                forall|t: int, u: int| 0 <= t < u < es@.len() ==> es@[t].0 != es@[u].0,
                src.len() == v@.len(),
                forall|t: int| 0 <= t < src.len() ==> 0 <= #[trigger] src[t] < i,
                forall|t: int| 0 <= t < v@.len() ==> 0 <= #[trigger] src[t] < i && v@[t].0 == es@[src[t]].0
                    && es@[src[t]].1 == DeltaEntry::Modified(v@[t].2)
                    && self.paths().contains_key(v@[t].0) && v@[t].1@ == self.paths()[v@[t].0],
                forall|t: int, u: int| 0 <= t < u < src.len() ==> src[t] < src[u],
                forall|t: int| 0 <= t < i && es@[t].1 is Modified && self.paths().contains_key(es@[t].0)
                    ==> exists|w: int| 0 <= w < src.len() && #[trigger] src[w] == t,
            decreases es@.len() - i,
        {
            let pair = es[i];
            let ghost old_src = src;
            let ghost old_v = v@;
            match pair.1 {
                DeltaEntry::Modified(me) => {
                    match path_map_get(&self.delta_paths, &pair.0) {
                        Some(p) => {
                            v.push((pair.0, p, me));
                            proof {
                                src = src.push(i as int);
                                assert(src[src.len() - 1] == i);
                            }
                        },
                        None => {},
                    }
                },
                DeltaEntry::Deleted => {},
            }
            proof {
                assert forall|t: int| 0 <= t < old_src.len() implies #[trigger] src[t] == old_src[t] && v@[t] == old_v[t] by {}
                assert forall|t: int| 0 <= t < i + 1 && es@[t].1 is Modified && self.paths().contains_key(es@[t].0)
                    implies exists|w: int| 0 <= w < src.len() && #[trigger] src[w] == t by {
                    if t < i {
                        let w = choose|w: int| 0 <= w < old_src.len() && #[trigger] old_src[w] == t;
                        assert(src[w] == t);
                    } else {
                        assert(src[src.len() - 1] == t);
                    }
                }
            }
            i = i + 1;
        }
        assert forall|w: int| 0 <= w < v@.len() implies self.entries().contains_key(#[trigger] v@[w].0)
            && self.entries()[v@[w].0] == DeltaEntry::Modified(v@[w].2)
            && self.paths().contains_key(v@[w].0) && v@[w].1@ == self.paths()[v@[w].0] by {
            let t = src[w];
            assert(es@[t].0 == v@[w].0);
        }
        assert forall|h: Blake3Hash| self.entries().contains_key(h) && self.entries()[h] is Modified && self.paths().contains_key(h)
            implies exists|w: int| 0 <= w < v@.len() && #[trigger] v@[w].0 == h by {
            let t = choose|t: int| 0 <= t < es@.len() && #[trigger] es@[t].0 == h;
            let w = choose|w: int| 0 <= w < src.len() && #[trigger] src[w] == t;
            assert(v@[w].0 == h);
        }
        assert forall|a: int, b: int| 0 <= a < b < v@.len() implies v@[a].0 != v@[b].0 by {
            assert(src[a] < src[b]);
            assert(v@[a].0 == es@[src[a]].0 && v@[b].0 == es@[src[b]].0);
        }
        v
    }

    /// The base entries, in the order given, that this session did not
    /// touch and whose path is stored, as (path, entry).
    pub fn untouched_listing(&self, base: &[(Blake3Hash, ManifestEntry, Option<String>)]) -> (v: Vec<(String, ManifestEntry)>)
        ensures
            v@.map_values(|x: (String, ManifestEntry)| (x.0@, x.1)) == untouched_spec(self.entries(), base@.map_values(
                |x: (Blake3Hash, ManifestEntry, Option<String>)| (x.0, x.1, opt_view(x.2)))),
    {
        let ghost bv = base@.map_values(|x: (Blake3Hash, ManifestEntry, Option<String>)| (x.0, x.1, opt_view(x.2)));
        let mut v: Vec<(String, ManifestEntry)> = Vec::new();
        let mut i: usize = 0;
        while i < base.len()
            invariant
                0 <= i <= base@.len(),
                bv == base@.map_values(|x: (Blake3Hash, ManifestEntry, Option<String>)| (x.0, x.1, opt_view(x.2))),
                v@.map_values(|x: (String, ManifestEntry)| (x.0@, x.1)) == untouched_spec(self.entries(), bv.take(i as int)),
            decreases base@.len() - i,
        {
            proof {
                assert(bv.take(i + 1).drop_last() =~= bv.take(i as int));
                assert(bv.take(i + 1).last() == bv[i as int]);
            }
            let touched = match self.lookup(&base[i].0) {
                DeltaLookup::Miss => false,
                _ => true,
            };
            if !touched {
                match &base[i].2 {
                    Some(p) => {
                        let ghost before = v@;
                        v.push((p.clone(), base[i].1));
                        proof {
                            assert(v@.map_values(|x: (String, ManifestEntry)| (x.0@, x.1)) =~= before.map_values(
                                |x: (String, ManifestEntry)| (x.0@, x.1)).push((p@, base@[i as int].1)));
                        }
                    },
                    None => {},
                }
            }
            i = i + 1;
        }
        assert(bv.take(base@.len() as int) =~= bv);
        v
    }

    /// Forget every modification (after a commit).
    pub fn clear(&mut self)
        ensures
            final(self).wf(),
            final(self).entries() == Map::<Blake3Hash, DeltaEntry>::empty(),
            final(self).paths() == Map::<Blake3Hash, Seq<char>>::empty(),
    {
        delta_map_clear(&mut self.delta);
        path_map_clear(&mut self.delta_paths);
    }
}

/// The path hash `compute_path_hash` gives, as an array.
pub open spec fn compute_hash_of(path: &str) -> Blake3Hash {
    choose|h: Blake3Hash| h@ == manifest_path_hash(path)
}

/// `compute_path_hash` gives `compute_hash_of`.
proof fn lemma_hash_of(path: &str, h: Blake3Hash)
    requires
        h@ == manifest_path_hash(path),
    ensures
        h == compute_hash_of(path),
{
    broadcast use vstd::array::axiom_array_ext_equal;
    let c = compute_hash_of(path);
    assert(c@ == manifest_path_hash(path));
    assert(c@ =~= h@);
}

/// Read after write: through both layers, a hash reads back the entry last
/// recorded for it in the modification layer (nothing after a deletion),
/// whatever the base holds; other hashes read as before.
pub proof fn law_read_after_write(delta: Map<Blake3Hash, DeltaEntry>, base: Map<Blake3Hash, ManifestEntry>, h: Blake3Hash, e: ManifestEntry, h2: Blake3Hash, x: DeltaEntry)
    ensures
        merged_read(delta.insert(h, DeltaEntry::Modified(e)), base, h) == Some(e),
        merged_read(delta.insert(h, DeltaEntry::Deleted), base, h) is None,
        h2 != h ==> merged_read(delta.insert(h, x), base, h2) == merged_read(delta, base, h2),
{
}

/// What one write leaves under its hash.
pub open spec fn op_effect(op: CommitOp) -> Option<ManifestEntry> {
    match op {
        CommitOp::Put { hash, entry, path } => Some(entry),
        CommitOp::Delete { hash } => None,
    }
}

/// A base map read as an optional entry.
pub open spec fn base_read(base: Map<Blake3Hash, ManifestEntry>, h: Blake3Hash) -> Option<ManifestEntry> {
    if base.contains_key(h) {
        Some(base[h])
    } else {
        None
    }
}

/// Writes with distinct hashes: a hash reads the effect of its write, or
/// the old base if no write has it.
proof fn lemma_apply_ops(base: Map<Blake3Hash, ManifestEntry>, ops: Seq<CommitOp>, h: Blake3Hash)
    requires
        forall|i: int, j: int| 0 <= i < j < ops.len() ==> op_hash(ops[i]) != op_hash(ops[j]),
    ensures
        (forall|i: int| 0 <= i < ops.len() ==> op_hash(ops[i]) != h) ==> base_read(apply_ops(base, ops), h) == base_read(base, h),
        forall|i: int| 0 <= i < ops.len() && op_hash(ops[i]) == h ==> base_read(apply_ops(base, ops), h) == op_effect(ops[i]),
    decreases ops.len(),
{
    if ops.len() > 0 {
        let pre = ops.drop_last();
        lemma_apply_ops(base, pre, h);
        let last = ops.last();
        assert forall|i: int| 0 <= i < ops.len() && op_hash(ops[i]) == h implies base_read(apply_ops(base, ops), h) == op_effect(ops[i]) by {
            if i < ops.len() - 1 {
                assert(pre[i] == ops[i]);
                assert(op_hash(ops[i]) != op_hash(ops[ops.len() - 1]));
            }
        }
        if forall|i: int| 0 <= i < ops.len() ==> op_hash(ops[i]) != h {
            assert(op_hash(last) != h);
            assert forall|i: int| 0 <= i < pre.len() implies op_hash(pre[i]) != h by {
                assert(pre[i] == ops[i]);
            }
        }
    }
}

/// Commit law: after the writes that commit the modification layer are
/// applied to the base, reads of the base alone give what reads through
/// both layers gave before.
pub proof fn law_commit_preserves_reads(delta: Map<Blake3Hash, DeltaEntry>, base: Map<Blake3Hash, ManifestEntry>, ops: Seq<CommitOp>, h: Blake3Hash)
    requires
        commits(ops, delta),
    ensures
        merged_read(no_deltas(), apply_ops(base, ops), h) == merged_read(delta, base, h),
{
    lemma_apply_ops(base, ops, h);
    if delta.contains_key(h) {
        let i = choose|i: int| 0 <= i < ops.len() && #[trigger] op_hash(ops[i]) == h;
        assert(op_hash(ops[i]) == h);
    } else {
        assert forall|i: int| 0 <= i < ops.len() implies op_hash(ops[i]) != h by {
            assert(delta.contains_key(op_hash(ops[i])));
        }
    }
}

/// Stored paths after one write: a put with a path stores it, a put
/// without one leaves the stored path, a delete removes it.
pub open spec fn apply_path_op(paths: Map<Blake3Hash, Seq<char>>, op: CommitOp) -> Map<Blake3Hash, Seq<char>> {
    match op {
        CommitOp::Put { hash, entry, path } => match path {
            Some(p) => paths.insert(hash, p@),
            None => paths,
        },
        CommitOp::Delete { hash } => paths.remove(hash),
    }
}

/// Stored paths after the writes, in order.
pub open spec fn apply_path_ops(paths: Map<Blake3Hash, Seq<char>>, ops: Seq<CommitOp>) -> Map<Blake3Hash, Seq<char>>
    decreases ops.len(),
{
    if ops.len() == 0 {
        paths
    } else {
        apply_path_op(apply_path_ops(paths, ops.drop_last()), ops.last())
    }
}

/// The pair `x` (path, entry) is listed under hash `h` through both layers:
/// from the modification layer when it has `h` (a modified entry with a
/// recorded path), else from the base (an entry with a stored path).
pub open spec fn listed_at(
    delta: Map<Blake3Hash, DeltaEntry>,
    dpaths: Map<Blake3Hash, Seq<char>>,
    base: Map<Blake3Hash, ManifestEntry>,
    bpaths: Map<Blake3Hash, Seq<char>>,
    h: Blake3Hash,
    x: (Seq<char>, ManifestEntry),
) -> bool {
    if delta.contains_key(h) {
        delta[h] == DeltaEntry::Modified(x.1) && dpaths.contains_key(h) && dpaths[h] == x.0
    } else {
        base.contains_key(h) && base[h] == x.1 && bpaths.contains_key(h) && bpaths[h] == x.0
    }
}

/// The (path, entry) pairs that a listing through both layers gives.
pub open spec fn listing_set(
    delta: Map<Blake3Hash, DeltaEntry>,
    dpaths: Map<Blake3Hash, Seq<char>>,
    base: Map<Blake3Hash, ManifestEntry>,
    bpaths: Map<Blake3Hash, Seq<char>>,
) -> Set<(Seq<char>, ManifestEntry)> {
    Set::new(|x: (Seq<char>, ManifestEntry)| exists|h: Blake3Hash| #[trigger] listed_at(delta, dpaths, base, bpaths, h, x))
}

/// The puts carry the recorded path of their hash, when there is one.
pub open spec fn puts_carry_paths(ops: Seq<CommitOp>, dpaths: Map<Blake3Hash, Seq<char>>) -> bool {
    forall|i: int| 0 <= i < ops.len() ==> (#[trigger] ops[i] matches CommitOp::Put { hash, entry, path } ==> (
        path is Some <==> dpaths.contains_key(hash)) && (path matches Some(p) ==> p@ == dpaths[hash]))
}

/// Writes with distinct hashes: a hash's stored path is what its write
/// leaves, or the old one if no write has it.
proof fn lemma_apply_path_ops(paths: Map<Blake3Hash, Seq<char>>, ops: Seq<CommitOp>, h: Blake3Hash)
    requires
        forall|i: int, j: int| 0 <= i < j < ops.len() ==> op_hash(ops[i]) != op_hash(ops[j]),
    ensures
        (forall|i: int| 0 <= i < ops.len() ==> op_hash(ops[i]) != h) ==> apply_path_ops(paths, ops).contains_key(h)
            == paths.contains_key(h) && apply_path_ops(paths, ops)[h] == paths[h],
        forall|i: int| 0 <= i < ops.len() && op_hash(ops[i]) == h ==> match ops[i] {
            CommitOp::Put { hash, entry, path } => match path {
                Some(p) => apply_path_ops(paths, ops).contains_key(h) && apply_path_ops(paths, ops)[h] == p@,
                None => apply_path_ops(paths, ops).contains_key(h) == paths.contains_key(h)
                    && apply_path_ops(paths, ops)[h] == paths[h],
            },
            CommitOp::Delete { hash } => !apply_path_ops(paths, ops).contains_key(h),
        },
    decreases ops.len(),
{
    if ops.len() > 0 {
        let pre = ops.drop_last();
        lemma_apply_path_ops(paths, pre, h);
        assert forall|i: int| 0 <= i < ops.len() && op_hash(ops[i]) == h implies match ops[i] {
            CommitOp::Put { hash, entry, path } => match path {
                Some(p) => apply_path_ops(paths, ops).contains_key(h) && apply_path_ops(paths, ops)[h] == p@,
                None => apply_path_ops(paths, ops).contains_key(h) == paths.contains_key(h)
                    && apply_path_ops(paths, ops)[h] == paths[h],
            },
            CommitOp::Delete { hash } => !apply_path_ops(paths, ops).contains_key(h),
        } by {
            if i < ops.len() - 1 {
                assert(pre[i] == ops[i]);
                assert(op_hash(ops[i]) != op_hash(ops[ops.len() - 1]));
            } else {
                assert forall|j: int| 0 <= j < pre.len() implies op_hash(pre[j]) != h by {
                    assert(pre[j] == ops[j]);
                }
            }
        }
        if forall|i: int| 0 <= i < ops.len() ==> op_hash(ops[i]) != h {
            assert(op_hash(ops.last()) != h);
            assert forall|i: int| 0 <= i < pre.len() implies op_hash(pre[i]) != h by {
                assert(pre[i] == ops[i]);
            }
        }
    }
}

/// Commit law for listings: after the writes that commit the modification
/// layer (puts carrying the recorded paths) are applied to the base
/// entries and stored paths, a listing of the base alone gives the same
/// (path, entry) pairs as a listing through both layers gave before. It
/// holds where every modified entry without a recorded path has no stored
/// path in the base.
pub proof fn law_commit_preserves_listing(
    delta: Map<Blake3Hash, DeltaEntry>,
    dpaths: Map<Blake3Hash, Seq<char>>,
    base: Map<Blake3Hash, ManifestEntry>,
    bpaths: Map<Blake3Hash, Seq<char>>,
    ops: Seq<CommitOp>,
)
    requires
        commits(ops, delta),
        puts_carry_paths(ops, dpaths),
        forall|h: Blake3Hash| #![trigger delta[h]] delta.contains_key(h) && delta[h] is Modified && !dpaths.contains_key(h)
            ==> !bpaths.contains_key(h),
    ensures
        listing_set(no_deltas(), no_paths(), apply_ops(base, ops), apply_path_ops(bpaths, ops))
            == listing_set(delta, dpaths, base, bpaths),
{
    let b2 = apply_ops(base, ops);
    let p2 = apply_path_ops(bpaths, ops);
    assert forall|h: Blake3Hash, x: (Seq<char>, ManifestEntry)|
        listed_at(no_deltas(), no_paths(), b2, p2, h, x) == listed_at(delta, dpaths, base, bpaths, h, x) by {
        lemma_apply_ops(base, ops, h);
        lemma_apply_path_ops(bpaths, ops, h);
        if delta.contains_key(h) {
            let i = choose|i: int| 0 <= i < ops.len() && #[trigger] op_hash(ops[i]) == h;
            assert(delta.contains_key(op_hash(ops[i])));
            assert(base_read(b2, h) == op_effect(ops[i]));
            match delta[h] {
                DeltaEntry::Modified(e) => {
                    assert(ops[i] matches CommitOp::Put { hash, entry, path } && entry == e);
                    if !dpaths.contains_key(h) {
                        assert(!bpaths.contains_key(h));
                    }
                },
                DeltaEntry::Deleted => {
                    assert(ops[i] is Delete);
                },
            }
        } else {
            assert forall|i: int| 0 <= i < ops.len() implies op_hash(ops[i]) != h by {
                assert(delta.contains_key(op_hash(ops[i])));
            }
        }
    }
    assert(listing_set(no_deltas(), no_paths(), b2, p2) =~= listing_set(delta, dpaths, base, bpaths)) by {
        assert forall|x: (Seq<char>, ManifestEntry)| listing_set(no_deltas(), no_paths(), b2, p2).contains(x)
            implies listing_set(delta, dpaths, base, bpaths).contains(x) by {
            let h = choose|h: Blake3Hash| #[trigger] listed_at(no_deltas(), no_paths(), b2, p2, h, x);
            assert(listed_at(delta, dpaths, base, bpaths, h, x));
        }
        assert forall|x: (Seq<char>, ManifestEntry)| listing_set(delta, dpaths, base, bpaths).contains(x)
            implies listing_set(no_deltas(), no_paths(), b2, p2).contains(x) by {
            let h = choose|h: Blake3Hash| #[trigger] listed_at(delta, dpaths, base, bpaths, h, x);
            assert(listed_at(no_deltas(), no_paths(), b2, p2, h, x));
        }
    }
}

/// View of an optional string.
pub open spec fn opt_view(p: Option<String>) -> Option<Seq<char>> {
    match p {
        Some(s) => Some(s@),
        None => None,
    }
}

/// Base entries (hash, entry, stored path), in order, that the layer did
/// not touch and whose path is stored, as (path, entry).
pub open spec fn untouched_spec(delta: Map<Blake3Hash, DeltaEntry>, base: Seq<(Blake3Hash, ManifestEntry, Option<Seq<char>>)>) -> Seq<(Seq<char>, ManifestEntry)>
    decreases base.len(),
{
    if base.len() == 0 {
        Seq::empty()
    } else {
        let rest = untouched_spec(delta, base.drop_last());
        let (h, e, p) = base.last();
        if !delta.contains_key(h) && p is Some {
            rest.push((p->0, e))
        } else {
            rest
        }
    }
}

/// Entry count of the base layer adjusted by touched keys, each given as
/// (is a modification, the base holds the key): one more for a new key,
/// one less for a whiteout of a base key.
pub open spec fn adjust_count(base_len: int, ts: Seq<(bool, bool)>) -> int
    decreases ts.len(),
{
    if ts.len() == 0 {
        base_len
    } else {
        adjust_count(base_len, ts.drop_last()) + if ts.last().0 && !ts.last().1 {
            1int
        } else if !ts.last().0 && ts.last().1 {
            -1int
        } else {
            0int
        }
    }
}

/// Entry count through both layers from the base count and the touched
/// keys (see `adjust_count`); none when that count is out of range.
pub fn merged_len(base_len: usize, ts: &[(bool, bool)]) -> (r: Option<usize>)
    ensures
        match r {
            Some(n) => n == adjust_count(base_len as int, ts@),
            None => !(0 <= adjust_count(base_len as int, ts@) <= usize::MAX),
        },
{
    let mut added: u128 = 0;
    let mut removed: u128 = 0;
    let mut i: usize = 0;
    while i < ts.len()
        invariant
            0 <= i <= ts@.len(),
            added <= i && removed <= i,
            adjust_count(base_len as int, ts@.take(i as int)) == base_len + added - removed,
        decreases ts@.len() - i,
    {
        proof {
            assert(ts@.take(i + 1).drop_last() =~= ts@.take(i as int));
        }
        let (m, b) = ts[i];
        if m && !b {
            added = added + 1;
        } else if !m && b {
            removed = removed + 1;
        }
        i = i + 1;
    }
    assert(ts@.take(ts@.len() as int) =~= ts@);
    let total: u128 = base_len as u128 + added;
    if total < removed || total - removed > usize::MAX as u128 {
        None
    } else {
        Some((total - removed) as usize)
    }
}

/// Keys a read through both layers finds.
pub open spec fn merged_keys(delta: Map<Blake3Hash, DeltaEntry>, base: Map<Blake3Hash, ManifestEntry>) -> Set<Blake3Hash> {
    Set::new(|h: Blake3Hash| merged_read(delta, base, h) is Some)
}

/// The touched keys `keys`, with flags `ts`, list the layer `delta` against `base`.
pub open spec fn lists_touched(delta: Map<Blake3Hash, DeltaEntry>, base: Map<Blake3Hash, ManifestEntry>, keys: Seq<Blake3Hash>, ts: Seq<(bool, bool)>) -> bool {
    &&& keys.len() == ts.len()
    &&& forall|i: int| 0 <= i < keys.len() ==> delta.contains_key(#[trigger] keys[i])
        && ts[i] == ((delta[keys[i]] is Modified), base.contains_key(keys[i]))
    &&& forall|h: Blake3Hash| delta.contains_key(h) ==> exists|i: int| 0 <= i < keys.len() && #[trigger] keys[i] == h
    &&& forall|i: int, j: int| 0 <= i < j < keys.len() ==> keys[i] != keys[j]
}

proof fn lemma_adjust_prefix(delta: Map<Blake3Hash, DeltaEntry>, base: Map<Blake3Hash, ManifestEntry>, keys: Seq<Blake3Hash>, ts: Seq<(bool, bool)>, k: int)
    requires
        base.dom().finite(),
        lists_touched(delta, base, keys, ts),
        0 <= k <= keys.len(),
    ensures
        merged_keys(delta.restrict(keys.take(k).to_set()), base).finite(),
        merged_keys(delta.restrict(keys.take(k).to_set()), base).len() == adjust_count(base.dom().len() as int, ts.take(k)),
    decreases k,
{
    let dk = delta.restrict(keys.take(k).to_set());
    if k == 0 {
        assert(keys.take(0).to_set() =~= Set::<Blake3Hash>::empty());
        assert(merged_keys(dk, base) =~= base.dom());
        assert(ts.take(0) =~= Seq::<(bool, bool)>::empty());
    } else {
        lemma_adjust_prefix(delta, base, keys, ts, k - 1);
        let h0 = keys[k - 1];
        let dp = delta.restrict(keys.take(k - 1).to_set());
        let sp = merged_keys(dp, base);
        let sk = merged_keys(dk, base);
        assert(!keys.take(k - 1).to_set().contains(h0)) by {
            if keys.take(k - 1).to_set().contains(h0) {
                let j = choose|j: int| 0 <= j < k - 1 && #[trigger] keys.take(k - 1)[j] == h0;
                assert(keys[j] == h0);
            }
        }
        assert(keys.take(k).to_set() =~= keys.take(k - 1).to_set().insert(h0)) by {
            assert forall|h: Blake3Hash| keys.take(k).to_set().contains(h) implies keys.take(k - 1).to_set().insert(h0).contains(h) by {
                let j = choose|j: int| 0 <= j < k && #[trigger] keys.take(k)[j] == h;
                if j < k - 1 {
                    assert(keys.take(k - 1)[j] == h);
                }
            }
            assert forall|h: Blake3Hash| keys.take(k - 1).to_set().insert(h0).contains(h) implies keys.take(k).to_set().contains(h) by {
                if h == h0 {
                    assert(keys.take(k)[k - 1] == h0);
                } else {
                    let j = choose|j: int| 0 <= j < k - 1 && #[trigger] keys.take(k - 1)[j] == h;
                    assert(keys.take(k)[j] == h);
                }
            }
        }
        assert(ts.take(k).drop_last() =~= ts.take(k - 1));
        assert(ts.take(k).last() == ts[k - 1]);
        assert(delta.contains_key(h0));
        if delta[h0] is Modified {
            assert(sk =~= sp.insert(h0));
        } else {
            assert(sk =~= sp.remove(h0));
        }
    }
}

/// The entry count through both layers, from the base count adjusted by
/// the touched keys, is the number of keys that a read through both
/// layers finds.
pub proof fn law_merged_len(delta: Map<Blake3Hash, DeltaEntry>, base: Map<Blake3Hash, ManifestEntry>, keys: Seq<Blake3Hash>, ts: Seq<(bool, bool)>)
    requires
        base.dom().finite(),
        lists_touched(delta, base, keys, ts),
    ensures
        merged_keys(delta, base).finite(),
        adjust_count(base.dom().len() as int, ts) == merged_keys(delta, base).len(),
{
    lemma_adjust_prefix(delta, base, keys, ts, keys.len() as int);
    assert(keys.take(keys.len() as int) =~= keys);
    assert(ts.take(ts.len() as int) =~= ts);
    assert(delta.restrict(keys.to_set()) =~= delta) by {
        assert forall|h: Blake3Hash| delta.contains_key(h) implies keys.to_set().contains(h) by {
            let i = choose|i: int| 0 <= i < keys.len() && #[trigger] keys[i] == h;
        }
    }
}

/// A read through both layers, given what the modification layer says and
/// what the base layer holds (which matters only on a miss).
pub fn merged_get(l: DeltaLookup, base: Option<ManifestEntry>) -> (r: Option<ManifestEntry>)
    ensures
        match l {
            DeltaLookup::Hit(e) => r == Some(e),
            DeltaLookup::Whiteout => r is None,
            DeltaLookup::Miss => r == base,
        },
{
    match l {
        DeltaLookup::Hit(e) => Some(e),
        DeltaLookup::Whiteout => None,
        DeltaLookup::Miss => base,
    }
}

/// The layered read: a lookup in the modification layer followed by
/// `merged_get` with the base layer's entry reads as `merged_read`.
pub proof fn law_layered_read(d: &DeltaLayer, base: Map<Blake3Hash, ManifestEntry>, h: Blake3Hash, l: DeltaLookup, r: Option<ManifestEntry>)
    requires
        d.entries().contains_key(h) ==> match d.entries()[h] {
            DeltaEntry::Modified(e) => l matches DeltaLookup::Hit(x) && x == e,
            DeltaEntry::Deleted => l is Whiteout,
        },
        !d.entries().contains_key(h) ==> l is Miss,
        match l {
            DeltaLookup::Hit(e) => r == Some(e),
            DeltaLookup::Whiteout => r is None,
            DeltaLookup::Miss => r == base_read(base, h),
        },
    ensures
        r == merged_read(d.entries(), base, h),
{
}

} // verus!
