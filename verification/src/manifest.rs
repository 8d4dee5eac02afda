//! Manifest entries: the virtual node record of each path, its asset
//! tier, path normalization and hashing, and summary statistics.
use vstd::prelude::*;
use vstd::string::StringSliceAdditionalSpecFns;
use crate::bytes::{to_vec, prepend};

verus! {

/// BLAKE3 content hash (32 bytes).
pub type Blake3Hash = [u8; 32];

/// The BLAKE3 digest of a byte string, as the `blake3` crate computes it.
pub uninterp spec fn blake3_digest(data: Seq<u8>) -> Seq<u8>;

/// Calls `blake3::hash` on the bytes and returns the 32 digest bytes;
/// trusted to return exactly `blake3_digest` of its input.
#[verifier::external_body]
fn blake3_hash(data: &[u8]) -> (h: [u8; 32])
    ensures
        h@ == blake3_digest(data@),
{
    *blake3::hash(data).as_bytes()
}

/// Asset tier of the tiered storage model.
#[derive(Debug, Clone, Copy, PartialEq, Eq, Structural)]
pub enum AssetTier {
    /// Immutable assets (registry dependencies, toolchains): code 1.
    Tier1Immutable,
    /// Mutable assets (build outputs, user config): code 2.
    Tier2Mutable,
}

impl Default for AssetTier {
    fn default() -> (t: Self)
        ensures
            t == AssetTier::Tier2Mutable,
    {
        AssetTier::Tier2Mutable
    }
}

/// Errors of manifest operations (the I/O error as its message).
pub enum ManifestError {
    Io(String),
    Rkyv(String),
    PathNotFound(String),
}

impl ManifestError {
    /// The error's message, as it is displayed.
    pub fn describe(&self) -> (s: String)
        ensures
            s@ == match self {
                ManifestError::Io(m) => "I/O error: "@ + m@,
                ManifestError::Rkyv(m) => "Serialization error: "@ + m@,
                ManifestError::PathNotFound(m) => "Path not found: "@ + m@,
            },
    {
        match self {
            ManifestError::Io(m) => String::from_str("I/O error: ").concat(m.as_str()),
            ManifestError::Rkyv(m) => String::from_str("Serialization error: ").concat(m.as_str()),
            ManifestError::PathNotFound(m) => String::from_str("Path not found: ").concat(m.as_str()),
        }
    }
}

/// Kind of a virtual node.
#[derive(Debug, Clone, Copy, PartialEq, Eq, Structural)]
pub enum VnodeFlags {
    /// Regular file (0).
    File,
    /// Directory (1).
    Directory,
    /// Symbolic link (2).
    Symlink,
    /// Executable file (3).
    Executable,
}

/// Numeric value of a node kind as stored in `VnodeEntry::flags`.
pub open spec fn flag_bits(f: VnodeFlags) -> u16 {
    match f {
        VnodeFlags::File => 0,
        VnodeFlags::Directory => 1,
        VnodeFlags::Symlink => 2,
        VnodeFlags::Executable => 3,
    }
}

impl VnodeFlags {
    /// Numeric value of this node kind.
    pub fn bits(&self) -> (b: u16)
        ensures
            b == flag_bits(*self),
    {
        match self {
            VnodeFlags::File => 0,
            VnodeFlags::Directory => 1,
            VnodeFlags::Symlink => 2,
            VnodeFlags::Executable => 3,
        }
    }
}

impl Default for VnodeFlags {
    fn default() -> (f: Self)
        ensures
            f == VnodeFlags::File,
    {
        VnodeFlags::File
    }
}

/// Virtual node entry for a file or directory in the manifest.
#[derive(Debug, Clone, Copy)]
pub struct VnodeEntry {
    /// BLAKE3 hash of the content (stored in the CAS).
    pub content_hash: Blake3Hash,
    /// Size in bytes.
    pub size: u64,
    /// Modification time (nanoseconds since the Unix epoch).
    pub mtime: u64,
    /// Permission mode bits.
    pub mode: u32,
    /// Entry kind (a `VnodeFlags` value).
    pub flags: u16,
    /// Padding.
    pub _pad: u16,
}

impl VnodeEntry {
    /// A regular file entry.
    pub fn new_file(content_hash: Blake3Hash, size: u64, mtime: u64, mode: u32) -> (e: Self)
        ensures
            e.content_hash == content_hash && e.size == size && e.mtime == mtime && e.mode == mode,
            e.flags == 0 && e._pad == 0,
    {
        VnodeEntry { content_hash, size, mtime, mode, flags: VnodeFlags::File.bits(), _pad: 0 }
    }

    /// A directory entry (zero hash, zero size).
    pub fn new_directory(mtime: u64, mode: u32) -> (e: Self)
        ensures
            e.content_hash@ == Seq::new(32, |i: int| 0u8) && e.size == 0 && e.mtime == mtime && e.mode == mode,
            e.flags == 1 && e._pad == 0,
    {
        VnodeEntry { content_hash: [0u8; 32], size: 0, mtime, mode, flags: VnodeFlags::Directory.bits(), _pad: 0 }
    }

    /// A symbolic link entry: `target_hash` and `target_len` describe the
    /// target path string; mode is 0o777.
    pub fn new_symlink(target_hash: Blake3Hash, target_len: u64, mtime: u64) -> (e: Self)
        ensures
            e.content_hash == target_hash && e.size == target_len && e.mtime == mtime && e.mode == 0o777,
            e.flags == 2 && e._pad == 0,
    {
        VnodeEntry { content_hash: target_hash, size: target_len, mtime, mode: 0o777, flags: VnodeFlags::Symlink.bits(), _pad: 0 }
    }

    /// Whether this is a directory entry.
    pub fn is_dir(&self) -> (r: bool)
        ensures
            r == (self.flags == 1),
    {
        self.flags == VnodeFlags::Directory.bits()
    }

    /// Whether this is a plain regular file entry.
    pub fn is_file(&self) -> (r: bool)
        ensures
            r == (self.flags == 0),
    {
        self.flags == VnodeFlags::File.bits()
    }

    /// Whether this is a symbolic link entry.
    pub fn is_symlink(&self) -> (r: bool)
        ensures
            r == (self.flags == 2),
    {
        self.flags == VnodeFlags::Symlink.bits()
    }

    /// Whether this is an executable file entry.
    pub fn is_executable(&self) -> (r: bool)
        ensures
            r == (self.flags == 3),
    {
        self.flags == VnodeFlags::Executable.bits()
    }
}

/// Manifest entry with tier information.
#[derive(Debug, Clone, Copy)]
pub struct ManifestEntry {
    /// The node record.
    pub vnode: VnodeEntry,
    /// Asset tier classification.
    pub tier: AssetTier,
    /// Whether the entry is pending re-ingest.
    pub stale: bool,
}

/// An entry of the in-memory modification layer.
#[derive(Debug, Clone, Copy)]
pub enum DeltaEntry {
    /// Modified or new entry.
    Modified(ManifestEntry),
    /// Deleted (whiteout).
    Deleted,
}

/// Replace every `//` by `/`, scanning left to right without overlap.
pub open spec fn collapse_double_slashes(b: Seq<u8>) -> Seq<u8>
    decreases b.len(),
{
    if b.len() >= 2 && b[0] == 0x2f && b[1] == 0x2f {
        seq![0x2fu8] + collapse_double_slashes(b.skip(2))
    } else if b.len() == 0 {
        Seq::empty()
    } else {
        seq![b[0]] + collapse_double_slashes(b.skip(1))
    }
}

/// Normalized path bytes for hashing: `//` collapsed once, a trailing `/`
/// removed (unless the result is `/`), and a leading `/` ensured.
pub open spec fn normalize_vfs_path_spec(b: Seq<u8>) -> Seq<u8> {
    let c = collapse_double_slashes(b);
    let t = if c.len() > 1 && c.last() == 0x2f { c.drop_last() } else { c };
    if t.len() > 0 && t[0] == 0x2f { t } else { seq![0x2fu8] + t }
}

fn collapse_exec(b: &[u8]) -> (r: Vec<u8>)
    ensures
        r@ == collapse_double_slashes(b@),
{
    let n = b.len();
    let mut out: Vec<u8> = Vec::new();
    let mut i: usize = 0;
    proof {
        assert(b@.skip(0) =~= b@);
        assert(out@ + collapse_double_slashes(b@) =~= collapse_double_slashes(b@));
    }
    while i < n
        invariant
            n == b@.len(),
            0 <= i <= n,
            out@ + collapse_double_slashes(b@.skip(i as int)) == collapse_double_slashes(b@),
        decreases n - i,
    {
        let ghost rest = b@.skip(i as int);
        if i + 1 < n && b[i] == 0x2f && b[i + 1] == 0x2f {
            proof {
                assert(rest[0] == b@[i as int] && rest[1] == b@[i + 1]);
                assert(rest.skip(2) =~= b@.skip(i + 2));
            }
            out.push(0x2f);
            proof {
                assert(out@ + collapse_double_slashes(b@.skip(i + 2)) =~= collapse_double_slashes(b@));
            }
            i = i + 2;
        } else {
            proof {
                assert(rest[0] == b@[i as int]);
                assert(rest.skip(1) =~= b@.skip(i + 1));
                if i + 1 < n { assert(rest[1] == b@[i + 1]); }
            }
            out.push(b[i]);
            proof {
                assert(out@ + collapse_double_slashes(b@.skip(i + 1)) =~= collapse_double_slashes(b@));
            }
            i = i + 1;
        }
    }
    proof {
        assert(b@.skip(n as int) =~= Seq::<u8>::empty());
        assert(out@ =~= collapse_double_slashes(b@));
    }
    out
}

/// Normalize a path for consistent hashing within the VFS.
pub fn normalize_vfs_path(path: &str) -> (r: Vec<u8>)
    ensures
        r@ == normalize_vfs_path_spec(path.spec_bytes()),
{
    let mut c = collapse_exec(path.as_bytes());
    if c.len() > 1 && c[c.len() - 1] == 0x2f {
        c.pop();
    }
    if c.len() > 0 && c[0] == 0x2f {
        c
    } else {
        prepend(0x2f, c.as_slice())
    }
}

/// Collapsing doubled slashes splits at a point not preceded by a slash.
proof fn lemma_collapse_concat(a: Seq<u8>, b: Seq<u8>)
    requires
        a.len() == 0 || a.last() != 0x2f,
    ensures
        collapse_double_slashes(a + b) == collapse_double_slashes(a) + collapse_double_slashes(b),
    decreases a.len(),
{
    if a.len() == 0 {
        assert(a + b =~= b);
    } else if a.len() >= 2 && a[0] == 0x2f && a[1] == 0x2f {
        lemma_collapse_concat(a.skip(2), b);
        assert((a + b).skip(2) =~= a.skip(2) + b);
    } else {
        if a.len() >= 2 {
            lemma_collapse_concat(a.skip(1), b);
        } else {
            assert(a.skip(1) =~= Seq::<u8>::empty());
            lemma_collapse_concat(a.skip(1), b);
        }
        assert((a + b).skip(1) =~= a.skip(1) + b);
        assert((a + b)[0] == a[0]);
        if a.len() == 1 {
            assert(a[0] != 0x2f);
        }
    }
}

/// Collapsing keeps a last byte that is not a slash.
proof fn lemma_collapse_last(a: Seq<u8>)
    requires
        a.len() > 0,
        a.last() != 0x2f,
    ensures
        collapse_double_slashes(a).len() > 0,
        collapse_double_slashes(a).last() == a.last(),
    decreases a.len(),
{
    if a.len() >= 2 && a[0] == 0x2f && a[1] == 0x2f {
        assert(a.skip(2).len() > 0);
        assert(a.skip(2).last() == a.last());
        lemma_collapse_last(a.skip(2));
    } else if a.len() == 1 {
        assert(a.skip(1) =~= Seq::<u8>::empty());
    } else {
        assert(a.skip(1).last() == a.last());
        lemma_collapse_last(a.skip(1));
    }
}

/// A trailing slash does not change a path's identity in the manifest: a
/// non-empty path that does not end with `/` normalizes (and so hashes)
/// the same with a `/` appended; and every normalized path is absolute.
pub proof fn law_trailing_slash_ignored(p: Seq<u8>)
    requires
        p.len() > 0,
        p.last() != 0x2f,
    ensures
        normalize_vfs_path_spec(p.push(0x2f)) == normalize_vfs_path_spec(p),
        normalize_vfs_path_spec(p)[0] == 0x2f,
        normalize_vfs_path_spec(p).last() != 0x2f || normalize_vfs_path_spec(p).len() == 1,
{
    lemma_collapse_concat(p, seq![0x2fu8]);
    assert(p.push(0x2f) =~= p + seq![0x2fu8]);
    assert(collapse_double_slashes(seq![0x2fu8]) =~= seq![0x2fu8]) by {
        assert(seq![0x2fu8].skip(1) =~= Seq::<u8>::empty());
        assert(collapse_double_slashes(Seq::<u8>::empty()) =~= Seq::<u8>::empty());
        assert(collapse_double_slashes(seq![0x2fu8]) == seq![0x2fu8] + collapse_double_slashes(Seq::<u8>::empty()));
    }
    lemma_collapse_last(p);
    let c = collapse_double_slashes(p);
    assert((c + seq![0x2fu8]).drop_last() =~= c);
}

/// Path hash: BLAKE3 of the normalized path bytes.
pub fn compute_path_hash(path: &str) -> (h: Blake3Hash)
    ensures
        h@ == blake3_digest(normalize_vfs_path_spec(path.spec_bytes())),
{
    let normalized = normalize_vfs_path(path);
    blake3_hash(normalized.as_slice())
}

/// Statistics about a manifest.
#[derive(Debug, Clone, Copy)]
pub struct ManifestStats {
    pub file_count: u64,
    pub dir_count: u64,
    pub total_size: u64,
    pub tier1_count: u64,
    pub tier2_count: u64,
}

/// Number of directory entries in `es`.
pub open spec fn dir_count_spec(es: Seq<ManifestEntry>) -> nat
    decreases es.len(),
{
    if es.len() == 0 { 0 } else { dir_count_spec(es.drop_last()) + if es.last().vnode.flags == 1 { 1nat } else { 0nat } }
}

/// Total size of the non-directory entries in `es`.
pub open spec fn file_size_spec(es: Seq<ManifestEntry>) -> nat
    decreases es.len(),
{
    if es.len() == 0 { 0 } else { file_size_spec(es.drop_last()) + if es.last().vnode.flags == 1 { 0nat } else { es.last().vnode.size as nat } }
}

/// Number of tier-1 entries in `es`.
pub open spec fn tier1_count_spec(es: Seq<ManifestEntry>) -> nat
    decreases es.len(),
{
    if es.len() == 0 { 0 } else { tier1_count_spec(es.drop_last()) + if es.last().tier == AssetTier::Tier1Immutable { 1nat } else { 0nat } }
}

impl Default for ManifestStats {
    fn default() -> (s: Self)
        ensures
            s.file_count == 0 && s.dir_count == 0 && s.total_size == 0 && s.tier1_count == 0 && s.tier2_count == 0,
    {
        ManifestStats { file_count: 0, dir_count: 0, total_size: 0, tier1_count: 0, tier2_count: 0 }
    }
}

/// Whether statistics over `entries` fit their counters: the file sizes
/// sum to at most `u64::MAX` (and the count does too).
pub fn stats_fit(entries: &[ManifestEntry]) -> (r: bool)
    ensures
        r == (file_size_spec(entries@) <= u64::MAX && entries@.len() <= u64::MAX),
{
    let mut total: u64 = 0;
    let mut i: usize = 0;
    while i < entries.len()
        invariant
            0 <= i <= entries@.len(),
            total == file_size_spec(entries@.take(i as int)),
        decreases entries@.len() - i,
    {
        proof {
            assert(entries@.take(i + 1).drop_last() =~= entries@.take(i as int));
        }
        if !entries[i].vnode.is_dir() {
            match total.checked_add(entries[i].vnode.size) {
                Some(t) => total = t,
                None => {
                    proof {
                        lemma_file_size_mono(entries@, i + 1);
                    }
                    return false;
                },
            }
        }
        i = i + 1;
    }
    proof {
        assert(entries@.take(entries@.len() as int) =~= entries@);
    }
    true
}

/// The size total of a prefix is at most that of the whole list.
proof fn lemma_file_size_mono(es: Seq<ManifestEntry>, k: int)
    requires
        0 <= k <= es.len(),
    ensures
        file_size_spec(es.take(k)) <= file_size_spec(es),
    decreases es.len() - k,
{
    if k < es.len() {
        lemma_file_size_mono(es, k + 1);
        assert(es.take(k + 1).drop_last() =~= es.take(k));
    } else {
        assert(es.take(k) =~= es);
    }
}

impl ManifestStats {
    /// Statistics over a list of entries: files and directories counted
    /// apart, file sizes summed, tiers counted.
    pub fn from_entries(entries: &[ManifestEntry]) -> (s: Self)
        requires
            file_size_spec(entries@) <= u64::MAX,
            entries@.len() <= u64::MAX,
        ensures
            s.dir_count == dir_count_spec(entries@),
            s.file_count == entries@.len() - dir_count_spec(entries@),
            s.total_size == file_size_spec(entries@),
            s.tier1_count == tier1_count_spec(entries@),
            s.tier2_count == entries@.len() - tier1_count_spec(entries@),
    {
        let mut s = ManifestStats { file_count: 0, dir_count: 0, total_size: 0, tier1_count: 0, tier2_count: 0 };
        let mut i: usize = 0;
        while i < entries.len()
            invariant
                0 <= i <= entries@.len(),
                entries@.len() <= u64::MAX,
                file_size_spec(entries@) <= u64::MAX,
                s.dir_count == dir_count_spec(entries@.take(i as int)),
                s.file_count == i - dir_count_spec(entries@.take(i as int)),
                s.total_size == file_size_spec(entries@.take(i as int)),
                s.tier1_count == tier1_count_spec(entries@.take(i as int)),
                s.tier2_count == i - tier1_count_spec(entries@.take(i as int)),
                dir_count_spec(entries@.take(i as int)) <= i,
                tier1_count_spec(entries@.take(i as int)) <= i,
            decreases entries@.len() - i,
        {
            let e = entries[i];
            proof {
                assert(entries@.take(i + 1).drop_last() =~= entries@.take(i as int));
                lemma_file_size_prefix(entries@, i + 1);
            }
            if e.vnode.is_dir() {
                s.dir_count = s.dir_count + 1;
            } else {
                s.file_count = s.file_count + 1;
                s.total_size = s.total_size + e.vnode.size;
            }
            match e.tier {
                AssetTier::Tier1Immutable => s.tier1_count = s.tier1_count + 1,
                AssetTier::Tier2Mutable => s.tier2_count = s.tier2_count + 1,
            }
            i = i + 1;
        }
        proof {
            assert(entries@.take(entries@.len() as int) =~= entries@);
        }
        s
    }
}

proof fn lemma_file_size_prefix(es: Seq<ManifestEntry>, k: int)
    requires
        0 <= k <= es.len(),
    ensures
        file_size_spec(es.take(k)) <= file_size_spec(es),
    decreases es.len() - k,
{
    if k < es.len() {
        lemma_file_size_prefix(es, k + 1);
        assert(es.take(k + 1).drop_last() =~= es.take(k));
    } else {
        assert(es.take(k) =~= es);
    }
}

} // verus!
