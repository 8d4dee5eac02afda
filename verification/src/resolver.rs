//! Unified path resolution for the VFS domain: turn an incoming path
//! (absolute, or relative to the working directory) into its normalized
//! absolute form and the manifest key under which it is stored.
use vstd::prelude::*;
use vstd::string::StringSliceAdditionalSpecFns;
use vstd::utf8::valid_utf8;
use crate::bytes::{starts_with, starts_with_bytes};
use crate::fnv::{fnv1a_hash, fnv1a_spec};
use crate::path::{normalize_bytes, normalize_spec, SLASH};
use crate::state::FixedString;
use crate::text::utf8_str;

verus! {

/// Capacity of the path buffers.
pub const PATH_BUF: usize = 1024;

/// `b` cut to its first `n` bytes.
pub open spec fn cut(b: Seq<u8>, n: nat) -> Seq<u8> {
    if b.len() <= n {
        b
    } else {
        b.take(n as int)
    }
}

/// Stored bytes read back as text: themselves if valid UTF-8, else empty.
pub open spec fn text_of(b: Seq<u8>) -> Seq<u8> {
    if valid_utf8(b) {
        b
    } else {
        Seq::empty()
    }
}

/// Bytes of an optional string.
pub open spec fn opt_bytes(s: Option<&str>) -> Option<Seq<u8>> {
    match s {
        Some(t) => Some(t.spec_bytes()),
        None => None,
    }
}

/// Whether position `n` of `s` ends `s` or holds a slash.
pub open spec fn at_boundary(s: Seq<u8>, n: int) -> bool {
    s.len() == n || (0 <= n < s.len() && s[n] == SLASH)
}

/// The absolute path to normalize: the path itself if it starts with `/`,
/// else `cwd/path`; cut to the path buffer. None for a relative path
/// without a known working directory.
pub open spec fn absolute_input(path: Seq<u8>, cwd: Option<Seq<u8>>) -> Option<Seq<u8>> {
    if path.len() > 0 && path[0] == SLASH {
        Some(cut(path, PATH_BUF as nat))
    } else {
        match cwd {
            Some(c) => Some(cut(c + seq![SLASH] + path, PATH_BUF as nat)),
            None => None,
        }
    }
}

/// A key that starts with `/`: `rest` itself, or `/` followed by `rest`
/// (cut to the path buffer).
pub open spec fn slash_key(rest: Seq<u8>) -> Seq<u8> {
    if rest.len() > 0 && rest[0] == SLASH {
        rest
    } else {
        cut(seq![SLASH] + rest, PATH_BUF as nat)
    }
}

/// Manifest key of the normalized path `norm`: the part below the project
/// root when it lies under it (empty if it only shares the root's bytes
/// without a component boundary); else the whole path for a virtual prefix
/// (one that starts with `/` and is not under the project root); else the
/// part below the prefix.
pub open spec fn manifest_key_spec(norm: Seq<u8>, prefix: Seq<u8>, root_raw: Seq<u8>) -> Seq<u8> {
    let root = text_of(root_raw);
    if root_raw.len() > 0 && starts_with_bytes(norm, root) {
        if at_boundary(norm, root.len() as int) {
            cut(slash_key(norm.skip(root.len() as int)), PATH_BUF as nat)
        } else {
            Seq::empty()
        }
    } else if prefix.len() > 0 && prefix[0] == SLASH && (root_raw.len() == 0 || !starts_with_bytes(prefix, root)) {
        norm
    } else {
        let rest = if starts_with_bytes(norm, prefix) {
            norm.skip(prefix.len() as int)
        } else {
            Seq::empty()
        };
        cut(slash_key(rest), PATH_BUF as nat)
    }
}

/// Whether a normalized path lies in the VFS domain: under the VFS prefix
/// (then, past the prefix length, at a component boundary of the prefix
/// unless the prefix ends with `/`), or else under the project root at a
/// component boundary.
pub open spec fn in_domain_of(prefix_raw: Seq<u8>, root_raw: Seq<u8>, norm: Seq<u8>) -> bool {
    let prefix = text_of(prefix_raw);
    let root = text_of(root_raw);
    if starts_with_bytes(norm, prefix) {
        !(norm.len() > prefix_raw.len() && !(prefix.len() > 0 && prefix.last() == SLASH)
            && norm[prefix_raw.len() as int] != SLASH)
    } else {
        root_raw.len() > 0 && starts_with_bytes(norm, root) && at_boundary(norm, root.len() as int)
    }
}

/// Resolution of `path` with VFS prefix bytes `prefix_raw`, project root
/// bytes `root_raw` and working directory `cwd`: the normalized absolute
/// path and the manifest key, or none when the VFS is not configured, the
/// path cannot be made absolute or normalized, is not valid UTF-8 once
/// normalized, or lies outside the VFS prefix and the project root.
pub open spec fn resolve_spec(prefix_raw: Seq<u8>, root_raw: Seq<u8>, path: Seq<u8>, cwd: Option<Seq<u8>>) -> Option<(Seq<u8>, Seq<u8>)> {
    if prefix_raw.len() == 0 {
        None
    } else {
        match absolute_input(path, cwd) {
            None => None,
            Some(a) => match normalize_spec(a, PATH_BUF as nat) {
                None => None,
                Some(norm) => {
                    if !valid_utf8(norm) || !in_domain_of(prefix_raw, root_raw, norm) {
                        None
                    } else {
                        Some((norm, manifest_key_spec(norm, text_of(prefix_raw), root_raw)))
                    }
                },
            },
        }
    }
}

/// A path resolved into the VFS domain.
pub struct VfsPath {
    /// Normalized absolute path.
    pub absolute: FixedString<1024>,
    /// Key of the path in the manifest.
    pub manifest_key: FixedString<1024>,
    /// FNV-1a hash of the manifest key.
    pub manifest_key_hash: u64,
}

/// Resolver of paths into the VFS domain.
pub struct PathResolver {
    pub vfs_prefix: FixedString<256>,
    pub project_root: FixedString<1024>,
}

/// Append `b` to `v`, keeping at most `cap` bytes in all.
fn push_cut(v: &mut Vec<u8>, b: &[u8], cap: usize)
    requires
        old(v)@.len() <= cap,
    ensures
        final(v)@ == cut(old(v)@ + b@, cap as nat),
{
    let mut i: usize = 0;
    while i < b.len() && v.len() < cap
        invariant
            v@.len() <= cap,
            0 <= i <= b@.len(),
            v@ == (old(v)@ + b@).take(old(v)@.len() + i),
            v@.len() == old(v)@.len() + i,
        decreases b@.len() - i,
    {
        v.push(b[i]);
        i = i + 1;
        proof {
            assert(v@ =~= (old(v)@ + b@).take(old(v)@.len() + i));
        }
    }
    proof {
        let full = old(v)@ + b@;
        if full.len() <= cap {
            assert(i == b@.len());
            assert(v@ =~= full);
        } else {
            assert(v@.len() == cap);
            assert(v@ =~= full.take(cap as int));
        }
    }
}

impl PathResolver {
    /// A resolver for the VFS prefix and project root, each stored truncated
    /// to its buffer.
    pub fn new(vfs_prefix: &str, project_root: &str) -> (r: Self)
        ensures
            r.vfs_prefix.bytes() == cut(vfs_prefix.spec_bytes(), 256),
            r.project_root.bytes() == cut(project_root.spec_bytes(), 1024),
    {
        let mut prefix = FixedString::<256>::new();
        prefix.set(vfs_prefix);
        let mut root = FixedString::<1024>::new();
        root.set(project_root);
        PathResolver { vfs_prefix: prefix, project_root: root }
    }

    fn in_domain(&self, nbytes: &[u8]) -> (r: bool)
        ensures
            r == in_domain_of(self.vfs_prefix.bytes(), self.project_root.bytes(), nbytes@),
    {
        let prefix_s = self.vfs_prefix.as_str().as_bytes();
        let root_s = self.project_root.as_str().as_bytes();
        assert(prefix_s@ == text_of(self.vfs_prefix.bytes()));
        assert(root_s@ == text_of(self.project_root.bytes()));
        if starts_with(nbytes, prefix_s) {
            let prefix_len = self.vfs_prefix.byte_len();
            let prefix_ends_slash = prefix_s.len() > 0 && prefix_s[prefix_s.len() - 1] == SLASH;
            !(nbytes.len() > prefix_len && !prefix_ends_slash && nbytes[prefix_len] != SLASH)
        } else if !self.project_root.is_empty() && starts_with(nbytes, root_s) {
            let rl = root_s.len();
            nbytes.len() == rl || nbytes[rl] == SLASH
        } else {
            false
        }
    }

    /// Manifest key of a normalized path in the domain.
    fn key_of(&self, nbytes: &[u8]) -> (key: Vec<u8>)
        requires
            nbytes@.len() <= PATH_BUF,
        ensures
            key@ == manifest_key_spec(nbytes@, text_of(self.vfs_prefix.bytes()), self.project_root.bytes()),
    {
        let prefix_s = self.vfs_prefix.as_str().as_bytes();
        let root_s = self.project_root.as_str().as_bytes();
        assert(prefix_s@ == text_of(self.vfs_prefix.bytes()));
        assert(root_s@ == text_of(self.project_root.bytes()));
        let mut key: Vec<u8> = Vec::new();
        if !self.project_root.is_empty() && starts_with(nbytes, root_s) {
            let rl = root_s.len();
            if nbytes.len() == rl || nbytes[rl] == SLASH {
                let (_, rest) = nbytes.split_at(rl);
                slash_key_into(&mut key, rest);
                assert(cut(cut(slash_key(rest@), PATH_BUF as nat), PATH_BUF as nat) == cut(slash_key(rest@), PATH_BUF as nat));
            }
        } else if prefix_s.len() > 0 && prefix_s[0] == SLASH && (self.project_root.is_empty() || !starts_with(prefix_s, root_s)) {
            push_cut(&mut key, nbytes, PATH_BUF);
            assert(key@ =~= nbytes@) by {
                assert(Seq::<u8>::empty() + nbytes@ =~= nbytes@);
            }
        } else {
            if starts_with(nbytes, prefix_s) {
                let (_, rest) = nbytes.split_at(prefix_s.len());
                slash_key_into(&mut key, rest);
            } else {
                let empty: [u8; 0] = [];
                assert(empty@ =~= Seq::<u8>::empty());
                slash_key_into(&mut key, empty.as_slice());
            }
        }
        key
    }

    /// Resolve an incoming path (absolute, or relative to `cwd`) into a
    /// `VfsPath`; none if the path is not within the VFS domain (see
    /// `resolve_spec`).
    pub fn resolve(&self, path: &str, cwd: Option<&str>) -> (r: Option<VfsPath>)
        ensures
            match resolve_spec(self.vfs_prefix.bytes(), self.project_root.bytes(), path.spec_bytes(), opt_bytes(cwd)) {
                None => r is None,
                Some((abs, key)) => r matches Some(v) && v.absolute.bytes() == abs && v.manifest_key.bytes() == key
                    && v.manifest_key_hash == fnv1a_spec(text_of(key)),
            },
    {
        if self.vfs_prefix.is_empty() {
            return None;
        }
        let abs = match absolute_of(path, cwd) {
            None => {
                return None;
            },
            Some(a) => a,
        };
        let nv = match normalize_into_buffer(abs.as_slice()) {
            None => {
                return None;
            },
            Some(v) => v,
        };
        let normalized: &str = match utf8_str(nv.as_slice()) {
            None => {
                return None;
            },
            Some(s) => s,
        };
        let nbytes = normalized.as_bytes();
        if !self.in_domain(nbytes) {
            return None;
        }
        let key = self.key_of(nbytes);
        let mut norm_fs = FixedString::<1024>::new();
        norm_fs.set_bytes(nbytes);
        let mut key_fs = FixedString::<1024>::new();
        key_fs.set_bytes(key.as_slice());
        proof {
            assert(nbytes@.take(nbytes@.len() as int) =~= nbytes@);
            assert(key@.take(key@.len() as int) =~= key@);
        }
        let manifest_key_hash = fnv1a_hash(key_fs.as_str());
        Some(VfsPath { absolute: norm_fs, manifest_key: key_fs, manifest_key_hash })
    }
}

/// The path made absolute (see `absolute_input`).
fn absolute_of(path: &str, cwd: Option<&str>) -> (r: Option<Vec<u8>>)
    ensures
        match absolute_input(path.spec_bytes(), opt_bytes(cwd)) {
            None => r is None,
            Some(a) => r matches Some(v) && v@ == a,
        },
{
    let pb = path.as_bytes();
    let mut abs: Vec<u8> = Vec::new();
    if pb.len() > 0 && pb[0] == SLASH {
        push_cut(&mut abs, pb, PATH_BUF);
        assert(abs@ =~= cut(pb@, PATH_BUF as nat)) by {
            assert(Seq::<u8>::empty() + pb@ =~= pb@);
        }
        Some(abs)
    } else {
        match cwd {
            None => None,
            Some(c) => {
                push_cut(&mut abs, c.as_bytes(), PATH_BUF);
                let slash: [u8; 1] = [SLASH];
                push_cut(&mut abs, slash.as_slice(), PATH_BUF);
                push_cut(&mut abs, pb, PATH_BUF);
                proof {
                    let full = c.spec_bytes() + seq![SLASH] + pb@;
                    assert(Seq::<u8>::empty() + c.spec_bytes() =~= c.spec_bytes());
                    assert(slash@ =~= seq![SLASH]);
                    lemma_cut_append(c.spec_bytes(), seq![SLASH], PATH_BUF as nat);
                    lemma_cut_append(c.spec_bytes() + seq![SLASH], pb@, PATH_BUF as nat);
                }
                Some(abs)
            },
        }
    }
}

/// The normalized form of `abs` in a path buffer (see `normalize_spec`).
fn normalize_into_buffer(abs: &[u8]) -> (r: Option<Vec<u8>>)
    ensures
        match normalize_spec(abs@, PATH_BUF as nat) {
            None => r is None,
            Some(n) => r matches Some(v) && v@ == n && v@.len() <= PATH_BUF,
        },
{
    let mut nb: Vec<u8> = Vec::new();
    let mut z: usize = 0;
    while z < PATH_BUF
        invariant
            0 <= z <= PATH_BUF,
            nb@.len() == z,
        decreases PATH_BUF - z,
    {
        nb.push(0);
        z = z + 1;
    }
    let nr = normalize_bytes(abs, nb.as_mut_slice());
    match nr {
        None => None,
        Some(nlen) => {
            let (nslice, _) = nb.as_slice().split_at(nlen);
            Some(crate::bytes::to_vec(nslice))
        },
    }
}

/// Cutting `a + b` to `n` bytes cuts the cut of `a` followed by `b`.
proof fn lemma_cut_append(a: Seq<u8>, b: Seq<u8>, n: nat)
    ensures
        cut(cut(a, n) + b, n) == cut(a + b, n),
{
    if a.len() <= n {
    } else {
        assert(cut(a, n) + b =~= a.take(n as int) + b);
        assert(cut(a.take(n as int) + b, n) =~= (a + b).take(n as int));
    }
}

/// Store the manifest key for the part `rest` below a prefix: `rest` if it
/// starts with `/`, else `/` followed by `rest`, cut to the path buffer.
fn slash_key_into(key: &mut Vec<u8>, rest: &[u8])
    requires
        old(key)@.len() == 0,
        rest@.len() <= PATH_BUF,
    ensures
        final(key)@ == cut(slash_key(rest@), PATH_BUF as nat),
{
    if rest.len() > 0 && rest[0] == SLASH {
        push_cut(key, rest, PATH_BUF);
        assert(Seq::<u8>::empty() + rest@ =~= rest@);
    } else {
        let slash: [u8; 1] = [SLASH];
        push_cut(key, slash.as_slice(), PATH_BUF);
        push_cut(key, rest, PATH_BUF);
        proof {
            assert(slash@ =~= seq![SLASH]);
            assert(Seq::<u8>::empty() + seq![SLASH] =~= seq![SLASH]);
            assert(cut(seq![SLASH], PATH_BUF as nat) == seq![SLASH]);
        }
    }
}

/// The VFS prefix and everything below it are in the domain: a normalized
/// path that begins with the (valid UTF-8) prefix bytes and then ends or
/// continues with a slash lies in the domain, the prefix itself included,
/// whatever the project root.
pub proof fn law_prefix_in_domain(prefix: Seq<u8>, root: Seq<u8>, norm: Seq<u8>)
    requires
        valid_utf8(prefix),
        prefix.len() <= norm.len(),
        norm.take(prefix.len() as int) == prefix,
        norm.len() == prefix.len() || norm[prefix.len() as int] == SLASH,
    ensures
        in_domain_of(prefix, root, norm),
{
}

/// Resolving the VFS prefix itself (a clean absolute path that ends with a
/// name, within the path buffer) succeeds, with the prefix as the absolute
/// path; with no project root its manifest key is the prefix too.
pub proof fn law_prefix_resolves(prefix: Seq<u8>, root: Seq<u8>)
    requires
        valid_utf8(prefix),
        crate::path::clean_absolute(prefix),
        prefix.len() >= 2,
        prefix.last() != SLASH,
        prefix.len() <= PATH_BUF,
    ensures
        resolve_spec(prefix, root, prefix, None) matches Some((abs, key)) && abs == prefix
            && (root.len() == 0 ==> key == prefix),
{
    crate::path::law_normalize_keeps_clean(prefix, PATH_BUF as nat);
    assert(prefix.take(prefix.len() as int) =~= prefix);
    law_prefix_in_domain(prefix, root, prefix);
}

/// The domain ends at component boundaries: a path that begins with the
/// prefix bytes but continues past them with a byte other than a slash
/// (the prefix not ending with one) is outside it; one that does not begin
/// with the prefix is inside exactly when it lies under the non-empty
/// project root at a component boundary.
pub proof fn law_domain_boundaries(prefix: Seq<u8>, root: Seq<u8>, norm: Seq<u8>)
    requires
        valid_utf8(prefix),
        valid_utf8(root),
    ensures
        (prefix.len() < norm.len() && norm.take(prefix.len() as int) == prefix && norm[prefix.len() as int] != SLASH
            && !(prefix.len() > 0 && prefix.last() == SLASH)) ==> !in_domain_of(prefix, root, norm),
        !(prefix.len() <= norm.len() && norm.take(prefix.len() as int) == prefix) ==> (in_domain_of(prefix, root, norm)
            <==> (root.len() > 0 && root.len() <= norm.len() && norm.take(root.len() as int) == root
                && (norm.len() == root.len() || norm[root.len() as int] == SLASH))),
{
}

} // verus!
