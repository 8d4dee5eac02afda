//! The working directory seen through the VFS: a real directory under the
//! project root appears under the VFS prefix, and a `chdir` into the VFS
//! domain goes to the matching real directory.
use vstd::prelude::*;
use vstd::string::StrSliceExecFns;

verus! {

/// Whether text `s` starts with `p`.
pub open spec fn text_starts_with(s: Seq<char>, p: Seq<char>) -> bool {
    p.len() <= s.len() && s.take(p.len() as int) == p
}

/// What follows the prefix `p` in `s`, without one leading `/`.
pub open spec fn rest_after(s: Seq<char>, p: Seq<char>) -> Seq<char> {
    let r = s.skip(p.len() as int);
    if r.len() > 0 && r[0] == '/' {
        r.skip(1)
    } else {
        r
    }
}

/// `base`, or `base/rel` when `rel` is not empty.
pub open spec fn join_rel(base: Seq<char>, rel: Seq<char>) -> Seq<char> {
    if rel.len() == 0 {
        base
    } else {
        base + seq!['/'] + rel
    }
}

/// Working directory as the VFS shows it: a real directory under the
/// (non-empty) project root maps to the same place under the VFS prefix;
/// none for any other directory.
pub open spec fn virtual_cwd_spec(dir: Seq<char>, root: Seq<char>, prefix: Seq<char>) -> Option<Seq<char>> {
    if root.len() > 0 && text_starts_with(dir, root) {
        Some(join_rel(prefix, rest_after(dir, root)))
    } else {
        None
    }
}

/// Real directory of a `chdir` into the VFS domain: what follows the VFS
/// prefix (nothing when the path does not start with it) under the
/// project root.
pub open spec fn real_dir_spec(path: Seq<char>, prefix: Seq<char>, root: Seq<char>) -> Seq<char> {
    join_rel(root, if text_starts_with(path, prefix) { rest_after(path, prefix) } else { Seq::empty() })
}

/// Whether `s` starts with `p`, character by character.
fn text_prefix(s: &str, p: &str) -> (r: bool)
    ensures
        r == text_starts_with(s@, p@),
{
    let n = p.unicode_len();
    let m = s.unicode_len();
    if n > m {
        return false;
    }
    let mut i: usize = 0;
    while i < n
        invariant
            n == p@.len(),
            m == s@.len(),
            n <= m,
            0 <= i <= n,
            forall|j: int| 0 <= j < i ==> s@[j] == p@[j],
        decreases n - i,
    {
        if s.get_char(i) != p.get_char(i) {
            assert(s@.take(n as int)[i as int] != p@[i as int]);
            return false;
        }
        i = i + 1;
    }
    assert(s@.take(n as int) =~= p@);
    true
}

/// What follows the first `k` characters of `s`, without one leading `/`.
fn rest_from(s: &str, k: usize) -> (r: &str)
    requires
        k <= s@.len(),
    ensures
        r@ == ({
            let t = s@.skip(k as int);
            if t.len() > 0 && t[0] == '/' { t.skip(1) } else { t }
        }),
{
    let m = s.unicode_len();
    if k < m && s.get_char(k) == '/' {
        let r = s.substring_char(k + 1, m);
        assert(r@ =~= s@.skip(k as int).skip(1));
        r
    } else {
        let r = s.substring_char(k, m);
        assert(r@ =~= s@.skip(k as int));
        r
    }
}

/// `base`, or `base/rel` when `rel` is not empty.
fn join_text(base: &str, rel: &str) -> (r: String)
    ensures
        r@ == join_rel(base@, rel@),
{
    if rel.unicode_len() == 0 {
        String::from_str(base)
    } else {
        proof { reveal_strlit("/"); }
        let mut out = String::from_str(base);
        out.append("/");
        out.append(rel);
        assert(out@ =~= base@ + seq!['/'] + rel@);
        out
    }
}

/// The working directory as the VFS shows it (see `virtual_cwd_spec`).
pub fn virtual_cwd(real_cwd: &str, project_root: &str, vfs_prefix: &str) -> (r: Option<String>)
    ensures
        match virtual_cwd_spec(real_cwd@, project_root@, vfs_prefix@) {
            Some(v) => r matches Some(s) && s@ == v,
            None => r is None,
        },
{
    let n = project_root.unicode_len();
    if n == 0 || !text_prefix(real_cwd, project_root) {
        return None;
    }
    let rel = rest_from(real_cwd, n);
    Some(join_text(vfs_prefix, rel))
}

/// The real directory of a `chdir` into the VFS domain (see `real_dir_spec`).
pub fn real_dir(path: &str, vfs_prefix: &str, project_root: &str) -> (r: String)
    ensures
        r@ == real_dir_spec(path@, vfs_prefix@, project_root@),
{
    if text_prefix(path, vfs_prefix) {
        let rel = rest_from(path, vfs_prefix.unicode_len());
        join_text(project_root, rel)
    } else {
        proof { reveal_strlit(""); }
        join_text(project_root, "")
    }
}

/// Into the VFS and back: the project root, or a directory below it (at a
/// component boundary, without a trailing slash right after the root),
/// shown under the VFS prefix and entered again, is the directory it came
/// from.
pub proof fn law_cwd_round_trip(dir: Seq<char>, root: Seq<char>, prefix: Seq<char>)
    requires
        root.len() > 0,
        text_starts_with(dir, root),
        dir.len() == root.len() || (dir.len() > root.len() + 1 && dir[root.len() as int] == '/'),
    ensures
        virtual_cwd_spec(dir, root, prefix) is Some,
        real_dir_spec(virtual_cwd_spec(dir, root, prefix)->0, prefix, root) == dir,
{
    let rel = rest_after(dir, root);
    let v = join_rel(prefix, rel);
    assert(v.take(prefix.len() as int) =~= prefix);
    if dir.len() == root.len() {
        assert(dir.skip(root.len() as int) =~= Seq::<char>::empty());
        assert(dir =~= root) by {
            assert(dir =~= dir.take(root.len() as int));
        }
        assert(v.skip(prefix.len() as int) =~= Seq::<char>::empty());
    } else {
        let t = dir.skip(root.len() as int);
        assert(t[0] == '/');
        assert(rel =~= t.skip(1));
        assert(rel.len() > 0);
        assert(v.skip(prefix.len() as int) =~= seq!['/'] + rel);
        assert(rest_after(v, prefix) =~= rel);
        assert(dir =~= root + seq!['/'] + rel) by {
            assert(dir =~= dir.take(root.len() as int) + t);
            assert(t =~= seq!['/'] + t.skip(1));
        }
    }
}

} // verus!
