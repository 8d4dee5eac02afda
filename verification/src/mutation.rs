//! Verdicts of the interposed calls that change the tree (rename, link,
//! chmod and the like) on paths and descriptors of the VFS domain.
use vstd::prelude::*;
use vstd::string::StringSliceAdditionalSpecFns;
use crate::bytes::{starts_with, starts_with_bytes};
use crate::fnv::{fnv1a_hash, fnv1a_spec};

verus! {

/// `EPERM` on Linux: operation not permitted.
pub const EPERM: i32 = 1;

/// `EXDEV` on Linux: cross-device link.
pub const EXDEV: i32 = 18;

/// What an interposed call does.
#[derive(Debug, Clone, Copy, PartialEq, Eq, Structural)]
pub enum Verdict {
    /// Fail with this error number.
    Fail(i32),
    /// Report success without a system call (the daemon did the work).
    Succeed,
    /// Make the real system call.
    Passthrough,
}

/// Rename: refused across the VFS boundary; inside the domain, a path the
/// daemon manages (both paths resolved and the old one known to the daemon)
/// is renamed by the daemon, failing with `EPERM` if it could not; every
/// other rename is the real one. `managed` and `renamed` are what the
/// daemon answered (they matter only where the verdict needs them).
pub open spec fn rename_spec(old_in: bool, new_in: bool, resolved: bool, managed: bool, renamed: bool) -> Verdict {
    if old_in != new_in {
        Verdict::Fail(EXDEV)
    } else if old_in && resolved && managed {
        if renamed {
            Verdict::Succeed
        } else {
            Verdict::Fail(EPERM)
        }
    } else {
        Verdict::Passthrough
    }
}

/// Verdict of a rename (see `rename_spec`).
pub fn rename_verdict(old_in: bool, new_in: bool, resolved: bool, managed: bool, renamed: bool) -> (v: Verdict)
    ensures
        v == rename_spec(old_in, new_in, resolved, managed, renamed),
{
    if old_in != new_in {
        Verdict::Fail(EXDEV)
    } else if old_in && resolved && managed {
        if renamed {
            Verdict::Succeed
        } else {
            Verdict::Fail(EPERM)
        }
    } else {
        Verdict::Passthrough
    }
}

/// Whether a rename needs to ask the daemon whether it manages the old
/// path: both paths are in the domain and resolve.
pub fn rename_asks_daemon(old_in: bool, new_in: bool, resolved: bool) -> (r: bool)
    ensures
        r == (old_in && new_in && resolved),
{
    old_in && new_in && resolved
}

/// Hard link: refused across the VFS boundary, and refused inside it when
/// the source is a manifest entry (its CAS blob must not gain links).
pub open spec fn link_spec(old_in: bool, new_in: bool, old_in_manifest: bool) -> Verdict {
    if old_in != new_in {
        Verdict::Fail(EXDEV)
    } else if old_in && old_in_manifest {
        Verdict::Fail(EXDEV)
    } else {
        Verdict::Passthrough
    }
}

/// Verdict of a hard link (see `link_spec`).
pub fn link_verdict(old_in: bool, new_in: bool, old_in_manifest: bool) -> (v: Verdict)
    ensures
        v == link_spec(old_in, new_in, old_in_manifest),
{
    if old_in != new_in || (old_in && old_in_manifest) {
        Verdict::Fail(EXDEV)
    } else {
        Verdict::Passthrough
    }
}

/// Mutation of a path (chmod, unlink, utimes and the like): outside the
/// domain it is the real call; with the stat cache mapped only manifest
/// entries are refused; without it, every path under the VFS prefix is.
pub open spec fn path_mutation_spec(applicable: bool, cache_mapped: bool, in_manifest: bool, under_prefix: bool) -> Verdict {
    if !applicable {
        Verdict::Passthrough
    } else if cache_mapped {
        if in_manifest {
            Verdict::Fail(EPERM)
        } else {
            Verdict::Passthrough
        }
    } else if under_prefix {
        Verdict::Fail(EPERM)
    } else {
        Verdict::Passthrough
    }
}

/// Verdict of a path mutation (see `path_mutation_spec`).
pub fn path_mutation_verdict(applicable: bool, cache_mapped: bool, in_manifest: bool, under_prefix: bool) -> (v: Verdict)
    ensures
        v == path_mutation_spec(applicable, cache_mapped, in_manifest, under_prefix),
{
    if !applicable {
        Verdict::Passthrough
    } else if cache_mapped {
        if in_manifest {
            Verdict::Fail(EPERM)
        } else {
            Verdict::Passthrough
        }
    } else if under_prefix {
        Verdict::Fail(EPERM)
    } else {
        Verdict::Passthrough
    }
}

/// Mutation through a descriptor (fchmod, futimes, ftruncate and the
/// like): refused when the descriptor's path is in the domain or the
/// descriptor is tracked as a VFS file.
pub fn fd_mutation_verdict(path_applicable: bool, tracked_vfs: bool) -> (v: Verdict)
    ensures
        v == (if path_applicable || tracked_vfs {
            Verdict::Fail(EPERM)
        } else {
            Verdict::Passthrough
        }),
{
    if path_applicable || tracked_vfs {
        Verdict::Fail(EPERM)
    } else {
        Verdict::Passthrough
    }
}

/// Whether a path lies under the VFS prefix setting, when one is set (a
/// plain byte-prefix test, so an empty setting covers every path).
pub fn under_vfs_prefix(path: &str, prefix: Option<&str>) -> (r: bool)
    ensures
        r == (prefix matches Some(p) && starts_with_bytes(path.spec_bytes(), p.spec_bytes())),
{
    match prefix {
        None => false,
        Some(p) => starts_with(path.as_bytes(), p.as_bytes()),
    }
}

/// Inode number presented for a virtual path: the FNV-1a hash of its bytes.
pub fn path_to_virtual_ino(path: &str) -> (ino: u64)
    ensures
        ino == fnv1a_spec(path.spec_bytes()),
{
    fnv1a_hash(path)
}

/// `LOCK_UN` bit of a `flock` operation.
pub const LOCK_UN: i32 = 8;

/// The lock request sent to the daemon for a `flock` operation.
#[derive(Debug, Clone, Copy, PartialEq, Eq, Structural)]
pub enum LockRequest {
    /// Release the path's lock.
    Release,
    /// Acquire the path's lock with this operation.
    Acquire(i32),
}

/// An operation with the `LOCK_UN` bit releases the lock; any other
/// acquires it with the operation as given.
pub fn flock_request(op: i32) -> (r: LockRequest)
    ensures
        (op & LOCK_UN) != 0 ==> r == LockRequest::Release,
        (op & LOCK_UN) == 0 ==> r == LockRequest::Acquire(op),
{
    if op & LOCK_UN != 0 {
        LockRequest::Release
    } else {
        LockRequest::Acquire(op)
    }
}

/// A rename or hard link across the VFS boundary is refused with `EXDEV`,
/// whatever the daemon would answer.
pub proof fn law_cross_boundary_refused(old_in: bool, new_in: bool, resolved: bool, managed: bool, renamed: bool, in_manifest: bool)
    requires
        old_in != new_in,
    ensures
        rename_spec(old_in, new_in, resolved, managed, renamed) == Verdict::Fail(EXDEV),
        link_spec(old_in, new_in, in_manifest) == Verdict::Fail(EXDEV),
{
}

/// A path outside the domain is never refused a mutation.
pub proof fn law_outside_domain_passes(cache_mapped: bool, in_manifest: bool, under_prefix: bool)
    ensures
        path_mutation_spec(false, cache_mapped, in_manifest, under_prefix) == Verdict::Passthrough,
{
}

} // verus!
