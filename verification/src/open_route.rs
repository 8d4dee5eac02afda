//! Routing of an `open` in the VFS domain: whether it writes or mutates,
//! and which source serves it (the physical file, a copy-on-write staging
//! file, the CAS blob, or the daemon).
use vstd::prelude::*;
use crate::vdir::VDirEntry;

verus! {

/// `O_WRONLY` on Linux.
pub const O_WRONLY: i32 = 0o1;
/// `O_RDWR` on Linux.
pub const O_RDWR: i32 = 0o2;
/// `O_CREAT` on Linux.
pub const O_CREAT: i32 = 0o100;
/// `O_TRUNC` on Linux.
pub const O_TRUNC: i32 = 0o1000;
/// `O_APPEND` on Linux.
pub const O_APPEND: i32 = 0o2000;

/// Whether an open with these flags writes: write-only, read-write, append or truncate.
pub fn is_write_open(flags: i32) -> (r: bool)
    ensures
        r == (flags & (O_WRONLY | O_RDWR | O_APPEND | O_TRUNC) != 0),
{
    flags & (O_WRONLY | O_RDWR | O_APPEND | O_TRUNC) != 0
}

/// Whether an open with these flags may change the tree: create, write-only or read-write.
pub fn is_mutation_open(flags: i32) -> (r: bool)
    ensures
        r == (flags & (O_CREAT | O_WRONLY | O_RDWR) != 0),
{
    flags & (O_CREAT | O_WRONLY | O_RDWR) != 0
}

/// Which source serves an open in the VFS domain.
#[derive(Debug, Clone, Copy, PartialEq, Eq, Structural)]
pub enum OpenRoute {
    /// Open the physical file: it is newer than the cached entry.
    Physical,
    /// Copy the CAS blob to a staging file and open that for writing.
    CowWrite,
    /// Open the CAS blob read-only.
    CasRead,
    /// Ask the daemon: the path is dirty, not cached, or a directory.
    Daemon,
}

/// The cached entry has content (directories have an all-zero hash).
pub open spec fn has_content(e: VDirEntry) -> bool {
    exists|i: int| 0 <= i < 32 && e.cas_hash@[i] != 0
}

/// The physical file, stat'ed with modification time `(sec, nsec)`, is newer
/// than the cached entry: later second, or same second with nanoseconds.
pub open spec fn phys_newer(e: VDirEntry, sec: u64, nsec: u64) -> bool {
    sec > e.mtime_sec as u64 || (sec == e.mtime_sec as u64 && nsec > 0)
}

/// Route of an open: the daemon for a dirty path, a path without cached
/// entry or a directory entry; else the physical file if it exists and is
/// newer; else copy-on-write for writes and the CAS blob for reads.
/// `phys` is the modification time of the physical file, if it could be stat'ed.
pub open spec fn open_route_spec(dirty: bool, entry: Option<VDirEntry>, phys: Option<(u64, u64)>, is_write: bool) -> OpenRoute {
    if dirty {
        OpenRoute::Daemon
    } else {
        match entry {
            None => OpenRoute::Daemon,
            Some(e) => if !has_content(e) {
                OpenRoute::Daemon
            } else if (phys matches Some((s, n)) && phys_newer(e, s, n)) {
                OpenRoute::Physical
            } else if is_write {
                OpenRoute::CowWrite
            } else {
                OpenRoute::CasRead
            },
        }
    }
}

/// Whether some byte of the hash is nonzero.
fn hash_nonzero(h: &[u8; 32]) -> (r: bool)
    ensures
        r == exists|i: int| 0 <= i < 32 && h@[i] != 0,
{
    let mut i: usize = 0;
    while i < 32
        invariant
            0 <= i <= 32,
            h@.len() == 32,
            forall|j: int| 0 <= j < i ==> h@[j] == 0,
        decreases 32 - i,
    {
        if h[i] != 0 {
            return true;
        }
        i = i + 1;
    }
    false
}

/// Route of an open (see `open_route_spec`).
pub fn open_route(dirty: bool, entry: Option<&VDirEntry>, phys: Option<(u64, u64)>, is_write: bool) -> (r: OpenRoute)
    ensures
        r == open_route_spec(dirty, match entry { Some(e) => Some(*e), None => None }, phys, is_write),
{
    if dirty {
        return OpenRoute::Daemon;
    }
    match entry {
        None => OpenRoute::Daemon,
        Some(e) => {
            if !hash_nonzero(&e.cas_hash) {
                return OpenRoute::Daemon;
            }
            let newer = match phys {
                Some((s, n)) => s > e.mtime_sec as u64 || (s == e.mtime_sec as u64 && n > 0),
                None => false,
            };
            if newer {
                OpenRoute::Physical
            } else if is_write {
                OpenRoute::CowWrite
            } else {
                OpenRoute::CasRead
            }
        },
    }
}

/// A physical copy newer than the cached entry wins: for a clean path whose
/// cached entry has content, when the physical file's modification time
/// is a later second, or the same second with nanoseconds, the open goes
/// to the physical file, for reads and writes alike.
pub proof fn law_newer_physical_wins(e: VDirEntry, sec: u64, nsec: u64, is_write: bool)
    requires
        exists|i: int| 0 <= i < 32 && e.cas_hash@[i] != 0,
        sec > e.mtime_sec as u64 || (sec == e.mtime_sec as u64 && nsec > 0),
    ensures
        open_route_spec(false, Some(e), Some((sec, nsec)), is_write) == OpenRoute::Physical,
{
}

/// Copy-on-write and CAS reads serve only a clean, cached file with content
/// and no newer physical copy: a write-open goes to copy-on-write exactly
/// there, and a read-open to the CAS blob.
pub proof fn law_cas_only_when_current(dirty: bool, e: VDirEntry, phys: Option<(u64, u64)>, is_write: bool)
    ensures
        (open_route_spec(dirty, Some(e), phys, is_write) is CowWrite || open_route_spec(dirty, Some(e), phys, is_write) is CasRead)
            <==> (!dirty && (exists|i: int| 0 <= i < 32 && e.cas_hash@[i] != 0)
                && !(phys matches Some((sec, nsec)) && (sec > e.mtime_sec as u64 || (sec == e.mtime_sec as u64 && nsec > 0)))),
        open_route_spec(dirty, Some(e), phys, is_write) is CowWrite ==> is_write,
        open_route_spec(dirty, Some(e), phys, is_write) is CasRead ==> !is_write,
{
}

} // verus!
