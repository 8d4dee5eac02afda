//! Where a `stat` of a VFS path is answered from: the staging file of a
//! file being written, the VDir listing, the stat cache or the daemon.
use vstd::prelude::*;
use crate::fd_table::{VirtualStat, virtual_stat};
use crate::manifest::VnodeEntry;
use crate::mmap::MmapStatEntry;
use crate::vdir::VDirEntry;

verus! {

/// The first step of a `stat` of a path in the VFS domain.
pub enum StatStep {
    /// The path is being written and a descriptor holds its staging file:
    /// stat that file, then present it with the VFS device and the key
    /// hash as inode.
    StatStaging,
    /// Answer from the VDir listing.
    Listed(VirtualStat),
    /// Ask the stat cache, then the daemon.
    AskManifest,
}

/// The first step of a `stat`: a path being written is answered from a live
/// staging file when one exists, and skips the VDir listing either way; a
/// clean path is answered from its VDir entry when it has one; everything
/// else goes to the manifest.
pub fn stat_first_step(dirty: bool, live_staging: bool, listed: Option<&VDirEntry>, key_hash: u64) -> (r: StatStep)
    ensures
        dirty && live_staging ==> r is StatStaging,
        dirty && !live_staging ==> r is AskManifest,
        !dirty ==> match listed {
            Some(e) => r == StatStep::Listed(VirtualStat {
                size: e.size, mode: e.mode, mtime_sec: e.mtime_sec,
                dev: crate::fd_table::RIFT_DEV, nlink: 1, ino: key_hash,
            }),
            None => r is AskManifest,
        },
{
    if dirty {
        if live_staging {
            StatStep::StatStaging
        } else {
            StatStep::AskManifest
        }
    } else {
        match listed {
            Some(e) => StatStep::Listed(virtual_stat(e.size, e.mode, e.mtime_sec, key_hash)),
            None => StatStep::AskManifest,
        }
    }
}

/// The manifest entry that a stat-cache entry stands for: its size, mode,
/// kind bits and modification time, with no content hash.
pub fn vnode_from_cache(e: &MmapStatEntry) -> (v: VnodeEntry)
    ensures
        v.content_hash@ == Seq::new(32, |i: int| 0u8),
        v.size == e.size,
        v.mtime == e.mtime as u64,
        v.mode == e.mode,
        v.flags == e.flags as u16,
        v._pad == 0,
{
    let v = VnodeEntry {
        content_hash: [0u8; 32],
        size: e.size,
        mtime: e.mtime as u64,
        mode: e.mode,
        flags: e.flags as u16,
        _pad: 0,
    };
    assert(v.content_hash@ =~= Seq::new(32, |i: int| 0u8));
    v
}

/// The stat record answered from a manifest entry: its size, mode and
/// `mtime` field, with the VFS device, one link and the key hash as inode.
pub fn stat_from_manifest(entry: &VnodeEntry, key_hash: u64) -> (s: VirtualStat)
    ensures
        s == (VirtualStat {
            size: entry.size, mode: entry.mode, mtime_sec: entry.mtime as i64,
            dev: crate::fd_table::RIFT_DEV, nlink: 1, ino: key_hash,
        }),
{
    virtual_stat(entry.size, entry.mode, entry.mtime as i64, key_hash)
}

/// The answer of a `stat` once the manifest has been asked: its entry's
/// record when it has one, else nothing (the real `stat` answers).
pub fn stat_after_manifest(reply: Option<&VnodeEntry>, key_hash: u64) -> (r: Option<VirtualStat>)
    ensures
        match reply {
            Some(e) => r == Some(VirtualStat {
                size: e.size, mode: e.mode, mtime_sec: e.mtime as i64,
                dev: crate::fd_table::RIFT_DEV, nlink: 1, ino: key_hash,
            }),
            None => r is None,
        },
{
    match reply {
        Some(e) => Some(stat_from_manifest(e, key_hash)),
        None => None,
    }
}

} // verus!
