//! Descriptors opened through the VFS: what is tracked for each, the
//! count of tracked descriptors, the stat record reported for a VFS file,
//! and where an `fstat` of a descriptor is answered from.
use vstd::prelude::*;
use std::collections::HashMap;
use vstd::string::StringSliceAdditionalSpecFns;
use crate::state::FixedString;
use crate::ring_buffer::Task;
use crate::bytes::starts_with;
use crate::resolver::text_of;
use vstd::std_specs::hash::spec_hash_map_iter;
use vstd::std_specs::iter::IteratorSpec;

verus! {

broadcast use {
    vstd::std_specs::hash::axiom_maps_deref_key_to_value,
    vstd::std_specs::hash::axiom_contains_deref_key,
    vstd::std_specs::hash::axiom_deref_key_removed,
    vstd::std_specs::hash::axiom_u32_obeys_hash_table_key_model,
    vstd::std_specs::hash::axiom_random_state_builds_valid_hashers,
    vstd::std_specs::hash::axiom_hashmap_view_finite_dom,
    vstd::std_specs::hash::axiom_spec_hash_map_iter,
};

/// Device number reported for VFS files ("RIFT").
pub const RIFT_DEV: u64 = 0x52494654;

/// Stat record reported for a VFS file.
#[derive(Debug, Clone, Copy, PartialEq, Eq, Structural)]
pub struct VirtualStat {
    pub size: u64,
    pub mode: u32,
    pub mtime_sec: i64,
    pub dev: u64,
    pub nlink: u64,
    pub ino: u64,
}

/// The stat record of a VFS file: its size, mode and modification time,
/// the VFS device, one link, and the manifest key hash as inode; every
/// other field is zero.
pub fn virtual_stat(size: u64, mode: u32, mtime_sec: i64, key_hash: u64) -> (s: VirtualStat)
    ensures
        s == (VirtualStat { size, mode, mtime_sec, dev: RIFT_DEV, nlink: 1, ino: key_hash }),
{
    VirtualStat { size, mode, mtime_sec, dev: RIFT_DEV, nlink: 1, ino: key_hash }
}

/// What is tracked of a descriptor.
pub struct FdEntry {
    pub vpath: FixedString<1024>,
    pub manifest_key: FixedString<1024>,
    pub manifest_key_hash: u64,
    /// Staging file of a copy-on-write open (empty otherwise).
    pub temp_path: FixedString<1024>,
    pub is_vfs: bool,
    pub cached_stat: Option<VirtualStat>,
    pub mmap_count: usize,
    /// Descriptor of a held lock file, or -1.
    pub lock_fd: i32,
}

impl FdEntry {
    /// Entry of a descriptor opened for `path` (taken as its manifest key
    /// too), without staging file, mappings or lock.
    pub fn new(path: &str, is_vfs: bool, cached_stat: Option<VirtualStat>, manifest_key_hash: u64) -> (e: Self)
        ensures
            e.vpath.bytes() == path.spec_bytes().take(if path.spec_bytes().len() < 1024 { path.spec_bytes().len() as int } else { 1024 }),
            e.manifest_key.bytes() == e.vpath.bytes(),
            e.manifest_key_hash == manifest_key_hash,
            e.temp_path.bytes() == Seq::<u8>::empty(),
            e.is_vfs == is_vfs,
            e.cached_stat == cached_stat,
            e.mmap_count == 0,
            e.lock_fd == -1,
    {
        let mut vpath = FixedString::<1024>::new();
        vpath.set(path);
        let mut key = FixedString::<1024>::new();
        key.set(path);
        FdEntry {
            vpath,
            manifest_key: key,
            manifest_key_hash,
            temp_path: FixedString::<1024>::new(),
            is_vfs,
            cached_stat,
            mmap_count: 0,
            lock_fd: -1,
        }
    }
}

/// Tracked descriptors with the count of them.
pub struct FdTable {
    entries: HashMap<u32, FdEntry>,
    open_count: usize,
}

impl FdTable {
    /// Tracked descriptors and their entries.
    pub closed spec fn open_fds(&self) -> Map<u32, FdEntry> {
        self.entries@
    }

    /// The open-descriptor count kept beside the table (a monitoring
    /// figure: closes lower it whether or not the descriptor is tracked).
    pub closed spec fn count(&self) -> usize {
        self.open_count
    }

    /// The count is the number of tracked descriptors.
    pub open spec fn wf(&self) -> bool {
        self.count() == self.open_fds().len()
    }

    /// An empty table.
    pub fn new() -> (t: Self)
        ensures
            t.wf(),
            t.open_fds() == Map::<u32, FdEntry>::empty(),
    {
        let t = FdTable { entries: HashMap::new(), open_count: 0 };
        assert(t.open_fds() =~= Map::<u32, FdEntry>::empty());
        t
    }

    /// Track descriptor `fd` (negative descriptors are ignored); a newly
    /// tracked descriptor adds one to the count (wrapping). Returns the
    /// entry it replaces, if it was tracked already.
    pub fn track(&mut self, fd: i32, entry: FdEntry) -> (old_entry: Option<FdEntry>)
        ensures
            old(self).wf() ==> final(self).wf(),
            fd < 0 ==> final(self).open_fds() == old(self).open_fds() && old_entry is None
                && final(self).count() == old(self).count(),
            fd >= 0 ==> final(self).open_fds() == old(self).open_fds().insert(fd as u32, entry),
            fd >= 0 ==> match old_entry {
                Some(e) => old(self).open_fds().contains_key(fd as u32) && e == old(self).open_fds()[fd as u32]
                    && final(self).count() == old(self).count(),
                None => !old(self).open_fds().contains_key(fd as u32)
                    && final(self).count() == old(self).count().wrapping_add(1),
            },
    {
        if fd < 0 {
            return None;
        }
        let ghost before = self.entries@;
        let ghost was_wf = self.wf();
        let previous = self.entries.insert(fd as u32, entry);
        if previous.is_none() {
            let total = self.entries.len();
            proof {
                assert(!before.contains_key(fd as u32));
                assert(self.entries@.len() == before.len() + 1);
                if was_wf {
                    assert(total == self.open_count + 1);
                }
            }
            self.open_count = self.open_count.wrapping_add(1);
        } else {
            proof {
                assert(before.contains_key(fd as u32));
                assert(self.entries@.dom() =~= before.dom());
            }
        }
        previous
    }

    /// Stop tracking descriptor `fd`; a tracked descriptor takes one off
    /// the count (wrapping). Returns its entry, if it was tracked.
    pub fn untrack(&mut self, fd: i32) -> (old_entry: Option<FdEntry>)
        ensures
            old(self).wf() ==> final(self).wf(),
            fd < 0 ==> final(self).open_fds() == old(self).open_fds() && old_entry is None
                && final(self).count() == old(self).count(),
            fd >= 0 ==> final(self).open_fds() == old(self).open_fds().remove(fd as u32),
            fd >= 0 ==> match old_entry {
                Some(e) => old(self).open_fds().contains_key(fd as u32) && e == old(self).open_fds()[fd as u32]
                    && final(self).count() == old(self).count().wrapping_sub(1),
                None => !old(self).open_fds().contains_key(fd as u32) && final(self).count() == old(self).count(),
            },
    {
        if fd < 0 {
            return None;
        }
        let key: u32 = fd as u32;
        let ghost before = self.entries@;
        let removed = self.entries.remove(&key);
        if removed.is_some() {
            proof {
                assert(before.contains_key(key));
                assert(self.entries@.len() == before.len() - 1);
            }
            self.open_count = self.open_count.wrapping_sub(1);
        } else {
            proof {
                assert(self.entries@ =~= before);
            }
        }
        removed
    }

    /// Close descriptor `fd`: the count goes down by one (not below zero),
    /// tracked or not, and the descriptor's entry, if any, is taken out of
    /// the table and returned.
    pub fn close(&mut self, fd: i32) -> (old_entry: Option<FdEntry>)
        ensures
            final(self).count() == old(self).count().saturating_sub(1),
            fd < 0 ==> final(self).open_fds() == old(self).open_fds() && old_entry is None,
            fd >= 0 ==> final(self).open_fds() == old(self).open_fds().remove(fd as u32),
            fd >= 0 ==> match old_entry {
                Some(e) => old(self).open_fds().contains_key(fd as u32) && e == old(self).open_fds()[fd as u32],
                None => !old(self).open_fds().contains_key(fd as u32),
            },
    {
        self.open_count = self.open_count.saturating_sub(1);
        if fd < 0 {
            return None;
        }
        let key: u32 = fd as u32;
        let ghost before = self.entries@;
        let removed = self.entries.remove(&key);
        proof {
            if removed is None {
                assert(self.entries@ =~= before);
            }
        }
        removed
    }

    /// The entry of descriptor `fd`, if it is tracked.
    pub fn get(&self, fd: i32) -> (r: Option<&FdEntry>)
        ensures
            fd < 0 ==> r is None,
            fd >= 0 ==> match r {
                Some(e) => self.open_fds().contains_key(fd as u32) && *e == self.open_fds()[fd as u32],
                None => !self.open_fds().contains_key(fd as u32),
            },
    {
        if fd < 0 {
            return None;
        }
        let key: u32 = fd as u32;
        self.entries.get(&key)
    }

    /// Whether descriptor `fd` is tracked as a VFS file.
    pub fn is_vfs_fd(&self, fd: i32) -> (r: bool)
        ensures
            r == (fd >= 0 && self.open_fds().contains_key(fd as u32) && self.open_fds()[fd as u32].is_vfs),
    {
        match self.get(fd) {
            Some(e) => e.is_vfs,
            None => false,
        }
    }

    /// A tracked entry for the manifest key `key` that has a staging file,
    /// if there is one (which one, when several do, follows the table's
    /// iteration order).
    pub fn live_staging_entry(&self, key: &[u8]) -> (r: Option<&FdEntry>)
        ensures
            r matches Some(e) ==> exists|fd: u32| #[trigger] self.open_fds().contains_key(fd) && self.open_fds()[fd] == *e,
            r matches Some(e) ==> staged_for(*e, key@),
            r is None ==> forall|fd: u32| #[trigger] self.open_fds().contains_key(fd) ==> !staged_for(self.open_fds()[fd], key@),
    {
        let mut found: Option<&FdEntry> = None;
        for kv in it: self.entries.iter()
            invariant
                it.seq() == spec_hash_map_iter(&self.entries).remaining(),
                found matches Some(e) ==> exists|fd: u32| #[trigger] self.open_fds().contains_key(fd) && self.open_fds()[fd] == *e,
                found matches Some(e) ==> staged_for(*e, key@),
                found is None ==> forall|i: int| 0 <= i < it.index() ==> !staged_for(*(#[trigger] it.seq()[i]).1, key@),
        {
            let (k, e) = kv;
            proof {
                assert(self.entries@.contains_key(*k) && self.entries@[*k] == *e);
            }
            if staged_entry(e, key) {
                found = Some(e);
            }
        }
        proof {
            if found is None {
                assert forall|fd: u32| #[trigger] self.open_fds().contains_key(fd) implies !staged_for(self.open_fds()[fd], key@) by {
                    let v = spec_hash_map_iter(&self.entries).remaining();
                    assert(v.contains((&fd, &self.entries@[fd])));
                    let i = choose|i: int| 0 <= i < v.len() && v[i] == (&fd, &self.entries@[fd]);
                    assert(!staged_for(*v[i].1, key@));
                }
            }
        }
        found
    }

    /// The open-descriptor count.
    pub fn open_count(&self) -> (n: usize)
        ensures
            n == self.count(),
    {
        self.open_count
    }
}

/// The entry was opened for manifest key `key` and has a staging file.
pub open spec fn staged_for(e: FdEntry, key: Seq<u8>) -> bool {
    text_of(e.manifest_key.bytes()) == key && e.temp_path.bytes().len() > 0
}

/// Whether the entry was opened for manifest key `key` and has a staging file.
fn staged_entry(e: &FdEntry, key: &[u8]) -> (r: bool)
    ensures
        r == staged_for(*e, key@),
{
    let k = e.manifest_key.as_str().as_bytes();
    assert(k@ == text_of(e.manifest_key.bytes()));
    if e.temp_path.is_empty() || k.len() != key.len() {
        return false;
    }
    let same = starts_with(k, key);
    assert(k@.take(key@.len() as int) =~= k@);
    same
}

/// Where an `fstat` of a descriptor is answered from.
pub enum FstatSource {
    /// Stat the staging file of a copy-on-write open, then present it
    /// with the VFS device and the key hash as inode.
    StagingFile,
    /// The stat record cached at open.
    Cached(VirtualStat),
    /// Ask the daemon for the entry of the descriptor's path.
    Daemon,
    /// The real `fstat`.
    Passthrough,
}

/// The source of an `fstat`: an untracked descriptor takes the real call;
/// a tracked one its staging file when it has one, else its cached record,
/// else the daemon when it is a VFS file.
pub fn fstat_source(entry: Option<&FdEntry>) -> (r: FstatSource)
    ensures
        match entry {
            None => r is Passthrough,
            Some(e) => if e.temp_path.bytes().len() > 0 {
                r is StagingFile
            } else if e.cached_stat is Some {
                r matches FstatSource::Cached(s) && s == e.cached_stat->0
            } else if e.is_vfs {
                r is Daemon
            } else {
                r is Passthrough
            },
        },
{
    match entry {
        None => FstatSource::Passthrough,
        Some(e) => {
            if !e.temp_path.is_empty() {
                FstatSource::StagingFile
            } else {
                match e.cached_stat {
                    Some(s) => FstatSource::Cached(s),
                    None => if e.is_vfs {
                        FstatSource::Daemon
                    } else {
                        FstatSource::Passthrough
                    },
                }
            }
        },
    }
}

/// The work handed to the worker when a descriptor is closed: a tracked
/// descriptor has its staging path re-ingested under its virtual path (as
/// text; bytes that are not valid UTF-8 give the empty text); an untracked
/// one needs nothing.
pub fn close_task(entry: Option<FdEntry>) -> (t: Option<Task>)
    ensures
        entry is None ==> t is None,
        entry matches Some(e) ==> (t matches Some(Task::Reingest { vpath, temp_path })
            && vpath@ == text_view(e.vpath.bytes()) && temp_path@ == text_view(e.temp_path.bytes())),
{
    match entry {
        None => None,
        Some(e) => {
            let vs = e.vpath.as_str();
            let ts = e.temp_path.as_str();
            proof {
                lemma_text_view(e.vpath.bytes(), vs);
                lemma_text_view(e.temp_path.bytes(), ts);
            }
            let vpath = String::from_str(vs);
            let temp_path = String::from_str(ts);
            Some(Task::Reingest { vpath, temp_path })
        },
    }
}

/// The text that stored bytes read as: the characters they encode when
/// they are valid UTF-8, else the empty text.
pub open spec fn text_view(b: Seq<u8>) -> Seq<char> {
    if vstd::utf8::valid_utf8(b) { vstd::utf8::decode_utf8(b) } else { Seq::empty() }
}

proof fn lemma_text_view(b: Seq<u8>, s: &str)
    requires
        vstd::utf8::valid_utf8(b) ==> s.spec_bytes() == b,
        !vstd::utf8::valid_utf8(b) ==> s@ == ""@,
    ensures
        s@ == text_view(b),
{
    reveal_strlit("");
    if vstd::utf8::valid_utf8(b) {
        vstd::utf8::encode_utf8_decode_utf8(s@);
    }
}

} // verus!
