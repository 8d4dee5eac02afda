//! A merged directory listing: the entries that the manifest lists for a
//! directory come first, then those of the physical directory that are
//! neither `.` nor `..` nor listed already.
use vstd::prelude::*;
use crate::ipc::DirEntry;

verus! {

/// Directory entry type of a directory.
pub const DT_DIR: u8 = 4;
/// Directory entry type of a regular file.
pub const DT_REG: u8 = 8;
/// Longest name copied into a directory entry.
pub const MAX_DIRENT_NAME: usize = 1023;

/// Whether a name of the physical directory is shown after the listed
/// entries.
pub open spec fn physical_shown(listed: Seq<DirEntry>, name: Seq<char>) -> bool {
    &&& name != seq!['.']
    &&& name != seq!['.', '.']
    &&& forall|i: int| 0 <= i < listed.len() ==> (#[trigger] listed[i]).name@ != name
}

/// Whether an entry named `name` read from the physical directory is shown:
/// `.` and `..` are skipped, and so is any name that the manifest listed.
pub fn show_physical_entry(listed: &[DirEntry], name: &str) -> (r: bool)
    ensures
        r == physical_shown(listed@, name@),
{
    let dot = ".";
    let dotdot = "..";
    proof {
        reveal_strlit(".");
        reveal_strlit("..");
        assert(dot@ =~= seq!['.']);
        assert(dotdot@ =~= seq!['.', '.']);
    }
    if crate::circuit::equal_text(name, dot) || crate::circuit::equal_text(name, dotdot) {
        return false;
    }
    let mut i: usize = 0;
    while i < listed.len()
        invariant
            i <= listed.len(),
            forall|j: int| 0 <= j < i ==> (#[trigger] listed@[j]).name@ != name@,
        decreases listed.len() - i,
    {
        if crate::circuit::equal_text(listed[i].name.as_str(), name) {
            return false;
        }
        i = i + 1;
    }
    true
}

/// Type of the directory entry reported for a listed entry.
pub fn dirent_type(is_dir: bool) -> (t: u8)
    ensures
        t == (if is_dir { DT_DIR } else { DT_REG }),
{
    if is_dir { DT_DIR } else { DT_REG }
}

/// How many bytes of a name of `len` bytes go into a directory entry.
pub fn dirent_name_len(len: usize) -> (n: usize)
    ensures
        n == (if len < MAX_DIRENT_NAME { len } else { MAX_DIRENT_NAME }),
{
    if len < MAX_DIRENT_NAME { len } else { MAX_DIRENT_NAME }
}

/// What the next read of a merged listing returns.
pub enum ReaddirStep {
    /// The listed entry at this index.
    Listed(usize),
    /// The next shown entry of the physical directory.
    Physical,
    /// The end of the listing.
    End,
}

/// An open merged listing: the manifest's entries for the directory, how
/// many of them were returned, and whether the physical directory is open.
pub struct MergedListing {
    pub entries: Vec<DirEntry>,
    pub position: usize,
    pub has_real: bool,
}

impl MergedListing {
    /// Opens a merged listing; there is none when the manifest lists no
    /// entry and the physical directory could not be opened.
    pub fn open(entries: Vec<DirEntry>, has_real: bool) -> (r: Option<MergedListing>)
        ensures
            entries@.len() == 0 && !has_real ==> r is None,
            !(entries@.len() == 0 && !has_real) ==> (r matches Some(l) && l.entries@ == entries@
                && l.position == 0 && l.has_real == has_real),
    {
        if entries.len() == 0 && !has_real {
            None
        } else {
            Some(MergedListing { entries, position: 0, has_real })
        }
    }

    /// The next step of a read: each listed entry in turn, then the
    /// physical directory when it is open, else the end.
    pub fn next_step(&mut self) -> (r: ReaddirStep)
        requires
            old(self).position <= old(self).entries.len(),
        ensures
            final(self).entries@ == old(self).entries@,
            final(self).has_real == old(self).has_real,
            final(self).position <= final(self).entries.len(),
            old(self).position < old(self).entries.len() ==> r == ReaddirStep::Listed(old(self).position)
                && final(self).position == old(self).position + 1,
            old(self).position == old(self).entries.len() ==> final(self).position == old(self).position
                && (if old(self).has_real { r is Physical } else { r is End }),
    {
        if self.position < self.entries.len() {
            let p = self.position;
            self.position = p + 1;
            ReaddirStep::Listed(p)
        } else if self.has_real {
            ReaddirStep::Physical
        } else {
            ReaddirStep::End
        }
    }
}

} // verus!
