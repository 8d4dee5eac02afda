//! Runtime orchestration: where link farm entries go, the OverlayFS mount
//! options, and the runtime's errors.
use vstd::prelude::*;
use vstd::string::{StrSliceExecFns, StringSliceAdditionalSpecFns};
use crate::manifest::VnodeEntry;

verus! {

/// Errors of the runtime (the I/O, CAS and system errors as their messages).
pub enum RuntimeError {
    Io(String),
    Cas(String),
    BlobNotFound(String),
    Nix(String),
    Overlay(String),
}

impl RuntimeError {
    /// The error's message, as it is displayed.
    pub fn describe(&self) -> (s: String)
        ensures
            s@ == match self {
                RuntimeError::Io(m) => "I/O error: "@ + m@,
                RuntimeError::Cas(m) => "CAS error: "@ + m@,
                RuntimeError::BlobNotFound(m) => "Blob not found in CAS: "@ + m@,
                RuntimeError::Nix(m) => "Nix system error: "@ + m@,
                RuntimeError::Overlay(m) => "OverlayFS error: "@ + m@,
            },
    {
        match self {
            RuntimeError::Io(m) => String::from_str("I/O error: ").concat(m.as_str()),
            RuntimeError::Cas(m) => String::from_str("CAS error: ").concat(m.as_str()),
            RuntimeError::BlobNotFound(m) => String::from_str("Blob not found in CAS: ").concat(m.as_str()),
            RuntimeError::Nix(m) => String::from_str("Nix system error: ").concat(m.as_str()),
            RuntimeError::Overlay(m) => String::from_str("OverlayFS error: ").concat(m.as_str()),
        }
    }
}

/// Number of leading `/` characters.
pub open spec fn leading_slashes(s: Seq<char>) -> int
    decreases s.len(),
{
    if s.len() > 0 && s[0] == '/' {
        1 + leading_slashes(s.drop_first())
    } else {
        0
    }
}

proof fn lemma_leading_slashes(s: Seq<char>)
    ensures
        0 <= leading_slashes(s) <= s.len(),
        forall|i: int| 0 <= i < leading_slashes(s) ==> s[i] == '/',
        leading_slashes(s) < s.len() ==> s[leading_slashes(s)] != '/',
    decreases s.len(),
{
    if s.len() > 0 && s[0] == '/' {
        lemma_leading_slashes(s.drop_first());
        assert forall|i: int| 0 <= i < leading_slashes(s) implies s[i] == '/' by {
            if i > 0 {
                assert(s[i] == s.drop_first()[i - 1]);
            }
        }
    }
}

/// Where a manifest entry goes in the link farm, relative to its root: the
/// path without its leading slashes; none for the root entry `/` itself.
pub open spec fn link_farm_relative(path: Seq<char>) -> Option<Seq<char>> {
    if path == seq!['/'] {
        None
    } else {
        Some(path.skip(leading_slashes(path)))
    }
}

/// Relative location of a manifest entry in the link farm (see
/// `link_farm_relative`).
pub fn link_farm_path(path: &str) -> (r: Option<&str>)
    ensures
        match link_farm_relative(path@) {
            None => r is None,
            Some(rel) => r matches Some(t) && t@ == rel,
        },
{
    let n = path.unicode_len();
    if n == 1 && path.get_char(0) == '/' {
        assert(path@ =~= seq!['/']);
        return None;
    }
    proof {
        lemma_leading_slashes(path@);
    }
    let mut k: usize = 0;
    while k < n && path.get_char(k) == '/'
        invariant
            n == path@.len(),
            0 <= k <= leading_slashes(path@),
            0 <= leading_slashes(path@) <= n,
            forall|i: int| 0 <= i < leading_slashes(path@) ==> path@[i] == '/',
            leading_slashes(path@) < n ==> path@[leading_slashes(path@)] != '/',
        decreases n - k,
    {
        k = k + 1;
    }
    let rel = path.substring_char(k, n);
    assert(rel@ =~= path@.skip(leading_slashes(path@)));
    Some(rel)
}

/// What populating the link farm does for one manifest entry, at the
/// entry's location relative to the farm root.
pub enum FarmStep<'a> {
    /// The root entry: nothing.
    Skip,
    /// Create the directory (and its parents).
    MakeDir(&'a str),
    /// Create the parent directories, then hard-link the entry's CAS blob
    /// there, replacing what is in place, with the entry's mode.
    HardLink(&'a str),
    /// Create the parent directories, then a symbolic link to the target
    /// path stored in the CAS, replacing what is in place.
    Symlink(&'a str),
    /// Create the parent directories only (an entry of another kind).
    ParentOnly(&'a str),
}

/// The link farm step of an entry: by its location (see
/// `link_farm_relative`), then by its kind: directory, plain file,
/// symbolic link, or another kind.
pub fn farm_step<'a>(path: &'a str, entry: &VnodeEntry) -> (r: FarmStep<'a>)
    ensures
        match link_farm_relative(path@) {
            None => r is Skip,
            Some(rel) => if entry.flags == 1 {
                r matches FarmStep::MakeDir(t) && t@ == rel
            } else if entry.flags == 0 {
                r matches FarmStep::HardLink(t) && t@ == rel
            } else if entry.flags == 2 {
                r matches FarmStep::Symlink(t) && t@ == rel
            } else {
                r matches FarmStep::ParentOnly(t) && t@ == rel
            },
        },
{
    match link_farm_path(path) {
        None => FarmStep::Skip,
        Some(rel) => {
            if entry.is_dir() {
                FarmStep::MakeDir(rel)
            } else if entry.is_file() {
                FarmStep::HardLink(rel)
            } else if entry.is_symlink() {
                FarmStep::Symlink(rel)
            } else {
                FarmStep::ParentOnly(rel)
            }
        },
    }
}

/// OverlayFS mount: lower (the link farm), upper, work and merged directories.
pub struct OverlayManager {
    lower_dir: String,
    upper_dir: String,
    work_dir: String,
    merged_dir: String,
}

impl OverlayManager {
    /// The lower directory.
    pub closed spec fn lower(&self) -> Seq<char> {
        self.lower_dir@
    }

    /// The upper directory.
    pub closed spec fn upper(&self) -> Seq<char> {
        self.upper_dir@
    }

    /// The work directory.
    pub closed spec fn work(&self) -> Seq<char> {
        self.work_dir@
    }

    /// The merged directory.
    pub closed spec fn merged(&self) -> Seq<char> {
        self.merged_dir@
    }

    /// An overlay of the four directories.
    pub fn new(lower_dir: String, upper_dir: String, work_dir: String, merged_dir: String) -> (m: Self)
        ensures
            m.lower() == lower_dir@,
            m.upper() == upper_dir@,
            m.work() == work_dir@,
            m.merged() == merged_dir@,
    {
        OverlayManager { lower_dir, upper_dir, work_dir, merged_dir }
    }

    /// Option string of the overlay mount: `lowerdir=..,upperdir=..,workdir=..`.
    pub fn mount_options(&self) -> (s: String)
        ensures
            s@ == "lowerdir="@ + self.lower() + ",upperdir="@ + self.upper() + ",workdir="@ + self.work(),
    {
        String::from_str("lowerdir=").concat(self.lower_dir.as_str()).concat(",upperdir=").concat(
            self.upper_dir.as_str(),
        ).concat(",workdir=").concat(self.work_dir.as_str())
    }

    /// Directory where the overlay is mounted.
    pub fn merged_dir(&self) -> (s: &str)
        ensures
            s@ == self.merged(),
    {
        self.merged_dir.as_str()
    }

    /// Directories to create before mounting: merged, upper and work.
    pub fn dirs_to_create(&self) -> (v: Vec<&str>)
        ensures
            v@.len() == 3,
            v@[0]@ == self.merged() && v@[1]@ == self.upper() && v@[2]@ == self.work(),
    {
        let mut v: Vec<&str> = Vec::new();
        v.push(self.merged_dir.as_str());
        v.push(self.upper_dir.as_str());
        v.push(self.work_dir.as_str());
        v
    }
}

/// Namespace isolation manager; its operations are system calls.
pub struct NamespaceManager;

} // verus!
