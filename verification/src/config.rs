//! Settings of the interception layer derived from its environment: the VFS
//! prefix, the project root (from the manifest path), the daemon socket and
//! flag values.
use vstd::prelude::*;
use vstd::string::StringSliceAdditionalSpecFns;
use crate::bytes::matches_at;
use crate::ipc::DEFAULT_SOCKET_PATH;
use crate::circuit::equal_text;
use crate::mmap_build::{path_file_name, path_parent, std_path_file_name, std_path_parent};

verus! {

/// A setting as used: its canonical form when the file system gave one,
/// else the setting as written.
pub open spec fn canonical_or_spec(raw: Seq<char>, canonical: Option<Seq<char>>) -> Seq<char> {
    match canonical {
        Some(c) => c,
        None => raw,
    }
}

/// The canonical form of a setting when one was found (`realpath` of it),
/// else the setting as written.
pub fn canonical_or(raw: &str, canonical: Option<&str>) -> (r: String)
    ensures
        r@ == canonical_or_spec(raw@, match canonical {
            Some(c) => Some(c@),
            None => None,
        }),
{
    match canonical {
        Some(c) => String::from_str(c),
        None => String::from_str(raw),
    }
}

/// VFS prefix from the raw prefix setting and its canonical form, when the
/// file system gave one (see `canonical_or`).
pub fn vfs_prefix_of(raw_prefix: &str, canonical: Option<&str>) -> (r: String)
    ensures
        r@ == canonical_or_spec(raw_prefix@, match canonical {
            Some(c) => Some(c@),
            None => None,
        }),
{
    canonical_or(raw_prefix, canonical)
}

/// Project root named by a manifest path, before canonicalization: the
/// manifest's parent directory (`/` for a path without one), or the parent
/// of that when it is named `.vrift` (itself when it has none).
pub open spec fn project_root_spec(m: Seq<char>) -> Seq<char> {
    let parent = match std_path_parent(m) {
        Some(p) => p,
        None => "/"@,
    };
    if std_path_file_name(parent) == Some(".vrift"@) {
        match std_path_parent(parent) {
            Some(q) => q,
            None => parent,
        }
    } else {
        parent
    }
}

/// Project root from a manifest path (see `project_root_spec`); the caller
/// canonicalizes it.
pub fn project_root_of_manifest(manifest_path: &str) -> (r: String)
    ensures
        r@ == project_root_spec(manifest_path@),
{
    let parent = match path_parent(manifest_path) {
        Some(p) => p,
        None => {
            proof { reveal_strlit("/"); }
            String::from_str("/")
        },
    };
    let is_dot_vrift = match path_file_name(parent.as_str()) {
        Some(n) => {
            proof { reveal_strlit(".vrift"); }
            equal_text(n.as_str(), ".vrift")
        },
        None => false,
    };
    if is_dot_vrift {
        match path_parent(parent.as_str()) {
            Some(q) => q,
            None => parent,
        }
    } else {
        parent
    }
}

/// Whether a flag setting is on: its value is `1` or `true`.
pub fn is_switched_on(value: &str) -> (r: bool)
    ensures
        r == (value@ == "1"@ || value@ == "true"@),
{
    proof {
        reveal_strlit("1");
        reveal_strlit("true");
    }
    let b = value.as_bytes();
    let one: [u8; 1] = [0x31];
    let tru: [u8; 4] = [0x74, 0x72, 0x75, 0x65];
    let r = (b.len() == 1 && matches_at(b, one.as_slice(), 0)) || (b.len() == 4 && matches_at(b, tru.as_slice(), 0));
    proof {
        let one_s = "1"@;
        let tru_s = "true"@;
        vstd::utf8::is_ascii_chars_encode_utf8(one_s);
        vstd::utf8::is_ascii_chars_encode_utf8(tru_s);
        assert(vstd::utf8::encode_utf8(one_s) =~= one@);
        assert(vstd::utf8::encode_utf8(tru_s) =~= tru@);
        lemma_same_text(value@, one_s);
        lemma_same_text(value@, tru_s);
        if b.len() == 1 {
            assert(b@.subrange(0, 1) =~= b@);
        }
        if b.len() == 4 {
            assert(b@.subrange(0, 4) =~= b@);
        }
    }
    r
}

/// Two texts are equal exactly when their UTF-8 encodings are.
proof fn lemma_same_text(a: Seq<char>, b: Seq<char>)
    ensures
        (vstd::utf8::encode_utf8(a) == vstd::utf8::encode_utf8(b)) == (a == b),
{
    vstd::utf8::encode_utf8_decode_utf8(a);
    vstd::utf8::encode_utf8_decode_utf8(b);
}

/// Socket of the daemon: the configured one, else the default.
pub fn socket_path_of(configured: Option<&str>) -> (s: &str)
    ensures
        match configured {
            Some(c) => s@ == c@,
            None => s@ == DEFAULT_SOCKET_PATH@,
        },
{
    match configured {
        Some(c) => c,
        None => DEFAULT_SOCKET_PATH,
    }
}

} // verus!
