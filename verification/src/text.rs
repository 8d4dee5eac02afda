//! UTF-8 decoding of byte buffers.
use vstd::prelude::*;
use vstd::string::StringSliceAdditionalSpecFns;
use vstd::utf8::{encode_utf8, valid_utf8};

verus! {

/// Calls `std::str::from_utf8` and keeps the string on success; trusted to
/// succeed exactly on valid UTF-8, returning a string with the same bytes.
#[verifier::external_body]
pub(crate) fn utf8_str(b: &[u8]) -> (r: Option<&str>)
    ensures
        r is Some <==> valid_utf8(b@),
        r matches Some(s) ==> s.spec_bytes() == b@,
{
    std::str::from_utf8(b).ok()
}

/// Text that `String::from_utf8_lossy` decodes from the bytes.
pub uninterp spec fn utf8_lossy(b: Seq<u8>) -> Seq<char>;

/// Calls `String::from_utf8_lossy` and owns the result. Trusted: the text
/// depends on the bytes alone (named `utf8_lossy`), and valid UTF-8 decodes
/// to the text it encodes; how invalid sequences are replaced is not stated.
#[verifier::external_body]
pub(crate) fn lossy_string(b: &[u8]) -> (s: String)
    ensures
        s@ == utf8_lossy(b@),
        valid_utf8(b@) ==> encode_utf8(s@) == b@,
{
    String::from_utf8_lossy(b).into_owned()
}

} // verus!
