//! Text of content-addressed blobs: lowercase hex of a BLAKE3 hash, decimal
//! numbers, and the CAS path of a blob.
use vstd::prelude::*;
use crate::manifest::Blake3Hash;
use crate::resolver::{cut, text_of};
use crate::state::FixedString;

verus! {

/// ASCII of a hex digit (`0`-`9`, `a`-`f`).
pub open spec fn hex_digit(d: int) -> u8 {
    if d < 10 {
        (48 + d) as u8
    } else {
        (87 + d) as u8
    }
}

/// Lowercase hex of the bytes, two digits per byte, high nibble first.
pub open spec fn hex_spec(b: Seq<u8>) -> Seq<u8>
    decreases b.len(),
{
    if b.len() == 0 {
        Seq::empty()
    } else {
        hex_spec(b.drop_last()) + seq![hex_digit(b.last() as int / 16), hex_digit(b.last() as int % 16)]
    }
}

/// Decimal digits of `n` (no leading zeros).
pub open spec fn dec_spec(n: nat) -> Seq<u8>
    decreases n,
{
    if n < 10 {
        seq![(48 + n) as u8]
    } else {
        dec_spec(n / 10).push((48 + n % 10) as u8)
    }
}

proof fn lemma_hex_len(b: Seq<u8>)
    ensures
        hex_spec(b).len() == 2 * b.len(),
    decreases b.len(),
{
    if b.len() > 0 {
        lemma_hex_len(b.drop_last());
    }
}

/// Append the lowercase hex of `b` to `v`.
pub fn push_hex(v: &mut Vec<u8>, b: &[u8])
    ensures
        final(v)@ == old(v)@ + hex_spec(b@),
{
    let mut i: usize = 0;
    while i < b.len()
        invariant
            0 <= i <= b@.len(),
            v@ == old(v)@ + hex_spec(b@.take(i as int)),
        decreases b@.len() - i,
    {
        let x = b[i];
        let hi: u8 = x >> 4;
        let lo: u8 = x & 0x0f;
        assert(hi == x / 16 && lo == x % 16) by (bit_vector)
            requires
                hi == x >> 4,
                lo == x & 0x0f,
        ;
        let dh: u8 = if hi < 10 { 48 + hi } else { 87 + hi };
        let dl: u8 = if lo < 10 { 48 + lo } else { 87 + lo };
        v.push(dh);
        v.push(dl);
        proof {
            assert(b@.take(i + 1).drop_last() =~= b@.take(i as int));
            assert(v@ =~= old(v)@ + hex_spec(b@.take(i + 1)));
        }
        i = i + 1;
    }
    assert(b@.take(b@.len() as int) =~= b@);
}

/// Append the decimal digits of `n` to `v`.
pub fn push_decimal(v: &mut Vec<u8>, n: u64)
    ensures
        final(v)@ == old(v)@ + dec_spec(n as nat),
    decreases n,
{
    if n >= 10 {
        push_decimal(v, n / 10);
    }
    let d: u8 = (n % 10) as u8;
    v.push(48 + d);
    assert(v@ =~= old(v)@ + dec_spec(n as nat));
}

/// Lowercase hex of a 32-byte hash (64 characters), without allocation.
pub fn hex_encode_fixed(hash: &Blake3Hash) -> (r: FixedString<68>)
    ensures
        r.bytes() == hex_spec(hash@),
{
    let mut v: Vec<u8> = Vec::new();
    push_hex(&mut v, hash.as_slice());
    proof {
        lemma_hex_len(hash@);
        assert(v@ =~= hex_spec(hash@));
        assert(v@.take(v@.len() as int) =~= v@);
    }
    let mut r = FixedString::<68>::new();
    r.set_bytes(v.as_slice());
    r
}

/// CAS path of a blob: `{cas_root}/blake3/{h0h1}/{h2h3}/{hex}_{size}.bin`,
/// cut to 1024 bytes.
pub open spec fn blob_path_spec(root: Seq<u8>, hash: Seq<u8>, size: u64) -> Seq<u8> {
    let hx = hex_spec(hash);
    cut(
        root + "/blake3/"@.map_values(|c: char| c as u8) + hx.subrange(0, 2) + seq![47u8] + hx.subrange(2, 4)
            + seq![47u8] + hx + seq![95u8] + dec_spec(size as nat) + seq![46u8, 98u8, 105u8, 110u8],
        1024,
    )
}

/// The CAS path of a blob of `size` bytes with hash `hash` under the CAS root.
pub fn format_blob_path_fixed(cas_root: &FixedString<1024>, hash: &Blake3Hash, size: u64) -> (r: FixedString<1024>)
    ensures
        r.bytes() == blob_path_spec(text_of(cas_root.bytes()), hash@, size),
{
    let mut v: Vec<u8> = Vec::new();
    let root = cas_root.as_str().as_bytes();
    let mut i: usize = 0;
    while i < root.len()
        invariant
            0 <= i <= root@.len(),
            v@ == root@.take(i as int),
        decreases root@.len() - i,
    {
        v.push(root[i]);
        proof { assert(root@.take(i + 1) =~= root@.take(i as int).push(root@[i as int])); }
        i = i + 1;
    }
    assert(root@.take(root@.len() as int) =~= root@);
    let mut hx: Vec<u8> = Vec::new();
    push_hex(&mut hx, hash.as_slice());
    proof {
        lemma_hex_len(hash@);
        assert(hx@ =~= hex_spec(hash@));
    }
    let sep: [u8; 8] = [47, 98, 108, 97, 107, 101, 51, 47];
    let mut j: usize = 0;
    let ghost v0 = v@;
    while j < 8
        invariant
            0 <= j <= 8,
            v@ == v0 + sep@.take(j as int),
        decreases 8 - j,
    {
        v.push(sep[j]);
        proof { assert(sep@.take(j + 1) =~= sep@.take(j as int).push(sep@[j as int])); }
        j = j + 1;
    }
    v.push(hx[0]);
    v.push(hx[1]);
    v.push(47);
    v.push(hx[2]);
    v.push(hx[3]);
    v.push(47);
    let mut k: usize = 0;
    let ghost v1 = v@;
    while k < hx.len()
        invariant
            0 <= k <= hx@.len(),
            v@ == v1 + hx@.take(k as int),
        decreases hx@.len() - k,
    {
        v.push(hx[k]);
        proof { assert(hx@.take(k + 1) =~= hx@.take(k as int).push(hx@[k as int])); }
        k = k + 1;
    }
    v.push(95);
    push_decimal(&mut v, size);
    v.push(46);
    v.push(98);
    v.push(105);
    v.push(110);
    proof {
        reveal_strlit("/blake3/");
        assert("/blake3/"@.map_values(|c: char| c as u8) =~= sep@);
        assert(sep@.take(8) =~= sep@);
        assert(hx@.take(hx@.len() as int) =~= hx@);
        let hxs = hex_spec(hash@);
        assert(v@ =~= root@ + "/blake3/"@.map_values(|c: char| c as u8) + hxs.subrange(0, 2) + seq![47u8]
            + hxs.subrange(2, 4) + seq![47u8] + hxs + seq![95u8] + dec_spec(size as nat) + seq![46u8, 98u8, 105u8, 110u8]);
    }
    let mut r = FixedString::<1024>::new();
    r.set_bytes(v.as_slice());
    r
}

/// Hex digits at position `2i` and `2i + 1` of the hex of `b` are those of
/// byte `i`.
proof fn lemma_hex_at(b: Seq<u8>, i: int)
    requires
        0 <= i < b.len(),
    ensures
        hex_spec(b).len() == 2 * b.len(),
        hex_spec(b)[2 * i] == hex_digit(b[i] as int / 16),
        hex_spec(b)[2 * i + 1] == hex_digit(b[i] as int % 16),
    decreases b.len(),
{
    lemma_hex_len(b);
    lemma_hex_len(b.drop_last());
    if i < b.len() - 1 {
        lemma_hex_at(b.drop_last(), i);
    }
}

/// Where a blob lives in the CAS: under the root, `/blake3/`, then a
/// directory named by the two hex digits of the hash's first byte, then one
/// named by those of its second byte, then the file `{hex of the whole
/// hash}_{size}.bin`; the whole cut to 1024 bytes.
pub proof fn law_blob_path_shards(root: Seq<u8>, hash: Seq<u8>, size: u64)
    requires
        hash.len() >= 2,
    ensures
        blob_path_spec(root, hash, size) == cut(
            root + seq![47u8, 98u8, 108u8, 97u8, 107u8, 101u8, 51u8, 47u8]
                + seq![hex_digit(hash[0] as int / 16), hex_digit(hash[0] as int % 16), 47u8,
                    hex_digit(hash[1] as int / 16), hex_digit(hash[1] as int % 16), 47u8]
                + hex_spec(hash) + seq![95u8] + dec_spec(size as nat) + seq![46u8, 98u8, 105u8, 110u8],
            1024,
        ),
{
    reveal_strlit("/blake3/");
    assert("/blake3/"@.map_values(|c: char| c as u8) =~= seq![47u8, 98u8, 108u8, 97u8, 107u8, 101u8, 51u8, 47u8]);
    let hx = hex_spec(hash);
    lemma_hex_at(hash, 0);
    lemma_hex_at(hash, 1);
    assert(hx.subrange(0, 2) + seq![47u8] + hx.subrange(2, 4) + seq![47u8] =~= seq![hex_digit(hash[0] as int / 16),
        hex_digit(hash[0] as int % 16), 47u8, hex_digit(hash[1] as int / 16), hex_digit(hash[1] as int % 16), 47u8]);
    let sep = seq![47u8, 98u8, 108u8, 97u8, 107u8, 101u8, 51u8, 47u8];
    let shard = seq![hex_digit(hash[0] as int / 16), hex_digit(hash[0] as int % 16), 47u8,
        hex_digit(hash[1] as int / 16), hex_digit(hash[1] as int % 16), 47u8];
    let tail = hx + seq![95u8] + dec_spec(size as nat) + seq![46u8, 98u8, 105u8, 110u8];
    assert(root + sep + hx.subrange(0, 2) + seq![47u8] + hx.subrange(2, 4) + seq![47u8] + hx + seq![95u8]
        + dec_spec(size as nat) + seq![46u8, 98u8, 105u8, 110u8] =~= root + sep + shard + tail);
    assert(root + sep + shard + hx + seq![95u8] + dec_spec(size as nat) + seq![46u8, 98u8, 105u8, 110u8]
        =~= root + sep + shard + tail);
}

/// Bytes of `/.vrift/staging/vrift_cow_`.
pub open spec fn staging_prefix() -> Seq<u8> {
    "/.vrift/staging/vrift_cow_"@.map_values(|c: char| c as u8)
}

/// Staging file of a copy-on-write open under the project root:
/// `{root}/.vrift/staging/vrift_cow_{pid}_{time}_{tid}_{attempt}.tmp`, cut
/// to 1024 bytes.
pub open spec fn staging_path_spec(root: Seq<u8>, pid: u64, time: u64, tid: u64, attempt: u64) -> Seq<u8> {
    cut(
        root + staging_prefix() + dec_spec(pid as nat) + seq![95u8] + dec_spec(time as nat) + seq![95u8]
            + dec_spec(tid as nat) + seq![95u8] + dec_spec(attempt as nat) + seq![46u8, 116u8, 109u8, 112u8],
        1024,
    )
}

/// The staging file of a copy-on-write open (see `staging_path_spec`) for
/// process `pid`, time stamp `time` (ns), thread tag `tid` and attempt.
pub fn staging_path(project_root: &FixedString<1024>, pid: u64, time: u64, tid: u64, attempt: u64) -> (r: FixedString<1024>)
    ensures
        r.bytes() == staging_path_spec(text_of(project_root.bytes()), pid, time, tid, attempt),
{
    let mut v: Vec<u8> = Vec::new();
    let root = project_root.as_str().as_bytes();
    let mut i: usize = 0;
    while i < root.len()
        invariant
            0 <= i <= root@.len(),
            v@ == root@.take(i as int),
        decreases root@.len() - i,
    {
        v.push(root[i]);
        proof { assert(root@.take(i + 1) =~= root@.take(i as int).push(root@[i as int])); }
        i = i + 1;
    }
    assert(root@.take(root@.len() as int) =~= root@);
    let pre: [u8; 26] = [47, 46, 118, 114, 105, 102, 116, 47, 115, 116, 97, 103, 105, 110, 103, 47, 118, 114, 105, 102,
        116, 95, 99, 111, 119, 95];
    let ghost v0 = v@;
    let mut j: usize = 0;
    while j < 26
        invariant
            0 <= j <= 26,
            v@ == v0 + pre@.take(j as int),
        decreases 26 - j,
    {
        v.push(pre[j]);
        proof { assert(pre@.take(j + 1) =~= pre@.take(j as int).push(pre@[j as int])); }
        j = j + 1;
    }
    push_decimal(&mut v, pid);
    v.push(95);
    push_decimal(&mut v, time);
    v.push(95);
    push_decimal(&mut v, tid);
    v.push(95);
    push_decimal(&mut v, attempt);
    v.push(46);
    v.push(116);
    v.push(109);
    v.push(112);
    proof {
        reveal_strlit("/.vrift/staging/vrift_cow_");
        assert(staging_prefix() =~= pre@);
        assert(pre@.take(26) =~= pre@);
        assert(v@ =~= root@ + staging_prefix() + dec_spec(pid as nat) + seq![95u8] + dec_spec(time as nat) + seq![95u8]
            + dec_spec(tid as nat) + seq![95u8] + dec_spec(attempt as nat) + seq![46u8, 116u8, 109u8, 112u8]);
    }
    let mut r = FixedString::<1024>::new();
    r.set_bytes(v.as_slice());
    r
}

/// Mode of a staging file: the entry's mode made readable and writable by
/// its owner.
pub fn staging_mode(entry_mode: u32) -> (m: u32)
    ensures
        m == entry_mode | 0o600,
{
    entry_mode | 0o600
}

/// Whether to try another staging name after attempt `attempt` failed:
/// only when the name was taken, and at most 100 attempts in all.
pub fn retry_staging(attempt: u32, name_taken: bool) -> (r: bool)
    ensures
        r == (name_taken && attempt + 1 < 100),
{
    name_taken && attempt < 99
}

} // verus!
