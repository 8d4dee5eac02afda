//! Little-endian encoding of integers into byte buffers.
use vstd::prelude::*;

verus! {

/// Little-endian bytes of a `u64`.
pub open spec fn le_u64(x: u64) -> Seq<u8> {
    seq![
        (x & 0xff) as u8,
        ((x >> 8) & 0xff) as u8,
        ((x >> 16) & 0xff) as u8,
        ((x >> 24) & 0xff) as u8,
        ((x >> 32) & 0xff) as u8,
        ((x >> 40) & 0xff) as u8,
        ((x >> 48) & 0xff) as u8,
        ((x >> 56) & 0xff) as u8,
    ]
}

/// Little-endian bytes of a `u32`.
pub open spec fn le_u32(x: u32) -> Seq<u8> {
    seq![
        (x & 0xff) as u8,
        ((x >> 8) & 0xff) as u8,
        ((x >> 16) & 0xff) as u8,
        ((x >> 24) & 0xff) as u8,
    ]
}

/// The `u64` stored little-endian at `off`.
pub open spec fn read_u64(b: Seq<u8>, off: int) -> u64 {
    (b[off] as u64) | ((b[off + 1] as u64) << 8) | ((b[off + 2] as u64) << 16) | ((b[off + 3] as u64) << 24)
        | ((b[off + 4] as u64) << 32) | ((b[off + 5] as u64) << 40) | ((b[off + 6] as u64) << 48)
        | ((b[off + 7] as u64) << 56)
}

/// The `u32` stored little-endian at `off`.
pub open spec fn read_u32(b: Seq<u8>, off: int) -> u32 {
    (b[off] as u32) | ((b[off + 1] as u32) << 8) | ((b[off + 2] as u32) << 16) | ((b[off + 3] as u32) << 24)
}

/// `b` holds the bytes `v` at `off`.
pub open spec fn holds_at(b: Seq<u8>, off: int, v: Seq<u8>) -> bool {
    0 <= off && off + v.len() <= b.len() && forall|j: int| 0 <= j < v.len() ==> #[trigger] b[off + j] == v[j]
}

/// Reading back the little-endian bytes of a `u64` gives the value.
pub proof fn lemma_read_u64(b: Seq<u8>, off: int, x: u64)
    requires
        holds_at(b, off, le_u64(x)),
    ensures
        read_u64(b, off) == x,
{
    let v = le_u64(x);
    assert(b[off + 0] == v[0]);
    assert(b[off + 1] == v[1]);
    assert(b[off + 2] == v[2]);
    assert(b[off + 3] == v[3]);
    assert(b[off + 4] == v[4]);
    assert(b[off + 5] == v[5]);
    assert(b[off + 6] == v[6]);
    assert(b[off + 7] == v[7]);
    assert(((x & 0xff) as u8 as u64) | ((((x >> 8) & 0xff) as u8 as u64) << 8) | ((((x >> 16) & 0xff) as u8 as u64) << 16)
        | ((((x >> 24) & 0xff) as u8 as u64) << 24) | ((((x >> 32) & 0xff) as u8 as u64) << 32)
        | ((((x >> 40) & 0xff) as u8 as u64) << 40) | ((((x >> 48) & 0xff) as u8 as u64) << 48)
        | ((((x >> 56) & 0xff) as u8 as u64) << 56) == x) by (bit_vector);
}

/// Reading back the little-endian bytes of a `u32` gives the value.
pub proof fn lemma_read_u32(b: Seq<u8>, off: int, x: u32)
    requires
        holds_at(b, off, le_u32(x)),
    ensures
        read_u32(b, off) == x,
{
    let v = le_u32(x);
    assert(b[off + 0] == v[0]);
    assert(b[off + 1] == v[1]);
    assert(b[off + 2] == v[2]);
    assert(b[off + 3] == v[3]);
    assert(((x & 0xff) as u8 as u32) | ((((x >> 8) & 0xff) as u8 as u32) << 8) | ((((x >> 16) & 0xff) as u8 as u32) << 16)
        | ((((x >> 24) & 0xff) as u8 as u32) << 24) == x) by (bit_vector);
}

/// Store `v` at `off` in `buf`.
pub fn write_bytes(buf: &mut Vec<u8>, off: usize, v: &[u8])
    requires
        off + v@.len() <= old(buf)@.len(),
    ensures
        final(buf)@.len() == old(buf)@.len(),
        holds_at(final(buf)@, off as int, v@),
        forall|j: int| 0 <= j < old(buf)@.len() && !(off <= j < off + v@.len()) ==> final(buf)@[j] == old(buf)@[j],
{
    let n: usize = buf.len();
    let mut i: usize = 0;
    while i < v.len()
        invariant
            off + v@.len() <= buf@.len(),
            buf@.len() == old(buf)@.len(),
            buf@.len() == n,
            0 <= i <= v@.len(),
            forall|j: int| 0 <= j < i ==> #[trigger] buf@[off + j] == v@[j],
            forall|j: int| 0 <= j < old(buf)@.len() && !(off <= j < off + i) ==> buf@[j] == old(buf)@[j],
        decreases v@.len() - i,
    {
        buf.set(off + i, v[i]);
        i = i + 1;
    }
}

/// Store a `u64` little-endian at `off`.
pub fn write_u64(buf: &mut Vec<u8>, off: usize, x: u64)
    requires
        off + 8 <= old(buf)@.len(),
    ensures
        final(buf)@.len() == old(buf)@.len(),
        holds_at(final(buf)@, off as int, le_u64(x)),
        forall|j: int| 0 <= j < old(buf)@.len() && !(off <= j < off + 8) ==> final(buf)@[j] == old(buf)@[j],
{
    let v: [u8; 8] = [
        (x & 0xff) as u8,
        ((x >> 8) & 0xff) as u8,
        ((x >> 16) & 0xff) as u8,
        ((x >> 24) & 0xff) as u8,
        ((x >> 32) & 0xff) as u8,
        ((x >> 40) & 0xff) as u8,
        ((x >> 48) & 0xff) as u8,
        ((x >> 56) & 0xff) as u8,
    ];
    assert(v@ =~= le_u64(x));
    write_bytes(buf, off, v.as_slice());
}

/// Store a `u32` little-endian at `off`.
pub fn write_u32(buf: &mut Vec<u8>, off: usize, x: u32)
    requires
        off + 4 <= old(buf)@.len(),
    ensures
        final(buf)@.len() == old(buf)@.len(),
        holds_at(final(buf)@, off as int, le_u32(x)),
        forall|j: int| 0 <= j < old(buf)@.len() && !(off <= j < off + 4) ==> final(buf)@[j] == old(buf)@[j],
{
    let v: [u8; 4] = [
        (x & 0xff) as u8,
        ((x >> 8) & 0xff) as u8,
        ((x >> 16) & 0xff) as u8,
        ((x >> 24) & 0xff) as u8,
    ];
    assert(v@ =~= le_u32(x));
    write_bytes(buf, off, v.as_slice());
}

/// Read a little-endian `u64` at `off`.
pub fn get_u64(b: &[u8], off: usize) -> (x: u64)
    requires
        off + 8 <= b@.len(),
    ensures
        x == read_u64(b@, off as int),
{
    (b[off] as u64) | ((b[off + 1] as u64) << 8) | ((b[off + 2] as u64) << 16) | ((b[off + 3] as u64) << 24)
        | ((b[off + 4] as u64) << 32) | ((b[off + 5] as u64) << 40) | ((b[off + 6] as u64) << 48)
        | ((b[off + 7] as u64) << 56)
}

/// Read a little-endian `u32` at `off`.
pub fn get_u32(b: &[u8], off: usize) -> (x: u32)
    requires
        off + 4 <= b@.len(),
    ensures
        x == read_u32(b@, off as int),
{
    (b[off] as u32) | ((b[off + 1] as u32) << 8) | ((b[off + 2] as u32) << 16) | ((b[off + 3] as u32) << 24)
}

} // verus!
