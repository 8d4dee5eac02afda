//! Packfiles: blobs consolidated into one file (header, index of hash,
//! offset and length per blob, then the concatenated data), and the access
//! profile that decides the packing order.
use vstd::prelude::*;
use vstd::string::StringSliceAdditionalSpecFns;
use crate::blob_path::{hex_spec, push_hex};
use crate::manifest::Blake3Hash;

verus! {

/// Magic bytes of a packfile: `VELOPACK`.
pub const PACK_MAGIC: [u8; 8] = [0x56, 0x45, 0x4c, 0x4f, 0x50, 0x41, 0x43, 0x4b];

/// Current packfile format version.
pub const PACK_VERSION: u32 = 1;

/// Size of the packfile header.
pub const PACK_HEADER_SIZE: u64 = 32;

/// Errors of packfile operations (I/O and serialization errors as their messages).
pub enum PackError {
    Io(String),
    Bincode(String),
    Invalid(String),
    NotFound { hash: String },
}

/// Packfile header.
#[derive(Clone, Copy)]
pub struct PackHeader {
    pub magic: [u8; 8],
    pub version: u32,
    pub entry_count: u32,
    pub index_offset: u64,
    pub data_offset: u64,
}

/// The version number in decimal, as in the unsupported-version message.
pub open spec fn version_message(v: u32) -> Seq<u8> {
    vstd::utf8::encode_utf8("Unsupported version: "@) + crate::blob_path::dec_spec(v as nat)
}

impl PackHeader {
    /// A header with the current magic and version.
    pub fn new(entry_count: u32, index_offset: u64, data_offset: u64) -> (h: Self)
        ensures
            h.magic@ == PACK_MAGIC@,
            h.version == PACK_VERSION,
            h.entry_count == entry_count,
            h.index_offset == index_offset,
            h.data_offset == data_offset,
    {
        PackHeader { magic: PACK_MAGIC, version: PACK_VERSION, entry_count, index_offset, data_offset }
    }

    /// Check the magic bytes, then the version.
    pub fn validate(&self) -> (r: Result<(), PackError>)
        ensures
            self.magic@ != PACK_MAGIC@ ==> (r matches Err(PackError::Invalid(m)) && m@ == "Bad magic bytes"@),
            self.magic@ == PACK_MAGIC@ && self.version != PACK_VERSION ==> (r matches Err(PackError::Invalid(m))
                && vstd::utf8::encode_utf8(m@) == version_message(self.version)),
            self.magic@ == PACK_MAGIC@ && self.version == PACK_VERSION ==> r is Ok,
    {
        let mut i: usize = 0;
        while i < 8
            invariant
                0 <= i <= 8,
                forall|j: int| 0 <= j < i ==> self.magic@[j] == PACK_MAGIC@[j],
            decreases 8 - i,
        {
            if self.magic[i] != PACK_MAGIC[i] {
                return Err(PackError::Invalid(String::from_str("Bad magic bytes")));
            }
            i = i + 1;
        }
        assert(self.magic@ =~= PACK_MAGIC@);
        if self.version != PACK_VERSION {
            let mut v: Vec<u8> = Vec::new();
            let prefix = "Unsupported version: ".as_bytes();
            let mut k: usize = 0;
            while k < prefix.len()
                invariant
                    0 <= k <= prefix@.len(),
                    v@ == prefix@.take(k as int),
                decreases prefix@.len() - k,
            {
                v.push(prefix[k]);
                proof { assert(prefix@.take(k + 1) =~= prefix@.take(k as int).push(prefix@[k as int])); }
                k = k + 1;
            }
            crate::blob_path::push_decimal(&mut v, self.version as u64);
            proof {
                assert(prefix@.take(prefix@.len() as int) =~= prefix@);
                let d = crate::blob_path::dec_spec(self.version as nat);
                lemma_dec_ascii(self.version as nat);
                lemma_ascii_valid(d);
                vstd::utf8::encode_utf8_valid_utf8("Unsupported version: "@);
                vstd::utf8::valid_utf8_concat(prefix@, d);
                assert(v@ =~= prefix@ + d);
            }
            let s = match crate::text::utf8_str(v.as_slice()) {
                Some(s) => s,
                None => "",
            };
            return Err(PackError::Invalid(String::from_str(s)));
        }
        Ok(())
    }
}

/// Decimal digits are ASCII.
proof fn lemma_dec_ascii(n: nat)
    ensures
        forall|i: int| 0 <= i < crate::blob_path::dec_spec(n).len() ==> crate::blob_path::dec_spec(n)[i] < 0x80,
    decreases n,
{
    if n >= 10 {
        lemma_dec_ascii(n / 10);
        let d = crate::blob_path::dec_spec(n);
        let d0 = crate::blob_path::dec_spec(n / 10);
        assert(d == d0.push((48 + n % 10) as u8));
        assert forall|i: int| 0 <= i < d.len() implies d[i] < 0x80 by {
            if i < d0.len() {
                assert(d[i] == d0[i]);
            }
        }
    }
}

/// Bytes below 0x80 form valid UTF-8.
proof fn lemma_ascii_valid(b: Seq<u8>)
    requires
        forall|i: int| 0 <= i < b.len() ==> b[i] < 0x80,
    ensures
        vstd::utf8::valid_utf8(b),
    decreases b.len(),
{
    if b.len() > 0 {
        let rest = vstd::utf8::pop_first_scalar(b);
        assert(rest =~= b.subrange(1, b.len() as int));
        lemma_ascii_valid(rest);
    }
}

/// Index entry of a blob in a packfile.
#[derive(Clone, Copy)]
pub struct PackIndexEntry {
    /// BLAKE3 hash of the blob.
    pub hash: Blake3Hash,
    /// Offset within the data section.
    pub offset: u64,
    /// Length of the blob.
    pub length: u64,
}

/// Builder of a packfile: its index and concatenated data.
pub struct PackWriter {
    output_path: String,
    entries: Vec<PackIndexEntry>,
    data: Vec<u8>,
}

impl PackWriter {
    /// Where the packfile is written.
    pub closed spec fn path(&self) -> Seq<char> {
        self.output_path@
    }

    /// Index entries added so far.
    pub closed spec fn index(&self) -> Seq<PackIndexEntry> {
        self.entries@
    }

    /// Data section so far.
    pub closed spec fn data_bytes(&self) -> Seq<u8> {
        self.data@
    }

    /// A writer with nothing added yet.
    pub fn new(output_path: String) -> (w: Self)
        ensures
            w.path() == output_path@,
            w.index() == Seq::<PackIndexEntry>::empty(),
            w.data_bytes() == Seq::<u8>::empty(),
    {
        PackWriter { output_path, entries: Vec::new(), data: Vec::new() }
    }

    /// Add a blob: its index entry points at the end of the data so far.
    pub fn add(&mut self, hash: Blake3Hash, data: &[u8])
        requires
            old(self).data_bytes().len() + data@.len() <= usize::MAX,
        ensures
            final(self).path() == old(self).path(),
            final(self).index() == old(self).index().push(
                PackIndexEntry { hash, offset: old(self).data_bytes().len() as u64, length: data@.len() as u64 },
            ),
            final(self).data_bytes() == old(self).data_bytes() + data@,
    {
        let offset = self.data.len() as u64;
        let length = data.len() as u64;
        self.entries.push(PackIndexEntry { hash, offset, length });
        let mut i: usize = 0;
        let ghost d0 = self.data@;
        while i < data.len()
            invariant
                0 <= i <= data@.len(),
                self.data@ == d0 + data@.take(i as int),
                d0 == old(self).data@,
                self.entries@ == old(self).entries@.push(PackIndexEntry { hash, offset: d0.len() as u64, length: data@.len() as u64 }),
                self.output_path@ == old(self).output_path@,
            decreases data@.len() - i,
        {
            self.data.push(data[i]);
            proof { assert(data@.take(i + 1) =~= data@.take(i as int).push(data@[i as int])); }
            i = i + 1;
        }
        assert(data@.take(data@.len() as int) =~= data@);
    }

    /// The index entries, for serialization.
    pub fn entries(&self) -> (v: &Vec<PackIndexEntry>)
        ensures
            v@ == self.index(),
    {
        &self.entries
    }

    /// The data section, for writing.
    pub fn data(&self) -> (v: &Vec<u8>)
        ensures
            v@ == self.data_bytes(),
    {
        &self.data
    }

    /// The output path.
    pub fn output_path(&self) -> (s: &str)
        ensures
            s@ == self.path(),
    {
        self.output_path.as_str()
    }

    /// Header of the finished packfile whose serialized index takes
    /// `index_len` bytes: the index follows the header, the data the index.
    pub fn finish_header(&self, index_len: u64) -> (h: PackHeader)
        requires
            PACK_HEADER_SIZE + index_len <= u64::MAX,
        ensures
            h.magic@ == PACK_MAGIC@,
            h.version == PACK_VERSION,
            h.entry_count == self.index().len() as u32,
            h.index_offset == PACK_HEADER_SIZE,
            h.data_offset == PACK_HEADER_SIZE + index_len,
    {
        PackHeader::new(self.entries.len() as u32, PACK_HEADER_SIZE, PACK_HEADER_SIZE + index_len)
    }
}

/// Whether two hashes are equal.
pub fn same_hash(a: &Blake3Hash, b: &Blake3Hash) -> (r: bool)
    ensures
        r == (a@ == b@),
{
    let mut i: usize = 0;
    while i < 32
        invariant
            0 <= i <= 32,
            a@.len() == 32 && b@.len() == 32,
            forall|j: int| 0 <= j < i ==> a@[j] == b@[j],
        decreases 32 - i,
    {
        if a[i] != b[i] {
            return false;
        }
        i = i + 1;
    }
    assert(a@ =~= b@);
    true
}

/// Byte range `[start, end)` of a blob in a packfile of `file_len` bytes.
pub open spec fn blob_range(data_offset: u64, e: PackIndexEntry) -> (int, int) {
    (data_offset + e.offset, data_offset + e.offset + e.length)
}

/// The blob of an index entry in the packfile bytes; an error when it
/// extends past the end of the file.
pub fn blob_slice<'a>(file: &'a [u8], data_offset: u64, e: &PackIndexEntry) -> (r: Result<&'a [u8], PackError>)
    ensures
        ({
            let (start, end) = blob_range(data_offset, *e);
            &&& end > file@.len() ==> (r matches Err(PackError::Invalid(m)) && m@ == "Blob extends past EOF"@)
            &&& end <= file@.len() ==> (r matches Ok(b) && b@ == file@.subrange(start, end))
        }),
{
    let len = file.len() as u128;
    let start = data_offset as u128 + e.offset as u128;
    let end = start + e.length as u128;
    if end > len {
        return Err(PackError::Invalid(String::from_str("Blob extends past EOF")));
    }
    let (head, _) = file.split_at(end as usize);
    let (_, blob) = head.split_at(start as usize);
    assert(blob@ =~= file@.subrange(start as int, end as int));
    Ok(blob)
}

/// The index entry a hash maps to: the last one listed with that hash.
pub open spec fn index_get(es: Seq<PackIndexEntry>, h: Seq<u8>) -> Option<PackIndexEntry>
    decreases es.len(),
{
    if es.len() == 0 {
        None
    } else if es.last().hash@ == h {
        Some(es.last())
    } else {
        index_get(es.drop_last(), h)
    }
}

/// Reader of a packfile held in memory: its bytes, its index and where its
/// data section starts.
pub struct PackReader {
    bytes: Vec<u8>,
    index: Vec<PackIndexEntry>,
    data_offset: u64,
}

impl PackReader {
    /// Bytes of the packfile.
    pub closed spec fn file(&self) -> Seq<u8> {
        self.bytes@
    }

    /// Index entries as listed in the packfile.
    pub closed spec fn entries(&self) -> Seq<PackIndexEntry> {
        self.index@
    }

    /// Offset of the data section.
    pub closed spec fn data_start(&self) -> u64 {
        self.data_offset
    }

    /// A reader over the packfile bytes, its index entries and the offset of
    /// its data section.
    pub fn new(bytes: Vec<u8>, index: Vec<PackIndexEntry>, data_offset: u64) -> (r: Self)
        ensures
            r.file() == bytes@,
            r.entries() == index@,
            r.data_start() == data_offset,
    {
        PackReader { bytes, index, data_offset }
    }

    /// The index entry of a hash (the last listed with that hash).
    pub fn find(&self, hash: &Blake3Hash) -> (r: Option<PackIndexEntry>)
        ensures
            r == index_get(self.entries(), hash@),
    {
        let mut i: usize = self.index.len();
        assert(self.index@.take(i as int) =~= self.index@);
        while i > 0
            invariant
                0 <= i <= self.index@.len(),
                index_get(self.index@, hash@) == index_get(self.index@.take(i as int), hash@),
            decreases i,
        {
            let e = self.index[i - 1];
            proof {
                assert(self.index@.take(i as int).drop_last() =~= self.index@.take(i - 1));
            }
            if same_hash(&e.hash, hash) {
                return Some(e);
            }
            i = i - 1;
        }
        None
    }

    /// A blob by hash: not found if no index entry has the hash, invalid if
    /// it extends past the end of the file.
    pub fn get(&self, hash: &Blake3Hash) -> (r: Result<&[u8], PackError>)
        ensures
            match index_get(self.entries(), hash@) {
                None => r matches Err(PackError::NotFound { hash: s }) && vstd::utf8::encode_utf8(s@) == hex_spec(hash@),
                Some(e) => {
                    let (start, end) = blob_range(self.data_start(), e);
                    &&& end > self.file().len() ==> (r matches Err(PackError::Invalid(m)) && m@ == "Blob extends past EOF"@)
                    &&& end <= self.file().len() ==> (r matches Ok(b) && b@ == self.file().subrange(start, end))
                },
            },
    {
        match self.find(hash) {
            None => {
                let mut v: Vec<u8> = Vec::new();
                push_hex(&mut v, hash.as_slice());
                proof {
                    assert(v@ =~= hex_spec(hash@));
                    lemma_hex_ascii(hash@);
                    lemma_ascii_valid(v@);
                }
                let s = match crate::text::utf8_str(v.as_slice()) {
                    Some(s) => s,
                    None => "",
                };
                Err(PackError::NotFound { hash: String::from_str(s) })
            },
            Some(e) => blob_slice(self.bytes.as_slice(), self.data_offset, &e),
        }
    }

    /// Whether the packfile holds a blob with this hash.
    pub fn contains(&self, hash: &Blake3Hash) -> (r: bool)
        ensures
            r == (index_get(self.entries(), hash@) is Some),
    {
        self.find(hash).is_some()
    }

    /// Whether the entry at `i` carries a hash listed before it.
    fn listed_before(&self, i: usize) -> (r: bool)
        requires
            i < self.entries().len(),
        ensures
            r == has_hash(self.entries().take(i as int), self.entries()[i as int].hash@),
    {
        let h = self.index[i].hash;
        let mut j: usize = 0;
        while j < i
            invariant
                0 <= j <= i < self.index@.len(),
                h@ == self.index@[i as int].hash@,
                forall|k: int| 0 <= k < j ==> self.index@[k].hash@ != h@,
            decreases i - j,
        {
            if same_hash(&self.index[j].hash, &h) {
                assert(self.index@.take(i as int)[j as int].hash@ == h@);
                return true;
            }
            j = j + 1;
        }
        assert forall|k: int| 0 <= k < self.index@.take(i as int).len() implies
            self.index@.take(i as int)[k].hash@ != h@ by {
            assert(self.index@.take(i as int)[k] == self.index@[k]);
        }
        false
    }

    /// The distinct hashes of the packfile, in order of first listing.
    pub fn hashes(&self) -> (r: Vec<Blake3Hash>)
        ensures
            r@.len() == distinct_hashes(self.entries()).len(),
            forall|k: int| 0 <= k < r@.len() ==> #[trigger] r@[k]@ == distinct_hashes(self.entries())[k],
    {
        let mut out: Vec<Blake3Hash> = Vec::new();
        let mut i: usize = 0;
        assert(self.index@.take(0) =~= Seq::<PackIndexEntry>::empty());
        while i < self.index.len()
            invariant
                0 <= i <= self.index@.len(),
                out@.len() == distinct_hashes(self.index@.take(i as int)).len(),
                forall|k: int| 0 <= k < out@.len() ==> #[trigger] out@[k]@ == distinct_hashes(self.index@.take(i as int))[k],
            decreases self.index@.len() - i,
        {
            let seen = self.listed_before(i);
            proof {
                let t = self.index@.take(i + 1);
                assert(t.drop_last() =~= self.index@.take(i as int));
                assert(t.last() == self.index@[i as int]);
            }
            if !seen {
                out.push(self.index[i].hash);
            }
            i = i + 1;
        }
        assert(self.index@.take(self.index@.len() as int) =~= self.index@);
        out
    }

    /// Number of distinct hashes in the packfile.
    pub fn len(&self) -> (n: usize)
        ensures
            n == distinct_hashes(self.entries()).len(),
    {
        self.hashes().len()
    }

    /// Whether the packfile holds no blob.
    pub fn is_empty(&self) -> (r: bool)
        ensures
            r == (self.entries().len() == 0),
    {
        proof { lemma_distinct_empty(self.entries()); }
        self.len() == 0
    }
}

/// Whether some entry carries the hash `h`.
pub open spec fn has_hash(es: Seq<PackIndexEntry>, h: Seq<u8>) -> bool {
    exists|i: int| 0 <= i < es.len() && es[i].hash@ == h
}

/// The distinct hashes of index entries, in order of first listing.
pub open spec fn distinct_hashes(es: Seq<PackIndexEntry>) -> Seq<Seq<u8>>
    decreases es.len(),
{
    if es.len() == 0 {
        Seq::empty()
    } else if has_hash(es.drop_last(), es.last().hash@) {
        distinct_hashes(es.drop_last())
    } else {
        distinct_hashes(es.drop_last()).push(es.last().hash@)
    }
}

/// Entries give no distinct hash only when there are none.
proof fn lemma_distinct_empty(es: Seq<PackIndexEntry>)
    ensures
        (distinct_hashes(es).len() == 0) == (es.len() == 0),
    decreases es.len(),
{
    if es.len() > 0 {
        lemma_distinct_empty(es.drop_last());
    }
}

/// Read after write: once a blob is added under a hash, a packfile whose
/// data section holds the writer's data finds that hash at an entry whose
/// byte range in the file is exactly the blob.
pub proof fn law_read_back_after_add(before: &PackWriter, after: &PackWriter, h: Blake3Hash, d: Seq<u8>, file: Seq<u8>, data_offset: u64)
    requires
        before.data_bytes().len() + d.len() <= u64::MAX,
        after.index() == before.index().push(
            PackIndexEntry { hash: h, offset: before.data_bytes().len() as u64, length: d.len() as u64 },
        ),
        after.data_bytes() == before.data_bytes() + d,
        data_offset + after.data_bytes().len() <= file.len(),
        file.subrange(data_offset as int, data_offset + after.data_bytes().len()) == after.data_bytes(),
    ensures
        index_get(after.index(), h@) matches Some(e) && ({
            let (start, end) = blob_range(data_offset, e);
            &&& end <= file.len()
            &&& file.subrange(start, end) == d
        }),
{
    let e = after.index().last();
    let n = before.data_bytes().len();
    assert(index_get(after.index(), h@) == Some(e));
    let (start, end) = blob_range(data_offset, e);
    assert(start == data_offset + n && end == data_offset + n + d.len());
    let w = file.subrange(data_offset as int, data_offset + after.data_bytes().len());
    assert forall|i: int| 0 <= i < d.len() implies file.subrange(start, end)[i] == d[i] by {
        assert(file.subrange(start, end)[i] == file[start + i]);
        assert(w[n + i] == file[data_offset + n + i]);
        assert((before.data_bytes() + d)[n + i] == d[i]);
    }
    assert(file.subrange(start, end) =~= d);
}

/// Hex digits are ASCII.
proof fn lemma_hex_ascii(b: Seq<u8>)
    ensures
        forall|i: int| 0 <= i < hex_spec(b).len() ==> hex_spec(b)[i] < 0x80,
    decreases b.len(),
{
    if b.len() > 0 {
        lemma_hex_ascii(b.drop_last());
        let x = b.last() as int;
        assert(0 <= x / 16 < 16 && 0 <= x % 16 < 16);
        let t = seq![crate::blob_path::hex_digit(x / 16), crate::blob_path::hex_digit(x % 16)];
        assert(t[0] < 0x80 && t[1] < 0x80);
        let hs = hex_spec(b);
        let h0 = hex_spec(b.drop_last());
        assert(hs == h0 + t);
        assert forall|i: int| 0 <= i < hs.len() implies hs[i] < 0x80 by {
            if i < h0.len() {
                assert(hs[i] == h0[i]);
            } else {
                assert(hs[i] == t[i - h0.len()]);
            }
        }
    }
}

/// Access order of blobs, for profile-guided packing.
pub struct AccessProfile {
    pub access_order: Vec<Blake3Hash>,
}

impl AccessProfile {
    /// An empty profile.
    pub fn new() -> (p: Self)
        ensures
            p.access_order@ == Seq::<Blake3Hash>::empty(),
    {
        AccessProfile { access_order: Vec::new() }
    }

    /// Record a blob access: appended unless already recorded, so the order
    /// of first accesses is kept without duplicates.
    pub fn record(&mut self, hash: Blake3Hash)
        ensures
            (exists|i: int| 0 <= i < old(self).access_order@.len() && old(self).access_order@[i]@ == hash@)
                ==> final(self).access_order@ == old(self).access_order@,
            !(exists|i: int| 0 <= i < old(self).access_order@.len() && old(self).access_order@[i]@ == hash@)
                ==> final(self).access_order@ == old(self).access_order@.push(hash),
    {
        let mut i: usize = 0;
        while i < self.access_order.len()
            invariant
                0 <= i <= self.access_order@.len(),
                self.access_order@ == old(self).access_order@,
                forall|j: int| 0 <= j < i ==> self.access_order@[j]@ != hash@,
            decreases self.access_order@.len() - i,
        {
            if same_hash(&self.access_order[i], &hash) {
                return;
            }
            i = i + 1;
        }
        self.access_order.push(hash);
    }
}

} // verus!
