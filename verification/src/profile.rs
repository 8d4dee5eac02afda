//! VFS performance profiling: syscall counters with cumulative latency,
//! and a table of per-file hot paths (open addressing over path hashes,
//! bounded probing) from which the slowest files are reported.
use vstd::prelude::*;
use crate::fnv::{fnv1a_hash_bytes, fnv1a_spec};
use crate::text::{lossy_string, utf8_lossy};
use vstd::string::StrSliceExecFns;

verus! {

/// Number of slots of the hot path table.
pub const HOT_PATH_SLOTS: usize = 256;

/// Bytes kept of each hot path (including the terminating zero).
pub const HOT_PATH_STR_LEN: usize = 128;

/// Number of slots probed before a sample is dropped.
pub const HOT_PATH_PROBES: usize = 16;

/// Syscall counters (count and cumulative latency in ns), VFS contribution,
/// cache statistics and timestamps of one profiling session.
pub struct VriftProfile {
    pub stat_calls: u64,
    pub stat_ns: u64,
    pub fstat_calls: u64,
    pub fstat_ns: u64,
    pub lstat_calls: u64,
    pub lstat_ns: u64,
    pub open_calls: u64,
    pub open_ns: u64,
    pub close_calls: u64,
    pub close_ns: u64,
    pub read_calls: u64,
    pub read_ns: u64,
    pub write_calls: u64,
    pub write_ns: u64,
    pub readdir_calls: u64,
    pub readdir_ns: u64,
    pub access_calls: u64,
    pub access_ns: u64,
    pub vfs_handled: u64,
    pub vfs_passthrough: u64,
    pub vdir_hits: u64,
    pub vdir_misses: u64,
    pub ipc_calls: u64,
    pub cas_materializations: u64,
    pub vdir_lookup_ns: u64,
    pub ipc_roundtrip_ns: u64,
    pub start_time_ns: u64,
    pub sample_counter: u64,
    pub init_ns: u64,
}

impl VriftProfile {
    /// Every counter is zero.
    pub open spec fn all_zero(&self) -> bool {
        &&& self.stat_calls == 0 && self.stat_ns == 0 && self.fstat_calls == 0 && self.fstat_ns == 0
        &&& self.lstat_calls == 0 && self.lstat_ns == 0 && self.open_calls == 0 && self.open_ns == 0
        &&& self.close_calls == 0 && self.close_ns == 0 && self.read_calls == 0 && self.read_ns == 0
        &&& self.write_calls == 0 && self.write_ns == 0 && self.readdir_calls == 0 && self.readdir_ns == 0
        &&& self.access_calls == 0 && self.access_ns == 0 && self.vfs_handled == 0 && self.vfs_passthrough == 0
        &&& self.vdir_hits == 0 && self.vdir_misses == 0 && self.ipc_calls == 0 && self.cas_materializations == 0
        &&& self.vdir_lookup_ns == 0 && self.ipc_roundtrip_ns == 0 && self.start_time_ns == 0
        &&& self.sample_counter == 0 && self.init_ns == 0
    }

    /// A profile with every counter at zero.
    pub fn new() -> (p: Self)
        ensures
            p.all_zero(),
    {
        VriftProfile {
            stat_calls: 0,
            stat_ns: 0,
            fstat_calls: 0,
            fstat_ns: 0,
            lstat_calls: 0,
            lstat_ns: 0,
            open_calls: 0,
            open_ns: 0,
            close_calls: 0,
            close_ns: 0,
            read_calls: 0,
            read_ns: 0,
            write_calls: 0,
            write_ns: 0,
            readdir_calls: 0,
            readdir_ns: 0,
            access_calls: 0,
            access_ns: 0,
            vfs_handled: 0,
            vfs_passthrough: 0,
            vdir_hits: 0,
            vdir_misses: 0,
            ipc_calls: 0,
            cas_materializations: 0,
            vdir_lookup_ns: 0,
            ipc_roundtrip_ns: 0,
            start_time_ns: 0,
            sample_counter: 0,
            init_ns: 0,
        }
    }
}

impl Default for VriftProfile {
    fn default() -> (p: Self)
        ensures
            p.all_zero(),
    {
        Self::new()
    }
}

/// One slot of the hot path table.
#[derive(Clone, Copy)]
pub struct HotPathEntry {
    /// FNV-1a hash of the path (0 = empty slot).
    pub path_hash: u64,
    /// Cumulative latency.
    pub total_ns: u64,
    /// Number of calls.
    pub call_count: u64,
    /// The path, truncated and zero padded.
    pub path_str: [u8; 128],
}

impl HotPathEntry {
    /// An empty slot.
    pub fn new() -> (e: Self)
        ensures
            e.path_hash == 0 && e.total_ns == 0 && e.call_count == 0,
            e.path_str@ == Seq::new(128, |i: int| 0u8),
    {
        let e = HotPathEntry { path_hash: 0, total_ns: 0, call_count: 0, path_str: [0u8; 128] };
        assert(e.path_str@ =~= Seq::new(128, |i: int| 0u8));
        e
    }
}

/// The `k`-th slot probed for hash `h`.
pub open spec fn hot_probe(h: u64, k: int) -> int {
    ((h as usize) as int % HOT_PATH_SLOTS as int + k) % HOT_PATH_SLOTS as int
}

/// The first of the bounded probes, from the `k`-th on, that reaches a slot
/// holding `h` or an empty slot.
pub open spec fn hot_stop(t: Seq<HotPathEntry>, h: u64, k: int) -> Option<int>
    decreases HOT_PATH_PROBES - k,
{
    if k < 0 || k >= HOT_PATH_PROBES {
        None
    } else if t[hot_probe(h, k)].path_hash == h || t[hot_probe(h, k)].path_hash == 0 {
        Some(k)
    } else {
        hot_stop(t, h, k + 1)
    }
}

/// Path bytes kept when a path claims a slot: the first bytes (at most 127)
/// over the old contents.
pub open spec fn claimed_str(old_str: Seq<u8>, path: Seq<u8>) -> Seq<u8> {
    Seq::new(128, |j: int| if j < path.len() && j < 127 { path[j] } else { old_str[j] })
}

/// The entry after one more call of `elapsed` ns.
pub open spec fn accumulate(e: HotPathEntry, elapsed: u64) -> (u64, u64) {
    (e.total_ns.wrapping_add(elapsed), e.call_count.wrapping_add(1))
}

/// Table of per-file latencies, keyed by path hash.
pub struct HotPathTable {
    slots: Vec<HotPathEntry>,
}

impl HotPathTable {
    /// The slots of the table.
    pub closed spec fn view_slots(&self) -> Seq<HotPathEntry> {
        self.slots@
    }

    /// The table has its fixed number of slots.
    pub open spec fn wf(&self) -> bool {
        self.view_slots().len() == HOT_PATH_SLOTS
    }

    /// An empty table.
    pub fn new() -> (t: Self)
        ensures
            t.wf(),
            forall|i: int| 0 <= i < HOT_PATH_SLOTS ==> (#[trigger] t.view_slots()[i]).path_hash == 0
                && t.view_slots()[i].total_ns == 0 && t.view_slots()[i].call_count == 0,
    {
        let mut slots: Vec<HotPathEntry> = Vec::new();
        let mut i: usize = 0;
        while i < HOT_PATH_SLOTS
            invariant
                0 <= i <= HOT_PATH_SLOTS,
                slots@.len() == i,
                forall|j: int| 0 <= j < i ==> (#[trigger] slots@[j]).path_hash == 0 && slots@[j].total_ns == 0
                    && slots@[j].call_count == 0,
            decreases HOT_PATH_SLOTS - i,
        {
            slots.push(HotPathEntry::new());
            i = i + 1;
        }
        HotPathTable { slots }
    }

    /// Record one call on `path` taking `elapsed_ns`. Empty paths and paths
    /// hashing to 0 are ignored; otherwise the first of 16 probed slots that
    /// holds the path's hash accumulates the call, or else the first empty
    /// one is claimed for the path; if neither comes, the sample is dropped.
    pub fn record(&mut self, path: &[u8], elapsed_ns: u64)
        requires
            old(self).wf(),
        ensures
            final(self).wf(),
            ({
                let h = fnv1a_spec(path@);
                let t = old(self).view_slots();
                let u = final(self).view_slots();
                if path@.len() == 0 || h == 0 {
                    u == t
                } else {
                    match hot_stop(t, h, 0) {
                        None => u == t,
                        Some(k) => {
                            let s = hot_probe(h, k);
                            let e = t[s];
                            &&& u == t.update(s, u[s])
                            &&& u[s].path_hash == h
                            &&& (u[s].total_ns, u[s].call_count) == accumulate(e, elapsed_ns)
                            &&& u[s].path_str@ == if e.path_hash == h { e.path_str@ } else { claimed_str(e.path_str@, path@) }
                        },
                    }
                }
            }),
    {
        if path.len() == 0 {
            return;
        }
        let hash = fnv1a_hash_bytes(path);
        if hash == 0 {
            return;
        }
        match self.find_slot(hash) {
            None => {},
            Some(slot) => {
                let e = self.slots[slot];
                let e2 = touched_entry(e, hash, path, elapsed_ns);
                self.slots.set(slot, e2);
            },
        }
    }

    /// The slot where the bounded probing for `hash` stops, if any.
    fn find_slot(&self, hash: u64) -> (r: Option<usize>)
        requires
            self.wf(),
        ensures
            match hot_stop(self.view_slots(), hash, 0) {
                None => r is None,
                Some(k) => r == Some(hot_probe(hash, k) as usize) && 0 <= hot_probe(hash, k) < HOT_PATH_SLOTS,
            },
    {
        let start: usize = (hash as usize) % HOT_PATH_SLOTS;
        let mut i: usize = 0;
        while i < HOT_PATH_PROBES
            invariant
                self.wf(),
                start as int == (hash as usize) as int % HOT_PATH_SLOTS as int,
                0 <= i <= HOT_PATH_PROBES,
                hot_stop(self.view_slots(), hash, 0) == hot_stop(self.view_slots(), hash, i as int),
            decreases HOT_PATH_PROBES - i,
        {
            let slot = (start + i) % HOT_PATH_SLOTS;
            assert(slot as int == hot_probe(hash, i as int));
            let existing = self.slots[slot].path_hash;
            if existing == hash || existing == 0 {
                return Some(slot);
            }
            i = i + 1;
        }
        None
    }
}

/// The slot entry after a call on `path` (hash `hash`): claimed for the
/// path if it was empty, then accumulated.
fn touched_entry(e: HotPathEntry, hash: u64, path: &[u8], elapsed_ns: u64) -> (r: HotPathEntry)
    ensures
        r.path_hash == hash,
        (r.total_ns, r.call_count) == accumulate(e, elapsed_ns),
        r.path_str@ == if e.path_hash == hash { e.path_str@ } else { claimed_str(e.path_str@, path@) },
{
    let mut r = e;
    if e.path_hash != hash {
        let copy_len: usize = if path.len() < 127 { path.len() } else { 127 };
        let mut j: usize = 0;
        while j < copy_len
            invariant
                copy_len <= 127,
                copy_len <= path@.len(),
                0 <= j <= copy_len,
                r.path_str@.len() == 128,
                forall|q: int| 0 <= q < j ==> r.path_str@[q] == path@[q],
                forall|q: int| j <= q < 128 ==> r.path_str@[q] == e.path_str@[q],
            decreases copy_len - j,
        {
            r.path_str[j] = path[j];
            j = j + 1;
        }
        assert(r.path_str@ =~= claimed_str(e.path_str@, path@));
    }
    r.path_hash = hash;
    r.total_ns = e.total_ns.wrapping_add(elapsed_ns);
    r.call_count = e.call_count.wrapping_add(1);
    r
}

/// A reported hot path: text, cumulative ns and call count.
pub open spec fn hot_report(e: HotPathEntry) -> (Seq<char>, u64, u64) {
    (utf8_lossy(e.path_str@.take(zero_pos(e.path_str@))), e.total_ns, e.call_count)
}

/// Position of the first zero byte (or the length if there is none).
pub open spec fn zero_pos(b: Seq<u8>) -> int
    decreases b.len(),
{
    if b.len() == 0 {
        0
    } else if b[0] == 0 {
        0
    } else {
        1 + zero_pos(b.drop_first())
    }
}

/// Reports of the occupied slots, in slot order.
pub open spec fn occupied_reports(t: Seq<HotPathEntry>, n: int) -> Seq<(Seq<char>, u64, u64)>
    decreases n,
{
    if n <= 0 {
        Seq::empty()
    } else if t[n - 1].path_hash == 0 {
        occupied_reports(t, n - 1)
    } else {
        occupied_reports(t, n - 1).push(hot_report(t[n - 1]))
    }
}

/// Insert `x` into `s` after every element whose latency is at least
/// that of `x` at the front of `s`.
pub open spec fn insert_desc(s: Seq<(Seq<char>, u64, u64)>, x: (Seq<char>, u64, u64)) -> Seq<(Seq<char>, u64, u64)>
    decreases s.len(),
{
    if s.len() == 0 {
        seq![x]
    } else if s[0].1 >= x.1 {
        seq![s[0]] + insert_desc(s.drop_first(), x)
    } else {
        seq![x] + s
    }
}

/// Stable sort by latency, largest first.
pub open spec fn sort_desc(s: Seq<(Seq<char>, u64, u64)>) -> Seq<(Seq<char>, u64, u64)>
    decreases s.len(),
{
    if s.len() == 0 {
        s
    } else {
        insert_desc(sort_desc(s.drop_last()), s.last())
    }
}

/// Position where `insert_desc` puts `x`.
pub open spec fn insert_pos(s: Seq<(Seq<char>, u64, u64)>, x: (Seq<char>, u64, u64)) -> int
    decreases s.len(),
{
    if s.len() == 0 {
        0
    } else if s[0].1 >= x.1 {
        1 + insert_pos(s.drop_first(), x)
    } else {
        0
    }
}

proof fn lemma_insert_desc(s: Seq<(Seq<char>, u64, u64)>, x: (Seq<char>, u64, u64))
    ensures
        0 <= insert_pos(s, x) <= s.len(),
        insert_desc(s, x) == s.insert(insert_pos(s, x), x),
        forall|i: int| 0 <= i < insert_pos(s, x) ==> s[i].1 >= x.1,
        insert_pos(s, x) < s.len() ==> s[insert_pos(s, x)].1 < x.1,
    decreases s.len(),
{
    if s.len() > 0 {
        lemma_insert_desc(s.drop_first(), x);
        if s[0].1 >= x.1 {
            let t = s.drop_first();
            assert(seq![s[0]] + t.insert(insert_pos(t, x), x) =~= s.insert(insert_pos(s, x), x));
            assert forall|i: int| 0 <= i < insert_pos(s, x) implies s[i].1 >= x.1 by {
                if i > 0 {
                    assert(s[i] == t[i - 1]);
                }
            }
        } else {
            assert(seq![x] + s =~= s.insert(0, x));
        }
    }
}

proof fn lemma_zero_pos(b: Seq<u8>)
    ensures
        0 <= zero_pos(b) <= b.len(),
        forall|j: int| 0 <= j < zero_pos(b) ==> b[j] != 0,
        zero_pos(b) < b.len() ==> b[zero_pos(b)] == 0,
    decreases b.len(),
{
    if b.len() > 0 && b[0] != 0 {
        lemma_zero_pos(b.drop_first());
        assert forall|j: int| 0 <= j < zero_pos(b) implies b[j] != 0 by {
            if j > 0 {
                assert(b[j] == b.drop_first()[j - 1]);
            }
        }
    }
}

impl HotPathTable {
    /// The hot paths, by cumulative latency (largest first, ties in slot
    /// order), at most `top_n` of them: text, total ns and call count.
    pub fn collect_hot_paths(&self, top_n: usize) -> (r: Vec<(String, u64, u64)>)
        requires
            self.wf(),
        ensures
            r@.map_values(|x: (String, u64, u64)| (x.0@, x.1, x.2)) == ({
                let s = sort_desc(occupied_reports(self.view_slots(), HOT_PATH_SLOTS as int));
                if s.len() <= top_n {
                    s
                } else {
                    s.take(top_n as int)
                }
            }),
    {
        let ghost t = self.slots@;
        let mut out: Vec<(String, u64, u64)> = Vec::new();
        let mut i: usize = 0;
        while i < HOT_PATH_SLOTS
            invariant
                t == self.slots@,
                t.len() == HOT_PATH_SLOTS,
                0 <= i <= HOT_PATH_SLOTS,
                out@.map_values(|x: (String, u64, u64)| (x.0@, x.1, x.2)) == sort_desc(occupied_reports(t, i as int)),
            decreases HOT_PATH_SLOTS - i,
        {
            let e = &self.slots[i];
            if e.path_hash != 0 {
                let mut len: usize = 0;
                while len < HOT_PATH_STR_LEN && e.path_str[len] != 0
                    invariant
                        0 <= len <= HOT_PATH_STR_LEN,
                        e.path_str@.len() == 128,
                        forall|j: int| 0 <= j < len ==> e.path_str@[j] != 0,
                    decreases HOT_PATH_STR_LEN - len,
                {
                    len = len + 1;
                }
                proof {
                    lemma_zero_pos(e.path_str@);
                    if zero_pos(e.path_str@) < len {
                        assert(e.path_str@[zero_pos(e.path_str@)] != 0);
                    }
                    if len < 128 {
                        assert(e.path_str@[len as int] == 0);
                    }
                }
                let (head, _) = e.path_str.as_slice().split_at(len);
                assert(head@ =~= e.path_str@.take(zero_pos(e.path_str@)));
                let text = lossy_string(head);
                let item = (text, e.total_ns, e.call_count);
                let ghost xs = out@.map_values(|x: (String, u64, u64)| (x.0@, x.1, x.2));
                let ghost xi = (item.0@, item.1, item.2);
                // insertion position: after every element at least as slow
                let mut p: usize = 0;
                while p < out.len() && out[p].1 >= e.total_ns
                    invariant
                        0 <= p <= out@.len(),
                        xs == out@.map_values(|x: (String, u64, u64)| (x.0@, x.1, x.2)),
                        forall|q: int| 0 <= q < p ==> xs[q].1 >= xi.1,
                        xi.1 == e.total_ns,
                    decreases out@.len() - p,
                {
                    p = p + 1;
                }
                proof {
                    lemma_insert_desc(xs, xi);
                    let ip = insert_pos(xs, xi);
                    if ip < p {
                        assert(xs[ip].1 < xi.1);
                    }
                    if p < ip {
                        assert(xs[p as int].1 >= xi.1);
                        assert(out@[p as int].1 == xs[p as int].1);
                    }
                    assert(ip == p);
                }
                out.insert(p, item);
                proof {
                    assert(out@.map_values(|x: (String, u64, u64)| (x.0@, x.1, x.2)) =~= xs.insert(p as int, xi));
                    assert(occupied_reports(t, i + 1) == occupied_reports(t, i as int).push(hot_report(t[i as int])));
                    assert(occupied_reports(t, i + 1).drop_last() =~= occupied_reports(t, i as int));
                }
            }
            i = i + 1;
        }
        let ghost s = out@.map_values(|x: (String, u64, u64)| (x.0@, x.1, x.2));
        if out.len() > top_n {
            out.truncate(top_n);
            assert(out@.map_values(|x: (String, u64, u64)| (x.0@, x.1, x.2)) =~= s.take(top_n as int));
        }
        out
    }
}


/// A path as the text of a JSON string: each backslash and each double
/// quote preceded by a backslash.
pub open spec fn json_escaped(s: Seq<char>) -> Seq<char>
    decreases s.len(),
{
    if s.len() == 0 {
        Seq::empty()
    } else {
        let c = s.last();
        json_escaped(s.drop_last()) + if c == '\\' || c == '"' {
            seq!['\\', c]
        } else {
            seq![c]
        }
    }
}

/// The text of a path inside a JSON string (see `json_escaped`).
pub fn json_escape(path: &str) -> (r: String)
    ensures
        r@ == json_escaped(path@),
{
    let n = path.unicode_len();
    let mut out = String::from_str("");
    proof { reveal_strlit(""); }
    let mut k: usize = 0;
    while k < n
        invariant
            n == path@.len(),
            0 <= k <= n,
            out@ == json_escaped(path@.take(k as int)),
        decreases n - k,
    {
        let c = path.get_char(k);
        proof {
            assert(path@.take(k + 1).drop_last() =~= path@.take(k as int));
            assert(path@.take(k + 1).last() == c);
        }
        if c == '\\' {
            proof { reveal_strlit("\\\\"); }
            assert("\\\\"@ =~= seq!['\\', c]);
            out.append("\\\\");
        } else if c == '"' {
            proof { reveal_strlit("\\\""); }
            assert("\\\""@ =~= seq!['\\', c]);
            out.append("\\\"");
        } else {
            let one = path.substring_char(k, k + 1);
            assert(one@ =~= seq![c]);
            out.append(one);
        }
        k = k + 1;
    }
    assert(path@.take(n as int) =~= path@);
    out
}

} // verus!
