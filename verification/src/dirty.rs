//! Tracker of paths with pending writes in staging files: a fixed-size
//! open-addressing table of FNV-1a path hashes with linear probing and
//! tombstones.
use vstd::prelude::*;
use vstd::string::StringSliceAdditionalSpecFns;
use crate::fnv::{fnv1a_hash, fnv1a_spec};

verus! {

/// Number of slots in the table (maximum number of concurrently dirty files).
pub const DIRTY_TRACKER_SIZE: usize = 1024;

/// Marker left in a slot whose path was cleared; probing continues past it.
pub const TOMBSTONE: u64 = 0xffff_ffff_ffff_ffff;

/// A slot value that denotes a dirty path (neither empty nor a tombstone).
pub open spec fn live(v: u64) -> bool {
    v != 0 && v != TOMBSTONE
}

/// Slot where the probe sequence of hash `h` starts.
pub open spec fn home(h: u64) -> int {
    (h % (DIRTY_TRACKER_SIZE as u64)) as int
}

/// The `k`-th slot of the probe sequence of `h` (for `0 <= k < N`).
pub open spec fn probe(h: u64, k: int) -> int {
    if home(h) + k < DIRTY_TRACKER_SIZE {
        home(h) + k
    } else {
        home(h) + k - DIRTY_TRACKER_SIZE
    }
}

/// Probing for `h` stops at its `k`-th slot: the slot is empty or holds `h`.
pub open spec fn stops(s: Seq<u64>, h: u64, k: int) -> bool {
    s[probe(h, k)] == 0 || s[probe(h, k)] == h
}

/// `k` is the first step at which probing for `h` stops.
pub open spec fn first_stop(s: Seq<u64>, h: u64, k: int) -> bool {
    &&& 0 <= k < DIRTY_TRACKER_SIZE
    &&& stops(s, h, k)
    &&& forall|j: int| 0 <= j < k ==> !stops(s, h, j)
}

/// Probing for `h` visits every slot without stopping.
pub open spec fn never_stops(s: Seq<u64>, h: u64) -> bool {
    forall|j: int| 0 <= j < DIRTY_TRACKER_SIZE ==> !stops(s, h, j)
}

/// Slot `i` is the `d`-th probe slot of `x`, and all earlier probe slots are occupied.
pub open spec fn reaches(s: Seq<u64>, x: u64, i: int, d: int) -> bool {
    &&& 0 <= d < DIRTY_TRACKER_SIZE
    &&& probe(x, d) == i
    &&& forall|k: int| 0 <= k < d ==> s[probe(x, k)] != 0
}

/// Table invariant: right size, every dirty hash is reachable from its home
/// slot without crossing an empty slot, and no dirty hash occurs twice.
pub open spec fn table_wf(s: Seq<u64>) -> bool {
    &&& s.len() == DIRTY_TRACKER_SIZE
    &&& forall|i: int| #![trigger s[i]]
        0 <= i < DIRTY_TRACKER_SIZE && live(s[i]) ==> exists|d: int| reaches(s, s[i], i, d)
    &&& forall|i: int, j: int|
        0 <= i < DIRTY_TRACKER_SIZE && 0 <= j < DIRTY_TRACKER_SIZE && live(s[i]) && s[i] == s[j]
            ==> i == j
}

/// The set of hashes currently marked dirty.
pub open spec fn dirty_set(s: Seq<u64>) -> Set<u64> {
    Set::new(|h: u64| live(h) && s.contains(h))
}

/// The hash of a path as used by the tracker.
pub open spec fn path_hash(path: &str) -> u64 {
    fnv1a_spec(path.spec_bytes())
}

/// Lock-free dirty file tracker: which paths have pending writes in staging files.
pub struct DirtyTracker {
    slots: Vec<u64>,
}

impl View for DirtyTracker {
    type V = Seq<u64>;

    closed spec fn view(&self) -> Seq<u64> {
        self.slots@
    }
}

proof fn lemma_probe_range(h: u64, k: int)
    requires
        0 <= k < DIRTY_TRACKER_SIZE,
    ensures
        0 <= probe(h, k) < DIRTY_TRACKER_SIZE,
{
}

proof fn lemma_probe_injective(h: u64, k1: int, k2: int)
    requires
        0 <= k1 < DIRTY_TRACKER_SIZE,
        0 <= k2 < DIRTY_TRACKER_SIZE,
        probe(h, k1) == probe(h, k2),
    ensures
        k1 == k2,
{
}

/// Under the invariant, the first stop of a dirty-or-absent hash tells membership.
proof fn lemma_first_stop_decides(s: Seq<u64>, h: u64)
    requires
        table_wf(s),
        live(h),
    ensures
        dirty_set(s).contains(h) <==> exists|k: int| first_stop(s, h, k) && s[probe(h, k)] == h,
        dirty_set(s).contains(h) ==> !never_stops(s, h),
{
    if dirty_set(s).contains(h) {
        let j = choose|j: int| 0 <= j < s.len() && s[j] == h;
        assert(live(s[j]));
        let d = choose|d: int| reaches(s, s[j], j, d);
        assert(reaches(s, h, j, d));
        assert forall|k: int| 0 <= k < d implies !stops(s, h, k) by {
            lemma_probe_range(h, k);
            if s[probe(h, k)] == h {
                lemma_probe_injective(h, k, d);
            }
        }
        assert(stops(s, h, d));
        assert(first_stop(s, h, d));
    } else {
        assert forall|k: int| first_stop(s, h, k) implies s[probe(h, k)] != h by {
            lemma_probe_range(h, k);
            if s[probe(h, k)] == h {
                assert(s.contains(h));
            }
        }
    }
}

/// Some slot holds no dirty path.
pub open spec fn has_room(s: Seq<u64>) -> bool {
    exists|i: int| 0 <= i < DIRTY_TRACKER_SIZE && !live(#[trigger] s[i])
}

/// `k` is the first step of the probe sequence of `h` whose slot holds no
/// dirty path.
pub open spec fn first_free(s: Seq<u64>, h: u64, k: int) -> bool {
    &&& 0 <= k < DIRTY_TRACKER_SIZE
    &&& !live(s[probe(h, k)])
    &&& forall|j: int| 0 <= j < k ==> live(#[trigger] s[probe(h, j)])
}

/// Number of dirty slots among the first `n`.
pub open spec fn live_count(s: Seq<u64>, n: int) -> int
    decreases n,
{
    if n <= 0 {
        0
    } else {
        live_count(s, n - 1) + if live(s[n - 1]) { 1int } else { 0int }
    }
}

/// The dirty hashes among the first `n` slots.
pub open spec fn live_prefix(s: Seq<u64>, n: int) -> Set<u64> {
    Set::new(|h: u64| live(h) && s.take(n).contains(h))
}

proof fn lemma_live_prefix(s: Seq<u64>, n: int)
    requires
        table_wf(s),
        0 <= n <= DIRTY_TRACKER_SIZE,
    ensures
        live_prefix(s, n).finite(),
        live_prefix(s, n).len() == live_count(s, n),
        0 <= live_count(s, n) <= n,
        live_count(s, n) == n <==> forall|i: int| 0 <= i < n ==> live(#[trigger] s[i]),
    decreases n,
{
    if n == 0 {
        assert(live_prefix(s, 0) =~= Set::<u64>::empty());
    } else {
        lemma_live_prefix(s, n - 1);
        let v = s[n - 1];
        let t0 = s.take(n - 1);
        let t1 = s.take(n);
        assert forall|x: u64| t1.contains(x) <==> (t0.contains(x) || x == v) by {
            if t1.contains(x) {
                let j = choose|j: int| 0 <= j < t1.len() && t1[j] == x;
                if j < n - 1 {
                    assert(t0[j] == x);
                }
            }
            if t0.contains(x) {
                let j = choose|j: int| 0 <= j < t0.len() && t0[j] == x;
                assert(t1[j] == x);
            }
            if x == v {
                assert(t1[n - 1] == x);
            }
        }
        if live(v) {
            assert(!live_prefix(s, n - 1).contains(v)) by {
                if live_prefix(s, n - 1).contains(v) {
                    let j = choose|j: int| 0 <= j < t0.len() && t0[j] == v;
                    assert(s[j] == v);
                }
            }
            assert(live_prefix(s, n) =~= live_prefix(s, n - 1).insert(v));
        } else {
            assert(live_prefix(s, n) =~= live_prefix(s, n - 1));
        }
        if live_count(s, n) == n {
            assert forall|i: int| 0 <= i < n implies live(#[trigger] s[i]) by {
                if i < n - 1 {
                    assert(live_count(s, n - 1) == n - 1);
                }
            }
        }
    }
}

/// The dirty set is finite, and smaller than the table exactly when some
/// slot holds no dirty path.
proof fn lemma_dirty_room(s: Seq<u64>)
    requires
        table_wf(s),
    ensures
        dirty_set(s).finite(),
        dirty_set(s).len() <= DIRTY_TRACKER_SIZE,
        dirty_set(s).len() < DIRTY_TRACKER_SIZE <==> has_room(s),
{
    lemma_live_prefix(s, DIRTY_TRACKER_SIZE as int);
    assert(s.take(DIRTY_TRACKER_SIZE as int) =~= s);
    assert(live_prefix(s, DIRTY_TRACKER_SIZE as int) =~= dirty_set(s));
}

/// Probing for `h` has one first stop.
proof fn lemma_first_stop_unique(s: Seq<u64>, h: u64, k: int)
    requires
        first_stop(s, h, k),
    ensures
        forall|k2: int| #[trigger] first_stop(s, h, k2) ==> k2 == k,
{
    assert forall|k2: int| #[trigger] first_stop(s, h, k2) implies k2 == k by {
        if k2 < k {
            assert(!stops(s, h, k2));
        } else if k < k2 {
            assert(!stops(s, h, k));
        }
    }
}

/// Writing `h` into the first free slot of its probe sequence keeps the
/// table well formed and adds `h` (when it is a dirty-path hash) to the set.
proof fn lemma_place(s: Seq<u64>, h: u64, k: int)
    requires
        table_wf(s),
        h != 0,
        first_free(s, h, k),
        live(h) ==> !dirty_set(s).contains(h),
    ensures
        table_wf(s.update(probe(h, k), h)),
        dirty_set(s.update(probe(h, k), h)) == if live(h) { dirty_set(s).insert(h) } else { dirty_set(s) },
{
    let slot = probe(h, k);
    lemma_probe_range(h, k);
    let t = s.update(slot, h);
    assert forall|i: int| #![trigger t[i]]
        0 <= i < DIRTY_TRACKER_SIZE && live(t[i]) implies exists|d: int| reaches(t, t[i], i, d) by {
        if i == slot {
            assert forall|j: int| 0 <= j < k implies t[probe(h, j)] != 0 by {
                lemma_probe_range(h, j);
                assert(live(s[probe(h, j)]));
                if probe(h, j) == slot {
                    lemma_probe_injective(h, j, k);
                }
            }
            assert(reaches(t, t[i], i, k));
        } else {
            assert(s[i] == t[i]);
            let d = choose|d: int| reaches(s, s[i], i, d);
            assert forall|j: int| 0 <= j < d implies t[probe(s[i], j)] != 0 by {
                lemma_probe_range(s[i], j);
            }
            assert(reaches(t, t[i], i, d));
        }
    }
    assert forall|i: int, j: int|
        0 <= i < DIRTY_TRACKER_SIZE && 0 <= j < DIRTY_TRACKER_SIZE && live(t[i]) && t[i] == t[j]
        implies i == j by {
        if i == slot && j != slot {
            assert(s[j] == h);
            assert(s.contains(h));
        } else if j == slot && i != slot {
            assert(s[i] == h);
            assert(s.contains(h));
        }
    }
    if live(h) {
        assert(dirty_set(t) =~= dirty_set(s).insert(h)) by {
            assert forall|x: u64| live(x) && t.contains(x) implies x == h || s.contains(x) by {
                let i = choose|i: int| 0 <= i < t.len() && t[i] == x;
                if i != slot {
                    assert(s[i] == x);
                }
            }
            assert forall|x: u64| live(x) && s.contains(x) implies t.contains(x) by {
                let i = choose|i: int| 0 <= i < s.len() && s[i] == x;
                assert(i != slot);
                assert(t[i] == x);
            }
            assert(t[slot] == h);
        }
    } else {
        assert(dirty_set(t) =~= dirty_set(s)) by {
            assert forall|x: u64| live(x) && t.contains(x) implies s.contains(x) by {
                let i = choose|i: int| 0 <= i < t.len() && t[i] == x;
                if i != slot {
                    assert(s[i] == x);
                }
            }
            assert forall|x: u64| live(x) && s.contains(x) implies t.contains(x) by {
                let i = choose|i: int| 0 <= i < s.len() && s[i] == x;
                assert(i != slot);
                assert(t[i] == x);
            }
        }
    }
}

impl DirtyTracker {
    /// Well-formedness of the tracker's table.
    pub open spec fn wf(&self) -> bool {
        table_wf(self@)
    }

    /// The set of dirty path hashes.
    pub open spec fn dirty(&self) -> Set<u64> {
        dirty_set(self@)
    }

    /// An empty tracker.
    pub fn new() -> (t: Self)
        ensures
            t.wf(),
            t@ == Seq::new(DIRTY_TRACKER_SIZE as nat, |i: int| 0u64),
            t.dirty() == Set::<u64>::empty(),
    {
        let mut slots: Vec<u64> = Vec::new();
        let mut i: usize = 0;
        while i < DIRTY_TRACKER_SIZE
            invariant
                0 <= i <= DIRTY_TRACKER_SIZE,
                slots@.len() == i,
                forall|j: int| 0 <= j < i ==> slots@[j] == 0,
            decreases DIRTY_TRACKER_SIZE - i,
        {
            slots.push(0);
            i = i + 1;
        }
        let t = DirtyTracker { slots };
        assert(t@ =~= Seq::new(DIRTY_TRACKER_SIZE as nat, |i: int| 0u64));
        assert(t.dirty() =~= Set::<u64>::empty());
        t
    }

    /// Probe for `hash`; returns the first step at which probing stops, if any.
    fn find_stop(&self, hash: u64) -> (r: Option<usize>)
        requires
            self@.len() == DIRTY_TRACKER_SIZE,
        ensures
            match r {
                Some(k) => first_stop(self@, hash, k as int),
                None => never_stops(self@, hash),
            },
    {
        let start: usize = (hash % (DIRTY_TRACKER_SIZE as u64)) as usize;
        let mut i: usize = 0;
        while i < DIRTY_TRACKER_SIZE
            invariant
                self@.len() == DIRTY_TRACKER_SIZE,
                start as int == home(hash),
                0 <= i <= DIRTY_TRACKER_SIZE,
                forall|j: int| 0 <= j < i ==> !stops(self@, hash, j),
            decreases DIRTY_TRACKER_SIZE - i,
        {
            let mut slot = start + i;
            if slot >= DIRTY_TRACKER_SIZE {
                slot = slot - DIRTY_TRACKER_SIZE;
            }
            assert(slot as int == probe(hash, i as int));
            let current = self.slots[slot];
            if current == 0 || current == hash {
                return Some(i);
            }
            i = i + 1;
        }
        None
    }

    /// Slot index of the `k`-th probe step of `hash`.
    fn probe_slot(hash: u64, k: usize) -> (slot: usize)
        requires
            k < DIRTY_TRACKER_SIZE,
        ensures
            slot as int == probe(hash, k as int),
            slot < DIRTY_TRACKER_SIZE,
    {
        let start: usize = (hash % (DIRTY_TRACKER_SIZE as u64)) as usize;
        let slot = start + k;
        if slot >= DIRTY_TRACKER_SIZE {
            slot - DIRTY_TRACKER_SIZE
        } else {
            slot
        }
    }

    /// Mark a path as dirty. Returns true if it is now marked; false if its
    /// hash is the reserved 0, or if it was not marked and every slot holds
    /// a dirty path (the table is full). A new mark takes the first slot on
    /// its probe sequence that holds no dirty path (empty or cleared).
    pub fn mark_dirty(&mut self, path: &str) -> (r: bool)
        requires
            old(self).wf(),
        ensures
            final(self).wf(),
            ({
                let h = path_hash(path);
                let s = old(self)@;
                &&& h == 0 ==> !r && final(self)@ == s
                &&& h != 0 && dirty_set(s).contains(h) ==> r && final(self)@ == s
                &&& h != 0 && !dirty_set(s).contains(h) && has_room(s) ==> r && exists|k: int|
                    #[trigger] first_free(s, h, k) && final(self)@ == s.update(probe(h, k), h)
                &&& h != 0 && !dirty_set(s).contains(h) && !has_room(s) ==> !r && final(self)@ == s
            }),
            // In terms of the dirty set and its size:
            old(self).dirty().finite(),
            live(path_hash(path)) ==> r == (old(self).dirty().contains(path_hash(path))
                || old(self).dirty().len() < DIRTY_TRACKER_SIZE),
            live(path_hash(path)) ==> final(self).dirty() == (if r {
                old(self).dirty().insert(path_hash(path))
            } else {
                old(self).dirty()
            }),
            !live(path_hash(path)) ==> final(self).dirty() == old(self).dirty(),
    {
        let hash = fnv1a_hash(path);
        let ghost s = self@;
        proof {
            lemma_dirty_room(s);
        }
        if hash == 0 {
            return false;
        }
        let mut tomb: Option<usize> = None;
        let mut i: usize = 0;
        while i < DIRTY_TRACKER_SIZE
            invariant
                self@ == s,
                s == old(self)@,
                table_wf(s),
                dirty_set(s).finite(),
                dirty_set(s).len() < DIRTY_TRACKER_SIZE <==> has_room(s),
                hash == path_hash(path),
                hash != 0,
                0 <= i <= DIRTY_TRACKER_SIZE,
                forall|j: int| 0 <= j < i ==> !stops(s, hash, j),
                tomb matches Some(t) ==> t < i && first_free(s, hash, t as int),
                tomb is None ==> forall|j: int| 0 <= j < i ==> live(#[trigger] s[probe(hash, j)]),
            decreases DIRTY_TRACKER_SIZE - i,
        {
            let slot = Self::probe_slot(hash, i);
            let current = self.slots[slot];
            if current == hash {
                proof {
                    lemma_probe_range(hash, i as int);
                    assert(s.contains(hash));
                    if hash == TOMBSTONE {
                        assert forall|j: int| 0 <= j < i implies live(#[trigger] s[probe(hash, j)]) by {
                            assert(!stops(s, hash, j));
                        }
                        assert(first_free(s, hash, i as int));
                        assert(has_room(s));
                        assert(s.update(probe(hash, i as int), hash) =~= s);
                    }
                }
                return true;
            }
            if current == 0 {
                let k: usize = match tomb {
                    Some(t) => t,
                    None => i,
                };
                proof {
                    if tomb is None {
                        assert(first_free(s, hash, i as int));
                    }
                    assert(first_stop(s, hash, i as int));
                    if live(hash) {
                        lemma_first_stop_decides(s, hash);
                        lemma_first_stop_unique(s, hash, i as int);
                    }
                }
                self.place(hash, k);
                return true;
            }
            if current == TOMBSTONE && tomb.is_none() {
                proof {
                    assert(first_free(s, hash, i as int));
                }
                tomb = Some(i);
            }
            i = i + 1;
        }
        proof {
            assert(never_stops(s, hash));
            if live(hash) {
                lemma_first_stop_decides(s, hash);
            }
        }
        match tomb {
            Some(t) => {
                self.place(hash, t);
                true
            },
            None => {
                proof {
                    assert forall|e: int| 0 <= e < DIRTY_TRACKER_SIZE implies live(#[trigger] s[e]) by {
                        let k = if e >= home(hash) { e - home(hash) } else { e + DIRTY_TRACKER_SIZE - home(hash) };
                        assert(probe(hash, k) == e);
                        assert(live(s[probe(hash, k)]));
                    }
                    assert(!has_room(s));
                }
                false
            },
        }
    }

    /// Write `hash` into the first free slot `k` of its probe sequence.
    fn place(&mut self, hash: u64, k: usize)
        requires
            table_wf(old(self)@),
            hash != 0,
            k < DIRTY_TRACKER_SIZE,
            first_free(old(self)@, hash, k as int),
            live(hash) ==> !dirty_set(old(self)@).contains(hash),
        ensures
            final(self)@ == old(self)@.update(probe(hash, k as int), hash),
            table_wf(final(self)@),
            dirty_set(final(self)@) == if live(hash) {
                dirty_set(old(self)@).insert(hash)
            } else {
                dirty_set(old(self)@)
            },
    {
        let ghost s = self@;
        let slot = Self::probe_slot(hash, k);
        self.slots.set(slot, hash);
        proof {
            lemma_place(s, hash, k as int);
        }
    }

    /// Clear the dirty status of a path (after its staging file was committed).
    pub fn clear_dirty(&mut self, path: &str)
        requires
            old(self).wf(),
        ensures
            final(self).wf(),
            ({
                let h = path_hash(path);
                let s = old(self)@;
                &&& h == 0 ==> final(self)@ == s
                &&& h != 0 && never_stops(s, h) ==> final(self)@ == s
                &&& forall|k: int| #![trigger first_stop(s, h, k)]
                    h != 0 && first_stop(s, h, k) ==> {
                        &&& s[probe(h, k)] == h ==> final(self)@ == s.update(probe(h, k), TOMBSTONE)
                        &&& s[probe(h, k)] != h ==> final(self)@ == s
                    }
            }),
            final(self).dirty() == old(self).dirty().remove(path_hash(path)),
    {
        let hash = fnv1a_hash(path);
        let ghost s = self@;
        if hash == 0 {
            proof {
                assert(dirty_set(s).remove(hash) =~= dirty_set(s));
            }
            return;
        }
        match self.find_stop(hash) {
            None => {
                proof {
                    if live(hash) {
                        lemma_first_stop_decides(s, hash);
                    }
                    assert(dirty_set(s).remove(hash) =~= dirty_set(s));
                }
            },
            Some(k) => {
                let slot = Self::probe_slot(hash, k);
                if self.slots[slot] == hash {
                    self.slots.set(slot, TOMBSTONE);
                    proof {
                        let t = self@;
                        assert forall|i: int| #![trigger t[i]]
                            0 <= i < DIRTY_TRACKER_SIZE && live(t[i]) implies exists|d: int| reaches(t, t[i], i, d) by {
                            assert(s[i] == t[i]);
                            let d = choose|d: int| reaches(s, s[i], i, d);
                            assert forall|j: int| 0 <= j < d implies t[probe(s[i], j)] != 0 by {
                                lemma_probe_range(s[i], j);
                            }
                            assert(reaches(t, t[i], i, d));
                        }
                        assert forall|i: int, j: int|
                            0 <= i < DIRTY_TRACKER_SIZE && 0 <= j < DIRTY_TRACKER_SIZE && live(t[i]) && t[i] == t[j]
                            implies i == j by {
                            assert(s[i] == t[i]);
                            assert(s[j] == t[j]);
                        }
                        assert(dirty_set(t) =~= dirty_set(s).remove(hash)) by {
                            assert forall|x: u64| live(x) && t.contains(x) implies s.contains(x) && x != hash by {
                                let i = choose|i: int| 0 <= i < t.len() && t[i] == x;
                                assert(s[i] == x);
                            }
                            assert forall|x: u64| live(x) && s.contains(x) && x != hash implies t.contains(x) by {
                                let i = choose|i: int| 0 <= i < s.len() && s[i] == x;
                                assert(t[i] == x);
                            }
                        }
                    }
                } else {
                    proof {
                        if live(hash) {
                            lemma_first_stop_decides(s, hash);
                            if dirty_set(s).contains(hash) {
                                let k2 = choose|k2: int| first_stop(s, hash, k2) && s[probe(hash, k2)] == hash;
                                if k2 < k { } else if k < k2 { } else { }
                            }
                        }
                        assert(dirty_set(s).remove(hash) =~= dirty_set(s));
                    }
                }
            },
        }
    }

    /// Whether a path is dirty (has pending writes).
    pub fn is_dirty(&self, path: &str) -> (r: bool)
        requires
            self.wf(),
        ensures
            r == (path_hash(path) != 0 && exists|k: int|
                first_stop(self@, path_hash(path), k) && self@[probe(path_hash(path), k)] == path_hash(path)),
            path_hash(path) != TOMBSTONE ==> r == self.dirty().contains(path_hash(path)),
    {
        let hash = fnv1a_hash(path);
        if hash == 0 {
            return false;
        }
        proof {
            if live(hash) {
                lemma_first_stop_decides(self@, hash);
            }
        }
        match self.find_stop(hash) {
            None => false,
            Some(k) => {
                let slot = Self::probe_slot(hash, k);
                let r = self.slots[slot] == hash;
                proof {
                    assert forall|k2: int| first_stop(self@, hash, k2) implies k2 == k as int by {
                        if k2 < k { assert(!stops(self@, hash, k2)); } else if k < k2 { assert(!stops(self@, hash, k as int)); }
                    }
                }
                r
            },
        }
    }

    /// Number of dirty entries.
    pub fn count(&self) -> (n: usize)
        requires
            self.wf(),
        ensures
            n == self.dirty().len(),
            self.dirty().finite(),
    {
        let mut n: usize = 0;
        let mut i: usize = 0;
        let ghost mut acc: Set<u64> = Set::empty();
        while i < DIRTY_TRACKER_SIZE
            invariant
                self.wf(),
                0 <= i <= DIRTY_TRACKER_SIZE,
                acc == Set::new(|h: u64| live(h) && self@.take(i as int).contains(h)),
                acc.finite(),
                n == acc.len(),
                n <= i,
            decreases DIRTY_TRACKER_SIZE - i,
        {
            let v = self.slots[i];
            let ghost s = self@;
            proof {
                let next = Set::new(|h: u64| live(h) && s.take(i + 1).contains(h));
                assert(s.take(i + 1) =~= s.take(i as int).push(v));
                let t0 = s.take(i as int);
                let t1 = s.take(i + 1);
                assert forall|x: u64| t1.contains(x) <==> (t0.contains(x) || x == v) by {
                    if t1.contains(x) {
                        let j = choose|j: int| 0 <= j < t1.len() && t1[j] == x;
                        if j < i {
                            assert(t0[j] == x);
                        }
                    }
                    if t0.contains(x) {
                        let j = choose|j: int| 0 <= j < t0.len() && t0[j] == x;
                        assert(t1[j] == x);
                    }
                    if x == v {
                        assert(t1[i as int] == x);
                    }
                }
                if live(v) {
                    assert(!acc.contains(v)) by {
                        if acc.contains(v) {
                            let j = choose|j: int| 0 <= j < s.take(i as int).len() && s.take(i as int)[j] == v;
                            assert(s[j] == v);
                        }
                    }
                    assert(next =~= acc.insert(v));
                } else {
                    assert(next =~= acc);
                }
                acc = next;
            }
            if v != 0 && v != TOMBSTONE {
                n = n + 1;
            }
            i = i + 1;
        }
        proof {
            assert(self@.take(DIRTY_TRACKER_SIZE as int) =~= self@);
        }
        n
    }
}

} // verus!
