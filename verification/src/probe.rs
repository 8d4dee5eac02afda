//! Open addressing with linear probing, as used by the stat table and the
//! directory index of the manifest mmap image: where a sequence of keys is
//! placed, and what a probing lookup finds afterwards.
use vstd::prelude::*;

verus! {

/// Slot where probing for `h` starts in a table of `cap` slots.
pub open spec fn home_slot(h: u64, cap: int) -> int {
    ((h as usize) as int) % cap
}

/// The `k`-th slot visited when probing for `h` (for `0 <= k < cap`).
pub open spec fn probe_slot(h: u64, cap: int, k: int) -> int {
    if home_slot(h, cap) + k < cap {
        home_slot(h, cap) + k
    } else {
        home_slot(h, cap) + k - cap
    }
}

/// A table of owners: for each slot, the index of the key stored there, or -1.
/// A slot counts as free when it has no owner or its owner's key is 0.
pub open spec fn free_at(hs: Seq<u64>, own: Seq<int>, s: int) -> bool {
    own[s] < 0 || hs[own[s]] == 0
}

/// The first probe step at or after `k` that reaches a free slot.
pub open spec fn first_free_from(hs: Seq<u64>, own: Seq<int>, h: u64, cap: int, k: int) -> Option<int>
    decreases cap - k,
{
    if k < 0 || k >= cap {
        None
    } else if free_at(hs, own, probe_slot(h, cap, k)) {
        Some(k)
    } else {
        first_free_from(hs, own, h, cap, k + 1)
    }
}

/// Owners after inserting the first `n` keys of `hs`, in order, each at the
/// first free slot of its probe sequence (a key with no free slot is dropped).
pub open spec fn placement(hs: Seq<u64>, n: int, cap: int) -> Seq<int>
    decreases n,
{
    if n <= 0 {
        Seq::new(cap as nat, |s: int| -1int)
    } else {
        let own = placement(hs, n - 1, cap);
        match first_free_from(hs, own, hs[n - 1], cap, 0) {
            Some(k) => own.update(probe_slot(hs[n - 1], cap, k), n - 1),
            None => own,
        }
    }
}

/// The slot chosen for key `i` when it was inserted (0 if it found none).
pub open spec fn chosen_slot(hs: Seq<u64>, i: int, cap: int) -> int {
    match first_free_from(hs, placement(hs, i, cap), hs[i], cap, 0) {
        Some(k) => probe_slot(hs[i], cap, k),
        None => 0,
    }
}

/// Key stored in slot `s` under the owners `own` (0 when the slot has no owner).
pub open spec fn slot_key(hs: Seq<u64>, own: Seq<int>, s: int) -> u64 {
    if own[s] >= 0 {
        hs[own[s]]
    } else {
        0
    }
}

/// Probing lookup over slot keys `keys`, with `empty` marking slots that end
/// the search: the slot of the first probe step at or after `k` that holds
/// `h`, unless an empty slot comes first.
pub open spec fn lookup_from(keys: Seq<u64>, empty: Seq<bool>, h: u64, cap: int, k: int) -> Option<int>
    decreases cap - k,
{
    if k < 0 || k >= cap {
        None
    } else if empty[probe_slot(h, cap, k)] {
        None
    } else if keys[probe_slot(h, cap, k)] == h {
        Some(probe_slot(h, cap, k))
    } else {
        lookup_from(keys, empty, h, cap, k + 1)
    }
}

/// The first index below `n` whose key is `h`, searching from `i`.
pub open spec fn first_index_from(hs: Seq<u64>, n: int, h: u64, i: int) -> Option<int>
    decreases n - i,
{
    if i < 0 || i >= n {
        None
    } else if hs[i] == h {
        Some(i)
    } else {
        first_index_from(hs, n, h, i + 1)
    }
}

/// Number of slots that have an owner.
pub open spec fn count_owned(own: Seq<int>) -> nat
    decreases own.len(),
{
    if own.len() == 0 {
        0
    } else {
        count_owned(own.drop_last()) + if own.last() >= 0 {
            1nat
        } else {
            0nat
        }
    }
}

/// Key `i` owns some slot.
pub open spec fn is_placed(own: Seq<int>, cap: int, i: int) -> bool {
    exists|s: int| 0 <= s < cap && own[s] == i
}

/// Invariant of a placement of the first `n` keys (all nonzero): owners are
/// distinct indices below `n`, and every owned slot is reached from its key's
/// home slot through slots owned by keys inserted before it.
pub open spec fn placement_inv(hs: Seq<u64>, n: int, cap: int, own: Seq<int>) -> bool {
    &&& own.len() == cap
    &&& forall|s: int| 0 <= s < cap ==> -1 <= #[trigger] own[s] < n
    &&& forall|s1: int, s2: int| 0 <= s1 < cap && 0 <= s2 < cap && own[s1] >= 0 && s1 != s2 ==> own[s1] != own[s2]
    &&& forall|s: int| #![trigger own[s]] 0 <= s < cap && own[s] >= 0 ==> exists|d: int| {
        &&& 0 <= d < cap
        &&& probe_slot(hs[own[s]], cap, d) == s
        &&& forall|e: int| 0 <= e < d ==> 0 <= #[trigger] own[probe_slot(hs[own[s]], cap, e)] < own[s]
    }
    &&& forall|i: int| 0 <= i < n ==> #[trigger] is_placed(own, cap, i)
    &&& count_owned(own) == n
}

pub proof fn lemma_probe_range(h: u64, cap: int, k: int)
    requires
        0 < cap,
        0 <= k < cap,
    ensures
        0 <= probe_slot(h, cap, k) < cap,
{
}

pub proof fn lemma_probe_injective(h: u64, cap: int, k1: int, k2: int)
    requires
        0 < cap,
        0 <= k1 < cap,
        0 <= k2 < cap,
        probe_slot(h, cap, k1) == probe_slot(h, cap, k2),
    ensures
        k1 == k2,
{
}

/// Every slot is visited by the probe sequence of every key.
pub proof fn lemma_probe_covers(h: u64, cap: int, s: int) -> (k: int)
    requires
        0 < cap,
        0 <= s < cap,
    ensures
        0 <= k < cap,
        probe_slot(h, cap, k) == s,
{
    if s >= home_slot(h, cap) {
        s - home_slot(h, cap)
    } else {
        s + cap - home_slot(h, cap)
    }
}

pub proof fn lemma_first_free_some(hs: Seq<u64>, own: Seq<int>, h: u64, cap: int, k: int)
    requires
        0 <= k,
        first_free_from(hs, own, h, cap, k) is Some,
    ensures
        ({
            let f = first_free_from(hs, own, h, cap, k)->0;
            &&& k <= f < cap
            &&& free_at(hs, own, probe_slot(h, cap, f))
            &&& forall|j: int| k <= j < f ==> !free_at(hs, own, #[trigger] probe_slot(h, cap, j))
        }),
    decreases cap - k,
{
    if k < cap && !free_at(hs, own, probe_slot(h, cap, k)) {
        lemma_first_free_some(hs, own, h, cap, k + 1);
    }
}

pub proof fn lemma_first_free_none(hs: Seq<u64>, own: Seq<int>, h: u64, cap: int, k: int)
    requires
        0 <= k,
        first_free_from(hs, own, h, cap, k) is None,
    ensures
        forall|j: int| k <= j < cap ==> !free_at(hs, own, #[trigger] probe_slot(h, cap, j)),
    decreases cap - k,
{
    if k < cap {
        lemma_first_free_none(hs, own, h, cap, k + 1);
    }
}

proof fn lemma_count_bound(own: Seq<int>)
    ensures
        count_owned(own) <= own.len(),
        count_owned(own) < own.len() ==> exists|s: int| 0 <= s < own.len() && own[s] < 0,
    decreases own.len(),
{
    if own.len() > 0 {
        lemma_count_bound(own.drop_last());
        if count_owned(own) < own.len() && own.last() >= 0 {
            let s = choose|s: int| 0 <= s < own.drop_last().len() && own.drop_last()[s] < 0;
            assert(own[s] < 0);
        }
    }
}

proof fn lemma_count_update(own: Seq<int>, s: int, v: int)
    requires
        0 <= s < own.len(),
        own[s] < 0,
        v >= 0,
    ensures
        count_owned(own.update(s, v)) == count_owned(own) + 1,
    decreases own.len(),
{
    let u = own.update(s, v);
    if s == own.len() - 1 {
        assert(u.drop_last() =~= own.drop_last());
    } else {
        assert(u.drop_last() =~= own.drop_last().update(s, v));
        lemma_count_update(own.drop_last(), s, v);
    }
}

/// While fewer than `cap` keys are placed, every key finds a free slot.
proof fn lemma_free_exists(hs: Seq<u64>, n: int, cap: int, own: Seq<int>, h: u64)
    requires
        0 < cap,
        n < cap,
        0 <= n <= hs.len(),
        placement_inv(hs, n, cap, own),
    ensures
        first_free_from(hs, own, h, cap, 0) is Some,
{
    lemma_count_bound(own);
    let s = choose|s: int| 0 <= s < own.len() && own[s] < 0;
    let k = lemma_probe_covers(h, cap, s);
    if first_free_from(hs, own, h, cap, 0) is None {
        lemma_first_free_none(hs, own, h, cap, 0);
        assert(!free_at(hs, own, probe_slot(h, cap, k)));
    }
}

/// The placement invariant holds after every prefix, as long as the keys are
/// nonzero and there are at most `cap` of them.
pub proof fn lemma_placement_inv(hs: Seq<u64>, n: int, cap: int)
    requires
        0 < cap,
        0 <= n <= hs.len(),
        n <= cap,
        forall|i: int| 0 <= i < n ==> hs[i] != 0,
    ensures
        placement_inv(hs, n, cap, placement(hs, n, cap)),
    decreases n,
{
    if n == 0 {
        let own = placement(hs, 0, cap);
        assert(count_owned(own) == 0) by {
            lemma_count_zero(own);
        }
    } else {
        let m = n - 1;
        lemma_placement_inv(hs, m, cap);
        let own = placement(hs, m, cap);
        let h = hs[m];
        lemma_free_exists(hs, m, cap, own, h);
        lemma_first_free_some(hs, own, h, cap, 0);
        let k = first_free_from(hs, own, h, cap, 0)->0;
        let s0 = probe_slot(h, cap, k);
        lemma_probe_range(h, cap, k);
        let own2 = own.update(s0, m);
        assert(placement(hs, n, cap) == own2);
        // the chosen slot had no owner: owners' keys are nonzero
        assert(own[s0] < 0);
        lemma_count_update(own, s0, m);
        assert forall|s: int| #![trigger own2[s]] 0 <= s < cap && own2[s] >= 0 implies exists|d: int| {
            &&& 0 <= d < cap
            &&& probe_slot(hs[own2[s]], cap, d) == s
            &&& forall|e: int| 0 <= e < d ==> 0 <= #[trigger] own2[probe_slot(hs[own2[s]], cap, e)] < own2[s]
        } by {
            if s == s0 {
                assert forall|e: int| 0 <= e < k implies 0 <= #[trigger] own2[probe_slot(h, cap, e)] < own2[s] by {
                    lemma_probe_range(h, cap, e);
                    assert(!free_at(hs, own, probe_slot(h, cap, e)));
                    if probe_slot(h, cap, e) == s0 {
                        lemma_probe_injective(h, cap, e, k);
                    }
                }
            } else {
                assert(own2[s] == own[s]);
                let d = choose|d: int| {
                    &&& 0 <= d < cap
                    &&& probe_slot(hs[own[s]], cap, d) == s
                    &&& forall|e: int| 0 <= e < d ==> 0 <= #[trigger] own[probe_slot(hs[own[s]], cap, e)] < own[s]
                };
                assert forall|e: int| 0 <= e < d implies 0 <= #[trigger] own2[probe_slot(hs[own2[s]], cap, e)] < own2[s] by {
                    lemma_probe_range(hs[own[s]], cap, e);
                    assert(0 <= own[probe_slot(hs[own[s]], cap, e)]);
                }
            }
        }
        assert forall|i: int| 0 <= i < n implies #[trigger] is_placed(own2, cap, i) by {
            if i == m {
                assert(own2[s0] == m);
            } else {
                assert(is_placed(own, cap, i));
                let s = choose|s: int| 0 <= s < cap && own[s] == i;
                assert(own2[s] == i);
            }
        }
    }
}

proof fn lemma_count_zero(own: Seq<int>)
    requires
        forall|s: int| 0 <= s < own.len() ==> own[s] < 0,
    ensures
        count_owned(own) == 0,
    decreases own.len(),
{
    if own.len() > 0 {
        lemma_count_zero(own.drop_last());
    }
}

pub proof fn lemma_first_index_some(hs: Seq<u64>, n: int, h: u64, i: int)
    requires
        0 <= i,
        first_index_from(hs, n, h, i) is Some,
    ensures
        ({
            let f = first_index_from(hs, n, h, i)->0;
            &&& i <= f < n
            &&& hs[f] == h
            &&& forall|j: int| i <= j < f ==> hs[j] != h
        }),
    decreases n - i,
{
    if i < n && hs[i] != h {
        lemma_first_index_some(hs, n, h, i + 1);
    }
}

pub proof fn lemma_first_index_none(hs: Seq<u64>, n: int, h: u64, i: int)
    requires
        0 <= i,
        first_index_from(hs, n, h, i) is None,
    ensures
        forall|j: int| i <= j < n ==> hs[j] != h,
    decreases n - i,
{
    if i < n {
        lemma_first_index_none(hs, n, h, i + 1);
    }
}

/// Lookup stops at the first probe step from `k` whose slot is empty or holds `h`.
pub proof fn lemma_lookup_at(keys: Seq<u64>, empty: Seq<bool>, h: u64, cap: int, k: int, d: int)
    requires
        0 <= k <= d < cap,
        forall|e: int| k <= e < d ==> !empty[#[trigger] probe_slot(h, cap, e)] && keys[probe_slot(h, cap, e)] != h,
    ensures
        lookup_from(keys, empty, h, cap, k) == lookup_from(keys, empty, h, cap, d),
    decreases d - k,
{
    if k < d {
        assert(!empty[probe_slot(h, cap, k)] && keys[probe_slot(h, cap, k)] != h);
        lemma_lookup_at(keys, empty, h, cap, k + 1, d);
    }
}

/// Lookup finds nothing when no slot holds `h`.
pub proof fn lemma_lookup_absent(keys: Seq<u64>, empty: Seq<bool>, h: u64, cap: int, k: int)
    requires
        0 <= k,
        forall|e: int| k <= e < cap && !empty[#[trigger] probe_slot(h, cap, e)] ==> keys[probe_slot(h, cap, e)] != h,
    ensures
        lookup_from(keys, empty, h, cap, k) is None,
    decreases cap - k,
{
    if k < cap && !empty[probe_slot(h, cap, k)] {
        lemma_lookup_absent(keys, empty, h, cap, k + 1);
    }
}

/// Slot keys of a table of owners.
pub open spec fn owner_keys(hs: Seq<u64>, own: Seq<int>, cap: int) -> Seq<u64> {
    Seq::new(cap as nat, |s: int| slot_key(hs, own, s))
}

proof fn lemma_lookup_present(hs: Seq<u64>, n: int, cap: int, empty: Seq<bool>, h: u64, i0: int)
    requires
        0 < cap,
        0 <= n <= hs.len(),
        n <= cap,
        forall|i: int| 0 <= i < n ==> hs[i] != 0,
        empty.len() == cap,
        forall|s: int| 0 <= s < cap ==> (empty[s] <==> placement(hs, n, cap)[s] < 0),
        placement_inv(hs, n, cap, placement(hs, n, cap)),
        0 <= i0 < n,
        hs[i0] == h,
        forall|j: int| 0 <= j < i0 ==> hs[j] != h,
    ensures
        lookup_from(owner_keys(hs, placement(hs, n, cap), cap), empty, h, cap, 0) matches Some(s)
            && 0 <= s < cap && placement(hs, n, cap)[s] == i0,
{
    let own = placement(hs, n, cap);
    let keys = owner_keys(hs, own, cap);
    assert(is_placed(own, cap, i0));
    let s0 = choose|s: int| 0 <= s < cap && own[s] == i0;
    assert(own[s0] >= 0);
    let d = choose|d: int| {
        &&& 0 <= d < cap
        &&& probe_slot(hs[own[s0]], cap, d) == s0
        &&& forall|e: int| 0 <= e < d ==> 0 <= #[trigger] own[probe_slot(hs[own[s0]], cap, e)] < own[s0]
    };
    assert forall|e: int| 0 <= e < d implies !empty[#[trigger] probe_slot(h, cap, e)] && keys[probe_slot(h, cap, e)] != h by {
        lemma_probe_range(h, cap, e);
        let j = own[probe_slot(h, cap, e)];
        assert(0 <= j < i0);
    }
    lemma_lookup_at(keys, empty, h, cap, 0, d);
    assert(!empty[s0]);
    assert(keys[s0] == h);
}

proof fn lemma_lookup_missing(hs: Seq<u64>, n: int, cap: int, empty: Seq<bool>, h: u64)
    requires
        0 < cap,
        0 <= n <= hs.len(),
        empty.len() == cap,
        forall|s: int| 0 <= s < cap ==> (empty[s] <==> placement(hs, n, cap)[s] < 0),
        placement_inv(hs, n, cap, placement(hs, n, cap)),
        forall|j: int| 0 <= j < n ==> hs[j] != h,
    ensures
        lookup_from(owner_keys(hs, placement(hs, n, cap), cap), empty, h, cap, 0) is None,
{
    let own = placement(hs, n, cap);
    let keys = owner_keys(hs, own, cap);
    assert forall|e: int| 0 <= e < cap && !empty[#[trigger] probe_slot(h, cap, e)] implies keys[probe_slot(h, cap, e)] != h by {
        lemma_probe_range(h, cap, e);
        let j = own[probe_slot(h, cap, e)];
        assert(0 <= j < n);
    }
    lemma_lookup_absent(keys, empty, h, cap, 0);
}

/// After placing `n <= cap` nonzero keys, a probing lookup of `h` (where
/// exactly the unowned slots are empty) finds the slot of the first key equal
/// to `h`, or nothing if no key equals `h`.
pub proof fn lemma_lookup_placement(hs: Seq<u64>, n: int, cap: int, empty: Seq<bool>, h: u64)
    requires
        0 < cap,
        0 <= n <= hs.len(),
        n <= cap,
        forall|i: int| 0 <= i < n ==> hs[i] != 0,
        empty.len() == cap,
        forall|s: int| 0 <= s < cap ==> (empty[s] <==> placement(hs, n, cap)[s] < 0),
    ensures
        ({
            let own = placement(hs, n, cap);
            let keys = owner_keys(hs, own, cap);
            match first_index_from(hs, n, h, 0) {
                Some(i) => lookup_from(keys, empty, h, cap, 0) matches Some(s) && 0 <= s < cap && own[s] == i,
                None => lookup_from(keys, empty, h, cap, 0) is None,
            }
        }),
{
    lemma_placement_inv(hs, n, cap);
    match first_index_from(hs, n, h, 0) {
        Some(i0) => {
            lemma_first_index_some(hs, n, h, 0);
            lemma_lookup_present(hs, n, cap, empty, h, i0);
        },
        None => {
            lemma_first_index_none(hs, n, h, 0);
            lemma_lookup_missing(hs, n, cap, empty, h);
        },
    }
}


/// Slot `s` holds a nonzero key under the owners `own`.
pub open spec fn live_owned(hs: Seq<u64>, own: Seq<int>, s: int) -> bool {
    own[s] >= 0 && hs[own[s]] != 0
}

/// Number of slots that hold a nonzero key.
pub open spec fn count_live(hs: Seq<u64>, own: Seq<int>) -> nat
    decreases own.len(),
{
    if own.len() == 0 {
        0
    } else {
        count_live(hs, own.drop_last()) + if own.last() >= 0 && hs[own.last()] != 0 {
            1nat
        } else {
            0nat
        }
    }
}

/// Invariant of a placement of the first `n` keys, zero keys allowed (a
/// slot of a zero key counts as free and may be taken by a later key):
/// owners are distinct indices below `n`; every slot of a nonzero key is
/// reached from its key's home slot through slots of nonzero keys inserted
/// before it; every nonzero key owns a slot; at most `n` slots hold
/// nonzero keys.
pub open spec fn live_inv(hs: Seq<u64>, n: int, cap: int, own: Seq<int>) -> bool {
    &&& own.len() == cap
    &&& forall|s: int| 0 <= s < cap ==> -1 <= #[trigger] own[s] < n
    &&& forall|s1: int, s2: int| 0 <= s1 < cap && 0 <= s2 < cap && own[s1] >= 0 && s1 != s2 ==> own[s1] != own[s2]
    &&& forall|s: int| #![trigger own[s]] 0 <= s < cap && live_owned(hs, own, s) ==> exists|d: int| {
        &&& 0 <= d < cap
        &&& probe_slot(hs[own[s]], cap, d) == s
        &&& forall|e: int| 0 <= e < d ==> 0 <= #[trigger] own[probe_slot(hs[own[s]], cap, e)] < own[s]
            && hs[own[probe_slot(hs[own[s]], cap, e)]] != 0
    }
    &&& forall|i: int| 0 <= i < n && hs[i] != 0 ==> #[trigger] is_placed(own, cap, i)
    &&& count_live(hs, own) <= n
}

proof fn lemma_count_live_bound(hs: Seq<u64>, own: Seq<int>)
    requires
        forall|s: int| 0 <= s < own.len() ==> #[trigger] own[s] < hs.len(),
    ensures
        count_live(hs, own) <= own.len(),
        count_live(hs, own) < own.len() ==> exists|s: int| 0 <= s < own.len() && !live_owned(hs, own, s),
    decreases own.len(),
{
    if own.len() > 0 {
        let pre = own.drop_last();
        assert forall|s: int| 0 <= s < pre.len() implies #[trigger] pre[s] < hs.len() by {
            assert(pre[s] == own[s]);
        }
        lemma_count_live_bound(hs, pre);
        if count_live(hs, own) < own.len() {
            if own.last() >= 0 && hs[own.last()] != 0 {
                assert(count_live(hs, pre) < pre.len());
                let s = choose|s: int| 0 <= s < pre.len() && !live_owned(hs, pre, s);
                assert(own[s] == pre[s]);
                assert(!live_owned(hs, own, s));
            } else {
                let w = own.len() - 1;
                assert(own[w] == own.last());
                assert(!live_owned(hs, own, w));
                assert(exists|s: int| 0 <= s < own.len() && !live_owned(hs, own, s));
            }
        }
    }
}

proof fn lemma_count_live_update(hs: Seq<u64>, own: Seq<int>, s: int, v: int)
    requires
        0 <= s < own.len(),
        !live_owned(hs, own, s),
        0 <= v,
    ensures
        count_live(hs, own.update(s, v)) == count_live(hs, own) + if hs[v] != 0 { 1nat } else { 0nat },
    decreases own.len(),
{
    let u = own.update(s, v);
    if s == own.len() - 1 {
        assert(u.drop_last() =~= own.drop_last());
    } else {
        assert(u.drop_last() =~= own.drop_last().update(s, v));
        lemma_count_live_update(hs, own.drop_last(), s, v);
    }
}

proof fn lemma_count_live_zero(hs: Seq<u64>, own: Seq<int>)
    requires
        forall|s: int| 0 <= s < own.len() ==> own[s] < 0,
    ensures
        count_live(hs, own) == 0,
    decreases own.len(),
{
    if own.len() > 0 {
        lemma_count_live_zero(hs, own.drop_last());
    }
}

/// The invariant holds after every prefix of at most `cap` keys, zero keys
/// included.
pub proof fn lemma_live_inv(hs: Seq<u64>, n: int, cap: int)
    requires
        0 < cap,
        0 <= n <= hs.len(),
        n <= cap,
    ensures
        live_inv(hs, n, cap, placement(hs, n, cap)),
    decreases n,
{
    if n == 0 {
        lemma_count_live_zero(hs, placement(hs, 0, cap));
    } else {
        let m = n - 1;
        lemma_live_inv(hs, m, cap);
        let own = placement(hs, m, cap);
        let h = hs[m];
        // a free slot exists: at most m < cap slots hold nonzero keys
        lemma_count_live_bound(hs, own);
        let sf = choose|s: int| 0 <= s < own.len() && !live_owned(hs, own, s);
        let kf = lemma_probe_covers(h, cap, sf);
        if first_free_from(hs, own, h, cap, 0) is None {
            lemma_first_free_none(hs, own, h, cap, 0);
            assert(!free_at(hs, own, probe_slot(h, cap, kf)));
        }
        lemma_first_free_some(hs, own, h, cap, 0);
        let k = first_free_from(hs, own, h, cap, 0)->0;
        let s0 = probe_slot(h, cap, k);
        lemma_probe_range(h, cap, k);
        let own2 = own.update(s0, m);
        assert(placement(hs, n, cap) == own2);
        assert(!live_owned(hs, own, s0));
        lemma_count_live_update(hs, own, s0, m);
        assert forall|s: int| #![trigger own2[s]] 0 <= s < cap && live_owned(hs, own2, s) implies exists|d: int| {
            &&& 0 <= d < cap
            &&& probe_slot(hs[own2[s]], cap, d) == s
            &&& forall|e: int| 0 <= e < d ==> 0 <= #[trigger] own2[probe_slot(hs[own2[s]], cap, e)] < own2[s]
                && hs[own2[probe_slot(hs[own2[s]], cap, e)]] != 0
        } by {
            if s == s0 {
                assert forall|e: int| 0 <= e < k implies 0 <= #[trigger] own2[probe_slot(h, cap, e)] < own2[s]
                    && hs[own2[probe_slot(h, cap, e)]] != 0 by {
                    lemma_probe_range(h, cap, e);
                    assert(!free_at(hs, own, probe_slot(h, cap, e)));
                    if probe_slot(h, cap, e) == s0 {
                        lemma_probe_injective(h, cap, e, k);
                    }
                }
            } else {
                assert(own2[s] == own[s]);
                assert(live_owned(hs, own, s));
                let d = choose|d: int| {
                    &&& 0 <= d < cap
                    &&& probe_slot(hs[own[s]], cap, d) == s
                    &&& forall|e: int| 0 <= e < d ==> 0 <= #[trigger] own[probe_slot(hs[own[s]], cap, e)] < own[s]
                        && hs[own[probe_slot(hs[own[s]], cap, e)]] != 0
                };
                assert forall|e: int| 0 <= e < d implies 0 <= #[trigger] own2[probe_slot(hs[own2[s]], cap, e)] < own2[s]
                    && hs[own2[probe_slot(hs[own2[s]], cap, e)]] != 0 by {
                    lemma_probe_range(hs[own[s]], cap, e);
                    assert(0 <= own[probe_slot(hs[own[s]], cap, e)]);
                    if probe_slot(hs[own[s]], cap, e) == s0 {
                        assert(live_owned(hs, own, s0));
                    }
                }
            }
        }
        assert forall|i: int| 0 <= i < n && hs[i] != 0 implies #[trigger] is_placed(own2, cap, i) by {
            if i == m {
                assert(own2[s0] == m);
            } else {
                assert(is_placed(own, cap, i));
                let s = choose|s: int| 0 <= s < cap && own[s] == i;
                if s == s0 {
                    assert(live_owned(hs, own, s0));
                }
                assert(own2[s] == i);
            }
        }
    }
}

/// After placing `n <= cap` keys (zero keys allowed), a probing lookup of
/// `h` (where exactly the slots with key 0 are empty) finds the slot of the
/// first key equal to `h` when `h` is nonzero, and nothing if no key equals
/// `h` or `h` is zero.
pub proof fn lemma_lookup_placement_any(hs: Seq<u64>, n: int, cap: int, empty: Seq<bool>, h: u64)
    requires
        0 < cap,
        0 <= n <= hs.len(),
        n <= cap,
        empty.len() == cap,
        forall|s: int| 0 <= s < cap ==> (empty[s] <==> owner_keys(hs, placement(hs, n, cap), cap)[s] == 0),
    ensures
        ({
            let own = placement(hs, n, cap);
            let keys = owner_keys(hs, own, cap);
            &&& h == 0 ==> lookup_from(keys, empty, h, cap, 0) is None
            &&& h != 0 ==> match first_index_from(hs, n, h, 0) {
                Some(i) => lookup_from(keys, empty, h, cap, 0) matches Some(s) && 0 <= s < cap && own[s] == i,
                None => lookup_from(keys, empty, h, cap, 0) is None,
            }
        }),
{
    lemma_live_inv(hs, n, cap);
    let own = placement(hs, n, cap);
    let keys = owner_keys(hs, own, cap);
    if h == 0 {
        assert forall|e: int| 0 <= e < cap && !empty[#[trigger] probe_slot(h, cap, e)] implies keys[probe_slot(h, cap, e)] != h by {
            lemma_probe_range(h, cap, e);
        }
        lemma_lookup_absent(keys, empty, h, cap, 0);
    } else {
        match first_index_from(hs, n, h, 0) {
            Some(i0) => {
                lemma_first_index_some(hs, n, h, 0);
                assert(is_placed(own, cap, i0));
                let s0 = choose|s: int| 0 <= s < cap && own[s] == i0;
                assert(live_owned(hs, own, s0));
                let d = choose|d: int| {
                    &&& 0 <= d < cap
                    &&& probe_slot(hs[own[s0]], cap, d) == s0
                    &&& forall|e: int| 0 <= e < d ==> 0 <= #[trigger] own[probe_slot(hs[own[s0]], cap, e)] < own[s0]
                        && hs[own[probe_slot(hs[own[s0]], cap, e)]] != 0
                };
                assert forall|e: int| 0 <= e < d implies !empty[#[trigger] probe_slot(h, cap, e)] && keys[probe_slot(h, cap, e)] != h by {
                    lemma_probe_range(h, cap, e);
                    let j = own[probe_slot(h, cap, e)];
                    assert(0 <= j < i0);
                }
                lemma_lookup_at(keys, empty, h, cap, 0, d);
                assert(!empty[s0]);
                assert(keys[s0] == h);
            },
            None => {
                lemma_first_index_none(hs, n, h, 0);
                assert forall|e: int| 0 <= e < cap && !empty[#[trigger] probe_slot(h, cap, e)] implies keys[probe_slot(h, cap, e)] != h by {
                    lemma_probe_range(h, cap, e);
                    let j = own[probe_slot(h, cap, e)];
                    assert(0 <= j < n);
                }
                lemma_lookup_absent(keys, empty, h, cap, 0);
            },
        }
    }
}

} // verus!

verus! {

/// Owners as stored by the executable table: `None` for a slot without owner.
pub open spec fn owners_of(v: Seq<Option<usize>>) -> Seq<int> {
    Seq::new(v.len(), |s: int| match v[s] {
        Some(j) => j as int,
        None => -1int,
    })
}

/// Slot of the `k`-th probe step of `h` in a table of `cap` slots.
pub fn probe_at(h: u64, cap: usize, k: usize) -> (s: usize)
    requires
        0 < cap,
        k < cap,
    ensures
        s as int == probe_slot(h, cap as int, k as int),
        s < cap,
{
    let start: usize = (h as usize) % cap;
    if k < cap - start {
        start + k
    } else {
        k - (cap - start)
    }
}

/// Insert the keys `hs` in order into a table of `cap` slots by linear
/// probing; returns the owner of each slot and the slot chosen for each key.
pub fn place_all(hs: &Vec<u64>, cap: usize) -> (r: (Vec<Option<usize>>, Vec<u32>))
    requires
        0 < cap <= u32::MAX,
    ensures
        owners_of(r.0@) == placement(hs@, hs@.len() as int, cap as int),
        r.0@.len() == cap,
        forall|s: int| 0 <= s < cap ==> (#[trigger] r.0@[s] matches Some(j) ==> j < hs@.len()),
        r.1@.len() == hs@.len(),
        forall|i: int| 0 <= i < hs@.len() ==> r.1@[i] as int == chosen_slot(hs@, i, cap as int),
{
    let n = hs.len();
    let mut own: Vec<Option<usize>> = Vec::new();
    let mut s: usize = 0;
    while s < cap
        invariant
            0 <= s <= cap,
            own@.len() == s,
            forall|j: int| 0 <= j < s ==> own@[j] is None,
        decreases cap - s,
    {
        own.push(None);
        s = s + 1;
    }
    assert(owners_of(own@) =~= placement(hs@, 0, cap as int));
    let mut slots: Vec<u32> = Vec::new();
    let mut i: usize = 0;
    while i < n
        invariant
            n == hs@.len(),
            0 < cap <= u32::MAX,
            0 <= i <= n,
            own@.len() == cap,
            owners_of(own@) == placement(hs@, i as int, cap as int),
            forall|s2: int| 0 <= s2 < cap ==> (#[trigger] own@[s2] matches Some(j) ==> j < i),
            slots@.len() == i,
            forall|j: int| 0 <= j < i ==> slots@[j] as int == chosen_slot(hs@, j, cap as int),
        decreases n - i,
    {
        let h = hs[i];
        let ghost o = owners_of(own@);
        let mut chosen: u32 = 0;
        let mut k: usize = 0;
        while k < cap
            invariant_except_break
                0 <= k <= cap,
                chosen == 0,
                own@.len() == cap,
                owners_of(own@) == o,
                first_free_from(hs@, o, h, cap as int, 0) == first_free_from(hs@, o, h, cap as int, k as int),
            invariant
                0 < cap <= u32::MAX,
                i < n,
                n == hs@.len(),
                h == hs@[i as int],
                o == placement(hs@, i as int, cap as int),
                forall|s2: int| 0 <= s2 < cap ==> (#[trigger] own@[s2] matches Some(j) ==> j <= i),
            ensures
                own@.len() == cap,
                owners_of(own@) == placement(hs@, i + 1, cap as int),
                chosen as int == chosen_slot(hs@, i as int, cap as int),
            decreases cap - k,
        {
            let slot = probe_at(h, cap, k);
            let free = match own[slot] {
                None => true,
                Some(j) => hs[j] == 0,
            };
            proof {
                assert(o[slot as int] == match own@[slot as int] { Some(j) => j as int, None => -1int });
                assert(free == free_at(hs@, o, slot as int));
            }
            if free {
                own.set(slot, Some(i));
                chosen = slot as u32;
                proof {
                    assert(first_free_from(hs@, o, h, cap as int, k as int) == Some(k as int));
                    assert(owners_of(own@) =~= o.update(slot as int, i as int));
                }
                break;
            }
            k = k + 1;
        }
        slots.push(chosen);
        i = i + 1;
    }
    (own, slots)
}

} // verus!
