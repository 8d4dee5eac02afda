//! Path normalization for the VFS domain: collapse duplicate slashes,
//! drop `.` components and resolve `..` components, writing the result
//! into a caller-provided fixed buffer.
use vstd::prelude::*;
use vstd::string::StringSliceAdditionalSpecFns;

verus! {

/// ASCII `/`.
pub const SLASH: u8 = 0x2f;

/// ASCII `.`.
pub const DOT: u8 = 0x2e;

/// Where `..` backtracking stops: scanning left from `k`, the first position
/// that is 1 or follows a slash.
pub open spec fn back_to(st: Seq<u8>, k: int) -> int
    decreases k,
{
    if k > 1 && st[k - 1] != SLASH {
        back_to(st, k - 1)
    } else {
        k
    }
}

/// Effect of one path component on the output built so far.
/// `.` is ignored; `..` removes the last component unless only the root
/// (or a single byte) is left; any other name is appended after a slash.
pub open spec fn apply_component(st: Seq<u8>, comp: Seq<u8>) -> Seq<u8> {
    if comp == seq![DOT] {
        st
    } else if comp == seq![DOT, DOT] {
        if st.len() > 1 {
            st.take(back_to(st, st.len() - 1))
        } else {
            st
        }
    } else if st.len() > 0 && st.last() != SLASH {
        st.push(SLASH) + comp
    } else {
        st + comp
    }
}

/// Scan the bytes from position `i`, with output `st` so far and the
/// component `cur` being read; `None` when an intermediate output would
/// exceed `cap` bytes.
pub open spec fn scan(b: Seq<u8>, i: int, st: Seq<u8>, cur: Seq<u8>, cap: nat) -> Option<Seq<u8>>
    decreases b.len() - i,
{
    if i >= b.len() || i < 0 {
        if cur.len() > 0 {
            let r = apply_component(st, cur);
            if r.len() > cap { None } else { Some(r) }
        } else {
            Some(st)
        }
    } else if b[i] == SLASH {
        if cur.len() > 0 {
            let r = apply_component(st, cur);
            if r.len() > cap { None } else { scan(b, i + 1, r, Seq::empty(), cap) }
        } else {
            scan(b, i + 1, st, Seq::empty(), cap)
        }
    } else {
        scan(b, i + 1, st, cur.push(b[i]), cap)
    }
}

/// The normalized form of the path bytes `b` within a buffer of `cap`
/// bytes, or `None` when `b` or the buffer is empty or the buffer is too small.
pub open spec fn normalize_spec(b: Seq<u8>, cap: nat) -> Option<Seq<u8>> {
    if b.len() == 0 || cap == 0 {
        None
    } else {
        let init = if b[0] == SLASH { seq![SLASH] } else { Seq::empty() };
        match scan(b, 0, init, Seq::empty(), cap) {
            None => None,
            Some(st) => if st.len() == 0 {
                Some(if b[0] == SLASH { seq![SLASH] } else { seq![DOT] })
            } else {
                Some(st)
            },
        }
    }
}

proof fn lemma_back_to_range(st: Seq<u8>, k: int)
    requires
        k >= 1,
    ensures
        1 <= back_to(st, k) <= k,
        back_to(st, k) == 1 || st[back_to(st, k) - 1] == SLASH,
    decreases k,
{
    if k > 1 && st[k - 1] != SLASH {
        lemma_back_to_range(st, k - 1);
    }
}

/// Two slashes in a row at `i`.
pub open spec fn double_slash_at(s: Seq<u8>, i: int) -> bool {
    s[i] == SLASH && s[i + 1] == SLASH
}

/// The slash at `i` begins a `.` or `..` component.
pub open spec fn dot_component_at(s: Seq<u8>, i: int) -> bool {
    &&& s[i] == SLASH
    &&& i + 1 < s.len()
    &&& s[i + 1] == DOT
    &&& (i + 2 == s.len() || s[i + 2] == SLASH || (s[i + 2] == DOT && (i + 3 == s.len() || s[i + 3] == SLASH)))
}

/// An absolute path with no doubled slash and no `.` or `..` component.
pub open spec fn clean_absolute(s: Seq<u8>) -> bool {
    &&& s.len() >= 1
    &&& s[0] == SLASH
    &&& forall|i: int| 0 <= i < s.len() - 1 ==> !#[trigger] double_slash_at(s, i)
    &&& forall|i: int| 0 <= i < s.len() ==> !#[trigger] dot_component_at(s, i)
}

/// Cutting a clean path right after a slash (or after its root) leaves a
/// clean path.
proof fn lemma_cut_clean(st: Seq<u8>, k: int)
    requires
        clean_absolute(st),
        1 <= k <= st.len(),
        k == 1 || st[k - 1] == SLASH,
    ensures
        clean_absolute(st.take(k)),
{
    let p = st.take(k);
    assert forall|i: int| 0 <= i < p.len() - 1 implies !#[trigger] double_slash_at(p, i) by {
        assert(!double_slash_at(st, i));
    }
    assert forall|i: int| 0 <= i < p.len() implies !#[trigger] dot_component_at(p, i) by {
        assert(!dot_component_at(st, i));
        if dot_component_at(p, i) {
            if i + 2 < k {
                if i + 3 < k {
                    assert(p[i + 3] == st[i + 3]);
                }
                assert(p[i + 2] == st[i + 2]);
            }
            assert(p[i + 1] == st[i + 1]);
        }
    }
}

/// Appending a slash to a clean path that does not end with one keeps it
/// clean.
proof fn lemma_push_slash_clean(st: Seq<u8>)
    requires
        clean_absolute(st),
        st.last() != SLASH,
    ensures
        clean_absolute(st.push(SLASH)),
{
    let p = st.push(SLASH);
    assert forall|i: int| 0 <= i < p.len() - 1 implies !#[trigger] double_slash_at(p, i) by {
        if i < st.len() - 1 {
            assert(!double_slash_at(st, i));
        }
    }
    assert forall|i: int| 0 <= i < p.len() implies !#[trigger] dot_component_at(p, i) by {
        assert(!dot_component_at(st, i));
        if dot_component_at(p, i) {
            assert(i < st.len());
            if i + 1 == st.len() - 1 {
                assert(st[i + 1] == DOT);
            }
        }
    }
}

/// Appending a name (nonempty, without a slash, neither `.` nor `..`) to a
/// clean path that ends with a slash keeps it clean.
proof fn lemma_append_name_clean(base: Seq<u8>, comp: Seq<u8>)
    requires
        clean_absolute(base),
        base.last() == SLASH,
        comp.len() > 0,
        forall|j: int| 0 <= j < comp.len() ==> comp[j] != SLASH,
        comp != seq![DOT],
        comp != seq![DOT, DOT],
    ensures
        clean_absolute(base + comp),
{
    let r = base + comp;
    let n = base.len() as int;
    assert forall|i: int| 0 <= i < r.len() - 1 implies !#[trigger] double_slash_at(r, i) by {
        if i < n - 1 {
            assert(!double_slash_at(base, i));
        } else {
            assert(r[i + 1] == comp[i + 1 - n]);
        }
    }
    assert forall|i: int| 0 <= i < r.len() implies !#[trigger] dot_component_at(r, i) by {
        if i >= n {
            assert(r[i] == comp[i - n]);
        } else if i == n - 1 {
            if dot_component_at(r, i) {
                assert(r[n] == comp[0]);
                if comp.len() == 1 {
                    assert(comp =~= seq![DOT]);
                } else {
                    assert(r[n + 1] == comp[1]);
                    if comp.len() == 2 {
                        assert(comp =~= seq![DOT, DOT]);
                    } else {
                        assert(r[n + 2] == comp[2]);
                    }
                }
            }
        } else {
            assert(!dot_component_at(base, i));
            assert(base[n - 1] == SLASH);
            if dot_component_at(r, i) {
                assert(r[i + 1] == base[i + 1]);
                if i + 2 < n {
                    assert(r[i + 2] == base[i + 2]);
                    if i + 3 < n {
                        assert(r[i + 3] == base[i + 3]);
                    }
                }
            }
        }
    }
}

/// One component applied to a clean path leaves it clean.
proof fn lemma_apply_clean(st: Seq<u8>, comp: Seq<u8>)
    requires
        clean_absolute(st),
        comp.len() > 0,
        forall|j: int| 0 <= j < comp.len() ==> comp[j] != SLASH,
    ensures
        clean_absolute(apply_component(st, comp)),
{
    if comp == seq![DOT] {
    } else if comp == seq![DOT, DOT] {
        if st.len() > 1 {
            lemma_back_to_range(st, st.len() - 1);
            lemma_cut_clean(st, back_to(st, st.len() - 1));
        }
    } else if st.len() > 0 && st.last() != SLASH {
        lemma_push_slash_clean(st);
        lemma_append_name_clean(st.push(SLASH), comp);
    } else {
        lemma_append_name_clean(st, comp);
    }
}

proof fn lemma_scan_clean(b: Seq<u8>, i: int, st: Seq<u8>, cur: Seq<u8>, cap: nat)
    requires
        clean_absolute(st),
        forall|j: int| 0 <= j < cur.len() ==> cur[j] != SLASH,
    ensures
        scan(b, i, st, cur, cap) matches Some(r) ==> clean_absolute(r),
    decreases b.len() - i,
{
    if i >= b.len() || i < 0 {
        if cur.len() > 0 {
            lemma_apply_clean(st, cur);
        }
    } else if b[i] == SLASH {
        if cur.len() > 0 {
            lemma_apply_clean(st, cur);
            lemma_scan_clean(b, i + 1, apply_component(st, cur), Seq::empty(), cap);
        } else {
            lemma_scan_clean(b, i + 1, st, Seq::empty(), cap);
        }
    } else {
        let c2 = cur.push(b[i]);
        assert forall|j: int| 0 <= j < c2.len() implies c2[j] != SLASH by {
            if j < cur.len() {
                assert(c2[j] == cur[j]);
            }
        }
        lemma_scan_clean(b, i + 1, st, c2, cap);
    }
}

/// What normalization promises of an absolute path: the result, when it
/// fits, is absolute, has no doubled slash, and has no `.` or `..`
/// component.
pub proof fn law_normalized_absolute_is_clean(b: Seq<u8>, cap: nat)
    requires
        b.len() > 0,
        b[0] == SLASH,
    ensures
        normalize_spec(b, cap) matches Some(r) ==> clean_absolute(r),
{
    let init = seq![SLASH];
    assert(clean_absolute(init)) by {
        assert forall|i: int| 0 <= i < init.len() implies !#[trigger] dot_component_at(init, i) by {
        }
    }
    lemma_scan_clean(b, 0, init, Seq::empty(), cap);
}

/// Apply one component `bytes[start..end]` to the output `out[..out_idx]`,
/// returning the new output length, or `None` if it would not fit in `out`.
fn push_component(out: &mut [u8], out_idx: usize, bytes: &[u8], start: usize, end: usize) -> (r: Option<usize>)
    requires
        out_idx <= old(out)@.len(),
        start < end <= bytes@.len(),
    ensures
        final(out)@.len() == old(out)@.len(),
        ({
            let next = apply_component(old(out)@.take(out_idx as int), bytes@.subrange(start as int, end as int));
            &&& r is None <==> next.len() > old(out)@.len()
            &&& forall|n: usize| r == Some(n) ==> {
                &&& n <= old(out)@.len()
                &&& final(out)@.take(n as int) == next
                &&& out_idx >= 1 ==> n >= 1 && final(out)@[0] == old(out)@[0]
            }
        }),
{
    let ghost cap = out@.len();
    let ghost st = out@.take(out_idx as int);
    let ghost comp = bytes@.subrange(start as int, end as int);
    let ghost next = apply_component(st, comp);
    let olen = out.len();
    let clen = end - start;
    let is_dot = clen == 1 && bytes[start] == DOT;
    let is_dotdot = clen == 2 && bytes[start] == DOT && bytes[start + 1] == DOT;
    proof {
        assert(comp.len() == clen);
        assert(is_dot <==> comp == seq![DOT]) by {
            if comp == seq![DOT] { assert(comp[0] == bytes@[start as int]); }
            if is_dot { assert(comp =~= seq![DOT]); }
        }
        assert(is_dotdot <==> comp == seq![DOT, DOT]) by {
            if comp == seq![DOT, DOT] { assert(comp[0] == bytes@[start as int]); assert(comp[1] == bytes@[start + 1]); }
            if is_dotdot { assert(comp =~= seq![DOT, DOT]); }
        }
    }
    let mut idx = out_idx;
    if is_dot {
        return Some(idx);
    } else if is_dotdot {
        if idx > 1 {
            idx = idx - 1;
            proof { lemma_back_to_range(st, idx as int); }
            while idx > 1 && out[idx - 1] != SLASH
                invariant
                    out@.len() == cap,
                    1 <= idx < st.len() <= cap,
                    st == out@.take(st.len() as int),
                    back_to(st, idx as int) == back_to(st, st.len() - 1),
                decreases idx,
            {
                idx = idx - 1;
            }
            proof {
                assert(out@.take(idx as int) =~= st.take(idx as int));
            }
        }
        return Some(idx);
    }
    if idx > 0 && out[idx - 1] != SLASH {
        if idx < olen {
            out[idx] = SLASH;
            idx = idx + 1;
        } else {
            return None;
        }
    }
    let ghost mid = out@.take(idx as int);
    assert(next == mid + comp);
    assert(out_idx >= 1 ==> out@[0] == old(out)@[0]);
    if clen <= olen - idx {
        let mut k: usize = 0;
        while k < clen
            invariant
                start + clen <= bytes@.len(),
                clen == end - start,
                out@.len() == cap,
                olen == cap,
                idx + clen <= cap,
                0 <= k <= clen,
                out@.take(idx as int) == mid,
                comp == bytes@.subrange(start as int, end as int),
                forall|j: int| #![trigger out@[j]] idx <= j < idx + k ==> out@[j] == comp[j - idx],
            decreases clen - k,
        {
            out[idx + k] = bytes[start + k];
            k = k + 1;
        }
        proof {
            assert(out@.take((idx + clen) as int) =~= mid + comp);
            if out_idx >= 1 {
                assert(out@[0] == out@.take(idx as int)[0]);
            }
        }
        Some(idx + clen)
    } else {
        None
    }
}

/// Robust path normalization without heap allocation: writes the normalized
/// form of `path` into `out` and returns its length, or `None` when `path` or
/// `out` is empty or `out` cannot hold an intermediate result.
pub fn raw_path_normalize(path: &str, out: &mut [u8]) -> (r: Option<usize>)
    ensures
        final(out)@.len() == old(out)@.len(),
        r is None <==> normalize_spec(path.spec_bytes(), old(out)@.len()) is None,
        r matches Some(n) ==> n <= old(out)@.len() && final(out)@.take(n as int) == normalize_spec(path.spec_bytes(), old(out)@.len()).unwrap(),
{
    let b = path.as_bytes();
    let r = normalize_bytes(b, out);
    assert(b@ == path.spec_bytes());
    proof {
        match r {
            Some(n) => {
                assert(out@.take(n as int) == normalize_spec(path.spec_bytes(), old(out)@.len()).unwrap());
            },
            None => {},
        }
    }
    r
}

/// Normalization of path bytes into `out` (see `raw_path_normalize`).
#[verifier::loop_isolation(false)]
pub fn normalize_bytes(bytes: &[u8], out: &mut [u8]) -> (r: Option<usize>)
    ensures
        final(out)@.len() == old(out)@.len(),
        r is None <==> normalize_spec(bytes@, old(out)@.len()) is None,
        r matches Some(n) ==> n <= old(out)@.len() && final(out)@.take(n as int) == normalize_spec(bytes@, old(out)@.len()).unwrap(),
{
    let ghost b = bytes@;
    let ghost cap = out@.len();
    let blen = bytes.len();
    if blen == 0 || out.len() == 0 {
        return None;
    }
    let olen = out.len();
    let mut out_idx: usize = 0;
    if bytes[0] == SLASH {
        out[0] = SLASH;
        out_idx = 1;
    }
    let ghost init: Seq<u8> = if b[0] == SLASH { seq![SLASH] } else { Seq::empty() };
    assert(out@.take(out_idx as int) =~= init);
    let mut i: usize = 0;
    while i < blen
        invariant
            b == bytes@,
            blen == b.len(),
            olen == cap,
            out@.len() == cap,
            cap > 0,
            0 <= i <= blen,
            out_idx <= olen,
            b.len() > 0,
            b[0] == SLASH ==> out_idx >= 1 && out@[0] == SLASH,
            scan(b, 0, init, Seq::empty(), cap) == scan(b, i as int, out@.take(out_idx as int), Seq::empty(), cap),
            init == (if b[0] == SLASH { seq![SLASH] } else { Seq::<u8>::empty() }),
        decreases blen - i,
    {
        let ghost i0 = i;
        // Skip slashes.
        while i < blen && bytes[i] == SLASH
            invariant
                i0 <= i,
                b == bytes@,
                blen == b.len(),
                0 <= i <= blen,
                out@.len() == cap,
                scan(b, 0, init, Seq::empty(), cap) == scan(b, i as int, out@.take(out_idx as int), Seq::empty(), cap),
            decreases blen - i,
        {
            i = i + 1;
        }
        if i == blen {
            break;
        }
        // Find the component end.
        let start = i;
        proof {
            assert(b.subrange(start as int, i as int) =~= Seq::<u8>::empty());
        }
        while i < blen && bytes[i] != SLASH
            invariant
                b == bytes@,
                blen == b.len(),
                0 <= start < i <= blen || (start == i && i < blen && b[i as int] != SLASH),
                start < blen,
                forall|k: int| start <= k < i ==> b[k] != SLASH,
                out@.len() == cap,
                scan(b, 0, init, Seq::empty(), cap) == scan(b, i as int, out@.take(out_idx as int), b.subrange(start as int, i as int), cap),
            decreases blen - i,
        {
            proof {
                assert(b.subrange(start as int, i + 1) =~= b.subrange(start as int, i as int).push(b[i as int]));
            }
            i = i + 1;
        }
        assert(i0 <= start < i);
        let ghost st = out@.take(out_idx as int);
        let ghost comp = b.subrange(start as int, i as int);
        let ghost next = apply_component(st, comp);
        match push_component(out, out_idx, bytes, start, i) {
            None => {
                proof {
                    assert(scan(b, i as int, st, comp, cap) is None);
                }
                return None;
            },
            Some(n) => {
                out_idx = n;
            },
        }
        proof {
            assert(out@.take(out_idx as int) == next);
            assert(next.len() <= cap);
            assert(scan(b, i as int, st, comp, cap) == scan(b, if i < blen { i + 1 } else { i as int }, next, Seq::empty(), cap));
        }
        if i < blen {
            i = i + 1;
        }
    }
    proof {
        assert(scan(b, i as int, out@.take(out_idx as int), Seq::empty(), cap) == Some(out@.take(out_idx as int)));
    }
    if out_idx == 0 {
        out[0] = if bytes[0] == SLASH { SLASH } else { DOT };
        out_idx = 1;
        proof {
            assert(out@.take(1) =~= seq![out@[0]]);
        }
    }
    Some(out_idx)
}


/// No slash lies between where `..` backtracking stops and where it started.
proof fn lemma_back_to_gap(st: Seq<u8>, k: int)
    requires
        k >= 1,
    ensures
        forall|t: int| back_to(st, k) <= t < k ==> st[t] != SLASH,
    decreases k,
{
    if k > 1 && st[k - 1] != SLASH {
        lemma_back_to_gap(st, k - 1);
    }
}

/// Backtracking reads only the bytes before its start.
proof fn lemma_back_to_prefix(a: Seq<u8>, b: Seq<u8>, k: int)
    requires
        0 <= k <= a.len(),
        k <= b.len(),
        a.take(k) == b.take(k),
    ensures
        back_to(a, k) == back_to(b, k),
    decreases k,
{
    if k > 1 {
        assert(a[k - 1] == a.take(k)[k - 1]);
        assert(b[k - 1] == b.take(k)[k - 1]);
        assert(a.take(k - 1) =~= a.take(k).take(k - 1));
        assert(b.take(k - 1) =~= b.take(k).take(k - 1));
        lemma_back_to_prefix(a, b, k - 1);
    }
}

/// Backtracking passes over bytes that are not slashes.
proof fn lemma_back_to_skip(st: Seq<u8>, k0: int, k: int)
    requires
        1 <= k0 <= k,
        forall|t: int| k0 <= t < k ==> st[t] != SLASH,
    ensures
        back_to(st, k) == back_to(st, k0),
    decreases k - k0,
{
    if k > k0 {
        assert(st[k - 1] != SLASH);
        lemma_back_to_skip(st, k0, k - 1);
    }
}

/// Bytes without a slash only extend the component being read.
proof fn lemma_scan_chars(b: Seq<u8>, i: int, j: int, st: Seq<u8>, cur: Seq<u8>, cap: nat)
    requires
        0 <= i <= j <= b.len(),
        forall|t: int| i <= t < j ==> b[t] != SLASH,
    ensures
        scan(b, i, st, cur, cap) == scan(b, j, st, cur + b.subrange(i, j), cap),
    decreases j - i,
{
    if i == j {
        assert(cur + b.subrange(i, j) =~= cur);
    } else {
        lemma_scan_chars(b, i + 1, j, st, cur.push(b[i]), cap);
        assert(cur.push(b[i]) + b.subrange(i + 1, j) =~= cur + b.subrange(i, j));
    }
}

/// The first position from `k` (up to `n`) that is `n` or holds a slash.
pub open spec fn next_slash(b: Seq<u8>, k: int, n: int) -> int
    decreases n - k,
{
    if k >= n {
        n
    } else if b[k] == SLASH {
        k
    } else {
        next_slash(b, k + 1, n)
    }
}

proof fn lemma_next_slash(b: Seq<u8>, k: int, n: int)
    requires
        0 <= k <= n <= b.len(),
    ensures
        k <= next_slash(b, k, n) <= n,
        next_slash(b, k, n) == n || b[next_slash(b, k, n)] == SLASH,
        forall|t: int| k <= t < next_slash(b, k, n) ==> b[t] != SLASH,
    decreases n - k,
{
    if k < n && b[k] != SLASH {
        lemma_next_slash(b, k + 1, n);
    }
}

/// Reading a clean absolute path (no trailing slash) that starts `b`, from
/// the start of one of its components, rebuilds it: at the end of `b`
/// normalization gives it back, else it is the output when the slash after
/// it has been read.
proof fn lemma_walk(b: Seq<u8>, n: int, k: int, cap: nat)
    requires
        2 <= n <= b.len(),
        clean_absolute(b.take(n)),
        b[n - 1] != SLASH,
        n == b.len() || b[n] == SLASH,
        1 <= k <= n,
        b[k - 1] == SLASH,
        n <= cap,
    ensures
        scan(b, k, if k == 1 { seq![SLASH] } else { b.take(k - 1) }, Seq::empty(), cap) == if n == b.len() {
            Some(b.take(n))
        } else {
            scan(b, n + 1, b.take(n), Seq::empty(), cap)
        },
    decreases n - k,
{
    let s = b.take(n);
    let st = if k == 1 { seq![SLASH] } else { b.take(k - 1) };
    assert(k < n) by {
        if k == n {
            assert(b[k - 1] == SLASH);
        }
    }
    assert(b[k] != SLASH) by {
        assert(!double_slash_at(s, k - 1));
        assert(s[k - 1] == b[k - 1] && s[k] == b[k]);
    }
    lemma_next_slash(b, k, n);
    let j = next_slash(b, k, n);
    assert(j > k);
    lemma_scan_chars(b, k, j, st, Seq::empty(), cap);
    let comp = b.subrange(k, j);
    assert(Seq::<u8>::empty() + comp =~= comp);
    assert(comp.len() > 0);
    // the component is a name: not `.` and not `..`
    assert(!dot_component_at(s, k - 1));
    assert(s[k - 1] == SLASH);
    if comp == seq![DOT] {
        assert(comp[0] == b[k]);
        assert(j == k + 1);
        assert(s[k] == DOT);
        if j < n {
            assert(s[k + 1] == b[k + 1]);
        }
        assert(dot_component_at(s, k - 1));
    }
    if comp == seq![DOT, DOT] {
        assert(comp[0] == b[k] && comp[1] == b[k + 1]);
        assert(j == k + 2);
        assert(s[k] == DOT && s[k + 1] == DOT);
        if j < n {
            assert(s[k + 2] == b[k + 2]);
        }
        assert(dot_component_at(s, k - 1));
    }
    // the component is appended after one slash
    assert(apply_component(st, comp) == b.take(j)) by {
        if k == 1 {
            assert(st.last() == SLASH);
            assert(b[0] == s[0]);
            assert(st + comp =~= b.take(j));
        } else {
            assert(!double_slash_at(s, k - 2));
            assert(s[k - 2] == b[k - 2]);
            assert(st.last() == b[k - 2]);
            assert(st.push(SLASH) + comp =~= b.take(j));
        }
    }
    if j < n {
        assert(b[j] == SLASH);
        lemma_walk(b, n, j + 1, cap);
    }
}

/// A clean absolute path without a trailing slash is its own normalized form.
pub proof fn law_normalize_keeps_clean(s: Seq<u8>, cap: nat)
    requires
        clean_absolute(s),
        s.len() >= 2,
        s.last() != SLASH,
        s.len() <= cap,
    ensures
        normalize_spec(s, cap) == Some(s),
{
    assert(s.take(s.len() as int) =~= s);
    lemma_walk(s, s.len() as int, 1, cap);
}

/// Normalization of `s/..` for a clean absolute path `s` with a trailing name.
proof fn lemma_dotdot(s: Seq<u8>, cap: nat)
    requires
        clean_absolute(s),
        s.len() >= 2,
        s.last() != SLASH,
        s.len() + 3 <= cap,
    ensures
        normalize_spec(s + seq![SLASH, DOT, DOT], cap) == Some(s.take(back_to(s, s.len() - 1))),
{
    let n = s.len() as int;
    let b = s + seq![SLASH, DOT, DOT];
    assert(b.take(n) =~= s);
    assert(b[n] == SLASH);
    lemma_walk(b, n, 1, cap);
    lemma_scan_chars(b, n + 1, n + 3, s, Seq::empty(), cap);
    assert(Seq::<u8>::empty() + b.subrange(n + 1, n + 3) =~= seq![DOT, DOT]);
    lemma_back_to_range(s, n - 1);
}

/// `..` backs out of exactly the last name: for a clean absolute path `s`
/// that ends with a name, `s/..` normalizes to `s` cut right after its last
/// slash (a prefix of `s` that ends with a slash, followed in `s` by no
/// other slash).
pub proof fn law_dotdot_is_parent(s: Seq<u8>, cap: nat)
    requires
        clean_absolute(s),
        s.len() >= 2,
        s.last() != SLASH,
        s.len() + 3 <= cap,
    ensures
        normalize_spec(s + seq![SLASH, DOT, DOT], cap) matches Some(r) && {
            &&& 1 <= r.len() < s.len()
            &&& r == s.take(r.len() as int)
            &&& r.last() == SLASH
            &&& forall|j: int| r.len() <= j < s.len() ==> s[j] != SLASH
        },
{
    let n = s.len() as int;
    lemma_dotdot(s, cap);
    lemma_back_to_range(s, n - 1);
    lemma_back_to_gap(s, n - 1);
    let k = back_to(s, n - 1);
    let r = s.take(k);
    assert(r.last() == SLASH) by {
        if k == 1 {
            assert(s[0] == SLASH);
        }
    }
}

/// Each `..` backs out of one name: entering a name below a clean absolute
/// path `s` and then backing out twice gives what backing out of `s` once
/// gives.
pub proof fn law_dotdot_after_name(s: Seq<u8>, x: Seq<u8>, cap: nat)
    requires
        clean_absolute(s),
        s.len() >= 2,
        s.last() != SLASH,
        x.len() > 0,
        forall|t: int| 0 <= t < x.len() ==> x[t] != SLASH,
        x != seq![DOT],
        x != seq![DOT, DOT],
        s.len() + x.len() + 7 <= cap,
    ensures
        normalize_spec(s + seq![SLASH] + x + seq![SLASH, DOT, DOT, SLASH, DOT, DOT], cap)
            == normalize_spec(s + seq![SLASH, DOT, DOT], cap),
{
    let n = s.len() as int;
    let m = n + 1 + x.len();
    let b = s + seq![SLASH] + x + seq![SLASH, DOT, DOT, SLASH, DOT, DOT];
    assert(b.len() == m + 6);
    assert(b.take(n) =~= s);
    assert(b[n] == SLASH);
    lemma_walk(b, n, 1, cap);
    // the name
    assert(b.subrange(n + 1, m) =~= x);
    assert forall|t: int| n + 1 <= t < m implies b[t] != SLASH by {
        assert(b[t] == x[t - n - 1]);
    }
    lemma_scan_chars(b, n + 1, m, s, Seq::empty(), cap);
    assert(Seq::<u8>::empty() + b.subrange(n + 1, m) =~= x);
    assert(b[m] == SLASH);
    let st1 = s.push(SLASH) + x;
    assert(apply_component(s, x) == st1);
    // first `..`
    lemma_scan_chars(b, m + 1, m + 3, st1, Seq::empty(), cap);
    assert(Seq::<u8>::empty() + b.subrange(m + 1, m + 3) =~= seq![DOT, DOT]);
    assert(b[m + 3] == SLASH);
    assert forall|t: int| n + 1 <= t < m - 1 implies st1[t] != SLASH by {
        assert(st1[t] == x[t - n - 1]);
    }
    lemma_back_to_skip(st1, n + 1, m - 1);
    assert(st1[n] == SLASH);
    assert(back_to(st1, n + 1) == n + 1);
    let st2 = st1.take(n + 1);
    assert(st2 =~= s.push(SLASH));
    assert(apply_component(st1, seq![DOT, DOT]) == st2);
    // second `..`
    lemma_scan_chars(b, m + 4, m + 6, st2, Seq::empty(), cap);
    assert(Seq::<u8>::empty() + b.subrange(m + 4, m + 6) =~= seq![DOT, DOT]);
    assert(st2.take(n) =~= s.take(n));
    lemma_back_to_prefix(st2, s, n);
    assert(back_to(s, n) == back_to(s, n - 1));
    lemma_back_to_range(s, n - 1);
    let k = back_to(s, n - 1);
    assert(st2.take(k) =~= s.take(k));
    assert(apply_component(st2, seq![DOT, DOT]) == s.take(k));
    lemma_dotdot(s, cap);
}

} // verus!
