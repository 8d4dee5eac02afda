//! Bounded multi-producer single-consumer task queue used by the worker
//! thread: a ring of 4096 slots addressed by wrapping head/tail counters.
use vstd::prelude::*;

verus! {

/// Work handed to the worker thread.
pub enum Task {
    /// Reclaim the fd-table entry of a closed descriptor; the second field
    /// is the address of the entry to release.
    ReclaimFd(u32, usize),
    /// Re-ingest a modified staging file back into the CAS and manifest.
    Reingest { vpath: String, temp_path: String },
    /// Write a log line.
    Log(String),
}

/// Number of slots (a power of two, so the slot is the counter masked).
pub const BUFFER_SIZE: usize = 4096;

/// Mask selecting the slot bits of a counter.
pub const BUFFER_MASK: usize = 4095;

/// Performance counters of a ring buffer.
pub struct RingBufferStats {
    pub pushes: u64,
    pub pops: u64,
    pub push_errors: u64,
    pub max_depth: u64,
}

impl RingBufferStats {
    /// All counters at zero.
    pub fn new() -> (s: Self)
        ensures
            s.pushes == 0 && s.pops == 0 && s.push_errors == 0 && s.max_depth == 0,
    {
        RingBufferStats { pushes: 0, pops: 0, push_errors: 0, max_depth: 0 }
    }
}

/// The modulus of `usize` arithmetic.
pub open spec fn usize_modulus() -> int {
    usize::MAX as int + 1
}

/// Queue position `i` (counted from the tail slot `t0`) as a slot index.
pub open spec fn slot_of(t0: int, i: int) -> int {
    if t0 + i < BUFFER_SIZE { t0 + i } else { t0 + i - BUFFER_SIZE }
}

/// Queue position stored in slot `j` when the tail slot is `t0`.
pub open spec fn offset_of(t0: int, j: int) -> int {
    if j >= t0 { j - t0 } else { j - t0 + BUFFER_SIZE }
}

proof fn lemma_wrap_mod(x: int)
    requires
        0 <= x < 2 * usize_modulus(),
    ensures
        (if x >= usize_modulus() { x - usize_modulus() } else { x }) % (BUFFER_SIZE as int)
            == x % (BUFFER_SIZE as int),
{
    if x >= usize_modulus() {
        let y = x - usize_modulus();
        if usize::MAX == 0xffff_ffff {
            vstd::arithmetic::div_mod::lemma_mod_multiples_vanish(0x10_0000, y, 4096);
        } else {
            assert(usize::MAX == 0xffff_ffff_ffff_ffff);
            vstd::arithmetic::div_mod::lemma_mod_multiples_vanish(0x10_0000_0000_0000, y, 4096);
        }
    }
}

proof fn lemma_mask(x: usize)
    ensures
        x & BUFFER_MASK == x % BUFFER_SIZE,
{
    assert(x & 4095usize == x % 4096usize) by (bit_vector);
}

/// A multi-producer single-consumer ring buffer of tasks.
pub struct RingBuffer {
    head: usize,
    tail: usize,
    buffer: Vec<Option<Task>>,
    stats: RingBufferStats,
    queue: Ghost<Seq<Task>>,
}

impl View for RingBuffer {
    type V = Seq<Task>;

    closed spec fn view(&self) -> Seq<Task> {
        self.queue@
    }
}

impl RingBuffer {
    /// Internal consistency of counters, slots and the queue contents.
    pub closed spec fn wf(&self) -> bool {
        let len = self.queue@.len();
        let t0 = (self.tail % BUFFER_SIZE) as int;
        &&& self.buffer@.len() == BUFFER_SIZE
        &&& len <= BUFFER_SIZE
        &&& self.head as int == (if self.tail + len > usize::MAX { self.tail + len - usize_modulus() } else { self.tail + len })
        &&& forall|j: int| #![trigger self.buffer@[j]] 0 <= j < BUFFER_SIZE ==>
            self.buffer@[j] == (if offset_of(t0, j) < len { Some(self.queue@[offset_of(t0, j)]) } else { None })
    }

    /// Counters of successful pushes, pops, refused pushes and the deepest queue seen.
    pub closed spec fn counters(&self) -> (u64, u64, u64, u64) {
        (self.stats.pushes, self.stats.pops, self.stats.push_errors, self.stats.max_depth)
    }

    /// An empty buffer with zeroed statistics.
    pub fn new() -> (r: Self)
        ensures
            r.wf(),
            r@ == Seq::<Task>::empty(),
            r.counters() == (0u64, 0u64, 0u64, 0u64),
            (r@, r.counters()) == start_state(),
    {
        let mut buffer: Vec<Option<Task>> = Vec::new();
        let mut i: usize = 0;
        while i < BUFFER_SIZE
            invariant
                0 <= i <= BUFFER_SIZE,
                buffer@.len() == i,
                forall|j: int| 0 <= j < i ==> buffer@[j] is None,
            decreases BUFFER_SIZE - i,
        {
            buffer.push(None);
            i = i + 1;
        }
        RingBuffer {
            head: 0,
            tail: 0,
            buffer,
            stats: RingBufferStats::new(),
            queue: Ghost(Seq::empty()),
        }
    }

    /// Try to push a task; hands it back when the buffer is full.
    pub fn push(&mut self, task: Task) -> (r: Result<(), Task>)
        requires
            old(self).wf(),
        ensures
            final(self).wf(),
            old(self)@.len() < BUFFER_SIZE ==> r is Ok && final(self)@ == old(self)@.push(task),
            old(self)@.len() >= BUFFER_SIZE ==> r == Err::<(), Task>(task) && final(self)@ == old(self)@,
            ({
                let (p, q, e, m) = old(self).counters();
                final(self).counters() == if old(self)@.len() < BUFFER_SIZE {
                    (p.wrapping_add(1), q, e,
                     if m >= old(self)@.len() + 1 { m } else { (old(self)@.len() + 1) as u64 })
                } else {
                    (p, q, e.wrapping_add(1), m)
                }
            }),
            (final(self)@, final(self).counters()) == push_step(old(self)@, old(self).counters(), task),
    {
        let head = self.head;
        let tail = self.tail;
        let ghost len = self@.len();
        assert(head.wrapping_sub(tail) == len);
        if head.wrapping_sub(tail) >= BUFFER_SIZE {
            self.stats.push_errors = self.stats.push_errors.wrapping_add(1);
            return Err(task);
        }
        let pos = self.head;
        self.head = self.head.wrapping_add(1);
        let slot = pos & BUFFER_MASK;
        proof {
            lemma_mask(pos);
            let t0 = (tail % BUFFER_SIZE) as int;
            lemma_wrap_mod(tail + len);
            assert((tail + len) % (BUFFER_SIZE as int) == slot_of(t0, len as int)) by {
                assert(tail == BUFFER_SIZE * (tail / BUFFER_SIZE) + t0);
                vstd::arithmetic::div_mod::lemma_mod_multiples_vanish((tail / BUFFER_SIZE) as int, t0 + len, BUFFER_SIZE as int);
                vstd::arithmetic::div_mod::lemma_small_mod(slot_of(t0, len as int) as nat, BUFFER_SIZE as nat);
                if t0 + len >= BUFFER_SIZE {
                    vstd::arithmetic::div_mod::lemma_mod_sub_multiples_vanish(t0 + len, BUFFER_SIZE as int);
                }
            }
            assert(slot as int == slot_of(t0, len as int));
            assert(offset_of(t0, slot as int) == len);
        }
        self.buffer.set(slot, Some(task));
        self.queue = Ghost(self.queue@.push(task));
        self.stats.pushes = self.stats.pushes.wrapping_add(1);
        let depth = head.wrapping_sub(tail) + 1;
        if (depth as u64) > self.stats.max_depth {
            self.stats.max_depth = depth as u64;
        }
        proof {
            let t0 = (tail % BUFFER_SIZE) as int;
            assert forall|j: int| #![trigger self.buffer@[j]] 0 <= j < BUFFER_SIZE implies
                self.buffer@[j] == (if offset_of(t0, j) < len + 1 { Some(self.queue@[offset_of(t0, j)]) } else { None }) by {
                if j != slot as int {
                    assert(old(self).buffer@[j] == self.buffer@[j]);
                }
            }
        }
        Ok(())
    }

    /// Pop the oldest task (consumer side).
    pub fn pop(&mut self) -> (r: Option<Task>)
        requires
            old(self).wf(),
        ensures
            final(self).wf(),
            old(self)@.len() == 0 ==> r is None && final(self)@ == old(self)@,
            old(self)@.len() > 0 ==> r == Some(old(self)@[0]) && final(self)@ == old(self)@.drop_first(),
            ({
                let (p, q, e, m) = old(self).counters();
                final(self).counters() == if old(self)@.len() > 0 { (p, q.wrapping_add(1), e, m) } else { (p, q, e, m) }
            }),
            (final(self)@, final(self).counters()) == pop_step(old(self)@, old(self).counters()),
            r == pop_result(old(self)@),
    {
        let tail = self.tail;
        let head = self.head;
        let ghost len = self@.len();
        if tail == head {
            return None;
        }
        let slot = tail & BUFFER_MASK;
        proof {
            lemma_mask(tail);
            let t0 = (tail % BUFFER_SIZE) as int;
            assert(offset_of(t0, slot as int) == 0);
        }
        let mut task: Option<Task> = None;
        self.buffer.set_and_swap(slot, &mut task);
        self.tail = tail.wrapping_add(1);
        let ghost q0 = self.queue@;
        self.queue = Ghost(q0.drop_first());
        proof {
            let t0 = (tail % BUFFER_SIZE) as int;
            let t1 = (self.tail % BUFFER_SIZE) as int;
            lemma_wrap_mod(tail + 1);
            assert(t1 == (if t0 + 1 < BUFFER_SIZE { t0 + 1 } else { 0 })) by {
                assert(tail == BUFFER_SIZE * (tail / BUFFER_SIZE) + t0);
                vstd::arithmetic::div_mod::lemma_mod_multiples_vanish((tail / BUFFER_SIZE) as int, t0 + 1, BUFFER_SIZE as int);
                if t0 + 1 == BUFFER_SIZE {
                    assert((t0 + 1) % (BUFFER_SIZE as int) == 0);
                } else {
                    vstd::arithmetic::div_mod::lemma_small_mod((t0 + 1) as nat, BUFFER_SIZE as nat);
                }
            }
            assert forall|j: int| #![trigger self.buffer@[j]] 0 <= j < BUFFER_SIZE implies
                self.buffer@[j] == (if offset_of(t1, j) < len - 1 { Some(self.queue@[offset_of(t1, j)]) } else { None }) by {
                if j != slot as int {
                    assert(old(self).buffer@[j] == self.buffer@[j]);
                    assert(offset_of(t1, j) == offset_of(t0, j) - 1);
                }
            }
        }
        if task.is_some() {
            self.stats.pops = self.stats.pops.wrapping_add(1);
        }
        task
    }

    /// Number of queued tasks.
    pub fn depth(&self) -> (n: usize)
        requires
            self.wf(),
        ensures
            n == self@.len(),
    {
        self.head.wrapping_sub(self.tail)
    }

    /// Performance statistics: (pushes, pops, push errors, max depth).
    pub fn stats(&self) -> (r: (u64, u64, u64, u64))
        ensures
            r == self.counters(),
    {
        (self.stats.pushes, self.stats.pops, self.stats.push_errors, self.stats.max_depth)
    }

    /// Pop up to `max` tasks into `batch`, oldest first; returns how many.
    /// (Unlike `pop`, this does not count pops in the statistics.)
    pub fn pop_batch(&mut self, batch: &mut Vec<Task>, max: usize) -> (count: usize)
        requires
            old(self).wf(),
        ensures
            final(self).wf(),
            count == (if max < old(self)@.len() { max as int } else { old(self)@.len() as int }),
            final(batch)@ == old(batch)@ + old(self)@.take(count as int),
            final(self)@ == old(self)@.skip(count as int),
            final(self).counters() == old(self).counters(),
    {
        let mut count: usize = 0;
        let ghost q0 = self@;
        let ghost b0 = batch@;
        while count < max && self.tail != self.head
            invariant
                self.wf(),
                self.counters() == old(self).counters(),
                count <= max,
                count <= q0.len(),
                self@ == q0.skip(count as int),
                batch@ == b0 + q0.take(count as int),
            ensures
                count == (if max < q0.len() { max as int } else { q0.len() as int }),
            decreases q0.len() - count,
        {
            let ghost len = self@.len();
            let tail = self.tail;
            let slot = tail & BUFFER_MASK;
            proof {
                lemma_mask(tail);
                let t0 = (tail % BUFFER_SIZE) as int;
                assert(offset_of(t0, slot as int) == 0);
                assert(len > 0);
            }
            let ghost before = self.buffer@;
            let mut task: Option<Task> = None;
        self.buffer.set_and_swap(slot, &mut task);
            match task {
                Some(t) => {
                    batch.push(t);
                    self.tail = tail.wrapping_add(1);
                    let ghost q1 = self.queue@;
                    self.queue = Ghost(q1.drop_first());
                    proof {
                        let t0 = (tail % BUFFER_SIZE) as int;
                        let t1 = (self.tail % BUFFER_SIZE) as int;
                        lemma_wrap_mod(tail + 1);
                        assert(t1 == (if t0 + 1 < BUFFER_SIZE { t0 + 1 } else { 0 })) by {
                            assert(tail == BUFFER_SIZE * (tail / BUFFER_SIZE) + t0);
                            vstd::arithmetic::div_mod::lemma_mod_multiples_vanish((tail / BUFFER_SIZE) as int, t0 + 1, BUFFER_SIZE as int);
                            if t0 + 1 == BUFFER_SIZE {
                                assert((t0 + 1) % (BUFFER_SIZE as int) == 0);
                            } else {
                                vstd::arithmetic::div_mod::lemma_small_mod((t0 + 1) as nat, BUFFER_SIZE as nat);
                            }
                        }
                        assert forall|j: int| #![trigger self.buffer@[j]] 0 <= j < BUFFER_SIZE implies
                            self.buffer@[j] == (if offset_of(t1, j) < len - 1 { Some(self.queue@[offset_of(t1, j)]) } else { None }) by {
                            if j != slot as int {
                                assert(offset_of(t1, j) == offset_of(t0, j) - 1);
                            }
                        }
                        assert(q0.skip(count + 1) =~= q1.drop_first());
                        assert(b0 + q0.take(count + 1) =~= (b0 + q0.take(count as int)).push(q1[0]));
                    }
                    count = count + 1;
                },
                None => {
                    proof {
                        assert(before[slot as int] is Some);
                        assert(false);
                    }
                    break;
                },
            }
        }
        count
    }
}

/// Counters of a ring buffer: successful pushes, pops, refused pushes and
/// the deepest queue seen.
pub type Counters = (u64, u64, u64, u64);

/// Queue and counters after a push of `task` (refused when full).
pub open spec fn push_step(q: Seq<Task>, c: Counters, task: Task) -> (Seq<Task>, Counters) {
    if q.len() < BUFFER_SIZE {
        (q.push(task), (c.0.wrapping_add(1), c.1, c.2, if c.3 >= q.len() + 1 { c.3 } else { (q.len() + 1) as u64 }))
    } else {
        (q, (c.0, c.1, c.2.wrapping_add(1), c.3))
    }
}

/// Queue and counters after a pop.
pub open spec fn pop_step(q: Seq<Task>, c: Counters) -> (Seq<Task>, Counters) {
    if q.len() > 0 {
        (q.drop_first(), (c.0, c.1.wrapping_add(1), c.2, c.3))
    } else {
        (q, c)
    }
}

/// What a pop returns: the oldest task, if any.
pub open spec fn pop_result(q: Seq<Task>) -> Option<Task> {
    if q.len() > 0 { Some(q[0]) } else { None }
}

/// One operation: `Some(t)` pushes `t`, `None` pops.
pub open spec fn op_step(st: (Seq<Task>, Counters), op: Option<Task>) -> (Seq<Task>, Counters) {
    match op {
        Some(t) => push_step(st.0, st.1, t),
        None => pop_step(st.0, st.1),
    }
}

/// The state of a new buffer: empty queue, zero counters.
pub open spec fn start_state() -> (Seq<Task>, Counters) {
    (Seq::empty(), (0u64, 0u64, 0u64, 0u64))
}

/// The state after the operations `ops`, in order, from a new buffer.
pub open spec fn run_ops(ops: Seq<Option<Task>>) -> (Seq<Task>, Counters)
    decreases ops.len(),
{
    if ops.len() == 0 {
        start_state()
    } else {
        op_step(run_ops(ops.drop_last()), ops.last())
    }
}

/// Whether the last of `ops` is a push that succeeds.
pub open spec fn last_push_ok(ops: Seq<Option<Task>>) -> bool {
    ops.len() > 0 && ops.last() is Some && run_ops(ops.drop_last()).0.len() < BUFFER_SIZE
}

/// Whether the last of `ops` is a push that is refused.
pub open spec fn last_push_refused(ops: Seq<Option<Task>>) -> bool {
    ops.len() > 0 && ops.last() is Some && run_ops(ops.drop_last()).0.len() >= BUFFER_SIZE
}

/// Whether the last of `ops` is a pop that returns a task.
pub open spec fn last_pop_ok(ops: Seq<Option<Task>>) -> bool {
    ops.len() > 0 && ops.last() is None && run_ops(ops.drop_last()).0.len() > 0
}

/// Number of pushes among `ops` that succeed.
pub open spec fn ok_pushes(ops: Seq<Option<Task>>) -> nat
    decreases ops.len(),
{
    if ops.len() == 0 { 0 } else { ok_pushes(ops.drop_last()) + if last_push_ok(ops) { 1nat } else { 0nat } }
}

/// Number of pops among `ops` that return a task.
pub open spec fn ok_pops(ops: Seq<Option<Task>>) -> nat
    decreases ops.len(),
{
    if ops.len() == 0 { 0 } else { ok_pops(ops.drop_last()) + if last_pop_ok(ops) { 1nat } else { 0nat } }
}

/// Number of pushes among `ops` that are refused.
pub open spec fn refused_pushes(ops: Seq<Option<Task>>) -> nat
    decreases ops.len(),
{
    if ops.len() == 0 { 0 } else { refused_pushes(ops.drop_last()) + if last_push_refused(ops) { 1nat } else { 0nat } }
}

/// The largest depth right after a successful push among `ops` (0 if none).
pub open spec fn max_depth_seen(ops: Seq<Option<Task>>) -> nat
    decreases ops.len(),
{
    if ops.len() == 0 {
        0
    } else {
        let prev = max_depth_seen(ops.drop_last());
        let d = run_ops(ops.drop_last()).0.len() + 1;
        if last_push_ok(ops) && d > prev { d } else { prev }
    }
}

/// What the pops among `ops` return, in order.
pub open spec fn pop_results(ops: Seq<Option<Task>>) -> Seq<Option<Task>>
    decreases ops.len(),
{
    if ops.len() == 0 {
        Seq::empty()
    } else if ops.last() is None {
        pop_results(ops.drop_last()).push(pop_result(run_ops(ops.drop_last()).0))
    } else {
        pop_results(ops.drop_last())
    }
}

/// Depth law: after any operations on a new buffer, the depth is the
/// number of successful pushes minus the number of successful pops, and
/// never above the capacity.
pub proof fn law_depth(ops: Seq<Option<Task>>)
    ensures
        run_ops(ops).0.len() == ok_pushes(ops) - ok_pops(ops),
        run_ops(ops).0.len() <= BUFFER_SIZE,
        ok_pops(ops) <= ok_pushes(ops),
    decreases ops.len(),
{
    if ops.len() > 0 {
        law_depth(ops.drop_last());
    }
}

/// Counter law: after at most `u64::MAX` operations on a new buffer, the
/// statistics are the numbers of successful pushes, of successful pops, of
/// refused pushes, and the largest depth right after a successful push.
pub proof fn law_counters(ops: Seq<Option<Task>>)
    requires
        ops.len() <= u64::MAX,
    ensures
        ok_pushes(ops) + ok_pops(ops) + refused_pushes(ops) <= ops.len(),
        max_depth_seen(ops) <= BUFFER_SIZE,
        run_ops(ops).1 == (ok_pushes(ops) as u64, ok_pops(ops) as u64, refused_pushes(ops) as u64,
            max_depth_seen(ops) as u64),
    decreases ops.len(),
{
    if ops.len() > 0 {
        let prev = ops.drop_last();
        law_counters(prev);
        law_depth(prev);
    }
}

/// The operations that push each of `ts` in turn.
pub open spec fn pushes_of(ts: Seq<Task>) -> Seq<Option<Task>> {
    ts.map_values(|t: Task| Some(t))
}

/// `n` pops.
pub open spec fn pops(n: nat) -> Seq<Option<Task>> {
    Seq::new(n, |i: int| None::<Task>)
}

proof fn lemma_pushes_fill(ts: Seq<Task>, i: int)
    requires
        ts.len() <= BUFFER_SIZE,
        0 <= i <= ts.len(),
    ensures
        run_ops(pushes_of(ts.take(i))).0 == ts.take(i),
        pop_results(pushes_of(ts.take(i))) == Seq::<Option<Task>>::empty(),
    decreases i,
{
    if i > 0 {
        lemma_pushes_fill(ts, i - 1);
        assert(pushes_of(ts.take(i)).drop_last() =~= pushes_of(ts.take(i - 1)));
        assert(ts.take(i - 1).push(ts[i - 1]) =~= ts.take(i));
    } else {
        assert(pushes_of(ts.take(0)) =~= Seq::<Option<Task>>::empty());
        assert(ts.take(0) =~= Seq::<Task>::empty());
    }
}

proof fn lemma_pops_drain(ts: Seq<Task>, j: int)
    requires
        ts.len() <= BUFFER_SIZE,
        0 <= j <= ts.len() + 1,
    ensures
        run_ops(pushes_of(ts) + pops(j as nat)).0 == (if j <= ts.len() { ts.skip(j) } else { Seq::<Task>::empty() }),
        pop_results(pushes_of(ts) + pops(j as nat)) == (if j <= ts.len() {
            pushes_of(ts.take(j))
        } else {
            pushes_of(ts).push(None)
        }),
    decreases j,
{
    if j == 0 {
        lemma_pushes_fill(ts, ts.len() as int);
        assert(ts.take(ts.len() as int) =~= ts);
        assert(pushes_of(ts) + pops(0) =~= pushes_of(ts));
        assert(ts.skip(0) =~= ts);
        assert(pushes_of(ts.take(0)) =~= Seq::<Option<Task>>::empty());
    } else {
        lemma_pops_drain(ts, j - 1);
        let ops = pushes_of(ts) + pops(j as nat);
        assert(ops.drop_last() =~= pushes_of(ts) + pops((j - 1) as nat));
        assert(ops.last() is None);
        if j <= ts.len() {
            assert(ts.skip(j - 1).drop_first() =~= ts.skip(j));
            assert(pushes_of(ts.take(j - 1)).push(Some(ts.skip(j - 1)[0])) =~= pushes_of(ts.take(j)));
        } else {
            assert(ts.skip(ts.len() as int) =~= Seq::<Task>::empty());
            assert(ts.take(ts.len() as int) =~= ts);
        }
    }
}

/// First in, first out: on a new buffer, after pushing up to its capacity
/// of tasks, as many pops return them in the order pushed, and one more
/// pop returns nothing.
pub proof fn law_fifo(ts: Seq<Task>)
    requires
        ts.len() <= BUFFER_SIZE,
    ensures
        pop_results(pushes_of(ts) + pops((ts.len() + 1) as nat)) == pushes_of(ts).push(None),
        ok_pushes(pushes_of(ts)) == ts.len(),
{
    lemma_pops_drain(ts, ts.len() + 1int);
    lemma_ok_pushes_fill(ts, ts.len() as int);
    assert(ts.take(ts.len() as int) =~= ts);
}

proof fn lemma_ok_pushes_fill(ts: Seq<Task>, i: int)
    requires
        ts.len() <= BUFFER_SIZE,
        0 <= i <= ts.len(),
    ensures
        ok_pushes(pushes_of(ts.take(i))) == i,
    decreases i,
{
    if i > 0 {
        lemma_ok_pushes_fill(ts, i - 1);
        lemma_pushes_fill(ts, i - 1);
        assert(pushes_of(ts.take(i)).drop_last() =~= pushes_of(ts.take(i - 1)));
    } else {
        assert(pushes_of(ts.take(0)) =~= Seq::<Option<Task>>::empty());
    }
}

/// Holder for a ring buffer that is handed out only once initialized.
pub struct RingBufferStore {
    inner: Option<RingBuffer>,
    initialized: bool,
}

impl RingBufferStore {
    /// An empty, uninitialized store.
    pub fn new() -> (s: Self)
        ensures
            !s.is_initialized(),
    {
        RingBufferStore { inner: None, initialized: false }
    }

    /// Whether the store has been initialized.
    pub closed spec fn is_initialized(&self) -> bool {
        self.initialized
    }

    /// The buffer held by the store, if any.
    pub closed spec fn buffer(&self) -> Option<RingBuffer> {
        self.inner
    }

    /// The buffer, if the store is initialized.
    pub fn get(&self) -> (r: Option<&RingBuffer>)
        ensures
            !self.is_initialized() ==> r is None,
            self.is_initialized() ==> (r is Some <==> self.buffer() is Some),
            r matches Some(b) ==> self.buffer() == Some(*b),
    {
        if !self.initialized {
            return None;
        }
        self.inner.as_ref()
    }
}

} // verus!
