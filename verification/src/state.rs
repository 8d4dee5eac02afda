//! Inception-layer state: initialization states, log levels, the flight
//! recorder, the in-memory log ring, fixed-capacity strings, and the
//! decisions taken around them (log-level parsing, FD-usage alerts,
//! worker backoff, project-root derivation).
use vstd::prelude::*;
use vstd::string::StringSliceAdditionalSpecFns;
use crate::text::utf8_str;

pub use crate::fnv::fnv1a_hash;
pub use crate::dirty::DirtyTracker;

verus! {

/// Initialization state machine of the inception layer.
#[derive(Debug, Clone, Copy, PartialEq, Eq, Structural)]
pub enum InceptionState {
    /// Active (0).
    Ready,
    /// Rust runtime initialized, safe (1).
    RustInit,
    /// Early dyld bootstrap, hazardous (2).
    EarlyInit,
    /// Initialization in progress (3).
    Busy,
}

/// Numeric code of an initialization state.
pub open spec fn inception_code(s: InceptionState) -> u8 {
    match s {
        InceptionState::Ready => 0,
        InceptionState::RustInit => 1,
        InceptionState::EarlyInit => 2,
        InceptionState::Busy => 3,
    }
}

impl InceptionState {
    /// State for a code; unknown codes mean `EarlyInit` (safe passthrough).
    pub fn from_u8(v: u8) -> (s: Self)
        ensures
            v <= 3 ==> inception_code(s) == v,
            v > 3 ==> s == InceptionState::EarlyInit,
    {
        match v {
            0 => InceptionState::Ready,
            1 => InceptionState::RustInit,
            2 => InceptionState::EarlyInit,
            3 => InceptionState::Busy,
            _ => InceptionState::EarlyInit,
        }
    }

    /// Numeric code of this state.
    pub fn code(&self) -> (c: u8)
        ensures
            c == inception_code(*self),
    {
        match self {
            InceptionState::Ready => 0,
            InceptionState::RustInit => 1,
            InceptionState::EarlyInit => 2,
            InceptionState::Busy => 3,
        }
    }
}

/// Name of an initialization state code as telemetry reports it:
/// `Ready`, `RustInit`, `EarlyInit`, `Busy`, else `Unknown`.
pub fn inception_state_name(code: u8) -> (s: &'static str)
    ensures
        code == 0 ==> s@ == "Ready"@,
        code == 1 ==> s@ == "RustInit"@,
        code == 2 ==> s@ == "EarlyInit"@,
        code == 3 ==> s@ == "Busy"@,
        code > 3 ==> s@ == "Unknown"@,
{
    match code {
        0 => "Ready",
        1 => "RustInit",
        2 => "EarlyInit",
        3 => "Busy",
        _ => "Unknown",
    }
}

/// What fetching the layer's state does.
#[derive(Debug, Clone, Copy, PartialEq, Eq, Structural)]
pub enum GetStep {
    /// Use the initialized state.
    Use,
    /// Fall back to the real calls.
    Fallback,
    /// Move the initialization state from `Ready` to `Busy` and initialize.
    Initialize,
}

/// What fetching the layer's state does: an initialized layer is used;
/// else initialization starts only from `Ready` (code 0); in any other
/// state (`RustInit` included, since only `Ready` moves to `Busy`) the
/// call falls back to the real system call.
pub fn get_step(initialized: bool, init_code: u8) -> (r: GetStep)
    ensures
        initialized ==> r == GetStep::Use,
        !initialized && init_code == 0 ==> r == GetStep::Initialize,
        !initialized && init_code != 0 ==> r == GetStep::Fallback,
{
    if initialized {
        GetStep::Use
    } else if init_code == InceptionState::Ready.code() {
        GetStep::Initialize
    } else {
        GetStep::Fallback
    }
}

/// Granular log level.
#[derive(Debug, Clone, Copy, PartialEq, Eq, Structural)]
pub enum LogLevel {
    Trace,
    Debug,
    Info,
    Warn,
    Error,
    Off,
}

/// Numeric code of a log level (0 = trace ... 5 = off).
pub open spec fn level_code(l: LogLevel) -> u8 {
    match l {
        LogLevel::Trace => 0,
        LogLevel::Debug => 1,
        LogLevel::Info => 2,
        LogLevel::Warn => 3,
        LogLevel::Error => 4,
        LogLevel::Off => 5,
    }
}

impl LogLevel {
    /// Level for a code; codes above 4 mean `Off`.
    pub fn from_u8(v: u8) -> (l: Self)
        ensures
            v <= 5 ==> level_code(l) == v,
            v > 5 ==> l == LogLevel::Off,
    {
        match v {
            0 => LogLevel::Trace,
            1 => LogLevel::Debug,
            2 => LogLevel::Info,
            3 => LogLevel::Warn,
            4 => LogLevel::Error,
            _ => LogLevel::Off,
        }
    }

    /// Numeric code of this level.
    pub fn code(&self) -> (c: u8)
        ensures
            c == level_code(*self),
    {
        match self {
            LogLevel::Trace => 0,
            LogLevel::Debug => 1,
            LogLevel::Info => 2,
            LogLevel::Warn => 3,
            LogLevel::Error => 4,
            LogLevel::Off => 5,
        }
    }
}

/// ASCII lower-casing of one byte.
pub open spec fn ascii_lower(b: u8) -> u8 {
    if 0x41 <= b <= 0x5a { (b + 32) as u8 } else { b }
}

/// ASCII case-insensitive equality of byte strings.
pub open spec fn eq_ignore_ascii_case_spec(a: Seq<u8>, b: Seq<u8>) -> bool {
    a.len() == b.len() && forall|i: int| 0 <= i < a.len() ==> ascii_lower(#[trigger] a[i]) == ascii_lower(b[i])
}

fn eq_ignore_ascii_case(a: &[u8], b: &[u8]) -> (r: bool)
    ensures
        r == eq_ignore_ascii_case_spec(a@, b@),
{
    if a.len() != b.len() {
        return false;
    }
    let mut i: usize = 0;
    while i < a.len()
        invariant
            a@.len() == b@.len(),
            0 <= i <= a@.len(),
            forall|k: int| 0 <= k < i ==> ascii_lower(#[trigger] a@[k]) == ascii_lower(b@[k]),
        decreases a@.len() - i,
    {
        let x = a[i];
        let y = b[i];
        let lx = if 0x41 <= x && x <= 0x5a { x + 32 } else { x };
        let ly = if 0x41 <= y && y <= 0x5a { y + 32 } else { y };
        if lx != ly {
            return false;
        }
        i = i + 1;
    }
    true
}

/// The level named by a configuration value (`trace`, `debug`, `info`,
/// `warn`, `error`, `off`, in any ASCII case); anything else means `Info`.
pub open spec fn level_of_name(name: Seq<u8>) -> LogLevel {
    if eq_ignore_ascii_case_spec(name, seq![0x74u8, 0x72, 0x61, 0x63, 0x65]) {
        LogLevel::Trace
    } else if eq_ignore_ascii_case_spec(name, seq![0x64u8, 0x65, 0x62, 0x75, 0x67]) {
        LogLevel::Debug
    } else if eq_ignore_ascii_case_spec(name, seq![0x69u8, 0x6e, 0x66, 0x6f]) {
        LogLevel::Info
    } else if eq_ignore_ascii_case_spec(name, seq![0x77u8, 0x61, 0x72, 0x6e]) {
        LogLevel::Warn
    } else if eq_ignore_ascii_case_spec(name, seq![0x65u8, 0x72, 0x72, 0x6f, 0x72]) {
        LogLevel::Error
    } else if eq_ignore_ascii_case_spec(name, seq![0x6fu8, 0x66, 0x66]) {
        LogLevel::Off
    } else {
        LogLevel::Info
    }
}

/// Parse the log-level setting.
pub fn parse_log_level(name: &[u8]) -> (l: LogLevel)
    ensures
        l == level_of_name(name@),
{
    let trace: [u8; 5] = [0x74, 0x72, 0x61, 0x63, 0x65];
    let debug: [u8; 5] = [0x64, 0x65, 0x62, 0x75, 0x67];
    let info: [u8; 4] = [0x69, 0x6e, 0x66, 0x6f];
    let warn: [u8; 4] = [0x77, 0x61, 0x72, 0x6e];
    let error: [u8; 5] = [0x65, 0x72, 0x72, 0x6f, 0x72];
    let off: [u8; 3] = [0x6f, 0x66, 0x66];
    proof {
        assert(trace@ =~= seq![0x74u8, 0x72, 0x61, 0x63, 0x65]);
        assert(debug@ =~= seq![0x64u8, 0x65, 0x62, 0x75, 0x67]);
        assert(info@ =~= seq![0x69u8, 0x6e, 0x66, 0x6f]);
        assert(warn@ =~= seq![0x77u8, 0x61, 0x72, 0x6e]);
        assert(error@ =~= seq![0x65u8, 0x72, 0x72, 0x6f, 0x72]);
        assert(off@ =~= seq![0x6fu8, 0x66, 0x66]);
    }
    if eq_ignore_ascii_case(name, trace.as_slice()) {
        LogLevel::Trace
    } else if eq_ignore_ascii_case(name, debug.as_slice()) {
        LogLevel::Debug
    } else if eq_ignore_ascii_case(name, info.as_slice()) {
        LogLevel::Info
    } else if eq_ignore_ascii_case(name, warn.as_slice()) {
        LogLevel::Warn
    } else if eq_ignore_ascii_case(name, error.as_slice()) {
        LogLevel::Error
    } else if eq_ignore_ascii_case(name, off.as_slice()) {
        LogLevel::Off
    } else {
        LogLevel::Info
    }
}

/// Kind of event in the flight recorder.
#[derive(Debug, Clone, Copy, PartialEq, Eq, Structural)]
pub enum EventType {
    OpenHit,
    OpenMiss,
    StatHit,
    StatMiss,
    CowTriggered,
    IpcFail,
    IpcSuccess,
    CircuitTripped,
    VfsInit,
    Close,
    ReingestSuccess,
    ReingestFail,
}

/// Numeric code of an event type (1 to 12).
pub open spec fn event_code(e: EventType) -> u8 {
    match e {
        EventType::OpenHit => 1,
        EventType::OpenMiss => 2,
        EventType::StatHit => 3,
        EventType::StatMiss => 4,
        EventType::CowTriggered => 5,
        EventType::IpcFail => 6,
        EventType::IpcSuccess => 7,
        EventType::CircuitTripped => 8,
        EventType::VfsInit => 9,
        EventType::Close => 10,
        EventType::ReingestSuccess => 11,
        EventType::ReingestFail => 12,
    }
}

impl EventType {
    /// Numeric code of this event type.
    pub fn code(&self) -> (c: u8)
        ensures
            c == event_code(*self),
    {
        match self {
            EventType::OpenHit => 1,
            EventType::OpenMiss => 2,
            EventType::StatHit => 3,
            EventType::StatMiss => 4,
            EventType::CowTriggered => 5,
            EventType::IpcFail => 6,
            EventType::IpcSuccess => 7,
            EventType::CircuitTripped => 8,
            EventType::VfsInit => 9,
            EventType::Close => 10,
            EventType::ReingestSuccess => 11,
            EventType::ReingestFail => 12,
        }
    }
}

/// Display name of an event code; `INVALID` beyond the table and
/// `UNKNOWN` for code 0.
pub fn event_name(code: u8) -> (s: &'static str)
    ensures
        code == 0 ==> s@ == "UNKNOWN"@,
        code == 1 ==> s@ == "OpenHit"@,
        code == 12 ==> s@ == "ReingestFail"@,
        code > 12 ==> s@ == "INVALID"@,
{
    match code {
        0 => "UNKNOWN",
        1 => "OpenHit",
        2 => "OpenMiss",
        3 => "StatHit",
        4 => "StatMiss",
        5 => "CowTriggered",
        6 => "IpcFail",
        7 => "IpcSuccess",
        8 => "CircuitTripped",
        9 => "VfsInit",
        10 => "Close",
        11 => "ReingestSuccess",
        12 => "ReingestFail",
        _ => "INVALID",
    }
}

/// One flight-recorder record (32 bytes).
#[derive(Debug, Clone, Copy)]
pub struct FlightEntry {
    pub timestamp: u64,
    pub event_type: u8,
    pub _pad: [u8; 7],
    /// 64-bit FNV-1a hash identifying the file.
    pub file_id: u64,
    pub result: i32,
    pub _pad2: [u8; 4],
}

/// An all-zero flight entry.
pub open spec fn zero_entry_spec(e: FlightEntry) -> bool {
    e.timestamp == 0 && e.event_type == 0 && e.file_id == 0 && e.result == 0
}

/// Number of records with event code `c` among positions `[start, end)`
/// of the ring `buf` (positions taken modulo the ring size).
pub open spec fn count_events(buf: Seq<FlightEntry>, start: int, end: int, c: u8) -> nat
    decreases end - start,
{
    if end <= start {
        0
    } else {
        count_events(buf, start, end - 1, c) + if buf[(end - 1) % (FLIGHT_RECORDER_SIZE as int)].event_type == c { 1nat } else { 0nat }
    }
}

/// Number of flight-recorder slots (32K entries, 1 MiB).
pub const FLIGHT_RECORDER_SIZE: usize = 32768;

/// Ring of the most recent events.
pub struct FlightRecorder {
    pub buffer: Vec<FlightEntry>,
    pub head: usize,
}

impl FlightRecorder {
    /// A recorder with all slots zeroed and the head at 0.
    pub fn new() -> (r: Self)
        ensures
            r.buffer@.len() == FLIGHT_RECORDER_SIZE,
            r.head == 0,
            forall|i: int| 0 <= i < FLIGHT_RECORDER_SIZE ==> zero_entry_spec(#[trigger] r.buffer@[i]),
    {
        let mut buffer: Vec<FlightEntry> = Vec::new();
        let mut i: usize = 0;
        while i < FLIGHT_RECORDER_SIZE
            invariant
                0 <= i <= FLIGHT_RECORDER_SIZE,
                buffer@.len() == i,
                forall|j: int| 0 <= j < i ==> zero_entry_spec(#[trigger] buffer@[j]),
            decreases FLIGHT_RECORDER_SIZE - i,
        {
            buffer.push(FlightEntry { timestamp: 0, event_type: 0, _pad: [0u8; 7], file_id: 0, result: 0, _pad2: [0u8; 4] });
            i = i + 1;
        }
        FlightRecorder { buffer, head: 0 }
    }

    /// Record an event at slot `head % SIZE` and advance the head (wrapping).
    pub fn record(&mut self, event: EventType, file_id: u64, result: i32, timestamp: u64)
        requires
            old(self).buffer@.len() == FLIGHT_RECORDER_SIZE,
        ensures
            final(self).buffer@.len() == FLIGHT_RECORDER_SIZE,
            final(self).head == old(self).head.wrapping_add(1),
            ({
                let idx = old(self).head as int % FLIGHT_RECORDER_SIZE as int;
                let e = final(self).buffer@[idx];
                &&& e.timestamp == timestamp
                &&& e.event_type == event_code(event)
                &&& e.file_id == file_id
                &&& e.result == result
                &&& e._pad == old(self).buffer@[idx]._pad
                &&& e._pad2 == old(self).buffer@[idx]._pad2
                &&& forall|j: int| 0 <= j < FLIGHT_RECORDER_SIZE && j != idx ==> final(self).buffer@[j] == old(self).buffer@[j]
            }),
    {
        let idx = self.head % FLIGHT_RECORDER_SIZE;
        self.head = self.head.wrapping_add(1);
        let mut e = self.buffer[idx];
        e.timestamp = timestamp;
        e.event_type = event.code();
        e.file_id = file_id;
        e.result = result;
        self.buffer.set(idx, e);
    }

    /// Per-event-type counts over the last (up to) `window` recorded slots,
    /// indexed by event code (codes 1 to 15 are counted).
    pub fn recent_event_counts(&self, window: usize) -> (counts: Vec<u32>)
        requires
            self.buffer@.len() == FLIGHT_RECORDER_SIZE,
            window <= 1000,
        ensures
            counts@.len() == 16,
            counts@[0] == 0,
            forall|c: int| 1 <= c < 16 ==> #[trigger] counts@[c] == count_events(
                self.buffer@,
                if self.head > window { self.head - window } else { 0 },
                self.head as int,
                c as u8,
            ),
    {
        let mut counts: Vec<u32> = Vec::new();
        let mut c: usize = 0;
        while c < 16
            invariant
                0 <= c <= 16,
                counts@.len() == c,
                forall|j: int| 0 <= j < c ==> counts@[j] == 0,
            decreases 16 - c,
        {
            counts.push(0);
            c = c + 1;
        }
        let head = self.head;
        let start = if head > window { head - window } else { 0 };
        let mut i = start;
        while i < head
            invariant
                self.buffer@.len() == FLIGHT_RECORDER_SIZE,
                start <= i <= head,
                head - start <= 1000,
                counts@.len() == 16,
                counts@[0] == 0,
                forall|j: int| 1 <= j < 16 ==> #[trigger] counts@[j] == count_events(self.buffer@, start as int, i as int, j as u8),
                forall|j: int| 0 <= j < 16 ==> counts@[j] <= i - start,
            decreases head - i,
        {
            let t = self.buffer[i % FLIGHT_RECORDER_SIZE].event_type;
            let ghost before = counts@;
            if t > 0 && t < 16 {
                let k = t as usize;
                counts.set(k, counts[k] + 1);
            }
            proof {
                assert forall|j: int| 1 <= j < 16 implies #[trigger] counts@[j] == count_events(self.buffer@, start as int, i + 1, j as u8) by {
                    assert(count_events(self.buffer@, start as int, i + 1, j as u8)
                        == count_events(self.buffer@, start as int, i as int, j as u8)
                            + if self.buffer@[(i as int) % (FLIGHT_RECORDER_SIZE as int)].event_type == j as u8 { 1nat } else { 0nat });
                }
            }
            i = i + 1;
        }
        counts
    }
}


/// Size of the in-memory log ring (64 KiB).
pub const LOG_BUF_SIZE: usize = 65536;

/// Position in the ring of byte `j` relative to a write starting at ring slot `s0`.
pub open spec fn ring_offset(s0: int, j: int) -> int {
    if j >= s0 { j - s0 } else { j - s0 + LOG_BUF_SIZE }
}

/// The ring after writing `msg` starting at ring slot `s0` (wrapping around).
pub open spec fn ring_write(old: Seq<u8>, s0: int, msg: Seq<u8>) -> Seq<u8> {
    Seq::new(old.len(), |j: int| if ring_offset(s0, j) < msg.len() { msg[ring_offset(s0, j)] } else { old[j] })
}

/// In-memory log: a 64 KiB byte ring written at a monotonically advancing head.
pub struct Logger {
    buffer: Vec<u8>,
    head: usize,
}

impl Logger {
    /// The ring contents.
    pub closed spec fn ring(&self) -> Seq<u8> {
        self.buffer@
    }

    /// Total number of bytes ever logged (wrapping): the write position.
    pub closed spec fn cursor(&self) -> usize {
        self.head
    }

    /// An empty log.
    pub fn new() -> (l: Self)
        ensures
            l.ring() == Seq::new(LOG_BUF_SIZE as nat, |i: int| 0u8),
            l.cursor() == 0,
    {
        let mut buffer: Vec<u8> = Vec::new();
        let mut i: usize = 0;
        while i < LOG_BUF_SIZE
            invariant
                0 <= i <= LOG_BUF_SIZE,
                buffer@.len() == i,
                forall|j: int| 0 <= j < i ==> buffer@[j] == 0,
            decreases LOG_BUF_SIZE - i,
        {
            buffer.push(0);
            i = i + 1;
        }
        let l = Logger { buffer, head: 0 };
        assert(l.ring() =~= Seq::new(LOG_BUF_SIZE as nat, |i: int| 0u8));
        l
    }

    /// Append a message to the ring; messages longer than the ring are dropped.
    pub fn log(&mut self, msg: &str)
        requires
            old(self).ring().len() == LOG_BUF_SIZE,
        ensures
            final(self).ring().len() == LOG_BUF_SIZE,
            msg.spec_bytes().len() > LOG_BUF_SIZE ==> final(self).ring() == old(self).ring() && final(self).cursor() == old(self).cursor(),
            msg.spec_bytes().len() <= LOG_BUF_SIZE ==> {
                &&& final(self).cursor() == old(self).cursor().wrapping_add(msg.spec_bytes().len() as usize)
                &&& final(self).ring() == ring_write(old(self).ring(), old(self).cursor() as int % LOG_BUF_SIZE as int, msg.spec_bytes())
            },
    {
        let bytes = msg.as_bytes();
        let len = bytes.len();
        if len > LOG_BUF_SIZE {
            return;
        }
        let start = self.head;
        self.head = self.head.wrapping_add(len);
        let s0 = start % LOG_BUF_SIZE;
        let ghost old_ring = self.buffer@;
        let mut i: usize = 0;
        while i < len
            invariant
                len == bytes@.len(),
                len <= LOG_BUF_SIZE,
                s0 < LOG_BUF_SIZE,
                s0 == start % LOG_BUF_SIZE,
                self.head == start.wrapping_add(len),
                old_ring.len() == LOG_BUF_SIZE,
                self.buffer@.len() == LOG_BUF_SIZE,
                0 <= i <= len,
                forall|j: int| 0 <= j < LOG_BUF_SIZE ==> #[trigger] self.buffer@[j] == (
                    if ring_offset(s0 as int, j) < i { bytes@[ring_offset(s0 as int, j)] } else { old_ring[j] }),
            decreases len - i,
        {
            let pos = if s0 + i < LOG_BUF_SIZE { s0 + i } else { s0 + i - LOG_BUF_SIZE };
            self.buffer.set(pos, bytes[i]);
            proof {
                assert(ring_offset(s0 as int, pos as int) == i);
            }
            i = i + 1;
        }
        proof {
            assert(self.buffer@ =~= ring_write(old_ring, s0 as int, bytes@));
        }
    }

    /// The logged bytes in order, oldest first: the whole ring rotated at
    /// the head once it has wrapped, otherwise the bytes written so far.
    pub fn snapshot(&self) -> (out: Vec<u8>)
        requires
            self.ring().len() == LOG_BUF_SIZE,
        ensures
            self.cursor() > LOG_BUF_SIZE ==> out@ == self.ring().subrange(self.cursor() as int % LOG_BUF_SIZE as int, LOG_BUF_SIZE as int)
                + self.ring().take(self.cursor() as int % LOG_BUF_SIZE as int),
            self.cursor() <= LOG_BUF_SIZE ==> out@ == self.ring().take(self.cursor() as int),
    {
        let mut out: Vec<u8> = Vec::new();
        if self.head > LOG_BUF_SIZE {
            let start = self.head % LOG_BUF_SIZE;
            let mut i = start;
            while i < LOG_BUF_SIZE
                invariant
                    self.buffer@.len() == LOG_BUF_SIZE,
                    start <= i <= LOG_BUF_SIZE,
                    out@ == self.buffer@.subrange(start as int, i as int),
                decreases LOG_BUF_SIZE - i,
            {
                out.push(self.buffer[i]);
                proof { assert(self.buffer@.subrange(start as int, i + 1) =~= self.buffer@.subrange(start as int, i as int).push(self.buffer@[i as int])); }
                i = i + 1;
            }
            let mut k: usize = 0;
            while k < start
                invariant
                    self.buffer@.len() == LOG_BUF_SIZE,
                    start < LOG_BUF_SIZE,
                    0 <= k <= start,
                    out@ == self.buffer@.subrange(start as int, LOG_BUF_SIZE as int) + self.buffer@.take(k as int),
                decreases start - k,
            {
                out.push(self.buffer[k]);
                proof { assert(self.buffer@.take(k + 1) =~= self.buffer@.take(k as int).push(self.buffer@[k as int])); }
                k = k + 1;
            }
        } else {
            let mut i: usize = 0;
            while i < self.head
                invariant
                    self.buffer@.len() == LOG_BUF_SIZE,
                    self.head <= LOG_BUF_SIZE,
                    0 <= i <= self.head,
                    out@ == self.buffer@.take(i as int),
                decreases self.head - i,
            {
                out.push(self.buffer[i]);
                proof { assert(self.buffer@.take(i + 1) =~= self.buffer@.take(i as int).push(self.buffer@[i as int])); }
                i = i + 1;
            }
        }
        out
    }
}

/// Zero-allocation string storage of at most `N` bytes.
pub struct FixedString<const N: usize> {
    data: Vec<u8>,
    len: usize,
}

impl<const N: usize> FixedString<N> {
    #[verifier::type_invariant]
    spec fn fits(&self) -> bool {
        self.data@.len() == N && self.len <= N
    }

    /// The stored bytes.
    pub closed spec fn bytes(&self) -> Seq<u8> {
        self.data@.take(self.len as int)
    }

    /// An empty string.
    pub fn new() -> (s: Self)
        ensures
            s.bytes() == Seq::<u8>::empty(),
    {
        let mut data: Vec<u8> = Vec::new();
        let mut i: usize = 0;
        while i < N
            invariant
                0 <= i <= N,
                data@.len() == i,
            decreases N - i,
        {
            data.push(0);
            i = i + 1;
        }
        let s = FixedString { data, len: 0 };
        assert(s.bytes() =~= Seq::<u8>::empty());
        s
    }

    /// Store `s`, truncated to its first `N` bytes.
    pub fn set(&mut self, s: &str)
        ensures
            final(self).bytes() == s.spec_bytes().take(if s.spec_bytes().len() < N { s.spec_bytes().len() as int } else { N as int }),
    {
        self.set_bytes(s.as_bytes());
    }

    /// Store the bytes `bytes`, truncated to the first `N`.
    pub fn set_bytes(&mut self, bytes: &[u8])
        ensures
            final(self).bytes() == bytes@.take(if bytes@.len() < N { bytes@.len() as int } else { N as int }),
    {
        proof { use_type_invariant(&*self); }
        let to_copy = if bytes.len() < N { bytes.len() } else { N };
        let mut data: Vec<u8> = Vec::new();
        let mut i: usize = 0;
        while i < N
            invariant
                self.data@.len() == N,
                to_copy <= N,
                to_copy <= bytes@.len(),
                0 <= i <= N,
                data@.len() == i,
                forall|j: int| 0 <= j < i && j < to_copy ==> data@[j] == bytes@[j],
            decreases N - i,
        {
            if i < to_copy {
                data.push(bytes[i]);
            } else {
                data.push(self.data[i]);
            }
            i = i + 1;
        }
        *self = FixedString { data, len: to_copy };
        proof {
            assert(self.bytes() =~= bytes@.take(to_copy as int));
        }
    }

    /// Number of stored bytes.
    pub fn byte_len(&self) -> (n: usize)
        ensures
            n == self.bytes().len(),
    {
        proof { use_type_invariant(self); }
        self.len
    }

    /// The stored text, or the empty string if the stored bytes are not
    /// valid UTF-8 (for example after truncation inside a character).
    pub fn as_str(&self) -> (r: &str)
        ensures
            vstd::utf8::valid_utf8(self.bytes()) ==> r.spec_bytes() == self.bytes(),
            !vstd::utf8::valid_utf8(self.bytes()) ==> r@ == ""@ && r.spec_bytes() == Seq::<u8>::empty(),
    {
        proof {
            reveal_strlit("");
            assert(""@ =~= Seq::<char>::empty());
        }
        proof { use_type_invariant(self); }
        let (head, _) = self.data.as_slice().split_at(self.len);
        assert(head@ =~= self.bytes());
        match utf8_str(head) {
            Some(s) => s,
            None => "",
        }
    }

    /// Whether nothing is stored.
    pub fn is_empty(&self) -> (r: bool)
        ensures
            r == (self.bytes().len() == 0),
    {
        proof { use_type_invariant(self); }
        self.len == 0
    }
}

/// Mark the VFS as active (daemon handshake succeeded).
pub fn activate_vfs(flag: &mut u8)
    ensures
        *final(flag) == 1,
{
    *flag = 1;
}

/// Whether the VFS flag says the VFS is active.
pub fn is_vfs_ready(flag: u8) -> (r: bool)
    ensures
        r == (flag != 0),
{
    flag != 0
}

/// What the FD-usage monitor should do after one observation.
#[derive(Debug, Clone, Copy, PartialEq, Eq, Structural)]
pub enum FdUsageAction {
    /// Nothing to report or change.
    Nothing,
    /// Publish `new_packed` (threshold in the high 32 bits, time in the low
    /// 32 bits) and warn that usage reached `threshold` percent bands.
    Alert { threshold: u64, usage_pct: usize, new_packed: u64 },
    /// Usage dropped below 50%: clear the last alert.
    Reset,
}

/// Usage band: 85 (critical), 70 (warning) or 0.
pub open spec fn usage_threshold(pct: int) -> u64 {
    if pct >= 85 { 85 } else if pct >= 70 { 70 } else { 0 }
}

/// The FD-usage decision for soft limit `soft`, `count` open descriptors,
/// last alert state `packed` and current time `now` (seconds).
pub open spec fn fd_usage_spec(soft: usize, count: usize, packed: u64, now: u64) -> FdUsageAction {
    if soft == 0 {
        FdUsageAction::Nothing
    } else {
        let pct = (count * 100) / (soft as int);
        let t = usage_threshold(pct);
        let last_t = packed / 0x1_0000_0000;
        let last_time = packed % 0x1_0000_0000;
        if t > 0 {
            if t > last_t || (t == last_t && now >= last_time + 10) {
                FdUsageAction::Alert {
                    threshold: t,
                    usage_pct: pct as usize,
                    new_packed: (t * 0x1_0000_0000 + now % 0x1_0000_0000) as u64,
                }
            } else {
                FdUsageAction::Nothing
            }
        } else if pct < 50 && packed != 0 {
            FdUsageAction::Reset
        } else {
            FdUsageAction::Nothing
        }
    }
}

/// Smart FD-usage monitoring: thresholds at 70% (warning) and 85%
/// (critical); a band alerts when first reached, or again after 10 seconds
/// at the same band; below 50% the alert state is cleared.
pub fn fd_usage_action(soft: usize, count: usize, packed: u64, now: u64) -> (a: FdUsageAction)
    requires
        count <= usize::MAX / 100,
    ensures
        a == fd_usage_spec(soft, count, packed, now),
{
    if soft == 0 {
        return FdUsageAction::Nothing;
    }
    let usage_pct = (count * 100) / soft;
    let threshold: u64 = if usage_pct >= 85 { 85 } else if usage_pct >= 70 { 70 } else { 0 };
    if threshold > 0 {
        let last_threshold = packed >> 32;
        let last_time = packed & 0xFFFF_FFFF;
        proof {
            assert(packed >> 32 == packed / 0x1_0000_0000) by (bit_vector);
            assert(packed & 0xFFFF_FFFF == packed % 0x1_0000_0000) by (bit_vector);
        }
        if threshold > last_threshold || (threshold == last_threshold && now >= last_time + 10) {
            let new_packed = (threshold << 32) | (now & 0xFFFF_FFFF);
            proof {
                assert(threshold <= 85 ==> (threshold << 32) | (now & 0xFFFF_FFFF) == threshold * 0x1_0000_0000 + now % 0x1_0000_0000) by (bit_vector);
            }
            return FdUsageAction::Alert { threshold, usage_pct, new_packed };
        }
        FdUsageAction::Nothing
    } else if usage_pct < 50 && packed != 0 {
        FdUsageAction::Reset
    } else {
        FdUsageAction::Nothing
    }
}

/// Name of an alert band: `CRITICAL` from 85, else `WARNING`.
pub fn alert_level_name(threshold: u64) -> (s: &'static str)
    ensures
        threshold >= 85 ==> s@ == "CRITICAL"@,
        threshold < 85 ==> s@ == "WARNING"@,
{
    if threshold >= 85 { "CRITICAL" } else { "WARNING" }
}

/// What the idle worker does next.
#[derive(Debug, Clone, Copy, PartialEq, Eq, Structural)]
pub enum BackoffAction {
    /// Busy-spin once.
    Spin,
    /// Yield the CPU.
    Yield,
    /// Sleep for a microsecond.
    Sleep,
}

/// Adaptive backoff of the idle worker: the idle count grows by one (capped
/// at 1000); spin below 10, yield below 100, sleep otherwise.
pub fn next_backoff(count: u32) -> (r: (u32, BackoffAction))
    ensures
        r.0 == (if count >= 1000 { 1000 } else { count + 1 }),
        r.0 < 10 ==> r.1 == BackoffAction::Spin,
        10 <= r.0 < 100 ==> r.1 == BackoffAction::Yield,
        r.0 >= 100 ==> r.1 == BackoffAction::Sleep,
{
    let c = count.saturating_add(1);
    let c = if c < 1000 { c } else { 1000 };
    let action = if c < 10 {
        BackoffAction::Spin
    } else if c < 100 {
        BackoffAction::Yield
    } else {
        BackoffAction::Sleep
    };
    (c, action)
}

/// Index of the last `/` among the first `n` bytes, or 0 if there is none.
pub open spec fn last_slash_in(b: Seq<u8>, n: int) -> int
    decreases n,
{
    if n <= 0 {
        0
    } else if b[n - 1] == 0x2f {
        n - 1
    } else {
        last_slash_in(b, n - 1)
    }
}

/// `b` ends with `suffix`.
pub open spec fn ends_with_bytes(b: Seq<u8>, suffix: Seq<u8>) -> bool {
    suffix.len() <= b.len() && b.subrange(b.len() - suffix.len(), b.len() as int) == suffix
}

/// Length of the project-root prefix of a manifest path: its parent
/// directory (or the whole path when no slash follows the first byte),
/// with a trailing `/.vrift` or `.vrift` removed.
pub open spec fn manifest_root_len_spec(b: Seq<u8>) -> int {
    let ls = last_slash_in(b, b.len() as int);
    let root_len = if ls > 0 { ls } else { b.len() as int };
    let part = b.take(root_len);
    if ends_with_bytes(part, seq![0x2fu8, 0x2e, 0x76, 0x72, 0x69, 0x66, 0x74]) {
        root_len - 7
    } else if ends_with_bytes(part, seq![0x2eu8, 0x76, 0x72, 0x69, 0x66, 0x74]) {
        root_len - 6
    } else {
        root_len
    }
}

fn ends_with(b: &[u8], n: usize, suffix: &[u8]) -> (r: bool)
    requires
        n <= b@.len(),
    ensures
        r == ends_with_bytes(b@.take(n as int), suffix@),
{
    let m = suffix.len();
    if m > n {
        return false;
    }
    let mut j: usize = 0;
    while j < m
        invariant
            m == suffix@.len(),
            m <= n,
            n <= b@.len(),
            0 <= j <= m,
            forall|k: int| 0 <= k < j ==> b@[n - m + k] == suffix@[k],
        decreases m - j,
    {
        if b[n - m + j] != suffix[j] {
            proof {
                assert(b@.take(n as int).subrange(n - m, n as int)[j as int] == b@[n - m + j]);
            }
            return false;
        }
        j = j + 1;
    }
    proof {
        assert(b@.take(n as int).subrange(n - m, n as int) =~= suffix@);
    }
    true
}

/// Project root of a manifest path, as a byte length of its prefix: the
/// parent of `/path/.vrift/manifest.lmdb` and of `/path/manifest.lmdb` is `/path`.
pub fn manifest_root_len(manifest: &[u8]) -> (n: usize)
    ensures
        n == manifest_root_len_spec(manifest@),
        n <= manifest@.len(),
{
    let len = manifest.len();
    let mut last_slash: usize = 0;
    let mut i: usize = 0;
    while i < len
        invariant
            len == manifest@.len(),
            0 <= i <= len,
            last_slash < len || last_slash == 0,
            last_slash == last_slash_in(manifest@, i as int),
        decreases len - i,
    {
        if manifest[i] == 0x2f {
            last_slash = i;
        } else {
            proof {
                assert(last_slash_in(manifest@, i + 1) == last_slash_in(manifest@, i as int));
            }
        }
        i = i + 1;
    }
    proof {
        lemma_last_slash_bound(manifest@, len as int);
    }
    let root_len = if last_slash > 0 { last_slash } else { len };
    let dot_vrift_slash: [u8; 7] = [0x2f, 0x2e, 0x76, 0x72, 0x69, 0x66, 0x74];
    let dot_vrift: [u8; 6] = [0x2e, 0x76, 0x72, 0x69, 0x66, 0x74];
    proof {
        assert(dot_vrift_slash@ =~= seq![0x2fu8, 0x2e, 0x76, 0x72, 0x69, 0x66, 0x74]);
        assert(dot_vrift@ =~= seq![0x2eu8, 0x76, 0x72, 0x69, 0x66, 0x74]);
    }
    if ends_with(manifest, root_len, dot_vrift_slash.as_slice()) {
        root_len - 7
    } else if ends_with(manifest, root_len, dot_vrift.as_slice()) {
        root_len - 6
    } else {
        root_len
    }
}

proof fn lemma_last_slash_bound(b: Seq<u8>, n: int)
    requires
        0 <= n <= b.len(),
    ensures
        0 <= last_slash_in(b, n) <= n,
        last_slash_in(b, n) == 0 || last_slash_in(b, n) < n,
    decreases n,
{
    if n > 0 && b[n - 1] != 0x2f {
        lemma_last_slash_bound(b, n - 1);
    }
}

/// CAS root with a leading `~/` expanded against the home directory, when
/// one is known; any other path is kept as given.
pub fn expand_cas_root(raw: &str, home: Option<&str>) -> (r: String)
    ensures
        (raw@.len() >= 2 && raw@[0] == '~' && raw@[1] == '/' && home is Some) ==>
            r@ == home.unwrap()@ + raw@.skip(1),
        !(raw@.len() >= 2 && raw@[0] == '~' && raw@[1] == '/' && home is Some) ==> r@ == raw@,
{
    let n = raw.unicode_len();
    if n >= 2 && raw.get_char(0) == '~' && raw.get_char(1) == '/' {
        match home {
            Some(h) => {
                let rest = raw.substring_char(1, n);
                assert(rest@ =~= raw@.skip(1));
                String::from_str(h).concat(rest)
            },
            None => String::from_str(raw),
        }
    } else {
        String::from_str(raw)
    }
}

} // verus!
