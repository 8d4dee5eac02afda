//! Calls to the daemon: the circuit breaker that stops them after repeated
//! connection failures and lets them through again after a recovery delay,
//! and the project root a call registers first.
use vstd::prelude::*;
use crate::mmap_build::{path_file_name, path_parent, std_path_file_name, std_path_parent};

verus! {

/// Failed connections that trip the breaker, unless configured otherwise.
pub const DEFAULT_THRESHOLD: usize = 5;

/// Seconds a tripped breaker waits before letting a call through.
pub const DEFAULT_RECOVERY_DELAY: u64 = 30;

/// State of the circuit breaker.
#[derive(Debug, Clone, Copy, PartialEq, Eq, Structural)]
pub struct CircuitBreaker {
    /// Whether calls are refused.
    pub tripped: bool,
    /// When it tripped (seconds since the epoch).
    pub trip_time: u64,
    /// Consecutive failed connections.
    pub failed_count: usize,
    /// Failed connections that trip it.
    pub threshold: usize,
    /// Seconds to wait after a trip.
    pub recovery_delay: u64,
}

/// The breaker after asking, at `now`, whether a call may go ahead, and
/// the answer: a closed breaker lets it through; a tripped one does once
/// the recovery delay has passed since the trip, closing and clearing its
/// count; else it refuses and stays as it is.
pub open spec fn allow_spec(b: CircuitBreaker, now: u64) -> (CircuitBreaker, bool) {
    if !b.tripped {
        (b, true)
    } else if now >= b.trip_time + b.recovery_delay {
        (CircuitBreaker { tripped: false, failed_count: 0, ..b }, true)
    } else {
        (b, false)
    }
}

/// The breaker after a failed connection at `now`, and whether it tripped
/// then: the count goes up by one (wrapping); reaching the threshold trips
/// a closed breaker and records the time.
pub open spec fn failure_spec(b: CircuitBreaker, now: u64) -> (CircuitBreaker, bool) {
    let count = b.failed_count.wrapping_add(1);
    if count >= b.threshold && !b.tripped {
        (CircuitBreaker { tripped: true, trip_time: now, failed_count: count, ..b }, true)
    } else {
        (CircuitBreaker { failed_count: count, ..b }, false)
    }
}

impl CircuitBreaker {
    /// A closed breaker without failures.
    pub fn new(threshold: usize, recovery_delay: u64) -> (b: Self)
        ensures
            b == (CircuitBreaker { tripped: false, trip_time: 0, failed_count: 0, threshold, recovery_delay }),
    {
        CircuitBreaker { tripped: false, trip_time: 0, failed_count: 0, threshold, recovery_delay }
    }

    /// Whether a call may go ahead at `now` (see `allow_spec`).
    pub fn allow_call(&mut self, now: u64) -> (ok: bool)
        ensures
            (*final(self), ok) == allow_spec(*old(self), now),
    {
        if !self.tripped {
            return true;
        }
        if now >= self.trip_time && now - self.trip_time >= self.recovery_delay {
            self.tripped = false;
            self.failed_count = 0;
            true
        } else {
            false
        }
    }

    /// Record a failed connection at `now`; returns whether the breaker
    /// tripped with it (see `failure_spec`).
    pub fn on_failure(&mut self, now: u64) -> (tripped_now: bool)
        ensures
            (*final(self), tripped_now) == failure_spec(*old(self), now),
    {
        let count = self.failed_count.wrapping_add(1);
        self.failed_count = count;
        if count >= self.threshold && !self.tripped {
            self.tripped = true;
            self.trip_time = now;
            true
        } else {
            false
        }
    }

    /// Record a successful connection: the failure count starts over.
    pub fn on_success(&mut self)
        ensures
            *final(self) == (CircuitBreaker { failed_count: 0, ..*old(self) }),
    {
        self.failed_count = 0;
    }
}

/// Once a failure trips the breaker at time `t`, every call before
/// `t + recovery_delay` is refused (and changes nothing), and a call at any
/// later time goes ahead and closes the breaker.
pub proof fn law_refused_until_recovery(b: CircuitBreaker, t: u64, now: u64)
    requires
        failure_spec(b, t).1,
    ensures
        now < t + b.recovery_delay ==> allow_spec(failure_spec(b, t).0, now) == (failure_spec(b, t).0, false),
        now >= t + b.recovery_delay ==> allow_spec(failure_spec(b, t).0, now).1 && !allow_spec(failure_spec(b, t).0, now).0.tripped
            && allow_spec(failure_spec(b, t).0, now).0.failed_count == 0,
{
}

/// A closed breaker lets every call through and is left as it is.
pub proof fn law_closed_allows(b: CircuitBreaker, now: u64)
    requires
        !b.tripped,
    ensures
        allow_spec(b, now) == (b, true),
{
}

/// From no failures, the breaker trips exactly at the failure that brings
/// the count to the threshold (for a threshold of at least one).
pub proof fn law_trips_at_threshold(b: CircuitBreaker, now: u64)
    requires
        !b.tripped,
        b.threshold >= 1,
        b.failed_count < usize::MAX,
    ensures
        failure_spec(b, now).1 == (b.failed_count + 1 >= b.threshold),
        failure_spec(b, now).0.failed_count == b.failed_count + 1,
{
}

/// Project root that a daemon call registers: the `VRIFT_PROJECT_ROOT`
/// setting when set; else the parent of the manifest path, or of that
/// parent when it is named `.vrift` (a path without parent stands for
/// itself); else nothing to register (empty).
pub open spec fn registration_root_spec(project_root: Option<Seq<char>>, manifest: Option<Seq<char>>) -> Seq<char> {
    match project_root {
        Some(r) => r,
        None => match manifest {
            None => Seq::empty(),
            Some(m) => {
                let parent = match std_path_parent(m) {
                    Some(p) => p,
                    None => m,
                };
                if std_path_file_name(parent) == Some(".vrift"@) {
                    match std_path_parent(parent) {
                        Some(q) => q,
                        None => parent,
                    }
                } else {
                    parent
                }
            },
        },
    }
}

/// The project root a daemon call registers (see `registration_root_spec`).
pub fn registration_root(project_root: Option<&str>, manifest: Option<&str>) -> (r: String)
    ensures
        r@ == registration_root_spec(
            match project_root {
                Some(p) => Some(p@),
                None => None,
            },
            match manifest {
                Some(m) => Some(m@),
                None => None,
            },
        ),
{
    match project_root {
        Some(r) => String::from_str(r),
        None => match manifest {
            None => {
                proof { reveal_strlit(""); }
                String::from_str("")
            },
            Some(m) => {
                let parent = match path_parent(m) {
                    Some(p) => p,
                    None => String::from_str(m),
                };
                let is_dot_vrift = match path_file_name(parent.as_str()) {
                    Some(n) => equal_text(n.as_str(), ".vrift"),
                    None => false,
                };
                if is_dot_vrift {
                    match path_parent(parent.as_str()) {
                        Some(q) => q,
                        None => parent,
                    }
                } else {
                    parent
                }
            },
        },
    }
}

/// Whether two texts are equal.
pub(crate) fn equal_text(a: &str, b: &str) -> (r: bool)
    ensures
        r == (a@ == b@),
{
    let ab = a.as_bytes();
    let bb = b.as_bytes();
    let same = ab.len() == bb.len() && crate::bytes::starts_with(ab, bb);
    proof {
        if ab.len() == bb.len() {
            assert(ab@.take(bb@.len() as int) =~= ab@);
        }
        vstd::utf8::encode_utf8_decode_utf8(a@);
        vstd::utf8::encode_utf8_decode_utf8(b@);
    }
    same
}

} // verus!
