//! A monotonic clock that counts nanoseconds from the moment it was started.

use vstd::prelude::*;

verus! {

/// A reading of the monotonic clock of the machine.
#[verifier::external_type_specification]
#[verifier::external_body]
pub struct ExInstant(std::time::Instant);

/// [`std::time::Instant::now`] reads the clock. Nothing is claimed of the reading.
pub assume_specification[ std::time::Instant::now ]() -> (r: std::time::Instant)
;

/// [`std::time::Instant::elapsed`] is the time that has passed since the reading. It depends on the
/// moment of the call, so nothing is claimed of it.
pub assume_specification[ std::time::Instant::elapsed ](t: &std::time::Instant) -> (r:
    std::time::Duration)
;

/// [`std::time::Duration::as_nanos`] is the length of the duration in nanoseconds. Durations come
/// from the clock alone here, so nothing is claimed of it.
pub assume_specification[ std::time::Duration::as_nanos ](d: &std::time::Duration) -> (r: u128)
;

/// Nanoseconds in a second.
pub const NANOS_PER_SEC: u128 = 1_000_000_000;

/// A clock that was started at some moment.
pub struct Clock {
    epoch: std::time::Instant,
}

impl Clock {
    /// Whether `now` is a reading of the clock: the nanoseconds of a time that
    /// [`std::time::Instant::elapsed`] can give for the moment at which the clock was started.
    pub closed spec fn reads(&self, now: u128) -> bool {
        exists|d: std::time::Duration|
            #[trigger] call_ensures(std::time::Instant::elapsed, (&self.epoch,), d)
                && call_ensures(std::time::Duration::as_nanos, (&d,), now)
    }

    /// Whether the clock was started at a moment that [`std::time::Instant::now`] can give.
    pub closed spec fn started(&self) -> bool {
        call_ensures(std::time::Instant::now, (), self.epoch)
    }

    /// Starts a clock.
    pub(crate) fn start() -> (r: Clock)
        ensures
            r.started(),
    {
        Clock { epoch: std::time::Instant::now() }
    }

    /// The nanoseconds that have passed since the clock was started.
    pub(crate) fn now(&self) -> (r: u128)
        ensures
            self.reads(r),
    {
        let d = self.epoch.elapsed();
        d.as_nanos()
    }
}

/// The whole seconds from `since` to `now`; none if `now` is the earlier one.
pub open spec fn elapsed_secs(since: u128, now: u128) -> int {
    if now >= since {
        (now - since) / (NANOS_PER_SEC as int)
    } else {
        0
    }
}

/// Whether less than `secs` seconds have passed from `since` to `now`.
pub open spec fn within(since: u128, now: u128, secs: u64) -> bool {
    elapsed_secs(since, now) < secs
}

/// Whether less than `secs` seconds have passed from `since` to `now`.
pub fn is_within(since: u128, now: u128, secs: u64) -> (r: bool)
    ensures
        r == within(since, now, secs),
{
    let elapsed: u128 = if now >= since {
        (now - since) / NANOS_PER_SEC
    } else {
        0
    };
    elapsed < secs as u128
}

/// A span of `secs` seconds ends after exactly that many thousand million nanoseconds. A moment
/// before its beginning lies in every span but an empty one.
pub proof fn law_span_ends_after_its_nanoseconds(since: u128, now: u128, secs: u64)
    ensures
        since <= now ==> (within(since, now, secs) <==> now - since < secs * 1_000_000_000),
        now < since ==> (within(since, now, secs) <==> secs > 0),
{
    if since <= now {
        let d = now - since;
        assert(d / 1_000_000_000 < secs <==> d < secs * 1_000_000_000) by (nonlinear_arith)
            requires
                d >= 0,
                secs >= 0,
        ;
    }
}

} // verus!
