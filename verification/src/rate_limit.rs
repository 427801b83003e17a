//! Counting requests per client in fixed windows of time.

use vstd::prelude::*;

use crate::clock::{is_within, law_span_ends_after_its_nanoseconds, within, Clock};
use crate::table::{kept, Table};

verus! {

/// The number of clients above which those whose windows are over are dropped.
pub const MAX_CLIENTS: usize = 4096;

/// The requests of one client in its current window, and the moment at which the window began.
#[derive(Clone, Copy)]
pub struct Window {
    pub count: u64,
    pub since: u128,
}

/// Per-client rate limiter state.
pub struct RateLimiter {
    counts: Table<Window>,
    window_secs: u64,
    max_requests: u64,
    clock: Clock,
}

/// The windows among which a client is looked up at `now`.
pub open spec fn live_windows(
    m: Map<Seq<char>, Window>,
    now: u128,
    secs: u64,
) -> Map<Seq<char>, Window> {
    if m.len() > MAX_CLIENTS {
        kept(m, |w: Window| within(w.since, now, secs))
    } else {
        m
    }
}

/// One more request, up to the greatest number that can be counted.
pub open spec fn one_more(count: u64) -> u64 {
    if count == u64::MAX {
        count
    } else {
        (count + 1) as u64
    }
}

/// The window of `key` after a request at `now`: a new one if there is none or it is over, else
/// the same one with one more request.
pub open spec fn window_after(
    m: Map<Seq<char>, Window>,
    key: Seq<char>,
    now: u128,
    secs: u64,
) -> Window {
    if m.contains_key(key) && within(m[key].since, now, secs) {
        Window { count: one_more(m[key].count), since: m[key].since }
    } else {
        Window { count: 1, since: now }
    }
}

/// Whether a request of `key` at `now` is one too many: one of a running window that comes after
/// the first `max`. A request that reopens a window that is over never is; one of an unknown client
/// is if windows of some length are to hold no request at all.
pub open spec fn exceeds(
    m: Map<Seq<char>, Window>,
    key: Seq<char>,
    now: u128,
    secs: u64,
    max: u64,
) -> bool {
    let live = live_windows(m, now, secs);
    if live.contains_key(key) {
        within(live[key].since, now, secs) && one_more(live[key].count) > max
    } else {
        secs > 0 && max == 0
    }
}

/// The windows after a request of `key` at `now`.
pub open spec fn after_request(
    m: Map<Seq<char>, Window>,
    key: Seq<char>,
    now: u128,
    secs: u64,
) -> Map<Seq<char>, Window> {
    live_windows(m, now, secs).insert(key, window_after(m, key, now, secs))
}

impl RateLimiter {
    /// The current window of each client.
    pub closed spec fn view(&self) -> Map<Seq<char>, Window> {
        self.counts@
    }

    /// The length of a window in seconds.
    pub closed spec fn window(&self) -> u64 {
        self.window_secs
    }

    /// The number of requests that a window can hold.
    pub closed spec fn max(&self) -> u64 {
        self.max_requests
    }

    /// The clock that moments are read from.
    pub closed spec fn clock(&self) -> Clock {
        self.clock
    }

    pub closed spec fn wf(&self) -> bool {
        self.counts.wf()
    }

    /// A limiter that knows no client.
    pub fn new(window_secs: u64, max_requests: u64) -> (r: Self)
        ensures
            r.wf(),
            r@ == Map::<Seq<char>, Window>::empty(),
            r.window() == window_secs,
            r.max() == max_requests,
            r.clock().started(),
    {
        RateLimiter { counts: Table::new(), window_secs, max_requests, clock: Clock::start() }
    }

    /// The current time in nanoseconds, by the clock of the limiter.
    pub(crate) fn now(&self) -> (r: u128)
        ensures
            self.clock().reads(r),
    {
        self.clock.now()
    }

    /// Returns true if the request should be rejected (rate exceeded). `now` is the current time in
    /// nanoseconds.
    pub fn check_at(&mut self, key: &str, now: u128) -> (r: bool)
        requires
            old(self).wf(),
        ensures
            final(self).wf(),
            final(self).window() == old(self).window(),
            final(self).max() == old(self).max(),
            final(self).clock() == old(self).clock(),
            r == exceeds(old(self)@, key@, now, old(self).window(), old(self).max()),
            final(self)@ == after_request(old(self)@, key@, now, old(self).window()),
    {
        let secs: u64 = self.window_secs;
        if self.counts.len() > MAX_CLIENTS {
            let ghost p = |w: Window| within(w.since, now, secs);
            let keep = |w: Window| -> (b: bool)
                ensures
                    b == within(w.since, now, secs),
            {
                is_within(w.since, now, secs)
            };
            self.counts.retain(keep, Ghost(p));
        }
        let entry = match self.counts.get(key) {
            Some(w) => w,
            None => Window { count: 0, since: now },
        };
        if is_within(entry.since, now, secs) {
            let count: u64 = if entry.count == u64::MAX {
                entry.count
            } else {
                entry.count + 1
            };
            self.counts.insert(key, Window { count, since: entry.since });
            count > self.max_requests
        } else {
            self.counts.insert(key, Window { count: 1, since: now });
            false
        }
    }

    /// Returns true if the request should be rejected (rate exceeded). The moment is read from the
    /// clock of the limiter.
    pub fn check(&mut self, key: &str) -> (r: bool)
        requires
            old(self).wf(),
        ensures
            final(self).wf(),
            final(self).window() == old(self).window(),
            final(self).max() == old(self).max(),
            final(self).clock() == old(self).clock(),
            exists|now: u128|
                old(self).clock().reads(now) && r == #[trigger] exceeds(
                    old(self)@,
                    key@,
                    now,
                    old(self).window(),
                    old(self).max(),
                ) && final(self)@ == after_request(old(self)@, key@, now, old(self).window()),
    {
        let now: u128 = self.now();
        self.check_at(key, now)
    }
}

/// The windows after the requests, each a client and a moment, in order.
pub open spec fn after_requests(
    m: Map<Seq<char>, Window>,
    requests: Seq<(Seq<char>, u128)>,
    secs: u64,
) -> Map<Seq<char>, Window>
    decreases requests.len(),
{
    if requests.len() == 0 {
        m
    } else {
        let (key, now) = requests.last();
        after_request(after_requests(m, requests.drop_last(), secs), key, now, secs)
    }
}

/// The number of requests that `key` made.
pub open spec fn requests_of(requests: Seq<(Seq<char>, u128)>, key: Seq<char>) -> nat
    decreases requests.len(),
{
    if requests.len() == 0 {
        0
    } else {
        requests_of(requests.drop_last(), key) + (if requests.last().0 == key {
            1nat
        } else {
            0nat
        })
    }
}

/// What the counter shows after `n` requests.
pub open spec fn counted(n: int) -> int {
    if n <= u64::MAX {
        n
    } else {
        u64::MAX as int
    }
}

/// Within a window that a client opened at `since`, exactly the requests after the first `max` are
/// rejected, whatever other clients do meanwhile and whether or not windows are dropped. Where
/// `max` is the greatest number that can be counted, there must be no more requests than that.
pub proof fn law_window_admits_exactly_max_requests(
    m: Map<Seq<char>, Window>,
    key: Seq<char>,
    since: u128,
    meanwhile: Seq<(Seq<char>, u128)>,
    now: u128,
    secs: u64,
    max: u64,
)
    requires
        !(m.contains_key(key) && within(m[key].since, since, secs)),
        forall|i: int| 0 <= i < meanwhile.len() ==> within(since, (#[trigger] meanwhile[i]).1, secs),
        within(since, now, secs),
        max < u64::MAX || requests_of(meanwhile, key) + 2 <= u64::MAX,
    ensures
        exceeds(
            after_requests(after_request(m, key, since, secs), meanwhile, secs),
            key,
            now,
            secs,
            max,
        ) == (requests_of(meanwhile, key) + 2 > max),
{
    lemma_window_counts(after_request(m, key, since, secs), key, since, meanwhile, secs);
}

proof fn lemma_window_counts(
    m: Map<Seq<char>, Window>,
    key: Seq<char>,
    since: u128,
    meanwhile: Seq<(Seq<char>, u128)>,
    secs: u64,
)
    requires
        m.contains_key(key),
        m[key].since == since,
        forall|i: int| 0 <= i < meanwhile.len() ==> within(since, (#[trigger] meanwhile[i]).1, secs),
    ensures
        after_requests(m, meanwhile, secs).contains_key(key),
        after_requests(m, meanwhile, secs)[key].since == since,
        after_requests(m, meanwhile, secs)[key].count == counted(
            m[key].count + requests_of(meanwhile, key),
        ),
    decreases meanwhile.len(),
{
    if meanwhile.len() > 0 {
        assert(within(since, meanwhile[meanwhile.len() - 1].1, secs));
        lemma_window_counts(m, key, since, meanwhile.drop_last(), secs);
    }
}

/// A request of a client that has no running window opens one and is not rejected, if windows can
/// hold a request at all.
pub proof fn law_opening_request_is_admitted(
    m: Map<Seq<char>, Window>,
    key: Seq<char>,
    now: u128,
    secs: u64,
    max: u64,
)
    requires
        !(m.contains_key(key) && within(m[key].since, now, secs)),
        max > 0,
    ensures
        !exceeds(m, key, now, secs, max),
        after_request(m, key, now, secs).contains_key(key),
        after_request(m, key, now, secs)[key] == (Window { count: 1, since: now }),
{
}

/// A request leaves the running windows of other clients as they are.
pub proof fn law_request_leaves_other_clients(
    m: Map<Seq<char>, Window>,
    key: Seq<char>,
    other: Seq<char>,
    now: u128,
    secs: u64,
)
    requires
        other != key,
        m.contains_key(other),
        within(m[other].since, now, secs),
    ensures
        after_request(m, key, now, secs).contains_key(other),
        after_request(m, key, now, secs)[other] == m[other],
{
}

/// Once a request of a client is rejected, every later one in the same window is too, whatever
/// comes between.
pub proof fn law_rejection_lasts_for_the_window(
    m: Map<Seq<char>, Window>,
    key: Seq<char>,
    now: u128,
    meanwhile: Seq<(Seq<char>, u128)>,
    later: u128,
    secs: u64,
    max: u64,
)
    requires
        m.contains_key(key),
        within(m[key].since, now, secs),
        exceeds(m, key, now, secs, max),
        forall|i: int|
            0 <= i < meanwhile.len() ==> within(m[key].since, (#[trigger] meanwhile[i]).1, secs),
        within(m[key].since, later, secs),
    ensures
        exceeds(
            after_requests(after_request(m, key, now, secs), meanwhile, secs),
            key,
            later,
            secs,
            max,
        ),
{
    lemma_window_counts(after_request(m, key, now, secs), key, m[key].since, meanwhile, secs);
}

/// Rejected requests do not prolong a window. A client opened a window at `since`, any requests came
/// in while it ran, and then only requests of others: once the window is over, the next request of
/// the client is admitted and opens a new window, in which exactly the requests after the first
/// `max` are rejected.
pub proof fn law_window_ends_in_time(
    m: Map<Seq<char>, Window>,
    key: Seq<char>,
    since: u128,
    running: Seq<(Seq<char>, u128)>,
    of_others: Seq<(Seq<char>, u128)>,
    reopened: u128,
    meanwhile: Seq<(Seq<char>, u128)>,
    now: u128,
    secs: u64,
    max: u64,
)
    requires
        !(m.contains_key(key) && within(m[key].since, since, secs)),
        forall|i: int| 0 <= i < running.len() ==> within(since, (#[trigger] running[i]).1, secs),
        forall|i: int| 0 <= i < of_others.len() ==> (#[trigger] of_others[i]).0 != key,
        !within(since, reopened, secs),
        forall|i: int|
            0 <= i < meanwhile.len() ==> within(reopened, (#[trigger] meanwhile[i]).1, secs),
        within(reopened, now, secs),
        max > 0,
        max < u64::MAX || requests_of(meanwhile, key) + 2 <= u64::MAX,
    ensures
        ({
            let opened = after_requests(after_request(m, key, since, secs), running, secs);
            let ended = after_requests(opened, of_others, secs);
            let anew = after_request(ended, key, reopened, secs);
            &&& !exceeds(ended, key, reopened, secs, max)
            &&& anew.contains_key(key)
            &&& anew[key] == (Window { count: 1, since: reopened })
            &&& exceeds(after_requests(anew, meanwhile, secs), key, now, secs, max) == (
            requests_of(meanwhile, key) + 2 > max)
        }),
{
    let opened = after_requests(after_request(m, key, since, secs), running, secs);
    lemma_window_counts(after_request(m, key, since, secs), key, since, running, secs);
    lemma_others_leave_the_window(opened, key, of_others, secs);
    let ended = after_requests(opened, of_others, secs);
    law_opening_request_is_admitted(ended, key, reopened, secs, max);
    law_window_admits_exactly_max_requests(ended, key, reopened, meanwhile, now, secs, max);
}

proof fn lemma_others_leave_the_window(
    m: Map<Seq<char>, Window>,
    key: Seq<char>,
    of_others: Seq<(Seq<char>, u128)>,
    secs: u64,
)
    requires
        m.contains_key(key),
        forall|i: int| 0 <= i < of_others.len() ==> (#[trigger] of_others[i]).0 != key,
    ensures
        after_requests(m, of_others, secs).contains_key(key) ==> after_requests(
            m,
            of_others,
            secs,
        )[key] == m[key],
    decreases of_others.len(),
{
    if of_others.len() > 0 {
        assert(of_others[of_others.len() - 1].0 != key);
        lemma_others_leave_the_window(m, key, of_others.drop_last(), secs);
    }
}

/// A request is rejected exactly if the client has a window that began less than `secs` seconds ago,
/// in thousand millions of nanoseconds, and that already holds `max` requests or more. Only where
/// windows are to hold none at all is the very first request of a client rejected too.
pub proof fn law_request_is_rejected_by_a_full_window(
    m: Map<Seq<char>, Window>,
    key: Seq<char>,
    now: u128,
    secs: u64,
    max: u64,
)
    requires
        max > 0,
        m.contains_key(key) ==> m[key].since <= now && m[key].count < u64::MAX,
    ensures
        exceeds(m, key, now, secs, max) <==> m.contains_key(key) && now - m[key].since < secs
            * 1_000_000_000 && m[key].count >= max,
{
    law_span_ends_after_its_nanoseconds(m[key].since, now, secs);
}

/// A request counts in the running window of its client; where there is none it opens one, which
/// begins with the request.
pub proof fn law_request_is_counted_in_its_window(
    m: Map<Seq<char>, Window>,
    key: Seq<char>,
    now: u128,
    secs: u64,
)
    requires
        m.contains_key(key) ==> m[key].since <= now && m[key].count < u64::MAX,
    ensures
        after_request(m, key, now, secs).contains_key(key),
        after_request(m, key, now, secs)[key] == (if m.contains_key(key) && now - m[key].since
            < secs * 1_000_000_000 {
            Window { count: (m[key].count + 1) as u64, since: m[key].since }
        } else {
            Window { count: 1, since: now }
        }),
{
    law_span_ends_after_its_nanoseconds(m[key].since, now, secs);
}

/// A request opens and changes no window but that of its client. Of the others none is lost that
/// still runs; all are kept up to 4096 clients, and above that those that are over are dropped.
pub proof fn law_request_concerns_one_client(
    m: Map<Seq<char>, Window>,
    key: Seq<char>,
    other: Seq<char>,
    now: u128,
    secs: u64,
)
    requires
        other != key,
    ensures
        after_request(m, key, now, secs).contains_key(other) ==> m.contains_key(other)
            && after_request(m, key, now, secs)[other] == m[other],
        m.contains_key(other) && (m.len() <= 4096 || within(m[other].since, now, secs))
            ==> after_request(m, key, now, secs).contains_key(other),
        m.len() > 4096 && m.contains_key(other) && !within(m[other].since, now, secs)
            ==> !after_request(m, key, now, secs).contains_key(other),
{
}

/// Where windows are to hold no request, every request is rejected but one that comes when the window
/// of its client is over, and windows without length reject none.
pub proof fn law_windows_for_no_requests(
    m: Map<Seq<char>, Window>,
    key: Seq<char>,
    now: u128,
    secs: u64,
)
    ensures
        secs > 0 && !m.contains_key(key) ==> exceeds(m, key, now, secs, 0),
        m.contains_key(key) && within(m[key].since, now, secs) ==> exceeds(m, key, now, secs, 0),
        m.len() <= 4096 && m.contains_key(key) && !within(m[key].since, now, secs) ==> !exceeds(
            m,
            key,
            now,
            secs,
            0,
        ),
        secs == 0 ==> !exceeds(m, key, now, secs, 0),
{
}

} // verus!
