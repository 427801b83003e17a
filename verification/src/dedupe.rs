//! Recognising ids that were seen a short while ago.

use vstd::prelude::*;

use crate::clock::{is_within, law_span_ends_after_its_nanoseconds, within, Clock};
use crate::table::{kept, Table};

verus! {

/// The number of ids from which on expired ones are dropped before an id is looked up.
pub const MAX_SEEN_IDS: usize = 10_000;

/// The ids that were seen, with the moment at which each was recorded.
pub struct DedupeCache {
    seen: Table<u128>,
    ttl_secs: u64,
    clock: Clock,
}

/// The entries that were recorded less than `ttl` seconds before `now`.
pub open spec fn unexpired(m: Map<Seq<char>, u128>, now: u128, ttl: u64) -> Map<Seq<char>, u128> {
    kept(m, |at: u128| within(at, now, ttl))
}

/// The entries among which an id is looked up at `now`.
pub open spec fn swept(m: Map<Seq<char>, u128>, now: u128, ttl: u64) -> Map<Seq<char>, u128> {
    if m.len() >= MAX_SEEN_IDS {
        unexpired(m, now, ttl)
    } else {
        m
    }
}

/// Whether `id` was recorded less than `ttl` seconds before `now`.
pub open spec fn seen_recently(
    m: Map<Seq<char>, u128>,
    id: Seq<char>,
    now: u128,
    ttl: u64,
) -> bool {
    m.contains_key(id) && within(m[id], now, ttl)
}

/// The entries after `id` came in at `now`: a recent id keeps its entry, another one is recorded.
pub open spec fn after_sighting(
    m: Map<Seq<char>, u128>,
    id: Seq<char>,
    now: u128,
    ttl: u64,
) -> Map<Seq<char>, u128> {
    if seen_recently(m, id, now, ttl) {
        swept(m, now, ttl)
    } else {
        swept(m, now, ttl).insert(id, now)
    }
}

impl DedupeCache {
    /// The ids that were seen, with the moments at which they were recorded.
    pub closed spec fn view(&self) -> Map<Seq<char>, u128> {
        self.seen@
    }

    /// How long an id counts as seen, in seconds.
    pub closed spec fn ttl(&self) -> u64 {
        self.ttl_secs
    }

    /// The clock that moments are read from.
    pub closed spec fn clock(&self) -> Clock {
        self.clock
    }

    pub closed spec fn wf(&self) -> bool {
        self.seen.wf()
    }

    /// A cache that has seen nothing.
    pub fn new(ttl_secs: u64) -> (r: Self)
        ensures
            r.wf(),
            r@ == Map::<Seq<char>, u128>::empty(),
            r.ttl() == ttl_secs,
            r.clock().started(),
    {
        DedupeCache { seen: Table::new(), ttl_secs, clock: Clock::start() }
    }

    /// The current time in nanoseconds, by the clock of the cache.
    pub(crate) fn now(&self) -> (r: u128)
        ensures
            self.clock().reads(r),
    {
        self.clock.now()
    }

    /// Returns true if this id was already seen (duplicate); else records it. `now` is the current
    /// time in nanoseconds.
    pub fn is_duplicate_at(&mut self, id: &str, now: u128) -> (r: bool)
        requires
            old(self).wf(),
        ensures
            final(self).wf(),
            final(self).ttl() == old(self).ttl(),
            final(self).clock() == old(self).clock(),
            r == seen_recently(old(self)@, id@, now, old(self).ttl()),
            final(self)@ == after_sighting(old(self)@, id@, now, old(self).ttl()),
    {
        let ttl: u64 = self.ttl_secs;
        if self.seen.len() >= MAX_SEEN_IDS {
            let ghost p = |at: u128| within(at, now, ttl);
            let keep = |at: u128| -> (b: bool)
                ensures
                    b == within(at, now, ttl),
            {
                is_within(at, now, ttl)
            };
            self.seen.retain(keep, Ghost(p));
        }
        if let Some(at) = self.seen.get(id) {
            if is_within(at, now, ttl) {
                return true;
            }
        }
        self.seen.insert(id, now);
        false
    }

    /// Returns true if this id was already seen (duplicate); else records it. The moment is read
    /// from the clock of the cache.
    pub fn is_duplicate(&mut self, id: &str) -> (r: bool)
        requires
            old(self).wf(),
        ensures
            final(self).wf(),
            final(self).ttl() == old(self).ttl(),
            final(self).clock() == old(self).clock(),
            exists|now: u128|
                old(self).clock().reads(now) && r == #[trigger] seen_recently(
                    old(self)@,
                    id@,
                    now,
                    old(self).ttl(),
                ) && final(self)@ == after_sighting(old(self)@, id@, now, old(self).ttl()),
    {
        let now: u128 = self.now();
        self.is_duplicate_at(id, now)
    }
}

/// The entries after the sightings, each an id and a moment, in order.
pub open spec fn after_sightings(
    m: Map<Seq<char>, u128>,
    sightings: Seq<(Seq<char>, u128)>,
    ttl: u64,
) -> Map<Seq<char>, u128>
    decreases sightings.len(),
{
    if sightings.len() == 0 {
        m
    } else {
        let (id, now) = sightings.last();
        after_sighting(after_sightings(m, sightings.drop_last(), ttl), id, now, ttl)
    }
}

/// An id that comes in for the first time is no duplicate.
pub proof fn law_first_sighting_is_no_duplicate(id: Seq<char>, now: u128, ttl: u64)
    ensures
        !seen_recently(Map::<Seq<char>, u128>::empty(), id, now, ttl),
{
}

/// An id that was just recorded is a duplicate for as long as its time to live lasts, whatever
/// else comes in meanwhile.
pub proof fn law_recorded_id_is_duplicate_until_expiry(
    m: Map<Seq<char>, u128>,
    id: Seq<char>,
    at: u128,
    meanwhile: Seq<(Seq<char>, u128)>,
    now: u128,
    ttl: u64,
)
    requires
        !seen_recently(m, id, at, ttl),
        forall|i: int| 0 <= i < meanwhile.len() ==> within(at, (#[trigger] meanwhile[i]).1, ttl),
        within(at, now, ttl),
    ensures
        seen_recently(
            after_sightings(after_sighting(m, id, at, ttl), meanwhile, ttl),
            id,
            now,
            ttl,
        ),
{
    lemma_entry_stays(after_sighting(m, id, at, ttl), id, at, meanwhile, ttl);
}

/// An entry that does not expire meanwhile stays as it is.
pub proof fn lemma_entry_stays(
    m: Map<Seq<char>, u128>,
    id: Seq<char>,
    at: u128,
    meanwhile: Seq<(Seq<char>, u128)>,
    ttl: u64,
)
    requires
        m.contains_key(id),
        m[id] == at,
        forall|i: int| 0 <= i < meanwhile.len() ==> within(at, (#[trigger] meanwhile[i]).1, ttl),
    ensures
        after_sightings(m, meanwhile, ttl).contains_key(id),
        after_sightings(m, meanwhile, ttl)[id] == at,
    decreases meanwhile.len(),
{
    if meanwhile.len() > 0 {
        assert(within(at, meanwhile[meanwhile.len() - 1].1, ttl));
        lemma_entry_stays(m, id, at, meanwhile.drop_last(), ttl);
    }
}

/// Once its time to live is over, an id is no duplicate and is recorded anew.
pub proof fn law_expired_id_is_recorded_anew(
    m: Map<Seq<char>, u128>,
    id: Seq<char>,
    now: u128,
    ttl: u64,
)
    requires
        m.contains_key(id),
        !within(m[id], now, ttl),
    ensures
        !seen_recently(m, id, now, ttl),
        after_sighting(m, id, now, ttl).contains_key(id),
        after_sighting(m, id, now, ttl)[id] == now,
{
}

/// A duplicate does not prolong the life of its entry.
pub proof fn law_duplicate_keeps_its_moment(
    m: Map<Seq<char>, u128>,
    id: Seq<char>,
    now: u128,
    ttl: u64,
)
    requires
        seen_recently(m, id, now, ttl),
    ensures
        after_sighting(m, id, now, ttl).contains_key(id),
        after_sighting(m, id, now, ttl)[id] == m[id],
{
}

/// Dropping expired entries never changes whether an id is a duplicate.
pub proof fn law_sweeping_changes_no_answer(
    m: Map<Seq<char>, u128>,
    id: Seq<char>,
    now: u128,
    ttl: u64,
)
    ensures
        seen_recently(swept(m, now, ttl), id, now, ttl) == seen_recently(m, id, now, ttl),
{
}

/// An id is a duplicate exactly if it is recorded and less than the time to live, in seconds of a
/// thousand million nanoseconds, has passed since then.
pub proof fn law_duplicate_is_recorded_within_the_ttl(
    m: Map<Seq<char>, u128>,
    id: Seq<char>,
    now: u128,
    ttl: u64,
)
    requires
        m.contains_key(id) ==> m[id] <= now,
    ensures
        seen_recently(m, id, now, ttl) <==> m.contains_key(id) && now - m[id] < ttl
            * 1_000_000_000,
{
    law_span_ends_after_its_nanoseconds(m[id], now, ttl);
}

/// An id that is no duplicate is recorded with the moment at which it came in.
pub proof fn law_new_id_is_recorded(m: Map<Seq<char>, u128>, id: Seq<char>, now: u128, ttl: u64)
    requires
        !seen_recently(m, id, now, ttl),
    ensures
        after_sighting(m, id, now, ttl).contains_key(id),
        after_sighting(m, id, now, ttl)[id] == now,
{
}

/// Nothing but the id that came in is recorded. Of the other ids, none is lost that is still in its
/// time; all are kept while there are fewer than 10000, and from then on those whose time is over
/// are dropped.
pub proof fn law_sighting_concerns_one_id(
    m: Map<Seq<char>, u128>,
    id: Seq<char>,
    other: Seq<char>,
    now: u128,
    ttl: u64,
)
    requires
        other != id,
    ensures
        after_sighting(m, id, now, ttl).contains_key(other) ==> m.contains_key(other)
            && after_sighting(m, id, now, ttl)[other] == m[other],
        seen_recently(m, other, now, ttl) ==> after_sighting(m, id, now, ttl).contains_key(other),
        m.len() < 10_000 && m.contains_key(other) ==> after_sighting(m, id, now, ttl).contains_key(
            other,
        ),
        m.len() >= 10_000 && !seen_recently(m, other, now, ttl) ==> !after_sighting(
            m,
            id,
            now,
            ttl,
        ).contains_key(other),
{
}

} // verus!
