//! The state of the adapter, and what it lets through.

use vstd::prelude::*;
use vstd::string::*;

use crate::api::{answer_view, bot_id_in, read_bot_info, ApiError};
use crate::clock::within;
use crate::config::FeishuConfig;
use crate::dedupe::{
    after_sighting, after_sightings, lemma_entry_stays, seen_recently, DedupeCache,
};
use crate::event::{
    content_text, event_view, forwarded_event, message_content, parse_message_event,
    FeishuEventBody, FeishuEventEnvelope, FeishuEventHeader, FeishuMessage,
};
use crate::json::{read_bytes, read_text, Json};
use crate::names::NameCache;
use crate::rate_limit::{RateLimiter, Window};
use crate::schema::{GatewayEvent, GatewayEventView};
use crate::text::{opt_str_view, opt_view};
use crate::token::{FeishuTokenCache, TokenCacheView};

verus! {

/// The length of the window in which the requests of a client are counted, in seconds.
pub const RATE_WINDOW_SECS: u64 = 60;

/// The number of requests of a client that one window can hold.
pub const RATE_MAX_REQUESTS: u64 = 120;

/// The adapter.
pub struct FeishuAdapter {
    pub config: FeishuConfig,
    pub token_cache: FeishuTokenCache,
    /// The id of the bot, once it is known.
    pub bot_open_id: Option<String>,
    pub dedupe: DedupeCache,
    pub rate_limiter: RateLimiter,
    pub name_cache: NameCache,
}

/// What becomes of an event, and the ids that are recorded then.
pub struct Intake {
    pub seen: Map<Seq<char>, u128>,
    pub event: Option<GatewayEventView>,
}

/// The ids that are recorded after an event with an optional id came in.
pub open spec fn after_event_id(
    seen: Map<Seq<char>, u128>,
    event_id: Option<Seq<char>>,
    now: u128,
    ttl: u64,
) -> Map<Seq<char>, u128> {
    match event_id {
        Some(id) => after_sighting(seen, id, now, ttl),
        None => seen,
    }
}

/// What becomes of an event that comes in at `first`: nothing if its id was seen a short while ago.
/// Else the message that it brings, if it brings one, is let through unless the id of the message
/// was seen a short while before `second`.
pub open spec fn intake(
    seen: Map<Seq<char>, u128>,
    ttl: u64,
    event_id: Option<Seq<char>>,
    message: Option<GatewayEventView>,
    first: u128,
    second: u128,
) -> Intake {
    let noted = after_event_id(seen, event_id, first, ttl);
    if event_id is Some && seen_recently(seen, event_id->0, first, ttl) {
        Intake { seen: noted, event: None }
    } else {
        match message {
            Some(m) => Intake {
                seen: after_sighting(noted, m.message_id, second, ttl),
                event: if seen_recently(noted, m.message_id, second, ttl) {
                    None
                } else {
                    Some(m)
                },
            },
            None => Intake { seen: noted, event: None },
        }
    }
}

/// The id of the event in an envelope.
pub open spec fn event_id_of(envelope: FeishuEventEnvelope) -> Option<Seq<char>> {
    match envelope.header {
        Some(header) => opt_view(header.event_id),
        None => None,
    }
}

/// The message that an envelope brings.
pub open spec fn message_of(
    envelope: FeishuEventEnvelope,
    bot: Option<Seq<char>>,
    config: FeishuConfig,
) -> Option<GatewayEventView> {
    forwarded_event(envelope, bot, config, content_text(message_content(envelope)))
}

/// Lets a message through unless it, or the event that brought it, was seen a short while ago.
pub fn admit_at(
    dedupe: &mut DedupeCache,
    event_id: Option<&str>,
    message: Option<GatewayEvent>,
    first: u128,
    second: u128,
) -> (r: Option<GatewayEvent>)
    requires
        old(dedupe).wf(),
    ensures
        final(dedupe).wf(),
        final(dedupe).ttl() == old(dedupe).ttl(),
        final(dedupe).clock() == old(dedupe).clock(),
        (Intake { seen: final(dedupe)@, event: event_view(r) }) == intake(
            old(dedupe)@,
            old(dedupe).ttl(),
            opt_str_view(event_id),
            event_view(message),
            first,
            second,
        ),
{
    if let Some(id) = event_id {
        if dedupe.is_duplicate_at(id, first) {
            return None;
        }
    }
    match message {
        Some(m) => {
            if dedupe.is_duplicate_at(m.message_id.as_str(), second) {
                None
            } else {
                Some(m)
            }
        },
        None => None,
    }
}

impl FeishuAdapter {
    pub open spec fn wf(&self) -> bool {
        self.dedupe.wf() && self.rate_limiter.wf() && self.name_cache.wf()
    }

    /// Whether everything but the recorded ids is the same.
    pub open spec fn differs_in_dedupe(&self, other: &Self) -> bool {
        &&& self.config == other.config
        &&& self.token_cache == other.token_cache
        &&& self.bot_open_id == other.bot_open_id
        &&& self.dedupe.ttl() == other.dedupe.ttl()
        &&& self.dedupe.clock() == other.dedupe.clock()
        &&& self.rate_limiter == other.rate_limiter
        &&& self.name_cache == other.name_cache
    }

    /// Whether everything but the windows of the clients is the same.
    pub open spec fn differs_in_windows(&self, other: &Self) -> bool {
        &&& self.config == other.config
        &&& self.token_cache == other.token_cache
        &&& self.bot_open_id == other.bot_open_id
        &&& self.dedupe == other.dedupe
        &&& self.rate_limiter.window() == other.rate_limiter.window()
        &&& self.rate_limiter.max() == other.rate_limiter.max()
        &&& self.rate_limiter.clock() == other.rate_limiter.clock()
        &&& self.name_cache == other.name_cache
    }

    /// An adapter that knows nothing but its configuration.
    pub fn new(config: FeishuConfig) -> (r: Self)
        ensures
            r.wf(),
            r.config == config,
            r.token_cache@ == (TokenCacheView {
                entry: None,
                api_base: FeishuConfig::base_of(config.domain@),
                app_id: config.app_id@,
                app_secret: config.app_secret@,
            }),
            r.token_cache.clock().started(),
            r.bot_open_id is None,
            r.dedupe@ == Map::<Seq<char>, u128>::empty(),
            r.dedupe.ttl() == config.dedupe_ttl_secs,
            r.dedupe.clock().started(),
            r.rate_limiter@ == Map::<Seq<char>, Window>::empty(),
            r.rate_limiter.window() == RATE_WINDOW_SECS,
            r.rate_limiter.max() == RATE_MAX_REQUESTS,
            r.rate_limiter.window() == 60,
            r.rate_limiter.max() == 120,
            r.rate_limiter.clock().started(),
            r.name_cache@ == Map::<Seq<char>, Seq<char>>::empty(),
    {
        let token_cache = FeishuTokenCache::new(&config);
        let dedupe = DedupeCache::new(config.dedupe_ttl_secs);
        FeishuAdapter {
            config,
            token_cache,
            bot_open_id: None,
            dedupe,
            rate_limiter: RateLimiter::new(RATE_WINDOW_SECS, RATE_MAX_REQUESTS),
            name_cache: NameCache::new(),
        }
    }

    /// The id of the bot, if it is known.
    pub fn bot_id(&self) -> (r: Option<&str>)
        ensures
            opt_str_view(r) == opt_view(self.bot_open_id),
    {
        match &self.bot_open_id {
            Some(id) => Some(id.as_str()),
            None => None,
        }
    }

    /// Learns the id of the bot from the body of the reply to the request for it. A reply that does
    /// not give the id changes nothing.
    pub fn resolve_bot_identity(&mut self, body: &[u8]) -> (r: Result<(), ApiError>)
        ensures
            final(self).config == old(self).config,
            final(self).token_cache == old(self).token_cache,
            final(self).dedupe == old(self).dedupe,
            final(self).rate_limiter == old(self).rate_limiter,
            final(self).name_cache == old(self).name_cache,
            match bot_id_in(read_bytes(body@)) {
                Ok(id) => r is Ok && opt_view(final(self).bot_open_id) == Some(id),
                Err(e) => r is Err && r->Err_0@ == e && final(self).bot_open_id == old(
                    self,
                ).bot_open_id,
            },
    {
        let answer = read_bot_info(body);
        assert(answer_view(answer) == bot_id_in(read_bytes(body@)));
        match answer {
            Ok(id) => {
                self.bot_open_id = Some(id);
                Ok(())
            },
            Err(e) => Err(e),
        }
    }

    /// What becomes of an event. `first` and `second` are the times in nanoseconds at which the ids
    /// of the event and of its message are looked up.
    pub fn accept_event_at(
        &mut self,
        envelope: &FeishuEventEnvelope,
        first: u128,
        second: u128,
    ) -> (r: Option<GatewayEvent>)
        requires
            old(self).wf(),
        ensures
            final(self).wf(),
            final(self).differs_in_dedupe(old(self)),
            (Intake { seen: final(self).dedupe@, event: event_view(r) }) == intake(
                old(self).dedupe@,
                old(self).dedupe.ttl(),
                event_id_of(*envelope),
                message_of(*envelope, opt_view(old(self).bot_open_id), old(self).config),
                first,
                second,
            ),
    {
        let event_id = match &envelope.header {
            Some(header) => match &header.event_id {
                Some(id) => Some(id.as_str()),
                None => None,
            },
            None => None,
        };
        let message = parse_message_event(envelope, self.bot_id(), &self.config);
        admit_at(&mut self.dedupe, event_id, message, first, second)
    }

    /// What becomes of an event. The moments are read from the clock.
    pub fn accept_event(&mut self, envelope: &FeishuEventEnvelope) -> (r: Option<GatewayEvent>)
        requires
            old(self).wf(),
        ensures
            final(self).wf(),
            final(self).differs_in_dedupe(old(self)),
            exists|first: u128, second: u128|
                old(self).dedupe.clock().reads(first) && old(self).dedupe.clock().reads(second)
                    && (Intake { seen: final(self).dedupe@, event: event_view(r) })
                    == #[trigger] intake(
                    old(self).dedupe@,
                    old(self).dedupe.ttl(),
                    event_id_of(*envelope),
                    message_of(*envelope, opt_view(old(self).bot_open_id), old(self).config),
                    first,
                    second,
                ),
    {
        let first: u128 = self.dedupe.now();
        let second: u128 = self.dedupe.now();
        self.accept_event_at(envelope, first, second)
    }

    /// Records the id of a message that the bot sent, so that its echo is not let through.
    pub fn record_sent_at(&mut self, message_id: &str, now: u128)
        requires
            old(self).wf(),
        ensures
            final(self).wf(),
            final(self).differs_in_dedupe(old(self)),
            final(self).dedupe@ == after_sighting(
                old(self).dedupe@,
                message_id@,
                now,
                old(self).dedupe.ttl(),
            ),
    {
        let _ = self.dedupe.is_duplicate_at(message_id, now);
    }

    /// Records the id of a message that the bot sent, so that its echo is not let through. The
    /// moment is read from the clock.
    pub fn record_sent(&mut self, message_id: &str)
        requires
            old(self).wf(),
        ensures
            final(self).wf(),
            final(self).differs_in_dedupe(old(self)),
            exists|now: u128|
                old(self).dedupe.clock().reads(now) && final(self).dedupe@
                    == #[trigger] after_sighting(
                    old(self).dedupe@,
                    message_id@,
                    now,
                    old(self).dedupe.ttl(),
                ),
    {
        let now: u128 = self.dedupe.now();
        self.record_sent_at(message_id, now);
    }
}

/// An event that comes in again while its id counts as seen brings no message, whatever it brought
/// the first time and whatever else is seen meanwhile.
pub proof fn law_event_is_let_through_once(
    seen: Map<Seq<char>, u128>,
    ttl: u64,
    event_id: Seq<char>,
    message: Option<GatewayEventView>,
    first: u128,
    second: u128,
    meanwhile: Seq<(Seq<char>, u128)>,
    again: Option<GatewayEventView>,
    third: u128,
    fourth: u128,
)
    requires
        !seen_recently(seen, event_id, first, ttl),
        first <= second <= third,
        forall|i: int| 0 <= i < meanwhile.len() ==> within(first, (#[trigger] meanwhile[i]).1, ttl),
        within(first, third, ttl),
    ensures
        intake(
            after_sightings(
                intake(seen, ttl, Some(event_id), message, first, second).seen,
                meanwhile,
                ttl,
            ),
            ttl,
            Some(event_id),
            again,
            third,
            fourth,
        ).event is None,
{
    lemma_within_shrinks(first, second, third, ttl);
    let noted = intake(seen, ttl, Some(event_id), message, first, second).seen;
    lemma_entry_stays(noted, event_id, first, meanwhile, ttl);
}

/// A message that was let through is not let through again while its id counts as seen, whichever
/// event brings it and whatever else is seen meanwhile.
pub proof fn law_message_is_let_through_once(
    seen: Map<Seq<char>, u128>,
    ttl: u64,
    event_id: Option<Seq<char>>,
    message: GatewayEventView,
    first: u128,
    second: u128,
    meanwhile: Seq<(Seq<char>, u128)>,
    other_event_id: Option<Seq<char>>,
    again: GatewayEventView,
    third: u128,
    fourth: u128,
)
    requires
        intake(seen, ttl, event_id, Some(message), first, second).event is Some,
        again.message_id == message.message_id,
        second <= third <= fourth,
        forall|i: int|
            0 <= i < meanwhile.len() ==> within(second, (#[trigger] meanwhile[i]).1, ttl),
        within(second, fourth, ttl),
    ensures
        intake(
            after_sightings(
                intake(seen, ttl, event_id, Some(message), first, second).seen,
                meanwhile,
                ttl,
            ),
            ttl,
            other_event_id,
            Some(again),
            third,
            fourth,
        ).event is None,
{
    lemma_within_shrinks(second, third, fourth, ttl);
    let noted = intake(seen, ttl, event_id, Some(message), first, second).seen;
    lemma_entry_stays(noted, message.message_id, second, meanwhile, ttl);
}

/// A message that the bot sent is not let through when the platform echoes it while its id counts
/// as seen, whatever else is seen meanwhile.
pub proof fn law_sent_message_is_not_echoed(
    seen: Map<Seq<char>, u128>,
    ttl: u64,
    sent: u128,
    meanwhile: Seq<(Seq<char>, u128)>,
    event_id: Option<Seq<char>>,
    echo: GatewayEventView,
    first: u128,
    second: u128,
)
    requires
        !seen_recently(seen, echo.message_id, sent, ttl),
        sent <= first <= second,
        forall|i: int| 0 <= i < meanwhile.len() ==> within(sent, (#[trigger] meanwhile[i]).1, ttl),
        within(sent, second, ttl),
    ensures
        intake(
            after_sightings(
                after_sighting(seen, echo.message_id, sent, ttl),
                meanwhile,
                ttl,
            ),
            ttl,
            event_id,
            Some(echo),
            first,
            second,
        ).event is None,
{
    lemma_within_shrinks(sent, first, second, ttl);
    lemma_entry_stays(
        after_sighting(seen, echo.message_id, sent, ttl),
        echo.message_id,
        sent,
        meanwhile,
        ttl,
    );
}

/// What is let through is the message that came in, as it came in.
pub proof fn law_intake_alters_nothing(
    seen: Map<Seq<char>, u128>,
    ttl: u64,
    event_id: Option<Seq<char>>,
    message: Option<GatewayEventView>,
    first: u128,
    second: u128,
)
    ensures
        intake(seen, ttl, event_id, message, first, second).event matches Some(e) ==> message
            == Some(e),
{
}

proof fn lemma_within_shrinks(since: u128, between: u128, now: u128, ttl: u64)
    requires
        since <= between <= now,
        within(since, now, ttl),
    ensures
        within(since, between, ttl),
{
}

/// A message is let through if neither its id nor that of the event was seen a short while ago,
/// whatever else the message says.
pub proof fn law_new_message_is_let_through(
    seen: Map<Seq<char>, u128>,
    ttl: u64,
    event_id: Option<Seq<char>>,
    message: GatewayEventView,
    first: u128,
    second: u128,
)
    requires
        event_id matches Some(id) ==> !seen_recently(seen, id, first, ttl) && id
            != message.message_id,
        !seen_recently(seen, message.message_id, second, ttl),
    ensures
        intake(seen, ttl, event_id, Some(message), first, second).event == Some(message),
{
}

/// A message is dropped only as a repetition: because the id of the event was seen a short while
/// ago, or that of the message was, or because the two are the same.
pub proof fn law_only_repetitions_are_dropped(
    seen: Map<Seq<char>, u128>,
    ttl: u64,
    event_id: Option<Seq<char>>,
    message: GatewayEventView,
    first: u128,
    second: u128,
)
    ensures
        intake(seen, ttl, event_id, Some(message), first, second).event is None ==> {
            ||| event_id is Some && seen_recently(seen, event_id->0, first, ttl)
            ||| seen_recently(seen, message.message_id, second, ttl)
            ||| event_id == Some(message.message_id)
        },
{
}

/// The ids of an event and of its message are recorded, each with the moment at which it was looked
/// up.
pub proof fn law_intake_records_its_ids(
    seen: Map<Seq<char>, u128>,
    ttl: u64,
    event_id: Seq<char>,
    message: GatewayEventView,
    first: u128,
    second: u128,
)
    requires
        !seen_recently(seen, event_id, first, ttl),
        !seen_recently(seen, message.message_id, second, ttl),
        event_id != message.message_id,
        within(first, second, ttl),
    ensures
        ({
            let after = intake(seen, ttl, Some(event_id), Some(message), first, second).seen;
            &&& after.contains_key(event_id) && after[event_id] == first
            &&& after.contains_key(message.message_id) && after[message.message_id] == second
        }),
{
}

/// No other id is recorded: what is recorded for another id was recorded before.
pub proof fn law_intake_records_no_other_id(
    seen: Map<Seq<char>, u128>,
    ttl: u64,
    event_id: Option<Seq<char>>,
    message: Option<GatewayEventView>,
    first: u128,
    second: u128,
    other: Seq<char>,
)
    requires
        event_id != Some(other),
        message matches Some(m) ==> m.message_id != other,
    ensures
        ({
            let after = intake(seen, ttl, event_id, message, first, second).seen;
            &&& after.contains_key(other) ==> seen.contains_key(other) && after[other]
                == seen[other]
            &&& seen_recently(seen, other, first, ttl) && seen_recently(seen, other, second, ttl)
                ==> after.contains_key(other)
        }),
{
}

/// Messages with different ids do not hinder each other, whatever else they have in common: after one
/// was taken in, the other is let through if it would have been before.
pub proof fn law_messages_do_not_hinder_each_other(
    seen: Map<Seq<char>, u128>,
    ttl: u64,
    event_id: Seq<char>,
    message: Option<GatewayEventView>,
    first: u128,
    second: u128,
    other_event_id: Seq<char>,
    other: GatewayEventView,
    third: u128,
    fourth: u128,
)
    requires
        other_event_id != event_id,
        other.message_id != event_id,
        message matches Some(m) ==> m.message_id != other.message_id && m.message_id
            != other_event_id,
        third <= fourth,
        intake(seen, ttl, Some(other_event_id), Some(other), third, fourth).event is Some,
    ensures
        intake(
            intake(seen, ttl, Some(event_id), message, first, second).seen,
            ttl,
            Some(other_event_id),
            Some(other),
            third,
            fourth,
        ).event == Some(other),
{
    let after = intake(seen, ttl, Some(event_id), message, first, second).seen;
    law_intake_records_no_other_id(seen, ttl, Some(event_id), message, first, second, other_event_id);
    law_intake_records_no_other_id(
        seen,
        ttl,
        Some(event_id),
        message,
        first,
        second,
        other.message_id,
    );
    assert(!seen_recently(after, other_event_id, third, ttl));
    if other_event_id != other.message_id {
        if seen_recently(seen, other.message_id, fourth, ttl) && seen[other.message_id] <= third {
            lemma_within_shrinks(seen[other.message_id], third, fourth, ttl);
        }
        assert(!seen_recently(seen, other.message_id, fourth, ttl));
        law_new_message_is_let_through(after, ttl, Some(other_event_id), other, third, fourth);
    }
}

/// The message of an envelope is judged by the text that its content holds: the member `text` of the
/// object that the content is written as.
pub proof fn law_message_is_judged_by_its_content(
    envelope: FeishuEventEnvelope,
    event: FeishuEventBody,
    msg: FeishuMessage,
    members: Map<Seq<char>, Json>,
    text: Seq<char>,
    bot: Option<Seq<char>>,
    config: FeishuConfig,
)
    requires
        envelope.event == Some(event),
        event.message == Some(msg),
        msg.content is Some,
        read_text(msg.content->0@) == Some(Json::Object(members)),
        members.contains_key("text"@),
        members["text"@] == Json::Text(text),
    ensures
        message_of(envelope, bot, config) == forwarded_event(envelope, bot, config, Some(text)),
{
}

/// An event goes by the id in its header, whatever else the envelope says.
pub proof fn law_event_goes_by_its_id(envelope: FeishuEventEnvelope, header: FeishuEventHeader)
    ensures
        envelope.header == Some(header) && header.event_id is Some ==> event_id_of(envelope) == Some(
            header.event_id->0@,
        ),
        envelope.header == Some(header) && header.event_id is None ==> event_id_of(envelope)
            is None,
        envelope.header is None ==> event_id_of(envelope) is None,
{
}

/// A message whose content is no object with a text brings nothing.
pub proof fn law_message_without_a_text_brings_nothing(
    envelope: FeishuEventEnvelope,
    event: FeishuEventBody,
    msg: FeishuMessage,
    bot: Option<Seq<char>>,
    config: FeishuConfig,
)
    requires
        envelope.event == Some(event),
        event.message == Some(msg),
        msg.content is Some ==> match read_text(msg.content->0@) {
            Some(Json::Object(members)) => !members.contains_key("text"@) || !(members["text"@]
                is Text),
            _ => true,
        },
    ensures
        message_of(envelope, bot, config) is None,
{
}

} // verus!
