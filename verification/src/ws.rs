//! The long connection: frames, messages and reconnecting.

use vstd::arithmetic::power2::{lemma2_to64, lemma_pow2_unfold, pow2};
use vstd::prelude::*;
use vstd::string::*;
use vstd::utf8::*;

use crate::adapter::{event_id_of, intake, message_of, FeishuAdapter, Intake};
use crate::event::{event_view, FeishuEventEnvelope};
use crate::schema::GatewayEvent;
use crate::text::opt_view;

verus! {

/// A frame of the long connection.
#[derive(Clone, Debug, PartialEq)]
pub struct WsFrame {
    pub seq_id: u64,
    pub log_id: u64,
    pub service: i32,
    pub method: i32,
    pub headers: Vec<WsHeader>,
    pub payload_encoding: Option<String>,
    pub payload_type: Option<String>,
    pub payload: Option<Vec<u8>>,
    pub log_id_new: Option<String>,
}

/// A header of a frame.
#[derive(Clone, Debug, PartialEq)]
pub struct WsHeader {
    pub key: String,
    pub value: String,
}

/// The method of a frame that carries an event. Frames of other methods are for control.
pub const DATA_METHOD: i32 = 1;

/// What comes in over the connection.
#[derive(Debug)]
pub enum WsInput {
    Text(String),
    Ping(Vec<u8>),
    /// A binary message that holds a frame.
    Frame(WsFrame),
    /// A binary message that holds no frame.
    Malformed,
    /// The other side closed the connection, or it ended.
    Closed,
    /// The connection failed.
    Failed,
    /// A message of any other kind.
    Other,
    /// The gateway shuts down.
    Shutdown,
}

/// What to do about it.
#[derive(Debug)]
pub enum WsAction {
    /// Handle the text as an event.
    Deliver(String),
    /// Send the data back as a pong.
    Pong(Vec<u8>),
    /// Handle the event, if there is one; then send the frame back.
    Acknowledge { event: Option<String>, ack: WsFrame },
    /// Leave the connection, without an error.
    Finish,
    /// Leave the connection with an error.
    Fail,
    /// Send a close message and leave the connection, without an error.
    Close,
    /// Go on.
    Ignore,
}

/// The text that the payload of a frame holds, if it holds text.
pub open spec fn payload_event(frame: WsFrame) -> Option<Seq<char>> {
    match frame.payload {
        Some(p) => if valid_utf8(p@) {
            Some(decode_utf8(p@))
        } else {
            None
        },
        None => None,
    }
}

/// The payload of an acknowledgement.
pub open spec fn ack_payload() -> Seq<u8> {
    encode_utf8("{\"code\":200}"@)
}

/// Whether `ack` is the frame with the payload of an acknowledgement.
pub open spec fn acknowledges(ack: WsFrame, frame: WsFrame) -> bool {
    &&& ack.payload is Some
    &&& ack.payload->0@ == ack_payload()
    &&& ack == (WsFrame { payload: ack.payload, ..frame })
}

/// What a frame is about: a data frame brings an event and is acknowledged by the same frame with
/// another payload, any other frame is ignored.
pub fn handle_frame(frame: WsFrame) -> (r: WsAction)
    ensures
        frame.method != DATA_METHOD ==> r is Ignore,
        frame.method == DATA_METHOD ==> {
            &&& r is Acknowledge
            &&& opt_view(r->event) == payload_event(frame)
            &&& acknowledges(r->ack, frame)
        },
{
    if frame.method != DATA_METHOD {
        return WsAction::Ignore;
    }
    let event = match frame.payload {
        Some(p) => match String::from_utf8(p) {
            Ok(text) => Some(text),
            Err(_) => None,
        },
        None => None,
    };
    let mut payload: Vec<u8> = Vec::new();
    payload.extend_from_slice("{\"code\":200}".as_bytes());
    assert(payload@ =~= ack_payload());
    let ack = WsFrame {
        seq_id: frame.seq_id,
        log_id: frame.log_id,
        service: frame.service,
        method: frame.method,
        headers: frame.headers,
        payload_encoding: frame.payload_encoding,
        payload_type: frame.payload_type,
        payload: Some(payload),
        log_id_new: frame.log_id_new,
    };
    WsAction::Acknowledge { event, ack }
}

/// What to do about what comes in over the connection.
pub fn ws_step(input: WsInput) -> (r: WsAction)
    ensures
        match input {
            WsInput::Text(text) => r == WsAction::Deliver(text),
            WsInput::Ping(data) => r == WsAction::Pong(data),
            WsInput::Frame(frame) => if frame.method == DATA_METHOD {
                &&& r is Acknowledge
                &&& opt_view(r->event) == payload_event(frame)
                &&& acknowledges(r->ack, frame)
            } else {
                r is Ignore
            },
            WsInput::Closed => r is Finish,
            WsInput::Failed => r is Fail,
            WsInput::Shutdown => r is Close,
            WsInput::Malformed | WsInput::Other => r is Ignore,
        },
{
    match input {
        WsInput::Text(text) => WsAction::Deliver(text),
        WsInput::Ping(data) => WsAction::Pong(data),
        WsInput::Frame(frame) => handle_frame(frame),
        WsInput::Closed => WsAction::Finish,
        WsInput::Failed => WsAction::Fail,
        WsInput::Shutdown => WsAction::Close,
        WsInput::Malformed => WsAction::Ignore,
        WsInput::Other => WsAction::Ignore,
    }
}

/// What becomes of an event that came in over the connection: a challenge is ignored. `first` and
/// `second` are the times in nanoseconds at which the ids of the event and of its message are looked
/// up.
pub fn handle_ws_message_at(
    adapter: &mut FeishuAdapter,
    envelope: &FeishuEventEnvelope,
    first: u128,
    second: u128,
) -> (r: Option<GatewayEvent>)
    requires
        old(adapter).wf(),
    ensures
        final(adapter).wf(),
        final(adapter).differs_in_dedupe(old(adapter)),
        envelope.challenge is Some ==> r is None && final(adapter).dedupe@ == old(adapter).dedupe@,
        envelope.challenge is None ==> (Intake {
            seen: final(adapter).dedupe@,
            event: event_view(r),
        }) == intake(
            old(adapter).dedupe@,
            old(adapter).dedupe.ttl(),
            event_id_of(*envelope),
            message_of(*envelope, opt_view(old(adapter).bot_open_id), old(adapter).config),
            first,
            second,
        ),
{
    if envelope.challenge.is_some() {
        return None;
    }
    adapter.accept_event_at(envelope, first, second)
}

/// What becomes of an event that came in over the connection: a challenge is ignored. The moments
/// are read from the clock.
pub fn handle_ws_message(adapter: &mut FeishuAdapter, envelope: &FeishuEventEnvelope) -> (r: Option<
    GatewayEvent,
>)
    requires
        old(adapter).wf(),
    ensures
        final(adapter).wf(),
        final(adapter).differs_in_dedupe(old(adapter)),
        envelope.challenge is Some ==> r is None && final(adapter).dedupe@ == old(adapter).dedupe@,
        envelope.challenge is None ==> exists|first: u128, second: u128|
            old(adapter).dedupe.clock().reads(first) && old(adapter).dedupe.clock().reads(second)
                && (Intake { seen: final(adapter).dedupe@, event: event_view(r) })
                == #[trigger] intake(
                old(adapter).dedupe@,
                old(adapter).dedupe.ttl(),
                event_id_of(*envelope),
                message_of(*envelope, opt_view(old(adapter).bot_open_id), old(adapter).config),
                first,
                second,
            ),
{
    if envelope.challenge.is_some() {
        return None;
    }
    adapter.accept_event(envelope)
}

/// The shortest time to wait before the next connection, in seconds.
pub const MIN_BACKOFF_SECS: u64 = 1;

/// The longest time to wait before the next connection, in seconds.
pub const MAX_BACKOFF_SECS: u64 = 120;

/// How long to wait before the next connection.
pub struct Backoff {
    secs: u64,
}

/// The time to wait after a connection: the shortest after one that ended without an error, twice
/// the last one but not more than the longest after one that failed.
pub open spec fn next_backoff(secs: u64, failed: bool) -> u64 {
    if !failed {
        MIN_BACKOFF_SECS
    } else if secs * 2 <= MAX_BACKOFF_SECS {
        (secs * 2) as u64
    } else {
        MAX_BACKOFF_SECS
    }
}

impl Backoff {
    /// The time to wait, in seconds.
    pub closed spec fn view(&self) -> u64 {
        self.secs
    }

    /// The time to wait is between the shortest and the longest.
    pub open spec fn wf(&self) -> bool {
        MIN_BACKOFF_SECS <= self@ <= MAX_BACKOFF_SECS
    }

    /// The shortest time.
    pub fn new() -> (r: Self)
        ensures
            r.wf(),
            r@ == MIN_BACKOFF_SECS,
    {
        Backoff { secs: MIN_BACKOFF_SECS }
    }

    /// The time in seconds to wait after a connection, or `None` if the gateway shuts down.
    pub fn after_connection(&mut self, failed: bool, shutdown: bool) -> (r: Option<u64>)
        requires
            old(self).wf(),
        ensures
            final(self).wf(),
            shutdown ==> r is None && final(self)@ == old(self)@,
            !shutdown ==> final(self)@ == next_backoff(old(self)@, failed) && r == Some(
                final(self)@,
            ),
    {
        if shutdown {
            return None;
        }
        self.secs = if !failed {
            MIN_BACKOFF_SECS
        } else if self.secs * 2 <= MAX_BACKOFF_SECS {
            self.secs * 2
        } else {
            MAX_BACKOFF_SECS
        };
        Some(self.secs)
    }
}

/// The time to wait after `n` failed connections in a row.
pub open spec fn backoff_after_failures(secs: u64, n: nat) -> u64
    decreases n,
{
    if n == 0 {
        secs
    } else {
        next_backoff(backoff_after_failures(secs, (n - 1) as nat), true)
    }
}

/// The time to wait after the connections, of which each failed or did not, in order.
pub open spec fn backoff_after(failed: Seq<bool>) -> u64
    decreases failed.len(),
{
    if failed.len() == 0 {
        MIN_BACKOFF_SECS
    } else {
        next_backoff(backoff_after(failed.drop_last()), failed.last())
    }
}

/// The number of connections that failed since the last one that did not.
pub open spec fn failures_in_a_row(failed: Seq<bool>) -> nat
    decreases failed.len(),
{
    if failed.len() == 0 || !failed.last() {
        0
    } else {
        failures_in_a_row(failed.drop_last()) + 1
    }
}

/// Two to the power of `k`, but not more than the longest time.
pub open spec fn capped_power(k: nat) -> int {
    if pow2(k) <= MAX_BACKOFF_SECS {
        pow2(k) as int
    } else {
        MAX_BACKOFF_SECS as int
    }
}

/// The time to wait stays between the shortest and the longest, and never falls while connections
/// fail.
pub proof fn law_backoff_is_bounded_and_grows(secs: u64, failed: bool)
    requires
        MIN_BACKOFF_SECS <= secs <= MAX_BACKOFF_SECS,
    ensures
        MIN_BACKOFF_SECS <= next_backoff(secs, failed) <= MAX_BACKOFF_SECS,
        next_backoff(secs, true) >= secs,
{
}

/// After `k` failed connections in a row, the time to wait is two to the power of `k` seconds, but
/// not more than the longest time.
pub proof fn law_backoff_doubles_up_to_the_longest(k: nat)
    ensures
        backoff_after_failures(MIN_BACKOFF_SECS, k) == capped_power(k),
    decreases k,
{
    if k == 0 {
        lemma2_to64();
    } else {
        law_backoff_doubles_up_to_the_longest((k - 1) as nat);
        lemma_pow2_unfold(k);
    }
}

/// Whatever connections came before, the time to wait depends on how many of the last ones failed:
/// a connection that ended without an error starts the doubling anew.
pub proof fn law_backoff_counts_failures_in_a_row(failed: Seq<bool>)
    ensures
        backoff_after(failed) == capped_power(failures_in_a_row(failed)),
    decreases failed.len(),
{
    lemma2_to64();
    if failed.len() > 0 {
        law_backoff_counts_failures_in_a_row(failed.drop_last());
        if failed.last() {
            lemma_pow2_unfold(failures_in_a_row(failed));
        }
    }
}

/// Seven failed connections in a row lead from any time to the longest one, where it stays.
pub proof fn law_backoff_reaches_the_longest(secs: u64, n: nat)
    requires
        MIN_BACKOFF_SECS <= secs <= MAX_BACKOFF_SECS,
        n >= 7,
    ensures
        backoff_after_failures(secs, n) == MAX_BACKOFF_SECS,
    decreases n,
{
    if n == 7 {
        reveal_with_fuel(backoff_after_failures, 8);
    } else {
        law_backoff_reaches_the_longest(secs, (n - 1) as nat);
    }
}

/// A payload that is UTF-8 brings the text that it encodes, and any other brings none.
pub proof fn law_payload_brings_its_text(frame: WsFrame, text: Seq<char>)
    ensures
        frame.payload is Some && frame.payload->0@ == encode_utf8(text) ==> payload_event(frame)
            == Some(text),
        frame.payload is Some && !valid_utf8(frame.payload->0@) ==> payload_event(frame) is None,
        frame.payload is None ==> payload_event(frame) is None,
{
    encode_utf8_valid_utf8(text);
    encode_utf8_decode_utf8(text);
}

/// An acknowledgement is the frame that it answers, with the payload `{"code":200}` in place of its
/// own.
pub proof fn law_acknowledgement_echoes_the_frame(ack: WsFrame, frame: WsFrame)
    requires
        acknowledges(ack, frame),
    ensures
        ack.seq_id == frame.seq_id,
        ack.log_id == frame.log_id,
        ack.service == frame.service,
        ack.method == frame.method,
        ack.headers == frame.headers,
        ack.payload_encoding == frame.payload_encoding,
        ack.payload_type == frame.payload_type,
        ack.log_id_new == frame.log_id_new,
        ack.payload is Some,
        ack.payload->0@ == encode_utf8("{\"code\":200}"@),
{
}

/// Whatever connections came before, the time to wait is two to the power of the number of failures
/// since the last connection that did not fail, in seconds, but never more than 120.
pub proof fn law_time_to_wait_is_a_power_of_two(failed: Seq<bool>)
    ensures
        pow2(failures_in_a_row(failed)) <= 120 ==> backoff_after(failed) == pow2(
            failures_in_a_row(failed),
        ),
        pow2(failures_in_a_row(failed)) > 120 ==> backoff_after(failed) == 120,
        failures_in_a_row(failed.push(false)) == 0,
        failures_in_a_row(failed.push(true)) == failures_in_a_row(failed) + 1,
{
    law_backoff_counts_failures_in_a_row(failed);
    assert(failed.push(true).drop_last() =~= failed);
}

/// The time to wait after a connection doubles after a failure, up to 120 seconds, and is one second
/// after a connection that ended without one.
pub proof fn law_next_wait_doubles_or_starts_anew(secs: u64)
    requires
        1 <= secs <= 120,
    ensures
        next_backoff(secs, false) == 1,
        secs <= 60 ==> next_backoff(secs, true) == 2 * secs,
        secs > 60 ==> next_backoff(secs, true) == 120,
{
}

} // verus!
