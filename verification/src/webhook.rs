//! Webhook requests: which are let in, and how the others are answered.

use vstd::prelude::*;
use vstd::string::*;
use vstd::utf8::*;

use crate::adapter::FeishuAdapter;
use crate::api::{build_single, single};
use crate::config::FeishuConfig;
use crate::crypto::{
    constant_time_eq, decrypt_event, decrypted, hex, sha256, signed_message, verify_signature,
    DecryptError,
};
use crate::json::{
    document, from_text, get_in, get_text, lemma_reserved_key, member_of, opt_document,
    owned_document, parse, read_bytes, read_text, text_in, text_value, to_text, written, Json,
};
use crate::rate_limit::{after_request, exceeds, Window};
use crate::text::{opt_str_view, opt_view};

verus! {

/// Max webhook body size: 1 MB
pub const WEBHOOK_BODY_LIMIT: usize = 1_048_576;

/// The headers of a webhook request that matter; `None` stands for one that is missing or is no
/// text.
#[derive(Debug)]
pub struct WebhookHeaders {
    /// `x-forwarded-for`
    pub forwarded_for: Option<String>,
    /// `x-lark-signature`
    pub signature: Option<String>,
    /// `x-lark-request-timestamp`
    pub timestamp: Option<String>,
    /// `x-lark-request-nonce`
    pub nonce: Option<String>,
}

/// How a webhook request is answered.
#[derive(Debug)]
pub enum WebhookVerdict {
    /// The body is too large.
    TooLarge,
    /// The client sends too many requests.
    RateLimited,
    /// The signature or the verification token is missing or wrong.
    Unauthorized,
    /// The body cannot be read.
    BadRequest,
    /// The challenge is sent back.
    Challenge(String),
    /// The request brings an event.
    Event(serde_json::Value),
}

/// A [`WebhookVerdict`] as characters and documents.
pub enum Verdict {
    TooLarge,
    RateLimited,
    Unauthorized,
    BadRequest,
    Challenge(Seq<char>),
    Event(Json),
}

impl View for WebhookVerdict {
    type V = Verdict;

    open spec fn view(&self) -> Verdict {
        match *self {
            WebhookVerdict::TooLarge => Verdict::TooLarge,
            WebhookVerdict::RateLimited => Verdict::RateLimited,
            WebhookVerdict::Unauthorized => Verdict::Unauthorized,
            WebhookVerdict::BadRequest => Verdict::BadRequest,
            WebhookVerdict::Challenge(c) => Verdict::Challenge(c@),
            WebhookVerdict::Event(v) => Verdict::Event(document(v)),
        }
    }
}

impl WebhookVerdict {
    /// The HTTP status of the answer.
    pub fn status(&self) -> (r: u16)
        ensures
            r == (match self@ {
                Verdict::TooLarge => 413u16,
                Verdict::RateLimited => 429u16,
                Verdict::Unauthorized => 401u16,
                Verdict::BadRequest => 400u16,
                Verdict::Challenge(_) => 200u16,
                Verdict::Event(_) => 200u16,
            }),
    {
        match self {
            WebhookVerdict::TooLarge => 413,
            WebhookVerdict::RateLimited => 429,
            WebhookVerdict::Unauthorized => 401,
            WebhookVerdict::BadRequest => 400,
            WebhookVerdict::Challenge(_) => 200,
            WebhookVerdict::Event(_) => 200,
        }
    }

    /// The body of the answer, if it has one.
    pub fn body(&self) -> (r: Option<String>)
        ensures
            opt_view(r) == answer_body(self@),
            self@ matches Verdict::Challenge(c) ==> read_text(opt_view(r)->0) == Some(
                single("challenge"@, Json::Text(c)),
            ),
    {
        match self {
            WebhookVerdict::RateLimited => Some("rate limit exceeded".to_string()),
            WebhookVerdict::Challenge(c) => Some(challenge_body(c.as_str())),
            _ => None,
        }
    }
}

/// The body of an answer, if it has one.
pub open spec fn answer_body(verdict: Verdict) -> Option<Seq<char>> {
    match verdict {
        Verdict::RateLimited => Some("rate limit exceeded"@),
        Verdict::Challenge(c) => Some(written(single("challenge"@, Json::Text(c)))),
        _ => None,
    }
}

/// The body that sends a challenge back.
pub fn challenge_body(challenge: &str) -> (r: String)
    ensures
        r@ == written(single("challenge"@, Json::Text(challenge@))),
        read_text(r@) == Some(single("challenge"@, Json::Text(challenge@))),
{
    proof {
        lemma_reserved_key();
        reveal_strlit("challenge");
    }
    to_text(&build_single("challenge", text_value(challenge)))
}

/// The name under which the requests of a client are counted.
pub open spec fn client(headers: WebhookHeaders) -> Seq<char> {
    match headers.forwarded_for {
        Some(f) => f@,
        None => "unknown"@,
    }
}

/// Whether the request is signed as it must be: without a key it need not be.
pub open spec fn signed(
    encrypt_key: Option<Seq<char>>,
    headers: WebhookHeaders,
    body: Seq<u8>,
) -> bool {
    match encrypt_key {
        Some(key) => {
            &&& headers.signature is Some
            &&& headers.timestamp is Some
            &&& headers.nonce is Some
            &&& hex(
                sha256(signed_message(headers.timestamp->0@, headers.nonce->0@, key, body)),
            ) == headers.signature->0@
        },
        None => true,
    }
}

/// Whether the request is signed as it must be.
pub fn is_signed(encrypt_key: Option<&str>, headers: &WebhookHeaders, body: &[u8]) -> (r: bool)
    ensures
        r == signed(opt_str_view(encrypt_key), *headers, body@),
{
    match encrypt_key {
        Some(key) => match (&headers.signature, &headers.timestamp, &headers.nonce) {
            (Some(sig), Some(ts), Some(nonce)) => verify_signature(
                ts.as_str(),
                nonce.as_str(),
                key,
                body,
                sig.as_str(),
            ),
            _ => false,
        },
        None => true,
    }
}

/// The document that a notice stands for: the decrypted one if the notice is encrypted, else the
/// notice itself.
pub open spec fn opened(notice: Json, encrypt_key: Option<Seq<char>>) -> Option<Json> {
    match text_in(member_of(Some(notice), "encrypt"@)) {
        Some(encrypted) => match encrypt_key {
            Some(key) => match decrypted(key, encrypted) {
                Ok(plain) => read_text(plain),
                Err(_) => None,
            },
            None => None,
        },
        None => Some(notice),
    }
}

/// The document that a notice stands for, if it can be read.
pub fn open_notice(notice: serde_json::Value, encrypt_key: Option<&str>) -> (r: Option<
    serde_json::Value,
>)
    ensures
        owned_document(r) == opened(document(notice), opt_str_view(encrypt_key)),
{
    let encrypted = match get_text(get_in(Some(&notice), "encrypt")) {
        Some(e) => e.to_string(),
        None => {
            return Some(notice);
        },
    };
    let key = match encrypt_key {
        Some(k) => k,
        None => {
            return None;
        },
    };
    match decrypt_event(key, encrypted.as_str()) {
        Ok(plain) => match from_text(plain.as_str()) {
            Ok(v) => Some(v),
            Err(_) => None,
        },
        Err(_) => None,
    }
}

/// Whether a token is the expected one, if one is expected.
pub open spec fn authentic(expected: Option<Seq<char>>, token: Option<Seq<char>>) -> bool {
    expected is Some ==> token == expected
}

/// Whether a token is the expected one, if one is expected.
pub fn is_authentic(expected: Option<&str>, token: Option<&str>) -> (r: bool)
    ensures
        r == authentic(opt_str_view(expected), opt_str_view(token)),
{
    match expected {
        Some(e) => match token {
            Some(t) => constant_time_eq(t, e),
            None => false,
        },
        None => true,
    }
}

/// What a document says of its origin and purpose.
#[derive(Debug)]
pub struct Notice<'a> {
    /// Whether there is a challenge, and which text it is.
    pub challenge: Option<Option<&'a str>>,
    /// Whether there is a token in the header, and which text it is.
    pub header_token: Option<Option<&'a str>>,
    /// The token outside the header.
    pub token: Option<&'a str>,
}

/// What to do about a document.
#[derive(Debug)]
pub enum Judgement {
    /// Refuse it.
    Unauthorized,
    /// Send the challenge back.
    Challenge(String),
    /// Take it for an event.
    Event,
}

/// A [`Judgement`] as characters.
pub enum JudgementView {
    Unauthorized,
    Challenge(Seq<char>),
    Event,
}

impl View for Judgement {
    type V = JudgementView;

    open spec fn view(&self) -> JudgementView {
        match *self {
            Judgement::Unauthorized => JudgementView::Unauthorized,
            Judgement::Challenge(c) => JudgementView::Challenge(c@),
            Judgement::Event => JudgementView::Event,
        }
    }
}

/// What to do about a document: a challenge is sent back if the token is authentic; an event is
/// taken if the token of its header, or else the one outside, is authentic.
pub open spec fn judged(
    expected: Option<Seq<char>>,
    challenge: Option<Option<Seq<char>>>,
    header_token: Option<Option<Seq<char>>>,
    token: Option<Seq<char>>,
) -> JudgementView {
    match challenge {
        Some(c) => if authentic(expected, token) {
            JudgementView::Challenge(
                match c {
                    Some(text) => text,
                    None => seq![],
                },
            )
        } else {
            JudgementView::Unauthorized
        },
        None => {
            let given = match header_token {
                Some(t) => t,
                None => token,
            };
            if authentic(expected, given) {
                JudgementView::Event
            } else {
                JudgementView::Unauthorized
            }
        },
    }
}

/// The characters behind an optional member that may be a text.
pub open spec fn nested_view(m: Option<Option<&str>>) -> Option<Option<Seq<char>>> {
    match m {
        Some(t) => Some(opt_str_view(t)),
        None => None,
    }
}

/// What to do about a document.
pub fn judge(expected: Option<&str>, notice: &Notice<'_>) -> (r: Judgement)
    ensures
        r@ == judged(
            opt_str_view(expected),
            nested_view(notice.challenge),
            nested_view(notice.header_token),
            opt_str_view(notice.token),
        ),
{
    match notice.challenge {
        Some(c) => {
            if !is_authentic(expected, notice.token) {
                return Judgement::Unauthorized;
            }
            match c {
                Some(text) => Judgement::Challenge(text.to_string()),
                None => Judgement::Challenge(String::new()),
            }
        },
        None => {
            let token = match notice.header_token {
                Some(t) => t,
                None => notice.token,
            };
            if is_authentic(expected, token) {
                Judgement::Event
            } else {
                Judgement::Unauthorized
            }
        },
    }
}

/// A member that may be a text.
pub open spec fn text_member(doc: Option<Json>) -> Option<Option<Seq<char>>> {
    match doc {
        Some(_) => Some(text_in(doc)),
        None => None,
    }
}

/// What to do about a document.
pub open spec fn judged_document(doc: Json, expected: Option<Seq<char>>) -> Verdict {
    match judged(
        expected,
        text_member(member_of(Some(doc), "challenge"@)),
        text_member(member_of(member_of(Some(doc), "header"@), "token"@)),
        text_in(member_of(Some(doc), "token"@)),
    ) {
        JudgementView::Unauthorized => Verdict::Unauthorized,
        JudgementView::Challenge(c) => Verdict::Challenge(c),
        JudgementView::Event => Verdict::Event(doc),
    }
}

fn nested_text<'a>(v: Option<&'a serde_json::Value>) -> (r: Option<Option<&'a str>>)
    ensures
        nested_view(r) == text_member(opt_document(v)),
{
    match v {
        Some(_) => Some(get_text(v)),
        None => None,
    }
}

/// What to do about a document.
pub fn judge_document(doc: serde_json::Value, expected: Option<&str>) -> (r: WebhookVerdict)
    ensures
        r@ == judged_document(document(doc), opt_str_view(expected)),
{
    let judgement = {
        let notice = Notice {
            challenge: nested_text(get_in(Some(&doc), "challenge")),
            header_token: nested_text(get_in(get_in(Some(&doc), "header"), "token")),
            token: get_text(get_in(Some(&doc), "token")),
        };
        judge(expected, &notice)
    };
    match judgement {
        Judgement::Unauthorized => WebhookVerdict::Unauthorized,
        Judgement::Challenge(c) => WebhookVerdict::Challenge(c),
        Judgement::Event => WebhookVerdict::Event(doc),
    }
}

/// How the body of a request that is let in is answered.
pub open spec fn body_verdict(
    notice: Option<Json>,
    encrypt_key: Option<Seq<char>>,
    expected: Option<Seq<char>>,
) -> Verdict {
    match notice {
        Some(n) => match opened(n, encrypt_key) {
            Some(doc) => judged_document(doc, expected),
            None => Verdict::BadRequest,
        },
        None => Verdict::BadRequest,
    }
}

/// How a webhook request is answered. `exceeded` says whether the client sends too many.
pub open spec fn verdict(
    config: FeishuConfig,
    headers: WebhookHeaders,
    body: Seq<u8>,
    exceeded: bool,
) -> Verdict {
    if body.len() > WEBHOOK_BODY_LIMIT {
        Verdict::TooLarge
    } else if exceeded {
        Verdict::RateLimited
    } else if !signed(opt_view(config.encrypt_key), headers, body) {
        Verdict::Unauthorized
    } else {
        body_verdict(
            read_bytes(body),
            opt_view(config.encrypt_key),
            opt_view(config.verification_token),
        )
    }
}

/// The windows of the clients after a webhook request: one that is too large does not count.
pub open spec fn windows_after(
    windows: Map<Seq<char>, Window>,
    headers: WebhookHeaders,
    body: Seq<u8>,
    now: u128,
    window_secs: u64,
) -> Map<Seq<char>, Window> {
    if body.len() > WEBHOOK_BODY_LIMIT {
        windows
    } else {
        after_request(windows, client(headers), now, window_secs)
    }
}

fn opt_as_str<'a>(s: &'a Option<String>) -> (r: Option<&'a str>)
    ensures
        opt_str_view(r) == opt_view(*s),
{
    match s {
        Some(t) => Some(t.as_str()),
        None => None,
    }
}

/// How a webhook request is answered. `exceeded` says whether the client sends too many.
pub fn answer(
    config: &FeishuConfig,
    headers: &WebhookHeaders,
    body: &[u8],
    exceeded: bool,
) -> (r: WebhookVerdict)
    ensures
        r@ == verdict(*config, *headers, body@, exceeded),
{
    if body.len() > WEBHOOK_BODY_LIMIT {
        return WebhookVerdict::TooLarge;
    }
    if exceeded {
        return WebhookVerdict::RateLimited;
    }
    let encrypt_key = opt_as_str(&config.encrypt_key);
    if !is_signed(encrypt_key, headers, body) {
        return WebhookVerdict::Unauthorized;
    }
    let notice = match parse(body) {
        Some(v) => v,
        None => {
            return WebhookVerdict::BadRequest;
        },
    };
    match open_notice(notice, encrypt_key) {
        Some(doc) => judge_document(doc, opt_as_str(&config.verification_token)),
        None => WebhookVerdict::BadRequest,
    }
}

fn client_of<'a>(headers: &'a WebhookHeaders) -> (r: &'a str)
    ensures
        r@ == client(*headers),
{
    match &headers.forwarded_for {
        Some(f) => f.as_str(),
        None => "unknown",
    }
}

/// How a webhook request is answered. `now` is the current time in nanoseconds.
pub fn webhook_at(
    adapter: &mut FeishuAdapter,
    headers: &WebhookHeaders,
    body: &[u8],
    now: u128,
) -> (r: WebhookVerdict)
    requires
        old(adapter).wf(),
    ensures
        final(adapter).wf(),
        final(adapter).differs_in_windows(old(adapter)),
        final(adapter).rate_limiter@ == windows_after(
            old(adapter).rate_limiter@,
            *headers,
            body@,
            now,
            old(adapter).rate_limiter.window(),
        ),
        r@ == verdict(
            old(adapter).config,
            *headers,
            body@,
            exceeds(
                old(adapter).rate_limiter@,
                client(*headers),
                now,
                old(adapter).rate_limiter.window(),
                old(adapter).rate_limiter.max(),
            ),
        ),
{
    if body.len() > WEBHOOK_BODY_LIMIT {
        return WebhookVerdict::TooLarge;
    }
    let exceeded = adapter.rate_limiter.check_at(client_of(headers), now);
    answer(&adapter.config, headers, body, exceeded)
}

/// How a webhook request is answered. The moment is read from the clock.
pub fn webhook(adapter: &mut FeishuAdapter, headers: &WebhookHeaders, body: &[u8]) -> (r:
    WebhookVerdict)
    requires
        old(adapter).wf(),
    ensures
        final(adapter).wf(),
        final(adapter).differs_in_windows(old(adapter)),
        exists|now: u128|
            old(adapter).rate_limiter.clock().reads(now) && final(adapter).rate_limiter@
                == #[trigger] windows_after(
                old(adapter).rate_limiter@,
                *headers,
                body@,
                now,
                old(adapter).rate_limiter.window(),
            ) && r@ == verdict(
                old(adapter).config,
                *headers,
                body@,
                exceeds(
                    old(adapter).rate_limiter@,
                    client(*headers),
                    now,
                    old(adapter).rate_limiter.window(),
                    old(adapter).rate_limiter.max(),
                ),
            ),
{
    let now: u128 = adapter.rate_limiter.now();
    webhook_at(adapter, headers, body, now)
}

/// Only a request that keeps the size and rate limits and is signed as it must be brings an event or
/// has its challenge sent back.
pub proof fn law_only_signed_requests_are_let_in(
    config: FeishuConfig,
    headers: WebhookHeaders,
    body: Seq<u8>,
    exceeded: bool,
)
    requires
        verdict(config, headers, body, exceeded) is Event || verdict(
            config,
            headers,
            body,
            exceeded,
        ) is Challenge,
    ensures
        body.len() <= WEBHOOK_BODY_LIMIT,
        !exceeded,
        signed(opt_view(config.encrypt_key), headers, body),
{
}

/// Where a verification token is configured, only a document that carries it is taken for an event
/// or has its challenge sent back.
pub proof fn law_only_authentic_documents_are_taken(doc: Json, expected: Seq<char>)
    requires
        !(judged_document(doc, Some(expected)) is Unauthorized),
    ensures
        text_in(member_of(Some(doc), "token"@)) == Some(expected) || text_in(
            member_of(member_of(Some(doc), "header"@), "token"@),
        ) == Some(expected),
{
}

/// A challenge that is sent back is the one that came in; a document with a challenge is never taken
/// for an event.
pub proof fn law_challenge_is_sent_back(doc: Json, expected: Option<Seq<char>>)
    requires
        member_of(Some(doc), "challenge"@) is Some,
    ensures
        !(judged_document(doc, expected) is Event),
        judged_document(doc, expected) matches Verdict::Challenge(c) ==> {
            ||| text_in(member_of(Some(doc), "challenge"@)) == Some(c)
            ||| text_in(member_of(Some(doc), "challenge"@)) is None && c.len() == 0
        },
{
}

/// An encrypted notice cannot be read without a key.
pub proof fn law_encrypted_notice_needs_a_key(notice: Json, expected: Option<Seq<char>>)
    requires
        text_in(member_of(Some(notice), "encrypt"@)) is Some,
    ensures
        body_verdict(Some(notice), None, expected) == Verdict::BadRequest,
{
}

/// An event that is let in is what the notice stands for, unaltered.
pub proof fn law_event_is_what_was_sent(
    notice: Option<Json>,
    encrypt_key: Option<Seq<char>>,
    expected: Option<Seq<char>>,
)
    ensures
        body_verdict(notice, encrypt_key, expected) matches Verdict::Event(doc) ==> notice is Some
            && opened(notice->0, encrypt_key) == Some(doc),
{
}

/// The text of a challenge: nothing if the challenge is no text.
pub open spec fn challenge_text(challenge: Json) -> Seq<char> {
    match challenge {
        Json::Text(t) => t,
        _ => seq![],
    }
}

/// Where no verification token is configured, no document is refused, whatever tokens it carries:
/// one with a challenge has it sent back, and any other is taken for an event.
pub proof fn law_without_a_token_nothing_is_refused(doc: Json)
    ensures
        judged_document(doc, None) == (match doc {
            Json::Object(members) => if members.contains_key("challenge"@) {
                Verdict::Challenge(challenge_text(members["challenge"@]))
            } else {
                Verdict::Event(doc)
            },
            _ => Verdict::Event(doc),
        }),
{
}

/// Where a verification token is configured, a challenge is sent back exactly if the document has the
/// token outside its header.
pub proof fn law_challenge_needs_the_outer_token(members: Map<Seq<char>, Json>, expected: Seq<char>)
    requires
        members.contains_key("challenge"@),
    ensures
        judged_document(Json::Object(members), Some(expected)) == (if members.contains_key("token"@)
            && members["token"@] == Json::Text(expected) {
            Verdict::Challenge(challenge_text(members["challenge"@]))
        } else {
            Verdict::Unauthorized
        }),
{
}

/// Where a verification token is configured, a document without a challenge is taken for an event
/// exactly if the token of its header is the right one, or, where the header has none, the token
/// outside.
pub proof fn law_event_needs_the_token(members: Map<Seq<char>, Json>, expected: Seq<char>)
    requires
        !members.contains_key("challenge"@),
    ensures
        ({
            let doc = Json::Object(members);
            let outer = members.contains_key("token"@) && members["token"@] == Json::Text(expected);
            let right = if members.contains_key("header"@) {
                match members["header"@] {
                    Json::Object(header) => if header.contains_key("token"@) {
                        header["token"@] == Json::Text(expected)
                    } else {
                        outer
                    },
                    _ => outer,
                }
            } else {
                outer
            };
            judged_document(doc, Some(expected)) == if right {
                Verdict::Event(doc)
            } else {
                Verdict::Unauthorized
            }
        }),
{
}

/// A document that is no object carries no token.
pub proof fn law_only_objects_carry_a_token(doc: Json, expected: Seq<char>)
    requires
        !(doc is Object),
    ensures
        judged_document(doc, Some(expected)) == Verdict::Unauthorized,
{
}

/// A notice without encrypted text stands for itself. Encrypted text stands for the document that it
/// holds when it is decrypted with the key, if it holds one.
pub proof fn law_notice_is_opened_with_the_key(
    members: Map<Seq<char>, Json>,
    encrypted: Seq<char>,
    key: Seq<char>,
    plain: Seq<char>,
    configured: Option<Seq<char>>,
)
    ensures
        !members.contains_key("encrypt"@) ==> opened(Json::Object(members), configured) == Some(
            Json::Object(members),
        ),
        members.contains_key("encrypt"@) && !(members["encrypt"@] is Text) ==> opened(
            Json::Object(members),
            configured,
        ) == Some(Json::Object(members)),
        members.contains_key("encrypt"@) && members["encrypt"@] == Json::Text(encrypted)
            && decrypted(key, encrypted) == Ok::<Seq<char>, DecryptError>(plain) ==> opened(
            Json::Object(members),
            Some(key),
        ) == read_text(plain),
        members.contains_key("encrypt"@) && members["encrypt"@] == Json::Text(encrypted)
            && decrypted(key, encrypted) is Err ==> opened(Json::Object(members), Some(key)) is None,
{
}

/// Whether the headers carry the signature of the body under the key: the hexadecimal SHA-256 digest
/// of the timestamp, the nonce, the key and the body, one after the other.
pub open spec fn carries_signature(headers: WebhookHeaders, key: Seq<char>, body: Seq<u8>) -> bool {
    &&& headers.signature is Some && headers.timestamp is Some && headers.nonce is Some
    &&& headers.signature->0@ == hex(
        sha256(
            encode_utf8(headers.timestamp->0@) + encode_utf8(headers.nonce->0@) + encode_utf8(key)
                + body,
        ),
    )
}

/// A request of more than 1048576 bytes is refused for its size, and one that is not for its rate if
/// the client sends too many. Of the others, one without the right signature is refused where a key
/// is configured; where none is, none is. What is left is answered by its body.
pub proof fn law_requests_are_sorted_out_in_order(
    config: FeishuConfig,
    headers: WebhookHeaders,
    body: Seq<u8>,
    exceeded: bool,
)
    ensures
        body.len() > 1_048_576 <==> verdict(config, headers, body, exceeded) is TooLarge,
        body.len() <= 1_048_576 && exceeded <==> verdict(config, headers, body, exceeded)
            is RateLimited,
        body.len() <= 1_048_576 && !exceeded ==> match config.encrypt_key {
            Some(key) => if carries_signature(headers, key@, body) {
                verdict(config, headers, body, exceeded) == body_verdict(
                    read_bytes(body),
                    Some(key@),
                    opt_view(config.verification_token),
                )
            } else {
                verdict(config, headers, body, exceeded) is Unauthorized
            },
            None => verdict(config, headers, body, exceeded) == body_verdict(
                read_bytes(body),
                None,
                opt_view(config.verification_token),
            ),
        },
{
}

/// A body is refused as unreadable exactly if it holds no document, or one that cannot be opened.
pub proof fn law_body_is_answered_by_its_document(
    notice: Option<Json>,
    encrypt_key: Option<Seq<char>>,
    expected: Option<Seq<char>>,
)
    ensures
        body_verdict(notice, encrypt_key, expected) is BadRequest <==> (notice is None || opened(
            notice->0,
            encrypt_key,
        ) is None),
        notice is Some && opened(notice->0, encrypt_key) is Some ==> body_verdict(
            notice,
            encrypt_key,
            expected,
        ) == judged_document(opened(notice->0, encrypt_key)->0, expected),
{
}

/// With the default settings, where neither a key nor a token is configured, every document that is
/// neither encrypted nor a challenge is taken for an event, unless it is too large or comes too
/// often.
pub proof fn law_open_webhook_takes_every_event(
    config: FeishuConfig,
    headers: WebhookHeaders,
    body: Seq<u8>,
    members: Map<Seq<char>, Json>,
)
    requires
        config.encrypt_key is None,
        config.verification_token is None,
        body.len() <= 1_048_576,
        read_bytes(body) == Some(Json::Object(members)),
        !members.contains_key("encrypt"@),
        !members.contains_key("challenge"@),
    ensures
        verdict(config, headers, body, false) == Verdict::Event(Json::Object(members)),
{
}

/// Requests are counted by the address that they are forwarded for, and together if there is none;
/// those that are too large are not counted.
pub proof fn law_requests_are_counted_by_client(
    windows: Map<Seq<char>, Window>,
    headers: WebhookHeaders,
    body: Seq<u8>,
    now: u128,
    secs: u64,
)
    ensures
        headers.forwarded_for is Some ==> client(headers) == headers.forwarded_for->0@,
        headers.forwarded_for is None ==> client(headers) == "unknown"@,
        body.len() > 1_048_576 ==> windows_after(windows, headers, body, now, secs) == windows,
        body.len() <= 1_048_576 ==> windows_after(windows, headers, body, now, secs)
            == after_request(windows, client(headers), now, secs),
{
}

/// The body that answers a challenge is the object of that challenge; a client that sends too many
/// requests is told so; other answers have no body.
pub proof fn law_answers_say_what_they_must(challenge: Seq<char>, event: Json)
    ensures
        answer_body(Verdict::Challenge(challenge)) == Some(
            written(Json::Object(map!["challenge"@ => Json::Text(challenge)])),
        ),
        answer_body(Verdict::RateLimited) == Some("rate limit exceeded"@),
        answer_body(Verdict::TooLarge) is None,
        answer_body(Verdict::Unauthorized) is None,
        answer_body(Verdict::BadRequest) is None,
        answer_body(Verdict::Event(event)) is None,
{
    assert(Map::<Seq<char>, Json>::empty().insert("challenge"@, Json::Text(challenge))
        =~= map!["challenge"@ => Json::Text(challenge)]);
}

} // verus!
