//! The access token of the application, kept until shortly before it expires.

use vstd::prelude::*;
use vstd::string::*;

use crate::api::{
    answer_view, issued_token_in, law_pair_is_an_object_of_two, pair, read_token, token_request,
    token_request_of, token_view, ApiError, ApiFault, Method, Request, RequestView,
};
use crate::clock::{elapsed_secs, is_within, law_span_ends_after_its_nanoseconds, within, Clock};
use crate::config::FeishuConfig;
use crate::json::{read_bytes, read_text, written, Json};

verus! {

/// Refresh margin: renew 5 minutes before expiry.
pub const TOKEN_REFRESH_MARGIN_SECS: u64 = 300;

struct CachedToken {
    token: String,
    since: u128,
    ttl_secs: u64,
}

/// The access token of the application.
pub struct FeishuTokenCache {
    token: Option<CachedToken>,
    api_base: String,
    app_id: String,
    app_secret: String,
    clock: Clock,
}

/// A token, the moment from which on it is known, and its lifetime in seconds.
pub struct TokenEntry {
    pub token: Seq<char>,
    pub since: u128,
    pub ttl: u64,
}

/// A [`FeishuTokenCache`] as characters.
pub struct TokenCacheView {
    pub entry: Option<TokenEntry>,
    pub api_base: Seq<char>,
    pub app_id: Seq<char>,
    pub app_secret: Seq<char>,
}

/// How to come by a token.
#[derive(Debug)]
pub enum TokenStep {
    /// The token that is kept.
    Cached(String),
    /// The request for a new token.
    Refresh(Request),
}

/// A [`TokenStep`] as characters.
pub enum TokenStepView {
    Cached(Seq<char>),
    Refresh(RequestView),
}

impl View for TokenStep {
    type V = TokenStepView;

    open spec fn view(&self) -> TokenStepView {
        match *self {
            TokenStep::Cached(token) => TokenStepView::Cached(token@),
            TokenStep::Refresh(request) => TokenStepView::Refresh(request@),
        }
    }
}

/// For how many seconds a token is used.
pub open spec fn usable_secs(ttl: u64) -> u64 {
    if ttl >= TOKEN_REFRESH_MARGIN_SECS {
        (ttl - TOKEN_REFRESH_MARGIN_SECS) as u64
    } else {
        0
    }
}

/// The token that can be used at `now`.
pub open spec fn usable_token(entry: Option<TokenEntry>, now: u128) -> Option<Seq<char>> {
    match entry {
        Some(e) => if within(e.since, now, usable_secs(e.ttl)) {
            Some(e.token)
        } else {
            None
        },
        None => None,
    }
}

/// The document that a request for a new token carries.
pub open spec fn credentials(cache: TokenCacheView) -> Json {
    pair("app_id"@, cache.app_id, "app_secret"@, cache.app_secret)
}

/// How to come by a token at `now`.
pub open spec fn token_step(cache: TokenCacheView, now: u128) -> TokenStepView {
    match usable_token(cache.entry, now) {
        Some(token) => TokenStepView::Cached(token),
        None => TokenStepView::Refresh(
            token_request_of(cache.api_base, cache.app_id, cache.app_secret),
        ),
    }
}

/// The cache after a request for a new token was answered at `now`.
pub open spec fn after_refresh(
    cache: TokenCacheView,
    issued: Result<(Seq<char>, u64), ApiFault>,
    now: u128,
) -> TokenCacheView {
    match issued {
        Ok((token, ttl)) => TokenCacheView {
            entry: Some(TokenEntry { token, since: now, ttl }),
            ..cache
        },
        Err(_) => cache,
    }
}

/// What a caller who asked for a token is given.
pub open spec fn granted(issued: Result<(Seq<char>, u64), ApiFault>) -> Result<
    Seq<char>,
    ApiFault,
> {
    match issued {
        Ok((token, _)) => Ok(token),
        Err(e) => Err(e),
    }
}

impl FeishuTokenCache {
    pub closed spec fn view(&self) -> TokenCacheView {
        TokenCacheView {
            entry: match self.token {
                Some(t) => Some(TokenEntry { token: t.token@, since: t.since, ttl: t.ttl_secs }),
                None => None,
            },
            api_base: self.api_base@,
            app_id: self.app_id@,
            app_secret: self.app_secret@,
        }
    }

    /// The clock that moments are read from.
    pub closed spec fn clock(&self) -> Clock {
        self.clock
    }

    /// A cache without a token.
    pub fn new(config: &FeishuConfig) -> (r: Self)
        ensures
            r@ == (TokenCacheView {
                entry: None,
                api_base: FeishuConfig::base_of(config.domain@),
                app_id: config.app_id@,
                app_secret: config.app_secret@,
            }),
            r.clock().started(),
    {
        let api_base = config.api_base();
        FeishuTokenCache::with_base(config, api_base.as_str())
    }

    /// A cache without a token, with an explicit base URL of the API.
    pub fn with_base(config: &FeishuConfig, api_base: &str) -> (r: Self)
        ensures
            r@ == (TokenCacheView {
                entry: None,
                api_base: api_base@,
                app_id: config.app_id@,
                app_secret: config.app_secret@,
            }),
            r.clock().started(),
    {
        FeishuTokenCache {
            token: None,
            api_base: api_base.to_string(),
            app_id: config.app_id.clone(),
            app_secret: config.app_secret.clone(),
            clock: Clock::start(),
        }
    }

    /// The token that is kept, or the request for a new one if it is missing or about to expire.
    /// `now` is the current time in nanoseconds.
    pub fn get_token_at(&self, now: u128) -> (r: TokenStep)
        ensures
            r@ == token_step(self@, now),
            r@ matches TokenStepView::Refresh(q) ==> read_text(q.body->0) == Some(
                credentials(self@),
            ),
    {
        if let Some(cached) = &self.token {
            let usable: u64 = cached.ttl_secs.saturating_sub(TOKEN_REFRESH_MARGIN_SECS);
            if is_within(cached.since, now, usable) {
                return TokenStep::Cached(cached.token.clone());
            }
        }
        TokenStep::Refresh(
            token_request(self.api_base.as_str(), self.app_id.as_str(), self.app_secret.as_str()),
        )
    }

    /// The token that is kept, or the request for a new one if it is missing or about to expire.
    /// The moment is read from the clock of the cache.
    pub fn get_token(&self) -> (r: TokenStep)
        ensures
            exists|now: u128| self.clock().reads(now) && r@ == #[trigger] token_step(self@, now),
            r@ matches TokenStepView::Refresh(q) ==> read_text(q.body->0) == Some(
                credentials(self@),
            ),
    {
        let now: u128 = self.clock.now();
        self.get_token_at(now)
    }

    /// Keeps the token that was issued, if one was. `now` is the current time in nanoseconds.
    pub fn keep_at(&mut self, issued: Result<(String, u64), ApiError>, now: u128) -> (r: Result<
        String,
        ApiError,
    >)
        ensures
            final(self).clock() == old(self).clock(),
            final(self)@ == after_refresh(old(self)@, token_view(issued), now),
            answer_view(r) == granted(token_view(issued)),
    {
        match issued {
            Ok((token, ttl_secs)) => {
                self.token = Some(CachedToken { token: token.clone(), since: now, ttl_secs });
                Ok(token)
            },
            Err(e) => Err(e),
        }
    }

    /// Keeps the token that the body of the reply to the request for one gives. `now` is the
    /// current time in nanoseconds.
    pub fn refresh_at(&mut self, body: &[u8], now: u128) -> (r: Result<String, ApiError>)
        ensures
            final(self).clock() == old(self).clock(),
            final(self)@ == after_refresh(old(self)@, issued_token_in(read_bytes(body@)), now),
            answer_view(r) == granted(issued_token_in(read_bytes(body@))),
    {
        self.keep_at(read_token(body), now)
    }

    /// Keeps the token that the body of the reply to the request for one gives. The moment is read
    /// from the clock of the cache.
    pub fn refresh(&mut self, body: &[u8]) -> (r: Result<String, ApiError>)
        ensures
            final(self).clock() == old(self).clock(),
            exists|now: u128|
                old(self).clock().reads(now) && final(self)@ == #[trigger] after_refresh(
                    old(self)@,
                    issued_token_in(read_bytes(body@)),
                    now,
                ),
            answer_view(r) == granted(issued_token_in(read_bytes(body@))),
    {
        let now: u128 = self.clock.now();
        self.refresh_at(body, now)
    }
}

/// A token that was issued at `at` is the one to use exactly until the refresh margin before its
/// expiry begins.
pub proof fn law_token_is_used_until_the_margin(
    cache: TokenCacheView,
    token: Seq<char>,
    ttl: u64,
    at: u128,
    now: u128,
)
    ensures
        usable_token(after_refresh(cache, Ok((token, ttl)), at).entry, now) == if elapsed_secs(
            at,
            now,
        ) + TOKEN_REFRESH_MARGIN_SECS < ttl {
            Some(token)
        } else {
            None
        },
{
}

/// A token that lives no longer than the refresh margin is never used again.
pub proof fn law_short_lived_token_is_not_reused(
    cache: TokenCacheView,
    token: Seq<char>,
    ttl: u64,
    at: u128,
    now: u128,
)
    requires
        ttl <= TOKEN_REFRESH_MARGIN_SECS,
    ensures
        token_step(after_refresh(cache, Ok((token, ttl)), at), now) == TokenStepView::Refresh(
            token_request_of(cache.api_base, cache.app_id, cache.app_secret),
        ),
{
}

/// A request for a token that failed leaves the token that is kept.
pub proof fn law_failed_refresh_changes_nothing(
    cache: TokenCacheView,
    fault: ApiFault,
    at: u128,
    now: u128,
)
    ensures
        token_step(after_refresh(cache, Err(fault), at), now) == token_step(cache, now),
{
}

/// A token is used up to 300 seconds, in thousand millions of nanoseconds, before its lifetime is
/// over, and then no more. It is used as it was issued.
pub proof fn law_token_is_used_up_to_five_minutes_before_expiry(entry: TokenEntry, now: u128)
    requires
        entry.since <= now,
    ensures
        usable_token(Some(entry), now) == (if now - entry.since < (entry.ttl - 300)
            * 1_000_000_000 {
            Some(entry.token)
        } else {
            None
        }),
        usable_token(None, now) is None,
{
    law_span_ends_after_its_nanoseconds(entry.since, now, usable_secs(entry.ttl));
}

/// A token that can be used is given; else a new one is requested, with the credentials of the
/// application, at the address of the cache.
pub proof fn law_token_is_requested_only_when_needed(cache: TokenCacheView, now: u128)
    ensures
        usable_token(cache.entry, now) matches Some(token) ==> token_step(cache, now)
            == TokenStepView::Cached(token),
        usable_token(cache.entry, now) is None ==> token_step(cache, now) == TokenStepView::Refresh(
            RequestView {
                method: Method::Post,
                url: cache.api_base + "/open-apis/auth/v3/tenant_access_token/internal"@,
                bearer: None,
                content_type: Some("application/json"@),
                body: Some(
                    written(
                        Json::Object(
                            map![
                                "app_id"@ => Json::Text(cache.app_id),
                                "app_secret"@ => Json::Text(cache.app_secret),
                            ],
                        ),
                    ),
                ),
            },
        ),
{
    law_pair_is_an_object_of_two(
        "app_id"@,
        cache.app_id,
        "app_secret"@,
        cache.app_secret,
    );
}

/// A token that was issued is kept with its lifetime from that moment on, and given to whoever asked
/// for it; nothing else about the cache changes.
pub proof fn law_issued_token_is_kept(cache: TokenCacheView, token: Seq<char>, ttl: u64, at: u128)
    ensures
        after_refresh(cache, Ok((token, ttl)), at) == (TokenCacheView {
            entry: Some(TokenEntry { token, since: at, ttl }),
            api_base: cache.api_base,
            app_id: cache.app_id,
            app_secret: cache.app_secret,
        }),
        granted(Ok((token, ttl))) == Ok::<Seq<char>, ApiFault>(token),
{
}

/// Whoever asked for a token that was not issued is given the error, and the cache stays as it is.
pub proof fn law_refused_token_is_not_kept(cache: TokenCacheView, fault: ApiFault, at: u128)
    ensures
        after_refresh(cache, Err(fault), at) == cache,
        granted(Err(fault)) == Err::<Seq<char>, ApiFault>(fault),
{
}

} // verus!
