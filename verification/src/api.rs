//! Requests to the platform's API, and what its replies say.

use vstd::prelude::*;
use vstd::string::*;

use crate::event::content_text;
use crate::json::{
    borrow, document, get_i64, get_in, get_text, get_u64, i64_in, lemma_reserved_key, member_of,
    null, opt_document, parse, put, read_bytes, read_text, reads_back, text_in, text_value, to_text,
    u64_in, written, Json,
};
use crate::text::{int_text, join, opt_str_view, opt_string, opt_view, str_eq, write_int};

verus! {

/// What a request asks for.
#[derive(Clone, Copy, Debug, PartialEq, Eq, Structural)]
pub enum Method {
    Get,
    Post,
    Delete,
}

/// A request to the API.
#[derive(Debug)]
pub struct Request {
    pub method: Method,
    pub url: String,
    /// The token that the request carries as its bearer authorization.
    pub bearer: Option<String>,
    /// The type of the body.
    pub content_type: Option<String>,
    pub body: Option<String>,
}

/// A [`Request`] as characters.
pub struct RequestView {
    pub method: Method,
    pub url: Seq<char>,
    pub bearer: Option<Seq<char>>,
    pub content_type: Option<Seq<char>>,
    pub body: Option<Seq<char>>,
}

impl View for Request {
    type V = RequestView;

    open spec fn view(&self) -> RequestView {
        RequestView {
            method: self.method,
            url: self.url@,
            bearer: opt_view(self.bearer),
            content_type: opt_view(self.content_type),
            body: opt_view(self.body),
        }
    }
}

/// A request without a body.
pub open spec fn plain_request(method: Method, url: Seq<char>, token: Seq<char>) -> RequestView {
    RequestView { method, url, bearer: Some(token), content_type: None, body: None }
}

/// A request that posts a document.
pub open spec fn json_request(url: Seq<char>, token: Option<Seq<char>>, doc: Json) -> RequestView {
    RequestView {
        method: Method::Post,
        url,
        bearer: token,
        content_type: Some("application/json"@),
        body: Some(written(doc)),
    }
}

/// Why a reply gives no answer.
#[derive(Debug)]
pub enum ApiError {
    /// The reply is no JSON document.
    NotJson,
    /// The reply carries an error code.
    Refused { code: i64, msg: String },
    /// The reply lacks what was asked for.
    Missing,
}

/// An [`ApiError`] as characters.
pub enum ApiFault {
    NotJson,
    Refused { code: i64, msg: Seq<char> },
    Missing,
}

impl View for ApiError {
    type V = ApiFault;

    open spec fn view(&self) -> ApiFault {
        match *self {
            ApiError::NotJson => ApiFault::NotJson,
            ApiError::Refused { code, msg } => ApiFault::Refused { code, msg: msg@ },
            ApiError::Missing => ApiFault::Missing,
        }
    }
}

impl ApiError {
    /// What the error says of a call that asked for `what`.
    pub open spec fn text(fault: ApiFault, call: Seq<char>, what: Seq<char>) -> Seq<char> {
        match fault {
            ApiFault::NotJson => "error decoding response body"@,
            ApiFault::Refused { code, msg } => call + " error: code="@ + int_text(code as int)
                + " msg="@ + msg,
            ApiFault::Missing => call + ": missing "@ + what,
        }
    }

    /// What the error says of a call that asked for `what`.
    pub fn message(&self, call: &str, what: &str) -> (r: String)
        ensures
            r@ == ApiError::text(self@, call@, what@),
    {
        let mut r = call.to_string();
        match self {
            ApiError::NotJson => {
                return "error decoding response body".to_string();
            },
            ApiError::Refused { code, msg } => {
                r.append(" error: code=");
                r.append(write_int(*code).as_str());
                r.append(" msg=");
                r.append(msg.as_str());
            },
            ApiError::Missing => {
                r.append(": missing ");
                r.append(what);
            },
        }
        r
    }

    /// What the error says of a token that was not issued; `status` is that of the reply.
    pub open spec fn token_text(fault: ApiFault, status: Seq<char>) -> Seq<char> {
        let text = ApiError::text(fault, "feishu token refresh"@, "tenant_access_token"@);
        match fault {
            ApiFault::NotJson => "feishu token refresh parse failed: "@ + text,
            ApiFault::Refused { .. } => text + " status="@ + status,
            ApiFault::Missing => text,
        }
    }

    /// What the error says of a token that was not issued; `status` is that of the reply.
    pub fn token_message(&self, status: &str) -> (r: String)
        ensures
            r@ == ApiError::token_text(self@, status@),
    {
        let mut r = self.message("feishu token refresh", "tenant_access_token");
        match self {
            ApiError::NotJson => join("feishu token refresh parse failed: ", r.as_str()),
            ApiError::Refused { .. } => {
                r.append(" status=");
                r.append(status);
                r
            },
            ApiError::Missing => r,
        }
    }
}

/// The characters of an answer.
pub open spec fn answer_view(r: Result<String, ApiError>) -> Result<Seq<char>, ApiFault> {
    match r {
        Ok(s) => Ok(s@),
        Err(e) => Err(e@),
    }
}

/// The code of a reply: a reply without one counts as failed.
pub open spec fn code_of(code: Option<i64>) -> i64 {
    match code {
        Some(c) => c,
        None => (-1) as i64,
    }
}

/// The error of a reply that carries an error code.
pub open spec fn refusal(code: Option<i64>, msg: Option<Seq<char>>) -> ApiFault {
    ApiFault::Refused {
        code: code_of(code),
        msg: match msg {
            Some(m) => m,
            None => "unknown"@,
        },
    }
}

/// The answer that should be there.
pub open spec fn required(answer: Option<Seq<char>>) -> Result<Seq<char>, ApiFault> {
    match answer {
        Some(a) => Ok(a),
        None => Err(ApiFault::Missing),
    }
}

fn code_or_failed(code: Option<i64>) -> (r: i64)
    ensures
        r == code_of(code),
{
    match code {
        Some(c) => c,
        None => -1,
    }
}

fn refuse(code: Option<i64>, msg: Option<&str>) -> (r: ApiError)
    ensures
        r@ == refusal(code, opt_str_view(msg)),
{
    let msg = match msg {
        Some(m) => m,
        None => "unknown",
    };
    ApiError::Refused { code: code_or_failed(code), msg: msg.to_string() }
}

fn require(answer: Option<&str>) -> (r: Result<String, ApiError>)
    ensures
        answer_view(r) == required(opt_str_view(answer)),
{
    match answer {
        Some(a) => Ok(a.to_string()),
        None => Err(ApiError::Missing),
    }
}

/// An object of two texts.
pub open spec fn pair(k: Seq<char>, v: Seq<char>, l: Seq<char>, w: Seq<char>) -> Json {
    Json::Object(Map::empty().insert(k, Json::Text(v)).insert(l, Json::Text(w)))
}

/// An object of one member.
pub open spec fn single(k: Seq<char>, v: Json) -> Json {
    Json::Object(Map::empty().insert(k, v))
}

fn build_pair(k: &str, v: &str, l: &str, w: &str) -> (r: serde_json::Value)
    ensures
        document(r) == pair(k@, v@, l@, w@),
{
    let mut doc = null();
    put(&mut doc, k, text_value(v));
    put(&mut doc, l, text_value(w));
    doc
}

/// Builds an object of one member.
pub(crate) fn build_single(k: &str, v: serde_json::Value) -> (r: serde_json::Value)
    ensures
        document(r) == single(k@, document(v)),
{
    let mut doc = null();
    put(&mut doc, k, v);
    doc
}

fn get_request(url: String, token: &str) -> (r: Request)
    ensures
        r@ == plain_request(Method::Get, url@, token@),
{
    Request {
        method: Method::Get,
        url,
        bearer: Some(token.to_string()),
        content_type: None,
        body: None,
    }
}

fn post_request(url: String, token: Option<&str>, doc: &serde_json::Value) -> (r: Request)
    ensures
        r@ == json_request(url@, opt_str_view(token), document(*doc)),
        reads_back(document(*doc)) ==> read_text(r@.body->0) == Some(document(*doc)),
{
    Request {
        method: Method::Post,
        url,
        bearer: opt_string(token),
        content_type: Some("application/json".to_string()),
        body: Some(to_text(doc)),
    }
}

// Access tokens.

/// The request for a new access token.
pub open spec fn token_request_of(
    api_base: Seq<char>,
    app_id: Seq<char>,
    app_secret: Seq<char>,
) -> RequestView {
    json_request(
        api_base + "/open-apis/auth/v3/tenant_access_token/internal"@,
        None,
        pair("app_id"@, app_id, "app_secret"@, app_secret),
    )
}

/// The request for a new access token.
pub fn token_request(api_base: &str, app_id: &str, app_secret: &str) -> (r: Request)
    ensures
        r@ == token_request_of(api_base@, app_id@, app_secret@),
        read_text(r@.body->0) == Some(pair("app_id"@, app_id@, "app_secret"@, app_secret@)),
{
    let url = join(api_base, "/open-apis/auth/v3/tenant_access_token/internal");
    proof {
        lemma_reserved_key();
        reveal_strlit("app_id");
        reveal_strlit("app_secret");
    }
    let doc = build_pair("app_id", app_id, "app_secret", app_secret);
    post_request(url, None, &doc)
}

/// The lifetime of a token where the reply gives none, in seconds.
pub const DEFAULT_TOKEN_TTL_SECS: u64 = 7200;

/// The characters of a token with its lifetime in seconds.
pub open spec fn token_view(r: Result<(String, u64), ApiError>) -> Result<
    (Seq<char>, u64),
    ApiFault,
> {
    match r {
        Ok((token, ttl)) => Ok((token@, ttl)),
        Err(e) => Err(e@),
    }
}

/// The token and its lifetime that the fields of a reply give.
pub open spec fn issued_token(
    code: Option<i64>,
    msg: Option<Seq<char>>,
    expire: Option<u64>,
    token: Option<Seq<char>>,
) -> Result<(Seq<char>, u64), ApiFault> {
    if code != Some(0i64) {
        Err(refusal(code, msg))
    } else {
        match token {
            Some(t) => Ok(
                (
                    t,
                    match expire {
                        Some(e) => e,
                        None => DEFAULT_TOKEN_TTL_SECS,
                    },
                ),
            ),
            None => Err(ApiFault::Missing),
        }
    }
}

/// The token and its lifetime that a reply gives.
pub open spec fn issued_token_in(reply: Option<Json>) -> Result<(Seq<char>, u64), ApiFault> {
    match reply {
        Some(_) => issued_token(
            i64_in(member_of(reply, "code"@)),
            text_in(member_of(reply, "msg"@)),
            u64_in(member_of(reply, "expire"@)),
            text_in(member_of(reply, "tenant_access_token"@)),
        ),
        None => Err(ApiFault::NotJson),
    }
}

/// The token and its lifetime that a reply gives.
pub fn token_of_reply(reply: Option<&serde_json::Value>) -> (r: Result<(String, u64), ApiError>)
    ensures
        token_view(r) == issued_token_in(opt_document(reply)),
{
    if reply.is_none() {
        return Err(ApiError::NotJson);
    }
    let code = get_i64(get_in(reply, "code"));
    if code_or_failed(code) != 0 {
        return Err(refuse(code, get_text(get_in(reply, "msg"))));
    }
    let ttl: u64 = match get_u64(get_in(reply, "expire")) {
        Some(e) => e,
        None => DEFAULT_TOKEN_TTL_SECS,
    };
    match get_text(get_in(reply, "tenant_access_token")) {
        Some(t) => Ok((t.to_string(), ttl)),
        None => Err(ApiError::Missing),
    }
}

/// The token and its lifetime that the body of a reply gives.
pub fn read_token(body: &[u8]) -> (r: Result<(String, u64), ApiError>)
    ensures
        token_view(r) == issued_token_in(read_bytes(body@)),
{
    let doc = parse(body);
    token_of_reply(borrow(&doc))
}

// Endpoint of the long connection.

/// The request for the address of the long connection. It carries the credentials of the
/// application in place of a token.
pub fn ws_endpoint_request(api_base: &str, app_id: &str, app_secret: &str) -> (r: Request)
    ensures
        r@ == json_request(
            api_base@ + "/callback/ws/endpoint"@,
            None,
            pair("AppID"@, app_id@, "AppSecret"@, app_secret@),
        ),
        read_text(r@.body->0) == Some(pair("AppID"@, app_id@, "AppSecret"@, app_secret@)),
{
    let url = join(api_base, "/callback/ws/endpoint");
    proof {
        lemma_reserved_key();
        reveal_strlit("AppID");
        reveal_strlit("AppSecret");
    }
    let doc = build_pair("AppID", app_id, "AppSecret", app_secret);
    post_request(url, None, &doc)
}

/// The address that the fields of a reply give.
pub open spec fn endpoint(
    code: Option<i64>,
    msg: Option<Seq<char>>,
    url: Option<Seq<char>>,
) -> Result<Seq<char>, ApiFault> {
    if code != Some(0i64) {
        Err(refusal(code, msg))
    } else {
        required(url)
    }
}

/// The address that a reply gives.
pub open spec fn endpoint_in(reply: Option<Json>) -> Result<Seq<char>, ApiFault> {
    match reply {
        Some(_) => endpoint(
            i64_in(member_of(reply, "code"@)),
            text_in(member_of(reply, "msg"@)),
            text_in(member_of(member_of(reply, "data"@), "URL"@)),
        ),
        None => Err(ApiFault::NotJson),
    }
}

/// The address that a reply gives.
pub fn ws_endpoint_of_reply(reply: Option<&serde_json::Value>) -> (r: Result<String, ApiError>)
    ensures
        answer_view(r) == endpoint_in(opt_document(reply)),
{
    if reply.is_none() {
        return Err(ApiError::NotJson);
    }
    let code = get_i64(get_in(reply, "code"));
    if code_or_failed(code) != 0 {
        return Err(refuse(code, get_text(get_in(reply, "msg"))));
    }
    require(get_text(get_in(get_in(reply, "data"), "URL")))
}

/// The address that the body of a reply gives.
pub fn read_ws_endpoint(body: &[u8]) -> (r: Result<String, ApiError>)
    ensures
        answer_view(r) == endpoint_in(read_bytes(body@)),
{
    let doc = parse(body);
    ws_endpoint_of_reply(borrow(&doc))
}

// Identity of the bot.

/// The request for the identity of the bot.
pub fn bot_info_request(api_base: &str, token: &str) -> (r: Request)
    ensures
        r@ == plain_request(Method::Get, api_base@ + "/open-apis/bot/v3/info"@, token@),
{
    get_request(join(api_base, "/open-apis/bot/v3/info"), token)
}

/// The id of the bot that a reply gives.
pub open spec fn bot_id_in(reply: Option<Json>) -> Result<Seq<char>, ApiFault> {
    match reply {
        Some(_) => required(text_in(member_of(member_of(reply, "bot"@), "open_id"@))),
        None => Err(ApiFault::NotJson),
    }
}

/// The id of the bot that a reply gives.
pub fn bot_id_of_reply(reply: Option<&serde_json::Value>) -> (r: Result<String, ApiError>)
    ensures
        answer_view(r) == bot_id_in(opt_document(reply)),
{
    if reply.is_none() {
        return Err(ApiError::NotJson);
    }
    require(get_text(get_in(get_in(reply, "bot"), "open_id")))
}

/// The id of the bot that the body of a reply gives.
pub fn read_bot_info(body: &[u8]) -> (r: Result<String, ApiError>)
    ensures
        answer_view(r) == bot_id_in(read_bytes(body@)),
{
    let doc = parse(body);
    bot_id_of_reply(borrow(&doc))
}

// Names of users.

/// The request for what is known of a user.
pub fn user_request(api_base: &str, token: &str, open_id: &str) -> (r: Request)
    ensures
        r@ == plain_request(
            Method::Get,
            api_base@ + "/open-apis/contact/v3/users/"@ + open_id@ + "?user_id_type=open_id"@,
            token@,
        ),
{
    let mut url = join(api_base, "/open-apis/contact/v3/users/");
    url.append(open_id);
    url.append("?user_id_type=open_id");
    get_request(url, token)
}

/// The name of a user that a reply gives, if it gives one.
pub open spec fn user_name_in(reply: Option<Json>) -> Option<Seq<char>> {
    text_in(member_of(member_of(member_of(reply, "data"@), "user"@), "name"@))
}

/// The name of a user that a reply gives, if it gives one.
pub fn user_name_of_reply(reply: Option<&serde_json::Value>) -> (r: Option<String>)
    ensures
        opt_view(r) == user_name_in(opt_document(reply)),
{
    opt_string(get_text(get_in(get_in(get_in(reply, "data"), "user"), "name")))
}

/// The name of a user that the body of a reply gives, if it gives one.
pub fn read_user_name(body: &[u8]) -> (r: Option<String>)
    ensures
        opt_view(r) == user_name_in(read_bytes(body@)),
{
    let doc = parse(body);
    user_name_of_reply(borrow(&doc))
}

// Messages.

/// The document that a text message has as its content.
pub open spec fn text_content(text: Seq<char>) -> Json {
    single("text"@, Json::Text(text))
}

/// The document that sends a text message to a chat.
pub open spec fn text_message(chat_id: Seq<char>, text: Seq<char>) -> Json {
    Json::Object(
        Map::empty().insert("receive_id"@, Json::Text(chat_id)).insert(
            "msg_type"@,
            Json::Text("text"@),
        ).insert("content"@, Json::Text(written(text_content(text)))),
    )
}

/// The request that sends a text message to a chat. A message with the content that is sent reads
/// back as the text.
pub fn send_text_message(api_base: &str, token: &str, chat_id: &str, text: &str) -> (r: Request)
    ensures
        r@ == (RequestView {
            method: Method::Post,
            url: api_base@ + "/open-apis/im/v1/messages?receive_id_type=chat_id"@,
            bearer: Some(token@),
            content_type: Some("application/json; charset=utf-8"@),
            body: Some(written(text_message(chat_id@, text@))),
        }),
        read_text(r@.body->0) == Some(text_message(chat_id@, text@)),
        content_text(text_in(member_of(read_text(r@.body->0), "content"@))) == Some(text@),
{
    let url = join(api_base, "/open-apis/im/v1/messages?receive_id_type=chat_id");
    proof {
        lemma_reserved_key();
        reveal_strlit("text");
        reveal_strlit("receive_id");
        reveal_strlit("msg_type");
        reveal_strlit("content");
    }
    let content = to_text(&build_single("text", text_value(text)));
    let mut doc = null();
    put(&mut doc, "receive_id", text_value(chat_id));
    put(&mut doc, "msg_type", text_value("text"));
    put(&mut doc, "content", text_value(content.as_str()));
    Request {
        method: Method::Post,
        url,
        bearer: Some(token.to_string()),
        content_type: Some("application/json; charset=utf-8".to_string()),
        body: Some(to_text(&doc)),
    }
}

/// The id of the message that was sent, if the reply gives one.
pub open spec fn message_id_in(reply: Option<Json>) -> Option<Seq<char>> {
    text_in(member_of(member_of(reply, "data"@), "message_id"@))
}

/// The id of the message that was sent, if the reply gives one.
pub fn message_id_of_reply(reply: Option<&serde_json::Value>) -> (r: Option<String>)
    ensures
        opt_view(r) == message_id_in(opt_document(reply)),
{
    opt_string(get_text(get_in(get_in(reply, "data"), "message_id")))
}

/// The id of the message that was sent: only a reply that reports success gives one.
pub fn read_sent_message(success: bool, body: &[u8]) -> (r: Option<String>)
    ensures
        opt_view(r) == if success {
            message_id_in(read_bytes(body@))
        } else {
            None
        },
{
    if !success {
        return None;
    }
    let doc = parse(body);
    message_id_of_reply(borrow(&doc))
}

// Reactions.

/// The address of the reactions to a message.
pub open spec fn reactions_url(api_base: Seq<char>, message_id: Seq<char>) -> Seq<char> {
    api_base + "/open-apis/im/v1/messages/"@ + message_id + "/reactions"@
}

fn reactions_of(api_base: &str, message_id: &str) -> (r: String)
    ensures
        r@ == reactions_url(api_base@, message_id@),
{
    let mut url = join(api_base, "/open-apis/im/v1/messages/");
    url.append(message_id);
    url.append("/reactions");
    url
}

/// The request that adds a reaction to a message.
pub fn add_reaction(api_base: &str, token: &str, message_id: &str, reaction_type: &str) -> (r:
    Request)
    ensures
        r@ == json_request(
            reactions_url(api_base@, message_id@),
            Some(token@),
            single("reaction_type"@, single("emoji_type"@, Json::Text(reaction_type@))),
        ),
        read_text(r@.body->0) == Some(
            single("reaction_type"@, single("emoji_type"@, Json::Text(reaction_type@))),
        ),
{
    proof {
        lemma_reserved_key();
        reveal_strlit("reaction_type");
        reveal_strlit("emoji_type");
    }
    let doc = build_single("reaction_type", build_single("emoji_type", text_value(reaction_type)));
    post_request(reactions_of(api_base, message_id), Some(token), &doc)
}

/// The request for the reactions of a type to a message.
pub fn list_reactions(api_base: &str, token: &str, message_id: &str, reaction_type: &str) -> (r:
    Request)
    ensures
        r@ == plain_request(
            Method::Get,
            reactions_url(api_base@, message_id@) + "?reaction_type="@ + reaction_type@,
            token@,
        ),
{
    let mut url = reactions_of(api_base, message_id);
    url.append("?reaction_type=");
    url.append(reaction_type);
    get_request(url, token)
}

/// The request that takes a reaction back.
pub fn delete_reaction(api_base: &str, token: &str, message_id: &str, reaction_id: &str) -> (r:
    Request)
    ensures
        r@ == plain_request(
            Method::Delete,
            reactions_url(api_base@, message_id@) + "/"@ + reaction_id@,
            token@,
        ),
{
    let mut url = reactions_of(api_base, message_id);
    url.append("/");
    url.append(reaction_id);
    Request {
        method: Method::Delete,
        url,
        bearer: Some(token.to_string()),
        content_type: None,
        body: None,
    }
}

/// A reaction to a message.
#[derive(Debug)]
pub struct Reaction {
    /// Who reacted.
    pub operator: Option<String>,
    pub reaction_id: Option<String>,
}

/// A [`Reaction`] as characters.
pub struct ReactionView {
    pub operator: Option<Seq<char>>,
    pub reaction_id: Option<Seq<char>>,
}

impl View for Reaction {
    type V = ReactionView;

    open spec fn view(&self) -> ReactionView {
        ReactionView { operator: opt_view(self.operator), reaction_id: opt_view(self.reaction_id) }
    }
}

/// The reactions as characters.
pub open spec fn reaction_views(reactions: Seq<Reaction>) -> Seq<ReactionView> {
    reactions.map_values(|r: Reaction| r@)
}

/// The reaction that an item of a reply describes.
pub open spec fn reaction_in(item: Json) -> ReactionView {
    ReactionView {
        operator: text_in(
            member_of(member_of(member_of(Some(item), "operator"@), "operator_id"@), "open_id"@),
        ),
        reaction_id: text_in(member_of(Some(item), "reaction_id"@)),
    }
}

/// The reactions that a reply lists.
pub open spec fn reactions_in(reply: Option<Json>) -> Seq<ReactionView> {
    match member_of(member_of(reply, "data"@), "items"@) {
        Some(Json::List(items)) => items.map_values(|item: Json| reaction_in(item)),
        _ => seq![],
    }
}

/// The id of the first reaction that the bot gave and that has an id. Where the bot does not know
/// its own id, a reaction that names nobody counts as its own.
pub open spec fn first_own_reaction(
    reactions: Seq<ReactionView>,
    bot: Option<Seq<char>>,
) -> Option<Seq<char>>
    decreases reactions.len(),
{
    if reactions.len() == 0 {
        None
    } else {
        let first = reactions.first();
        if first.operator == bot && first.reaction_id is Some {
            first.reaction_id
        } else {
            first_own_reaction(reactions.drop_first(), bot)
        }
    }
}

fn same_opt(a: &Option<String>, b: Option<&str>) -> (r: bool)
    ensures
        r == (opt_view(*a) == opt_str_view(b)),
{
    match (a, b) {
        (Some(x), Some(y)) => str_eq(x.as_str(), y),
        (None, None) => true,
        _ => false,
    }
}

/// The id of the reaction that the bot gave, if one of the reactions is its own.
pub fn own_reaction(reactions: &Vec<Reaction>, bot_open_id: Option<&str>) -> (r: Option<String>)
    ensures
        opt_view(r) == first_own_reaction(
            reaction_views(reactions@),
            opt_str_view(bot_open_id),
        ),
{
    let ghost all = reaction_views(reactions@);
    let ghost bot = opt_str_view(bot_open_id);
    let mut i: usize = 0;
    assert(all.skip(0) =~= all);
    while i < reactions.len()
        invariant
            i <= reactions@.len(),
            all == reaction_views(reactions@),
            bot == opt_str_view(bot_open_id),
            first_own_reaction(all, bot) == first_own_reaction(all.skip(i as int), bot),
        decreases reactions@.len() - i,
    {
        let item = &reactions[i];
        assert(all.skip(i as int).first() == item@);
        assert(all.skip(i as int).drop_first() =~= all.skip(i + 1));
        if same_opt(&item.operator, bot_open_id) {
            if let Some(id) = &item.reaction_id {
                return Some(id.clone());
            }
        }
        i = i + 1;
    }
    None
}

/// The reactions that a reply lists.
pub fn reactions_of_reply(reply: Option<&serde_json::Value>) -> (r: Vec<Reaction>)
    ensures
        reaction_views(r@) == reactions_in(opt_document(reply)),
{
    let mut out: Vec<Reaction> = Vec::new();
    let items = match get_in(get_in(reply, "data"), "items") {
        Some(list) => list.as_array(),
        None => None,
    };
    if let Some(items) = items {
        let ghost listed = items@.map_values(|item: serde_json::Value| document(item));
        let mut i: usize = 0;
        while i < items.len()
            invariant
                i <= items@.len(),
                out@.len() == i,
                listed == items@.map_values(|item: serde_json::Value| document(item)),
                forall|j: int| 0 <= j < i ==> (#[trigger] out@[j])@ == reaction_in(listed[j]),
            decreases items@.len() - i,
        {
            let item = Some(&items[i]);
            let operator = opt_string(
                get_text(get_in(get_in(get_in(item, "operator"), "operator_id"), "open_id")),
            );
            let reaction_id = opt_string(get_text(get_in(item, "reaction_id")));
            out.push(Reaction { operator, reaction_id });
            i = i + 1;
        }
        assert(reaction_views(out@) =~= listed.map_values(|item: Json| reaction_in(item)));
        return out;
    }
    assert(reaction_views(out@) =~= seq![]);
    out
}

/// The reactions that the body of a reply lists.
pub fn read_reactions(body: &[u8]) -> (r: Vec<Reaction>)
    ensures
        reaction_views(r@) == reactions_in(read_bytes(body@)),
{
    let doc = parse(body);
    reactions_of_reply(borrow(&doc))
}

/// The request that takes the bot's reaction to a message back: `body` is that of the reply to the
/// request for the reactions. There is none if no reaction is the bot's own.
pub fn remove_reaction(
    api_base: &str,
    token: &str,
    message_id: &str,
    body: &[u8],
    bot_open_id: Option<&str>,
) -> (r: Option<Request>)
    ensures
        match first_own_reaction(reactions_in(read_bytes(body@)), opt_str_view(bot_open_id)) {
            Some(id) => r is Some && r->0@ == plain_request(
                Method::Delete,
                reactions_url(api_base@, message_id@) + "/"@ + id,
                token@,
            ),
            None => r is None,
        },
{
    let reactions = read_reactions(body);
    match own_reaction(&reactions, bot_open_id) {
        Some(id) => Some(delete_reaction(api_base, token, message_id, id.as_str())),
        None => None,
    }
}

/// The reaction that is taken back is one that the bot gave.
pub proof fn law_own_reaction_is_the_bots(reactions: Seq<ReactionView>, bot: Option<Seq<char>>)
    ensures
        match first_own_reaction(reactions, bot) {
            Some(id) => exists|i: int|
                0 <= i < reactions.len() && (#[trigger] reactions[i]).operator == bot
                    && reactions[i].reaction_id == Some(id),
            None => forall|i: int|
                0 <= i < reactions.len() ==> !((#[trigger] reactions[i]).operator == bot
                    && reactions[i].reaction_id is Some),
        },
    decreases reactions.len(),
{
    if reactions.len() > 0 {
        let rest = reactions.drop_first();
        law_own_reaction_is_the_bots(rest, bot);
        let first = reactions.first();
        assert(reactions[0] == first);
        if !(first.operator == bot && first.reaction_id is Some) {
            match first_own_reaction(rest, bot) {
                Some(id) => {
                    let i = choose|i: int|
                        0 <= i < rest.len() && (#[trigger] rest[i]).operator == bot
                            && rest[i].reaction_id == Some(id);
                    assert(reactions[i + 1] == rest[i]);
                },
                None => {
                    assert forall|i: int| 0 <= i < reactions.len() implies !((
                    #[trigger] reactions[i]).operator == bot && reactions[i].reaction_id is Some) by {
                        if i > 0 {
                            assert(reactions[i] == rest[i - 1]);
                        }
                    }
                },
            }
        }
    }
}

/// An object of two members holds just these.
pub proof fn law_pair_is_an_object_of_two(
    k: Seq<char>,
    v: Seq<char>,
    l: Seq<char>,
    w: Seq<char>,
)
    ensures
        pair(k, v, l, w) == Json::Object(map![k => Json::Text(v), l => Json::Text(w)]),
{
    assert(Map::<Seq<char>, Json>::empty().insert(k, Json::Text(v)).insert(l, Json::Text(w))
        =~= map![k => Json::Text(v), l => Json::Text(w)]);
}

/// An object of one member holds just that.
pub proof fn law_single_is_an_object_of_one(k: Seq<char>, v: Json)
    ensures
        single(k, v) == Json::Object(map![k => v]),
{
    assert(Map::<Seq<char>, Json>::empty().insert(k, v) =~= map![k => v]);
}

/// A text message says whom it goes to and that it is a text, and its content is the object of that
/// text. It says nothing else.
pub proof fn law_text_message_says_whom_and_what(chat_id: Seq<char>, text: Seq<char>)
    ensures
        text_message(chat_id, text) == Json::Object(
            map![
                "receive_id"@ => Json::Text(chat_id),
                "msg_type"@ => Json::Text("text"@),
                "content"@ => Json::Text(written(Json::Object(map!["text"@ => Json::Text(text)]))),
            ],
        ),
{
    law_single_is_an_object_of_one("text"@, Json::Text(text));
    assert(text_message(chat_id, text)->Object_0 =~= map![
                "receive_id"@ => Json::Text(chat_id),
                "msg_type"@ => Json::Text("text"@),
                "content"@ => Json::Text(written(Json::Object(map!["text"@ => Json::Text(text)]))),
            ]);
}

/// A request without a body carries the token to its address, and one that posts a document carries
/// the document as JSON.
pub proof fn law_requests_carry_what_they_must(
    method: Method,
    url: Seq<char>,
    token: Seq<char>,
    optional: Option<Seq<char>>,
    doc: Json,
)
    ensures
        plain_request(method, url, token).method == method,
        plain_request(method, url, token).url == url,
        plain_request(method, url, token).bearer == Some(token),
        plain_request(method, url, token).body is None,
        json_request(url, optional, doc).method == Method::Post,
        json_request(url, optional, doc).url == url,
        json_request(url, optional, doc).bearer == optional,
        json_request(url, optional, doc).content_type == Some("application/json"@),
        json_request(url, optional, doc).body == Some(written(doc)),
{
}

/// The reactions of different messages stand at different addresses, below the base and the id.
pub proof fn law_reactions_stand_below_their_message(api_base: Seq<char>, message_id: Seq<char>)
    ensures
        reactions_url(api_base, message_id) == api_base + "/open-apis/im/v1/messages/"@ + message_id
            + "/reactions"@,
{
}

/// The member of an object, if it is there and is a text.
pub open spec fn text_at(members: Map<Seq<char>, Json>, key: Seq<char>) -> Option<Seq<char>> {
    if members.contains_key(key) {
        match members[key] {
            Json::Text(t) => Some(t),
            _ => None,
        }
    } else {
        None
    }
}

/// What stands under a key of an object, as an object; no members if there is none.
pub open spec fn object_at(members: Map<Seq<char>, Json>, key: Seq<char>) -> Map<Seq<char>, Json> {
    if members.contains_key(key) {
        match members[key] {
            Json::Object(inner) => inner,
            _ => Map::empty(),
        }
    } else {
        Map::empty()
    }
}

/// The code of a reply, minus one where it is missing or no integer of 64 bits, and its message,
/// "unknown" where it is missing or no text.
pub open spec fn fault_in(members: Map<Seq<char>, Json>) -> ApiFault {
    ApiFault::Refused {
        code: match members["code"@] {
            Json::Integer(n) => if members.contains_key("code"@) && -0x8000_0000_0000_0000 <= n
                <= 0x7fff_ffff_ffff_ffff {
                n as i64
            } else {
                (-1) as i64
            },
            _ => (-1) as i64,
        },
        msg: match text_at(members, "msg"@) {
            Some(m) => m,
            None => "unknown"@,
        },
    }
}

/// A reply with the code zero and a token issues it, for the time that the reply gives or else for
/// 7200 seconds. One with the code zero but without a token lacks it, and any other is a refusal.
pub proof fn law_token_is_issued_by_code_zero(members: Map<Seq<char>, Json>, seconds: u64)
    ensures
        ({
            let r = issued_token_in(Some(Json::Object(members)));
            let zero = members.contains_key("code"@) && members["code"@] == Json::Integer(0);
            let token = text_at(members, "tenant_access_token"@);
            &&& zero && token is Some && members.contains_key("expire"@) && members["expire"@]
                == Json::Integer(seconds as int) ==> r == Ok::<(Seq<char>, u64), ApiFault>(
                (token->0, seconds),
            )
            &&& zero && token is Some && !members.contains_key("expire"@) ==> r == Ok::<
                (Seq<char>, u64),
                ApiFault,
            >((token->0, 7200))
            &&& zero && token is Some && members.contains_key("expire"@) && !(members["expire"@]
                is Integer) ==> r == Ok::<(Seq<char>, u64), ApiFault>((token->0, 7200))
            &&& zero && token is Some ==> r is Ok && r->Ok_0.0 == token->0
            &&& zero && token is None ==> r == Err::<(Seq<char>, u64), ApiFault>(ApiFault::Missing)
            &&& !zero ==> r == Err::<(Seq<char>, u64), ApiFault>(fault_in(members))
        }),
        issued_token_in(None) == Err::<(Seq<char>, u64), ApiFault>(ApiFault::NotJson),
{
}

/// A reply with the code zero and an address gives it; one with the code zero but without an address
/// lacks it, and any other is a refusal.
pub proof fn law_endpoint_is_given_by_code_zero(members: Map<Seq<char>, Json>)
    ensures
        ({
            let r = endpoint_in(Some(Json::Object(members)));
            let zero = members.contains_key("code"@) && members["code"@] == Json::Integer(0);
            let url = text_at(object_at(members, "data"@), "URL"@);
            &&& zero && url is Some ==> r == Ok::<Seq<char>, ApiFault>(url->0)
            &&& zero && url is None ==> r == Err::<Seq<char>, ApiFault>(ApiFault::Missing)
            &&& !zero ==> r == Err::<Seq<char>, ApiFault>(fault_in(members))
        }),
        endpoint_in(None) == Err::<Seq<char>, ApiFault>(ApiFault::NotJson),
{
}

/// The id of the bot, the name of a user and the id of a message that was sent are the texts at their
/// places in the reply, whatever else the reply says.
pub proof fn law_answers_stand_at_their_places(members: Map<Seq<char>, Json>)
    ensures
        bot_id_in(Some(Json::Object(members))) == (match text_at(
            object_at(members, "bot"@),
            "open_id"@,
        ) {
            Some(id) => Ok::<Seq<char>, ApiFault>(id),
            None => Err::<Seq<char>, ApiFault>(ApiFault::Missing),
        }),
        user_name_in(Some(Json::Object(members))) == text_at(
            object_at(object_at(members, "data"@), "user"@),
            "name"@,
        ),
        message_id_in(Some(Json::Object(members))) == text_at(
            object_at(members, "data"@),
            "message_id"@,
        ),
        bot_id_in(None) == Err::<Seq<char>, ApiFault>(ApiFault::NotJson),
        user_name_in(None) is None,
        message_id_in(None) is None,
{
}

/// The reactions of a reply are its items, one for one and in order, each with the id of who reacted
/// and its own.
pub proof fn law_reactions_are_the_items(
    members: Map<Seq<char>, Json>,
    items: Seq<Json>,
    item: Map<Seq<char>, Json>,
    i: int,
)
    requires
        object_at(members, "data"@).contains_key("items"@),
        object_at(members, "data"@)["items"@] == Json::List(items),
        0 <= i < items.len(),
        items[i] == Json::Object(item),
    ensures
        reactions_in(Some(Json::Object(members))).len() == items.len(),
        reactions_in(Some(Json::Object(members)))[i] == (ReactionView {
            operator: text_at(object_at(object_at(item, "operator"@), "operator_id"@), "open_id"@),
            reaction_id: text_at(item, "reaction_id"@),
        }),
{
}

/// A reply without a list of items lists no reaction.
pub proof fn law_no_items_are_no_reactions(members: Map<Seq<char>, Json>)
    requires
        !object_at(members, "data"@).contains_key("items"@) || !(object_at(
            members,
            "data"@,
        )["items"@] is List),
    ensures
        reactions_in(Some(Json::Object(members))).len() == 0,
        reactions_in(None).len() == 0,
{
}

/// A reaction that the bot gave is found wherever it stands, and the first one that has an id is
/// taken.
pub proof fn law_own_reaction_is_the_first(
    reactions: Seq<ReactionView>,
    bot: Option<Seq<char>>,
    i: int,
)
    requires
        0 <= i < reactions.len(),
        reactions[i].operator == bot,
        reactions[i].reaction_id is Some,
        forall|j: int|
            0 <= j < i ==> (#[trigger] reactions[j]).operator != bot || reactions[j].reaction_id
                is None,
    ensures
        first_own_reaction(reactions, bot) == reactions[i].reaction_id,
    decreases reactions.len(),
{
    if i > 0 {
        let rest = reactions.drop_first();
        assert(reactions[0] == reactions.first());
        assert forall|j: int| 0 <= j < i - 1 implies (#[trigger] rest[j]).operator != bot
            || rest[j].reaction_id is None by {
            assert(rest[j] == reactions[j + 1]);
        }
        law_own_reaction_is_the_first(rest, bot, i - 1);
    }
}

/// An error says what was called, and the code and the message of a refusal or what is missing.
pub proof fn law_error_says_what_went_wrong(
    code: i64,
    msg: Seq<char>,
    call: Seq<char>,
    what: Seq<char>,
    status: Seq<char>,
)
    ensures
        ApiError::text(ApiFault::Refused { code, msg }, call, what) == call + " error: code="@
            + int_text(code as int) + " msg="@ + msg,
        ApiError::text(ApiFault::Missing, call, what) == call + ": missing "@ + what,
        ApiError::text(ApiFault::NotJson, call, what) == "error decoding response body"@,
        ApiError::token_text(ApiFault::Refused { code, msg }, status)
            == "feishu token refresh"@ + " error: code="@ + int_text(code as int) + " msg="@ + msg
            + " status="@ + status,
        ApiError::token_text(ApiFault::Missing, status) == "feishu token refresh"@ + ": missing "@
            + "tenant_access_token"@,
        ApiError::token_text(ApiFault::NotJson, status) == "feishu token refresh parse failed: "@
            + "error decoding response body"@,
{
}

} // verus!
