use feishu_gateway::api::{
    add_reaction, bot_id_of_reply, bot_info_request, delete_reaction, list_reactions,
    message_id_of_reply, own_reaction, reactions_of_reply, read_bot_info, read_reactions,
    read_sent_message, read_token, read_user_name, read_ws_endpoint, remove_reaction,
    send_text_message, token_of_reply, token_request, user_name_of_reply, user_request,
    ws_endpoint_of_reply, ws_endpoint_request, ApiError, Method, Reaction,
};
use feishu_gateway::clock::NANOS_PER_SEC;
use feishu_gateway::config::{ConnectionMode, FeishuConfig};
use feishu_gateway::token::{FeishuTokenCache, TokenStep};

const BASE: &str = "http://localhost:1";

fn test_config() -> FeishuConfig {
    FeishuConfig {
        app_id: "cli_test".into(),
        app_secret: "secret_test".into(),
        domain: "feishu".into(),
        connection_mode: ConnectionMode::Websocket,
        webhook_path: "/webhook/feishu".into(),
        verification_token: None,
        encrypt_key: None,
        allowed_groups: vec![],
        allowed_users: vec![],
        require_mention: true,
        dedupe_ttl_secs: 300,
        message_limit: 4000,
    }
}

fn parse(body: &str) -> serde_json::Value {
    serde_json::from_str(body).unwrap()
}

#[test]
fn token_refresh_success() {
    let config = test_config();
    let mut cache = FeishuTokenCache::with_base(&config, BASE);
    match cache.get_token() {
        TokenStep::Refresh(request) => {
            assert_eq!(request.method, Method::Post);
            assert_eq!(
                request.url,
                "http://localhost:1/open-apis/auth/v3/tenant_access_token/internal"
            );
            assert_eq!(request.bearer, None);
            assert_eq!(request.content_type.as_deref(), Some("application/json"));
            assert_eq!(
                parse(&request.body.unwrap()),
                parse(r#"{"app_id":"cli_test","app_secret":"secret_test"}"#)
            );
        }
        TokenStep::Cached(_) => panic!("nothing is kept yet"),
    }
    let body = br#"{"code":0,"msg":"ok","tenant_access_token":"t-test-token-123","expire":7200}"#;
    assert_eq!(cache.refresh(body).unwrap(), "t-test-token-123");
    // The second call uses the token that is kept.
    match cache.get_token() {
        TokenStep::Cached(token) => assert_eq!(token, "t-test-token-123"),
        TokenStep::Refresh(_) => panic!("the token is still good"),
    }
}

#[test]
fn token_refresh_api_error() {
    let config = test_config();
    let mut cache = FeishuTokenCache::with_base(&config, BASE);
    let err = cache.refresh(br#"{"code":10003,"msg":"invalid app_secret"}"#).unwrap_err();
    let msg = err.token_message("200 OK");
    assert!(msg.contains("10003"), "error should contain code: {msg}");
    assert!(!msg.contains("secret_test"), "error must not leak secret: {msg}");
    assert_eq!(
        msg,
        "feishu token refresh error: code=10003 msg=invalid app_secret status=200 OK"
    );
    assert!(matches!(cache.get_token(), TokenStep::Refresh(_)));
}

#[test]
fn token_uses_api_expire_field() {
    // A short expire (10s). With 300s margin, the token is expired at once.
    let config = test_config();
    let mut cache = FeishuTokenCache::with_base(&config, BASE);
    let body = br#"{"code":0,"tenant_access_token":"t-short","expire":10}"#;
    assert!(matches!(cache.get_token(), TokenStep::Refresh(_)));
    assert_eq!(cache.refresh(body).unwrap(), "t-short");
    assert!(matches!(cache.get_token(), TokenStep::Refresh(_)));
    assert_eq!(cache.refresh(body).unwrap(), "t-short");
}

#[test]
fn token_is_used_until_the_margin() {
    let config = test_config();
    let mut cache = FeishuTokenCache::with_base(&config, BASE);
    let body = br#"{"code":0,"tenant_access_token":"t","expire":1000}"#;
    let at = 50 * NANOS_PER_SEC;
    cache.refresh_at(body, at).unwrap();
    assert!(matches!(cache.get_token_at(at + 699 * NANOS_PER_SEC), TokenStep::Cached(_)));
    assert!(matches!(cache.get_token_at(at + 700 * NANOS_PER_SEC), TokenStep::Refresh(_)));
}

#[test]
fn failed_refresh_keeps_the_token() {
    let config = test_config();
    let mut cache = FeishuTokenCache::with_base(&config, BASE);
    cache.refresh_at(br#"{"code":0,"tenant_access_token":"t"}"#, 0).unwrap();
    assert!(cache.refresh_at(b"oops", 1).is_err());
    match cache.get_token_at(6899 * NANOS_PER_SEC) {
        TokenStep::Cached(token) => assert_eq!(token, "t"),
        TokenStep::Refresh(_) => panic!("the default lifetime is two hours"),
    }
    assert!(matches!(cache.get_token_at(6900 * NANOS_PER_SEC), TokenStep::Refresh(_)));
}

#[test]
fn token_cache_uses_the_domain() {
    let mut config = test_config();
    config.domain = "lark".into();
    match FeishuTokenCache::new(&config).get_token() {
        TokenStep::Refresh(request) => assert_eq!(
            request.url,
            "https://open.larksuite.com/open-apis/auth/v3/tenant_access_token/internal"
        ),
        TokenStep::Cached(_) => panic!("nothing is kept yet"),
    }
}

#[test]
fn token_replies() {
    assert!(matches!(read_token(b"<html>"), Err(ApiError::NotJson)));
    assert!(matches!(read_token(br#"{"code":0}"#), Err(ApiError::Missing)));
    assert!(matches!(
        read_token(br#"{"code":0,"tenant_access_token":7}"#),
        Err(ApiError::Missing)
    ));
    match read_token(br#"{"tenant_access_token":"t"}"#) {
        Err(ApiError::Refused { code, msg }) => {
            assert_eq!(code, -1);
            assert_eq!(msg, "unknown");
        }
        _ => panic!("a reply without a code is a refusal"),
    }
    let (token, ttl) = read_token(br#"{"code":0,"tenant_access_token":"t","expire":-5}"#).unwrap();
    assert_eq!((token.as_str(), ttl), ("t", 7200));
    let doc = parse(r#"{"code":0,"tenant_access_token":"t","expire":42}"#);
    let (token, ttl) = token_of_reply(Some(&doc)).unwrap();
    assert_eq!((token.as_str(), ttl), ("t", 42));
    assert!(matches!(token_of_reply(None), Err(ApiError::NotJson)));
}

#[test]
fn error_texts() {
    let refused = ApiError::Refused { code: -1, msg: "unknown".into() };
    assert_eq!(
        refused.message("feishu ws endpoint", "URL"),
        "feishu ws endpoint error: code=-1 msg=unknown"
    );
    assert_eq!(
        ApiError::Missing.message("feishu bot info", "open_id"),
        "feishu bot info: missing open_id"
    );
    assert_eq!(
        ApiError::Missing.token_message("200 OK"),
        "feishu token refresh: missing tenant_access_token"
    );
    assert_eq!(
        ApiError::NotJson.token_message("502"),
        "feishu token refresh parse failed: error decoding response body"
    );
    assert_eq!(
        ApiError::NotJson.message("feishu bot info", "open_id"),
        "error decoding response body"
    );
}

#[test]
fn credentials_are_sent() {
    let request = token_request(BASE, "a\"b", "s\\ü");
    assert_eq!(
        parse(&request.body.unwrap()),
        parse(r#"{"app_id":"a\"b","app_secret":"s\\ü"}"#)
    );
    let request = ws_endpoint_request(BASE, "id", "secret");
    assert_eq!(request.method, Method::Post);
    assert_eq!(request.url, "http://localhost:1/callback/ws/endpoint");
    assert_eq!(request.bearer, None);
    assert_eq!(request.body.unwrap(), r#"{"AppID":"id","AppSecret":"secret"}"#);
}

#[test]
fn ws_endpoint_replies() {
    assert_eq!(
        read_ws_endpoint(br#"{"code":0,"data":{"URL":"wss://x"}}"#).unwrap(),
        "wss://x"
    );
    assert!(matches!(read_ws_endpoint(br#"{"code":0,"data":{}}"#), Err(ApiError::Missing)));
    assert!(matches!(read_ws_endpoint(b""), Err(ApiError::NotJson)));
    assert!(matches!(
        read_ws_endpoint(br#"{"code":1,"msg":"no","data":{"URL":"wss://x"}}"#),
        Err(ApiError::Refused { code: 1, .. })
    ));
    let doc = parse(r#"{"code":0,"data":{"URL":"wss://y"}}"#);
    assert_eq!(ws_endpoint_of_reply(Some(&doc)).unwrap(), "wss://y");
}

#[test]
fn bot_info_calls() {
    let request = bot_info_request(BASE, "t-tok");
    assert_eq!(request.method, Method::Get);
    assert_eq!(request.url, "http://localhost:1/open-apis/bot/v3/info");
    assert_eq!(request.bearer.as_deref(), Some("t-tok"));
    assert_eq!(request.body, None);
    assert_eq!(read_bot_info(br#"{"bot":{"open_id":"ou_bot"}}"#).unwrap(), "ou_bot");
    assert!(matches!(read_bot_info(br#"{"bot":{}}"#), Err(ApiError::Missing)));
    assert!(matches!(read_bot_info(b"x"), Err(ApiError::NotJson)));
    let doc = parse(r#"{"bot":{"open_id":"ou_b"}}"#);
    assert_eq!(bot_id_of_reply(Some(&doc)).unwrap(), "ou_b");
}

#[test]
fn user_calls() {
    let request = user_request(BASE, "t-tok", "ou_user1");
    assert_eq!(request.method, Method::Get);
    assert_eq!(
        request.url,
        "http://localhost:1/open-apis/contact/v3/users/ou_user1?user_id_type=open_id"
    );
    assert_eq!(request.bearer.as_deref(), Some("t-tok"));
    assert_eq!(
        read_user_name(br#"{"data":{"user":{"name":"Alice"}}}"#).as_deref(),
        Some("Alice")
    );
    assert_eq!(read_user_name(br#"{"data":{"user":{"name":1}}}"#), None);
    assert_eq!(read_user_name(b"nope"), None);
    let doc = parse(r#"{"data":{"user":{"name":"Bob"}}}"#);
    assert_eq!(user_name_of_reply(Some(&doc)).as_deref(), Some("Bob"));
    assert_eq!(user_name_of_reply(None), None);
}

#[test]
fn send_text_message_success() {
    let request = send_text_message(BASE, "t-tok", "oc_chat1", "hello");
    assert_eq!(request.method, Method::Post);
    assert_eq!(
        request.url,
        "http://localhost:1/open-apis/im/v1/messages?receive_id_type=chat_id"
    );
    assert_eq!(request.bearer.as_deref(), Some("t-tok"));
    assert_eq!(request.content_type.as_deref(), Some("application/json; charset=utf-8"));
    let body = parse(&request.body.unwrap());
    assert_eq!(body["receive_id"], "oc_chat1");
    assert_eq!(body["msg_type"], "text");
    assert_eq!(body["content"], r#"{"text":"hello"}"#);
    let reply = br#"{"code":0,"msg":"success","data":{"message_id":"om_test123"}}"#;
    assert_eq!(read_sent_message(true, reply).as_deref(), Some("om_test123"));
}

#[test]
fn send_text_message_api_failure() {
    assert!(read_sent_message(false, b"bad request").is_none());
    assert!(read_sent_message(false, br#"{"data":{"message_id":"om_1"}}"#).is_none());
    assert!(read_sent_message(true, b"bad request").is_none());
    assert!(read_sent_message(true, br#"{"data":{}}"#).is_none());
    let doc = parse(r#"{"data":{"message_id":"om_2"}}"#);
    assert_eq!(message_id_of_reply(Some(&doc)).as_deref(), Some("om_2"));
}

#[test]
fn sent_text_reads_back() {
    for text in ["plain", "line\nbreak \"quoted\" \\ tab\t", "飛書 👍 \u{0}\u{7f}\u{2028}"] {
        let request = send_text_message(BASE, "t", "c", text);
        let body = parse(&request.body.unwrap());
        let content = parse(body["content"].as_str().unwrap());
        assert_eq!(content["text"], text);
    }
}

#[test]
fn reaction_calls() {
    let request = add_reaction(BASE, "t", "om_1", "THUMBSUP");
    assert_eq!(request.method, Method::Post);
    assert_eq!(request.url, "http://localhost:1/open-apis/im/v1/messages/om_1/reactions");
    assert_eq!(request.bearer.as_deref(), Some("t"));
    assert_eq!(request.body.unwrap(), r#"{"reaction_type":{"emoji_type":"THUMBSUP"}}"#);
    let request = list_reactions(BASE, "t", "om_1", "FIRE");
    assert_eq!(request.method, Method::Get);
    assert_eq!(
        request.url,
        "http://localhost:1/open-apis/im/v1/messages/om_1/reactions?reaction_type=FIRE"
    );
    let request = delete_reaction(BASE, "t", "om_1", "r_9");
    assert_eq!(request.method, Method::Delete);
    assert_eq!(request.url, "http://localhost:1/open-apis/im/v1/messages/om_1/reactions/r_9");
    assert_eq!(request.bearer.as_deref(), Some("t"));
}

const REACTIONS: &str = r#"{"data":{"items":[
    {"reaction_id":"r_1","operator":{"operator_id":{"open_id":"ou_alice"}}},
    {"operator":{"operator_id":{"open_id":"ou_bot"}}},
    {"reaction_id":"r_3","operator":{"operator_id":{"open_id":"ou_bot"}}},
    {"reaction_id":"r_4","operator":{"operator_id":{"open_id":"ou_bot"}}},
    {"reaction_id":"r_5"}
]}}"#;

#[test]
fn own_reaction_is_found() {
    let reactions = read_reactions(REACTIONS.as_bytes());
    assert_eq!(reactions.len(), 5);
    assert_eq!(own_reaction(&reactions, Some("ou_bot")).as_deref(), Some("r_3"));
    assert_eq!(own_reaction(&reactions, Some("ou_alice")).as_deref(), Some("r_1"));
    assert_eq!(own_reaction(&reactions, Some("ou_carol")), None);
    assert_eq!(own_reaction(&reactions, None).as_deref(), Some("r_5"));
    let doc = parse(REACTIONS);
    assert_eq!(reactions_of_reply(Some(&doc)).len(), 5);
    assert!(reactions_of_reply(None).is_empty());
    assert!(read_reactions(b"nope").is_empty());
    assert!(read_reactions(br#"{"data":{"items":{}}}"#).is_empty());
    assert!(read_reactions(br#"{"data":{}}"#).is_empty());
    let one = vec![Reaction { operator: None, reaction_id: Some("r".into()) }];
    assert_eq!(own_reaction(&one, Some("ou_bot")), None);
}

#[test]
fn own_reaction_is_removed() {
    let request =
        remove_reaction(BASE, "t", "om_1", REACTIONS.as_bytes(), Some("ou_bot")).unwrap();
    assert_eq!(request.method, Method::Delete);
    assert_eq!(request.url, "http://localhost:1/open-apis/im/v1/messages/om_1/reactions/r_3");
    assert!(remove_reaction(BASE, "t", "om_1", REACTIONS.as_bytes(), Some("ou_z")).is_none());
}
