use feishu_gateway::config::{parse_csv, ConnectionMode, FeishuConfig, FeishuEnv};

fn minimal_env() -> FeishuEnv {
    FeishuEnv {
        app_id: Some("cli_test".into()),
        app_secret: Some("secret_test".into()),
        domain: None,
        connection_mode: None,
        webhook_path: None,
        verification_token: None,
        encrypt_key: None,
        allowed_groups: None,
        allowed_users: None,
        require_mention: None,
        dedupe_ttl_secs: None,
        message_limit: None,
    }
}

#[test]
fn defaults() {
    let c = FeishuConfig::from_env(minimal_env()).unwrap();
    assert_eq!(c.app_id, "cli_test");
    assert_eq!(c.app_secret, "secret_test");
    assert_eq!(c.domain, "feishu");
    assert_eq!(c.connection_mode, ConnectionMode::Websocket);
    assert_eq!(c.webhook_path, "/webhook/feishu");
    assert_eq!(c.verification_token, None);
    assert_eq!(c.encrypt_key, None);
    assert!(c.allowed_groups.is_empty());
    assert!(c.allowed_users.is_empty());
    assert!(c.require_mention);
    assert_eq!(c.dedupe_ttl_secs, 300);
    assert_eq!(c.message_limit, 4000);
}

#[test]
fn everything_can_be_set() {
    let mut env = minimal_env();
    env.domain = Some("lark".into());
    env.connection_mode = Some("WebHook".into());
    env.webhook_path = Some("/hook".into());
    env.verification_token = Some("tok".into());
    env.encrypt_key = Some("key".into());
    env.allowed_groups = Some("oc_1, oc_2,,".into());
    env.allowed_users = Some(" ou_1 ".into());
    env.require_mention = Some("false".into());
    env.dedupe_ttl_secs = Some("60".into());
    env.message_limit = Some("100".into());
    let c = FeishuConfig::from_env(env).unwrap();
    assert_eq!(c.domain, "lark");
    assert_eq!(c.connection_mode, ConnectionMode::Webhook);
    assert_eq!(c.webhook_path, "/hook");
    assert_eq!(c.verification_token.as_deref(), Some("tok"));
    assert_eq!(c.encrypt_key.as_deref(), Some("key"));
    assert_eq!(c.allowed_groups, vec!["oc_1", "oc_2"]);
    assert_eq!(c.allowed_users, vec!["ou_1"]);
    assert!(!c.require_mention);
    assert_eq!(c.dedupe_ttl_secs, 60);
    assert_eq!(c.message_limit, 100);
}

#[test]
fn disabled_without_id_or_secret() {
    let mut env = minimal_env();
    env.app_id = None;
    assert!(FeishuConfig::from_env(env).is_none());
    let mut env = minimal_env();
    env.app_secret = None;
    assert!(FeishuConfig::from_env(env).is_none());
    let mut env = minimal_env();
    env.app_secret = Some("".into());
    assert!(FeishuConfig::from_env(env).is_none());
    let mut env = minimal_env();
    env.app_id = Some("".into());
    assert!(FeishuConfig::from_env(env).is_some());
}

#[test]
fn mention_is_required_unless_switched_off() {
    for (value, required) in [("false", false), ("0", false), ("true", true), ("no", true), ("", true)] {
        let mut env = minimal_env();
        env.require_mention = Some(value.into());
        assert_eq!(FeishuConfig::from_env(env).unwrap().require_mention, required, "{value}");
    }
}

#[test]
fn malformed_numbers_fall_back() {
    let mut env = minimal_env();
    env.dedupe_ttl_secs = Some("5m".into());
    env.message_limit = Some("-1".into());
    let c = FeishuConfig::from_env(env).unwrap();
    assert_eq!(c.dedupe_ttl_secs, 300);
    assert_eq!(c.message_limit, 4000);
}

#[test]
fn unknown_mode_is_websocket() {
    let mut env = minimal_env();
    env.connection_mode = Some("carrier pigeon".into());
    assert_eq!(FeishuConfig::from_env(env).unwrap().connection_mode, ConnectionMode::Websocket);
    assert_eq!(ConnectionMode::from_lowercase("webhook"), ConnectionMode::Webhook);
    assert_eq!(ConnectionMode::from_lowercase("WEBHOOK"), ConnectionMode::Websocket);
}

#[test]
fn base_follows_the_domain() {
    let mut env = minimal_env();
    env.domain = Some("lark".into());
    assert_eq!(FeishuConfig::from_env(env).unwrap().api_base(), "https://open.larksuite.com");
    let mut env = minimal_env();
    env.domain = Some("Lark".into());
    assert_eq!(FeishuConfig::from_env(env).unwrap().api_base(), "https://open.feishu.cn");
}

#[test]
fn lists_are_trimmed() {
    assert_eq!(parse_csv(" a ,b, ,\u{3000}c d\t"), vec!["a", "b", "c d"]);
    assert!(parse_csv("").is_empty());
    assert!(parse_csv(" , ,").is_empty());
}
