use feishu_gateway::config::{ConnectionMode, FeishuConfig};
use feishu_gateway::event::{
    extract_mentions, message_event, parse_message_event, FeishuEventBody, FeishuEventEnvelope,
    FeishuEventHeader, FeishuMention, FeishuMentionId, FeishuMessage, FeishuSender, FeishuSenderId,
};

fn test_config() -> FeishuConfig {
    FeishuConfig {
        app_id: "cli_test".into(),
        app_secret: "secret_test".into(),
        domain: "feishu".into(),
        connection_mode: ConnectionMode::Websocket,
        webhook_path: "/webhook/feishu".into(),
        verification_token: None,
        encrypt_key: None,
        allowed_groups: vec![],
        allowed_users: vec![],
        require_mention: true,
        dedupe_ttl_secs: 300,
        message_limit: 4000,
    }
}

fn text_content(text: &str) -> String {
    let mut content = serde_json::Map::new();
    content.insert("text".to_string(), serde_json::Value::from(text));
    serde_json::Value::Object(content).to_string()
}

fn make_envelope(
    chat_type: &str,
    text: &str,
    sender_open_id: &str,
    mentions: Option<Vec<FeishuMention>>,
) -> FeishuEventEnvelope {
    FeishuEventEnvelope {
        header: Some(FeishuEventHeader {
            event_id: Some("evt_test".into()),
            event_type: Some("im.message.receive_v1".into()),
        }),
        event: Some(FeishuEventBody {
            sender: Some(FeishuSender {
                sender_id: Some(FeishuSenderId {
                    open_id: Some(sender_open_id.into()),
                }),
                sender_type: Some("user".into()),
            }),
            message: Some(FeishuMessage {
                message_id: Some("om_msg1".into()),
                chat_id: Some("oc_chat1".into()),
                chat_type: Some(chat_type.into()),
                message_type: Some("text".into()),
                content: Some(text_content(text)),
                mentions,
                root_id: None,
                parent_id: None,
            }),
        }),
        challenge: None,
        event_type_field: None,
    }
}

fn mention(key: &str, open_id: &str) -> FeishuMention {
    FeishuMention {
        key: Some(key.into()),
        id: Some(FeishuMentionId { open_id: Some(open_id.into()) }),
        name: Some("Bot".into()),
    }
}

#[test]
fn parse_dm_text() {
    let env = make_envelope("p2p", "hello", "ou_user1", None);
    let cfg = test_config();
    let evt = parse_message_event(&env, Some("ou_bot"), &cfg).unwrap();
    assert_eq!(evt.platform, "feishu");
    assert_eq!(evt.channel.channel_type, "direct");
    assert_eq!(evt.channel.id, "oc_chat1");
    assert_eq!(evt.sender.id, "ou_user1");
    assert_eq!(evt.content.text, "hello");
    assert!(evt.mentions.is_empty());
}

#[test]
fn parse_group_with_bot_mention() {
    let mentions = vec![FeishuMention {
        key: Some("@_user_1".into()),
        id: Some(FeishuMentionId {
            open_id: Some("ou_bot".into()),
        }),
        name: Some("Bot".into()),
    }];
    let env = make_envelope("group", "@_user_1 explain VPC", "ou_user1", Some(mentions));
    let cfg = test_config();
    let evt = parse_message_event(&env, Some("ou_bot"), &cfg).unwrap();
    assert_eq!(evt.channel.channel_type, "group");
    assert_eq!(evt.content.text, "explain VPC");
    assert_eq!(evt.mentions, vec!["ou_bot"]);
}

#[test]
fn parse_group_without_mention_filtered() {
    let env = make_envelope("group", "just chatting", "ou_user1", None);
    let cfg = test_config(); // require_mention = true
    // Gateway-side mention gating: group message without bot mention is filtered
    assert!(parse_message_event(&env, Some("ou_bot"), &cfg).is_none());
}

#[test]
fn parse_group_without_mention_allowed_when_disabled() {
    let env = make_envelope("group", "just chatting", "ou_user1", None);
    let mut cfg = test_config();
    cfg.require_mention = false;
    let evt = parse_message_event(&env, Some("ou_bot"), &cfg);
    assert!(evt.is_some());
}

#[test]
fn parse_skips_bot_sender() {
    let mut env = make_envelope("p2p", "hello", "ou_bot", None);
    env.event.as_mut().unwrap().sender.as_mut().unwrap().sender_type = Some("bot".into());
    let cfg = test_config();
    assert!(parse_message_event(&env, Some("ou_bot"), &cfg).is_none());
}

#[test]
fn parse_skips_empty_text() {
    let env = make_envelope("p2p", "  ", "ou_user1", None);
    let cfg = test_config();
    assert!(parse_message_event(&env, Some("ou_bot"), &cfg).is_none());
}

#[test]
fn parse_skips_non_text_message() {
    let mut env = make_envelope("p2p", "hello", "ou_user1", None);
    env.event.as_mut().unwrap().message.as_mut().unwrap().message_type = Some("image".into());
    let cfg = test_config();
    assert!(parse_message_event(&env, Some("ou_bot"), &cfg).is_none());
}

#[test]
fn parse_skips_self_message() {
    let env = make_envelope("p2p", "hello", "ou_bot", None);
    let cfg = test_config();
    assert!(parse_message_event(&env, Some("ou_bot"), &cfg).is_none());
}

#[test]
fn extract_mentions_replacen_only_first() {
    // If mention key appears in normal text too, only the first occurrence is removed
    let mentions = vec![FeishuMention {
        key: Some("@_user_1".into()),
        id: Some(FeishuMentionId { open_id: Some("ou_bot".into()) }),
        name: Some("Bot".into()),
    }];
    let env = make_envelope(
        "group",
        "@_user_1 tell me about @_user_1 patterns",
        "ou_user1",
        Some(mentions),
    );
    let cfg = test_config();
    let evt = parse_message_event(&env, Some("ou_bot"), &cfg).unwrap();
    // Only first @_user_1 removed, second preserved
    assert!(evt.content.text.contains("@_user_1"));
    assert_eq!(evt.content.text, "tell me about @_user_1 patterns");
}

#[test]
fn parse_allowed_users_blocks_unlisted() {
    let env = make_envelope("p2p", "hello", "ou_stranger", None);
    let mut cfg = test_config();
    cfg.allowed_users = vec!["ou_vip".into()];
    assert!(parse_message_event(&env, Some("ou_bot"), &cfg).is_none());
}

#[test]
fn parse_allowed_users_permits_listed() {
    let env = make_envelope("p2p", "hello", "ou_vip", None);
    let mut cfg = test_config();
    cfg.allowed_users = vec!["ou_vip".into()];
    assert!(parse_message_event(&env, Some("ou_bot"), &cfg).is_some());
}

#[test]
fn parse_allowed_groups_blocks_unlisted() {
    let mentions = vec![FeishuMention {
        key: Some("@_user_1".into()),
        id: Some(FeishuMentionId { open_id: Some("ou_bot".into()) }),
        name: Some("Bot".into()),
    }];
    let env = make_envelope("group", "@_user_1 hello", "ou_user1", Some(mentions));
    let mut cfg = test_config();
    cfg.allowed_groups = vec!["oc_other".into()]; // oc_chat1 not in list
    assert!(parse_message_event(&env, Some("ou_bot"), &cfg).is_none());
}

#[test]
fn parse_allowed_groups_permits_listed() {
    let mentions = vec![FeishuMention {
        key: Some("@_user_1".into()),
        id: Some(FeishuMentionId { open_id: Some("ou_bot".into()) }),
        name: Some("Bot".into()),
    }];
    let env = make_envelope("group", "@_user_1 hello", "ou_user1", Some(mentions));
    let mut cfg = test_config();
    cfg.allowed_groups = vec!["oc_chat1".into()];
    assert!(parse_message_event(&env, Some("ou_bot"), &cfg).is_some());
}

#[test]
fn parse_thread_id_from_root_id() {
    let mut env = make_envelope("p2p", "reply", "ou_user1", None);
    env.event.as_mut().unwrap().message.as_mut().unwrap().root_id = Some("om_root".into());
    let cfg = test_config();
    let evt = parse_message_event(&env, Some("ou_bot"), &cfg).unwrap();
    assert_eq!(evt.channel.thread_id, Some("om_root".into()));
}

#[test]
fn parse_thread_id_from_parent_id() {
    let mut env = make_envelope("p2p", "reply", "ou_user1", None);
    env.event.as_mut().unwrap().message.as_mut().unwrap().parent_id = Some("om_parent".into());
    let cfg = test_config();
    let evt = parse_message_event(&env, Some("ou_bot"), &cfg).unwrap();
    assert_eq!(evt.channel.thread_id, Some("om_parent".into()));
}

#[test]
fn root_id_goes_before_parent_id() {
    let mut env = make_envelope("p2p", "reply", "ou_user1", None);
    let msg = env.event.as_mut().unwrap().message.as_mut().unwrap();
    msg.root_id = Some("om_root".into());
    msg.parent_id = Some("om_parent".into());
    let evt = parse_message_event(&env, None, &test_config()).unwrap();
    assert_eq!(evt.channel.thread_id, Some("om_root".into()));
}

#[test]
fn parse_skips_app_sender() {
    let mut env = make_envelope("p2p", "hello", "ou_other", None);
    env.event.as_mut().unwrap().sender.as_mut().unwrap().sender_type = Some("app".into());
    assert!(parse_message_event(&env, Some("ou_bot"), &test_config()).is_none());
}

#[test]
fn parse_skips_incomplete_envelopes() {
    let cfg = test_config();
    let mut env = make_envelope("p2p", "hello", "ou_user1", None);
    env.header = None;
    assert!(parse_message_event(&env, None, &cfg).is_none());
    let mut env = make_envelope("p2p", "hello", "ou_user1", None);
    env.event.as_mut().unwrap().sender = None;
    assert!(parse_message_event(&env, None, &cfg).is_none());
    let mut env = make_envelope("p2p", "hello", "ou_user1", None);
    env.event.as_mut().unwrap().message.as_mut().unwrap().chat_id = None;
    assert!(parse_message_event(&env, None, &cfg).is_none());
    let mut env = make_envelope("p2p", "hello", "ou_user1", None);
    env.event.as_mut().unwrap().message.as_mut().unwrap().message_id = None;
    assert!(parse_message_event(&env, None, &cfg).is_none());
    let mut env = make_envelope("p2p", "hello", "ou_user1", None);
    env.event = None;
    assert!(parse_message_event(&env, None, &cfg).is_none());
}

#[test]
fn parse_skips_content_without_text() {
    let cfg = test_config();
    for content in ["not json", "{}", "{\"text\": 5}", "[\"text\"]", ""] {
        let mut env = make_envelope("p2p", "hello", "ou_user1", None);
        env.event.as_mut().unwrap().message.as_mut().unwrap().content = Some(content.into());
        assert!(parse_message_event(&env, None, &cfg).is_none(), "{content}");
    }
    let mut env = make_envelope("p2p", "hello", "ou_user1", None);
    env.event.as_mut().unwrap().message.as_mut().unwrap().content = None;
    assert!(parse_message_event(&env, None, &cfg).is_none());
}

#[test]
fn group_without_known_bot_is_not_gated() {
    let env = make_envelope("group", "just chatting", "ou_user1", None);
    assert!(parse_message_event(&env, None, &test_config()).is_some());
}

#[test]
fn group_allowlist_exempts_direct_chats() {
    let env = make_envelope("p2p", "hello", "ou_user1", None);
    let mut cfg = test_config();
    cfg.allowed_groups = vec!["oc_other".into()];
    assert!(parse_message_event(&env, None, &cfg).is_some());
}

#[test]
fn chat_without_type_counts_as_group() {
    let mut env = make_envelope("p2p", "hello", "ou_user1", None);
    env.event.as_mut().unwrap().message.as_mut().unwrap().chat_type = None;
    assert!(parse_message_event(&env, Some("ou_bot"), &test_config()).is_none());
    let evt = parse_message_event(&env, None, &test_config()).unwrap();
    assert_eq!(evt.channel.channel_type, "group");
}

#[test]
fn bare_mention_of_the_bot_is_skipped() {
    let env = make_envelope("group", " @_user_1 ", "ou_user1", Some(vec![mention("@_user_1", "ou_bot")]));
    assert!(parse_message_event(&env, Some("ou_bot"), &test_config()).is_none());
}

#[test]
fn mentions_of_others_stay_in_the_text() {
    let mentions = vec![mention("@_user_1", "ou_bot"), mention("@_user_2", "ou_alice")];
    let (text, ids) = extract_mentions("@_user_1 ask @_user_2", &mentions, Some("ou_bot"));
    assert_eq!(text, " ask @_user_2");
    assert_eq!(ids, vec!["ou_bot", "ou_alice"]);
    let (text, ids) = extract_mentions("@_user_1 ask @_user_2", &mentions, None);
    assert_eq!(text, "@_user_1 ask @_user_2");
    assert_eq!(ids, vec!["ou_bot", "ou_alice"]);
}

#[test]
fn mentions_without_id_are_left_out() {
    let nobody = FeishuMention { key: Some("@x".into()), id: None, name: None };
    let (text, ids) = extract_mentions("@x hi", &[nobody], Some("ou_bot"));
    assert_eq!(text, "@x hi");
    assert!(ids.is_empty());
}

#[test]
fn message_event_takes_the_text_that_it_is_given() {
    let env = make_envelope("p2p", "in the content", "ou_user1", None);
    let event = env.event.as_ref().unwrap();
    let sender = event.sender.as_ref().unwrap();
    let msg = event.message.as_ref().unwrap();
    let cfg = test_config();
    let evt = message_event(sender, msg, Some("ou_bot"), &cfg, Some("  given ")).unwrap();
    assert_eq!(evt.content.text, "given");
    assert_eq!(evt.message_id, "om_msg1");
    assert!(message_event(sender, msg, Some("ou_bot"), &cfg, None).is_none());
}

#[test]
fn sender_name_is_replaced() {
    let env = make_envelope("p2p", "hello", "ou_user1", None);
    let evt = parse_message_event(&env, None, &test_config()).unwrap();
    assert_eq!(evt.sender.name, "ou_user1");
    let evt = evt.with_sender_name("Alice".to_string());
    assert_eq!(evt.sender.id, "ou_user1");
    assert_eq!(evt.sender.name, "Alice");
    assert_eq!(evt.sender.display_name, "Alice");
    assert_eq!(evt.content.text, "hello");
}
