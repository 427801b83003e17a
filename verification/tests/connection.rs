use feishu_gateway::adapter::{admit_at, FeishuAdapter};
use feishu_gateway::clock::NANOS_PER_SEC;
use feishu_gateway::config::{ConnectionMode, FeishuConfig};
use feishu_gateway::dedupe::DedupeCache;
use feishu_gateway::event::{
    FeishuEventBody, FeishuEventEnvelope, FeishuEventHeader, FeishuMessage, FeishuSender,
    FeishuSenderId,
};
use feishu_gateway::reply::{
    can_handle, emoji_to_feishu_reaction, handle_reply, ReplyPlan,
};
use feishu_gateway::schema::{Content, GatewayReply, ReplyChannel};
use feishu_gateway::ws::{
    handle_frame, handle_ws_message, handle_ws_message_at, ws_step, Backoff, WsAction, WsFrame,
    WsHeader, WsInput,
};

const SEC: u128 = NANOS_PER_SEC;

fn test_config() -> FeishuConfig {
    FeishuConfig {
        app_id: "cli_test".into(),
        app_secret: "secret_test".into(),
        domain: "feishu".into(),
        connection_mode: ConnectionMode::Websocket,
        webhook_path: "/webhook/feishu".into(),
        verification_token: None,
        encrypt_key: None,
        allowed_groups: vec![],
        allowed_users: vec![],
        require_mention: true,
        dedupe_ttl_secs: 300,
        message_limit: 4000,
    }
}

fn envelope(event_id: Option<&str>, message_id: &str) -> FeishuEventEnvelope {
    FeishuEventEnvelope {
        header: Some(FeishuEventHeader {
            event_id: event_id.map(|s| s.to_string()),
            event_type: Some("im.message.receive_v1".into()),
        }),
        event: Some(FeishuEventBody {
            sender: Some(FeishuSender {
                sender_id: Some(FeishuSenderId { open_id: Some("ou_user1".into()) }),
                sender_type: Some("user".into()),
            }),
            message: Some(FeishuMessage {
                message_id: Some(message_id.into()),
                chat_id: Some("oc_chat1".into()),
                chat_type: Some("p2p".into()),
                message_type: Some("text".into()),
                content: Some(r#"{"text":"hello"}"#.into()),
                mentions: None,
                root_id: None,
                parent_id: None,
            }),
        }),
        challenge: None,
        event_type_field: None,
    }
}

fn frame(method: i32, payload: Option<&[u8]>) -> WsFrame {
    WsFrame {
        seq_id: 3,
        log_id: 4,
        service: 5,
        method,
        headers: vec![WsHeader { key: "type".into(), value: "event".into() }],
        payload_encoding: Some("none".into()),
        payload_type: None,
        payload: payload.map(|p| p.to_vec()),
        log_id_new: Some("log".into()),
    }
}

fn reply(command: Option<&str>, text: &str) -> GatewayReply {
    GatewayReply {
        reply_to: "om_1".into(),
        command: command.map(|s| s.to_string()),
        channel: ReplyChannel { id: "oc_1".into() },
        content: Content { text: text.into() },
    }
}

#[test]
fn data_frame_is_delivered_and_acknowledged() {
    let f = frame(1, Some("{\"飛\":1}".as_bytes()));
    match handle_frame(f.clone()) {
        WsAction::Acknowledge { event, ack } => {
            assert_eq!(event.as_deref(), Some("{\"飛\":1}"));
            let mut expected = f;
            expected.payload = Some(b"{\"code\":200}".to_vec());
            assert_eq!(ack, expected);
        }
        _ => panic!("a data frame is acknowledged"),
    }
}

#[test]
fn data_frame_without_text_is_only_acknowledged() {
    for payload in [None, Some(&[0xffu8, 0xfe][..])] {
        match handle_frame(frame(1, payload)) {
            WsAction::Acknowledge { event, ack } => {
                assert_eq!(event, None);
                assert_eq!(ack.payload, Some(b"{\"code\":200}".to_vec()));
            }
            _ => panic!("a data frame is acknowledged"),
        }
    }
}

#[test]
fn control_frame_is_ignored() {
    assert!(matches!(handle_frame(frame(0, Some(b"{}"))), WsAction::Ignore));
    assert!(matches!(handle_frame(frame(2, Some(b"{}"))), WsAction::Ignore));
}

#[test]
fn connection_steps() {
    match ws_step(WsInput::Text("t".into())) {
        WsAction::Deliver(t) => assert_eq!(t, "t"),
        _ => panic!("a text is delivered"),
    }
    match ws_step(WsInput::Ping(vec![1, 2])) {
        WsAction::Pong(d) => assert_eq!(d, vec![1, 2]),
        _ => panic!("a ping is answered"),
    }
    assert!(matches!(ws_step(WsInput::Frame(frame(1, None))), WsAction::Acknowledge { .. }));
    assert!(matches!(ws_step(WsInput::Frame(frame(0, None))), WsAction::Ignore));
    assert!(matches!(ws_step(WsInput::Malformed), WsAction::Ignore));
    assert!(matches!(ws_step(WsInput::Other), WsAction::Ignore));
    assert!(matches!(ws_step(WsInput::Closed), WsAction::Finish));
    assert!(matches!(ws_step(WsInput::Failed), WsAction::Fail));
    assert!(matches!(ws_step(WsInput::Shutdown), WsAction::Close));
}

#[test]
fn backoff_doubles_up_to_two_minutes() {
    let mut backoff = Backoff::new();
    let mut waits = Vec::new();
    for _ in 0..9 {
        waits.push(backoff.after_connection(true, false).unwrap());
    }
    assert_eq!(waits, vec![2, 4, 8, 16, 32, 64, 120, 120, 120]);
    assert_eq!(backoff.after_connection(false, false), Some(1));
    assert_eq!(backoff.after_connection(true, false), Some(2));
    assert_eq!(backoff.after_connection(true, true), None);
    assert_eq!(backoff.after_connection(false, true), None);
}

#[test]
fn message_is_let_through_once() {
    let mut adapter = FeishuAdapter::new(test_config());
    let first = handle_ws_message(&mut adapter, &envelope(Some("evt_1"), "om_1"));
    assert_eq!(first.unwrap().message_id, "om_1");
    // The same event again.
    assert!(handle_ws_message(&mut adapter, &envelope(Some("evt_1"), "om_2")).is_none());
    // The same message in another event.
    assert!(handle_ws_message(&mut adapter, &envelope(Some("evt_2"), "om_1")).is_none());
    assert!(handle_ws_message(&mut adapter, &envelope(None, "om_1")).is_none());
    assert!(handle_ws_message(&mut adapter, &envelope(None, "om_3")).is_some());
}

#[test]
fn message_is_let_through_again_later() {
    let mut adapter = FeishuAdapter::new(test_config());
    let env = envelope(Some("evt_1"), "om_1");
    assert!(handle_ws_message_at(&mut adapter, &env, 0, 0).is_some());
    assert!(handle_ws_message_at(&mut adapter, &env, 299 * SEC, 299 * SEC).is_none());
    assert!(handle_ws_message_at(&mut adapter, &env, 300 * SEC, 300 * SEC).is_some());
}

#[test]
fn challenge_is_ignored_and_not_recorded() {
    let mut adapter = FeishuAdapter::new(test_config());
    let mut env = envelope(Some("evt_1"), "om_1");
    env.challenge = Some("c".into());
    assert!(handle_ws_message(&mut adapter, &env).is_none());
    env.challenge = None;
    assert!(handle_ws_message(&mut adapter, &env).is_some());
}

#[test]
fn sent_message_is_not_echoed() {
    let mut adapter = FeishuAdapter::new(test_config());
    adapter.record_sent("om_sent");
    assert!(adapter.accept_event(&envelope(Some("evt_1"), "om_sent")).is_none());
    assert!(adapter.accept_event(&envelope(Some("evt_2"), "om_other")).is_some());
    let mut adapter = FeishuAdapter::new(test_config());
    adapter.record_sent_at("om_sent", 0);
    let env = envelope(None, "om_sent");
    assert!(adapter.accept_event_at(&env, 299 * SEC, 299 * SEC).is_none());
    assert!(adapter.accept_event_at(&env, 300 * SEC, 300 * SEC).is_some());
}

#[test]
fn event_is_dropped_the_second_time_whatever_it_brought() {
    let mut adapter = FeishuAdapter::new(test_config());
    let mut silent = envelope(Some("evt_1"), "om_1");
    silent.event = None;
    assert!(adapter.accept_event(&silent).is_none());
    assert!(adapter.accept_event(&envelope(Some("evt_1"), "om_1")).is_none());
}

#[test]
fn event_without_message_is_recorded() {
    let mut dedupe = DedupeCache::new(300);
    assert!(admit_at(&mut dedupe, Some("evt_1"), None, 0, 0).is_none());
    assert!(dedupe.is_duplicate_at("evt_1", SEC));
}

#[test]
fn bot_identity_is_learned() {
    let mut adapter = FeishuAdapter::new(test_config());
    assert_eq!(adapter.bot_id(), None);
    assert!(adapter.resolve_bot_identity(b"{}").is_err());
    assert_eq!(adapter.bot_id(), None);
    assert!(adapter.resolve_bot_identity(br#"{"bot":{"open_id":"ou_user1"}}"#).is_ok());
    assert_eq!(adapter.bot_id(), Some("ou_user1"));
    assert!(adapter.resolve_bot_identity(b"oops").is_err());
    assert_eq!(adapter.bot_id(), Some("ou_user1"));
    // From now on the bot knows its own messages.
    assert!(adapter.accept_event(&envelope(None, "om_1")).is_none());
}

#[test]
fn emoji_mapping_known() {
    assert_eq!(emoji_to_feishu_reaction("👍"), Some("THUMBSUP"));
    assert_eq!(emoji_to_feishu_reaction("🔥"), Some("FIRE"));
    assert_eq!(emoji_to_feishu_reaction("👀"), Some("EYES"));
}

#[test]
fn emoji_mapping_unknown() {
    assert_eq!(emoji_to_feishu_reaction("🎉"), None);
}

#[test]
fn emoji_mapping_of_the_others() {
    assert_eq!(emoji_to_feishu_reaction("🤔"), Some("THINKING"));
    assert_eq!(emoji_to_feishu_reaction("👨\u{200d}💻"), Some("TECHNOLOGIST"));
    assert_eq!(emoji_to_feishu_reaction("⚡"), Some("LIGHTNING"));
    assert_eq!(emoji_to_feishu_reaction("🆗"), Some("OK"));
    assert_eq!(emoji_to_feishu_reaction("😱"), Some("SCREAM"));
    assert_eq!(emoji_to_feishu_reaction("👨"), None);
    assert_eq!(emoji_to_feishu_reaction(""), None);
}

#[test]
fn reactions_are_planned() {
    let r = reply(Some("add_reaction"), "👍");
    match handle_reply(&r, 4000) {
        ReplyPlan::AddReaction { message_id, reaction_type } => {
            assert_eq!((message_id, reaction_type), ("om_1", "THUMBSUP"));
        }
        _ => panic!("a reaction is added"),
    }
    let r = reply(Some("remove_reaction"), "🔥");
    match handle_reply(&r, 4000) {
        ReplyPlan::RemoveReaction { message_id, reaction_type } => {
            assert_eq!((message_id, reaction_type), ("om_1", "FIRE"));
        }
        _ => panic!("a reaction is removed"),
    }
    let r = reply(Some("add_reaction"), "🎉");
    assert!(matches!(handle_reply(&r, 4000), ReplyPlan::Nothing));
    let r = reply(Some("remove_reaction"), "🎉");
    assert!(matches!(handle_reply(&r, 4000), ReplyPlan::Nothing));
}

#[test]
fn unsupported_commands_are_skipped() {
    for command in ["create_topic", "set_reaction"] {
        let r = reply(Some(command), "hello");
        assert!(matches!(handle_reply(&r, 4000), ReplyPlan::Nothing));
    }
}

#[test]
fn texts_are_sent() {
    for command in [None, Some("reply"), Some("")] {
        let r = reply(command, "hello");
        match handle_reply(&r, 5) {
            ReplyPlan::Send { chat_id, texts } => {
                assert_eq!(chat_id, "oc_1");
                assert_eq!(texts, vec!["hello"]);
            }
            _ => panic!("a text is sent"),
        }
    }
    let r = reply(None, "hello big world");
    match handle_reply(&r, 10) {
        ReplyPlan::Send { texts, .. } => assert_eq!(texts, vec!["hello big ", "world"]),
        _ => panic!("a text is sent"),
    }
    let r = reply(None, "");
    match handle_reply(&r, 10) {
        ReplyPlan::Send { texts, .. } => assert_eq!(texts, vec![""]),
        _ => panic!("a text is sent"),
    }
}

#[test]
fn too_narrow_limit_is_recognised() {
    assert!(can_handle(&reply(None, "abc"), 1));
    assert!(!can_handle(&reply(None, "飛書"), 2));
    assert!(can_handle(&reply(None, "飛書"), 3));
    assert!(can_handle(&reply(Some("add_reaction"), "👍"), 1));
    assert!(can_handle(&reply(Some("set_reaction"), "👍"), 0));
}
