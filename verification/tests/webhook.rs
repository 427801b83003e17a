use aes::cipher::{BlockEncryptMut, KeyIvInit};
use base64::Engine;
use feishu_gateway::adapter::FeishuAdapter;
use feishu_gateway::clock::NANOS_PER_SEC;
use feishu_gateway::config::{ConnectionMode, FeishuConfig};
use feishu_gateway::webhook::{
    answer, challenge_body, is_authentic, is_signed, judge, judge_document, open_notice, webhook,
    webhook_at, Judgement, Notice, WebhookHeaders, WebhookVerdict, WEBHOOK_BODY_LIMIT,
};
use sha2::{Digest, Sha256};

fn config(token: Option<&str>, key: Option<&str>) -> FeishuConfig {
    FeishuConfig {
        app_id: "cli_test".into(),
        app_secret: "secret_test".into(),
        domain: "feishu".into(),
        connection_mode: ConnectionMode::Webhook,
        webhook_path: "/webhook/feishu".into(),
        verification_token: token.map(|s| s.to_string()),
        encrypt_key: key.map(|s| s.to_string()),
        allowed_groups: vec![],
        allowed_users: vec![],
        require_mention: true,
        dedupe_ttl_secs: 300,
        message_limit: 4000,
    }
}

fn no_headers() -> WebhookHeaders {
    WebhookHeaders { forwarded_for: None, signature: None, timestamp: None, nonce: None }
}

fn signed_headers(key: &str, body: &[u8]) -> WebhookHeaders {
    let mut hasher = Sha256::new();
    hasher.update(b"123");
    hasher.update(b"n");
    hasher.update(key.as_bytes());
    hasher.update(body);
    WebhookHeaders {
        forwarded_for: Some("1.2.3.4".into()),
        signature: Some(format!("{:x}", hasher.finalize())),
        timestamp: Some("123".into()),
        nonce: Some("n".into()),
    }
}

fn encrypted_body(key: &str, plain: &str) -> Vec<u8> {
    let iv = [9u8; 16];
    let mut buf = vec![0u8; plain.len() + 16];
    buf[..plain.len()].copy_from_slice(plain.as_bytes());
    let cipher = cbc::Encryptor::<aes::Aes256>::new_from_slices(&Sha256::digest(key.as_bytes()), &iv)
        .unwrap()
        .encrypt_padded_mut::<aes::cipher::block_padding::Pkcs7>(&mut buf, plain.len())
        .unwrap()
        .to_vec();
    let mut payload = iv.to_vec();
    payload.extend(cipher);
    let text = base64::engine::general_purpose::STANDARD.encode(payload);
    format!("{{\"encrypt\":\"{text}\"}}").into_bytes()
}

fn parse(body: &str) -> serde_json::Value {
    serde_json::from_str(body).unwrap()
}

#[test]
fn plain_event_is_taken() {
    let mut adapter = FeishuAdapter::new(config(None, None));
    let verdict = webhook(&mut adapter, &no_headers(), br#"{"header":{"event_id":"e"}}"#);
    assert_eq!(verdict.status(), 200);
    assert_eq!(verdict.body(), None);
    match verdict {
        WebhookVerdict::Event(v) => assert_eq!(v, parse(r#"{"header":{"event_id":"e"}}"#)),
        _ => panic!("an event is taken"),
    }
}

#[test]
fn large_body_is_refused_and_not_counted() {
    let mut adapter = FeishuAdapter::new(config(None, None));
    let body = vec![b' '; WEBHOOK_BODY_LIMIT + 1];
    for _ in 0..130 {
        let verdict = webhook(&mut adapter, &no_headers(), &body);
        assert_eq!(verdict.status(), 413);
    }
    assert!(matches!(
        webhook(&mut adapter, &no_headers(), b"{}"),
        WebhookVerdict::Event(_)
    ));
    let mut body = vec![b' '; WEBHOOK_BODY_LIMIT];
    body[0] = b'7';
    assert!(matches!(webhook(&mut adapter, &no_headers(), &body), WebhookVerdict::Event(_)));
}

#[test]
fn busy_client_is_refused() {
    let mut adapter = FeishuAdapter::new(config(None, None));
    for _ in 0..120 {
        assert_eq!(webhook_at(&mut adapter, &no_headers(), b"{}", 5).status(), 200);
    }
    let verdict = webhook_at(&mut adapter, &no_headers(), b"{}", 6);
    assert_eq!(verdict.status(), 429);
    assert_eq!(verdict.body().as_deref(), Some("rate limit exceeded"));
    // Another client, and the same one later.
    let mut other = no_headers();
    other.forwarded_for = Some("1.2.3.4".into());
    assert_eq!(webhook_at(&mut adapter, &other, b"{}", 6).status(), 200);
    let mut same = no_headers();
    same.forwarded_for = Some("unknown".into());
    assert_eq!(webhook_at(&mut adapter, &same, b"{}", 6).status(), 429);
    assert_eq!(
        webhook_at(&mut adapter, &no_headers(), b"{}", 5 + 60 * NANOS_PER_SEC).status(),
        200
    );
}

#[test]
fn signature_is_required_with_a_key() {
    let cfg = config(None, Some("k"));
    let body = b"{}";
    assert!(matches!(answer(&cfg, &signed_headers("k", body), body, false), WebhookVerdict::Event(_)));
    for headers in [no_headers(), signed_headers("x", body), signed_headers("k", b"{ }")] {
        let verdict = answer(&cfg, &headers, body, false);
        assert_eq!(verdict.status(), 401);
        assert!(matches!(verdict, WebhookVerdict::Unauthorized));
    }
    let mut headers = signed_headers("k", body);
    headers.nonce = None;
    assert!(!is_signed(Some("k"), &headers, body));
    let mut headers = signed_headers("k", body);
    headers.timestamp = None;
    assert!(!is_signed(Some("k"), &headers, body));
    assert!(is_signed(None, &no_headers(), body));
    assert!(is_signed(Some("k"), &signed_headers("k", body), body));
}

#[test]
fn exceeded_rate_goes_before_the_signature() {
    let cfg = config(None, Some("k"));
    assert_eq!(answer(&cfg, &no_headers(), b"{}", true).status(), 429);
}

#[test]
fn malformed_body_is_refused() {
    let cfg = config(None, None);
    for body in [&b"nope"[..], b"", b"{", &[0xff]] {
        let verdict = answer(&cfg, &no_headers(), body, false);
        assert_eq!(verdict.status(), 400);
        assert_eq!(verdict.body(), None);
    }
}

#[test]
fn encrypted_event_is_opened() {
    let cfg = config(Some("tok"), Some("k"));
    let plain = r#"{"header":{"token":"tok"},"n":1}"#;
    let body = encrypted_body("k", plain);
    match answer(&cfg, &signed_headers("k", &body), &body, false) {
        WebhookVerdict::Event(v) => assert_eq!(v, parse(plain)),
        _ => panic!("an event is taken"),
    }
}

#[test]
fn encrypted_event_that_cannot_be_opened() {
    // No key.
    let body = encrypted_body("k", "{}");
    assert_eq!(answer(&config(None, None), &no_headers(), &body, false).status(), 400);
    // Not a document inside.
    let body = encrypted_body("k", "not json");
    let cfg = config(None, Some("k"));
    assert_eq!(answer(&cfg, &signed_headers("k", &body), &body, false).status(), 400);
    // Not Base64.
    let body = br#"{"encrypt":"???"}"#;
    assert_eq!(answer(&cfg, &signed_headers("k", body), body, false).status(), 400);
    // A member that is no text does not count.
    let body = br#"{"encrypt":5}"#;
    assert_eq!(answer(&cfg, &signed_headers("k", body), body, false).status(), 200);
    assert!(open_notice(parse(r#"{"encrypt":"x"}"#), None).is_none());
    assert_eq!(open_notice(parse(r#"{"a":1}"#), None), Some(parse(r#"{"a":1}"#)));
}

#[test]
fn challenge_is_sent_back() {
    let verdict = judge_document(parse(r#"{"challenge":"abc","token":"tok"}"#), Some("tok"));
    assert_eq!(verdict.status(), 200);
    assert_eq!(verdict.body().as_deref(), Some(r#"{"challenge":"abc"}"#));
    match verdict {
        WebhookVerdict::Challenge(c) => assert_eq!(c, "abc"),
        _ => panic!("the challenge is sent back"),
    }
    let verdict = judge_document(parse(r#"{"challenge":5}"#), None);
    assert_eq!(verdict.body().as_deref(), Some(r#"{"challenge":""}"#));
    assert_eq!(challenge_body("\"飛\n"), "{\"challenge\":\"\\\"飛\\n\"}");
}

#[test]
fn challenge_needs_the_token() {
    for doc in [
        r#"{"challenge":"abc"}"#,
        r#"{"challenge":"abc","token":"other"}"#,
        r#"{"challenge":"abc","token":5}"#,
        r#"{"challenge":"abc","header":{"token":"tok"}}"#,
    ] {
        assert_eq!(judge_document(parse(doc), Some("tok")).status(), 401, "{doc}");
    }
}

#[test]
fn event_needs_the_token() {
    for doc in [r#"{"header":{"token":"tok"}}"#, r#"{"token":"tok"}"#, r#"{"header":{},"token":"tok"}"#] {
        assert!(matches!(judge_document(parse(doc), Some("tok")), WebhookVerdict::Event(_)), "{doc}");
    }
    for doc in [
        r#"{}"#,
        r#"{"token":"other"}"#,
        r#"{"header":{"token":"other"},"token":"tok"}"#,
        r#"{"header":{"token":5},"token":"tok"}"#,
        r#"[]"#,
    ] {
        assert_eq!(judge_document(parse(doc), Some("tok")).status(), 401, "{doc}");
    }
    assert!(matches!(judge_document(parse("[]"), None), WebhookVerdict::Event(_)));
}

#[test]
fn judgement_on_plain_values() {
    let notice = Notice { challenge: None, header_token: None, token: Some("t") };
    assert!(matches!(judge(Some("t"), &notice), Judgement::Event));
    assert!(matches!(judge(Some("u"), &notice), Judgement::Unauthorized));
    let notice = Notice { challenge: Some(Some("c")), header_token: None, token: None };
    assert!(matches!(judge(Some("t"), &notice), Judgement::Unauthorized));
    match judge(None, &notice) {
        Judgement::Challenge(c) => assert_eq!(c, "c"),
        _ => panic!("the challenge is sent back"),
    }
    assert!(is_authentic(None, None));
    assert!(is_authentic(Some("t"), Some("t")));
    assert!(!is_authentic(Some("t"), None));
    assert!(!is_authentic(Some("t"), Some("T")));
}
