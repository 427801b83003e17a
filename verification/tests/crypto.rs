use aes::cipher::{BlockEncryptMut, KeyIvInit};
use base64::Engine;
use feishu_gateway::crypto::{
    constant_time_eq, decrypt_event, decrypt_payload, read_plaintext, signature_matches, to_hex,
    verify_signature, DecryptError,
};
use sha2::{Digest, Sha256};

fn encrypt_bytes(key: &str, plain: &[u8]) -> Vec<u8> {
    let iv = [7u8; 16];
    let mut buf = vec![0u8; plain.len() + 16];
    buf[..plain.len()].copy_from_slice(plain);
    let cipher = cbc::Encryptor::<aes::Aes256>::new_from_slices(&Sha256::digest(key.as_bytes()), &iv)
        .unwrap()
        .encrypt_padded_mut::<aes::cipher::block_padding::Pkcs7>(&mut buf, plain.len())
        .unwrap()
        .to_vec();
    let mut payload = iv.to_vec();
    payload.extend(cipher);
    payload
}

fn encrypt(key: &str, plain: &[u8]) -> String {
    base64::engine::general_purpose::STANDARD.encode(encrypt_bytes(key, plain))
}

#[test]
fn verify_signature_correct() {
    let ts = "1234567890";
    let nonce = "abc";
    let key = "mykey";
    let body = b"hello";
    let mut hasher = Sha256::new();
    hasher.update(ts.as_bytes());
    hasher.update(nonce.as_bytes());
    hasher.update(key.as_bytes());
    hasher.update(body);
    let expected = format!("{:x}", hasher.finalize());
    assert!(verify_signature(ts, nonce, key, body, &expected));
}

#[test]
fn verify_signature_wrong() {
    assert!(!verify_signature("ts", "nonce", "key", b"body", "bad_sig"));
}

#[test]
fn verify_signature_depends_on_every_part() {
    let sig = "97056e7c75bf2d84166c0c19eb88391bac03f2ef4dee2818cdd07d6857e9cef2";
    assert!(verify_signature("1234567890", "abc", "mykey", b"hello", sig));
    assert!(!verify_signature("1234567891", "abc", "mykey", b"hello", sig));
    assert!(!verify_signature("1234567890", "abd", "mykey", b"hello", sig));
    assert!(!verify_signature("1234567890", "abc", "mykez", b"hello", sig));
    assert!(!verify_signature("1234567890", "abc", "mykey", b"hellp", sig));
    assert!(!verify_signature("1234567890", "abc", "mykey", b"hello", &sig.to_uppercase()));
}

#[test]
fn signature_is_the_hexadecimal_digest() {
    assert!(signature_matches(&[0x00, 0xff, 0x1a], "00ff1a"));
    assert!(!signature_matches(&[0x00, 0xff, 0x1a], "00FF1A"));
    assert!(signature_matches(&[], ""));
}

#[test]
fn hex_writes_two_digits_for_each_byte() {
    assert_eq!(to_hex(&[0, 9, 10, 15, 16, 255]), "00090a0f10ff");
    let all: Vec<u8> = (0..=255).collect();
    let text = to_hex(&all);
    assert_eq!(text.len(), 512);
    for b in all {
        let at = 2 * b as usize;
        assert_eq!(&text[at..at + 2], format!("{b:02x}"));
    }
}

#[test]
fn constant_time_eq_same() {
    assert!(constant_time_eq("abc123", "abc123"));
}

#[test]
fn constant_time_eq_different() {
    assert!(!constant_time_eq("abc123", "abc124"));
}

#[test]
fn constant_time_eq_different_length() {
    assert!(!constant_time_eq("short", "longer_string"));
}

#[test]
fn decrypt_event_reads_what_was_encrypted() {
    for plain in ["", "{\"type\":\"event\"}", "exactly sixteen!", "飛書中文消息"] {
        assert_eq!(decrypt_event("key", &encrypt("key", plain.as_bytes())), Ok(plain.to_string()));
    }
}

#[test]
fn decrypt_event_needs_base64() {
    assert_eq!(decrypt_event("key", "not base64!"), Err(DecryptError::NotBase64));
}

#[test]
fn decrypt_event_needs_a_vector() {
    let short = base64::engine::general_purpose::STANDARD.encode([1u8; 15]);
    assert_eq!(decrypt_event("key", &short), Err(DecryptError::TooShort));
    assert_eq!(decrypt_event("key", ""), Err(DecryptError::TooShort));
}

#[test]
fn decrypt_event_needs_whole_blocks() {
    let ragged = base64::engine::general_purpose::STANDARD.encode([1u8; 37]);
    assert_eq!(decrypt_event("key", &ragged), Err(DecryptError::BadCiphertext));
    let empty = base64::engine::general_purpose::STANDARD.encode([1u8; 16]);
    assert_eq!(decrypt_event("key", &empty), Err(DecryptError::BadCiphertext));
}

#[test]
fn decrypt_event_needs_text() {
    let bytes = encrypt("key", &[0xff, 0xfe]);
    assert_eq!(decrypt_event("key", &bytes), Err(DecryptError::NotUtf8));
}

#[test]
fn decrypt_event_needs_the_key() {
    let secret = encrypt("key", b"attack at dawn");
    assert_ne!(decrypt_event("other", &secret), Ok("attack at dawn".to_string()));
}

#[test]
fn decrypt_payload_takes_key_and_bytes() {
    let key = Sha256::digest(b"key").to_vec();
    let payload = encrypt_bytes("key", b"hello");
    assert_eq!(decrypt_payload(&key, &payload), Ok("hello".to_string()));
    assert_eq!(decrypt_payload(&key, &payload[..10]), Err(DecryptError::TooShort));
}

#[test]
fn plaintext_is_read_as_text() {
    assert_eq!(read_plaintext(Some(b"hi".to_vec())), Ok("hi".to_string()));
    assert_eq!(read_plaintext(Some(vec![0xc0])), Err(DecryptError::NotUtf8));
    assert_eq!(read_plaintext(None), Err(DecryptError::BadCiphertext));
}
