//! Signatures and encrypted payloads of webhook requests.

use aes::cipher::{BlockDecryptMut, KeyIvInit};
use base64::Engine;
use sha2::Digest;
use subtle::ConstantTimeEq;
use vstd::prelude::*;
use vstd::slice::*;
use vstd::string::*;
use vstd::utf8::*;

use crate::text::lemma_encoding_is_injective;

verus! {

/// Why text is no Base64.
#[verifier::external_type_specification]
#[verifier::external_body]
pub struct ExDecodeError(base64::DecodeError);

/// What is wrong with the padding of a decrypted message.
#[verifier::external_type_specification]
#[verifier::external_body]
pub struct ExUnpadError(aes::cipher::block_padding::UnpadError);

/// The SHA-256 digest of a message.
pub uninterp spec fn sha256(message: Seq<u8>) -> Seq<u8>;

/// The bytes that padded Base64 text in the standard alphabet stands for, if it is such text.
pub uninterp spec fn base64_bytes(text: Seq<char>) -> Option<Seq<u8>>;

/// What AES-256 in CBC mode decrypts to, without its PKCS#7 padding, if that is well formed.
pub uninterp spec fn aes256_cbc_plaintext(key: Seq<u8>, iv: Seq<u8>, ciphertext: Seq<u8>) -> Option<
    Seq<u8>,
>;

/// [`ConstantTimeEq::ct_eq`] on byte slices of the `subtle` crate is true exactly for slices of the
/// same length and content. That it takes the same time for all contents is not stated.
#[verifier::external_body]
fn ct_eq(a: &[u8], b: &[u8]) -> (r: bool)
    ensures
        r == (a@ == b@),
{
    a.ct_eq(b).into()
}

/// [`sha2::Sha256::digest`] computes the 32 bytes of the SHA-256 digest, which depend on the message
/// alone.
#[verifier::external_body]
fn sha256_digest(message: &[u8]) -> (r: Vec<u8>)
    ensures
        r@ == sha256(message@),
        r@.len() == 32,
{
    sha2::Sha256::digest(message).to_vec()
}

/// `decode` of the standard engine of the `base64` crate. Whether the text can be decoded, and to
/// what, depends on the text alone.
#[verifier::external_body]
fn base64_decode(text: &str) -> (r: Result<Vec<u8>, base64::DecodeError>)
    ensures
        r is Ok <==> base64_bytes(text@) is Some,
        r is Ok ==> Some(r->Ok_0@) == base64_bytes(text@),
{
    base64::engine::general_purpose::STANDARD.decode(text)
}

/// `new_from_slices` and `decrypt_padded_mut` of the CBC decryptor over AES-256 with PKCS#7 padding.
/// The former fails only on a key that is not 32 bytes or an initialisation vector that is not 16.
/// The result of the latter depends on key, vector and ciphertext alone; a ciphertext that is not
/// made of whole blocks is an error.
#[verifier::external_body]
fn aes256_cbc_decrypt(key: &[u8], iv: &[u8], ciphertext: &[u8]) -> (r: Result<
    Vec<u8>,
    aes::cipher::block_padding::UnpadError,
>)
    requires
        key@.len() == 32,
        iv@.len() == 16,
    ensures
        r is Ok <==> aes256_cbc_plaintext(key@, iv@, ciphertext@) is Some,
        r is Ok ==> Some(r->Ok_0@) == aes256_cbc_plaintext(key@, iv@, ciphertext@),
        ciphertext@.len() % 16 != 0 ==> r is Err,
{
    let mut buf = ciphertext.to_vec();
    cbc::Decryptor::<aes::Aes256>::new_from_slices(key, iv)
        .unwrap()
        .decrypt_padded_mut::<aes::cipher::block_padding::Pkcs7>(&mut buf)
        .map(|plain| plain.to_vec())
}

/// Timing-safe string comparison to prevent side-channel attacks on tokens.
pub fn constant_time_eq(a: &str, b: &str) -> (r: bool)
    ensures
        r == (a@ == b@),
{
    proof {
        lemma_encoding_is_injective(a@, b@);
    }
    let x = a.as_bytes();
    let y = b.as_bytes();
    if x.len() != y.len() {
        return false;
    }
    ct_eq(x, y)
}

/// The lower-case hexadecimal digit of a number below sixteen.
pub open spec fn hex_digit(n: u8) -> char {
    if n < 10 {
        (48 + n) as char
    } else {
        (87 + n) as char
    }
}

/// Two lower-case hexadecimal digits for each byte.
pub open spec fn hex(bytes: Seq<u8>) -> Seq<char>
    decreases bytes.len(),
{
    if bytes.len() == 0 {
        seq![]
    } else {
        let b = bytes.last();
        hex(bytes.drop_last()).push(hex_digit(b / 16)).push(hex_digit(b % 16))
    }
}

fn to_hex_digit(n: u8) -> (r: char)
    requires
        n < 16,
    ensures
        r == hex_digit(n),
{
    if n < 10 {
        (48 + n) as char
    } else {
        (87 + n) as char
    }
}

/// Two lower-case hexadecimal digits for each byte.
pub fn to_hex(bytes: &[u8]) -> (r: String)
    ensures
        r@ == hex(bytes@),
{
    let mut r = String::new();
    let mut i: usize = 0;
    assert(bytes@.take(0) =~= seq![]);
    while i < bytes.len()
        invariant
            i <= bytes@.len(),
            r@ == hex(bytes@.take(i as int)),
        decreases bytes@.len() - i,
    {
        let b = bytes[i];
        assert(bytes@.take(i + 1).drop_last() =~= bytes@.take(i as int));
        r.push(to_hex_digit(b / 16));
        r.push(to_hex_digit(b % 16));
        i = i + 1;
    }
    assert(bytes@.take(bytes@.len() as int) =~= bytes@);
    r
}

/// The signed message of a webhook request.
pub open spec fn signed_message(
    timestamp: Seq<char>,
    nonce: Seq<char>,
    encrypt_key: Seq<char>,
    body: Seq<u8>,
) -> Seq<u8> {
    encode_utf8(timestamp) + encode_utf8(nonce) + encode_utf8(encrypt_key) + body
}

/// Whether `expected_sig` is the hexadecimal form of the digest.
pub fn signature_matches(digest: &[u8], expected_sig: &str) -> (r: bool)
    ensures
        r == (hex(digest@) == expected_sig@),
{
    let result = to_hex(digest);
    constant_time_eq(result.as_str(), expected_sig)
}

/// Appends bytes to bytes.
fn append_bytes(out: &mut Vec<u8>, bytes: &[u8])
    ensures
        final(out)@ == old(out)@ + bytes@,
{
    out.extend_from_slice(bytes);
    assert(out@ =~= old(out)@ + bytes@);
}

/// Verifies a webhook signature: SHA256(timestamp + nonce + encrypt_key + body).
pub fn verify_signature(
    timestamp: &str,
    nonce: &str,
    encrypt_key: &str,
    body: &[u8],
    expected_sig: &str,
) -> (r: bool)
    ensures
        r == (hex(sha256(signed_message(timestamp@, nonce@, encrypt_key@, body@)))
            == expected_sig@),
{
    let mut message: Vec<u8> = Vec::new();
    append_bytes(&mut message, timestamp.as_bytes());
    append_bytes(&mut message, nonce.as_bytes());
    append_bytes(&mut message, encrypt_key.as_bytes());
    append_bytes(&mut message, body);
    assert(message@ =~= signed_message(timestamp@, nonce@, encrypt_key@, body@));
    let digest = sha256_digest(message.as_slice());
    signature_matches(digest.as_slice(), expected_sig)
}

/// Why an encrypted payload could not be read. What the decoders say of it in words is not kept.
#[derive(Clone, Copy, Debug, PartialEq, Eq, Structural)]
pub enum DecryptError {
    /// The payload is not Base64.
    NotBase64,
    /// The payload is too short for an initialisation vector.
    TooShort,
    /// The ciphertext is not made of whole blocks, or its padding is malformed.
    BadCiphertext,
    /// The decrypted bytes are no text.
    NotUtf8,
}

/// The text of a decrypted payload.
pub open spec fn payload_text(plaintext: Option<Seq<u8>>) -> Result<Seq<char>, DecryptError> {
    match plaintext {
        None => Err(DecryptError::BadCiphertext),
        Some(p) => if valid_utf8(p) {
            Ok(decode_utf8(p))
        } else {
            Err(DecryptError::NotUtf8)
        },
    }
}

/// The text of an encrypted payload: an initialisation vector of 16 bytes, then the ciphertext.
pub open spec fn payload_of_bytes(key: Seq<u8>, payload: Option<Seq<u8>>) -> Result<
    Seq<char>,
    DecryptError,
> {
    match payload {
        None => Err(DecryptError::NotBase64),
        Some(p) => if p.len() < 16 {
            Err(DecryptError::TooShort)
        } else {
            payload_text(aes256_cbc_plaintext(key, p.take(16), p.skip(16)))
        },
    }
}

/// The text of an encrypted event.
pub open spec fn decrypted(encrypt_key: Seq<char>, encrypted: Seq<char>) -> Result<
    Seq<char>,
    DecryptError,
> {
    payload_of_bytes(sha256(encode_utf8(encrypt_key)), base64_bytes(encrypted))
}

/// The characters behind the text of a payload.
pub open spec fn result_view(r: Result<String, DecryptError>) -> Result<Seq<char>, DecryptError> {
    match r {
        Ok(s) => Ok(s@),
        Err(e) => Err(e),
    }
}

/// The text of a decrypted payload; `None` stands for a ciphertext that could not be decrypted.
pub fn read_plaintext(plaintext: Option<Vec<u8>>) -> (r: Result<String, DecryptError>)
    ensures
        result_view(r) == payload_text(
            match plaintext {
                Some(p) => Some(p@),
                None => None,
            },
        ),
{
    match plaintext {
        None => Err(DecryptError::BadCiphertext),
        Some(p) => match String::from_utf8(p) {
            Ok(s) => Ok(s),
            Err(_) => Err(DecryptError::NotUtf8),
        },
    }
}

/// Decrypts a payload with a key of 32 bytes: the first 16 bytes are the initialisation vector.
pub fn decrypt_payload(key: &[u8], payload: &[u8]) -> (r: Result<String, DecryptError>)
    requires
        key@.len() == 32,
    ensures
        result_view(r) == payload_of_bytes(key@, Some(payload@)),
        payload@.len() % 16 != 0 ==> r is Err,
{
    if payload.len() < 16 {
        return Err(DecryptError::TooShort);
    }
    let iv = slice_subrange(payload, 0, 16);
    let ciphertext = slice_subrange(payload, 16, payload.len());
    assert(iv@ =~= payload@.take(16));
    assert(ciphertext@ =~= payload@.skip(16));
    match aes256_cbc_decrypt(key, iv, ciphertext) {
        Ok(p) => read_plaintext(Some(p)),
        Err(_) => read_plaintext(None),
    }
}

/// Decrypts an AES-CBC encrypted event body. The key is SHA256(encrypt_key), the first 16 bytes of
/// the ciphertext are the initialisation vector.
pub fn decrypt_event(encrypt_key: &str, encrypted: &str) -> (r: Result<String, DecryptError>)
    ensures
        result_view(r) == decrypted(encrypt_key@, encrypted@),
        base64_bytes(encrypted@) matches Some(b) ==> (b.len() % 16 != 0 ==> r is Err),
{
    let key = sha256_digest(encrypt_key.as_bytes());
    match base64_decode(encrypted) {
        Ok(payload) => decrypt_payload(key.as_slice(), payload.as_slice()),
        Err(_) => Err(DecryptError::NotBase64),
    }
}

/// The hexadecimal form is twice as long as the bytes.
pub proof fn law_hex_doubles_the_length(a: Seq<u8>)
    ensures
        hex(a).len() == 2 * a.len(),
    decreases a.len(),
{
    if a.len() > 0 {
        law_hex_doubles_the_length(a.drop_last());
    }
}

/// Different digests have different hexadecimal forms.
pub proof fn law_hex_is_injective(a: Seq<u8>, b: Seq<u8>)
    ensures
        hex(a) == hex(b) ==> a == b,
    decreases a.len(),
{
    law_hex_doubles_the_length(a);
    law_hex_doubles_the_length(b);
    if hex(a) == hex(b) {
        if a.len() == 0 {
            assert(a =~= b);
        } else {
            assert(b.len() == a.len());
            law_hex_is_injective(a.drop_last(), b.drop_last());
            let x = a.last();
            let y = b.last();
            let n = hex(a).len() as int;
            assert(hex(a)[n - 1] == hex_digit(x % 16) && hex(b)[n - 1] == hex_digit(y % 16));
            assert(hex(a)[n - 2] == hex_digit(x / 16) && hex(b)[n - 2] == hex_digit(y / 16));
            assert(hex(a.drop_last()) =~= hex(a).take(n - 2));
            assert(hex(b.drop_last()) =~= hex(b).take(n - 2));
            assert(x == y);
            assert(a =~= a.drop_last().push(x));
            assert(b =~= b.drop_last().push(y));
        }
    }
}

/// The number that a lower-case hexadecimal digit stands for.
pub open spec fn hex_value(c: char) -> int {
    if '0' <= c <= '9' {
        c as int - '0' as int
    } else if 'a' <= c <= 'f' {
        c as int - 'a' as int + 10
    } else {
        -1
    }
}

/// The two digits at the place of a byte are lower-case hexadecimal digits, and the first counts
/// sixteen times.
pub proof fn law_hex_digits_give_the_byte(bytes: Seq<u8>, i: int)
    requires
        0 <= i < bytes.len(),
    ensures
        hex(bytes).len() == 2 * bytes.len(),
        hex_value(hex(bytes)[2 * i]) >= 0,
        hex_value(hex(bytes)[2 * i + 1]) >= 0,
        16 * hex_value(hex(bytes)[2 * i]) + hex_value(hex(bytes)[2 * i + 1]) == bytes[i],
    decreases bytes.len(),
{
    law_hex_doubles_the_length(bytes);
    law_hex_doubles_the_length(bytes.drop_last());
    if i < bytes.len() - 1 {
        law_hex_digits_give_the_byte(bytes.drop_last(), i);
        assert(hex(bytes)[2 * i] == hex(bytes.drop_last())[2 * i]);
        assert(hex(bytes)[2 * i + 1] == hex(bytes.drop_last())[2 * i + 1]);
        assert(bytes[i] == bytes.drop_last()[i]);
    }
}

/// The signed message is the timestamp, the nonce, the key and the whole body, one after the other.
pub proof fn law_signature_covers_every_part(
    timestamp: Seq<char>,
    nonce: Seq<char>,
    key: Seq<char>,
    body: Seq<u8>,
)
    ensures
        ({
            let m = signed_message(timestamp, nonce, key, body);
            let t = encode_utf8(timestamp).len() as int;
            let n = t + encode_utf8(nonce).len();
            let k = n + encode_utf8(key).len();
            &&& m.len() == k + body.len()
            &&& m.subrange(0, t) == encode_utf8(timestamp)
            &&& m.subrange(t, n) == encode_utf8(nonce)
            &&& m.subrange(n, k) == encode_utf8(key)
            &&& m.subrange(k, m.len() as int) == body
        }),
{
    let m = signed_message(timestamp, nonce, key, body);
    let t = encode_utf8(timestamp).len() as int;
    let n = t + encode_utf8(nonce).len();
    let k = n + encode_utf8(key).len();
    assert(m.subrange(0, t) =~= encode_utf8(timestamp));
    assert(m.subrange(t, n) =~= encode_utf8(nonce));
    assert(m.subrange(n, k) =~= encode_utf8(key));
    assert(m.subrange(k, m.len() as int) =~= body);
}

/// What was encrypted is read back: if a payload is an initialisation vector of 16 bytes and a
/// ciphertext that the SHA-256 digest of the key decrypts to the encoding of a text, the payload
/// gives that text.
pub proof fn law_encrypted_text_is_read_back(
    encrypt_key: Seq<char>,
    encrypted: Seq<char>,
    iv: Seq<u8>,
    ciphertext: Seq<u8>,
    text: Seq<char>,
)
    requires
        iv.len() == 16,
        base64_bytes(encrypted) == Some(iv + ciphertext),
        aes256_cbc_plaintext(sha256(encode_utf8(encrypt_key)), iv, ciphertext) == Some(
            encode_utf8(text),
        ),
    ensures
        decrypted(encrypt_key, encrypted) == Ok::<Seq<char>, DecryptError>(text),
{
    let p = iv + ciphertext;
    assert(p.take(16) =~= iv);
    assert(p.skip(16) =~= ciphertext);
    encode_utf8_valid_utf8(text);
    encode_utf8_decode_utf8(text);
}

/// Each error says what is wrong with the payload, and nothing else is an error.
pub proof fn law_decryption_fails_only_for_a_reason(encrypt_key: Seq<char>, encrypted: Seq<char>)
    ensures
        ({
            let payload = base64_bytes(encrypted);
            let plain = aes256_cbc_plaintext(
                sha256(encode_utf8(encrypt_key)),
                payload->0.subrange(0, 16),
                payload->0.subrange(16, payload->0.len() as int),
            );
            let r = decrypted(encrypt_key, encrypted);
            &&& r == Err::<Seq<char>, DecryptError>(DecryptError::NotBase64) <==> payload is None
            &&& r == Err::<Seq<char>, DecryptError>(DecryptError::TooShort) <==> payload is Some
                && payload->0.len() < 16
            &&& r == Err::<Seq<char>, DecryptError>(DecryptError::BadCiphertext) <==> payload is Some
                && payload->0.len() >= 16 && plain is None
            &&& r == Err::<Seq<char>, DecryptError>(DecryptError::NotUtf8) <==> payload is Some
                && payload->0.len() >= 16 && plain is Some && !valid_utf8(plain->0)
            &&& r is Ok ==> valid_utf8(plain->0) && r->Ok_0 == decode_utf8(plain->0)
        }),
{
    if base64_bytes(encrypted) is Some {
        let p = base64_bytes(encrypted)->0;
        if p.len() >= 16 {
            assert(p.take(16) =~= p.subrange(0, 16));
            assert(p.skip(16) =~= p.subrange(16, p.len() as int));
        }
    }
}

} // verus!
