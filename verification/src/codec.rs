//! Trusted calls into the outside codec, digest, cipher, date and JSON crates,
//! each with the contract that the library relies on.
use aes_gcm::aead::{Aead, KeyInit};
use base64::Engine;
use sha2::Digest;
use vstd::prelude::*;
use vstd::utf8::*;

verus! {

/// What `base64::engine::general_purpose::STANDARD.decode` returns for these
/// input bytes (`None` where it reports a decode error).
pub uninterp spec fn b64_standard_decoded(input: Seq<u8>) -> Option<Seq<u8>>;

/// What `base64::engine::general_purpose::STANDARD.encode` returns for these bytes.
pub uninterp spec fn b64_standard_encoded(input: Seq<u8>) -> Seq<char>;

/// What `base64::engine::general_purpose::URL_SAFE_NO_PAD.encode` returns for these bytes.
pub uninterp spec fn b64_url_nopad_encoded(input: Seq<u8>) -> Seq<char>;

/// The SHA-256 digest of these bytes, as `sha2::Sha256::digest` computes it.
pub uninterp spec fn sha256_of(input: Seq<u8>) -> Seq<u8>;

/// What AES-256-GCM decryption (`aes_gcm::Aes256Gcm::decrypt`, no associated
/// data) returns for this key, nonce and ciphertext-with-tag.
pub uninterp spec fn aes256gcm_opened(key: Seq<u8>, nonce: Seq<u8>, ct: Seq<u8>) -> Option<Seq<u8>>;

/// The ciphertext-with-tag that AES-256-GCM encryption (`aes_gcm::Aes256Gcm::encrypt`,
/// no associated data) produces for this key, nonce and plaintext.
pub uninterp spec fn aes256gcm_sealed(key: Seq<u8>, nonce: Seq<u8>, pt: Seq<u8>) -> Seq<u8>;

/// The Unix time in milliseconds of an RFC 3339 timestamp, as
/// `chrono::DateTime::parse_from_rfc3339` followed by `timestamp_millis` gives
/// it (`None` where the text does not parse).
pub uninterp spec fn rfc3339_millis(text: Seq<char>) -> Option<i64>;

/// What `serde_json::from_slice::<Value>` followed by `value[0]["accessToken"].as_str()`
/// gives for these bytes (`None` where they are not JSON or hold no such string).
pub uninterp spec fn json_access_token(bytes: Seq<u8>) -> Option<Seq<char>>;

/// The text that `serde_json` writes for the one-element session array
/// `[{"id", "accessToken", "account": {"label", "id"}, "scopes": []}]` with these strings.
pub uninterp spec fn session_json(id: Seq<char>, token: Seq<char>, label: Seq<char>, user_id: Seq<char>) -> Seq<char>;

/// What `serde_json::from_str::<Value>` followed by `value["data"].as_array()`,
/// each element taken by `as_u64`, gives for this text.
pub uninterp spec fn json_data_items(text: Seq<char>) -> Option<Seq<Option<u64>>>;

/// The text that `serde_json` writes for `{"data": bytes}`, the bytes as an array of numbers.
pub uninterp spec fn data_row_json(bytes: Seq<u8>) -> Seq<char>;

/// `STANDARD.decode` from the `base64` crate. Claims only that the result is
/// the one named by [`b64_standard_decoded`].
#[verifier::external_body]
pub(crate) fn b64_standard_decode(input: &[u8]) -> (r: Option<Vec<u8>>)
    ensures
        r is Some <==> b64_standard_decoded(input@) is Some,
        r matches Some(v) ==> b64_standard_decoded(input@) == Some(v@),
{
    base64::engine::general_purpose::STANDARD.decode(input).ok()
}

/// `STANDARD.encode` from the `base64` crate. Claims that the result is the
/// one named by [`b64_standard_encoded`], and that decoding its bytes with the
/// same engine gives the input back (the documented round trip).
#[verifier::external_body]
pub(crate) fn b64_standard_encode(input: &[u8]) -> (r: String)
    requires
        input@.len() <= usize::MAX / 2,
    ensures
        r@ == b64_standard_encoded(input@),
        b64_standard_decoded(encode_utf8(r@)) == Some(input@),
{
    base64::engine::general_purpose::STANDARD.encode(input)
}

/// A character of the URL-safe base64 alphabet: `A`-`Z`, `a`-`z`, `0`-`9`, `-`, `_`.
pub open spec fn url_safe_b64_char(c: char) -> bool {
    ('A' <= c <= 'Z') || ('a' <= c <= 'z') || ('0' <= c <= '9') || c == '-' || c == '_'
}

/// `URL_SAFE_NO_PAD.encode` from the `base64` crate. Claims that the result is
/// the one named by [`b64_url_nopad_encoded`], that it is four characters for
/// every three bytes with no padding (`encoded_len` without padding: two or
/// three characters for a last group of one or two bytes), and that every
/// character is from the URL-safe alphabet.
#[verifier::external_body]
pub(crate) fn b64_url_nopad_encode(input: &[u8]) -> (r: String)
    requires
        input@.len() <= usize::MAX / 2,
    ensures
        r@ == b64_url_nopad_encoded(input@),
        r@.len() == (4 * input@.len() + 2) / 3,
        forall|i: int| 0 <= i < r@.len() ==> url_safe_b64_char(#[trigger] r@[i]),
{
    base64::engine::general_purpose::URL_SAFE_NO_PAD.encode(input)
}

/// `sha2::Sha256::digest`. Claims that the result is the digest named by
/// [`sha256_of`] and is 32 bytes long.
#[verifier::external_body]
pub(crate) fn sha256(input: &[u8]) -> (r: Vec<u8>)
    ensures
        r@ == sha256_of(input@),
        r@.len() == 32,
{
    sha2::Sha256::digest(input).to_vec()
}

/// `Aes256Gcm::decrypt` with a 32-byte key and a 12-byte nonce (the key and
/// nonce are taken by `from_slice`, which panics on other lengths). Claims only
/// that the result is the one named by [`aes256gcm_opened`].
#[verifier::external_body]
pub(crate) fn aes256gcm_decrypt(key: &[u8], nonce: &[u8], ct: &[u8]) -> (r: Option<Vec<u8>>)
    requires
        key@.len() == 32,
        nonce@.len() == 12,
    ensures
        r is Some <==> aes256gcm_opened(key@, nonce@, ct@) is Some,
        r matches Some(v) ==> aes256gcm_opened(key@, nonce@, ct@) == Some(v@),
{
    let cipher = aes_gcm::Aes256Gcm::new(aes_gcm::Key::<aes_gcm::Aes256Gcm>::from_slice(key));
    cipher.decrypt(aes_gcm::Nonce::from_slice(nonce), ct).ok()
}

/// `Aes256Gcm::encrypt` with a 32-byte key and a 12-byte nonce. Claims that it
/// succeeds exactly when the plaintext is at most 2^36 bytes (the crate's
/// `P_MAX`), that the ciphertext is the one named by [`aes256gcm_sealed`], and
/// that decrypting it with the same key and nonce gives the plaintext back.
#[verifier::external_body]
pub(crate) fn aes256gcm_encrypt(key: &[u8], nonce: &[u8], pt: &[u8]) -> (r: Option<Vec<u8>>)
    requires
        key@.len() == 32,
        nonce@.len() == 12,
    ensures
        r is Some <==> pt@.len() <= 0x10_0000_0000,
        r matches Some(c) ==> c@ == aes256gcm_sealed(key@, nonce@, pt@),
        r matches Some(c) ==> aes256gcm_opened(key@, nonce@, c@) == Some(pt@),
{
    let cipher = aes_gcm::Aes256Gcm::new(aes_gcm::Key::<aes_gcm::Aes256Gcm>::from_slice(key));
    cipher.encrypt(aes_gcm::Nonce::from_slice(nonce), pt).ok()
}

/// `chrono::DateTime::parse_from_rfc3339(text)` mapped through
/// `timestamp_millis`. Claims that the result is the one named by
/// [`rfc3339_millis`], and that a text of fewer than 19 bytes (the empty text
/// among them) does not parse: chrono's parser reports it as too short.
#[verifier::external_body]
pub(crate) fn parse_rfc3339_millis(text: &str) -> (r: Option<i64>)
    ensures
        r == rfc3339_millis(text@),
        encode_utf8(text@).len() < 19 ==> r is None,
{
    chrono::DateTime::parse_from_rfc3339(text).ok().map(|d| d.timestamp_millis())
}

/// `serde_json::from_slice::<Value>`, then `[0]["accessToken"].as_str()`.
/// Claims only that the result is the one named by [`json_access_token`].
#[verifier::external_body]
pub(crate) fn access_token_in(bytes: &[u8]) -> (r: Option<String>)
    ensures
        r is Some <==> json_access_token(bytes@) is Some,
        r matches Some(t) ==> json_access_token(bytes@) == Some(t@),
{
    serde_json::from_slice::<serde_json::Value>(bytes).ok().and_then(|v| v[0]["accessToken"].as_str().map(String::from))
}

/// `serde_json`'s `to_string` of the session array built from these strings.
/// Claims that the text is the one named by [`session_json`], and that reading
/// it back gives the token (serde_json writes valid JSON, escaping each string,
/// and reads a string back as it was).
#[verifier::external_body]
pub(crate) fn session_json_text(id: &str, token: &str, label: &str, user_id: &str) -> (r: String)
    ensures
        r@ == session_json(id@, token@, label@, user_id@),
        json_access_token(encode_utf8(r@)) == Some(token@),
{
    let mut account = serde_json::Map::new();
    account.insert("label".to_string(), serde_json::Value::from(label));
    account.insert("id".to_string(), serde_json::Value::from(user_id));
    let mut rec = serde_json::Map::new();
    rec.insert("id".to_string(), serde_json::Value::from(id));
    rec.insert("accessToken".to_string(), serde_json::Value::from(token));
    rec.insert("account".to_string(), serde_json::Value::Object(account));
    rec.insert("scopes".to_string(), serde_json::Value::Array(Vec::new()));
    serde_json::Value::Array(vec![serde_json::Value::Object(rec)]).to_string()
}

/// `serde_json::from_str::<Value>`, then `["data"].as_array()`, each element by
/// `as_u64`. Claims only that the result is the one named by [`json_data_items`].
#[verifier::external_body]
pub(crate) fn data_items(text: &str) -> (r: Option<Vec<Option<u64>>>)
    ensures
        r is Some <==> json_data_items(text@) is Some,
        r matches Some(v) ==> json_data_items(text@) == Some(v@),
{
    serde_json::from_str::<serde_json::Value>(text).ok().and_then(|v| v["data"].as_array().map(|a| a.iter().map(|x| x.as_u64()).collect()))
}

/// `serde_json`'s `to_string` of `{"data": bytes}`. Claims that the text is the
/// one named by [`data_row_json`], and that reading its `data` back gives each
/// byte as a number.
#[verifier::external_body]
pub(crate) fn data_row(bytes: &[u8]) -> (r: String)
    ensures
        r@ == data_row_json(bytes@),
        json_data_items(r@) == Some(bytes@.map_values(|b: u8| Some(b as u64))),
{
    let mut m = serde_json::Map::new();
    m.insert("data".to_string(), serde_json::Value::from(bytes.to_vec()));
    serde_json::Value::Object(m).to_string()
}

} // verus!
