use frodo::codec::{
    decrypt_blob, encrypt_blob, encrypt_blob_with_nonce, frame_blob, open_record, parse_blob,
    seal_record,
};
use frodo::keys::{decode_key, InMemoryKeyProvider, KeyMaterial, KeyProvider};
use frodo::store::SecureStoreError;

fn test_key() -> KeyMaterial {
    let secret = base64::Engine::encode(&base64::engine::general_purpose::STANDARD, [7u8; 32]);
    decode_key(&secret).expect("decode")
}

fn contains_subslice(haystack: &[u8], needle: &[u8]) -> bool {
    haystack.windows(needle.len()).any(|w| w == needle)
}

#[test]
fn round_trip_encrypts_and_decrypts() {
    let mut provider = InMemoryKeyProvider::default();
    let key = provider.get_or_create().expect("key");
    let value = b"hello-frodo";

    let stored = seal_record(&key, value).expect("put");
    let decrypted = open_record(&key, &stored).expect("get");
    assert_eq!(decrypted, value.to_vec());

    // ensure plaintext is not present in the stored bytes
    assert!(
        !contains_subslice(&stored, value),
        "plaintext must not be stored"
    );
}

#[test]
fn nonce_uniqueness_across_puts() {
    let key = test_key();
    let first = encrypt_blob(&key, b"same plaintext").expect("encrypt");
    let second = encrypt_blob(&key, b"same plaintext").expect("encrypt again");
    assert_ne!(first.nonce, second.nonce);
    assert_ne!(first.ciphertext, second.ciphertext);
}

#[test]
fn tamper_detection_on_ciphertext() {
    let key = test_key();
    let mut stored = seal_record(&key, b"precious data").expect("seal");
    let idx = stored.len() - 3;
    stored[idx] ^= 1;
    let err = open_record(&key, &stored).expect_err("tampered record must fail");
    assert!(matches!(err, SecureStoreError::Storage { .. }));
}

#[test]
fn tamper_detection_on_nonce() {
    let key = test_key();
    let mut stored = seal_record(&key, b"precious data").expect("seal");
    stored[11] ^= 1;
    let err = open_record(&key, &stored).expect_err("tampered nonce must fail");
    assert!(matches!(err, SecureStoreError::Storage { .. }));
}

#[test]
fn wrong_key_fails_to_decrypt() {
    let key = test_key();
    let secret = base64::Engine::encode(&base64::engine::general_purpose::STANDARD, [9u8; 32]);
    let other = decode_key(&secret).expect("decode");
    let stored = seal_record(&key, b"for one key only").expect("seal");
    let err = open_record(&other, &stored).expect_err("wrong key must fail");
    assert!(matches!(err, SecureStoreError::Storage { .. }));
}

#[test]
fn record_is_a_json_blob() {
    let key = test_key();
    let stored = seal_record(&key, b"payload").expect("seal");
    let text = String::from_utf8(stored.clone()).expect("record is ASCII text");
    assert!(text.starts_with("{\"nonce\":\""));
    assert!(text.contains("\",\"ciphertext\":\""));
    assert!(text.ends_with("\"}"));
}

#[test]
fn frame_and_parse_invert() {
    let key = test_key();
    let nonce = [3u8; 12];
    let blob = encrypt_blob_with_nonce(&key, &nonce, b"abc").expect("encrypt");
    let framed = frame_blob(&blob);
    let parsed = parse_blob(&framed).expect("parse");
    assert_eq!(parsed.nonce, blob.nonce);
    assert_eq!(parsed.ciphertext, blob.ciphertext);
}

#[test]
fn deterministic_encryption_with_fixed_nonce() {
    let key = test_key();
    let nonce = [5u8; 12];
    let a = encrypt_blob_with_nonce(&key, &nonce, b"abc").expect("encrypt");
    let b = encrypt_blob_with_nonce(&key, &nonce, b"abc").expect("encrypt");
    assert_eq!(a.nonce, b.nonce);
    assert_eq!(a.ciphertext, b.ciphertext);
    let plain = decrypt_blob(&key, &a).expect("decrypt");
    assert_eq!(plain, b"abc".to_vec());
}

#[test]
fn parse_rejects_malformed_records() {
    assert!(parse_blob(b"").is_none());
    assert!(parse_blob(b"{}").is_none());
    assert!(parse_blob(b"{\"nonce\":\"AAAA\",\"ciphertext\":\"BBBB\"").is_none());
    assert!(parse_blob(b"{\"nonce\":\"AA!A\",\"ciphertext\":\"BBBB\"}").is_none());
    assert!(parse_blob(b"{\"nonce\":\"AAAA\",\"ciphertext\":\"BBBB\"}x").is_none());
}

#[test]
fn ciphertext_hides_plaintext() {
    let key = test_key();
    let marker = b"very-secret-marker";
    let blob = encrypt_blob(&key, marker).expect("encrypt");
    let raw_ct = base64::Engine::decode(
        &base64::engine::general_purpose::URL_SAFE_NO_PAD,
        &blob.ciphertext,
    )
    .expect("ciphertext field is base64");
    assert!(
        !contains_subslice(&raw_ct, marker),
        "raw ciphertext must not contain the plaintext"
    );
    assert_eq!(raw_ct.len(), marker.len() + 16, "ciphertext is plaintext plus tag");
}
