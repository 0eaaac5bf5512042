use base64::Engine;
use frodo::keys::{decode_key, InMemoryKeyProvider, KeyError, KeyProvider};

#[test]
fn memory_provider_returns_same_key() {
    let mut provider = InMemoryKeyProvider::default();
    let first = provider.get_or_create().unwrap();
    let second = provider.get_or_create().unwrap();

    assert_eq!(first.bytes, second.bytes);
    assert_eq!(first.id, second.id);
}

#[test]
fn decode_rejects_wrong_length() {
    let err = decode_key("abcd").expect_err("should reject wrong length");
    assert!(matches!(err, KeyError::Corrupt(_)));
}

#[test]
fn decode_rejects_invalid_base64() {
    let err = decode_key("!!not base64!!").expect_err("should reject bad text");
    assert!(matches!(err, KeyError::Corrupt(_)));
}

#[test]
fn decode_accepts_standard_encoding_of_32_bytes() {
    let raw = [7u8; 32];
    let secret = base64::engine::general_purpose::STANDARD.encode(raw);
    let material = decode_key(&secret).expect("decode should succeed");
    assert_eq!(material.bytes, raw.to_vec());
    assert_eq!(material.id, "default");
}

#[test]
fn generated_key_has_32_bytes() {
    let mut provider = InMemoryKeyProvider::default();
    let material = provider.get_or_create().unwrap();
    assert_eq!(material.bytes.len(), 32);
}

#[test]
fn keyring_provider_creates_key_material() {
    let mut provider = frodo::keys::KeyringProvider::new("frodo-tests", "data-key");
    let material = provider.get_or_create().expect("get_or_create");
    assert_eq!(material.bytes.len(), 32);
    assert_eq!(material.id, "default");
}
