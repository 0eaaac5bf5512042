use frodo::store::{InMemorySecureStore, SecureStore, SecureStoreError};

#[test]
fn round_trip_masks_and_unmasks() {
    let mut store = InMemorySecureStore::new();
    let key = "agent/session";
    let secret = b"top-secret-payload";

    store.put(key, secret).expect("put should succeed");
    let retrieved = store.get(key).expect("get should succeed");

    assert_eq!(retrieved, secret.to_vec());
    // Ensure we are not storing plaintext.
    let stored = store.stored_bytes(key).expect("value should be present");
    assert_ne!(stored, secret.to_vec());
}

#[test]
fn delete_is_idempotent_and_removes_data() {
    let mut store = InMemorySecureStore::new();
    store.put("k", b"v").expect("put should succeed");
    store.delete("k").expect("delete should succeed");
    store.delete("k").expect("delete again should still succeed");

    let err = store.get("k").expect_err("get should fail after delete");
    assert!(matches!(err, SecureStoreError::NotFound { .. }));
}

#[test]
fn store_scenario_round_trip() {
    let mut store = InMemorySecureStore::new();
    store.put("tasks", b"[]").expect("put should succeed");
    let value = store.get("tasks").expect("get should succeed");
    assert_eq!(value, b"[]".to_vec());
    store.delete("tasks").expect("delete should succeed");
    let err = store.get("tasks").expect_err("get should fail after delete");
    assert!(matches!(err, SecureStoreError::NotFound { .. }));
}

#[test]
fn get_on_never_written_key_is_not_found() {
    let store = InMemorySecureStore::new();
    let err = store.get("never").expect_err("get should fail");
    assert!(matches!(err, SecureStoreError::NotFound { .. }));
}

#[test]
fn overwrite_replaces_value() {
    let mut store = InMemorySecureStore::new();
    store.put("k", b"one").expect("put");
    store.put("k", b"two").expect("put again");
    assert_eq!(store.get("k").expect("get"), b"two".to_vec());
}
