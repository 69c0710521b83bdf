use kc_core::object_store::{derive_object_store_key, is_encrypted_payload, ObjectStore, ObjectStoreEncryptionContext};
use kc_core::types::ObjectHash;
use argon2::{Algorithm, Argon2, Params, Version};

fn key_ctx() -> ObjectStoreEncryptionContext {
    let key = derive_object_store_key("correct horse", "vault-salt-01", 1024, 1, 1).unwrap();
    ObjectStoreEncryptionContext { key, key_reference: "vault:test".to_string() }
}

#[test]
fn sealed_objects_open_to_what_was_stored() {
    let store = ObjectStore::with_encryption("/tmp/objects".to_string(), key_ctx());
    let bytes = b"plain object bytes".to_vec();
    let (hash, _path) = store.put_plan(&bytes);
    let sealed = store.maybe_encrypt_bytes(&hash, &bytes).unwrap();
    assert!(is_encrypted_payload(&sealed));
    assert_ne!(sealed, bytes);
    let opened = store.maybe_decrypt_bytes(&hash, &sealed).unwrap();
    assert_eq!(opened, bytes);
}

#[test]
fn a_plain_store_keeps_bytes_as_they_are() {
    let store = ObjectStore::new("/tmp/objects".to_string());
    let bytes = b"hello".to_vec();
    let (hash, path) = store.put_plan(&bytes);
    assert_eq!(hash.0, kc_core::hashing::blake3_hex_prefixed(&bytes));
    assert_eq!(path, format!("/tmp/objects/{}/{}", &hash.0[7..9], hash.0));
    assert_eq!(store.maybe_encrypt_bytes(&hash, &bytes).unwrap(), bytes);
    assert_eq!(store.maybe_decrypt_bytes(&hash, &bytes).unwrap(), bytes);
}

#[test]
fn tampered_ciphertext_is_refused() {
    let store = ObjectStore::with_encryption("/tmp/objects".to_string(), key_ctx());
    let bytes = b"sensitive".to_vec();
    let (hash, _) = store.put_plan(&bytes);
    let mut sealed = store.maybe_encrypt_bytes(&hash, &bytes).unwrap();
    let last = sealed.len() - 1;
    sealed[last] ^= 0x01;
    assert!(store.maybe_decrypt_bytes(&hash, &sealed).is_err());
}

#[test]
fn encrypted_bytes_without_a_key_are_refused() {
    let enc = ObjectStore::with_encryption("/tmp/objects".to_string(), key_ctx());
    let bytes = b"sensitive".to_vec();
    let (hash, _) = enc.put_plan(&bytes);
    let sealed = enc.maybe_encrypt_bytes(&hash, &bytes).unwrap();
    let plain = ObjectStore::new("/tmp/objects".to_string());
    let err = plain.maybe_decrypt_bytes(&hash, &sealed).unwrap_err();
    assert_eq!(err.code, "KC_ENCRYPTION_REQUIRED");
}

#[test]
fn derived_key_matches_argon2id_directly() {
    let key = derive_object_store_key("pw", "saltsalt", 1024, 2, 1).unwrap();
    let params = Params::new(1024, 2, 1, Some(32)).unwrap();
    let mut expected = [0u8; 32];
    Argon2::new(Algorithm::Argon2id, Version::V0x13, params)
        .hash_password_into(b"pw", b"saltsalt", &mut expected)
        .unwrap();
    assert_eq!(key, expected);
}

#[test]
fn short_salts_are_refused() {
    let err = derive_object_store_key("pw", "short", 1024, 1, 1).unwrap_err();
    assert_eq!(err.code, "KC_ENCRYPTION_KEY_INVALID");
}

#[test]
fn object_paths_need_a_prefixed_hash() {
    let store = ObjectStore::new("/v/store/objects".to_string());
    let err = store.file_path_for_hash(&ObjectHash("abc".to_string())).unwrap_err();
    assert_eq!(err.code, "KC_HASH_INVALID_FORMAT");
    let ok = store.file_path_for_hash(&ObjectHash("blake3:abcdef".to_string())).unwrap();
    assert_eq!(ok, "/v/store/objects/ab/blake3:abcdef");
    assert_eq!(ObjectStore::relpath_for_hash(&ObjectHash("blake3:abcdef".to_string())), "ab/blake3:abcdef");
}

#[test]
fn the_nonce_depends_on_hash_and_key_reference() {
    let a = ObjectStore::deterministic_nonce(&ObjectHash("blake3:aa".to_string()), "k1");
    let b = ObjectStore::deterministic_nonce(&ObjectHash("blake3:aa".to_string()), "k2");
    let c = ObjectStore::deterministic_nonce(&ObjectHash("blake3:aa".to_string()), "k1");
    assert_ne!(a, b);
    assert_eq!(a, c);
}
