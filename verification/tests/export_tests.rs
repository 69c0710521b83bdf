use kc_core::export::{
    export_bundle_name, export_manifest, export_object_entry, export_object_rel_path, export_rel_path,
    export_vector_entry, export_zip_name, recovery_escrow_export_block, recovery_escrow_export_summary,
    sort_object_entries, sort_vector_entries, EscrowExportRow, ExportOptions,
};
use kc_core::json::{canonical_string, JsonNumber, JsonValue};
use kc_core::rpc_service::VaultDbEncryptionConfig;
use kc_core::vault::new_vault_json;

fn s(x: &str) -> JsonValue {
    JsonValue::Str(x.to_string())
}

fn descriptor(provider: &str, provider_ref: &str, key_id: &str, wrapped: u64) -> JsonValue {
    JsonValue::Object(vec![
        ("provider".to_string(), s(provider)),
        ("provider_ref".to_string(), s(provider_ref)),
        ("key_id".to_string(), s(key_id)),
        ("wrapped_at_ms".to_string(), JsonValue::Number(JsonNumber::PosInt(wrapped))),
    ])
}

fn row(provider: &str, enabled: bool, d: Result<JsonValue, String>, updated: i64) -> EscrowExportRow {
    EscrowExportRow { provider_id: provider.to_string(), enabled, descriptor: d, updated_at_ms: updated }
}

#[test]
fn no_descriptors_give_a_disabled_block() {
    let rows = vec![
        row("aws", false, Ok(descriptor("aws", "r", "k", 1)), 5),
        row("local", true, Ok(JsonValue::Object(vec![("provider".to_string(), s("local"))])), 6),
        row("gcp", true, Ok(JsonValue::Array(vec![])), 7),
    ];
    let block = recovery_escrow_export_block(&rows).unwrap();
    assert_eq!(
        canonical_string(&block).unwrap(),
        r#"{"descriptor":null,"enabled":false,"escrow_descriptors":[],"provider":"none","providers":[],"updated_at_ms":null}"#
    );
}

#[test]
fn one_provider_is_named_and_its_descriptor_is_primary() {
    let rows = vec![row("local", true, Ok(descriptor("local", "local://x", "key-1", 10)), 42)];
    let block = recovery_escrow_export_block(&rows).unwrap();
    assert_eq!(
        canonical_string(&block).unwrap(),
        [
            r#"{"descriptor":{"key_id":"key-1","provider":"local","provider_ref":"local://x","wrapped_at_ms":10},"#,
            r#""enabled":true,"escrow_descriptors":[{"key_id":"key-1","provider":"local","provider_ref":"local://x","wrapped_at_ms":10}],"#,
            r#""provider":"local","providers":["local"],"updated_at_ms":42}"#,
        ]
        .join("")
    );
}

#[test]
fn several_providers_are_ordered_by_rank_and_called_multi() {
    let rows = vec![
        row("azure", true, Ok(descriptor("azure", "az://1", "k", 3)), 9),
        row("local", true, Ok(descriptor("local", "local://2", "k", 2)), 30),
        row("aws", true, Ok(descriptor("aws", "aws://3", "k", 1)), 20),
    ];
    let summary = recovery_escrow_export_summary(&rows).unwrap();
    assert_eq!(summary.providers, vec!["aws".to_string(), "azure".to_string(), "local".to_string()]);
    assert_eq!(summary.updated_at_ms, Some(30));
    let order: Vec<&str> = summary.descriptors.iter().map(|d| d.provider.as_str()).collect();
    assert_eq!(order, vec!["aws", "azure", "local"]);
    let block = recovery_escrow_export_block(&rows).unwrap();
    let text = canonical_string(&block).unwrap();
    assert!(text.contains(r#""provider":"multi""#));
    assert!(text.contains(r#""descriptor":{"key_id":"k","provider":"aws","provider_ref":"aws://3","wrapped_at_ms":1}"#));
}

#[test]
fn unreadable_descriptor_json_fails_the_export() {
    let rows = vec![row("aws", true, Err("expected value".to_string()), 1)];
    let err = recovery_escrow_export_block(&rows).unwrap_err();
    assert_eq!(err.code, "KC_EXPORT_FAILED");
    assert_eq!(err.message, "failed parsing recovery escrow descriptor json");
}

#[test]
fn descriptor_with_wrong_field_types_fails_the_export() {
    let bad = JsonValue::Object(vec![
        ("provider".to_string(), s("aws")),
        ("provider_ref".to_string(), s("r")),
        ("key_id".to_string(), s("k")),
        ("wrapped_at_ms".to_string(), s("soon")),
    ]);
    let err = recovery_escrow_export_block(&vec![row("aws", true, Ok(bad), 1)]).unwrap_err();
    assert_eq!(err.message, "failed decoding recovery escrow descriptor json");
}

#[test]
fn descriptor_naming_another_provider_fails_the_export() {
    let rows = vec![row("aws", true, Ok(descriptor("gcp", "r", "k", 1)), 1)];
    let err = recovery_escrow_export_block(&rows).unwrap_err();
    assert_eq!(err.code, "KC_EXPORT_FAILED");
    assert_eq!(err.message, "recovery escrow descriptor provider does not match provider id");
}

#[test]
fn object_paths_use_the_first_two_hex_digits() {
    assert_eq!(export_object_rel_path("blake3:abcd").unwrap(), "store/objects/ab/blake3:abcd");
    let err = export_object_rel_path("md5:abcd").unwrap_err();
    assert_eq!(err.message, "invalid object hash");
}

#[test]
fn object_entries_record_storage_hash_and_encryption() {
    let stored = b"KCE1sealed".to_vec();
    let e = export_object_entry("blake3:ffee", 12, &stored).unwrap();
    assert_eq!(e.relative_path, "store/objects/ff/blake3:ffee");
    assert_eq!(e.storage_hash, kc_core::hashing::blake3_hex_prefixed(&stored));
    assert!(e.encrypted);
    assert_eq!(e.bytes, 12);
    let plain = export_object_entry("blake3:ffee", 3, b"abc").unwrap();
    assert!(!plain.encrypted);
}

#[test]
fn entries_are_sorted_for_the_manifest() {
    let mut objects = vec![
        export_object_entry("blake3:cc", 1, b"c").unwrap(),
        export_object_entry("blake3:aa", 1, b"a").unwrap(),
        export_object_entry("blake3:bb", 1, b"b").unwrap(),
    ];
    sort_object_entries(&mut objects);
    let hashes: Vec<&str> = objects.iter().map(|e| e.hash.as_str()).collect();
    assert_eq!(hashes, vec!["blake3:aa", "blake3:bb", "blake3:cc"]);
    let mut vectors = vec![export_vector_entry("index/vectors/b.bin", b"2"), export_vector_entry("index/vectors/a.bin", b"1")];
    sort_vector_entries(&mut vectors);
    assert_eq!(vectors[0].relative_path, "index/vectors/a.bin");
    assert_eq!(vectors[1].bytes, 1);
}

#[test]
fn relative_paths_of_vault_files() {
    assert_eq!(export_rel_path("/v", "/v/index/vectors/x.bin").unwrap(), "index/vectors/x.bin");
    assert_eq!(export_rel_path("/v/", "/v/a\\b").unwrap(), "a/b");
    assert_eq!(export_rel_path("/v", "/v").unwrap(), "");
    let err = export_rel_path("/v", "/w/file").unwrap_err();
    assert_eq!(err.code, "KC_EXPORT_FAILED");
}

#[test]
fn bundle_names_carry_the_time() {
    assert_eq!(export_bundle_name(1700), "export_1700");
    assert_eq!(export_zip_name(-5), "export_-5.zip");
}

#[test]
fn manifest_lists_vault_settings_and_entries() {
    let vault = new_vault_json("demo", 1);
    let dbe = VaultDbEncryptionConfig {
        enabled: false,
        mode: "sqlcipher_v4".to_string(),
        key_reference: None,
        kdf_algorithm: "pbkdf2_sha512".to_string(),
    };
    let objects = vec![export_object_entry("blake3:aa", 1, b"a").unwrap()];
    let vectors = vec![export_vector_entry("index/vectors/a.bin", b"1")];
    let escrow = recovery_escrow_export_block(&vec![]).unwrap();
    let m = export_manifest(
        &vault,
        &dbe,
        escrow,
        "blake3:cfg",
        &ExportOptions { include_vectors: true, as_zip: true },
        "blake3:db",
        &objects,
        &vectors,
    );
    let text = canonical_string(&m).unwrap();
    assert!(text.starts_with(r#"{"chunking_config_hash":"blake3:cfg","chunking_config_id":"#));
    assert!(text.contains(r#""db":{"hash":"blake3:db","relative_path":"db/knowledge.sqlite"}"#));
    assert!(text.contains(r#""manifest_version":1"#));
    assert!(text.contains(r#""packaging":{"format":"zip","zip_policy":{"compression":"stored","file_mode":"0644","mtime":"1980-01-01T00:00:00Z"}}"#));
    assert!(text.contains(r#""schema_versions":{"app_error":1,"locator":1,"rpc":1,"vault":3}"#));
    assert!(text.contains(&format!(r#""vault_id":"{}""#, vault.vault_id)));
    assert!(text.contains(r#""indexes":{"vectors":[{"bytes":1,"hash":"#));
}
