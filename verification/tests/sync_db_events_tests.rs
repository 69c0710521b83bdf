use kc_core::db::{
    db_key_decision, key_pragma_sql, migration_plan, next_migration, sql_string_literal, DbUnlockSessions,
    VaultMetaForDb, LATEST_SCHEMA_VERSION,
};
use kc_core::events::prepare_event;
use kc_core::json::{JsonNumber, JsonValue};
use kc_core::sync::{plan_sync_pull, plan_sync_push, should_conflict, snapshot_id_for, sync_state_updates, SyncHeadV1, SyncPullPlan, SyncPushPlan};
use kc_core::sync_merge::{ensure_conservative_merge_safe, merge_preview_conservative, normalize_change_set, SyncMergeChangeSetV1};
use kc_core::sync_transport::SyncTargetUri;

fn head(id: &str, manifest: &str) -> SyncHeadV1 {
    SyncHeadV1 { schema_version: 1, snapshot_id: id.to_string(), manifest_hash: manifest.to_string(), created_at_ms: 1 }
}

#[test]
fn only_changes_on_both_sides_conflict() {
    let h = head("s2", "m2");
    assert!(should_conflict(Some(&h), Some("s1"), Some("m1"), "m-local"));
    assert!(!should_conflict(Some(&h), Some("s2"), Some("m1"), "m-local"));
    assert!(!should_conflict(Some(&h), Some("s1"), Some("m-local"), "m-local"));
    assert!(!should_conflict(None, Some("s1"), Some("m1"), "m-local"));
    assert!(!should_conflict(Some(&h), None, Some("m1"), "m-local"));
}

#[test]
fn a_push_writes_a_head_named_by_manifest_and_time() {
    match plan_sync_push(None, None, None, "blake3:m", "vault-1", 77) {
        SyncPushPlan::Push(h) => {
            assert_eq!(h.schema_version, 1);
            assert_eq!(h.manifest_hash, "blake3:m");
            assert_eq!(h.created_at_ms, 77);
            let expected = kc_core::hashing::blake3_hex_prefixed(b"kc.sync.snapshot.v1\nblake3:m\n77");
            assert_eq!(h.snapshot_id, expected);
            assert_eq!(snapshot_id_for("blake3:m", 77), expected);
            let updates = sync_state_updates(&h);
            assert_eq!(updates[0], ("sync_remote_head_seen".to_string(), expected.clone()));
            assert_eq!(updates[1], ("sync_last_applied_manifest_hash".to_string(), "blake3:m".to_string()));
            assert_eq!(updates[2], ("sync_last_applied_snapshot_id".to_string(), expected));
        }
        SyncPushPlan::Conflict(_) => panic!("unexpected conflict"),
    }
}

#[test]
fn a_diverged_push_leaves_a_conflict_record() {
    let h = head("s2", "m2");
    match plan_sync_push(Some(&h), Some("s1".to_string()), Some("m1".to_string()), "m3", "vault-1", 9) {
        SyncPushPlan::Conflict(a) => {
            assert_eq!(a.kind, "sync_conflict");
            assert_eq!(a.vault_id, "vault-1");
            assert_eq!(a.remote_head_snapshot_id.as_deref(), Some("s2"));
            assert_eq!(a.seen_remote_snapshot_id.as_deref(), Some("s1"));
        }
        SyncPushPlan::Push(_) => panic!("expected a conflict"),
    }
}

#[test]
fn a_pull_needs_a_head_and_applies_it() {
    let err = plan_sync_pull(None, None, None, "m", "v", "/t", 1).unwrap_err();
    assert_eq!(err.code, "KC_SYNC_TARGET_INVALID");
    match plan_sync_pull(Some(head("s2", "m2")), Some("s2".to_string()), Some("m1".to_string()), "m9", "v", "/t", 1).unwrap() {
        SyncPullPlan::Apply(h) => assert_eq!(h.snapshot_id, "s2"),
        SyncPullPlan::Conflict(_) => panic!("unexpected conflict"),
    }
    match plan_sync_pull(Some(head("s3", "m3")), Some("s2".to_string()), Some("m1".to_string()), "m9", "v", "/t", 1).unwrap() {
        SyncPullPlan::Conflict(a) => assert_eq!(a.remote_head_manifest_hash.as_deref(), Some("m3")),
        SyncPullPlan::Apply(_) => panic!("expected a conflict"),
    }
}

#[test]
fn merge_preview_reports_overlap_as_unsafe() {
    let h = kc_core::hashing::blake3_hex_prefixed(b"x");
    let local = SyncMergeChangeSetV1 { object_hashes: vec![h.clone()], lineage_overlay_ids: vec!["ov1".to_string()] };
    let remote = SyncMergeChangeSetV1 { object_hashes: vec![h.clone(), h.clone()], lineage_overlay_ids: vec!["ov2".to_string()] };
    let report = merge_preview_conservative(&local, &remote, 5).unwrap();
    assert!(!report.safe);
    assert_eq!(report.overlap.object_hashes, vec![h.clone()]);
    assert_eq!(report.remote.object_hashes, vec![h.clone()]);
    assert_eq!(ensure_conservative_merge_safe(&report).unwrap_err().code, "KC_SYNC_MERGE_NOT_SAFE");
    let disjoint = SyncMergeChangeSetV1 { object_hashes: vec![], lineage_overlay_ids: vec!["ov3".to_string()] };
    let ok = merge_preview_conservative(&local, &disjoint, 5).unwrap();
    assert!(ok.safe);
    assert!(ensure_conservative_merge_safe(&ok).is_ok());
}

#[test]
fn merge_preview_refuses_bad_hashes() {
    let bad = SyncMergeChangeSetV1 { object_hashes: vec!["nope".to_string()], lineage_overlay_ids: vec![] };
    let err = merge_preview_conservative(&bad, &bad, 1).unwrap_err();
    assert_eq!(err.code, "KC_SYNC_MERGE_PRECONDITION_FAILED");
}

#[test]
fn targets_parse_and_display_back() {
    let t = SyncTargetUri::parse("s3://bucket/some/prefix/").unwrap();
    assert_eq!(t.display(), "s3://bucket/some/prefix");
    let again = SyncTargetUri::parse(&t.display()).unwrap();
    assert_eq!(again.display(), t.display());
    let f = SyncTargetUri::parse("file:///tmp/target").unwrap();
    assert_eq!(f.display(), "/tmp/target");
    assert_eq!(SyncTargetUri::parse("   ").unwrap_err().code, "KC_SYNC_TARGET_INVALID");
    assert_eq!(SyncTargetUri::parse("ftp://host/x").unwrap_err().code, "KC_SYNC_TARGET_UNSUPPORTED");
    assert_eq!(SyncTargetUri::parse("s3://").unwrap_err().code, "KC_SYNC_TARGET_INVALID");
}

#[test]
fn migrations_run_up_to_the_latest_schema() {
    assert_eq!(migration_plan(0).unwrap(), (1..=LATEST_SCHEMA_VERSION).collect::<Vec<i64>>());
    assert_eq!(migration_plan(4).unwrap(), (5..=LATEST_SCHEMA_VERSION).collect::<Vec<i64>>());
    assert!(migration_plan(LATEST_SCHEMA_VERSION).unwrap().is_empty());
    assert_eq!(next_migration(3).unwrap(), Some(4));
    assert_eq!(next_migration(LATEST_SCHEMA_VERSION).unwrap(), None);
    assert_eq!(migration_plan(LATEST_SCHEMA_VERSION + 1).unwrap_err().code, "KC_DB_SCHEMA_INCOMPATIBLE");
}

#[test]
fn sql_literals_double_quotes() {
    assert_eq!(sql_string_literal("it's"), "it''s");
    assert_eq!(key_pragma_sql("p'w"), "PRAGMA key = 'p''w'; PRAGMA cipher_compatibility = 4;");
}

#[test]
fn unlocking_then_locking_forgets_the_passphrase() {
    let mut s = DbUnlockSessions::new();
    assert!(!s.is_unlocked("/v"));
    s.unlock("/v", "secret");
    assert!(s.is_unlocked("/v"));
    assert_eq!(s.passphrase_for("/v").as_deref(), Some("secret"));
    s.unlock("/v", "newer");
    assert_eq!(s.passphrase_for("/v").as_deref(), Some("newer"));
    s.lock("/v");
    assert!(!s.is_unlocked("/v"));
    assert_eq!(s.passphrase_for("/v"), None);
}

#[test]
fn the_db_key_comes_from_the_session_before_the_environment() {
    let meta = Some(VaultMetaForDb { schema_version: 3, db_encryption_enabled: true, db_encryption_mode: "sqlcipher_v4".to_string() });
    assert_eq!(db_key_decision(&meta, Some("a".to_string()), Some("b".to_string())).unwrap(), Some("a".to_string()));
    assert_eq!(db_key_decision(&meta, None, Some("b".to_string())).unwrap(), Some("b".to_string()));
    assert_eq!(db_key_decision(&meta, None, None).unwrap_err().code, "KC_DB_LOCKED");
    let old = Some(VaultMetaForDb { schema_version: 2, db_encryption_enabled: true, db_encryption_mode: "x".to_string() });
    assert_eq!(db_key_decision(&old, None, None).unwrap(), None);
    let odd = Some(VaultMetaForDb { schema_version: 3, db_encryption_enabled: true, db_encryption_mode: "x".to_string() });
    assert_eq!(db_key_decision(&odd, None, None).unwrap_err().code, "KC_DB_ENCRYPTION_UNSUPPORTED");
}

#[test]
fn events_chain_by_hash() {
    let payload = JsonValue::Object(vec![("b".to_string(), JsonValue::Number(JsonNumber::PosInt(2)))]);
    let first = prepare_event(10, "ingest.bytes", &payload, None).unwrap();
    assert_eq!(first.payload_json, r#"{"b":2}"#);
    assert_eq!(first.event_hash, kc_core::hashing::blake3_hex_prefixed(b"kc.event.v1\n10\ningest.bytes\n{\"b\":2}\n"));
    let second = prepare_event(11, "x", &payload, Some(first.event_hash.clone())).unwrap();
    assert_eq!(second.prev_event_hash, Some(first.event_hash.clone()));
    let float = JsonValue::Number(JsonNumber::Float);
    assert_eq!(prepare_event(1, "x", &float, None).unwrap_err().code, "KC_CANON_JSON_FLOAT_FORBIDDEN");
}

#[test]
fn normalizing_a_change_set_twice_changes_nothing() {
    let a = kc_core::hashing::blake3_hex_prefixed(b"a");
    let b = kc_core::hashing::blake3_hex_prefixed(b"b");
    let input = SyncMergeChangeSetV1 {
        object_hashes: vec![b.clone(), a.clone(), b.clone()],
        lineage_overlay_ids: vec!["z".to_string(), "m".to_string(), "z".to_string()],
    };
    let once = normalize_change_set(&input, "local").unwrap();
    let mut sorted = vec![a.clone(), b.clone()];
    sorted.sort();
    assert_eq!(once.object_hashes, sorted);
    assert_eq!(once.lineage_overlay_ids, vec!["m".to_string(), "z".to_string()]);
    let twice = normalize_change_set(&once, "local").unwrap();
    assert_eq!(twice.object_hashes, once.object_hashes);
    assert_eq!(twice.lineage_overlay_ids, once.lineage_overlay_ids);
}
