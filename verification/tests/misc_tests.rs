use kc_core::chunking::{chunk_document, hash_chunking_config, ChunkingConfigV1, MdHtmlChunkCfg, PdfChunkCfg};
use kc_core::recovery_escrow::{
    canonical_descriptor_hash, escrow_blob_path, normalize_escrow_descriptors, normalize_provider_configs, provider_priority,
    validate_payload_hash, LocalRecoveryEscrowProvider, RecoveryEscrowDescriptorV2, RecoveryEscrowProviderConfigV3,
    RecoveryEscrowWriteRequest,
};
use kc_core::rpc_service::{
    encryption_status, inbox_job_id, mime_for_path, recovery_state_value, ActiveJobs, ObjectMigrationTally,
};
use kc_core::snippet::render_snippet_display_only;
use kc_core::types::DocId;
use kc_core::vault::{check_vault_v2, new_vault_json, vault_paths, vault_schema_version};

fn cfg(max: usize, min: usize, window: usize, overlap: usize) -> ChunkingConfigV1 {
    ChunkingConfigV1 {
        v: 1,
        md_html: MdHtmlChunkCfg { max_chars: max, min_chars: min },
        pdf: PdfChunkCfg { window_chars: window, overlap_chars: overlap, respect_markers: true },
    }
}

#[test]
fn chunk_config_hash_is_of_its_canonical_json() {
    let c = cfg(10, 3, 8, 2);
    let h = hash_chunking_config(&c).unwrap();
    let text = r#"{"md_html":{"max_chars":10,"min_chars":3},"pdf":{"overlap_chars":2,"respect_markers":true,"window_chars":8},"v":1}"#;
    assert_eq!(h.0, kc_core::hashing::blake3_hex_prefixed(text.as_bytes()));
}

#[test]
fn markdown_chunks_cover_the_text_and_absorb_a_short_tail() {
    let doc = DocId("blake3:doc".to_string());
    let text = "a".repeat(23);
    let chunks = chunk_document(&doc, &text, "text/markdown", &cfg(10, 4, 8, 2)).unwrap();
    let spans: Vec<(i64, i64)> = chunks.iter().map(|c| (c.start_char, c.end_char)).collect();
    assert_eq!(spans, vec![(0, 10), (10, 23)]);
    assert_eq!(chunks[1].ordinal, 1);
}

#[test]
fn pdf_chunks_overlap_by_the_configured_amount() {
    let doc = DocId("blake3:doc".to_string());
    let text = "p".repeat(20);
    let chunks = chunk_document(&doc, &text, "application/pdf", &cfg(10, 4, 8, 2)).unwrap();
    let spans: Vec<(i64, i64)> = chunks.iter().map(|c| (c.start_char, c.end_char)).collect();
    assert_eq!(spans, vec![(0, 8), (6, 14), (12, 20)]);
}

#[test]
fn empty_text_has_no_chunks_and_bad_configs_are_refused() {
    let doc = DocId("blake3:doc".to_string());
    assert!(chunk_document(&doc, "", "text/plain", &cfg(10, 4, 8, 2)).unwrap().is_empty());
    let mut bad = cfg(10, 4, 8, 2);
    bad.v = 2;
    assert_eq!(chunk_document(&doc, "x", "text/plain", &bad).unwrap_err().code, "KC_CHUNK_CONFIG_INVALID");
}

#[test]
fn snippets_drop_markers_and_repeated_blank_lines() {
    let text = "[[PAGE:0001]]\n  Title  \n\n\n[[H2:Intro]]\nbody line\r\n\n";
    assert_eq!(render_snippet_display_only(text).unwrap(), "Title\n\nbody line");
    assert_eq!(render_snippet_display_only("[[PAGE:12]]").unwrap(), "[[PAGE:12]]");
}

#[test]
fn providers_rank_by_preference() {
    assert_eq!(provider_priority("aws"), 0);
    assert_eq!(provider_priority("local"), 3);
    assert_eq!(provider_priority("other"), 9);
    let mut ds = vec![
        RecoveryEscrowDescriptorV2 { provider: "local".into(), provider_ref: "b".into(), key_id: "k".into(), wrapped_at_ms: 1 },
        RecoveryEscrowDescriptorV2 { provider: "aws".into(), provider_ref: "z".into(), key_id: "k".into(), wrapped_at_ms: 2 },
        RecoveryEscrowDescriptorV2 { provider: "local".into(), provider_ref: "a".into(), key_id: "k".into(), wrapped_at_ms: 3 },
    ];
    normalize_escrow_descriptors(&mut ds);
    let refs: Vec<&str> = ds.iter().map(|d| d.provider_ref.as_str()).collect();
    assert_eq!(refs, vec!["z", "a", "b"]);
}

#[test]
fn local_escrow_writes_under_its_root_and_reads_back() {
    let p = LocalRecoveryEscrowProvider::new("/escrow".to_string());
    let req = RecoveryEscrowWriteRequest { vault_id: "v1", payload_hash: "blake3:ab", key_blob: b"k", now_ms: 5 };
    let (path, d) = p.write_plan(&req).unwrap();
    assert_eq!(path, "/escrow/v1/blake3_ab.enc");
    assert_eq!(path, escrow_blob_path("/escrow", "v1", "blake3:ab"));
    assert_eq!(d.provider, "local");
    assert_eq!(d.provider_ref, "v1/blake3_ab.enc");
    assert_eq!(p.read_plan(&d).unwrap(), path);
    let blank = RecoveryEscrowWriteRequest { vault_id: "v1", payload_hash: " ", key_blob: b"k", now_ms: 5 };
    assert_eq!(p.write_plan(&blank).unwrap_err().code, "KC_RECOVERY_ESCROW_WRITE_FAILED");
    let none = LocalRecoveryEscrowProvider::new(String::new());
    assert_eq!(none.write_plan(&req).unwrap_err().code, "KC_RECOVERY_ESCROW_UNAVAILABLE");
}

#[test]
fn restored_payloads_must_match_their_hash() {
    let bytes = b"key material";
    let h = kc_core::hashing::blake3_hex_prefixed(bytes);
    assert!(validate_payload_hash(bytes, &h).is_ok());
    assert_eq!(validate_payload_hash(b"other", &h).unwrap_err().code, "KC_RECOVERY_ESCROW_RESTORE_FAILED");
}

#[test]
fn descriptor_hash_is_of_its_canonical_json() {
    let d = RecoveryEscrowDescriptorV2 { provider: "aws".into(), provider_ref: "r".into(), key_id: "k".into(), wrapped_at_ms: 7 };
    let text = r#"{"key_id":"k","provider":"aws","provider_ref":"r","wrapped_at_ms":7}"#;
    assert_eq!(canonical_descriptor_hash(&d).unwrap(), kc_core::hashing::blake3_hex_prefixed(text.as_bytes()));
    let blank = RecoveryEscrowDescriptorV2 { provider: "".into(), provider_ref: "r".into(), key_id: "k".into(), wrapped_at_ms: 7 };
    assert_eq!(canonical_descriptor_hash(&blank).unwrap_err().code, "KC_RECOVERY_ESCROW_WRITE_FAILED");
}

#[test]
fn active_jobs_track_starts_and_stops() {
    let mut jobs = ActiveJobs::new();
    jobs.insert("job-b");
    jobs.insert("job-a");
    jobs.insert("job-b");
    assert_eq!(jobs.list(), vec!["job-a".to_string(), "job-b".to_string()]);
    assert!(jobs.contains("job-a"));
    assert!(jobs.remove("job-a"));
    assert!(!jobs.contains("job-a"));
    assert!(!jobs.remove("job-a"));
}

#[test]
fn inbox_job_ids_hash_document_and_time() {
    let id = inbox_job_id("blake3:doc", 12);
    assert_eq!(id, format!("inbox:{}", kc_core::hashing::blake3_hex_prefixed(b"blake3:doc\n12")));
}

#[test]
fn media_types_follow_the_extension() {
    assert_eq!(mime_for_path("/a/b/notes.md"), "text/markdown");
    assert_eq!(mime_for_path("page.HTM"), "application/octet-stream");
    assert_eq!(mime_for_path("page.htm"), "text/html");
    assert_eq!(mime_for_path("doc.pdf"), "application/pdf");
    assert_eq!(mime_for_path("readme.txt"), "text/plain");
    assert_eq!(mime_for_path("/dir.md/noext"), "application/octet-stream");
    assert_eq!(mime_for_path(".md"), "application/octet-stream");
}

#[test]
fn recovery_state_is_the_trimmed_path() {
    assert_eq!(recovery_state_value(&Some("  /b/x.zip \n".to_string())), Some("/b/x.zip".to_string()));
    assert_eq!(recovery_state_value(&Some("  ".to_string())), None);
    assert_eq!(recovery_state_value(&None), None);
}

#[test]
fn migration_tally_counts_each_object_once() {
    let mut t = ObjectMigrationTally::new();
    assert!(t.record(false));
    assert!(!t.record(true));
    assert!(t.record(false));
    assert_eq!((t.migrated, t.already_encrypted), (2, 1));
}

#[test]
fn new_vaults_are_plain_and_laid_out_under_their_root() {
    let v = new_vault_json("demo", 5);
    assert_eq!(v.schema_version, 2);
    assert_eq!(v.vault_id.len(), 36);
    assert!(!v.encryption.enabled);
    let st = encryption_status(&v, 3, 0);
    assert_eq!(st.objects_total, 3);
    assert!(!st.enabled);
    let p = vault_paths("/v");
    assert_eq!(p.db, "/v/db/knowledge.sqlite");
    assert_eq!(p.objects_dir, "/v/store/objects");
    assert!(check_vault_v2(v).is_ok());
}

#[test]
fn vault_schema_versions_are_checked() {
    let e = vault_schema_version(None, "/v/vault.json").unwrap_err();
    assert_eq!(e.code, "KC_VAULT_JSON_INVALID");
    assert_eq!(kc_core::json::canonical_string(&e.details).unwrap(), "{\"path\":\"/v/vault.json\"}");
    assert_eq!(vault_schema_version(Some(2), "/v/vault.json").unwrap(), 2);
}

#[test]
fn vault_ids_are_fresh_uuids() {
    let a = new_vault_json("a", 1);
    let b = new_vault_json("b", 1);
    assert_ne!(a.vault_id, b.vault_id);
    assert!(uuid::Uuid::parse_str(&a.vault_id).is_ok());
}

#[test]
fn escrow_reads_find_what_was_written_under_any_root() {
    let req = RecoveryEscrowWriteRequest { vault_id: "vault-7", payload_hash: "blake3:cd", key_blob: b"k", now_ms: 9 };
    let slashed = LocalRecoveryEscrowProvider::new("/escrow/".to_string());
    let (path, d) = slashed.write_plan(&req).unwrap();
    assert_eq!(path, "/escrow/vault-7/blake3_cd.enc");
    assert_eq!(d.provider_ref, "vault-7/blake3_cd.enc");
    assert_eq!(slashed.read_plan(&d).unwrap(), path);
    let relative = LocalRecoveryEscrowProvider::new("escrow".to_string());
    let (path, d) = relative.write_plan(&req).unwrap();
    assert_eq!(path, "escrow/vault-7/blake3_cd.enc");
    assert_eq!(relative.read_plan(&d).unwrap(), path);
    let aws = kc_core::recovery_escrow_aws::AwsRecoveryEscrowProvider::new(
        kc_core::recovery_escrow_aws::AwsRecoveryEscrowConfig {
            region: "us-east-1".to_string(),
            kms_key_id: "key".to_string(),
            secret_prefix: "kc".to_string(),
        },
    );
    let empty_root = Some(String::new());
    let (path, d) = aws.write_plan(&empty_root, &req).unwrap();
    assert_eq!(path, "vault-7/blake3_cd.enc");
    assert_eq!(d.provider_ref, path);
    assert_eq!(aws.read_plan(&empty_root, &d).unwrap(), path);
}

#[test]
fn provider_configs_sort_by_rank_and_keep_ties_in_order() {
    let c = |id: &str, r: &str, enabled: bool, t: i64| RecoveryEscrowProviderConfigV3 {
        provider_id: id.to_string(),
        config_ref: r.to_string(),
        enabled,
        updated_at_ms: t,
    };
    let mut cs = vec![c("hsm", "x", true, 1), c("local", "b", true, 2), c("local", "b", false, 3), c("aws", "a", true, 4)];
    normalize_provider_configs(&mut cs);
    let got: Vec<(String, i64)> = cs.iter().map(|c| (c.provider_id.clone(), c.updated_at_ms)).collect();
    let expected: Vec<(String, i64)> =
        vec![("aws".to_string(), 4), ("local".to_string(), 2), ("local".to_string(), 3), ("hsm".to_string(), 1)];
    assert_eq!(got, expected);
}

fn locator(start: i64, end: i64) -> kc_core::locator::LocatorV1 {
    kc_core::locator::LocatorV1 {
        v: 1,
        doc_id: DocId("doc1".to_string()),
        canonical_hash: kc_core::types::CanonicalHash("blake3:aa".to_string()),
        range: kc_core::locator::LocatorRange { start, end },
        hints: None,
    }
}

#[test]
fn locators_read_their_span_by_characters() {
    let text = "héllo wörld".as_bytes().to_vec();
    assert_eq!(kc_core::locator::locator_text(&locator(1, 5), text.clone()).unwrap(), "éllo");
    assert_eq!(kc_core::locator::locator_text(&locator(6, 11), text.clone()).unwrap(), "wörld");
    assert_eq!(kc_core::locator::locator_text(&locator(6, 12), text.clone()).unwrap_err().code, "KC_LOCATOR_RANGE_OOB");
    assert_eq!(kc_core::locator::locator_text(&locator(3, 2), text).unwrap_err().code, "KC_LOCATOR_RANGE_OOB");
    assert_eq!(
        kc_core::locator::locator_text(&locator(0, 1), vec![0xff, 0xfe]).unwrap_err().code,
        "KC_LOCATOR_INVALID_SCHEMA"
    );
}

#[test]
fn locators_must_carry_the_stored_canonical_hash() {
    let stored: Result<(String, String), String> = Ok(("blake3:aa".to_string(), "blake3:bb".to_string()));
    assert_eq!(kc_core::locator::locator_target(&locator(0, 1), &stored).unwrap().0, "blake3:bb");
    let other: Result<(String, String), String> = Ok(("blake3:cc".to_string(), "blake3:bb".to_string()));
    assert_eq!(
        kc_core::locator::locator_target(&locator(0, 1), &other).unwrap_err().code,
        "KC_LOCATOR_CANONICAL_HASH_MISMATCH"
    );
    let mut v2 = locator(0, 1);
    v2.v = 2;
    assert_eq!(kc_core::locator::locator_target(&v2, &stored).unwrap_err().code, "KC_LOCATOR_INVALID_SCHEMA");
}

#[test]
fn every_chunk_is_a_non_empty_span_of_the_text() {
    let doc = DocId("blake3:doc".to_string());
    let text = "abcdefghij".repeat(7);
    for mime in ["text/markdown", "application/pdf"] {
        for c in [cfg(9, 5, 9, 8), cfg(1, 1, 1, 0), cfg(100, 3, 64, 63)] {
            let chunks = chunk_document(&doc, &text, mime, &c).unwrap();
            assert!(!chunks.is_empty());
            for ch in &chunks {
                assert!(0 <= ch.start_char && ch.start_char < ch.end_char && ch.end_char <= 70);
            }
            assert_eq!(chunks.last().unwrap().end_char, 70);
        }
    }
}

#[test]
fn an_aws_adapter_without_emulation_names_its_configuration() {
    let aws = kc_core::recovery_escrow_aws::AwsRecoveryEscrowProvider::new(
        kc_core::recovery_escrow_aws::AwsRecoveryEscrowConfig {
            region: "eu-west-1".to_string(),
            kms_key_id: "key-9".to_string(),
            secret_prefix: "kc/".to_string(),
        },
    );
    let req = RecoveryEscrowWriteRequest { vault_id: "v", payload_hash: "blake3:ee", key_blob: b"k", now_ms: 1 };
    let e = aws.write_plan(&None, &req).unwrap_err();
    assert_eq!(e.code, "KC_RECOVERY_ESCROW_UNAVAILABLE");
    let text = kc_core::json::canonical_string(&e.details).unwrap();
    assert!(text.contains("\"region\":\"eu-west-1\""));
    assert!(text.contains("\"kms_key_id\":\"key-9\""));
    assert!(text.contains("\"secret_prefix\":\"kc/\""));
    assert!(text.contains("\"provider\":\"aws\""));
}

#[test]
fn search_matches_ignore_case_and_show_the_start_of_the_text() {
    let text = format!("Ärger im {}", "x".repeat(200));
    let m = kc_core::rpc_service::search_match("d1".to_string(), text.as_bytes().to_vec(), "äRGER").unwrap();
    assert_eq!(m.doc_id, "d1");
    assert_eq!(m.snippet.chars().count(), 120);
    assert!(m.snippet.starts_with("Ärger im x"));
    assert!(kc_core::rpc_service::search_match("d1".to_string(), text.as_bytes().to_vec(), "zzz").is_none());
    assert!(kc_core::rpc_service::search_match("d2".to_string(), vec![0xff], "").is_some());
    assert_eq!(kc_core::rpc_service::search_match("d2".to_string(), vec![0xff], "").unwrap().snippet, "");
    let short = kc_core::rpc_service::search_match("d3".to_string(), b"Hello".to_vec(), "ell").unwrap();
    assert_eq!(short.snippet, "Hello");
}

#[test]
fn normalized_descriptors_do_not_depend_on_input_order() {
    let d = |p: &str, r: &str, t: i64| RecoveryEscrowDescriptorV2 {
        provider: p.to_string(),
        provider_ref: r.to_string(),
        key_id: "k".to_string(),
        wrapped_at_ms: t,
    };
    let mut a = vec![d("local", "b", 1), d("aws", "z", 2), d("local", "a", 3), d("hsm", "q", 4)];
    let mut b = vec![d("hsm", "q", 4), d("local", "a", 3), d("local", "b", 1), d("aws", "z", 2)];
    normalize_escrow_descriptors(&mut a);
    normalize_escrow_descriptors(&mut b);
    let key = |v: &Vec<RecoveryEscrowDescriptorV2>| -> Vec<(String, String, i64)> {
        v.iter().map(|x| (x.provider.clone(), x.provider_ref.clone(), x.wrapped_at_ms)).collect()
    };
    assert_eq!(key(&a), key(&b));
    let before = key(&a);
    normalize_escrow_descriptors(&mut a);
    assert_eq!(key(&a), before);
}

#[test]
fn vault_ids_are_hyphenated_version_4_uuids() {
    let id = new_vault_json("demo", 1).vault_id;
    let cs: Vec<char> = id.chars().collect();
    assert_eq!(cs.len(), 36);
    for (i, c) in cs.iter().enumerate() {
        if [8, 13, 18, 23].contains(&i) {
            assert_eq!(*c, '-');
        } else {
            assert!(c.is_ascii_digit() || ('a'..='f').contains(c));
        }
    }
    assert_eq!(cs[14], '4');
    assert!(['8', '9', 'a', 'b'].contains(&cs[19]));
}

#[test]
fn refusals_carry_their_details() {
    let text = |e: &kc_core::app_error::AppError| kc_core::json::canonical_string(&e.details).unwrap();
    let e = kc_core::db::migration_plan(10).unwrap_err();
    assert_eq!(text(&e), "{\"current\":10,\"latest\":9}");
    let e = vault_schema_version(Some(7), "vault.json").unwrap_err();
    assert_eq!(text(&e), "{\"actual\":7,\"expected\":[1,2]}");
    let mut bad = cfg(10, 4, 8, 2);
    bad.v = 3;
    let e = chunk_document(&DocId("d".to_string()), "x", "text/plain", &bad).unwrap_err();
    assert_eq!(text(&e), "{\"actual\":3,\"expected\":1}");
    let e = kc_core::sync_transport::SyncTargetUri::parse("http://host/x").unwrap_err();
    assert_eq!(e.code, "KC_SYNC_TARGET_UNSUPPORTED");
    assert_eq!(text(&e), "{\"target\":\"http://host/x\"}");
    let e = kc_core::locator::locator_text(&locator(2, 9), b"abc".to_vec()).unwrap_err();
    assert_eq!(text(&e), "{\"end\":9,\"len\":3,\"start\":2}");
}
