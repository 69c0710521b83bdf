use kc_core::lineage::{
    inferred_node_kind, lineage_lock_acquire, lineage_lock_release, lineage_lock_status, lineage_overlay_add,
    overlay_id_for, overlay_removed, require_valid_lock, LockRow, LINEAGE_LOCK_LEASE_MS,
};

fn held(owner: &str, token: &str, at: i64) -> Option<LockRow> {
    Some(LockRow {
        owner: owner.to_string(),
        token: token.to_string(),
        acquired_at_ms: at,
        expires_at_ms: at + LINEAGE_LOCK_LEASE_MS,
    })
}

#[test]
fn a_free_document_can_be_locked_for_the_lease() {
    let lease = lineage_lock_acquire("doc-1", "alice", &None, 1000).unwrap();
    assert_eq!(lease.doc_id, "doc-1");
    assert_eq!(lease.owner, "alice");
    assert_eq!(lease.acquired_at_ms, 1000);
    assert_eq!(lease.expires_at_ms, 1000 + 900_000);
    assert!(lease.token.starts_with("blake3:"));
}

#[test]
fn a_held_lock_refuses_other_owners_until_it_expires() {
    let current = held("alice", "t1", 1000);
    let err = lineage_lock_acquire("doc-1", "bob", &current, 2000).unwrap_err();
    assert_eq!(err.code, "KC_LINEAGE_LOCK_HELD");
    let later = 1000 + LINEAGE_LOCK_LEASE_MS;
    assert!(lineage_lock_acquire("doc-1", "bob", &current, later).is_ok());
}

#[test]
fn blank_lock_requests_are_invalid() {
    let err = lineage_lock_acquire(" ", "alice", &None, 1).unwrap_err();
    assert_eq!(err.code, "KC_LINEAGE_LOCK_INVALID");
}

#[test]
fn the_lease_token_is_valid_while_the_lease_runs() {
    let lease = lineage_lock_acquire("doc-1", "alice", &None, 1000).unwrap();
    let current = Some(LockRow {
        owner: lease.owner.clone(),
        token: lease.token.clone(),
        acquired_at_ms: lease.acquired_at_ms,
        expires_at_ms: lease.expires_at_ms,
    });
    assert_eq!(require_valid_lock("doc-1", &current, &lease.token, 5000).unwrap(), "alice");
    let expired = require_valid_lock("doc-1", &current, &lease.token, lease.expires_at_ms).unwrap_err();
    assert_eq!(expired.code, "KC_LINEAGE_LOCK_EXPIRED");
    let wrong = require_valid_lock("doc-1", &current, "other", 5000).unwrap_err();
    assert_eq!(wrong.code, "KC_LINEAGE_LOCK_INVALID");
}

#[test]
fn release_needs_the_token() {
    let current = held("alice", "t1", 0);
    assert!(lineage_lock_release("doc-1", &current, "t1").is_ok());
    assert_eq!(lineage_lock_release("doc-1", &current, "t2").unwrap_err().code, "KC_LINEAGE_LOCK_INVALID");
    assert_eq!(lineage_lock_release("doc-1", &None, "t1").unwrap_err().code, "KC_LINEAGE_LOCK_INVALID");
}

#[test]
fn status_reports_holder_and_expiry() {
    let current = held("alice", "t1", 0);
    let st = lineage_lock_status("doc-1", &current, 10);
    assert!(st.held);
    assert!(!st.expired);
    assert_eq!(st.owner.as_deref(), Some("alice"));
    let st2 = lineage_lock_status("doc-1", &current, LINEAGE_LOCK_LEASE_MS);
    assert!(!st2.held);
    assert!(st2.expired);
    let none = lineage_lock_status("doc-1", &None, 10);
    assert!(!none.held && !none.expired);
}

#[test]
fn overlays_need_fields_a_valid_lock_and_permission() {
    let current = held("alice", "t1", 0);
    let ok = lineage_overlay_add("doc-1", "doc:doc-1", "chunk:c1", "supports", "note", "t1", 10, "alice", &current, Ok(()))
        .unwrap();
    assert_eq!(ok.overlay_id, overlay_id_for("doc-1", "doc:doc-1", "chunk:c1", "supports", "note"));
    assert_eq!(ok.created_at_ms, 10);
    let blank = lineage_overlay_add("doc-1", "", "chunk:c1", "supports", "note", "t1", 10, "alice", &current, Ok(()))
        .unwrap_err();
    assert_eq!(blank.code, "KC_LINEAGE_OVERLAY_INVALID");
    let lock = lineage_overlay_add("doc-1", "a", "b", "r", "e", "bad", 10, "alice", &current, Ok(())).unwrap_err();
    assert_eq!(lock.code, "KC_LINEAGE_LOCK_INVALID");
    let denied = kc_core::app_error::AppError::new(
        "KC_LINEAGE_PERMISSION_DENIED",
        "lineage",
        "denied",
        false,
        kc_core::json::JsonValue::Null,
    );
    let perm = lineage_overlay_add("doc-1", "a", "b", "r", "e", "t1", 10, "alice", &current, Err(denied)).unwrap_err();
    assert_eq!(perm.code, "KC_LINEAGE_PERMISSION_DENIED");
}

#[test]
fn removing_nothing_is_not_found() {
    assert!(overlay_removed("ov", 1).is_ok());
    assert_eq!(overlay_removed("ov", 0).unwrap_err().code, "KC_LINEAGE_OVERLAY_NOT_FOUND");
}

#[test]
fn node_kinds_follow_the_id_prefix() {
    assert_eq!(inferred_node_kind("doc:abc"), "doc");
    assert_eq!(inferred_node_kind("chunk:abc"), "chunk");
}
