//! Draft of cross-device sync.
use vstd::prelude::*;
use crate::app_error::AppError;
use crate::text::owned;

verus! {

/// The error code of the sync scaffold.
pub const PREVIEW_ERROR_CODE: &'static str = "KC_DRAFT_SYNC_NOT_IMPLEMENTED";

/// A draft sync manifest.
#[derive(Debug)]
pub struct SyncManifestDraftV1 {
    pub schema_version: i64,
    pub status: String,
    pub activation_phase: String,
    pub vault_id: String,
    pub snapshot_id: String,
    pub created_at_ms: i64,
    pub objects_hash: String,
    pub db_hash: String,
    pub conflicts: Vec<SyncConflictDraftV1>,
}

/// A draft sync conflict.
#[derive(Debug)]
pub struct SyncConflictDraftV1 {
    pub path: String,
    pub local_hash: String,
    pub remote_hash: String,
    pub resolution_strategy: String,
}

/// The placeholder manifest the draft announces, with one conflict.
pub fn placeholder_manifest() -> (r: SyncManifestDraftV1)
    ensures
        r.schema_version == 1,
        r.status@ == "draft"@,
        r.activation_phase@ == "N2"@,
        r.vault_id@ == "draft-vault-id"@,
        r.snapshot_id@ == "draft-snapshot-id"@,
        r.created_at_ms == 0,
        r.objects_hash@ == "blake3:0000000000000000000000000000000000000000000000000000000000000000"@,
        r.db_hash@ == "blake3:0000000000000000000000000000000000000000000000000000000000000000"@,
        r.conflicts@.len() == 1,
        r.conflicts@[0].path@ == "docs/note.md"@,
        r.conflicts@[0].local_hash@ == "blake3:1111111111111111111111111111111111111111111111111111111111111111"@,
        r.conflicts@[0].remote_hash@ == "blake3:2222222222222222222222222222222222222222222222222222222222222222"@,
        r.conflicts@[0].resolution_strategy@ == "emit_conflict_artifact"@,
{
    SyncManifestDraftV1 {
        schema_version: 1,
        status: owned("draft"),
        activation_phase: owned("N2"),
        vault_id: owned("draft-vault-id"),
        snapshot_id: owned("draft-snapshot-id"),
        created_at_ms: 0,
        objects_hash: owned("blake3:0000000000000000000000000000000000000000000000000000000000000000"),
        db_hash: owned("blake3:0000000000000000000000000000000000000000000000000000000000000000"),
        conflicts: vec![SyncConflictDraftV1 {
            path: owned("docs/note.md"),
            local_hash: owned("blake3:1111111111111111111111111111111111111111111111111111111111111111"),
            remote_hash: owned("blake3:2222222222222222222222222222222222222222222222222222222222222222"),
            resolution_strategy: owned("emit_conflict_artifact"),
        }],
    }
}

/// The error the sync scaffold answers with.
pub fn not_implemented_error() -> (e: AppError)
    ensures
        e.code@ == "KC_DRAFT_SYNC_NOT_IMPLEMENTED"@,
        e.category@ == "draft"@,
{
    AppError::new(
        "KC_DRAFT_SYNC_NOT_IMPLEMENTED",
        "draft",
        "cross-device sync is not implemented in Phase L",
        false,
        crate::deferred::draft_details("N2", "spec/24-cross-device-sync-v1-design-lock.md"),
    )
}

} // verus!
