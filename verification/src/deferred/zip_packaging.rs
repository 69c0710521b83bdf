//! Draft of deterministic zip packaging.
use vstd::prelude::*;
use crate::app_error::AppError;
use crate::text::owned;

verus! {

/// The error code of the zip packaging scaffold.
pub const PREVIEW_ERROR_CODE: &'static str = "KC_DRAFT_ZIP_PACKAGING_NOT_IMPLEMENTED";

/// Draft zip packaging metadata.
#[derive(Debug)]
pub struct ZipPackagingMetadataDraftV1 {
    pub schema_version: i64,
    pub status: String,
    pub activation_phase: String,
    pub format: String,
    pub entry_order: String,
    pub timestamp_policy: String,
    pub permission_policy: String,
}

/// The placeholder metadata the draft announces.
pub fn placeholder_metadata() -> (r: ZipPackagingMetadataDraftV1)
    ensures
        r.schema_version == 1,
        r.status@ == "draft"@,
        r.activation_phase@ == "N1"@,
        r.format@ == "zip"@,
        r.entry_order@ == "lexicographic_path"@,
        r.timestamp_policy@ == "fixed_epoch_ms"@,
        r.permission_policy@ == "normalized_posix_mode"@,
{
    ZipPackagingMetadataDraftV1 {
        schema_version: 1,
        status: owned("draft"),
        activation_phase: owned("N1"),
        format: owned("zip"),
        entry_order: owned("lexicographic_path"),
        timestamp_policy: owned("fixed_epoch_ms"),
        permission_policy: owned("normalized_posix_mode"),
    }
}

/// The error the zip packaging scaffold answers with.
pub fn not_implemented_error() -> (e: AppError)
    ensures
        e.code@ == "KC_DRAFT_ZIP_PACKAGING_NOT_IMPLEMENTED"@,
        e.category@ == "draft"@,
{
    AppError::new(
        "KC_DRAFT_ZIP_PACKAGING_NOT_IMPLEMENTED",
        "draft",
        "deterministic zip packaging is not implemented in Phase L",
        false,
        crate::deferred::draft_details("N1", "spec/23-deterministic-zip-packaging-v1-design-lock.md"),
    )
}

} // verus!
