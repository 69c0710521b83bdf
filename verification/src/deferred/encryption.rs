//! Draft of encryption at rest.
use vstd::prelude::*;
use crate::app_error::AppError;
use crate::text::owned;

verus! {

/// The error code of the encryption scaffold.
pub const PREVIEW_ERROR_CODE: &'static str = "KC_DRAFT_ENCRYPTION_NOT_IMPLEMENTED";

/// Draft key derivation parameters.
#[derive(Debug)]
pub struct KdfParamsDraftV1 {
    pub algorithm: String,
    pub memory_kib: i64,
    pub iterations: i64,
    pub parallelism: i64,
    pub salt_id: String,
}

/// Draft encryption metadata.
#[derive(Debug)]
pub struct EncryptionMetadataDraftV1 {
    pub schema_version: i64,
    pub status: String,
    pub activation_phase: String,
    pub cipher_suite: String,
    pub kdf: KdfParamsDraftV1,
    pub key_reference: String,
}

/// The placeholder metadata the draft announces.
pub fn placeholder_metadata() -> (r: EncryptionMetadataDraftV1)
    ensures
        r.schema_version == 1,
        r.status@ == "draft"@,
        r.activation_phase@ == "M"@,
        r.cipher_suite@ == "xchacha20poly1305"@,
        r.kdf.algorithm@ == "argon2id"@,
        r.kdf.memory_kib == 65536,
        r.kdf.iterations == 3,
        r.kdf.parallelism == 1,
        r.kdf.salt_id@ == "draft-salt-id-v1"@,
        r.key_reference@ == "draft-key-reference-v1"@,
{
    EncryptionMetadataDraftV1 {
        schema_version: 1,
        status: owned("draft"),
        activation_phase: owned("M"),
        cipher_suite: owned("xchacha20poly1305"),
        kdf: KdfParamsDraftV1 {
            algorithm: owned("argon2id"),
            memory_kib: 65536,
            iterations: 3,
            parallelism: 1,
            salt_id: owned("draft-salt-id-v1"),
        },
        key_reference: owned("draft-key-reference-v1"),
    }
}

/// The error the encryption scaffold answers with.
pub fn not_implemented_error() -> (e: AppError)
    ensures
        e.code@ == "KC_DRAFT_ENCRYPTION_NOT_IMPLEMENTED"@,
        e.category@ == "draft"@,
{
    AppError::new(
        "KC_DRAFT_ENCRYPTION_NOT_IMPLEMENTED",
        "draft",
        "encryption capability is not implemented in Phase L",
        false,
        crate::deferred::draft_details("M", "spec/22-encryption-at-rest-v1-design-lock.md"),
    )
}

} // verus!
