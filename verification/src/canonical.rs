//! Canonical text artifacts: their bytes must hash to the hash they are
//! recorded under, both as canonical text and as a stored object.
use vstd::prelude::*;
use crate::app_error::{AppError, AppResult};
use crate::hashing::{blake3_hex_prefixed, blake3_prefixed};
use crate::json::{JsonValue, sfield};
use crate::text::str_eq;

verus! {

/// Checks the hash invariant of a canonical text artifact: the hash of its
/// bytes is both its canonical hash and its object hash.
pub fn check_canonical_hashes(canonical_bytes: &[u8], canonical_hash: &str, canonical_object_hash: &str) -> (r: AppResult<()>)
    ensures
        r is Ok <==> blake3_prefixed(canonical_bytes@) == canonical_hash@ && blake3_prefixed(canonical_bytes@)
            == canonical_object_hash@,
        r is Err ==> r->Err_0.code@ == "KC_DB_INTEGRITY_FAILED"@,
{
    let computed = blake3_hex_prefixed(canonical_bytes);
    if !str_eq(computed.as_str(), canonical_hash) || !str_eq(computed.as_str(), canonical_object_hash) {
        return Err(AppError::new(
            "KC_DB_INTEGRITY_FAILED",
            "canonical",
            "canonical hash invariant failed",
            false,
            JsonValue::Object(vec![
                sfield("computed", computed.as_str()),
                sfield("canonical_hash", canonical_hash),
                sfield("canonical_object_hash", canonical_object_hash),
            ]),
        ));
    }
    Ok(())
}

} // verus!
