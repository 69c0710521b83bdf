//! Capabilities announced as drafts: their preview status and the error
//! their scaffolds answer with.
use vstd::prelude::*;
use crate::app_error::AppError;
use crate::json::{JsonValue, JAtom, atom_of, sfield, field, jstr};
use crate::text::{owned, str_eq};

pub mod encryption;
pub mod lineage;
pub mod sync;
pub mod zip_packaging;

verus! {

/// The preview status of one draft capability.
#[derive(Debug)]
pub struct DraftCapabilityStatusV1 {
    pub schema_version: i64,
    pub status: String,
    pub capability: String,
    pub activation_phase: String,
    pub spec_path: String,
    pub preview_error_code: String,
}

/// A draft status with the given fields.
pub open spec fn draft_status(s: DraftCapabilityStatusV1, capability: Seq<char>, phase: Seq<char>, path: Seq<char>, code: Seq<char>) -> bool {
    &&& s.schema_version == 1
    &&& s.status@ == "draft"@
    &&& s.capability@ == capability
    &&& s.activation_phase@ == phase
    &&& s.spec_path@ == path
    &&& s.preview_error_code@ == code
}

fn status_of(capability: &str, phase: &str, path: &str, code: &str) -> (r: DraftCapabilityStatusV1)
    ensures
        draft_status(r, capability@, phase@, path@, code@),
{
    DraftCapabilityStatusV1 {
        schema_version: 1,
        status: owned("draft"),
        capability: owned(capability),
        activation_phase: owned(phase),
        spec_path: owned(path),
        preview_error_code: owned(code),
    }
}

/// The four draft capabilities, in order: encryption, lineage, sync and
/// zip packaging.
pub fn preview_capability_statuses() -> (r: Vec<DraftCapabilityStatusV1>)
    ensures
        r@.len() == 4,
        draft_status(r@[0], "encryption"@, "M"@, "spec/22-encryption-at-rest-v1-design-lock.md"@,
            "KC_DRAFT_ENCRYPTION_NOT_IMPLEMENTED"@),
        draft_status(r@[1], "lineage"@, "N3"@, "spec/25-advanced-lineage-ui-v1-design-lock.md"@,
            "KC_DRAFT_LINEAGE_NOT_IMPLEMENTED"@),
        draft_status(r@[2], "sync"@, "N2"@, "spec/24-cross-device-sync-v1-design-lock.md"@,
            "KC_DRAFT_SYNC_NOT_IMPLEMENTED"@),
        draft_status(r@[3], "zip_packaging"@, "N1"@, "spec/23-deterministic-zip-packaging-v1-design-lock.md"@,
            "KC_DRAFT_ZIP_PACKAGING_NOT_IMPLEMENTED"@),
{
    vec![
        status_of("encryption", "M", "spec/22-encryption-at-rest-v1-design-lock.md", "KC_DRAFT_ENCRYPTION_NOT_IMPLEMENTED"),
        status_of("lineage", "N3", "spec/25-advanced-lineage-ui-v1-design-lock.md", "KC_DRAFT_LINEAGE_NOT_IMPLEMENTED"),
        status_of("sync", "N2", "spec/24-cross-device-sync-v1-design-lock.md", "KC_DRAFT_SYNC_NOT_IMPLEMENTED"),
        status_of(
            "zip_packaging",
            "N1",
            "spec/23-deterministic-zip-packaging-v1-design-lock.md",
            "KC_DRAFT_ZIP_PACKAGING_NOT_IMPLEMENTED",
        ),
    ]
}

/// The error the scaffold of a draft capability answers with; an unknown
/// capability gets its own.
pub fn scaffold_error_for_capability(capability: &str) -> (e: AppError)
    ensures
        capability@ == "encryption"@ ==> e.code@ == "KC_DRAFT_ENCRYPTION_NOT_IMPLEMENTED"@,
        capability@ == "zip_packaging"@ ==> e.code@ == "KC_DRAFT_ZIP_PACKAGING_NOT_IMPLEMENTED"@,
        capability@ == "sync"@ ==> e.code@ == "KC_DRAFT_SYNC_NOT_IMPLEMENTED"@,
        capability@ == "lineage"@ ==> e.code@ == "KC_DRAFT_LINEAGE_NOT_IMPLEMENTED"@,
        !(capability@ == "encryption"@ || capability@ == "zip_packaging"@ || capability@ == "sync"@ || capability@
            == "lineage"@) ==> e.code@ == "KC_DRAFT_PREVIEW_UNKNOWN_CAPABILITY"@,
        e.category@ == "draft"@,
{
    proof {
        reveal_strlit("encryption");
        reveal_strlit("zip_packaging");
        reveal_strlit("sync");
        reveal_strlit("lineage");
        assert("encryption"@.len() == 10 && "zip_packaging"@.len() == 13 && "sync"@.len() == 4 && "lineage"@.len() == 7);
        assert("encryption"@ != "zip_packaging"@ && "encryption"@ != "sync"@ && "encryption"@ != "lineage"@);
        assert("zip_packaging"@ != "sync"@ && "zip_packaging"@ != "lineage"@ && "sync"@ != "lineage"@);
    }
    if str_eq(capability, "encryption") {
        encryption::not_implemented_error()
    } else if str_eq(capability, "zip_packaging") {
        zip_packaging::not_implemented_error()
    } else if str_eq(capability, "sync") {
        sync::not_implemented_error()
    } else if str_eq(capability, "lineage") {
        lineage::not_implemented_error()
    } else {
        AppError::new(
            "KC_DRAFT_PREVIEW_UNKNOWN_CAPABILITY",
            "draft",
            "unknown draft preview capability",
            false,
            JsonValue::Object(vec![
                sfield("capability", capability),
                field(
                    "supported",
                    JsonValue::Array(vec![jstr("encryption"), jstr("lineage"), jstr("sync"), jstr("zip_packaging")]),
                ),
            ]),
        )
    }
}

/// The details of a scaffold's error: its phase, its status and its document.
pub fn draft_details(phase: &str, doc: &str) -> (r: JsonValue)
    ensures
        r is Object,
        r->Object_0@.len() == 3,
        r->Object_0@[0].0@ == "activation_phase"@ && atom_of(r->Object_0@[0].1) == Some(JAtom::Str(phase@)),
        r->Object_0@[1].0@ == "schema_status"@ && atom_of(r->Object_0@[1].1) == Some(JAtom::Str("draft"@)),
        r->Object_0@[2].0@ == "spec"@ && atom_of(r->Object_0@[2].1) == Some(JAtom::Str(doc@)),
{
    JsonValue::Object(vec![sfield("activation_phase", phase), sfield("schema_status", "draft"), sfield("spec", doc)])
}

} // verus!
