//! Draft of the advanced lineage view.
use vstd::prelude::*;
use crate::app_error::AppError;
use crate::json::JsonValue;
use crate::text::owned;

verus! {

/// The error code of the lineage scaffold.
pub const PREVIEW_ERROR_CODE: &'static str = "KC_DRAFT_LINEAGE_NOT_IMPLEMENTED";

/// A draft lineage node.
#[derive(Debug)]
pub struct LineageNodeDraftV1 {
    pub node_id: String,
    pub kind: String,
    pub label: String,
    pub metadata: JsonValue,
}

/// A draft lineage edge.
#[derive(Debug)]
pub struct LineageEdgeDraftV1 {
    pub from_node_id: String,
    pub to_node_id: String,
    pub relation: String,
    pub evidence: String,
}

/// A draft lineage answer.
#[derive(Debug)]
pub struct LineageQueryResDraftV1 {
    pub schema_version: i64,
    pub status: String,
    pub activation_phase: String,
    pub nodes: Vec<LineageNodeDraftV1>,
    pub edges: Vec<LineageEdgeDraftV1>,
}

/// The placeholder answer the draft announces: a document containing a chunk.
pub fn placeholder_response() -> (r: LineageQueryResDraftV1)
    ensures
        r.schema_version == 1,
        r.status@ == "draft"@,
        r.activation_phase@ == "N3"@,
        r.nodes@.len() == 2,
        r.nodes@[0].node_id@ == "chunk:1"@ && r.nodes@[0].kind@ == "chunk"@ && r.nodes@[0].label@ == "Chunk 1"@,
        crate::json::is_empty_object(r.nodes@[0].metadata),
        r.nodes@[1].node_id@ == "doc:1"@ && r.nodes@[1].kind@ == "doc"@ && r.nodes@[1].label@ == "Doc 1"@,
        crate::json::is_empty_object(r.nodes@[1].metadata),
        r.edges@.len() == 1,
        r.edges@[0].from_node_id@ == "doc:1"@ && r.edges@[0].to_node_id@ == "chunk:1"@,
        r.edges@[0].relation@ == "contains"@ && r.edges@[0].evidence@ == "draft"@,
{
    LineageQueryResDraftV1 {
        schema_version: 1,
        status: owned("draft"),
        activation_phase: owned("N3"),
        nodes: vec![
            LineageNodeDraftV1 {
                node_id: owned("chunk:1"),
                kind: owned("chunk"),
                label: owned("Chunk 1"),
                metadata: JsonValue::Object(Vec::new()),
            },
            LineageNodeDraftV1 {
                node_id: owned("doc:1"),
                kind: owned("doc"),
                label: owned("Doc 1"),
                metadata: JsonValue::Object(Vec::new()),
            },
        ],
        edges: vec![LineageEdgeDraftV1 {
            from_node_id: owned("doc:1"),
            to_node_id: owned("chunk:1"),
            relation: owned("contains"),
            evidence: owned("draft"),
        }],
    }
}

/// The error the lineage scaffold answers with.
pub fn not_implemented_error() -> (e: AppError)
    ensures
        e.code@ == "KC_DRAFT_LINEAGE_NOT_IMPLEMENTED"@,
        e.category@ == "draft"@,
{
    AppError::new(
        "KC_DRAFT_LINEAGE_NOT_IMPLEMENTED",
        "draft",
        "advanced lineage UI is not implemented in Phase L",
        false,
        crate::deferred::draft_details("N3", "spec/25-advanced-lineage-ui-v1-design-lock.md"),
    )
}

} // verus!
