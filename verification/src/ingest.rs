//! Ingesting bytes: what the ingest event records, and the document the
//! bytes become, named by the hash of the bytes.
use vstd::prelude::*;
use crate::json::{JsonValue, JAtom, flat_obj, sfield, ofield, opt_atom, lemma_flat_obj};
use crate::text::owned;
use crate::types::{DocId, ObjectHash};

verus! {

/// A document as ingested.
#[derive(Debug)]
pub struct IngestedDoc {
    pub doc_id: DocId,
    pub original_object_hash: ObjectHash,
    pub bytes: i64,
    pub mime: String,
    pub source_kind: String,
    pub effective_ts_ms: i64,
}

/// The payload of the event that records an ingestion.
pub fn ingest_event_payload(mime: &str, source_kind: &str, source_path: &Option<String>, byte_count: u64) -> (r: JsonValue)
    ensures
        flat_obj(r) == Some(seq![
            ("mime"@, JAtom::Str(mime@)),
            ("source_kind"@, JAtom::Str(source_kind@)),
            ("source_path"@, opt_atom(*source_path)),
            ("bytes"@, JAtom::Int(byte_count as int)),
        ]),
{
    let es = vec![
        sfield("mime", mime),
        sfield("source_kind", source_kind),
        ofield("source_path", source_path),
        (owned("bytes"), crate::json::juint(byte_count)),
    ];
    proof {
        lemma_flat_obj(es, seq![
            ("mime"@, JAtom::Str(mime@)),
            ("source_kind"@, JAtom::Str(source_kind@)),
            ("source_path"@, opt_atom(*source_path)),
            ("bytes"@, JAtom::Int(byte_count as int)),
        ]);
    }
    JsonValue::Object(es)
}

/// The id of the document ingested bytes become: the hash of their object.
pub fn doc_id_for_object(original_object_hash: &ObjectHash) -> (r: DocId)
    ensures
        r.0@ == original_object_hash.0@,
{
    DocId(original_object_hash.0.clone())
}

} // verus!
