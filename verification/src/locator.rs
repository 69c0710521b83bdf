//! Locators: a span of a document's canonical text, checked against the
//! canonical hash it was taken from.
use vstd::prelude::*;
use crate::app_error::{AppError, AppResult};
use crate::json::{JsonValue, JAtom, flat_obj, lemma_flat_obj, sfield, ifield, jint};
use crate::text::{owned, str_eq, chars_of, string_from_range};
use crate::types::{CanonicalHash, DocId, ObjectHash};

verus! {

/// A located span of a document.
#[derive(Debug)]
pub struct LocatorV1 {
    pub v: i64,
    pub doc_id: DocId,
    pub canonical_hash: CanonicalHash,
    pub range: LocatorRange,
    pub hints: Option<LocatorHints>,
}

/// Character offsets: start inclusive, end exclusive.
#[derive(Debug)]
pub struct LocatorRange {
    pub start: i64,
    pub end: i64,
}

/// What helps a reader find the span again.
#[derive(Debug)]
pub struct LocatorHints {
    pub kind: Option<String>,
    pub pages: Option<PageRange>,
    pub heading_path: Option<Vec<String>>,
}

/// A range of pages.
#[derive(Debug)]
pub struct PageRange {
    pub start: i64,
    pub end: i64,
}

fn locator_error(code: &str, message: &str, details: JsonValue) -> (e: AppError)
    ensures
        e.code@ == code@,
        e.category@ == "locator"@,
        e.details == details,
{
    AppError::new(code, "locator", message, false, details)
}

/// The object holding the canonical text a locator points into, given the
/// canonical hash and object hash stored for its document (`Err` with the
/// store's message where there are none): the locator must be of version
/// 1 and carry the stored canonical hash.
pub fn locator_target(locator: &LocatorV1, stored: &Result<(String, String), String>) -> (r: AppResult<ObjectHash>)
    ensures
        locator.v != 1 ==> r is Err && r->Err_0.code@ == "KC_LOCATOR_INVALID_SCHEMA"@,
        locator.v == 1 && stored is Err ==> r is Err && r->Err_0.code@ == "KC_LOCATOR_INVALID_SCHEMA"@,
        locator.v == 1 && stored is Ok ==> {
            let (h, o) = stored->Ok_0;
            &&& h@ != locator.canonical_hash.0@ ==> r is Err && r->Err_0.code@ == "KC_LOCATOR_CANONICAL_HASH_MISMATCH"@
                && flat_obj(r->Err_0.details) == Some(
                seq![("expected"@, JAtom::Str(h@)), ("actual"@, JAtom::Str(locator.canonical_hash.0@))],
            )
            &&& h@ == locator.canonical_hash.0@ ==> r is Ok && r->Ok_0.0@ == o@
        },
{
    if locator.v != 1 {
        return Err(locator_error(
            "KC_LOCATOR_INVALID_SCHEMA",
            "unsupported locator version",
            JsonValue::Object(vec![ifield("expected", 1), ifield("actual", locator.v)]),
        ));
    }
    match stored {
        Err(msg) => Err(locator_error(
            "KC_LOCATOR_INVALID_SCHEMA",
            "failed to load canonical metadata for doc_id",
            JsonValue::Object(vec![sfield("error", msg.as_str()), sfield("doc_id", locator.doc_id.0.as_str())]),
        )),
        Ok((h, o)) => {
            if !str_eq(h.as_str(), locator.canonical_hash.0.as_str()) {
                let es = vec![sfield("expected", h.as_str()), sfield("actual", locator.canonical_hash.0.as_str())];
                proof {
                    lemma_flat_obj(
                        es,
                        seq![("expected"@, JAtom::Str(h@)), ("actual"@, JAtom::Str(locator.canonical_hash.0@))],
                    );
                }
                return Err(locator_error(
                    "KC_LOCATOR_CANONICAL_HASH_MISMATCH",
                    "locator canonical hash does not match stored canonical hash",
                    JsonValue::Object(es),
                ));
            }
            Ok(ObjectHash(o.clone()))
        },
    }
}

/// `String::from_utf8`: the text the bytes encode, where they are UTF-8.
#[verifier::external_body]
pub(crate) fn utf8_text(bytes: Vec<u8>) -> (r: Result<String, String>)
    ensures
        r is Ok <==> vstd::utf8::valid_utf8(bytes@),
        r is Ok ==> r->Ok_0@ == vstd::utf8::decode_utf8(bytes@),
{
    String::from_utf8(bytes).map_err(|e| e.to_string())
}

/// The span of a locator in the canonical text read from the store: the
/// bytes must be UTF-8 and the range within the text's characters.
pub fn locator_text(locator: &LocatorV1, bytes: Vec<u8>) -> (r: AppResult<String>)
    ensures
        !vstd::utf8::valid_utf8(bytes@) ==> r is Err && r->Err_0.code@ == "KC_LOCATOR_INVALID_SCHEMA"@,
        vstd::utf8::valid_utf8(bytes@) ==> {
            let t = vstd::utf8::decode_utf8(bytes@);
            let (s, e) = (locator.range.start as int, locator.range.end as int);
            &&& (s < 0 || e < s || e > t.len()) ==> r is Err && r->Err_0.code@ == "KC_LOCATOR_RANGE_OOB"@
                && flat_obj(r->Err_0.details) == Some(
                seq![("start"@, JAtom::Int(s)), ("end"@, JAtom::Int(e)), ("len"@, JAtom::Int(t.len() as int))],
            )
            &&& !(s < 0 || e < s || e > t.len()) ==> r is Ok && r->Ok_0@ == t.subrange(s, e)
        },
{
    let text = match utf8_text(bytes) {
        Ok(t) => t,
        Err(msg) => {
            return Err(locator_error(
                "KC_LOCATOR_INVALID_SCHEMA",
                "canonical bytes are not utf8",
                JsonValue::Object(vec![sfield("error", msg.as_str())]),
            ));
        },
    };
    let cs = chars_of(text.as_str());
    let start = locator.range.start;
    let end = locator.range.end;
    let total = cs.len();
    if start < 0 || end < start || (end as u64) > (total as u64) {
        let es = vec![ifield("start", start), ifield("end", end), (owned("len"), crate::json::juint(total as u64))];
        proof {
            lemma_flat_obj(
                es,
                seq![("start"@, JAtom::Int(start as int)), ("end"@, JAtom::Int(end as int)), ("len"@, JAtom::Int(total as int))],
            );
        }
        return Err(locator_error(
            "KC_LOCATOR_RANGE_OOB",
            "locator range is outside canonical text bounds",
            JsonValue::Object(es),
        ));
    }
    Ok(string_from_range(&cs, start as usize, end as usize))
}

} // verus!
