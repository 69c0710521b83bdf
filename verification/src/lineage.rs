//! Lineage of a document: the graph of objects, sources, canonical text,
//! chunks and events it comes from, the overlays users add to it, and the
//! edit lock that guards those overlays.
use vstd::prelude::*;
use crate::app_error::{AppError, AppResult};
use crate::hashing::{blake3_hex_prefixed, blake3_prefixed};
use crate::json::{JsonValue, JAtom, jstr, field, flat_obj, sfield, ifield, ofield, opt_atom, atom_of, lemma_flat_obj};
use crate::lineage_graph::{NodeView, EdgeView, Edge2View, node_view, node_views, edge_view, edge_views, nodes_collected,
    edges_collected, collect_nodes, collect_edges, edge2_view, edge2_views, edges2_sorted, sort_edges2};
use crate::text::{blank, is_blank, owned, push_str, i64_decimal, int_decimal, bytes_of, str_eq};

verus! {

/// How long an edit lock lasts once acquired: fifteen minutes.
pub const LINEAGE_LOCK_LEASE_MS: i64 = 900000;

/// A node of the lineage graph.
#[derive(Debug)]
pub struct LineageNodeV1 {
    pub node_id: String,
    pub kind: String,
    pub label: String,
    pub metadata: JsonValue,
}

/// A system edge of the lineage graph.
#[derive(Debug)]
pub struct LineageEdgeV1 {
    pub from_node_id: String,
    pub to_node_id: String,
    pub relation: String,
    pub evidence: String,
}

/// The lineage graph of a seed document.
#[derive(Debug)]
pub struct LineageQueryResV1 {
    pub schema_version: i64,
    pub seed_doc_id: String,
    pub depth: i64,
    pub generated_at_ms: i64,
    pub nodes: Vec<LineageNodeV1>,
    pub edges: Vec<LineageEdgeV1>,
}

/// An edge a user added to the lineage of a document.
#[derive(Debug)]
pub struct LineageOverlayEntryV1 {
    pub overlay_id: String,
    pub doc_id: String,
    pub from_node_id: String,
    pub to_node_id: String,
    pub relation: String,
    pub evidence: String,
    pub created_at_ms: i64,
    pub created_by: String,
}

/// The lease handed out when a document's edit lock is acquired.
#[derive(Debug)]
pub struct LineageLockLeaseV1 {
    pub doc_id: String,
    pub owner: String,
    pub token: String,
    pub acquired_at_ms: i64,
    pub expires_at_ms: i64,
}

/// The state of a document's edit lock at a given time.
#[derive(Debug)]
pub struct LineageLockStatusV1 {
    pub doc_id: String,
    pub held: bool,
    pub owner: Option<String>,
    pub acquired_at_ms: Option<i64>,
    pub expires_at_ms: Option<i64>,
    pub expired: bool,
}

/// An edge of the merged lineage graph, marked `system` or `overlay`.
#[derive(Debug)]
pub struct LineageEdgeV2 {
    pub from_node_id: String,
    pub to_node_id: String,
    pub relation: String,
    pub evidence: String,
    pub origin: String,
}

/// The lineage graph with the overlays merged in.
#[derive(Debug)]
pub struct LineageQueryResV2 {
    pub schema_version: i64,
    pub seed_doc_id: String,
    pub depth: i64,
    pub generated_at_ms: i64,
    pub nodes: Vec<LineageNodeV1>,
    pub edges: Vec<LineageEdgeV2>,
}

/// A stored edit lock of a document.
#[derive(Debug)]
pub struct LockRow {
    pub owner: String,
    pub token: String,
    pub acquired_at_ms: i64,
    pub expires_at_ms: i64,
}

fn lineage_error(code: &str, message: &str, details: JsonValue) -> (e: AppError)
    ensures
        e.code@ == code@,
        e.category@ == "lineage"@,
        e.message@ == message@,
        !e.retryable,
        e.details == details,
{
    AppError::new(code, "lineage", message, false, details)
}

fn doc_details(doc_id: &str) -> (r: JsonValue)
    ensures
        r is Object,
        r->Object_0@.len() == 1,
        r->Object_0@[0].0@ == "doc_id"@,
        r->Object_0@[0].1 matches JsonValue::Str(t) && t@ == doc_id@,
{
    JsonValue::Object(vec![field("doc_id", jstr(doc_id))])
}

// ---------------------------------------------------------------------------
// Edit lock
// ---------------------------------------------------------------------------

/// The text the lock token of a lease is the hash of.
pub open spec fn lock_token_text(doc_id: Seq<char>, owner: Seq<char>, now_ms: int) -> Seq<char> {
    "kc.lineage.lock.v1\n"@ + doc_id + "\n"@ + owner + "\n"@ + int_decimal(now_ms)
}

/// The token of the lease `owner` acquires on `doc_id` at `now_ms`.
pub fn lock_token_for(doc_id: &str, owner: &str, now_ms: i64) -> (r: String)
    ensures
        r@ == blake3_prefixed(vstd::utf8::encode_utf8(lock_token_text(doc_id@, owner@, now_ms as int))),
{
    let mut s = String::new();
    push_str(&mut s, "kc.lineage.lock.v1\n");
    push_str(&mut s, doc_id);
    push_str(&mut s, "\n");
    push_str(&mut s, owner);
    push_str(&mut s, "\n");
    let n = i64_decimal(now_ms);
    push_str(&mut s, n.as_str());
    let b = bytes_of(s.as_str());
    blake3_hex_prefixed(b.as_slice())
}

/// A stored lock that has not yet expired at `now_ms`.
pub open spec fn lock_active(row: Option<LockRow>, now_ms: int) -> bool {
    row is Some && row->Some_0.expires_at_ms > now_ms
}

/// Whether `owner` may acquire the edit lock of `doc_id` at `now_ms`.
pub open spec fn acquire_allowed(doc_id: Seq<char>, owner: Seq<char>, row: Option<LockRow>, now_ms: int) -> bool {
    !is_blank(doc_id) && !is_blank(owner) && !lock_active(row, now_ms)
}

/// Acquires the edit lock of `doc_id` for `owner`, given the lock stored
/// for it. Blank fields are refused, and so is a lock that someone holds;
/// an expired lock is taken over. Writing the returned lease is the caller's.
pub fn lineage_lock_acquire(doc_id: &str, owner: &str, current: &Option<LockRow>, now_ms: i64) -> (r: AppResult<LineageLockLeaseV1>)
    requires
        now_ms + LINEAGE_LOCK_LEASE_MS <= i64::MAX,
    ensures
        r is Ok <==> acquire_allowed(doc_id@, owner@, *current, now_ms as int),
        (is_blank(doc_id@) || is_blank(owner@)) ==> r is Err && r->Err_0.code@ == "KC_LINEAGE_LOCK_INVALID"@,
        !is_blank(doc_id@) && !is_blank(owner@) && lock_active(*current, now_ms as int)
            ==> r is Err && r->Err_0.code@ == "KC_LINEAGE_LOCK_HELD"@,
        r is Ok ==> {
            let l = r->Ok_0;
            &&& l.doc_id@ == doc_id@
            &&& l.owner@ == owner@
            &&& l.token@ == blake3_prefixed(vstd::utf8::encode_utf8(lock_token_text(doc_id@, owner@, now_ms as int)))
            &&& l.acquired_at_ms == now_ms
            &&& l.expires_at_ms == now_ms + LINEAGE_LOCK_LEASE_MS
        },
{
    if blank(doc_id) || blank(owner) {
        return Err(lineage_error(
            "KC_LINEAGE_LOCK_INVALID",
            "lineage lock acquire requires non-empty doc_id and owner",
            JsonValue::Object(vec![field("doc_id", jstr(doc_id)), field("owner", jstr(owner))]),
        ));
    }
    if let Some(lock) = current {
        if lock.expires_at_ms > now_ms {
            return Err(lineage_error(
                "KC_LINEAGE_LOCK_HELD",
                "lineage edit lock is already held",
                JsonValue::Object(vec![
                    field("doc_id", jstr(doc_id)),
                    field("owner", jstr(lock.owner.as_str())),
                    field("expires_at_ms", crate::json::jint(lock.expires_at_ms)),
                ]),
            ));
        }
    }
    let token = lock_token_for(doc_id, owner, now_ms);
    Ok(LineageLockLeaseV1 {
        doc_id: owned(doc_id),
        owner: owned(owner),
        token,
        acquired_at_ms: now_ms,
        expires_at_ms: now_ms + LINEAGE_LOCK_LEASE_MS,
    })
}

/// Whether the stored lock exists and carries `token`.
pub open spec fn release_allowed(row: Option<LockRow>, token: Seq<char>) -> bool {
    row is Some && row->Some_0.token@ == token
}

/// Releases the edit lock of `doc_id`, given the lock stored for it: the
/// lock must exist and the token must be its own. Deleting it is the caller's.
pub fn lineage_lock_release(doc_id: &str, current: &Option<LockRow>, token: &str) -> (r: AppResult<()>)
    ensures
        r is Ok <==> release_allowed(*current, token@),
        r is Err ==> r->Err_0.code@ == "KC_LINEAGE_LOCK_INVALID"@,
{
    match current {
        None => Err(lineage_error(
            "KC_LINEAGE_LOCK_INVALID",
            "lineage edit lock does not exist",
            doc_details(doc_id),
        )),
        Some(lock) => {
            if !str_eq(lock.token.as_str(), token) {
                return Err(lineage_error(
                    "KC_LINEAGE_LOCK_INVALID",
                    "lineage edit lock token is invalid",
                    doc_details(doc_id),
                ));
            }
            Ok(())
        },
    }
}

/// The status of the edit lock of `doc_id` at `now_ms`, given the lock
/// stored for it: held while it has not expired.
pub fn lineage_lock_status(doc_id: &str, current: &Option<LockRow>, now_ms: i64) -> (r: LineageLockStatusV1)
    ensures
        r.doc_id@ == doc_id@,
        r.held == lock_active(*current, now_ms as int),
        r.expired == (current is Some && current->Some_0.expires_at_ms <= now_ms),
        current is None ==> r.owner is None && r.acquired_at_ms is None && r.expires_at_ms is None,
        current is Some ==> {
            let l = current->Some_0;
            &&& r.owner is Some && r.owner->Some_0@ == l.owner@
            &&& r.acquired_at_ms == Some(l.acquired_at_ms)
            &&& r.expires_at_ms == Some(l.expires_at_ms)
        },
{
    match current {
        None => LineageLockStatusV1 {
            doc_id: owned(doc_id),
            held: false,
            owner: None,
            acquired_at_ms: None,
            expires_at_ms: None,
            expired: false,
        },
        Some(lock) => {
            let expired = lock.expires_at_ms <= now_ms;
            LineageLockStatusV1 {
                doc_id: owned(doc_id),
                held: !expired,
                owner: Some(lock.owner.clone()),
                acquired_at_ms: Some(lock.acquired_at_ms),
                expires_at_ms: Some(lock.expires_at_ms),
                expired,
            }
        },
    }
}

/// Whether an overlay of `doc_id` may be changed with `token` at `now_ms`.
pub open spec fn lock_valid(row: Option<LockRow>, token: Seq<char>, now_ms: int) -> bool {
    lock_active(row, now_ms) && row->Some_0.token@ == token
}

/// Checks that the edit lock of `doc_id` is held at `now_ms` under `token`,
/// given the lock stored for it, and returns the lock's owner.
pub fn require_valid_lock(doc_id: &str, current: &Option<LockRow>, token: &str, now_ms: i64) -> (r: AppResult<String>)
    ensures
        r is Ok <==> lock_valid(*current, token@, now_ms as int),
        r is Ok ==> r->Ok_0@ == current->Some_0.owner@,
        current is Some && current->Some_0.expires_at_ms <= now_ms
            ==> r is Err && r->Err_0.code@ == "KC_LINEAGE_LOCK_EXPIRED"@,
        r is Err && !(current is Some && current->Some_0.expires_at_ms <= now_ms)
            ==> r->Err_0.code@ == "KC_LINEAGE_LOCK_INVALID"@,
{
    let status = lineage_lock_status(doc_id, current, now_ms);
    if !status.held {
        let code = if status.expired {
            "KC_LINEAGE_LOCK_EXPIRED"
        } else {
            "KC_LINEAGE_LOCK_INVALID"
        };
        return Err(lineage_error(
            code,
            "lineage edit lock is required for overlay mutation",
            doc_details(doc_id),
        ));
    }
    match current {
        None => Err(lineage_error(
            "KC_LINEAGE_LOCK_INVALID",
            "lineage edit lock is required for overlay mutation",
            doc_details(doc_id),
        )),
        Some(lock) => {
            if !str_eq(lock.token.as_str(), token) {
                return Err(lineage_error(
                    "KC_LINEAGE_LOCK_INVALID",
                    "lineage edit lock token is invalid",
                    doc_details(doc_id),
                ));
            }
            Ok(lock.owner.clone())
        },
    }
}

/// The stored lock that a lease was written as.
pub open spec fn row_of_lease(row: LockRow, lease: LineageLockLeaseV1) -> bool {
    &&& row.owner@ == lease.owner@
    &&& row.token@ == lease.token@
    &&& row.acquired_at_ms == lease.acquired_at_ms
    &&& row.expires_at_ms == lease.expires_at_ms
}

/// A lease, once written, holds the lock until it expires: within its term
/// the lock shows as held, overlays can be changed with its token, nobody
/// else can acquire the lock, and its token releases it.
pub proof fn law_lease_holds_lock(
    row: LockRow,
    lease: LineageLockLeaseV1,
    t: int,
    other_doc: Seq<char>,
    other_owner: Seq<char>,
)
    requires
        row_of_lease(row, lease),
        lease.acquired_at_ms <= t < lease.expires_at_ms,
    ensures
        lock_active(Some(row), t),
        lock_valid(Some(row), lease.token@, t),
        !acquire_allowed(other_doc, other_owner, Some(row), t),
        release_allowed(Some(row), lease.token@),
{
}

/// Once a lease's term is over, the lock can be acquired again by anyone
/// who names a document and an owner.
pub proof fn law_expired_lock_is_free(row: LockRow, doc: Seq<char>, owner: Seq<char>, t: int)
    requires
        row.expires_at_ms <= t,
        !is_blank(doc),
        !is_blank(owner),
    ensures
        acquire_allowed(doc, owner, Some(row), t),
        !lock_valid(Some(row), row.token@, t),
{
}


// ---------------------------------------------------------------------------
// Overlays
// ---------------------------------------------------------------------------

/// The text an overlay's id is the hash of.
pub open spec fn overlay_id_text(
    doc_id: Seq<char>,
    from_node_id: Seq<char>,
    to_node_id: Seq<char>,
    relation: Seq<char>,
    evidence: Seq<char>,
) -> Seq<char> {
    "kc.lineage.overlay.v1\n"@ + doc_id + "\n"@ + from_node_id + "\n"@ + to_node_id + "\n"@ + relation
        + "\n"@ + evidence
}

/// The id of an overlay: the hash of its document, endpoints, relation and
/// evidence, so that one edge can be added once.
pub fn overlay_id_for(doc_id: &str, from_node_id: &str, to_node_id: &str, relation: &str, evidence: &str) -> (r: String)
    ensures
        r@ == blake3_prefixed(
            vstd::utf8::encode_utf8(overlay_id_text(doc_id@, from_node_id@, to_node_id@, relation@, evidence@)),
        ),
{
    let mut s = String::new();
    push_str(&mut s, "kc.lineage.overlay.v1\n");
    push_str(&mut s, doc_id);
    push_str(&mut s, "\n");
    push_str(&mut s, from_node_id);
    push_str(&mut s, "\n");
    push_str(&mut s, to_node_id);
    push_str(&mut s, "\n");
    push_str(&mut s, relation);
    push_str(&mut s, "\n");
    push_str(&mut s, evidence);
    let b = bytes_of(s.as_str());
    blake3_hex_prefixed(b.as_slice())
}

/// The overlay fields with their names, in the order they are checked.
pub open spec fn overlay_fields(
    doc_id: Seq<char>,
    from_node_id: Seq<char>,
    to_node_id: Seq<char>,
    relation: Seq<char>,
    evidence: Seq<char>,
    created_by: Seq<char>,
) -> Seq<(Seq<char>, Seq<char>)> {
    seq![
        ("doc_id"@, doc_id),
        ("from_node_id"@, from_node_id),
        ("to_node_id"@, to_node_id),
        ("relation"@, relation),
        ("evidence"@, evidence),
        ("created_by"@, created_by),
    ]
}

/// The index of the first blank field, or the number of fields.
pub open spec fn first_blank(fs: Seq<(Seq<char>, Seq<char>)>) -> int
    decreases fs.len(),
{
    if fs.len() == 0 {
        0
    } else if is_blank(fs[0].1) {
        0
    } else {
        1 + first_blank(fs.drop_first())
    }
}

proof fn lemma_first_blank(fs: Seq<(Seq<char>, Seq<char>)>, k: int)
    requires
        0 <= k <= fs.len(),
        forall|i: int| 0 <= i < k ==> !is_blank(#[trigger] fs[i].1),
        k == fs.len() || is_blank(fs[k].1),
    ensures
        first_blank(fs) == k,
    decreases k,
{
    if k > 0 {
        assert forall|i: int| 0 <= i < k - 1 implies !is_blank(#[trigger] fs.drop_first()[i].1) by {
            assert(fs.drop_first()[i] == fs[i + 1]);
        }
        lemma_first_blank(fs.drop_first(), k - 1);
    }
}

/// An error whose details name one field.
pub open spec fn names_field(e: AppError, name: Seq<char>) -> bool {
    e.details matches JsonValue::Object(es) && es@.len() == 1 && es@[0].0@ == "field"@
        && (es@[0].1 matches JsonValue::Str(n) && n@ == name)
}

/// Checks that no overlay field is blank; the error names the first that is.
pub fn validate_overlay_fields(
    doc_id: &str,
    from_node_id: &str,
    to_node_id: &str,
    relation: &str,
    evidence: &str,
    created_by: &str,
) -> (r: AppResult<()>)
    ensures
        ({
            let fs = overlay_fields(doc_id@, from_node_id@, to_node_id@, relation@, evidence@, created_by@);
            let k = first_blank(fs);
            &&& (r is Ok <==> k == 6)
            &&& r is Err ==> r->Err_0.code@ == "KC_LINEAGE_OVERLAY_INVALID"@ && 0 <= k < 6
                && names_field(r->Err_0, fs[k].0)
        }),
{
    let ghost fs = overlay_fields(doc_id@, from_node_id@, to_node_id@, relation@, evidence@, created_by@);
    let names: [&str; 6] = ["doc_id", "from_node_id", "to_node_id", "relation", "evidence", "created_by"];
    let values: [&str; 6] = [doc_id, from_node_id, to_node_id, relation, evidence, created_by];
    assert(values@[0]@ == fs[0].1 && values@[1]@ == fs[1].1 && values@[2]@ == fs[2].1);
    assert(values@[3]@ == fs[3].1 && values@[4]@ == fs[4].1 && values@[5]@ == fs[5].1);
    assert(names@[0]@ == fs[0].0 && names@[1]@ == fs[1].0 && names@[2]@ == fs[2].0);
    assert(names@[3]@ == fs[3].0 && names@[4]@ == fs[4].0 && names@[5]@ == fs[5].0);
    let mut i: usize = 0;
    while i < 6
        invariant
            i <= 6,
            fs == overlay_fields(doc_id@, from_node_id@, to_node_id@, relation@, evidence@, created_by@),
            forall|j: int| 0 <= j < 6 ==> #[trigger] names@[j]@ == fs[j].0,
            forall|j: int| 0 <= j < 6 ==> #[trigger] values@[j]@ == fs[j].1,
            forall|j: int| 0 <= j < i ==> !is_blank(#[trigger] fs[j].1),
        decreases 6 - i,
    {
        if blank(values[i]) {
            proof {
                lemma_first_blank(fs, i as int);
            }
            return Err(lineage_error(
                "KC_LINEAGE_OVERLAY_INVALID",
                "overlay field must not be empty",
                JsonValue::Object(vec![field("field", jstr(names[i]))]),
            ));
        }
        i = i + 1;
    }
    proof {
        lemma_first_blank(fs, 6);
    }
    Ok(())
}

/// Adds an overlay edge to the lineage of `doc_id`: the fields must not be
/// blank, the edit lock must be held under `lock_token`, and `created_by`
/// must hold the `lineage.overlay.write` permission (`permission`, the
/// outcome of that check). Returns the entry to store.
pub fn lineage_overlay_add(
    doc_id: &str,
    from_node_id: &str,
    to_node_id: &str,
    relation: &str,
    evidence: &str,
    lock_token: &str,
    created_at_ms: i64,
    created_by: &str,
    current_lock: &Option<LockRow>,
    permission: AppResult<()>,
) -> (r: AppResult<LineageOverlayEntryV1>)
    ensures
        ({
            let fs = overlay_fields(doc_id@, from_node_id@, to_node_id@, relation@, evidence@, created_by@);
            &&& r is Ok <==> (first_blank(fs) == 6 && lock_valid(*current_lock, lock_token@, created_at_ms as int)
                && permission is Ok)
            &&& first_blank(fs) < 6 ==> r is Err && r->Err_0.code@ == "KC_LINEAGE_OVERLAY_INVALID"@
            &&& first_blank(fs) == 6 && !lock_valid(*current_lock, lock_token@, created_at_ms as int)
                ==> r is Err && r->Err_0.code@ == (if current_lock is Some && current_lock->Some_0.expires_at_ms
                <= created_at_ms {
                "KC_LINEAGE_LOCK_EXPIRED"@
            } else {
                "KC_LINEAGE_LOCK_INVALID"@
            })
            &&& first_blank(fs) == 6 && lock_valid(*current_lock, lock_token@, created_at_ms as int)
                && permission is Err ==> r is Err && r->Err_0 == permission->Err_0
        }),
        r is Ok ==> {
            let e = r->Ok_0;
            &&& e.overlay_id@ == blake3_prefixed(
                vstd::utf8::encode_utf8(overlay_id_text(doc_id@, from_node_id@, to_node_id@, relation@, evidence@)),
            )
            &&& e.doc_id@ == doc_id@
            &&& e.from_node_id@ == from_node_id@
            &&& e.to_node_id@ == to_node_id@
            &&& e.relation@ == relation@
            &&& e.evidence@ == evidence@
            &&& e.created_at_ms == created_at_ms
            &&& e.created_by@ == created_by@
        },
{
    validate_overlay_fields(doc_id, from_node_id, to_node_id, relation, evidence, created_by)?;
    let _owner = require_valid_lock(doc_id, current_lock, lock_token, created_at_ms)?;
    match permission {
        Err(e) => Err(e),
        Ok(()) => Ok(LineageOverlayEntryV1 {
            overlay_id: overlay_id_for(doc_id, from_node_id, to_node_id, relation, evidence),
            doc_id: owned(doc_id),
            from_node_id: owned(from_node_id),
            to_node_id: owned(to_node_id),
            relation: owned(relation),
            evidence: owned(evidence),
            created_at_ms,
            created_by: owned(created_by),
        }),
    }
}

/// The error for an overlay whose id is already stored.
pub fn overlay_conflict_error(entry: &LineageOverlayEntryV1) -> (e: AppError)
    ensures
        e.code@ == "KC_LINEAGE_OVERLAY_CONFLICT"@,
        e.category@ == "lineage"@,
{
    lineage_error(
        "KC_LINEAGE_OVERLAY_CONFLICT",
        "overlay already exists",
        JsonValue::Object(vec![
            field("overlay_id", jstr(entry.overlay_id.as_str())),
            field("doc_id", jstr(entry.doc_id.as_str())),
            field("from_node_id", jstr(entry.from_node_id.as_str())),
            field("to_node_id", jstr(entry.to_node_id.as_str())),
            field("relation", jstr(entry.relation.as_str())),
            field("evidence", jstr(entry.evidence.as_str())),
        ]),
    )
}

fn overlay_not_found(overlay_id: &str) -> (e: AppError)
    ensures
        e.code@ == "KC_LINEAGE_OVERLAY_NOT_FOUND"@,
{
    lineage_error(
        "KC_LINEAGE_OVERLAY_NOT_FOUND",
        "lineage overlay not found",
        JsonValue::Object(vec![field("overlay_id", jstr(overlay_id))]),
    )
}

/// Decides whether the overlay `overlay_id` may be removed: it must exist
/// (`doc_id`, the document it belongs to), the document's edit lock must be
/// held under `lock_token`, and the lock's owner must hold the
/// `lineage.overlay.write` permission (`permission`).
pub fn lineage_overlay_remove(
    overlay_id: &str,
    doc_id: &Option<String>,
    lock_token: &str,
    now_ms: i64,
    current_lock: &Option<LockRow>,
    permission: AppResult<()>,
) -> (r: AppResult<()>)
    ensures
        r is Ok <==> (doc_id is Some && lock_valid(*current_lock, lock_token@, now_ms as int) && permission is Ok),
        doc_id is None ==> r is Err && r->Err_0.code@ == "KC_LINEAGE_OVERLAY_NOT_FOUND"@,
        doc_id is Some && !lock_valid(*current_lock, lock_token@, now_ms as int) ==> r is Err && r->Err_0.code@ == (
        if current_lock is Some && current_lock->Some_0.expires_at_ms <= now_ms {
            "KC_LINEAGE_LOCK_EXPIRED"@
        } else {
            "KC_LINEAGE_LOCK_INVALID"@
        }),
        doc_id is Some && lock_valid(*current_lock, lock_token@, now_ms as int) && permission is Err
            ==> r is Err && r->Err_0 == permission->Err_0,
{
    match doc_id {
        None => Err(overlay_not_found(overlay_id)),
        Some(d) => {
            let _owner = require_valid_lock(d.as_str(), current_lock, lock_token, now_ms)?;
            permission
        },
    }
}

/// The outcome of deleting an overlay row: nothing deleted means it was
/// not there.
pub fn overlay_removed(overlay_id: &str, removed: u64) -> (r: AppResult<()>)
    ensures
        r is Ok <==> removed > 0,
        r is Err ==> r->Err_0.code@ == "KC_LINEAGE_OVERLAY_NOT_FOUND"@,
{
    if removed == 0 {
        return Err(overlay_not_found(overlay_id));
    }
    Ok(())
}

/// The kind of a node named only by an overlay: the part of its id before
/// the first `:`, or `overlay` where there is no `:`.
pub open spec fn node_kind_of(node_id: Seq<char>) -> Seq<char> {
    let k = crate::sync_transport::index_of(node_id, ':');
    if k < node_id.len() {
        node_id.subrange(0, k)
    } else {
        "overlay"@
    }
}

/// The kind inferred for a node id.
pub fn inferred_node_kind(node_id: &str) -> (r: String)
    ensures
        r@ == node_kind_of(node_id@),
{
    let cs = crate::text::chars_of(node_id);
    let mut i: usize = 0;
    while i < cs.len() && cs[i] != ':'
        invariant
            cs@ == node_id@,
            i <= cs@.len(),
            forall|j: int| 0 <= j < i ==> cs@[j] != ':',
        decreases cs.len() - i,
    {
        i = i + 1;
    }
    proof {
        crate::sync_transport::lemma_index_of(node_id@, ':', i as int);
    }
    if i < cs.len() {
        crate::text::string_from_range(&cs, 0, i)
    } else {
        owned("overlay")
    }
}

// ---------------------------------------------------------------------------
// The lineage graph of a document
// ---------------------------------------------------------------------------

/// A stored event.
#[derive(Debug)]
pub struct LineageEventRow {
    pub event_id: i64,
    pub ts_ms: i64,
    pub event_type: String,
    pub payload_json: String,
    pub prev_event_hash: Option<String>,
    pub event_hash: String,
}

/// The stored facts of the seed document.
#[derive(Debug)]
pub struct LineageDocRow {
    pub original_object_hash: String,
    pub ingested_event_id: i64,
    pub mime: String,
    pub source_kind: String,
    pub effective_ts_ms: i64,
}

/// The stored canonical text of the seed document.
#[derive(Debug)]
pub struct LineageCanonicalRow {
    pub canonical_hash: String,
    pub canonical_object_hash: String,
    pub extractor_name: String,
    pub extractor_version: String,
    pub normalization_version: i64,
    pub toolchain_json: String,
    pub created_event_id: i64,
}

/// A stored chunk of the seed document.
#[derive(Debug)]
pub struct LineageChunkRow {
    pub chunk_id: String,
    pub ordinal: i64,
    pub start_char: i64,
    pub end_char: i64,
    pub chunking_config_hash: String,
}

/// What the store holds about a seed document. `doc` is `None` where the
/// document does not exist. Each chain starts at the event that the
/// document (or its canonical text) names and follows the previous-event
/// hashes, as far as `event_chain_next` asks.
#[derive(Debug)]
pub struct LineageRows {
    pub doc: Option<LineageDocRow>,
    pub sources: Vec<String>,
    pub canonical: Option<LineageCanonicalRow>,
    pub canonical_chain: Vec<LineageEventRow>,
    pub chunks: Vec<LineageChunkRow>,
    pub ingest_chain: Vec<LineageEventRow>,
}

/// How far a chain can be followed from its `n`th event on.
pub open spec fn chain_extend(chain: Seq<LineageEventRow>, depth: int, n: int) -> int
    decreases chain.len() - n,
{
    if 1 <= n < chain.len() && n < depth && chain[n - 1].prev_event_hash is Some {
        chain_extend(chain, depth, n + 1)
    } else {
        n
    }
}

/// The number of events of a chain the graph shows: at most `depth` (and
/// at least the first), each after the first named by the one before.
pub open spec fn chain_used(chain: Seq<LineageEventRow>, depth: int) -> int {
    if chain.len() == 0 {
        0
    } else {
        chain_extend(chain, depth, 1)
    }
}

proof fn lemma_chain_extend_bounds(chain: Seq<LineageEventRow>, depth: int, n: int)
    requires
        1 <= n <= chain.len(),
    ensures
        n <= chain_extend(chain, depth, n) <= chain.len(),
    decreases chain.len() - n,
{
    if 1 <= n < chain.len() && n < depth && chain[n - 1].prev_event_hash is Some {
        lemma_chain_extend_bounds(chain, depth, n + 1);
    }
}

/// The number of events of `chain` that the graph shows.
pub fn chain_count(chain: &Vec<LineageEventRow>, depth: i64) -> (n: usize)
    ensures
        n == chain_used(chain@, depth as int),
        n <= chain@.len(),
{
    if chain.len() == 0 {
        return 0;
    }
    let mut n: usize = 1;
    while n < chain.len() && depth > 0 && (n as u64) < (depth as u64) && chain[n - 1].prev_event_hash.is_some()
        invariant
            1 <= n <= chain@.len(),
            chain_extend(chain@, depth as int, n as int) == chain_used(chain@, depth as int),
        decreases chain.len() - n,
    {
        n = n + 1;
    }
    proof {
        lemma_chain_extend_bounds(chain@, depth as int, 1);
    }
    n
}

/// The hash of the next event to load for `chain`, or `None` once the
/// chain is complete: `depth` events, or an event that names no previous
/// one.
pub fn event_chain_next(chain: &Vec<LineageEventRow>, depth: i64) -> (r: Option<String>)
    ensures
        r is Some <==> (chain@.len() > 0 && chain_used(chain@, depth as int) == chain@.len()
            && chain@.len() < depth && chain@.last().prev_event_hash is Some),
        r is Some ==> r->Some_0@ == chain@.last().prev_event_hash->Some_0@,
{
    let n = chain_count(chain, depth);
    if n == 0 || n < chain.len() || depth <= 0 || (n as u64) >= (depth as u64) {
        return None;
    }
    match &chain[n - 1].prev_event_hash {
        Some(h) => Some(h.clone()),
        None => None,
    }
}

pub open spec fn s_atom(x: Seq<char>) -> JAtom {
    JAtom::Str(x)
}

pub open spec fn doc_node_id(seed: Seq<char>) -> Seq<char> {
    "doc:"@ + seed
}

pub open spec fn doc_node(seed: Seq<char>, d: LineageDocRow) -> NodeView {
    ("doc"@, doc_node_id(seed), seed, Some(seq![
        ("doc_id"@, s_atom(seed)),
        ("mime"@, s_atom(d.mime@)),
        ("source_kind"@, s_atom(d.source_kind@)),
        ("effective_ts_ms"@, JAtom::Int(d.effective_ts_ms as int)),
    ]))
}

pub open spec fn object_node_id(h: Seq<char>) -> Seq<char> {
    "object:"@ + h
}

pub open spec fn original_object_node(h: Seq<char>) -> NodeView {
    ("object"@, object_node_id(h), h, Some(seq![("object_hash"@, s_atom(h)), ("role"@, s_atom("original"@))]))
}

pub open spec fn source_node_id(p: Seq<char>) -> Seq<char> {
    "source:"@ + p
}

pub open spec fn source_node(p: Seq<char>) -> NodeView {
    ("source"@, source_node_id(p), p, Some(seq![("source_path"@, s_atom(p))]))
}

pub open spec fn canonical_node_id(c: LineageCanonicalRow) -> Seq<char> {
    "canonical:"@ + c.canonical_hash@
}

pub open spec fn canonical_node(c: LineageCanonicalRow) -> NodeView {
    ("canonical"@, canonical_node_id(c), c.canonical_hash@, Some(seq![
        ("canonical_hash"@, s_atom(c.canonical_hash@)),
        ("extractor_name"@, s_atom(c.extractor_name@)),
        ("extractor_version"@, s_atom(c.extractor_version@)),
        ("normalization_version"@, JAtom::Int(c.normalization_version as int)),
        ("toolchain_json"@, s_atom(c.toolchain_json@)),
    ]))
}

pub open spec fn canonical_object_node(c: LineageCanonicalRow) -> NodeView {
    ("object"@, object_node_id(c.canonical_object_hash@), c.canonical_object_hash@, Some(seq![
        ("role"@, s_atom("canonical"@)),
    ]))
}

pub open spec fn event_node_id(e: LineageEventRow) -> Seq<char> {
    "event:"@ + int_decimal(e.event_id as int)
}

pub open spec fn event_node(e: LineageEventRow) -> NodeView {
    ("event"@, event_node_id(e), "Event "@ + int_decimal(e.event_id as int) + " "@ + e.event_type@, Some(seq![
        ("event_id"@, JAtom::Int(e.event_id as int)),
        ("ts_ms"@, JAtom::Int(e.ts_ms as int)),
        ("event_type"@, s_atom(e.event_type@)),
        ("payload_json"@, s_atom(e.payload_json@)),
        ("event_hash"@, s_atom(e.event_hash@)),
        ("prev_event_hash"@, opt_atom(e.prev_event_hash)),
    ]))
}

pub open spec fn chunk_node_id(c: LineageChunkRow) -> Seq<char> {
    "chunk:"@ + c.chunk_id@
}

pub open spec fn chunk_node(c: LineageChunkRow) -> NodeView {
    ("chunk"@, chunk_node_id(c), "Chunk "@ + int_decimal(c.ordinal as int), Some(seq![
        ("chunk_id"@, s_atom(c.chunk_id@)),
        ("ordinal"@, JAtom::Int(c.ordinal as int)),
        ("start_char"@, JAtom::Int(c.start_char as int)),
        ("end_char"@, JAtom::Int(c.end_char as int)),
        ("chunking_config_hash"@, s_atom(c.chunking_config_hash@)),
    ]))
}

pub open spec fn chain_nodes(chain: Seq<LineageEventRow>, n: int) -> Seq<NodeView> {
    Seq::new(n as nat, |k: int| event_node(chain[k]))
}

pub open spec fn chain_edges(chain: Seq<LineageEventRow>, n: int) -> Seq<EdgeView> {
    Seq::new(
        if n > 0 { (n - 1) as nat } else { 0 },
        |k: int| (event_node_id(chain[k]), event_node_id(chain[k + 1]), "prev_event"@, chain[k].prev_event_hash->Some_0@),
    )
}

/// The nodes of the graph in the order they are given; where an id repeats,
/// the first counts.
pub open spec fn lineage_node_adds(seed: Seq<char>, d: LineageDocRow, rows: LineageRows, depth: int) -> Seq<NodeView> {
    let cn = chain_used(rows.canonical_chain@, depth);
    let inn = chain_used(rows.ingest_chain@, depth);
    seq![doc_node(seed, d), original_object_node(d.original_object_hash@)]
        + Seq::new(rows.sources@.len(), |k: int| source_node(rows.sources@[k]@))
        + match rows.canonical {
            Some(c) => seq![canonical_node(c), canonical_object_node(c)] + chain_nodes(rows.canonical_chain@, cn),
            None => Seq::empty(),
        }
        + Seq::new(rows.chunks@.len(), |k: int| chunk_node(rows.chunks@[k]))
        + chain_nodes(rows.ingest_chain@, inn)
}

/// The edges of the graph in the order they are given.
pub open spec fn lineage_edge_adds(seed: Seq<char>, d: LineageDocRow, rows: LineageRows, depth: int) -> Seq<EdgeView> {
    let doc = doc_node_id(seed);
    let cn = chain_used(rows.canonical_chain@, depth);
    let inn = chain_used(rows.ingest_chain@, depth);
    seq![(doc, object_node_id(d.original_object_hash@), "originates_from"@, "docs.original_object_hash"@)]
        + Seq::new(rows.sources@.len(), |k: int| (doc, source_node_id(rows.sources@[k]@), "source_path"@, "doc_sources"@))
        + match rows.canonical {
            Some(c) => seq![
                (doc, canonical_node_id(c), "canonical_text"@, "canonical_text"@),
                (canonical_node_id(c), object_node_id(c.canonical_object_hash@), "stored_as"@,
                    "canonical_text.canonical_object_hash"@),
            ] + if cn > 0 {
                seq![(canonical_node_id(c), event_node_id(rows.canonical_chain@[0]), "created_by_event"@,
                    "canonical_text.created_event_id"@)] + chain_edges(rows.canonical_chain@, cn)
            } else {
                Seq::empty()
            },
            None => Seq::empty(),
        }
        + Seq::new(rows.chunks@.len(), |k: int| (doc, chunk_node_id(rows.chunks@[k]), "contains_chunk"@,
            "ordinal:"@ + int_decimal(rows.chunks@[k].ordinal as int)))
        + if inn > 0 {
            seq![(doc, event_node_id(rows.ingest_chain@[0]), "ingested_by_event"@, "docs.ingested_event_id"@)]
                + chain_edges(rows.ingest_chain@, inn)
        } else {
            Seq::empty()
        }
}

fn prefixed(prefix: &str, rest: &str) -> (r: String)
    ensures
        r@ == prefix@ + rest@,
{
    let mut out = String::new();
    push_str(&mut out, prefix);
    push_str(&mut out, rest);
    out
}

fn doc_node_of(seed: &str, d: &LineageDocRow) -> (n: LineageNodeV1)
    ensures
        node_view(n) == doc_node(seed@, *d),
{
    let es = vec![
        sfield("doc_id", seed),
        sfield("mime", d.mime.as_str()),
        sfield("source_kind", d.source_kind.as_str()),
        ifield("effective_ts_ms", d.effective_ts_ms),
    ];
    proof {
        lemma_flat_obj(es, doc_node(seed@, *d).3->Some_0);
    }
    LineageNodeV1 { node_id: prefixed("doc:", seed), kind: owned("doc"), label: owned(seed), metadata: JsonValue::Object(es) }
}

fn original_object_node_of(h: &str) -> (n: LineageNodeV1)
    ensures
        node_view(n) == original_object_node(h@),
{
    let es = vec![sfield("object_hash", h), sfield("role", "original")];
    proof {
        lemma_flat_obj(es, original_object_node(h@).3->Some_0);
    }
    LineageNodeV1 { node_id: prefixed("object:", h), kind: owned("object"), label: owned(h), metadata: JsonValue::Object(es) }
}

fn source_node_of(p: &str) -> (n: LineageNodeV1)
    ensures
        node_view(n) == source_node(p@),
{
    let es = vec![sfield("source_path", p)];
    proof {
        lemma_flat_obj(es, source_node(p@).3->Some_0);
    }
    LineageNodeV1 { node_id: prefixed("source:", p), kind: owned("source"), label: owned(p), metadata: JsonValue::Object(es) }
}

fn canonical_node_of(c: &LineageCanonicalRow) -> (n: LineageNodeV1)
    ensures
        node_view(n) == canonical_node(*c),
{
    let es = vec![
        sfield("canonical_hash", c.canonical_hash.as_str()),
        sfield("extractor_name", c.extractor_name.as_str()),
        sfield("extractor_version", c.extractor_version.as_str()),
        ifield("normalization_version", c.normalization_version),
        sfield("toolchain_json", c.toolchain_json.as_str()),
    ];
    proof {
        lemma_flat_obj(es, canonical_node(*c).3->Some_0);
    }
    LineageNodeV1 {
        node_id: prefixed("canonical:", c.canonical_hash.as_str()),
        kind: owned("canonical"),
        label: c.canonical_hash.clone(),
        metadata: JsonValue::Object(es),
    }
}

fn canonical_object_node_of(c: &LineageCanonicalRow) -> (n: LineageNodeV1)
    ensures
        node_view(n) == canonical_object_node(*c),
{
    let es = vec![sfield("role", "canonical")];
    proof {
        lemma_flat_obj(es, canonical_object_node(*c).3->Some_0);
    }
    LineageNodeV1 {
        node_id: prefixed("object:", c.canonical_object_hash.as_str()),
        kind: owned("object"),
        label: c.canonical_object_hash.clone(),
        metadata: JsonValue::Object(es),
    }
}

fn event_node_id_of(e: &LineageEventRow) -> (r: String)
    ensures
        r@ == event_node_id(*e),
{
    let n = i64_decimal(e.event_id);
    prefixed("event:", n.as_str())
}

fn event_node_of(e: &LineageEventRow) -> (n: LineageNodeV1)
    ensures
        node_view(n) == event_node(*e),
{
    let es = vec![
        ifield("event_id", e.event_id),
        ifield("ts_ms", e.ts_ms),
        sfield("event_type", e.event_type.as_str()),
        sfield("payload_json", e.payload_json.as_str()),
        sfield("event_hash", e.event_hash.as_str()),
        ofield("prev_event_hash", &e.prev_event_hash),
    ];
    proof {
        lemma_flat_obj(es, event_node(*e).3->Some_0);
    }
    let num = i64_decimal(e.event_id);
    let mut label = String::new();
    push_str(&mut label, "Event ");
    push_str(&mut label, num.as_str());
    push_str(&mut label, " ");
    push_str(&mut label, e.event_type.as_str());
    LineageNodeV1 { node_id: event_node_id_of(e), kind: owned("event"), label, metadata: JsonValue::Object(es) }
}

fn chunk_node_of(c: &LineageChunkRow) -> (n: LineageNodeV1)
    ensures
        node_view(n) == chunk_node(*c),
{
    let es = vec![
        sfield("chunk_id", c.chunk_id.as_str()),
        ifield("ordinal", c.ordinal),
        ifield("start_char", c.start_char),
        ifield("end_char", c.end_char),
        sfield("chunking_config_hash", c.chunking_config_hash.as_str()),
    ];
    proof {
        lemma_flat_obj(es, chunk_node(*c).3->Some_0);
    }
    let num = i64_decimal(c.ordinal);
    LineageNodeV1 {
        node_id: prefixed("chunk:", c.chunk_id.as_str()),
        kind: owned("chunk"),
        label: prefixed("Chunk ", num.as_str()),
        metadata: JsonValue::Object(es),
    }
}

fn edge_of(from: String, to: String, relation: &str, evidence: String) -> (e: LineageEdgeV1)
    ensures
        edge_view(e) == (from@, to@, relation@, evidence@),
{
    LineageEdgeV1 { from_node_id: from, to_node_id: to, relation: owned(relation), evidence }
}

proof fn lemma_chain_prev(chain: Seq<LineageEventRow>, depth: int, n: int)
    requires
        1 <= n <= chain.len(),
        forall|k: int| 0 <= k < n - 1 ==> (#[trigger] chain[k]).prev_event_hash is Some,
    ensures
        forall|k: int| 0 <= k < chain_extend(chain, depth, n) - 1 ==> (#[trigger] chain[k]).prev_event_hash is Some,
    decreases chain.len() - n,
{
    if 1 <= n < chain.len() && n < depth && chain[n - 1].prev_event_hash is Some {
        lemma_chain_prev(chain, depth, n + 1);
    }
}

fn push_chain(nodes: &mut Vec<LineageNodeV1>, edges: &mut Vec<LineageEdgeV1>, chain: &Vec<LineageEventRow>, n: usize)
    requires
        1 <= n <= chain@.len(),
        forall|k: int| 0 <= k < n - 1 ==> (#[trigger] chain@[k]).prev_event_hash is Some,
    ensures
        node_views(final(nodes)@) == node_views(old(nodes)@) + chain_nodes(chain@, n as int),
        edge_views(final(edges)@) == edge_views(old(edges)@) + chain_edges(chain@, n as int),
{
    let ghost n0 = node_views(nodes@);
    let ghost e0 = edge_views(edges@);
    nodes.push(event_node_of(&chain[0]));
    proof {
        assert(node_views(nodes@) =~= n0 + chain_nodes(chain@, 1));
        assert(edge_views(edges@) =~= e0 + chain_edges(chain@, 1));
    }
    let mut k: usize = 1;
    while k < n
        invariant
            1 <= k <= n <= chain@.len(),
            forall|j: int| 0 <= j < n - 1 ==> (#[trigger] chain@[j]).prev_event_hash is Some,
            node_views(nodes@) == n0 + chain_nodes(chain@, k as int),
            edge_views(edges@) == e0 + chain_edges(chain@, k as int),
        decreases n - k,
    {
        let prev = &chain[k - 1];
        let cur = &chain[k];
        let evidence = match &prev.prev_event_hash {
            Some(h) => h.clone(),
            None => String::new(),
        };
        let ghost nb = node_views(nodes@);
        let ghost eb = edge_views(edges@);
        nodes.push(event_node_of(cur));
        edges.push(edge_of(event_node_id_of(prev), event_node_id_of(cur), "prev_event", evidence));
        proof {
            assert(node_views(nodes@) =~= nb.push(event_node(chain@[k as int])));
            assert(edge_views(edges@) =~= eb.push(chain_edges(chain@, k as int + 1)[k - 1]));
            assert(chain_nodes(chain@, k as int).push(event_node(chain@[k as int])) =~= chain_nodes(chain@, k as int + 1));
            assert(chain_edges(chain@, k as int).push(chain_edges(chain@, k as int + 1)[k - 1]) =~= chain_edges(chain@, k as int + 1));
            assert(node_views(nodes@) =~= n0 + chain_nodes(chain@, k as int + 1));
            assert(edge_views(edges@) =~= e0 + chain_edges(chain@, k as int + 1));
        }
        k = k + 1;
    }
}

/// The lineage graph of `seed_doc_id` from what the store holds about it:
/// the document, its original object and sources, its canonical text and
/// the object and event chain behind it, its chunks, and the chain of
/// events from its ingestion, each chain at most `depth` events long.
/// Nodes keep the first entry given for an id and come ordered by kind,
/// then id; edges form a set ordered field by field.
pub fn query_lineage(seed_doc_id: &str, depth: i64, now_ms: i64, rows: &LineageRows) -> (r: AppResult<LineageQueryResV1>)
    ensures
        depth <= 0 ==> r is Err && r->Err_0.code@ == "KC_LINEAGE_INVALID_DEPTH"@ && flat_obj(r->Err_0.details) == Some(
            seq![("depth"@, JAtom::Int(depth as int)), ("min"@, JAtom::Int(1))],
        ),
        depth > 0 && rows.doc is None ==> r is Err && r->Err_0.code@ == "KC_LINEAGE_DOC_NOT_FOUND"@ && flat_obj(
            r->Err_0.details,
        ) == Some(seq![("seed_doc_id"@, JAtom::Str(seed_doc_id@))]),
        depth > 0 && rows.doc is Some ==> r is Ok && {
            let g = r->Ok_0;
            let d = rows.doc->Some_0;
            &&& g.schema_version == 1
            &&& g.seed_doc_id@ == seed_doc_id@
            &&& g.depth == depth
            &&& g.generated_at_ms == now_ms
            &&& nodes_collected(node_views(g.nodes@), lineage_node_adds(seed_doc_id@, d, *rows, depth as int))
            &&& edges_collected(edge_views(g.edges@), lineage_edge_adds(seed_doc_id@, d, *rows, depth as int))
        },
{
    if depth <= 0 {
        let es = vec![ifield("depth", depth), ifield("min", 1)];
        proof {
            lemma_flat_obj(es, seq![("depth"@, JAtom::Int(depth as int)), ("min"@, JAtom::Int(1))]);
        }
        return Err(lineage_error("KC_LINEAGE_INVALID_DEPTH", "lineage depth must be >= 1", JsonValue::Object(es)));
    }
    let d = match &rows.doc {
        None => {
            let es = vec![sfield("seed_doc_id", seed_doc_id)];
            proof {
                lemma_flat_obj(es, seq![("seed_doc_id"@, JAtom::Str(seed_doc_id@))]);
            }
            return Err(lineage_error("KC_LINEAGE_DOC_NOT_FOUND", "seed document does not exist", JsonValue::Object(es)));
        },
        Some(d) => d,
    };
    let ghost seed = seed_doc_id@;
    let ghost cn = chain_used(rows.canonical_chain@, depth as int);
    let ghost inn = chain_used(rows.ingest_chain@, depth as int);
    let doc_id = prefixed("doc:", seed_doc_id);
    let mut nodes: Vec<LineageNodeV1> = Vec::new();
    let mut edges: Vec<LineageEdgeV1> = Vec::new();
    nodes.push(doc_node_of(seed_doc_id, d));
    nodes.push(original_object_node_of(d.original_object_hash.as_str()));
    edges.push(edge_of(
        doc_id.clone(),
        prefixed("object:", d.original_object_hash.as_str()),
        "originates_from",
        owned("docs.original_object_hash"),
    ));
    let ghost n1 = seq![doc_node(seed, *d), original_object_node(d.original_object_hash@)];
    let ghost e1 = seq![(doc_node_id(seed), object_node_id(d.original_object_hash@), "originates_from"@,
        "docs.original_object_hash"@)];
    proof {
        assert(node_views(nodes@) =~= n1);
        assert(edge_views(edges@) =~= e1);
    }
    let ghost src_nodes = Seq::new(rows.sources@.len(), |k: int| source_node(rows.sources@[k]@));
    let ghost src_edges = Seq::new(rows.sources@.len(), |k: int| (doc_node_id(seed), source_node_id(rows.sources@[k]@),
        "source_path"@, "doc_sources"@));
    let mut i: usize = 0;
    while i < rows.sources.len()
        invariant
            i <= rows.sources@.len(),
            doc_id@ == doc_node_id(seed),
            src_nodes == Seq::new(rows.sources@.len(), |k: int| source_node(rows.sources@[k]@)),
            src_edges == Seq::new(rows.sources@.len(), |k: int| (doc_node_id(seed), source_node_id(rows.sources@[k]@),
                "source_path"@, "doc_sources"@)),
            node_views(nodes@) == n1 + src_nodes.take(i as int),
            edge_views(edges@) == e1 + src_edges.take(i as int),
        decreases rows.sources.len() - i,
    {
        let p = rows.sources[i].as_str();
        let ghost nb = node_views(nodes@);
        let ghost eb = edge_views(edges@);
        nodes.push(source_node_of(p));
        edges.push(edge_of(doc_id.clone(), prefixed("source:", p), "source_path", owned("doc_sources")));
        proof {
            assert(node_views(nodes@) =~= nb.push(src_nodes[i as int]));
            assert(edge_views(edges@) =~= eb.push(src_edges[i as int]));
            assert(src_nodes.take(i as int).push(src_nodes[i as int]) =~= src_nodes.take(i + 1));
            assert(src_edges.take(i as int).push(src_edges[i as int]) =~= src_edges.take(i + 1));
        }
        i = i + 1;
    }
    proof {
        assert(src_nodes.take(i as int) =~= src_nodes);
        assert(src_edges.take(i as int) =~= src_edges);
    }
    let ghost n2 = node_views(nodes@);
    let ghost e2 = edge_views(edges@);
    if let Some(c) = &rows.canonical {
        let can_id = prefixed("canonical:", c.canonical_hash.as_str());
        nodes.push(canonical_node_of(c));
        nodes.push(canonical_object_node_of(c));
        edges.push(edge_of(doc_id.clone(), can_id.clone(), "canonical_text", owned("canonical_text")));
        edges.push(edge_of(
            can_id.clone(),
            prefixed("object:", c.canonical_object_hash.as_str()),
            "stored_as",
            owned("canonical_text.canonical_object_hash"),
        ));
        let cnt = chain_count(&rows.canonical_chain, depth);
        if cnt > 0 {
            edges.push(edge_of(
                can_id.clone(),
                event_node_id_of(&rows.canonical_chain[0]),
                "created_by_event",
                owned("canonical_text.created_event_id"),
            ));
            proof {
                lemma_chain_prev(rows.canonical_chain@, depth as int, 1);
            }
            push_chain(&mut nodes, &mut edges, &rows.canonical_chain, cnt);
        }
        proof {
            assert(node_views(nodes@) =~= n2 + (seq![canonical_node(*c), canonical_object_node(*c)]
                + chain_nodes(rows.canonical_chain@, cn)));
            if cnt > 0 {
                assert(edge_views(edges@) =~= e2 + (seq![
                    (doc_node_id(seed), canonical_node_id(*c), "canonical_text"@, "canonical_text"@),
                    (canonical_node_id(*c), object_node_id(c.canonical_object_hash@), "stored_as"@,
                        "canonical_text.canonical_object_hash"@),
                ] + (seq![(canonical_node_id(*c), event_node_id(rows.canonical_chain@[0]), "created_by_event"@,
                    "canonical_text.created_event_id"@)] + chain_edges(rows.canonical_chain@, cn))));
            } else {
                assert(edge_views(edges@) =~= e2 + (seq![
                    (doc_node_id(seed), canonical_node_id(*c), "canonical_text"@, "canonical_text"@),
                    (canonical_node_id(*c), object_node_id(c.canonical_object_hash@), "stored_as"@,
                        "canonical_text.canonical_object_hash"@),
                ] + Seq::<EdgeView>::empty()));
            }
        }
    } else {
        proof {
            assert(node_views(nodes@) =~= n2 + Seq::<NodeView>::empty());
            assert(edge_views(edges@) =~= e2 + Seq::<EdgeView>::empty());
        }
    }
    let ghost n3 = node_views(nodes@);
    let ghost e3 = edge_views(edges@);
    let ghost ch_nodes = Seq::new(rows.chunks@.len(), |k: int| chunk_node(rows.chunks@[k]));
    let ghost ch_edges = Seq::new(rows.chunks@.len(), |k: int| (doc_node_id(seed), chunk_node_id(rows.chunks@[k]),
        "contains_chunk"@, "ordinal:"@ + int_decimal(rows.chunks@[k].ordinal as int)));
    let mut i: usize = 0;
    while i < rows.chunks.len()
        invariant
            i <= rows.chunks@.len(),
            doc_id@ == doc_node_id(seed),
            ch_nodes == Seq::new(rows.chunks@.len(), |k: int| chunk_node(rows.chunks@[k])),
            ch_edges == Seq::new(rows.chunks@.len(), |k: int| (doc_node_id(seed), chunk_node_id(rows.chunks@[k]),
                "contains_chunk"@, "ordinal:"@ + int_decimal(rows.chunks@[k].ordinal as int))),
            node_views(nodes@) == n3 + ch_nodes.take(i as int),
            edge_views(edges@) == e3 + ch_edges.take(i as int),
        decreases rows.chunks.len() - i,
    {
        let c = &rows.chunks[i];
        let ghost nb = node_views(nodes@);
        let ghost eb = edge_views(edges@);
        nodes.push(chunk_node_of(c));
        let num = i64_decimal(c.ordinal);
        edges.push(edge_of(doc_id.clone(), prefixed("chunk:", c.chunk_id.as_str()), "contains_chunk",
            prefixed("ordinal:", num.as_str())));
        proof {
            assert(node_views(nodes@) =~= nb.push(ch_nodes[i as int]));
            assert(edge_views(edges@) =~= eb.push(ch_edges[i as int]));
            assert(ch_nodes.take(i as int).push(ch_nodes[i as int]) =~= ch_nodes.take(i + 1));
            assert(ch_edges.take(i as int).push(ch_edges[i as int]) =~= ch_edges.take(i + 1));
        }
        i = i + 1;
    }
    proof {
        assert(ch_nodes.take(i as int) =~= ch_nodes);
        assert(ch_edges.take(i as int) =~= ch_edges);
    }
    let ghost n4 = node_views(nodes@);
    let ghost e4 = edge_views(edges@);
    let cnt = chain_count(&rows.ingest_chain, depth);
    if cnt > 0 {
        edges.push(edge_of(
            doc_id.clone(),
            event_node_id_of(&rows.ingest_chain[0]),
            "ingested_by_event",
            owned("docs.ingested_event_id"),
        ));
        proof {
            lemma_chain_prev(rows.ingest_chain@, depth as int, 1);
        }
        push_chain(&mut nodes, &mut edges, &rows.ingest_chain, cnt);
        proof {
            assert(edge_views(edges@) =~= e4 + (seq![(doc_node_id(seed), event_node_id(rows.ingest_chain@[0]),
                "ingested_by_event"@, "docs.ingested_event_id"@)] + chain_edges(rows.ingest_chain@, inn)));
        }
    } else {
        proof {
            assert(node_views(nodes@) =~= n4 + chain_nodes(rows.ingest_chain@, inn));
            assert(edge_views(edges@) =~= e4 + Seq::<EdgeView>::empty());
        }
    }
    proof {
        assert(node_views(nodes@) =~= lineage_node_adds(seed, *d, *rows, depth as int));
        assert(edge_views(edges@) =~= lineage_edge_adds(seed, *d, *rows, depth as int));
    }
    let out_nodes = collect_nodes(nodes);
    let out_edges = collect_edges(edges);
    Ok(LineageQueryResV1 {
        schema_version: 1,
        seed_doc_id: owned(seed_doc_id),
        depth,
        generated_at_ms: now_ms,
        nodes: out_nodes,
        edges: out_edges,
    })
}

// ---------------------------------------------------------------------------
// The lineage graph with overlays
// ---------------------------------------------------------------------------

/// A node that only an overlay names.
pub open spec fn overlay_node(id: Seq<char>) -> NodeView {
    (node_kind_of(id), id, id, Some(seq![("overlay_only"@, JAtom::Bool(true))]))
}

/// The nodes the overlays name, in order: each overlay's source, then its target.
pub open spec fn overlay_node_adds(ovs: Seq<LineageOverlayEntryV1>) -> Seq<NodeView>
    decreases ovs.len(),
{
    if ovs.len() == 0 {
        Seq::empty()
    } else {
        overlay_node_adds(ovs.drop_last()) + seq![
            overlay_node(ovs.last().from_node_id@),
            overlay_node(ovs.last().to_node_id@),
        ]
    }
}

/// The edges of the merged graph: the system edges, then the overlays.
pub open spec fn merged_edge_adds(base: Seq<LineageEdgeV1>, ovs: Seq<LineageOverlayEntryV1>) -> Seq<Edge2View> {
    base.map_values(|e: LineageEdgeV1| (e.from_node_id@, e.to_node_id@, e.relation@, e.evidence@, "system"@))
        + ovs.map_values(|o: LineageOverlayEntryV1| (o.from_node_id@, o.to_node_id@, o.relation@, o.evidence@, "overlay"@))
}

fn overlay_node_of(id: &String) -> (n: LineageNodeV1)
    ensures
        node_view(n) == overlay_node(id@),
{
    let es = vec![crate::json::bfield("overlay_only", true)];
    proof {
        lemma_flat_obj(es, overlay_node(id@).3->Some_0);
    }
    LineageNodeV1 { node_id: id.clone(), kind: inferred_node_kind(id.as_str()), label: id.clone(), metadata: JsonValue::Object(es) }
}

/// Merges the overlays of a document into its lineage graph `base`: nodes
/// that only an overlay names are added, with the kind their id shows, and
/// each overlay becomes an edge marked `overlay` beside the `system` ones.
/// Nodes come ordered by kind, then id; edges field by field.
pub fn query_lineage_v2(base: LineageQueryResV1, overlays: Vec<LineageOverlayEntryV1>) -> (r: LineageQueryResV2)
    ensures
        r.schema_version == 2,
        r.seed_doc_id@ == base.seed_doc_id@,
        r.depth == base.depth,
        r.generated_at_ms == base.generated_at_ms,
        nodes_collected(node_views(r.nodes@), node_views(base.nodes@) + overlay_node_adds(overlays@)),
        edges2_sorted(edge2_views(r.edges@)),
        edge2_views(r.edges@).to_multiset() == merged_edge_adds(base.edges@, overlays@).to_multiset(),
{
    let ghost base_nodes = node_views(base.nodes@);
    let ghost base_edges = base.edges@;
    let LineageQueryResV1 { schema_version: _, seed_doc_id, depth, generated_at_ms, nodes, edges } = base;
    let mut adds = nodes;
    let mut i: usize = 0;
    while i < overlays.len()
        invariant
            i <= overlays@.len(),
            node_views(adds@) == base_nodes + overlay_node_adds(overlays@.take(i as int)),
        decreases overlays.len() - i,
    {
        let ghost before = node_views(adds@);
        adds.push(overlay_node_of(&overlays[i].from_node_id));
        adds.push(overlay_node_of(&overlays[i].to_node_id));
        proof {
            let t = overlays@.take(i + 1);
            assert(t.drop_last() =~= overlays@.take(i as int));
            assert(t.last() == overlays@[i as int]);
            assert(node_views(adds@) =~= before + seq![
                overlay_node(overlays@[i as int].from_node_id@),
                overlay_node(overlays@[i as int].to_node_id@),
            ]);
            assert(node_views(adds@) =~= base_nodes + overlay_node_adds(t));
        }
        i = i + 1;
    }
    proof {
        assert(overlays@.take(i as int) =~= overlays@);
    }
    let out_nodes = collect_nodes(adds);
    let ghost want = merged_edge_adds(base_edges, overlays@);
    let mut all: Vec<LineageEdgeV2> = Vec::new();
    let mut rest = edges;
    let ghost mut k: int = 0;
    while rest.len() > 0
        invariant
            0 <= k <= base_edges.len(),
            rest@ == base_edges.skip(k),
            edge2_views(all@) == want.take(k),
            want == merged_edge_adds(base_edges, overlays@),
        decreases rest.len(),
    {
        let ghost old_rest = rest@;
        let e = rest.remove(0);
        proof {
            assert(old_rest[0] == base_edges[k]);
            assert(rest@ =~= base_edges.skip(k + 1));
        }
        let ghost ev = edge_view(e);
        let ghost before = edge2_views(all@);
        let LineageEdgeV1 { from_node_id, to_node_id, relation, evidence } = e;
        all.push(LineageEdgeV2 { from_node_id, to_node_id, relation, evidence, origin: owned("system") });
        proof {
            assert(want[k] == (ev.0, ev.1, ev.2, ev.3, "system"@));
            assert(edge2_views(all@) =~= before.push(want[k]));
            assert(want.take(k).push(want[k]) =~= want.take(k + 1));
            assert(edge2_views(all@) =~= want.take(k + 1));
            k = k + 1;
        }
    }
    proof {
        assert(k == base_edges.len());
    }
    let mut j: usize = 0;
    while j < overlays.len()
        invariant
            j <= overlays@.len(),
            k == base_edges.len(),
            edge2_views(all@) == want.take(k + j),
            want == merged_edge_adds(base_edges, overlays@),
        decreases overlays.len() - j,
    {
        let o = &overlays[j];
        let ghost before = edge2_views(all@);
        all.push(LineageEdgeV2 {
            from_node_id: o.from_node_id.clone(),
            to_node_id: o.to_node_id.clone(),
            relation: o.relation.clone(),
            evidence: o.evidence.clone(),
            origin: owned("overlay"),
        });
        proof {
            assert(want[k + j] == (o.from_node_id@, o.to_node_id@, o.relation@, o.evidence@, "overlay"@));
            assert(edge2_views(all@) =~= before.push(want[k + j]));
            assert(want.take(k + j).push(want[k + j]) =~= want.take(k + j + 1));
            assert(edge2_views(all@) =~= want.take(k + j + 1));
        }
        j = j + 1;
    }
    proof {
        assert(want.take(k + j) =~= want);
    }
    let out_edges = sort_edges2(all);
    LineageQueryResV2 {
        schema_version: 2,
        seed_doc_id,
        depth,
        generated_at_ms,
        nodes: out_nodes,
        edges: out_edges,
    }
}

} // verus!
