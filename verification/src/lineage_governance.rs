//! Who may change lineage: roles with ranks, the permissions each role
//! grants, and locks on whole scopes (a document or a set).
use vstd::prelude::*;
use crate::app_error::{AppError, AppResult};
use crate::hashing::{blake3_hex_prefixed, blake3_prefixed};
use crate::json::{JsonValue, jstr, jint, field, sfield, ifield, chars_lt, str_order};
use crate::lineage::{LINEAGE_LOCK_LEASE_MS, lock_active};
use crate::text::{blank, is_blank, owned, push_str, i64_decimal, int_decimal, bytes_of, str_eq, trimmed, trim,
    to_ascii_lower, ascii_lower};

verus! {

/// A role granted to a subject.
#[derive(Debug)]
pub struct LineageRoleBindingV2 {
    pub subject_id: String,
    pub role_name: String,
    pub role_rank: i64,
    pub granted_by: String,
    pub granted_at_ms: i64,
}

/// Whether a subject may perform an action, and the role that decided it.
#[derive(Debug)]
pub struct LineagePermissionDecisionV2 {
    pub subject_id: String,
    pub action: String,
    pub allowed: bool,
    pub matched_role: Option<String>,
    pub matched_rank: Option<i64>,
}

/// The lease on a scope lock.
#[derive(Debug)]
pub struct LineageScopeLockLeaseV2 {
    pub scope_kind: String,
    pub scope_value: String,
    pub owner: String,
    pub token: String,
    pub acquired_at_ms: i64,
    pub expires_at_ms: i64,
}

/// The state of a scope lock at a given time.
#[derive(Debug)]
pub struct LineageScopeLockStatusV2 {
    pub scope_kind: String,
    pub scope_value: String,
    pub held: bool,
    pub owner: Option<String>,
    pub acquired_at_ms: Option<i64>,
    pub expires_at_ms: Option<i64>,
    pub expired: bool,
}

/// A stored scope lock.
#[derive(Debug)]
pub struct ScopeLockRow {
    pub owner: String,
    pub token: String,
    pub acquired_at_ms: i64,
    pub expires_at_ms: i64,
}

/// A role of the subject that has a permission entry for the action: the
/// role, its rank, and whether the entry allows (stored as 1).
#[derive(Debug)]
pub struct PermissionMatch {
    pub role_name: String,
    pub role_rank: i64,
    pub allowed: i64,
}

fn governance_error(code: &str, message: &str, details: JsonValue) -> (e: AppError)
    ensures
        e.code@ == code@,
        e.category@ == "lineage"@,
        e.message@ == message@,
        !e.retryable,
        e.details == details,
{
    AppError::new(code, "lineage", message, false, details)
}

/// Refuses a blank field with `code`.
pub fn require_non_empty(name: &str, value: &str, code: &str) -> (r: AppResult<()>)
    ensures
        r is Ok <==> !is_blank(value@),
        r is Err ==> r->Err_0.code@ == code@,
{
    if blank(value) {
        return Err(governance_error(
            code,
            "lineage governance field must not be empty",
            JsonValue::Object(vec![sfield("field", name)]),
        ));
    }
    Ok(())
}

/// Grants `role_name` to `subject_id`, given the rank of the role (`None`
/// where no such role exists). Storing the binding is the caller's.
pub fn lineage_role_grant(
    subject_id: &str,
    role_name: &str,
    granted_by: &str,
    now_ms: i64,
    rank: Option<i64>,
) -> (r: AppResult<LineageRoleBindingV2>)
    ensures
        r is Ok <==> !is_blank(subject_id@) && !is_blank(role_name@) && !is_blank(granted_by@) && rank is Some,
        r is Err ==> r->Err_0.code@ == "KC_LINEAGE_ROLE_INVALID"@,
        r is Ok ==> {
            let b = r->Ok_0;
            &&& b.subject_id@ == subject_id@
            &&& b.role_name@ == role_name@
            &&& b.role_rank == rank->Some_0
            &&& b.granted_by@ == granted_by@
            &&& b.granted_at_ms == now_ms
        },
{
    require_non_empty("subject_id", subject_id, "KC_LINEAGE_ROLE_INVALID")?;
    require_non_empty("role_name", role_name, "KC_LINEAGE_ROLE_INVALID")?;
    require_non_empty("granted_by", granted_by, "KC_LINEAGE_ROLE_INVALID")?;
    match rank {
        None => Err(governance_error(
            "KC_LINEAGE_ROLE_INVALID",
            "lineage role does not exist",
            JsonValue::Object(vec![sfield("role_name", role_name)]),
        )),
        Some(rk) => Ok(LineageRoleBindingV2 {
            subject_id: owned(subject_id),
            role_name: owned(role_name),
            role_rank: rk,
            granted_by: owned(granted_by),
            granted_at_ms: now_ms,
        }),
    }
}

/// Checks a revocation before the binding is deleted: both names set and
/// the role known (`rank`).
pub fn lineage_role_revoke_check(subject_id: &str, role_name: &str, rank: Option<i64>) -> (r: AppResult<()>)
    ensures
        r is Ok <==> !is_blank(subject_id@) && !is_blank(role_name@) && rank is Some,
        r is Err ==> r->Err_0.code@ == "KC_LINEAGE_ROLE_INVALID"@,
{
    require_non_empty("subject_id", subject_id, "KC_LINEAGE_ROLE_INVALID")?;
    require_non_empty("role_name", role_name, "KC_LINEAGE_ROLE_INVALID")?;
    if rank.is_none() {
        return Err(governance_error(
            "KC_LINEAGE_ROLE_INVALID",
            "lineage role does not exist",
            JsonValue::Object(vec![sfield("role_name", role_name)]),
        ));
    }
    Ok(())
}

/// Revokes `role_name` from `subject_id`: the check above, then `removed`,
/// the number of bindings deleted, must not be zero.
pub fn lineage_role_revoke(subject_id: &str, role_name: &str, rank: Option<i64>, removed: u64) -> (r: AppResult<()>)
    ensures
        r is Ok <==> !is_blank(subject_id@) && !is_blank(role_name@) && rank is Some && removed > 0,
        r is Err ==> r->Err_0.code@ == "KC_LINEAGE_ROLE_INVALID"@,
{
    lineage_role_revoke_check(subject_id, role_name, rank)?;
    if removed == 0 {
        return Err(governance_error(
            "KC_LINEAGE_ROLE_INVALID",
            "lineage role binding does not exist",
            JsonValue::Object(vec![sfield("subject_id", subject_id), sfield("role_name", role_name)]),
        ));
    }
    Ok(())
}

/// Role `a` decides before role `b`: lower rank first, then by name.
pub open spec fn match_before(a: PermissionMatch, b: PermissionMatch) -> bool {
    a.role_rank < b.role_rank || (a.role_rank == b.role_rank && !chars_lt(b.role_name@, a.role_name@))
}

/// `ms[i]` decides: no match comes strictly before it.
pub open spec fn decides(ms: Seq<PermissionMatch>, i: int) -> bool {
    &&& 0 <= i < ms.len()
    &&& forall|j: int| 0 <= j < ms.len() ==> match_before(ms[i], #[trigger] ms[j])
}

/// Decides whether `subject_id` may perform `action`, given the subject's
/// roles that have an entry for the action (`matches`): the role with the
/// lowest rank (then the first name) decides; with none, the answer is no.
pub fn lineage_permission_decision(subject_id: &str, action: &str, matches: &Vec<PermissionMatch>) -> (r: AppResult<LineagePermissionDecisionV2>)
    ensures
        r is Ok <==> !is_blank(subject_id@) && !is_blank(action@),
        r is Err ==> r->Err_0.code@ == "KC_LINEAGE_PERMISSION_DENIED"@,
        r is Ok ==> {
            let d = r->Ok_0;
            &&& d.subject_id@ == subject_id@
            &&& d.action@ == action@
            &&& matches@.len() == 0 ==> !d.allowed && d.matched_role is None && d.matched_rank is None
            &&& matches@.len() > 0 ==> exists|i: int| decides(matches@, i) && d.allowed == (matches@[i].allowed == 1)
                && d.matched_role is Some && d.matched_role->Some_0@ == matches@[i].role_name@
                && d.matched_rank == Some(matches@[i].role_rank)
            &&& matches@.len() > 0 ==> d.matched_rank is Some && d.matched_role is Some && (forall|j: int|
                0 <= j < matches@.len() ==> d.matched_rank->Some_0 <= #[trigger] matches@[j].role_rank && (
                matches@[j].role_rank == d.matched_rank->Some_0 ==> !chars_lt(
                    matches@[j].role_name@,
                    d.matched_role->Some_0@,
                )))
        },
{
    require_non_empty("subject_id", subject_id, "KC_LINEAGE_PERMISSION_DENIED")?;
    require_non_empty("action", action, "KC_LINEAGE_PERMISSION_DENIED")?;
    if matches.len() == 0 {
        return Ok(LineagePermissionDecisionV2 {
            subject_id: owned(subject_id),
            action: owned(action),
            allowed: false,
            matched_role: None,
            matched_rank: None,
        });
    }
    let mut best: usize = 0;
    let mut i: usize = 1;
    proof {
        crate::json::lemma_chars_lt_irreflexive(matches@[0].role_name@);
    }
    while i < matches.len()
        invariant
            matches@.len() > 0,
            best < i <= matches@.len(),
            forall|j: int| 0 <= j < i ==> match_before(matches@[best as int], #[trigger] matches@[j]),
        decreases matches.len() - i,
    {
        let a = &matches[best];
        let b = &matches[i];
        let earlier = b.role_rank < a.role_rank || (b.role_rank == a.role_rank && str_order(
            b.role_name.as_str(),
            a.role_name.as_str(),
        ) < 0);
        proof {
            crate::json::lemma_chars_lt_total(a.role_name@, b.role_name@);
            crate::json::lemma_chars_lt_irreflexive(a.role_name@);
            crate::json::lemma_chars_lt_irreflexive(b.role_name@);
            if chars_lt(b.role_name@, a.role_name@) {
                crate::json::lemma_chars_lt_asym(b.role_name@, a.role_name@);
            }
        }
        if earlier {
            proof {
                assert forall|j: int| 0 <= j <= i implies match_before(matches@[i as int], #[trigger] matches@[j]) by {
                    if j < i {
                        let c = matches@[j];
                        if a.role_rank == c.role_rank && b.role_rank == a.role_rank {
                            if chars_lt(c.role_name@, b.role_name@) {
                                crate::json::lemma_chars_lt_trans(c.role_name@, b.role_name@, a.role_name@);
                            }
                        }
                    }
                }
            }
            best = i;
        }
        i = i + 1;
    }
    let m = &matches[best];
    proof {
        assert(decides(matches@, best as int));
    }
    Ok(LineagePermissionDecisionV2 {
        subject_id: owned(subject_id),
        action: owned(action),
        allowed: m.allowed == 1,
        matched_role: Some(m.role_name.clone()),
        matched_rank: Some(m.role_rank),
    })
}

/// Turns a decision into an outcome: allowed, or refused with the decision
/// in the error's details.
pub fn ensure_lineage_permission(decision: &LineagePermissionDecisionV2, doc_id: Option<&str>) -> (r: AppResult<()>)
    ensures
        r is Ok <==> decision.allowed,
        r is Err ==> r->Err_0.code@ == "KC_LINEAGE_PERMISSION_DENIED"@,
{
    if decision.allowed {
        return Ok(());
    }
    let doc = match doc_id {
        Some(d) => jstr(d),
        None => JsonValue::Null,
    };
    let rank = match decision.matched_rank {
        Some(k) => jint(k),
        None => JsonValue::Null,
    };
    Err(governance_error(
        "KC_LINEAGE_PERMISSION_DENIED",
        "lineage action is not allowed for subject",
        JsonValue::Object(vec![
            sfield("subject_id", decision.subject_id.as_str()),
            sfield("action", decision.action.as_str()),
            field("doc_id", doc),
            field("matched_role", crate::json::jopt_str(&decision.matched_role)),
            field("matched_rank", rank),
        ]),
    ))
}

/// The scope kinds a lock can name.
pub open spec fn scope_kind_ok(kind: Seq<char>) -> bool {
    kind == "doc"@ || kind == "set"@
}

/// Normalizes a scope: the kind trimmed and lowercased (ASCII), the value
/// trimmed. The kind must be `doc` or `set`, and the value must not be empty.
pub fn normalize_scope(scope_kind: &str, scope_value: &str) -> (r: AppResult<(String, String)>)
    ensures
        r is Ok <==> scope_kind_ok(ascii_lower(trim(scope_kind@))) && trim(scope_value@).len() > 0,
        r is Err ==> r->Err_0.code@ == "KC_LINEAGE_SCOPE_INVALID"@,
        r is Ok ==> r->Ok_0.0@ == ascii_lower(trim(scope_kind@)) && r->Ok_0.1@ == trim(scope_value@),
{
    let t = trimmed(scope_kind);
    let kind = to_ascii_lower(t.as_str());
    let value = trimmed(scope_value);
    proof {
        reveal_strlit("doc");
        reveal_strlit("set");
    }
    if !str_eq(kind.as_str(), "doc") && !str_eq(kind.as_str(), "set") {
        return Err(governance_error(
            "KC_LINEAGE_SCOPE_INVALID",
            "unsupported lineage lock scope kind",
            JsonValue::Object(vec![
                sfield("scope_kind", scope_kind),
                field("supported", JsonValue::Array(vec![jstr("doc"), jstr("set")])),
            ]),
        ));
    }
    if value.as_str().is_empty() {
        return Err(governance_error(
            "KC_LINEAGE_SCOPE_INVALID",
            "lineage lock scope value must not be empty",
            JsonValue::Object(vec![sfield("scope_kind", kind.as_str())]),
        ));
    }
    Ok((kind, value))
}

/// The text the token of a scope lease is the hash of.
pub open spec fn scope_lock_token_text(kind: Seq<char>, value: Seq<char>, owner: Seq<char>, now_ms: int) -> Seq<char> {
    "kc.lineage.scope-lock.v2\n"@ + kind + "\n"@ + value + "\n"@ + owner + "\n"@ + int_decimal(now_ms)
}

/// The token of the lease `owner` acquires on a scope at `now_ms`.
pub fn scope_lock_token_for(scope_kind: &str, scope_value: &str, owner: &str, now_ms: i64) -> (r: String)
    ensures
        r@ == blake3_prefixed(vstd::utf8::encode_utf8(scope_lock_token_text(scope_kind@, scope_value@, owner@, now_ms as int))),
{
    let mut s = String::new();
    push_str(&mut s, "kc.lineage.scope-lock.v2\n");
    push_str(&mut s, scope_kind);
    push_str(&mut s, "\n");
    push_str(&mut s, scope_value);
    push_str(&mut s, "\n");
    push_str(&mut s, owner);
    push_str(&mut s, "\n");
    let n = i64_decimal(now_ms);
    push_str(&mut s, n.as_str());
    let b = bytes_of(s.as_str());
    blake3_hex_prefixed(b.as_slice())
}

/// A stored scope lock that has not expired at `now_ms`.
pub open spec fn scope_lock_active(row: Option<ScopeLockRow>, now_ms: int) -> bool {
    row is Some && row->Some_0.expires_at_ms > now_ms
}

/// Acquires the lock on a scope for `owner`, given the lock stored for the
/// normalized scope. The owner must be named and the scope valid; a lock
/// someone holds is refused, an expired one taken over.
pub fn lineage_lock_acquire_scope(
    scope_kind: &str,
    scope_value: &str,
    owner: &str,
    now_ms: i64,
    current: &Option<ScopeLockRow>,
) -> (r: AppResult<LineageScopeLockLeaseV2>)
    requires
        now_ms + LINEAGE_LOCK_LEASE_MS <= i64::MAX,
    ensures
        r is Ok <==> !is_blank(owner@) && scope_kind_ok(ascii_lower(trim(scope_kind@))) && trim(scope_value@).len() > 0
            && !scope_lock_active(*current, now_ms as int),
        is_blank(owner@) ==> r is Err && r->Err_0.code@ == "KC_LINEAGE_LOCK_INVALID"@,
        !is_blank(owner@) && !(scope_kind_ok(ascii_lower(trim(scope_kind@))) && trim(scope_value@).len() > 0)
            ==> r is Err && r->Err_0.code@ == "KC_LINEAGE_SCOPE_INVALID"@,
        !is_blank(owner@) && scope_kind_ok(ascii_lower(trim(scope_kind@))) && trim(scope_value@).len() > 0
            && scope_lock_active(*current, now_ms as int) ==> r is Err && r->Err_0.code@ == "KC_LINEAGE_LOCK_HELD"@,
        r is Ok ==> {
            let l = r->Ok_0;
            &&& l.scope_kind@ == ascii_lower(trim(scope_kind@))
            &&& l.scope_value@ == trim(scope_value@)
            &&& l.owner@ == owner@
            &&& l.token@ == blake3_prefixed(vstd::utf8::encode_utf8(
                scope_lock_token_text(l.scope_kind@, l.scope_value@, owner@, now_ms as int),
            ))
            &&& l.acquired_at_ms == now_ms
            &&& l.expires_at_ms == now_ms + LINEAGE_LOCK_LEASE_MS
        },
{
    require_non_empty("owner", owner, "KC_LINEAGE_LOCK_INVALID")?;
    let (kind, value) = normalize_scope(scope_kind, scope_value)?;
    if let Some(lock) = current {
        if lock.expires_at_ms > now_ms {
            return Err(governance_error(
                "KC_LINEAGE_LOCK_HELD",
                "lineage scoped lock is already held",
                JsonValue::Object(vec![
                    sfield("scope_kind", kind.as_str()),
                    sfield("scope_value", value.as_str()),
                    sfield("owner", lock.owner.as_str()),
                    ifield("expires_at_ms", lock.expires_at_ms),
                ]),
            ));
        }
    }
    let token = scope_lock_token_for(kind.as_str(), value.as_str(), owner, now_ms);
    Ok(LineageScopeLockLeaseV2 {
        scope_kind: kind,
        scope_value: value,
        owner: owned(owner),
        token,
        acquired_at_ms: now_ms,
        expires_at_ms: now_ms + LINEAGE_LOCK_LEASE_MS,
    })
}

/// Releases the lock on a scope, given the lock stored for the normalized
/// scope: it must exist and `token` must be its own.
/// Whether `token` releases the stored scope lock: there is one and it was
/// written with that token.
pub open spec fn scope_release_allowed(current: Option<ScopeLockRow>, token: Seq<char>) -> bool {
    current is Some && current->Some_0.token@ == token
}

pub fn lineage_lock_release_scope(scope_kind: &str, scope_value: &str, token: &str, current: &Option<ScopeLockRow>) -> (r: AppResult<()>)
    ensures
        r is Ok <==> scope_kind_ok(ascii_lower(trim(scope_kind@))) && trim(scope_value@).len() > 0
            && scope_release_allowed(*current, token@),
        !(scope_kind_ok(ascii_lower(trim(scope_kind@))) && trim(scope_value@).len() > 0)
            ==> r is Err && r->Err_0.code@ == "KC_LINEAGE_SCOPE_INVALID"@,
        scope_kind_ok(ascii_lower(trim(scope_kind@))) && trim(scope_value@).len() > 0 && r is Err
            ==> r->Err_0.code@ == "KC_LINEAGE_LOCK_INVALID"@,
{
    let (kind, value) = normalize_scope(scope_kind, scope_value)?;
    match current {
        None => Err(governance_error(
            "KC_LINEAGE_LOCK_INVALID",
            "lineage scoped lock does not exist",
            JsonValue::Object(vec![sfield("scope_kind", kind.as_str()), sfield("scope_value", value.as_str())]),
        )),
        Some(lock) => {
            if !str_eq(lock.token.as_str(), token) {
                return Err(governance_error(
                    "KC_LINEAGE_LOCK_INVALID",
                    "lineage scoped lock token is invalid",
                    JsonValue::Object(vec![sfield("scope_kind", kind.as_str()), sfield("scope_value", value.as_str())]),
                ));
            }
            Ok(())
        },
    }
}

/// The status of a scope lock at `now_ms`, given the lock stored for the
/// normalized scope.
pub fn lineage_lock_scope_status(scope_kind: &str, scope_value: &str, now_ms: i64, current: &Option<ScopeLockRow>) -> (r: AppResult<LineageScopeLockStatusV2>)
    ensures
        r is Ok <==> scope_kind_ok(ascii_lower(trim(scope_kind@))) && trim(scope_value@).len() > 0,
        r is Err ==> r->Err_0.code@ == "KC_LINEAGE_SCOPE_INVALID"@,
        r is Ok ==> {
            let st = r->Ok_0;
            &&& st.scope_kind@ == ascii_lower(trim(scope_kind@))
            &&& st.scope_value@ == trim(scope_value@)
            &&& st.held == scope_lock_active(*current, now_ms as int)
            &&& st.expired == (current is Some && current->Some_0.expires_at_ms <= now_ms)
            &&& current is None ==> st.owner is None && st.acquired_at_ms is None && st.expires_at_ms is None
            &&& current is Some ==> st.owner is Some && st.owner->Some_0@ == current->Some_0.owner@
                && st.acquired_at_ms == Some(current->Some_0.acquired_at_ms)
                && st.expires_at_ms == Some(current->Some_0.expires_at_ms)
        },
{
    let (kind, value) = normalize_scope(scope_kind, scope_value)?;
    match current {
        None => Ok(LineageScopeLockStatusV2 {
            scope_kind: kind,
            scope_value: value,
            held: false,
            owner: None,
            acquired_at_ms: None,
            expires_at_ms: None,
            expired: false,
        }),
        Some(lock) => {
            let expired = lock.expires_at_ms <= now_ms;
            Ok(LineageScopeLockStatusV2 {
                scope_kind: kind,
                scope_value: value,
                held: !expired,
                owner: Some(lock.owner.clone()),
                acquired_at_ms: Some(lock.acquired_at_ms),
                expires_at_ms: Some(lock.expires_at_ms),
                expired,
            })
        },
    }
}

/// The deciding role is the same whichever order the roles are listed in:
/// two deciding entries have the same rank and role name.
pub proof fn law_deciding_role_is_unique(ms: Seq<PermissionMatch>, i: int, j: int)
    requires
        decides(ms, i),
        decides(ms, j),
    ensures
        ms[i].role_rank == ms[j].role_rank,
        ms[i].role_name@ == ms[j].role_name@,
{
    assert(match_before(ms[i], ms[j]));
    assert(match_before(ms[j], ms[i]));
    crate::json::lemma_chars_lt_total(ms[i].role_name@, ms[j].role_name@);
}

/// The stored lock that a scope lease was written as.
pub open spec fn scope_row_of_lease(row: ScopeLockRow, lease: LineageScopeLockLeaseV2) -> bool {
    &&& row.owner@ == lease.owner@
    &&& row.token@ == lease.token@
    &&& row.acquired_at_ms == lease.acquired_at_ms
    &&& row.expires_at_ms == lease.expires_at_ms
}

/// A written scope lease holds its scope for its whole term and no longer:
/// within the term the lock shows as held (so no one else acquires it) and
/// the lease's token releases it; from its expiry on the lock is free again.
pub proof fn law_scope_lease_holds_lock(row: ScopeLockRow, lease: LineageScopeLockLeaseV2, t: int)
    requires
        scope_row_of_lease(row, lease),
    ensures
        lease.acquired_at_ms <= t < lease.expires_at_ms ==> scope_lock_active(Some(row), t),
        lease.expires_at_ms <= t ==> !scope_lock_active(Some(row), t),
        scope_release_allowed(Some(row), lease.token@),
{
}

/// The deciding role has the lowest rank of all the subject's matching
/// roles; its name only breaks ties between equal ranks: no matching role
/// has a lower rank, nor an equal rank and a name sorting before it.
pub proof fn law_lowest_rank_decides(ms: Seq<PermissionMatch>, i: int, j: int)
    requires
        decides(ms, i),
        0 <= j < ms.len(),
    ensures
        ms[i].role_rank <= ms[j].role_rank,
        ms[j].role_rank == ms[i].role_rank ==> !chars_lt(ms[j].role_name@, ms[i].role_name@),
{
    assert(match_before(ms[i], ms[j]));
}

} // verus!
