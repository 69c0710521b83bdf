//! Snapshot sync of a vault with a target: the head a target points to,
//! when a push or pull must stop on diverged changes, and the names of
//! snapshots and conflict records.
use vstd::prelude::*;
use crate::app_error::{AppError, AppResult};
use crate::hashing::{blake3_hex_prefixed, blake3_prefixed};
use crate::json::{JsonValue, quote, push_quoted, sfield};
use crate::recovery_escrow::{path_join, join_path};
use crate::text::{owned, push_str, str_eq, i64_decimal, int_decimal, bytes_of, chars_of, string_from_range};

verus! {

/// The snapshot a target's head points to.
#[derive(Debug)]
pub struct SyncHeadV1 {
    pub schema_version: i64,
    pub snapshot_id: String,
    pub manifest_hash: String,
    pub created_at_ms: i64,
}

/// The sync state of a vault against a target.
#[derive(Debug)]
pub struct SyncStatusV1 {
    pub target_path: String,
    pub remote_head: Option<SyncHeadV1>,
    pub seen_remote_snapshot_id: Option<String>,
    pub last_applied_manifest_hash: Option<String>,
}

/// What a push did.
#[derive(Debug)]
pub struct SyncPushResultV1 {
    pub snapshot_id: String,
    pub manifest_hash: String,
    pub remote_head: SyncHeadV1,
}

/// What a pull did.
#[derive(Debug)]
pub struct SyncPullResultV1 {
    pub snapshot_id: String,
    pub manifest_hash: String,
    pub remote_head: SyncHeadV1,
}

/// The record left on the target when a sync stops on diverged changes.
#[derive(Debug)]
pub struct SyncConflictArtifactV1 {
    pub schema_version: i64,
    pub kind: String,
    pub vault_id: String,
    pub now_ms: i64,
    pub local_manifest_hash: String,
    pub remote_head_snapshot_id: Option<String>,
    pub remote_head_manifest_hash: Option<String>,
    pub seen_remote_snapshot_id: Option<String>,
}

pub open spec fn opt_view(o: Option<String>) -> Option<Seq<char>> {
    match o {
        Some(s) => Some(s@),
        None => None,
    }
}

/// Both sides changed: the target's head is not the one last seen, and the
/// local vault is not the one last applied.
pub open spec fn conflict_spec(
    remote_snapshot: Option<Seq<char>>,
    seen: Option<Seq<char>>,
    last_applied: Option<Seq<char>>,
    local_manifest_hash: Seq<char>,
) -> bool {
    let remote_changed = remote_snapshot is Some && seen is Some && remote_snapshot->Some_0 != seen->Some_0;
    let local_changed = last_applied is Some && last_applied->Some_0 != local_manifest_hash;
    remote_changed && local_changed
}

pub open spec fn head_snapshot(h: Option<&SyncHeadV1>) -> Option<Seq<char>> {
    match h {
        Some(x) => Some(x.snapshot_id@),
        None => None,
    }
}

pub open spec fn str_opt(o: Option<&str>) -> Option<Seq<char>> {
    match o {
        Some(x) => Some(x@),
        None => None,
    }
}

/// Whether a sync must stop because both sides changed since it last ran.
pub fn should_conflict(
    remote_head: Option<&SyncHeadV1>,
    seen_remote_snapshot_id: Option<&str>,
    last_applied_manifest_hash: Option<&str>,
    local_manifest_hash: &str,
) -> (r: bool)
    ensures
        r == conflict_spec(head_snapshot(remote_head), str_opt(seen_remote_snapshot_id), str_opt(
            last_applied_manifest_hash,
        ), local_manifest_hash@),
{
    let remote_changed = match (remote_head, seen_remote_snapshot_id) {
        (Some(head), Some(seen)) => !str_eq(head.snapshot_id.as_str(), seen),
        _ => false,
    };
    let local_changed = match last_applied_manifest_hash {
        Some(last) => !str_eq(last, local_manifest_hash),
        None => false,
    };
    remote_changed && local_changed
}

/// The text a snapshot's id is the hash of.
pub open spec fn snapshot_id_text(manifest_hash: Seq<char>, now_ms: int) -> Seq<char> {
    "kc.sync.snapshot.v1\n"@ + manifest_hash + "\n"@ + int_decimal(now_ms)
}

/// The id of the snapshot pushed at `now_ms` with a manifest hash.
pub fn snapshot_id_for(manifest_hash: &str, now_ms: i64) -> (r: String)
    ensures
        r@ == blake3_prefixed(vstd::utf8::encode_utf8(snapshot_id_text(manifest_hash@, now_ms as int))),
{
    let mut s = String::new();
    push_str(&mut s, "kc.sync.snapshot.v1\n");
    push_str(&mut s, manifest_hash);
    push_str(&mut s, "\n");
    let n = i64_decimal(now_ms);
    push_str(&mut s, n.as_str());
    let b = bytes_of(s.as_str());
    blake3_hex_prefixed(b.as_slice())
}

/// The canonical JSON of a head.
pub open spec fn head_text(h: SyncHeadV1) -> Seq<char> {
    "{"@ + quote("created_at_ms"@) + ":"@ + int_decimal(h.created_at_ms as int) + ","@ + quote("manifest_hash"@) + ":"@
        + quote(h.manifest_hash@) + ","@ + quote("schema_version"@) + ":"@ + int_decimal(h.schema_version as int) + ","@
        + quote("snapshot_id"@) + ":"@ + quote(h.snapshot_id@) + "}"@
}

/// The canonical JSON a head is written as.
pub fn head_json(h: &SyncHeadV1) -> (r: String)
    ensures
        r@ == head_text(*h),
{
    let mut s = String::new();
    push_str(&mut s, "{");
    push_quoted(&mut s, "created_at_ms");
    push_str(&mut s, ":");
    let c = i64_decimal(h.created_at_ms);
    push_str(&mut s, c.as_str());
    push_str(&mut s, ",");
    push_quoted(&mut s, "manifest_hash");
    push_str(&mut s, ":");
    push_quoted(&mut s, h.manifest_hash.as_str());
    push_str(&mut s, ",");
    push_quoted(&mut s, "schema_version");
    push_str(&mut s, ":");
    let v = i64_decimal(h.schema_version);
    push_str(&mut s, v.as_str());
    push_str(&mut s, ",");
    push_quoted(&mut s, "snapshot_id");
    push_str(&mut s, ":");
    push_quoted(&mut s, h.snapshot_id.as_str());
    push_str(&mut s, "}");
    s
}

fn push_opt(s: &mut String, o: &Option<String>)
    ensures
        final(s)@ == old(s)@ + match *o {
            Some(x) => quote(x@),
            None => "null"@,
        },
{
    match o {
        Some(x) => push_quoted(s, x.as_str()),
        None => push_str(s, "null"),
    }
}

pub open spec fn opt_text(o: Option<String>) -> Seq<char> {
    match o {
        Some(x) => quote(x@),
        None => "null"@,
    }
}

/// The canonical JSON of a conflict record.
pub open spec fn conflict_text(a: SyncConflictArtifactV1) -> Seq<char> {
    "{"@ + quote("kind"@) + ":"@ + quote(a.kind@) + ","@ + quote("local_manifest_hash"@) + ":"@ + quote(a.local_manifest_hash@)
        + ","@ + quote("now_ms"@) + ":"@ + int_decimal(a.now_ms as int) + ","@ + quote("remote_head_manifest_hash"@) + ":"@
        + opt_text(a.remote_head_manifest_hash) + ","@ + quote("remote_head_snapshot_id"@) + ":"@ + opt_text(
        a.remote_head_snapshot_id,
    ) + ","@ + quote("schema_version"@) + ":"@ + int_decimal(a.schema_version as int) + ","@ + quote(
        "seen_remote_snapshot_id"@,
    ) + ":"@ + opt_text(a.seen_remote_snapshot_id) + ","@ + quote("vault_id"@) + ":"@ + quote(a.vault_id@) + "}"@
}

/// The canonical JSON a conflict record is written as.
pub fn conflict_json(a: &SyncConflictArtifactV1) -> (r: String)
    ensures
        r@ == conflict_text(*a),
{
    let mut s = String::new();
    push_str(&mut s, "{");
    push_quoted(&mut s, "kind");
    push_str(&mut s, ":");
    push_quoted(&mut s, a.kind.as_str());
    push_str(&mut s, ",");
    push_quoted(&mut s, "local_manifest_hash");
    push_str(&mut s, ":");
    push_quoted(&mut s, a.local_manifest_hash.as_str());
    push_str(&mut s, ",");
    push_quoted(&mut s, "now_ms");
    push_str(&mut s, ":");
    let n = i64_decimal(a.now_ms);
    push_str(&mut s, n.as_str());
    push_str(&mut s, ",");
    push_quoted(&mut s, "remote_head_manifest_hash");
    push_str(&mut s, ":");
    push_opt(&mut s, &a.remote_head_manifest_hash);
    push_str(&mut s, ",");
    push_quoted(&mut s, "remote_head_snapshot_id");
    push_str(&mut s, ":");
    push_opt(&mut s, &a.remote_head_snapshot_id);
    push_str(&mut s, ",");
    push_quoted(&mut s, "schema_version");
    push_str(&mut s, ":");
    let v = i64_decimal(a.schema_version);
    push_str(&mut s, v.as_str());
    push_str(&mut s, ",");
    push_quoted(&mut s, "seen_remote_snapshot_id");
    push_str(&mut s, ":");
    push_opt(&mut s, &a.seen_remote_snapshot_id);
    push_str(&mut s, ",");
    push_quoted(&mut s, "vault_id");
    push_str(&mut s, ":");
    push_quoted(&mut s, a.vault_id.as_str());
    push_str(&mut s, "}");
    s
}

/// The record of a conflict found at `now_ms`.
pub fn conflict_artifact(
    vault_id: &str,
    now_ms: i64,
    local_manifest_hash: &str,
    remote_head: Option<&SyncHeadV1>,
    seen_remote_snapshot_id: Option<String>,
) -> (r: SyncConflictArtifactV1)
    ensures
        r.schema_version == 1,
        r.kind@ == "sync_conflict"@,
        r.vault_id@ == vault_id@,
        r.now_ms == now_ms,
        r.local_manifest_hash@ == local_manifest_hash@,
        opt_view(r.remote_head_snapshot_id) == head_snapshot(remote_head),
        opt_view(r.remote_head_manifest_hash) == match remote_head {
            Some(h) => Some(h.manifest_hash@),
            None => None::<Seq<char>>,
        },
        r.seen_remote_snapshot_id == seen_remote_snapshot_id,
{
    SyncConflictArtifactV1 {
        schema_version: 1,
        kind: owned("sync_conflict"),
        vault_id: owned(vault_id),
        now_ms,
        local_manifest_hash: owned(local_manifest_hash),
        remote_head_snapshot_id: match remote_head {
            Some(h) => Some(h.snapshot_id.clone()),
            None => None,
        },
        remote_head_manifest_hash: match remote_head {
            Some(h) => Some(h.manifest_hash.clone()),
            None => None,
        },
        seen_remote_snapshot_id,
    }
}

/// The file a conflict record is written to: `conflicts/conflict_<now>_<id>.json`
/// under the target, `<id>` the first 16 hex digits of the record's hash.
pub open spec fn conflict_path_spec(target_path: Seq<char>, now_ms: int, record: Seq<char>) -> Seq<char> {
    let digest = blake3_prefixed(vstd::utf8::encode_utf8(record)).subrange(7, 71);
    path_join(path_join(target_path, "conflicts"@), "conflict_"@ + int_decimal(now_ms) + "_"@ + digest.subrange(0, 16)
        + ".json"@)
}

/// The path of a conflict record with canonical JSON `record`.
pub fn conflict_path(target_path: &str, now_ms: i64, record: &str) -> (r: String)
    ensures
        r@ == conflict_path_spec(target_path@, now_ms as int, record@),
{
    let b = bytes_of(record);
    let h = blake3_hex_prefixed(b.as_slice());
    let cs = chars_of(h.as_str());
    proof {
        crate::hashing::lemma_hex_lower_shape(crate::hashing::blake3_of(b@));
    }
    let id = string_from_range(&cs, 7, 23);
    proof {
        assert(cs@.subrange(7, 23) =~= cs@.subrange(7, 71).subrange(0, 16));
    }
    let mut name = String::new();
    push_str(&mut name, "conflict_");
    let n = i64_decimal(now_ms);
    push_str(&mut name, n.as_str());
    push_str(&mut name, "_");
    push_str(&mut name, id.as_str());
    push_str(&mut name, ".json");
    let dir = join_path(target_path, "conflicts");
    join_path(dir.as_str(), name.as_str())
}

/// The head a push at `now_ms` writes, with its snapshot id.
pub fn push_head(local_manifest_hash: &str, now_ms: i64) -> (r: SyncHeadV1)
    ensures
        r.schema_version == 1,
        r.snapshot_id@ == blake3_prefixed(vstd::utf8::encode_utf8(snapshot_id_text(local_manifest_hash@, now_ms as int))),
        r.manifest_hash@ == local_manifest_hash@,
        r.created_at_ms == now_ms,
{
    SyncHeadV1 {
        schema_version: 1,
        snapshot_id: snapshot_id_for(local_manifest_hash, now_ms),
        manifest_hash: owned(local_manifest_hash),
        created_at_ms: now_ms,
    }
}

/// The conflict error, naming the record that was left.
pub fn conflict_error(conflict_artifact_path: &str) -> (e: AppError)
    ensures
        e.code@ == "KC_SYNC_CONFLICT"@,
        e.category@ == "sync"@,
{
    AppError::new(
        "KC_SYNC_CONFLICT",
        "sync",
        "remote and local changes diverged; conflict artifact emitted",
        false,
        JsonValue::Object(vec![sfield("conflict_artifact", conflict_artifact_path)]),
    )
}

/// A pull needs a head on the target.
pub fn require_remote_head(remote_head: Option<SyncHeadV1>, target_path: &str) -> (r: AppResult<SyncHeadV1>)
    ensures
        remote_head is Some <==> r is Ok,
        r is Ok ==> r->Ok_0 == remote_head->Some_0,
        r is Err ==> r->Err_0.code@ == "KC_SYNC_TARGET_INVALID"@,
{
    match remote_head {
        Some(h) => Ok(h),
        None => Err(AppError::new(
            "KC_SYNC_TARGET_INVALID",
            "sync",
            "sync target has no head.json",
            false,
            JsonValue::Object(vec![sfield("target_path", target_path)]),
        )),
    }
}

/// The state a vault records after it pushes or pulls a snapshot: the
/// snapshot seen on the target and the manifest applied locally.
pub open spec fn state_after(head_snapshot_id: Seq<char>, manifest_hash: Seq<char>) -> (Option<Seq<char>>, Option<Seq<char>>) {
    (Some(head_snapshot_id), Some(manifest_hash))
}

/// Right after a push or a pull, nothing conflicts: the head written (or
/// read) is the one recorded as seen, so the target has not changed, until
/// someone else pushes.
pub proof fn law_synced_state_does_not_conflict(head_snapshot_id: Seq<char>, manifest_hash: Seq<char>, local: Seq<char>)
    ensures
        !conflict_spec(Some(head_snapshot_id), state_after(head_snapshot_id, manifest_hash).0, state_after(
            head_snapshot_id,
            manifest_hash,
        ).1, local),
{
}

/// Only changes on both sides conflict: with either side unchanged since the
/// last sync, a sync goes ahead.
pub proof fn law_one_sided_change_syncs(remote: Option<Seq<char>>, seen: Option<Seq<char>>, last: Option<Seq<char>>, local: Seq<char>)
    requires
        remote == seen || last == Some(local) || last is None || seen is None || remote is None,
    ensures
        !conflict_spec(remote, seen, last, local),
{
}

/// What a push does: stop and leave a conflict record, or write a new head.
#[derive(Debug)]
pub enum SyncPushPlan {
    Conflict(SyncConflictArtifactV1),
    Push(SyncHeadV1),
}

/// What a pull does: stop and leave a conflict record, or apply the head's
/// snapshot.
#[derive(Debug)]
pub enum SyncPullPlan {
    Conflict(SyncConflictArtifactV1),
    Apply(SyncHeadV1),
}

fn opt_str(o: &Option<String>) -> (r: Option<&str>)
    ensures
        str_opt(r) == opt_view(*o),
{
    match o {
        Some(s) => Some(s.as_str()),
        None => None,
    }
}

/// Decides a push of the local snapshot with manifest hash
/// `local_manifest_hash`, given the target's head and the state recorded by
/// the last sync: a conflict when both sides changed, else the new head.
pub fn plan_sync_push(
    remote_head: Option<&SyncHeadV1>,
    seen_remote_snapshot_id: Option<String>,
    last_applied_manifest_hash: Option<String>,
    local_manifest_hash: &str,
    vault_id: &str,
    now_ms: i64,
) -> (r: SyncPushPlan)
    ensures
        (r is Conflict) == conflict_spec(
            head_snapshot(remote_head),
            opt_view(seen_remote_snapshot_id),
            opt_view(last_applied_manifest_hash),
            local_manifest_hash@,
        ),
        r matches SyncPushPlan::Conflict(a) ==> {
            &&& a.schema_version == 1
            &&& a.kind@ == "sync_conflict"@
            &&& a.vault_id@ == vault_id@
            &&& a.now_ms == now_ms
            &&& a.local_manifest_hash@ == local_manifest_hash@
            &&& opt_view(a.remote_head_snapshot_id) == head_snapshot(remote_head)
            &&& a.seen_remote_snapshot_id == seen_remote_snapshot_id
        },
        r matches SyncPushPlan::Push(h) ==> {
            &&& h.schema_version == 1
            &&& h.snapshot_id@ == blake3_prefixed(
                vstd::utf8::encode_utf8(snapshot_id_text(local_manifest_hash@, now_ms as int)),
            )
            &&& h.manifest_hash@ == local_manifest_hash@
            &&& h.created_at_ms == now_ms
        },
{
    let conflict = should_conflict(
        remote_head,
        opt_str(&seen_remote_snapshot_id),
        opt_str(&last_applied_manifest_hash),
        local_manifest_hash,
    );
    if conflict {
        SyncPushPlan::Conflict(
            conflict_artifact(vault_id, now_ms, local_manifest_hash, remote_head, seen_remote_snapshot_id),
        )
    } else {
        SyncPushPlan::Push(push_head(local_manifest_hash, now_ms))
    }
}

/// Decides a pull of the target's head into a vault whose current snapshot
/// has manifest hash `local_manifest_hash`: refused without a head, a
/// conflict when both sides changed, else the head to apply.
pub fn plan_sync_pull(
    remote_head: Option<SyncHeadV1>,
    seen_remote_snapshot_id: Option<String>,
    last_applied_manifest_hash: Option<String>,
    local_manifest_hash: &str,
    vault_id: &str,
    target_path: &str,
    now_ms: i64,
) -> (r: AppResult<SyncPullPlan>)
    ensures
        r is Err <==> remote_head is None,
        r is Err ==> r->Err_0.code@ == "KC_SYNC_TARGET_INVALID"@,
        remote_head is Some ==> {
            let h = remote_head->Some_0;
            &&& (r->Ok_0 is Conflict) == conflict_spec(
                Some(h.snapshot_id@),
                opt_view(seen_remote_snapshot_id),
                opt_view(last_applied_manifest_hash),
                local_manifest_hash@,
            )
            &&& r->Ok_0 matches SyncPullPlan::Conflict(a) ==> {
                &&& a.vault_id@ == vault_id@
                &&& a.now_ms == now_ms
                &&& a.local_manifest_hash@ == local_manifest_hash@
                &&& opt_view(a.remote_head_snapshot_id) == Some(h.snapshot_id@)
                &&& opt_view(a.remote_head_manifest_hash) == Some(h.manifest_hash@)
                &&& a.seen_remote_snapshot_id == seen_remote_snapshot_id
            }
            &&& r->Ok_0 matches SyncPullPlan::Apply(x) ==> x == h
        },
{
    let head = require_remote_head(remote_head, target_path)?;
    let conflict = should_conflict(
        Some(&head),
        opt_str(&seen_remote_snapshot_id),
        opt_str(&last_applied_manifest_hash),
        local_manifest_hash,
    );
    if conflict {
        Ok(SyncPullPlan::Conflict(
            conflict_artifact(vault_id, now_ms, local_manifest_hash, Some(&head), seen_remote_snapshot_id),
        ))
    } else {
        Ok(SyncPullPlan::Apply(head))
    }
}

/// Where a snapshot lies under the target: `snapshots/<snapshot_id>`.
pub fn snapshot_rel_path(snapshot_id: &str) -> (r: String)
    ensures
        r@ == "snapshots/"@ + snapshot_id@,
{
    let mut s = owned("snapshots/");
    push_str(&mut s, snapshot_id);
    s
}

/// The state a vault records after it pushed or pulled `head`, key by key.
pub fn sync_state_updates(head: &SyncHeadV1) -> (r: Vec<(String, String)>)
    ensures
        r@.len() == 3,
        r@[0].0@ == "sync_remote_head_seen"@ && r@[0].1@ == head.snapshot_id@,
        r@[1].0@ == "sync_last_applied_manifest_hash"@ && r@[1].1@ == head.manifest_hash@,
        r@[2].0@ == "sync_last_applied_snapshot_id"@ && r@[2].1@ == head.snapshot_id@,
{
    vec![
        (owned("sync_remote_head_seen"), owned(head.snapshot_id.as_str())),
        (owned("sync_last_applied_manifest_hash"), owned(head.manifest_hash.as_str())),
        (owned("sync_last_applied_snapshot_id"), owned(head.snapshot_id.as_str())),
    ]
}

} // verus!
