//! The service layer's own rules: the results it reports, which passphrase
//! paths apply, the media type of a file, the active ingest jobs, and the
//! status of a vault's encryption.
use vstd::prelude::*;
use crate::app_error::{AppError, AppResult};
use crate::hashing::{blake3_hex_prefixed, blake3_prefixed};
use crate::json::{JsonValue, JAtom, chars_lt, str_order, sfield, ifield, flat_obj, lemma_flat_obj};
use crate::object_store::ObjectStore;
use crate::recovery_escrow::{path_join, join_path};
use crate::db::last_index;
use crate::text::{owned, push_str, str_eq, chars_of, string_from_range, i64_decimal, int_decimal, bytes_of, trimmed,
    trim, contains, contains_seq, to_lowercase, unicode_lower};
use crate::vault::{VaultJsonV2, vault_paths};

verus! {

/// The identity of an opened vault.
#[derive(Debug, Clone)]
pub struct VaultSummary {
    pub vault_id: String,
    pub vault_slug: String,
}

/// An event as listed.
#[derive(Debug, Clone)]
pub struct EventItem {
    pub event_id: i64,
    pub ts_ms: i64,
    pub event_type: String,
}

/// The job started for an inbox file, and the document it ingested.
#[derive(Debug, Clone)]
pub struct IngestInboxStartResult {
    pub job_id: String,
    pub doc_id: String,
}

/// The object encryption state of a vault.
#[derive(Debug, Clone)]
pub struct VaultEncryptionStatus {
    pub enabled: bool,
    pub mode: String,
    pub key_reference: Option<String>,
    pub kdf_algorithm: String,
    pub objects_total: i64,
    pub objects_encrypted: i64,
}

/// What migrating objects to encryption did.
#[derive(Debug, Clone)]
pub struct VaultEncryptionMigrateResult {
    pub status: VaultEncryptionStatus,
    pub migrated_objects: i64,
    pub already_encrypted_objects: i64,
    pub event_id: i64,
}

/// The recovery state of a vault.
#[derive(Debug, Clone)]
pub struct VaultRecoveryStatus {
    pub vault_id: String,
    pub encryption_enabled: bool,
    pub last_bundle_path: Option<String>,
}

/// A recovery bundle that was written: where it is, the phrase that opens
/// it, and its manifest as JSON.
#[derive(Debug)]
pub struct VaultRecoveryGenerateResult {
    pub bundle_path: String,
    pub recovery_phrase: String,
    pub manifest: JsonValue,
}

/// The manifest of a recovery bundle that was checked, as JSON.
#[derive(Debug)]
pub struct VaultRecoveryVerifyResult {
    pub manifest: JsonValue,
}

/// Whether a vault's database is encrypted and unlocked.
#[derive(Debug, Clone)]
pub struct VaultDbLockStatus {
    pub db_encryption_enabled: bool,
    pub unlocked: bool,
    pub mode: String,
    pub key_reference: Option<String>,
}

/// The database encryption state of a vault.
#[derive(Debug, Clone)]
pub struct VaultDbEncryptStatus {
    pub enabled: bool,
    pub mode: String,
    pub key_reference: Option<String>,
    pub unlocked: bool,
}

/// What migrating a database to encryption did.
#[derive(Debug, Clone)]
pub struct VaultDbEncryptMigrateResult {
    pub status: VaultDbEncryptStatus,
    pub outcome: String,
    pub event_id: i64,
}

/// The database encryption settings of a vault.
#[derive(Debug, Clone)]
pub struct VaultDbEncryptionConfig {
    pub enabled: bool,
    pub mode: String,
    pub key_reference: Option<String>,
    pub kdf_algorithm: String,
}

// ---------------------------------------------------------------------------
// Active jobs
// ---------------------------------------------------------------------------

/// The ingest jobs running in this process, in order, each once.
#[derive(Debug)]
pub struct ActiveJobs {
    pub jobs: Vec<String>,
}

pub open spec fn job_views(s: Seq<String>) -> Seq<Seq<char>> {
    s.map_values(|j: String| j@)
}

/// A job that sorts strictly between the jobs around position `p` is not
/// among them.
proof fn lemma_job_absent(s: Seq<Seq<char>>, job: Seq<char>, p: int)
    requires
        crate::json::strictly_sorted(s),
        0 <= p <= s.len(),
        forall|q: int| 0 <= q < p ==> chars_lt(#[trigger] s[q], job),
        p < s.len() ==> chars_lt(job, s[p]),
    ensures
        !s.contains(job),
{
    assert forall|q: int| 0 <= q < s.len() implies s[q] != job by {
        if q < p {
            crate::json::lemma_chars_lt_irreflexive(job);
        } else if q > p {
            assert(chars_lt(s[p], s[q]));
            crate::json::lemma_chars_lt_trans(job, s[p], s[q]);
            crate::json::lemma_chars_lt_irreflexive(job);
        } else {
            crate::json::lemma_chars_lt_irreflexive(job);
        }
    }
}

impl ActiveJobs {
    /// The jobs are strictly ordered.
    pub open spec fn wf(&self) -> bool {
        crate::json::strictly_sorted(job_views(self.jobs@))
    }

    /// The set of running jobs.
    pub open spec fn view(&self) -> Set<Seq<char>> {
        job_views(self.jobs@).to_set()
    }

    /// No job running.
    pub fn new() -> (r: Self)
        ensures
            r.wf(),
            r.view() == Set::<Seq<char>>::empty(),
    {
        let r = ActiveJobs { jobs: Vec::new() };
        proof {
            assert(job_views(r.jobs@) =~= Seq::<Seq<char>>::empty());
        }
        r
    }

    fn position(&self, job: &str) -> (r: (usize, bool))
        requires
            self.wf(),
        ensures
            r.0 <= self.jobs@.len(),
            forall|q: int| 0 <= q < r.0 ==> chars_lt(#[trigger] job_views(self.jobs@)[q], job@),
            r.1 <==> (r.0 < self.jobs@.len() && self.jobs@[r.0 as int]@ == job@),
            !r.1 ==> r.0 < self.jobs@.len() ==> chars_lt(job@, self.jobs@[r.0 as int]@),
    {
        let mut p: usize = 0;
        while p < self.jobs.len()
            invariant
                p <= self.jobs@.len(),
                forall|q: int| 0 <= q < p ==> chars_lt(#[trigger] job_views(self.jobs@)[q], job@),
            decreases self.jobs.len() - p,
        {
            let k = str_order(self.jobs[p].as_str(), job);
            if k == 0 {
                return (p, true);
            }
            if k > 0 {
                return (p, false);
            }
            p = p + 1;
        }
        (p, false)
    }

    /// Whether a job is running.
    pub fn contains(&self, job: &str) -> (r: bool)
        requires
            self.wf(),
        ensures
            r == self.view().contains(job@),
    {
        let (p, found) = self.position(job);
        proof {
            let s = job_views(self.jobs@);
            if found {
                assert(s[p as int] == job@);
            } else {
                if p < s.len() {
                    assert(s[p as int] == self.jobs@[p as int]@);
                }
                lemma_job_absent(s, job@, p as int);
            }
        }
        found
    }

    /// Starts tracking a job.
    pub fn insert(&mut self, job: &str)
        requires
            old(self).wf(),
        ensures
            final(self).wf(),
            final(self).view() == old(self).view().insert(job@),
    {
        let (p, found) = self.position(job);
        let ghost s = job_views(self.jobs@);
        if found {
            proof {
                assert(s[p as int] == job@);
                assert(s.to_set().insert(job@) =~= s.to_set());
            }
            return;
        }
        self.jobs.insert(p, owned(job));
        proof {
            let t = job_views(self.jobs@);
            assert(t =~= s.insert(p as int, job@));
            assert forall|a: int, b: int| 0 <= a < b < t.len() implies chars_lt(#[trigger] t[a], #[trigger] t[b]) by {
                if b < p {
                    assert(t[a] == s[a] && t[b] == s[b]);
                } else if b == p {
                    assert(t[a] == s[a]);
                } else if a < p {
                    assert(t[a] == s[a] && t[b] == s[b - 1]);
                    assert(s[p as int] == old(self).jobs@[p as int]@);
                    assert(chars_lt(job@, s[p as int]));
                    if b - 1 > p {
                        assert(chars_lt(s[p as int], s[b - 1]));
                        crate::json::lemma_chars_lt_trans(job@, s[p as int], s[b - 1]);
                    }
                    assert(chars_lt(s[a], job@));
                    crate::json::lemma_chars_lt_trans(s[a], job@, s[b - 1]);
                } else if a == p {
                    assert(t[b] == s[b - 1]);
                    assert(s[p as int] == old(self).jobs@[p as int]@);
                    assert(chars_lt(job@, s[p as int]));
                    if b - 1 > p {
                        assert(chars_lt(s[p as int], s[b - 1]));
                        crate::json::lemma_chars_lt_trans(job@, s[p as int], s[b - 1]);
                    }
                } else {
                    assert(t[a] == s[a - 1] && t[b] == s[b - 1]);
                }
            }
            assert forall|x: Seq<char>| t.to_set().contains(x) <==> s.to_set().insert(job@).contains(x) by {
                if t.contains(x) {
                    let i = choose|i: int| 0 <= i < t.len() && t[i] == x;
                    if i != p {
                        let i0 = if i < p { i } else { i - 1 };
                        assert(t[i] == s[i0]);
                    }
                }
                if s.contains(x) {
                    let i = choose|i: int| 0 <= i < s.len() && s[i] == x;
                    let i1 = if i < p { i } else { i + 1 };
                    assert(t[i1] == s[i]);
                }
                if x == job@ {
                    assert(t[p as int] == job@);
                }
            }
            assert(t.to_set() =~= s.to_set().insert(job@));
        }
    }

    /// Stops tracking a job; whether it was running.
    pub fn remove(&mut self, job: &str) -> (r: bool)
        requires
            old(self).wf(),
        ensures
            final(self).wf(),
            r == old(self).view().contains(job@),
            final(self).view() == old(self).view().remove(job@),
    {
        let (p, found) = self.position(job);
        let ghost s = job_views(self.jobs@);
        if !found {
            proof {
                if p < s.len() {
                    assert(s[p as int] == self.jobs@[p as int]@);
                }
                lemma_job_absent(s, job@, p as int);
                assert(!s.to_set().contains(job@));
                assert(s.to_set().remove(job@) =~= s.to_set());
            }
            return false;
        }
        self.jobs.remove(p);
        proof {
            let t = job_views(self.jobs@);
            assert(t =~= s.remove(p as int));
            assert forall|a: int, b: int| 0 <= a < b < t.len() implies chars_lt(#[trigger] t[a], #[trigger] t[b]) by {
                let a0 = if a < p { a } else { a + 1 };
                let b0 = if b < p { b } else { b + 1 };
                assert(t[a] == s[a0] && t[b] == s[b0]);
            }
            assert forall|x: Seq<char>| t.to_set().contains(x) <==> s.to_set().remove(job@).contains(x) by {
                if t.contains(x) {
                    let i = choose|i: int| 0 <= i < t.len() && t[i] == x;
                    let i0 = if i < p { i } else { i + 1 };
                    assert(t[i] == s[i0]);
                    assert(i0 != p);
                    assert(s[p as int] == job@);
                    if i0 < p {
                        assert(chars_lt(s[i0], s[p as int]));
                        crate::json::lemma_chars_lt_asym(s[i0], s[p as int]);
                    } else {
                        assert(chars_lt(s[p as int], s[i0]));
                        crate::json::lemma_chars_lt_asym(s[p as int], s[i0]);
                    }
                }
                if s.contains(x) && x != job@ {
                    let i = choose|i: int| 0 <= i < s.len() && s[i] == x;
                    assert(i != p);
                    let i1 = if i < p { i } else { i - 1 };
                    assert(t[i1] == s[i]);
                }
            }
            assert(t.to_set() =~= s.to_set().remove(job@));
            assert(s[p as int] == job@);
            assert(s.to_set().contains(job@));
        }
        true
    }

    /// The running jobs, in order.
    pub fn list(&self) -> (r: Vec<String>)
        requires
            self.wf(),
        ensures
            job_views(r@) == job_views(self.jobs@),
    {
        let mut out: Vec<String> = Vec::new();
        let mut i: usize = 0;
        while i < self.jobs.len()
            invariant
                i <= self.jobs@.len(),
                out@.len() == i,
                forall|k: int| 0 <= k < i ==> #[trigger] out@[k]@ == self.jobs@[k]@,
            decreases self.jobs.len() - i,
        {
            let o = owned(self.jobs[i].as_str());
            out.push(o);
            i = i + 1;
        }
        proof {
            assert(job_views(out@) =~= job_views(self.jobs@));
        }
        out
    }
}

/// A job that was started is running until it is stopped, and stopping it
/// reports that it was running.
pub proof fn law_job_start_stop(jobs: Set<Seq<char>>, job: Seq<char>)
    ensures
        jobs.insert(job).contains(job),
        !jobs.insert(job).remove(job).contains(job),
        jobs.insert(job).remove(job) == jobs.remove(job),
{
    assert(jobs.insert(job).remove(job) =~= jobs.remove(job));
}

/// The text a job's id is taken of.
pub open spec fn job_id_text(doc_id: Seq<char>, now_ms: int) -> Seq<char> {
    doc_id + "\n"@ + int_decimal(now_ms)
}

/// The id of the job that ingested a document from the inbox at `now_ms`.
pub fn inbox_job_id(doc_id: &str, now_ms: i64) -> (r: String)
    ensures
        r@ == "inbox:"@ + blake3_prefixed(vstd::utf8::encode_utf8(job_id_text(doc_id@, now_ms as int))),
{
    let mut s = String::new();
    push_str(&mut s, doc_id);
    push_str(&mut s, "\n");
    let n = i64_decimal(now_ms);
    push_str(&mut s, n.as_str());
    let b = bytes_of(s.as_str());
    let h = blake3_hex_prefixed(b.as_slice());
    let mut out = String::new();
    push_str(&mut out, "inbox:");
    push_str(&mut out, h.as_str());
    out
}

// ---------------------------------------------------------------------------
// Paths and files
// ---------------------------------------------------------------------------

/// Where a vault keeps the path of its last recovery bundle.
pub fn recovery_state_file(vault_path: &str) -> (r: String)
    ensures
        r@ == path_join(vault_path@, ".kc_recovery_last_path"@),
{
    join_path(vault_path, ".kc_recovery_last_path")
}

/// The bundle path a recovery state file holds: its trimmed text, where
/// any is left (`None` where it could not be read).
pub fn recovery_state_value(content: &Option<String>) -> (r: Option<String>)
    ensures
        content is None ==> r is None,
        content is Some ==> (r is Some <==> trim(content->Some_0@).len() > 0),
        r is Some ==> r->Some_0@ == trim(content->Some_0@),
{
    match content {
        None => None,
        Some(c) => {
            let t = trimmed(c.as_str());
            if t.as_str().is_empty() {
                None
            } else {
                Some(t)
            }
        },
    }
}

/// The extension of a path's file name: the part after its last `.`,
/// where that `.` is not the name's first character.
pub open spec fn extension_of(p: Seq<char>) -> Option<Seq<char>> {
    let slash = last_index(p, '/');
    let dot = last_index(p, '.');
    if dot > slash + 1 {
        Some(p.subrange(dot + 1, p.len() as int))
    } else {
        None
    }
}

/// The media type of a file, from its extension.
pub open spec fn mime_of(p: Seq<char>) -> Seq<char> {
    let e = match extension_of(p) {
        Some(x) => x,
        None => Seq::empty(),
    };
    if e == "md"@ {
        "text/markdown"@
    } else if e == "html"@ || e == "htm"@ {
        "text/html"@
    } else if e == "pdf"@ {
        "application/pdf"@
    } else if e == "txt"@ {
        "text/plain"@
    } else {
        "application/octet-stream"@
    }
}

fn last_of(cs: &Vec<char>, c: char) -> (r: Option<usize>)
    ensures
        r is None <==> last_index(cs@, c) == -1,
        r is Some ==> r->Some_0 == last_index(cs@, c) && r->Some_0 < cs@.len(),
{
    let mut j: usize = cs.len();
    while j > 0 && cs[j - 1] != c
        invariant
            j <= cs@.len(),
            forall|m: int| j <= m < cs@.len() ==> cs@[m] != c,
        decreases j,
    {
        j = j - 1;
    }
    proof {
        lemma_last(cs@, c, j - 1);
    }
    if j == 0 {
        None
    } else {
        Some(j - 1)
    }
}

proof fn lemma_last(s: Seq<char>, c: char, k: int)
    requires
        -1 <= k < s.len(),
        forall|j: int| k < j < s.len() ==> s[j] != c,
        k >= 0 ==> s[k] == c,
    ensures
        last_index(s, c) == k,
    decreases s.len(),
{
    if s.len() > 0 && s.last() != c {
        lemma_last(s.drop_last(), c, k);
    }
}

/// The media type ingestion records for a file.
pub fn mime_for_path(path: &str) -> (r: String)
    ensures
        r@ == mime_of(path@),
{
    let cs = chars_of(path);
    let slash = last_of(&cs, '/');
    let dot = last_of(&cs, '.');
    let ext: Option<String> = match dot {
        None => None,
        Some(d) => {
            let n = cs.len();
            assert(d < n);
            let after = match slash {
                None => d > 0,
                Some(sl) => sl < d && d - sl > 1,
            };
            if after {
                Some(string_from_range(&cs, d + 1, n))
            } else {
                None
            }
        },
    };
    let e = match ext {
        Some(x) => x,
        None => String::new(),
    };
    proof {
        reveal_strlit("md");
        reveal_strlit("html");
        reveal_strlit("htm");
        reveal_strlit("pdf");
        reveal_strlit("txt");
    }
    let s = e.as_str();
    if str_eq(s, "md") {
        owned("text/markdown")
    } else if str_eq(s, "html") || str_eq(s, "htm") {
        owned("text/html")
    } else if str_eq(s, "pdf") {
        owned("application/pdf")
    } else if str_eq(s, "txt") {
        owned("text/plain")
    } else {
        owned("application/octet-stream")
    }
}

// ---------------------------------------------------------------------------
// Encryption states
// ---------------------------------------------------------------------------

/// The object store for paths that take no passphrase: refused for an
/// encrypted vault.
pub fn object_store_without_passphrase(vault: &VaultJsonV2, vault_path: &str) -> (r: AppResult<ObjectStore>)
    ensures
        vault.encryption.enabled ==> r is Err && r->Err_0.code@ == "KC_ENCRYPTION_REQUIRED"@,
        !vault.encryption.enabled ==> r is Ok && r->Ok_0.encryption is None && r->Ok_0.objects_dir@ == path_join(
            vault_path@,
            "store/objects"@,
        ),
{
    if vault.encryption_enabled() {
        return Err(AppError::new(
            "KC_ENCRYPTION_REQUIRED",
            "encryption",
            "vault is encrypted; provide passphrase-enabled command path",
            false,
            JsonValue::Object(vec![
                sfield("vault_path", vault_path),
                sfield("hint", "use vault encrypt migrate/status flows"),
            ]),
        ));
    }
    let paths = vault_paths(vault_path);
    Ok(ObjectStore::new(paths.objects_dir))
}

/// The encryption status of a vault with `objects_total` objects, of which
/// `objects_encrypted` are stored encrypted.
pub fn encryption_status(vault: &VaultJsonV2, objects_total: i64, objects_encrypted: i64) -> (r: VaultEncryptionStatus)
    ensures
        r.enabled == vault.encryption.enabled,
        r.mode@ == vault.encryption.mode@,
        r.key_reference == vault.encryption.key_reference,
        r.kdf_algorithm@ == vault.encryption.kdf.algorithm@,
        r.objects_total == objects_total,
        r.objects_encrypted == objects_encrypted,
{
    VaultEncryptionStatus {
        enabled: vault.encryption.enabled,
        mode: vault.encryption.mode.clone(),
        key_reference: vault.encryption.key_reference.clone(),
        kdf_algorithm: vault.encryption.kdf.algorithm.clone(),
        objects_total,
        objects_encrypted,
    }
}

/// Turns object encryption on, with the key reference `vault:<id>` unless
/// one is set; a vault already encrypted is left as it is.
pub fn enable_vault_encryption(vault: &mut VaultJsonV2)
    ensures
        final(vault).encryption.enabled,
        old(vault).encryption.enabled ==> *final(vault) == *old(vault),
        !old(vault).encryption.enabled ==> final(vault).encryption.key_reference is Some && final(vault).encryption.key_reference->Some_0@
            == crate::vault::key_reference_of(*old(vault)),
        final(vault).vault_id == old(vault).vault_id,
        final(vault).encryption.mode == old(vault).encryption.mode,
        final(vault).encryption.kdf == old(vault).encryption.kdf,
{
    if !vault.encryption.enabled {
        vault.encryption.enabled = true;
        if vault.encryption.key_reference.is_none() {
            let mut s = String::new();
            push_str(&mut s, "vault:");
            push_str(&mut s, vault.vault_id.as_str());
            vault.encryption.key_reference = Some(s);
        }
    }
}

/// Turns database encryption on, with the key reference `vaultdb:<id>`
/// unless one is set; returns whether the settings changed.
pub fn enable_db_encryption(config: &mut VaultDbEncryptionConfig, vault_id: &str) -> (changed: bool)
    ensures
        final(config).enabled,
        changed == !old(config).enabled,
        old(config).enabled ==> *final(config) == *old(config),
        !old(config).enabled ==> final(config).key_reference is Some && final(config).key_reference->Some_0@ == match old(
            config,
        ).key_reference {
            Some(k) => k@,
            None => "vaultdb:"@ + vault_id@,
        },
        final(config).mode == old(config).mode,
        final(config).kdf_algorithm == old(config).kdf_algorithm,
{
    if config.enabled {
        return false;
    }
    config.enabled = true;
    if config.key_reference.is_none() {
        let mut s = String::new();
        push_str(&mut s, "vaultdb:");
        push_str(&mut s, vault_id);
        config.key_reference = Some(s);
    }
    true
}

/// The lock status of a vault's database: unlocked when it is not
/// encrypted, or when a passphrase is held for it in this process or given
/// by the environment.
pub fn db_lock_status_for_vault(config: &VaultDbEncryptionConfig, session_unlocked: bool, env_passphrase: bool) -> (r: VaultDbLockStatus)
    ensures
        r.db_encryption_enabled == config.enabled,
        r.unlocked == (!config.enabled || session_unlocked || env_passphrase),
        r.mode == config.mode,
        r.key_reference == config.key_reference,
{
    let unlocked = if config.enabled {
        session_unlocked || env_passphrase
    } else {
        true
    };
    VaultDbLockStatus {
        db_encryption_enabled: config.enabled,
        unlocked,
        mode: config.mode.clone(),
        key_reference: config.key_reference.clone(),
    }
}

/// The database encryption status of a vault.
pub fn db_encrypt_status_for_vault(config: &VaultDbEncryptionConfig, session_unlocked: bool, env_passphrase: bool) -> (r: VaultDbEncryptStatus)
    ensures
        r.enabled == config.enabled,
        r.mode == config.mode,
        r.key_reference == config.key_reference,
        r.unlocked == (!config.enabled || session_unlocked || env_passphrase),
{
    let s = db_lock_status_for_vault(config, session_unlocked, env_passphrase);
    VaultDbEncryptStatus {
        enabled: config.enabled,
        mode: config.mode.clone(),
        key_reference: config.key_reference.clone(),
        unlocked: s.unlocked,
    }
}

/// Refuses an empty database passphrase.
pub fn ensure_passphrase_not_empty(passphrase: &str) -> (r: AppResult<()>)
    ensures
        r is Ok <==> passphrase@.len() > 0,
        r is Err ==> r->Err_0.code@ == "KC_DB_KEY_INVALID"@,
{
    if passphrase.is_empty() {
        return Err(AppError::new(
            "KC_DB_KEY_INVALID",
            "db",
            "db passphrase must not be empty",
            false,
            JsonValue::Object(Vec::new()),
        ));
    }
    Ok(())
}

/// The word a database migration outcome is reported as.
pub fn migration_outcome_word(outcome: crate::db::DbMigrationOutcome) -> (r: &'static str)
    ensures
        outcome is Migrated ==> r@ == "migrated"@,
        outcome is AlreadyEncrypted ==> r@ == "already_encrypted"@,
{
    match outcome {
        crate::db::DbMigrationOutcome::Migrated => "migrated",
        crate::db::DbMigrationOutcome::AlreadyEncrypted => "already_encrypted",
    }
}

/// At least one event is listed.
pub fn events_limit(limit: i64) -> (r: i64)
    ensures
        r == (if limit > 1 { limit } else { 1 }),
{
    if limit > 1 {
        limit
    } else {
        1
    }
}

/// The health snapshot of a vault: its id, the hash of its database bytes,
/// and how many events it holds.
pub fn health_snapshot(vault_id: &str, db_bytes: &[u8], event_count: i64) -> (r: JsonValue)
    ensures
        flat_obj(r) == Some(seq![
            ("vaultId"@, JAtom::Str(vault_id@)),
            ("dbHash"@, JAtom::Str(blake3_prefixed(db_bytes@))),
            ("eventCount"@, JAtom::Int(event_count as int)),
        ]),
{
    let h = blake3_hex_prefixed(db_bytes);
    let es = vec![sfield("vaultId", vault_id), sfield("dbHash", h.as_str()), ifield("eventCount", event_count)];
    proof {
        lemma_flat_obj(es, seq![
            ("vaultId"@, JAtom::Str(vault_id@)),
            ("dbHash"@, JAtom::Str(blake3_prefixed(db_bytes@))),
            ("eventCount"@, JAtom::Int(event_count as int)),
        ]);
    }
    JsonValue::Object(es)
}

/// Object encryption has to be on before objects are migrated.
pub fn require_encryption_for_migrate(vault: &VaultJsonV2, vault_path: &str) -> (r: AppResult<()>)
    ensures
        r is Ok <==> vault.encryption.enabled,
        r is Err ==> r->Err_0.code@ == "KC_ENCRYPTION_REQUIRED"@
            && r->Err_0.message@ == "vault encryption must be enabled before migrate"@,
{
    if !vault.encryption.enabled {
        return Err(AppError::new(
            "KC_ENCRYPTION_REQUIRED",
            "encryption",
            "vault encryption must be enabled before migrate",
            false,
            JsonValue::Object(vec![sfield("vault_path", vault_path)]),
        ));
    }
    Ok(())
}

/// Database encryption has to be on before the database is migrated.
pub fn require_db_encryption_for_migrate(config: &VaultDbEncryptionConfig, vault_path: &str) -> (r: AppResult<()>)
    ensures
        r is Ok <==> config.enabled,
        r is Err ==> r->Err_0.code@ == "KC_DB_LOCKED"@
            && r->Err_0.message@ == "db encryption must be enabled before migrate"@,
{
    if !config.enabled {
        return Err(AppError::new(
            "KC_DB_LOCKED",
            "db",
            "db encryption must be enabled before migrate",
            false,
            JsonValue::Object(vec![sfield("vault_path", vault_path)]),
        ));
    }
    Ok(())
}

/// What migrating the objects of a vault counted so far.
#[derive(Debug, Clone, Copy)]
pub struct ObjectMigrationTally {
    pub migrated: i64,
    pub already_encrypted: i64,
}

impl ObjectMigrationTally {
    /// Nothing counted.
    pub fn new() -> (r: Self)
        ensures
            r.migrated == 0,
            r.already_encrypted == 0,
    {
        ObjectMigrationTally { migrated: 0, already_encrypted: 0 }
    }

    /// Counts one object: one already stored encrypted is left as it is,
    /// another is rewritten encrypted. Returns whether it is to be rewritten.
    pub fn record(&mut self, stored_encrypted: bool) -> (rewrite: bool)
        requires
            old(self).migrated < i64::MAX,
            old(self).already_encrypted < i64::MAX,
        ensures
            rewrite == !stored_encrypted,
            stored_encrypted ==> final(self).already_encrypted == old(self).already_encrypted + 1
                && final(self).migrated == old(self).migrated,
            !stored_encrypted ==> final(self).migrated == old(self).migrated + 1
                && final(self).already_encrypted == old(self).already_encrypted,
    {
        if stored_encrypted {
            self.already_encrypted = self.already_encrypted + 1;
            false
        } else {
            self.migrated = self.migrated + 1;
            true
        }
    }
}

/// The payload of the event that records an object migration.
pub fn object_migration_event_payload(tally: &ObjectMigrationTally, vault: &VaultJsonV2) -> (r: JsonValue)
    ensures
        flat_obj(r) == Some(seq![
            ("already_encrypted_objects"@, JAtom::Int(tally.already_encrypted as int)),
            ("kdf_algorithm"@, JAtom::Str(vault.encryption.kdf.algorithm@)),
            ("migrated_objects"@, JAtom::Int(tally.migrated as int)),
            ("mode"@, JAtom::Str(vault.encryption.mode@)),
        ]),
{
    let es = vec![
        ifield("already_encrypted_objects", tally.already_encrypted),
        sfield("kdf_algorithm", vault.encryption.kdf.algorithm.as_str()),
        ifield("migrated_objects", tally.migrated),
        sfield("mode", vault.encryption.mode.as_str()),
    ];
    proof {
        lemma_flat_obj(es, seq![
            ("already_encrypted_objects"@, JAtom::Int(tally.already_encrypted as int)),
            ("kdf_algorithm"@, JAtom::Str(vault.encryption.kdf.algorithm@)),
            ("migrated_objects"@, JAtom::Int(tally.migrated as int)),
            ("mode"@, JAtom::Str(vault.encryption.mode@)),
        ]);
    }
    JsonValue::Object(es)
}

/// The payload of the event that records a database migration.
pub fn db_migration_event_payload(outcome: crate::db::DbMigrationOutcome, config: &VaultDbEncryptionConfig) -> (r: JsonValue)
    ensures
        flat_obj(r) == Some(seq![
            ("kdf_algorithm"@, JAtom::Str(config.kdf_algorithm@)),
            ("mode"@, JAtom::Str(config.mode@)),
            ("outcome"@, JAtom::Str(if outcome is Migrated { "migrated"@ } else { "already_encrypted"@ })),
        ]),
{
    let word = migration_outcome_word(outcome);
    let es = vec![
        sfield("kdf_algorithm", config.kdf_algorithm.as_str()),
        sfield("mode", config.mode.as_str()),
        sfield("outcome", word),
    ];
    proof {
        lemma_flat_obj(es, seq![
            ("kdf_algorithm"@, JAtom::Str(config.kdf_algorithm@)),
            ("mode"@, JAtom::Str(config.mode@)),
            ("outcome"@, JAtom::Str(if outcome is Migrated { "migrated"@ } else { "already_encrypted"@ })),
        ]);
    }
    JsonValue::Object(es)
}

// ---------------------------------------------------------------------------
// Search
// ---------------------------------------------------------------------------

/// A document the text search found: its id and the start of its text.
#[derive(Debug)]
pub struct SearchMatch {
    pub doc_id: String,
    pub snippet: String,
}

/// The text a document's stored canonical bytes give the search: the text
/// they encode, or nothing where they are not UTF-8.
pub open spec fn search_text(bytes: Seq<u8>) -> Seq<char> {
    if vstd::utf8::valid_utf8(bytes) {
        vstd::utf8::decode_utf8(bytes)
    } else {
        Seq::empty()
    }
}

/// The longest snippet a hit shows, in characters.
pub open spec fn snippet_chars() -> int {
    120
}

/// Whether a document's text matches a query: the query, lowercased, occurs
/// in the text, lowercased.
pub open spec fn search_matches(text: Seq<char>, query: Seq<char>) -> bool {
    contains_seq(unicode_lower(text), unicode_lower(query))
}

/// Tests one document against a query: a match where the lowercased query
/// occurs in the lowercased text, with the first 120 characters of the text
/// as its snippet (text that is not UTF-8 reads as empty).
pub fn search_match(doc_id: String, text_bytes: Vec<u8>, query: &str) -> (r: Option<SearchMatch>)
    ensures
        r is Some <==> search_matches(search_text(text_bytes@), query@),
        r is Some <==> contains_seq(unicode_lower(search_text(text_bytes@)), unicode_lower(query@)),
        r is Some ==> {
            let t = search_text(text_bytes@);
            &&& r->Some_0.doc_id == doc_id
            &&& r->Some_0.snippet@ == t.subrange(0, if t.len() < snippet_chars() { t.len() as int } else { snippet_chars() })
        },
{
    let ghost b = text_bytes@;
    let text = match crate::locator::utf8_text(text_bytes) {
        Ok(t) => t,
        Err(_) => String::new(),
    };
    assert(text@ == search_text(b));
    let lowered = to_lowercase(text.as_str());
    let query_lower = to_lowercase(query);
    if !contains(lowered.as_str(), query_lower.as_str()) {
        return None;
    }
    let cs = chars_of(text.as_str());
    let n: usize = if cs.len() < 120 { cs.len() } else { 120 };
    Some(SearchMatch { doc_id, snippet: string_from_range(&cs, 0, n) })
}


/// A document matches wherever in its whole text the query occurs: if the
/// lowercased query occurs at any position of the lowercased text, before,
/// inside or after the snippet, the document matches; and it matches only so.
pub proof fn law_match_anywhere_in_text(text: Seq<char>, query: Seq<char>, i: int)
    ensures
        crate::text::occurs_at(unicode_lower(text), unicode_lower(query), i) ==> search_matches(text, query),
        search_matches(text, query) ==> exists|k: int| crate::text::occurs_at(unicode_lower(text), unicode_lower(query), k),
{
}

} // verus!
