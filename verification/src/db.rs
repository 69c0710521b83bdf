//! The database around its storage: the order schema migrations run in,
//! the SQL text that keys an encrypted database, the paths a migration to
//! SQLCipher uses, and the passphrases of unlocked vaults.
use vstd::prelude::*;
use crate::app_error::{AppError, AppResult};
use crate::json::{JsonValue, JAtom, flat_obj, lemma_flat_obj, ifield, sfield, field, jstr, jint};
use crate::recovery_escrow::{path_join, join_path};
use crate::text::{owned, push_str, push_char, str_eq, chars_of, string_from_range, string_from_chars};

verus! {

/// The schema version the migrations reach.
pub const LATEST_SCHEMA_VERSION: i64 = 9;

/// What migrating a database to SQLCipher did.
#[derive(Debug, Clone, Copy, PartialEq, Eq)]
pub enum DbMigrationOutcome {
    Migrated,
    AlreadyEncrypted,
}

fn db_error(code: &str, message: &str, details: JsonValue) -> (e: AppError)
    ensures
        e.code@ == code@,
        e.category@ == "db"@,
        e.details == details,
{
    AppError::new(code, "db", message, false, details)
}

// ---------------------------------------------------------------------------
// Schema migrations
// ---------------------------------------------------------------------------

/// The migration that runs next from schema `current`: the one numbered one
/// above it (the first, below 1), until the latest is reached.
pub open spec fn next_migration_spec(current: int) -> Option<int> {
    if current >= LATEST_SCHEMA_VERSION {
        None
    } else if current < 1 {
        Some(1)
    } else {
        Some(current + 1)
    }
}

/// The details of the error refusing a schema newer than the latest.
pub open spec fn incompatible_details(current: int) -> Seq<(Seq<char>, JAtom)> {
    seq![("current"@, JAtom::Int(current)), ("latest"@, JAtom::Int(LATEST_SCHEMA_VERSION as int))]
}

/// The migration to run next from schema `current`, or `None` when there is
/// none; a schema newer than the latest is refused.
pub fn next_migration(current: i64) -> (r: AppResult<Option<i64>>)
    ensures
        current > LATEST_SCHEMA_VERSION ==> r is Err && r->Err_0.code@ == "KC_DB_SCHEMA_INCOMPATIBLE"@
            && flat_obj(r->Err_0.details) == Some(incompatible_details(current as int)),
        current <= LATEST_SCHEMA_VERSION ==> r is Ok && r->Ok_0 == match next_migration_spec(current as int) {
            Some(n) => Some(n as i64),
            None => None::<i64>,
        },
{
    if current > LATEST_SCHEMA_VERSION {
        let es = vec![ifield("current", current), ifield("latest", LATEST_SCHEMA_VERSION)];
        proof {
            lemma_flat_obj(es, incompatible_details(current as int));
        }
        return Err(db_error(
            "KC_DB_SCHEMA_INCOMPATIBLE",
            "database schema version is newer than supported",
            JsonValue::Object(es),
        ));
    }
    if current == LATEST_SCHEMA_VERSION {
        Ok(None)
    } else if current < 1 {
        Ok(Some(1))
    } else {
        Ok(Some(current + 1))
    }
}

/// The migrations that run from schema `current`, in order.
pub open spec fn migrations_from(current: int) -> Seq<int>
    decreases LATEST_SCHEMA_VERSION - current,
{
    match next_migration_spec(current) {
        None => Seq::empty(),
        Some(n) => seq![n] + migrations_from(n),
    }
}

/// The migrations that run from schema `current`, in order; a schema newer
/// than the latest is refused.
pub fn migration_plan(current: i64) -> (r: AppResult<Vec<i64>>)
    ensures
        current > LATEST_SCHEMA_VERSION ==> r is Err && r->Err_0.code@ == "KC_DB_SCHEMA_INCOMPATIBLE"@
            && flat_obj(r->Err_0.details) == Some(incompatible_details(current as int)),
        current <= LATEST_SCHEMA_VERSION ==> r is Ok && r->Ok_0@.map_values(|n: i64| n as int) == migrations_from(
            current as int,
        ),
{
    let mut out: Vec<i64> = Vec::new();
    let mut v = current;
    let mut step = next_migration(v)?;
    proof {
        assert(out@.map_values(|n: i64| n as int) + migrations_from(v as int) =~= migrations_from(current as int));
    }
    while step.is_some()
        invariant
            v <= LATEST_SCHEMA_VERSION,
            step == match next_migration_spec(v as int) {
                Some(n) => Some(n as i64),
                None => None::<i64>,
            },
            out@.map_values(|n: i64| n as int) + migrations_from(v as int) == migrations_from(current as int),
        decreases LATEST_SCHEMA_VERSION - v,
    {
        let n = match step {
            Some(n) => n,
            None => v,
        };
        let ghost before = out@;
        out.push(n);
        proof {
            assert(migrations_from(v as int) == seq![n as int] + migrations_from(n as int));
            assert(out@.map_values(|m: i64| m as int) =~= before.map_values(|m: i64| m as int).push(n as int));
            assert(out@.map_values(|m: i64| m as int) + migrations_from(n as int) =~= before.map_values(
                |m: i64| m as int,
            ) + migrations_from(v as int));
        }
        v = n;
        step = next_migration(v)?;
    }
    proof {
        assert(migrations_from(v as int) =~= Seq::<int>::empty());
        assert(out@.map_values(|n: i64| n as int) =~= out@.map_values(|n: i64| n as int) + migrations_from(v as int));
    }
    Ok(out)
}

/// Migrations run in increasing order, each exactly once, from the one
/// after the current schema up to the latest: from any supported schema the
/// database ends at the latest.
pub proof fn law_migrations_reach_latest(current: int)
    requires
        current <= LATEST_SCHEMA_VERSION,
    ensures
        forall|k: int| 0 <= k < migrations_from(current).len() ==> #[trigger] migrations_from(current)[k] == (if current
            < 1 { 1 } else { current + 1 }) + k,
        migrations_from(current).len() == LATEST_SCHEMA_VERSION - (if current < 1 { 0 } else { current }),
    decreases LATEST_SCHEMA_VERSION - current,
{
    if current < LATEST_SCHEMA_VERSION {
        let n = if current < 1 { 1 } else { current + 1 };
        law_migrations_reach_latest(n);
        let s = migrations_from(current);
        assert(s == seq![n] + migrations_from(n));
        assert forall|k: int| 0 <= k < s.len() implies #[trigger] s[k] == n + k by {
            if k > 0 {
                assert(s[k] == migrations_from(n)[k - 1]);
            }
        }
    }
}

// ---------------------------------------------------------------------------
// SQL text
// ---------------------------------------------------------------------------

/// `s` with each `'` doubled, as inside a SQL string literal.
pub open spec fn sql_escape(s: Seq<char>) -> Seq<char>
    decreases s.len(),
{
    if s.len() == 0 {
        Seq::empty()
    } else {
        sql_escape(s.drop_last()) + if s.last() == '\'' {
            seq!['\'', '\'']
        } else {
            seq![s.last()]
        }
    }
}

/// A value written inside a SQL string literal: each `'` doubled.
pub fn sql_string_literal(value: &str) -> (r: String)
    ensures
        r@ == sql_escape(value@),
{
    let cs = chars_of(value);
    let mut out: Vec<char> = Vec::new();
    let mut i: usize = 0;
    while i < cs.len()
        invariant
            cs@ == value@,
            i <= cs@.len(),
            out@ == sql_escape(value@.subrange(0, i as int)),
        decreases cs.len() - i,
    {
        let c = cs[i];
        out.push(c);
        if c == '\'' {
            out.push('\'');
        }
        proof {
            let t = value@.subrange(0, i + 1);
            assert(t.drop_last() =~= value@.subrange(0, i as int));
            assert(t.last() == c);
        }
        i = i + 1;
    }
    proof {
        assert(value@.subrange(0, cs@.len() as int) =~= value@);
    }
    string_from_chars(&out)
}

/// A path written inside a SQL string literal.
pub fn attach_path_literal(path: &str) -> (r: String)
    ensures
        r@ == sql_escape(path@),
{
    sql_string_literal(path)
}

/// The statements that key a connection with a passphrase.
pub fn key_pragma_sql(passphrase: &str) -> (r: String)
    ensures
        r@ == "PRAGMA key = '"@ + sql_escape(passphrase@) + "'; PRAGMA cipher_compatibility = 4;"@,
{
    let mut s = String::new();
    push_str(&mut s, "PRAGMA key = '");
    let e = sql_string_literal(passphrase);
    push_str(&mut s, e.as_str());
    push_str(&mut s, "'; PRAGMA cipher_compatibility = 4;");
    s
}

/// The statements that export a plaintext database into an encrypted copy
/// at `tmp_path`.
pub fn sqlcipher_export_sql(tmp_path: &str, passphrase: &str) -> (r: String)
    ensures
        r@ == "ATTACH DATABASE '"@ + sql_escape(tmp_path@) + "' AS encrypted KEY '"@ + sql_escape(passphrase@)
            + "';PRAGMA encrypted.cipher_compatibility = 4;SELECT sqlcipher_export('encrypted');DETACH DATABASE encrypted;"@,
{
    let mut s = String::new();
    push_str(&mut s, "ATTACH DATABASE '");
    let t = attach_path_literal(tmp_path);
    push_str(&mut s, t.as_str());
    push_str(&mut s, "' AS encrypted KEY '");
    let p = sql_string_literal(passphrase);
    push_str(&mut s, p.as_str());
    push_str(
        &mut s,
        "';PRAGMA encrypted.cipher_compatibility = 4;SELECT sqlcipher_export('encrypted');DETACH DATABASE encrypted;",
    );
    s
}

// ---------------------------------------------------------------------------
// Paths
// ---------------------------------------------------------------------------

/// The index of the last `c` in `s`, or -1.
pub open spec fn last_index(s: Seq<char>, c: char) -> int
    decreases s.len(),
{
    if s.len() == 0 {
        -1
    } else if s.last() == c {
        s.len() - 1
    } else {
        last_index(s.drop_last(), c)
    }
}

proof fn lemma_last_index(s: Seq<char>, c: char, k: int)
    requires
        -1 <= k < s.len(),
        forall|j: int| k < j < s.len() ==> s[j] != c,
        k >= 0 ==> s[k] == c,
    ensures
        last_index(s, c) == k,
    decreases s.len(),
{
    if s.len() > 0 && s.last() != c {
        lemma_last_index(s.drop_last(), c, k);
    }
}

fn find_last(cs: &Vec<char>, hi: usize, c: char) -> (r: Option<usize>)
    requires
        hi <= cs@.len(),
    ensures
        r is None <==> last_index(cs@.subrange(0, hi as int), c) == -1,
        r is Some ==> r->Some_0 == last_index(cs@.subrange(0, hi as int), c) && r->Some_0 < hi,
{
    let mut j: usize = hi;
    while j > 0 && cs[j - 1] != c
        invariant
            j <= hi <= cs@.len(),
            forall|m: int| j <= m < hi ==> cs@[m] != c,
        decreases j,
    {
        j = j - 1;
    }
    proof {
        let s = cs@.subrange(0, hi as int);
        lemma_last_index(s, c, j - 1);
    }
    if j == 0 {
        None
    } else {
        Some(j - 1)
    }
}

/// `s` without its trailing `/`, keeping a lone leading one.
pub open spec fn trim_slashes(s: Seq<char>) -> Seq<char>
    decreases s.len(),
{
    if s.len() > 1 && s.last() == '/' {
        trim_slashes(s.drop_last())
    } else {
        s
    }
}

fn trim_slashes_len(cs: &Vec<char>, hi: usize) -> (r: usize)
    requires
        hi <= cs@.len(),
    ensures
        r <= hi,
        cs@.subrange(0, r as int) == trim_slashes(cs@.subrange(0, hi as int)),
{
    let mut j = hi;
    while j > 1 && cs[j - 1] == '/'
        invariant
            j <= hi <= cs@.len(),
            trim_slashes(cs@.subrange(0, j as int)) == trim_slashes(cs@.subrange(0, hi as int)),
        decreases j,
    {
        proof {
            assert(cs@.subrange(0, j as int).drop_last() =~= cs@.subrange(0, j - 1));
        }
        j = j - 1;
    }
    j
}

/// The parent of a Unix path: the part before its last component, without
/// trailing `/`; `None` for the empty path and for `/`.
pub open spec fn path_parent(p: Seq<char>) -> Option<Seq<char>> {
    let t = trim_slashes(p);
    if t.len() == 0 || t == seq!['/'] {
        None
    } else {
        let i = last_index(t, '/');
        if i < 0 {
            Some(Seq::empty())
        } else if i == 0 {
            Some(seq!['/'])
        } else {
            Some(trim_slashes(t.subrange(0, i)))
        }
    }
}

/// The parent of a Unix path.
pub fn parent_of(p: &str) -> (r: Option<String>)
    ensures
        r is None <==> path_parent(p@) is None,
        r is Some ==> r->Some_0@ == path_parent(p@)->Some_0,
{
    let cs = chars_of(p);
    let t = trim_slashes_len(&cs, cs.len());
    proof {
        assert(cs@.subrange(0, cs@.len() as int) =~= p@);
    }
    if t == 0 || (t == 1 && cs[0] == '/') {
        proof {
            if t == 1 {
                assert(cs@.subrange(0, 1) =~= seq!['/']);
            }
        }
        return None;
    }
    proof {
        if t == 1 {
            assert(cs@.subrange(0, 1) != seq!['/']) by {
                assert(cs@.subrange(0, 1)[0] != '/');
            }
        }
    }
    let found = find_last(&cs, t, '/');
    proof {
        assert(cs@.subrange(0, t as int).subrange(0, t as int) =~= cs@.subrange(0, t as int));
    }
    match found {
        None => Some(String::new()),
        Some(i) => if i == 0 {
            let mut s = String::new();
            push_char(&mut s, '/');
            Some(s)
        } else {
            let k = trim_slashes_len(&cs, i);
            proof {
                assert(cs@.subrange(0, t as int).subrange(0, i as int) =~= cs@.subrange(0, i as int));
            }
            Some(string_from_range(&cs, 0, k))
        },
    }
}

/// Where the vault descriptor of a database lives: `vault.json` in the
/// parent of the database's directory.
pub open spec fn vault_json_path_of(db_path: Seq<char>) -> Option<Seq<char>> {
    match path_parent(db_path) {
        None => None,
        Some(d) => match path_parent(d) {
            None => None,
            Some(root) => Some(path_join(root, "vault.json"@)),
        },
    }
}

/// The vault descriptor path of a database, where its path has one.
pub fn maybe_vault_json_path(db_path: &str) -> (r: Option<String>)
    ensures
        r is None <==> vault_json_path_of(db_path@) is None,
        r is Some ==> r->Some_0@ == vault_json_path_of(db_path@)->Some_0,
{
    let d = match parent_of(db_path) {
        None => {
            return None;
        },
        Some(d) => d,
    };
    match parent_of(d.as_str()) {
        None => None,
        Some(root) => Some(join_path(root.as_str(), "vault.json")),
    }
}

/// The root of the vault a database belongs to: the directory of its
/// vault descriptor.
pub fn maybe_vault_root(db_path: &str) -> (r: Option<String>)
    ensures
        vault_json_path_of(db_path@) is None ==> r is None,
        vault_json_path_of(db_path@) is Some ==> (r is Some <==> path_parent(vault_json_path_of(db_path@)->Some_0) is Some),
        r is Some ==> r->Some_0@ == path_parent(vault_json_path_of(db_path@)->Some_0)->Some_0,
{
    match maybe_vault_json_path(db_path) {
        None => None,
        Some(p) => parent_of(p.as_str()),
    }
}

/// A path with its extension replaced by (or extended with) `ext`: the
/// file name's part after its last `.`, where that `.` is not its first
/// character.
pub open spec fn with_extension(p: Seq<char>, ext: Seq<char>) -> Seq<char> {
    let slash = last_index(p, '/');
    let dot = last_index(p, '.');
    if dot > slash + 1 {
        p.subrange(0, dot) + "."@ + ext
    } else {
        p + "."@ + ext
    }
}

fn replace_extension(p: &str, ext: &str) -> (r: String)
    ensures
        r@ == with_extension(p@, ext@),
{
    let cs = chars_of(p);
    let slash = find_last(&cs, cs.len(), '/');
    let dot = find_last(&cs, cs.len(), '.');
    proof {
        assert(cs@.subrange(0, cs@.len() as int) =~= p@);
    }
    let cut: Option<usize> = match dot {
        None => None,
        Some(d) => match slash {
            None => if d > 0 {
                Some(d)
            } else {
                None
            },
            Some(sl) => if d > sl + 1 {
                Some(d)
            } else {
                None
            },
        },
    };
    let mut out = match cut {
        Some(d) => string_from_range(&cs, 0, d),
        None => owned(p),
    };
    push_str(&mut out, ".");
    push_str(&mut out, ext);
    out
}

/// The paths a migration to SQLCipher writes: the encrypted copy it builds,
/// and the backup of the plaintext database while the copy is moved in.
pub fn sqlcipher_migration_paths(db_path: &str) -> (r: (String, String))
    ensures
        r.0@ == with_extension(db_path@, "sqlcipher.tmp"@),
        r.1@ == with_extension(db_path@, "pre-sqlcipher.bak"@),
{
    (replace_extension(db_path, "sqlcipher.tmp"), replace_extension(db_path, "pre-sqlcipher.bak"))
}

// ---------------------------------------------------------------------------
// Unlocked vaults and database keys
// ---------------------------------------------------------------------------

/// The passphrases of the vaults unlocked in this process, by the vault's
/// normalized path; each path at most once.
#[derive(Debug)]
pub struct DbUnlockSessions {
    pub entries: Vec<(String, String)>,
}

/// The sessions as a map from vault path to passphrase.
pub open spec fn sessions_map(s: Seq<(String, String)>) -> Map<Seq<char>, Seq<char>>
    decreases s.len(),
{
    if s.len() == 0 {
        Map::empty()
    } else {
        sessions_map(s.drop_last()).insert(s.last().0@, s.last().1@)
    }
}

impl DbUnlockSessions {
    /// Each vault path is held at most once.
    pub open spec fn wf(&self) -> bool {
        forall|i: int, j: int| 0 <= i < j < self.entries@.len() ==> (#[trigger] self.entries@[i]).0@ != (
        #[trigger] self.entries@[j]).0@
    }

    pub open spec fn view(&self) -> Map<Seq<char>, Seq<char>> {
        sessions_map(self.entries@)
    }

    /// No vault unlocked.
    pub fn new() -> (r: Self)
        ensures
            r.wf(),
            r.view() == Map::<Seq<char>, Seq<char>>::empty(),
    {
        DbUnlockSessions { entries: Vec::new() }
    }

    fn find(&self, key: &str) -> (r: Option<usize>)
        requires
            self.wf(),
        ensures
            r is None ==> forall|i: int| 0 <= i < self.entries@.len() ==> (#[trigger] self.entries@[i]).0@ != key@,
            r is Some ==> r->Some_0 < self.entries@.len() && self.entries@[r->Some_0 as int].0@ == key@,
    {
        let mut i: usize = 0;
        while i < self.entries.len()
            invariant
                i <= self.entries@.len(),
                forall|j: int| 0 <= j < i ==> (#[trigger] self.entries@[j]).0@ != key@,
            decreases self.entries.len() - i,
        {
            if str_eq(self.entries[i].0.as_str(), key) {
                return Some(i);
            }
            i = i + 1;
        }
        None
    }

    /// The passphrase held for a vault, if it is unlocked.
    pub fn passphrase_for(&self, key: &str) -> (r: Option<String>)
        requires
            self.wf(),
        ensures
            r is Some <==> self.view().dom().contains(key@),
            r is Some ==> r->Some_0@ == self.view()[key@],
    {
        proof {
            lemma_sessions_map(self.entries@);
        }
        match self.find(key) {
            None => None,
            Some(i) => Some(self.entries[i].1.clone()),
        }
    }

    /// Whether a vault is unlocked.
    pub fn is_unlocked(&self, key: &str) -> (r: bool)
        requires
            self.wf(),
        ensures
            r == self.view().dom().contains(key@),
    {
        proof {
            lemma_sessions_map(self.entries@);
        }
        self.find(key).is_some()
    }

    /// Records the passphrase of an unlocked vault, replacing one held.
    pub fn unlock(&mut self, key: &str, passphrase: &str)
        requires
            old(self).wf(),
        ensures
            final(self).wf(),
            final(self).view() == old(self).view().insert(key@, passphrase@),
    {
        proof {
            lemma_sessions_map(self.entries@);
        }
        let ghost before = self.entries@;
        match self.find(key) {
            None => {
                self.entries.push((owned(key), owned(passphrase)));
                proof {
                    assert(self.entries@.drop_last() =~= before);
                    assert forall|i: int, j: int| 0 <= i < j < self.entries@.len() implies (#[trigger] self.entries@[i]).0@
                        != (#[trigger] self.entries@[j]).0@ by {
                        if j == before.len() {
                            assert(before[i].0@ != key@);
                        } else {
                            assert(self.entries@[i] == before[i] && self.entries@[j] == before[j]);
                        }
                    }
                }
            },
            Some(i) => {
                self.entries.set(i, (owned(key), owned(passphrase)));
                proof {
                    lemma_sessions_set(before, i as int, self.entries@);
                }
            },
        }
    }

    /// Forgets the passphrase of a vault.
    pub fn lock(&mut self, key: &str)
        requires
            old(self).wf(),
        ensures
            final(self).wf(),
            final(self).view() == old(self).view().remove(key@),
    {
        proof {
            lemma_sessions_map(self.entries@);
        }
        let ghost before = self.entries@;
        match self.find(key) {
            None => {
                proof {
                    assert(!self.view().dom().contains(key@));
                    assert(self.view().remove(key@) =~= self.view());
                }
            },
            Some(i) => {
                self.entries.remove(i);
                proof {
                    lemma_sessions_remove(before, i as int, self.entries@);
                }
            },
        }
    }
}

/// The map of distinct sessions: each path maps to its passphrase.
pub proof fn lemma_sessions_map(s: Seq<(String, String)>)
    requires
        forall|i: int, j: int| 0 <= i < j < s.len() ==> (#[trigger] s[i]).0@ != (#[trigger] s[j]).0@,
    ensures
        forall|k: Seq<char>| #[trigger] sessions_map(s).dom().contains(k) <==> exists|i: int| 0 <= i < s.len() && s[i].0@ == k,
        forall|i: int| 0 <= i < s.len() ==> #[trigger] sessions_map(s)[s[i].0@] == s[i].1@,
    decreases s.len(),
{
    if s.len() > 0 {
        let t = s.drop_last();
        lemma_sessions_map(t);
        assert forall|k: Seq<char>| #[trigger] sessions_map(s).dom().contains(k) <==> exists|i: int| 0 <= i < s.len()
            && s[i].0@ == k by {
            if k == s.last().0@ {
                assert(s[s.len() - 1].0@ == k);
            }
            if sessions_map(s).dom().contains(k) && k != s.last().0@ {
                assert(sessions_map(t).dom().contains(k));
                let i = choose|i: int| 0 <= i < t.len() && t[i].0@ == k;
                assert(s[i] == t[i]);
            }
            if exists|i: int| 0 <= i < s.len() && s[i].0@ == k {
                let i = choose|i: int| 0 <= i < s.len() && s[i].0@ == k;
                assert(s.last() == s[s.len() - 1]);
                assert(sessions_map(s) == sessions_map(t).insert(s.last().0@, s.last().1@));
                if i < t.len() {
                    assert(t[i] == s[i]);
                    assert(sessions_map(t).dom().contains(k));
                }
            }
        }
        assert forall|i: int| 0 <= i < s.len() implies #[trigger] sessions_map(s)[s[i].0@] == s[i].1@ by {
            assert(s.last() == s[s.len() - 1]);
            assert(sessions_map(s) == sessions_map(t).insert(s.last().0@, s.last().1@));
            if i < t.len() {
                assert(t[i] == s[i]);
                assert(s.last() == s[s.len() - 1]);
                assert(s[i].0@ != s[s.len() - 1].0@);
            }
        }
    }
}

proof fn lemma_sessions_set(before: Seq<(String, String)>, i: int, after: Seq<(String, String)>)
    requires
        forall|a: int, b: int| 0 <= a < b < before.len() ==> (#[trigger] before[a]).0@ != (#[trigger] before[b]).0@,
        0 <= i < before.len(),
        after.len() == before.len(),
        after[i].0@ == before[i].0@,
        forall|j: int| 0 <= j < before.len() && j != i ==> #[trigger] after[j] == before[j],
    ensures
        forall|a: int, b: int| 0 <= a < b < after.len() ==> (#[trigger] after[a]).0@ != (#[trigger] after[b]).0@,
        sessions_map(after) == sessions_map(before).insert(after[i].0@, after[i].1@),
{
    assert forall|a: int, b: int| 0 <= a < b < after.len() implies (#[trigger] after[a]).0@ != (#[trigger] after[b]).0@ by {
        assert(before[a].0@ != before[b].0@);
        if a != i {
            assert(after[a] == before[a]);
        }
        if b != i {
            assert(after[b] == before[b]);
        }
    }
    lemma_sessions_map(before);
    lemma_sessions_map(after);
    let m1 = sessions_map(after);
    let m2 = sessions_map(before).insert(after[i].0@, after[i].1@);
    assert forall|k: Seq<char>| m1.dom().contains(k) <==> m2.dom().contains(k) by {
        if m1.dom().contains(k) {
            let j = choose|j: int| 0 <= j < after.len() && after[j].0@ == k;
            if j != i {
                assert(after[j] == before[j]);
            }
        }
        if m2.dom().contains(k) && k != after[i].0@ {
            let j = choose|j: int| 0 <= j < before.len() && before[j].0@ == k;
            assert(j != i);
            assert(after[j] == before[j]);
        }
    }
    assert forall|k: Seq<char>| m1.dom().contains(k) implies m1[k] == m2[k] by {
        let j = choose|j: int| 0 <= j < after.len() && after[j].0@ == k;
        if j != i {
            assert(after[j] == before[j]);
            assert(before[j].0@ != before[i].0@);
        }
    }
    assert(m1 =~= m2);
}

proof fn lemma_sessions_remove(before: Seq<(String, String)>, i: int, after: Seq<(String, String)>)
    requires
        forall|a: int, b: int| 0 <= a < b < before.len() ==> (#[trigger] before[a]).0@ != (#[trigger] before[b]).0@,
        0 <= i < before.len(),
        after == before.remove(i),
    ensures
        forall|a: int, b: int| 0 <= a < b < after.len() ==> (#[trigger] after[a]).0@ != (#[trigger] after[b]).0@,
        sessions_map(after) == sessions_map(before).remove(before[i].0@),
{
    assert forall|a: int, b: int| 0 <= a < b < after.len() implies (#[trigger] after[a]).0@ != (#[trigger] after[b]).0@ by {
        let a0 = if a < i { a } else { a + 1 };
        let b0 = if b < i { b } else { b + 1 };
        assert(after[a] == before[a0] && after[b] == before[b0]);
    }
    lemma_sessions_map(before);
    lemma_sessions_map(after);
    let m1 = sessions_map(after);
    let m2 = sessions_map(before).remove(before[i].0@);
    assert forall|k: Seq<char>| m1.dom().contains(k) <==> m2.dom().contains(k) by {
        if m1.dom().contains(k) {
            let j = choose|j: int| 0 <= j < after.len() && after[j].0@ == k;
            let j0 = if j < i { j } else { j + 1 };
            assert(after[j] == before[j0]);
            assert(before[j0].0@ != before[i].0@);
        }
        if m2.dom().contains(k) {
            let j = choose|j: int| 0 <= j < before.len() && before[j].0@ == k;
            assert(j != i);
            let j1 = if j < i { j } else { j - 1 };
            assert(after[j1] == before[j]);
        }
    }
    assert forall|k: Seq<char>| m1.dom().contains(k) implies m1[k] == m2[k] by {
        let j = choose|j: int| 0 <= j < after.len() && after[j].0@ == k;
        let j0 = if j < i { j } else { j + 1 };
        assert(after[j] == before[j0]);
    }
    assert(m1 =~= m2);
}

/// Whether the vault at `key` (its normalized path) is unlocked.
pub fn db_is_unlocked(sessions: &DbUnlockSessions, key: &str) -> (r: bool)
    requires
        sessions.wf(),
    ensures
        r == sessions.view().dom().contains(key@),
{
    sessions.is_unlocked(key)
}

/// The passphrase held for the vault of a database, looked up under its
/// normalized root (`session_key`, where the database has a vault root).
pub fn passphrase_from_session(sessions: &DbUnlockSessions, session_key: Option<&str>) -> (r: Option<String>)
    requires
        sessions.wf(),
    ensures
        session_key is None ==> r is None,
        session_key is Some ==> (r is Some <==> sessions.view().dom().contains(session_key->Some_0@)),
        r is Some ==> r->Some_0@ == sessions.view()[session_key->Some_0@],
{
    match session_key {
        None => None,
        Some(k) => sessions.passphrase_for(k),
    }
}

/// Unlocking a vault makes its passphrase the one held for it, and locking
/// it forgets it again; other vaults are untouched.
pub proof fn law_unlock_then_lock(m: Map<Seq<char>, Seq<char>>, key: Seq<char>, pass: Seq<char>, other: Seq<char>)
    requires
        other != key,
    ensures
        m.insert(key, pass).dom().contains(key),
        m.insert(key, pass)[key] == pass,
        !m.insert(key, pass).remove(key).dom().contains(key),
        m.insert(key, pass).remove(key).dom().contains(other) == m.dom().contains(other),
        m.dom().contains(other) ==> m.insert(key, pass).remove(key)[other] == m[other],
{
}

/// The database-at-rest settings a vault descriptor declares.
#[derive(Debug)]
pub struct VaultMetaForDb {
    pub schema_version: u32,
    pub db_encryption_enabled: bool,
    pub db_encryption_mode: String,
}

/// Which passphrase keys a database when it is opened, given its vault's
/// settings (`None` where it has no vault descriptor), the passphrase held
/// for its vault, and the one the environment gives: none where the vault
/// predates database encryption (schema below 3) or has it off; otherwise
/// the mode must be `sqlcipher_v4` and a passphrase must be at hand, the
/// session's before the environment's.
pub fn db_key_decision(meta: &Option<VaultMetaForDb>, session_pass: Option<String>, env_pass: Option<String>) -> (r: AppResult<Option<String>>)
    ensures
        (meta is None || meta->Some_0.schema_version < 3 || !meta->Some_0.db_encryption_enabled) ==> r is Ok
            && r->Ok_0 is None,
        meta is Some && meta->Some_0.schema_version >= 3 && meta->Some_0.db_encryption_enabled ==> {
            let m = meta->Some_0;
            &&& m.db_encryption_mode@ != "sqlcipher_v4"@ ==> r is Err && r->Err_0.code@ == "KC_DB_ENCRYPTION_UNSUPPORTED"@
            &&& m.db_encryption_mode@ == "sqlcipher_v4"@ ==> {
                &&& session_pass is Some ==> r is Ok && r->Ok_0 == session_pass
                &&& session_pass is None && env_pass is Some ==> r is Ok && r->Ok_0 == env_pass
                &&& session_pass is None && env_pass is None ==> r is Err && r->Err_0.code@ == "KC_DB_LOCKED"@
            }
        },
{
    let m = match meta {
        None => {
            return Ok(None);
        },
        Some(m) => m,
    };
    if m.schema_version < 3 || !m.db_encryption_enabled {
        return Ok(None);
    }
    if !str_eq(m.db_encryption_mode.as_str(), "sqlcipher_v4") {
        return Err(db_error(
            "KC_DB_ENCRYPTION_UNSUPPORTED",
            "unsupported db encryption mode",
            JsonValue::Object(vec![
                sfield("mode", m.db_encryption_mode.as_str()),
                field("supported", JsonValue::Array(vec![jstr("sqlcipher_v4")])),
            ]),
        ));
    }
    match session_pass {
        Some(p) => Ok(Some(p)),
        None => match env_pass {
            Some(p) => Ok(Some(p)),
            None => Err(db_error(
                "KC_DB_LOCKED",
                "database is encrypted; passphrase environment variable is required",
                JsonValue::Object(vec![
                    field("accepted_env", JsonValue::Array(vec![jstr("KC_VAULT_DB_PASSPHRASE"), jstr("KC_VAULT_PASSPHRASE")])),
                ]),
            )),
        },
    }
}

} // verus!
