//! The vault descriptor (`vault.json`): identity, database location,
//! defaults, toolchain and encryption settings, and the layout of a vault's
//! directory.
use vstd::prelude::*;
use crate::app_error::{AppError, AppResult};
use crate::json::{JsonValue, JsonNumber, JAtom, flat_obj, lemma_flat_obj, obj_entries, arr_items, sfield, jstr, juint, field};
use crate::object_store::{ObjectStoreEncryptionContext, derive_object_store_key, argon2_params_ok, argon2id_key};
use crate::recovery_escrow::{path_join, join_path};
use crate::text::{owned, push_str, str_eq};

verus! {

/// The vault descriptor.
#[derive(Debug)]
pub struct VaultJsonV2 {
    pub schema_version: u32,
    pub vault_id: String,
    pub vault_slug: String,
    pub created_at_ms: i64,
    pub db: VaultDbConfig,
    pub defaults: VaultDefaults,
    pub toolchain: VaultToolchain,
    pub encryption: VaultEncryptionConfigV2,
}

/// Where the database lives, relative to the vault.
#[derive(Debug)]
pub struct VaultDbConfig {
    pub relative_path: String,
}

/// Default chunking, embedding and recency settings.
#[derive(Debug)]
pub struct VaultDefaults {
    pub chunking_config_id: String,
    pub embedding_model_id: String,
    pub recency: VaultRecencyDefaults,
}

/// Whether recency weighting is on by default.
#[derive(Debug)]
pub struct VaultRecencyDefaults {
    pub enabled: bool,
}

/// The external tools a vault was built with.
#[derive(Debug)]
pub struct VaultToolchain {
    pub pdfium: ToolIdentity,
    pub tesseract: ToolIdentity,
}

/// The identity of one tool.
#[derive(Debug)]
pub struct ToolIdentity {
    pub identity: String,
}

/// How a vault's objects are encrypted.
#[derive(Debug)]
pub struct VaultEncryptionConfigV2 {
    pub enabled: bool,
    pub mode: String,
    pub kdf: VaultKdfConfigV2,
    pub key_reference: Option<String>,
}

/// How the object key is derived from the passphrase.
#[derive(Debug)]
pub struct VaultKdfConfigV2 {
    pub algorithm: String,
    pub memory_kib: u32,
    pub iterations: u32,
    pub parallelism: u32,
    pub salt_id: String,
}

/// The only supported encryption mode.
pub open spec fn supported_mode() -> Seq<char> {
    "object_store_xchacha20poly1305"@
}

impl Default for VaultKdfConfigV2 {
    fn default() -> (r: Self)
        ensures
            r.algorithm@ == "argon2id"@,
            r.memory_kib == 65536,
            r.iterations == 3,
            r.parallelism == 1,
            r.salt_id@ == "vault-kdf-salt-v1"@,
    {
        VaultKdfConfigV2 {
            algorithm: owned("argon2id"),
            memory_kib: 65536,
            iterations: 3,
            parallelism: 1,
            salt_id: owned("vault-kdf-salt-v1"),
        }
    }
}

/// The encryption settings a vault starts with: off, in the supported mode,
/// with the default key derivation and no key reference.
pub open spec fn default_encryption(e: VaultEncryptionConfigV2) -> bool {
    &&& !e.enabled
    &&& e.mode@ == supported_mode()
    &&& e.kdf.algorithm@ == "argon2id"@
    &&& e.kdf.memory_kib == 65536
    &&& e.kdf.iterations == 3
    &&& e.kdf.parallelism == 1
    &&& e.kdf.salt_id@ == "vault-kdf-salt-v1"@
    &&& e.key_reference is None
}

impl Default for VaultEncryptionConfigV2 {
    fn default() -> (r: Self)
        ensures
            default_encryption(r),
    {
        VaultEncryptionConfigV2 {
            enabled: false,
            mode: owned("object_store_xchacha20poly1305"),
            kdf: VaultKdfConfigV2::default(),
            key_reference: None,
        }
    }
}

/// The directories and files of a vault.
#[derive(Debug)]
pub struct VaultPaths {
    pub root: String,
    pub db: String,
    pub objects_dir: String,
    pub inbox_dir: String,
    pub inbox_processed_dir: String,
    pub vectors_dir: String,
}

fn encryption_error(code: &str, message: &str, details: JsonValue) -> (e: AppError)
    ensures
        e.code@ == code@,
        e.category@ == "encryption"@,
{
    AppError::new(code, "encryption", message, false, details)
}

/// The key reference a context gets: the configured one, or `vault:<id>`.
pub open spec fn key_reference_of(v: VaultJsonV2) -> Seq<char> {
    match v.encryption.key_reference {
        Some(r) => r@,
        None => "vault:"@ + v.vault_id@,
    }
}

impl VaultJsonV2 {
    pub fn encryption_enabled(&self) -> (r: bool)
        ensures
            r == self.encryption.enabled,
    {
        self.encryption.enabled
    }

    /// The encryption context of the object store: none where encryption is
    /// off; otherwise the mode and derivation must be the supported ones, a
    /// passphrase must be given, and the key is derived from it.
    pub fn object_store_encryption_context(&self, passphrase: Option<&str>) -> (r: AppResult<Option<ObjectStoreEncryptionContext>>)
        requires
            self.encryption.enabled && self.encryption.mode@ == supported_mode() && self.encryption.kdf.algorithm@
                == "argon2id"@ && passphrase is Some && vstd::utf8::encode_utf8(self.encryption.kdf.salt_id@).len() >= 8
                ==> self.encryption.kdf.parallelism * 8 <= u32::MAX,
        ensures
            !self.encryption.enabled ==> r is Ok && r->Ok_0 is None,
            self.encryption.enabled && self.encryption.mode@ != supported_mode() ==> r is Err && r->Err_0.code@
                == "KC_ENCRYPTION_UNSUPPORTED"@,
            self.encryption.enabled && self.encryption.mode@ == supported_mode() && self.encryption.kdf.algorithm@
                != "argon2id"@ ==> r is Err && r->Err_0.code@ == "KC_ENCRYPTION_UNSUPPORTED"@,
            self.encryption.enabled && self.encryption.mode@ == supported_mode() && self.encryption.kdf.algorithm@
                == "argon2id"@ ==> {
                let k = self.encryption.kdf;
                &&& passphrase is None ==> r is Err && r->Err_0.code@ == "KC_ENCRYPTION_REQUIRED"@
                &&& passphrase is Some ==> {
                    let pw = vstd::utf8::encode_utf8(passphrase->Some_0@);
                    let salt = vstd::utf8::encode_utf8(k.salt_id@);
                    &&& r is Ok <==> 8 <= salt.len() <= 0xFFFFFFFF && argon2_params_ok(k.memory_kib, k.iterations, k.parallelism)
                        && pw.len() <= 0xFFFFFFFF
                    &&& r is Ok ==> r->Ok_0 is Some && r->Ok_0->Some_0.key@ == argon2id_key(pw, salt, k.memory_kib, k.iterations, k.parallelism)
                        && r->Ok_0->Some_0.key_reference@ == key_reference_of(*self)
                    &&& r is Err ==> r->Err_0.code@ == "KC_ENCRYPTION_KEY_INVALID"@
                }
            },
    {
        if !self.encryption.enabled {
            return Ok(None);
        }
        if !str_eq(self.encryption.mode.as_str(), "object_store_xchacha20poly1305") {
            return Err(encryption_error(
                "KC_ENCRYPTION_UNSUPPORTED",
                "unsupported vault encryption mode",
                JsonValue::Object(vec![
                    sfield("mode", self.encryption.mode.as_str()),
                    field("supported", JsonValue::Array(vec![jstr("object_store_xchacha20poly1305")])),
                ]),
            ));
        }
        if !str_eq(self.encryption.kdf.algorithm.as_str(), "argon2id") {
            return Err(encryption_error(
                "KC_ENCRYPTION_UNSUPPORTED",
                "unsupported vault kdf algorithm",
                JsonValue::Object(vec![
                    sfield("algorithm", self.encryption.kdf.algorithm.as_str()),
                    field("supported", JsonValue::Array(vec![jstr("argon2id")])),
                ]),
            ));
        }
        let pass = match passphrase {
            None => {
                return Err(encryption_error(
                    "KC_ENCRYPTION_REQUIRED",
                    "vault requires passphrase for encrypted object access",
                    JsonValue::Object(Vec::new()),
                ));
            },
            Some(p) => p,
        };
        let key = derive_object_store_key(
            pass,
            self.encryption.kdf.salt_id.as_str(),
            self.encryption.kdf.memory_kib,
            self.encryption.kdf.iterations,
            self.encryption.kdf.parallelism,
        )?;
        let key_reference = match &self.encryption.key_reference {
            Some(r) => r.clone(),
            None => {
                let mut s = String::new();
                push_str(&mut s, "vault:");
                push_str(&mut s, self.vault_id.as_str());
                s
            },
        };
        Ok(Some(ObjectStoreEncryptionContext { key, key_reference }))
    }
}

/// The layout of a vault rooted at `vault_path`.
pub fn vault_paths(vault_path: &str) -> (r: VaultPaths)
    ensures
        r.root@ == vault_path@,
        r.db@ == path_join(vault_path@, "db/knowledge.sqlite"@),
        r.objects_dir@ == path_join(vault_path@, "store/objects"@),
        r.inbox_dir@ == path_join(vault_path@, "Inbox"@),
        r.inbox_processed_dir@ == path_join(vault_path@, "Inbox/processed"@),
        r.vectors_dir@ == path_join(vault_path@, "index/vectors"@),
{
    VaultPaths {
        root: owned(vault_path),
        db: join_path(vault_path, "db/knowledge.sqlite"),
        objects_dir: join_path(vault_path, "store/objects"),
        inbox_dir: join_path(vault_path, "Inbox"),
        inbox_processed_dir: join_path(vault_path, "Inbox/processed"),
        vectors_dir: join_path(vault_path, "index/vectors"),
    }
}

/// A lowercase hexadecimal digit.
pub open spec fn is_lower_hex(c: char) -> bool {
    ('0' <= c && c <= '9') || ('a' <= c && c <= 'f')
}

/// The text of a version 4 UUID, hyphenated and lowercase: 36 characters,
/// `-` at 8, 13, 18 and 23, hex digits elsewhere, the version digit `4` at
/// 14 and a variant digit `8`, `9`, `a` or `b` at 19.
pub open spec fn is_uuid_v4_text(s: Seq<char>) -> bool {
    &&& s.len() == 36
    &&& forall|i: int| 0 <= i < 36 ==> (if i == 8 || i == 13 || i == 18 || i == 23 {
        #[trigger] s[i] == '-'
    } else {
        is_lower_hex(s[i])
    })
    &&& s[14] == '4'
    &&& (s[19] == '8' || s[19] == '9' || s[19] == 'a' || s[19] == 'b')
}

/// `Uuid::new_v4` (uuid) shown with `to_string`: a fresh random version 4
/// UUID, hyphenated and lowercase. Which one is left to chance.
#[verifier::external_body]
fn new_vault_id() -> (r: String)
    ensures
        is_uuid_v4_text(r@),
{
    uuid::Uuid::new_v4().to_string()
}

/// The descriptor of a new vault: schema 2, a fresh id, the given slug and
/// time, the database at `db/knowledge.sqlite`, default chunking and
/// embedding, recency off, an unconfigured toolchain, encryption off.
pub fn new_vault_json(vault_slug: &str, now_ms: i64) -> (r: VaultJsonV2)
    ensures
        r.schema_version == 2,
        is_uuid_v4_text(r.vault_id@),
        r.vault_slug@ == vault_slug@,
        r.created_at_ms == now_ms,
        r.db.relative_path@ == "db/knowledge.sqlite"@,
        r.defaults.chunking_config_id@ == "chunking/default-v1"@,
        r.defaults.embedding_model_id@ == "embedding/default-v1"@,
        !r.defaults.recency.enabled,
        r.toolchain.pdfium.identity@ == "pdfium:unconfigured"@,
        r.toolchain.tesseract.identity@ == "tesseract:unconfigured"@,
        default_encryption(r.encryption),
{
    VaultJsonV2 {
        schema_version: 2,
        vault_id: new_vault_id(),
        vault_slug: owned(vault_slug),
        created_at_ms: now_ms,
        db: VaultDbConfig { relative_path: owned("db/knowledge.sqlite") },
        defaults: VaultDefaults {
            chunking_config_id: owned("chunking/default-v1"),
            embedding_model_id: owned("embedding/default-v1"),
            recency: VaultRecencyDefaults { enabled: false },
        },
        toolchain: VaultToolchain {
            pdfium: ToolIdentity { identity: owned("pdfium:unconfigured") },
            tesseract: ToolIdentity { identity: owned("tesseract:unconfigured") },
        },
        encryption: VaultEncryptionConfigV2::default(),
    }
}

/// The details of the error refusing a schema: `{"expected": [1, 2],
/// "actual": <schema>}`.
pub open spec fn unsupported_version_details(d: JsonValue, actual: int) -> bool {
    let es = obj_entries(d);
    let ex = arr_items(es[0].1);
    &&& d is Object
    &&& es.len() == 2
    &&& es[0].0@ == "expected"@
    &&& es[0].1 is Array
    &&& ex.len() == 2
    &&& ex[0] == JsonValue::Number(JsonNumber::PosInt(1u64))
    &&& ex[1] == JsonValue::Number(JsonNumber::PosInt(2u64))
    &&& es[1].0@ == "actual"@
    &&& es[1].1 == JsonValue::Number(JsonNumber::PosInt(actual as u64))
}

/// The schema a stored descriptor declares: its `schema_version` read as an
/// unsigned integer and cut to 32 bits. Missing or not an unsigned integer
/// is refused, naming the descriptor's `path`; so is a schema other than 1
/// or 2.
pub fn vault_schema_version(declared: Option<u64>, path: &str) -> (r: AppResult<u32>)
    ensures
        declared is None ==> r is Err && r->Err_0.code@ == "KC_VAULT_JSON_INVALID"@ && flat_obj(r->Err_0.details)
            == Some(seq![("path"@, JAtom::Str(path@))]),
        declared is Some ==> {
            let v = declared->Some_0 % 4294967296;
            &&& (v == 1 || v == 2) ==> r is Ok && r->Ok_0 == v
            &&& !(v == 1 || v == 2) ==> r is Err && r->Err_0.code@ == "KC_VAULT_JSON_UNSUPPORTED_VERSION"@
                && unsupported_version_details(r->Err_0.details, v as int)
        },
{
    let d = match declared {
        None => {
            let es = vec![sfield("path", path)];
            proof {
                lemma_flat_obj(es, seq![("path"@, JAtom::Str(path@))]);
            }
            return Err(AppError::new(
                "KC_VAULT_JSON_INVALID",
                "vault",
                "vault schema_version missing or invalid",
                false,
                JsonValue::Object(es),
            ));
        },
        Some(d) => d,
    };
    let v: u32 = (d % 4294967296) as u32;
    if v == 1 || v == 2 {
        Ok(v)
    } else {
        Err(AppError::new(
            "KC_VAULT_JSON_UNSUPPORTED_VERSION",
            "vault",
            "unsupported vault schema_version",
            false,
            JsonValue::Object(vec![
                field("expected", JsonValue::Array(vec![juint(1), juint(2)])),
                (owned("actual"), juint(v as u64)),
            ]),
        ))
    }
}

/// A vault of schema 1, with the fields it has.
#[derive(Debug)]
pub struct LegacyVaultJsonV1 {
    pub vault_id: String,
    pub vault_slug: String,
    pub created_at_ms: i64,
    pub db: VaultDbConfig,
    pub defaults: VaultDefaults,
    pub toolchain: VaultToolchain,
}

/// Reads a schema 1 vault as schema 2, with encryption off.
pub fn upgrade_legacy_vault(legacy: LegacyVaultJsonV1) -> (r: VaultJsonV2)
    ensures
        r.schema_version == 2,
        r.vault_id == legacy.vault_id,
        r.vault_slug == legacy.vault_slug,
        r.created_at_ms == legacy.created_at_ms,
        r.db == legacy.db,
        r.defaults == legacy.defaults,
        r.toolchain == legacy.toolchain,
        default_encryption(r.encryption),
{
    VaultJsonV2 {
        schema_version: 2,
        vault_id: legacy.vault_id,
        vault_slug: legacy.vault_slug,
        created_at_ms: legacy.created_at_ms,
        db: legacy.db,
        defaults: legacy.defaults,
        toolchain: legacy.toolchain,
        encryption: VaultEncryptionConfigV2::default(),
    }
}

/// Accepts a schema 2 vault unless it has encryption on in a mode that is
/// not supported.
pub fn check_vault_v2(parsed: VaultJsonV2) -> (r: AppResult<VaultJsonV2>)
    ensures
        r is Ok <==> !(parsed.encryption.enabled && parsed.encryption.mode@ != supported_mode()),
        r is Ok ==> r->Ok_0 == parsed,
        r is Err ==> r->Err_0.code@ == "KC_ENCRYPTION_UNSUPPORTED"@,
{
    if parsed.encryption.enabled && !str_eq(parsed.encryption.mode.as_str(), "object_store_xchacha20poly1305") {
        return Err(encryption_error(
            "KC_ENCRYPTION_UNSUPPORTED",
            "vault encryption mode is not supported",
            JsonValue::Object(vec![
                sfield("mode", parsed.encryption.mode.as_str()),
                field("supported", JsonValue::Array(vec![jstr("object_store_xchacha20poly1305")])),
            ]),
        ));
    }
    Ok(parsed)
}

} // verus!
