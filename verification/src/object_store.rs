//! The content-addressed object store: objects are filed under their BLAKE3
//! hash, and, where the vault is encrypted, sealed with XChaCha20-Poly1305
//! under a nonce derived from the hash and the key's reference.
use vstd::prelude::*;
use crate::app_error::{AppError, AppResult};
use crate::hashing::{blake3_digest, blake3_of, blake3_hex_prefixed, blake3_prefixed};
use crate::json::{JsonValue, sfield, juint};
use crate::recovery_escrow::{path_join, join_path};
use crate::text::{owned, push_str, bytes_of, chars_of, starts_with, has_prefix, string_from_range};
use crate::types::ObjectHash;
use chacha20poly1305::aead::{Aead, KeyInit};

verus! {

/// The key an encrypted store seals objects with, and the reference that
/// names it.
#[derive(Debug, Clone)]
pub struct ObjectStoreEncryptionContext {
    pub key: [u8; 32],
    pub key_reference: String,
}

/// An object store rooted at a directory, sealing objects where it has an
/// encryption context.
#[derive(Debug)]
pub struct ObjectStore {
    pub objects_dir: String,
    pub encryption: Option<ObjectStoreEncryptionContext>,
}

/// The bytes an encrypted object starts with: `KCE1`.
pub open spec fn magic() -> Seq<u8> {
    seq![0x4Bu8, 0x43u8, 0x45u8, 0x31u8]
}

/// The largest plaintext the cipher seals, exclusive: 64 times the block
/// counter's range.
pub open spec fn seal_limit() -> int {
    274877906880
}

/// XChaCha20-Poly1305 with no associated data: what sealing `plaintext`
/// under `key` and `nonce` gives.
pub uninterp spec fn xchacha_seal(key: Seq<u8>, nonce: Seq<u8>, plaintext: Seq<u8>) -> Seq<u8>;

/// `XChaCha20Poly1305::encrypt` (chacha20poly1305): seals `plaintext`, giving
/// the ciphertext followed by the 16-byte tag. It fails only where the
/// plaintext reaches the cipher's length limit.
#[verifier::external_body]
fn xchacha_encrypt(key: &[u8; 32], nonce: &[u8; 24], plaintext: &[u8]) -> (r: Result<Vec<u8>, String>)
    ensures
        r is Ok <==> plaintext@.len() < seal_limit(),
        r is Ok ==> r->Ok_0@ == xchacha_seal(key@, nonce@, plaintext@),
        r is Ok ==> r->Ok_0@.len() == plaintext@.len() + 16,
{
    let cipher = chacha20poly1305::XChaCha20Poly1305::new(chacha20poly1305::Key::from_slice(key));
    cipher.encrypt(chacha20poly1305::XNonce::from_slice(nonce), plaintext).map_err(|e| e.to_string())
}

/// `XChaCha20Poly1305::decrypt` (chacha20poly1305): opens `ciphertext`. What
/// it returns seals back to the ciphertext, and a ciphertext that is the
/// sealing of some plaintext opens to that plaintext: the tag is checked,
/// and the keystream is undone.
#[verifier::external_body]
fn xchacha_decrypt(key: &[u8; 32], nonce: &[u8; 24], ciphertext: &[u8]) -> (r: Result<Vec<u8>, String>)
    ensures
        r is Ok ==> xchacha_seal(key@, nonce@, r->Ok_0@) == ciphertext@,
        forall|p: Seq<u8>| p.len() < seal_limit() && #[trigger] xchacha_seal(key@, nonce@, p) == ciphertext@
            ==> r is Ok && r->Ok_0@ == p,
{
    let cipher = chacha20poly1305::XChaCha20Poly1305::new(chacha20poly1305::Key::from_slice(key));
    cipher.decrypt(chacha20poly1305::XNonce::from_slice(nonce), ciphertext).map_err(|e| e.to_string())
}

/// Argon2id, version 0x13, with a 32-byte output: the key derived from a
/// password and a salt under memory, time and parallelism costs.
pub uninterp spec fn argon2id_key(password: Seq<u8>, salt: Seq<u8>, m_cost: u32, t_cost: u32, p_cost: u32) -> Seq<u8>;

/// The cost parameters `argon2::Params::new` accepts with a 32-byte output.
pub open spec fn argon2_params_ok(m_cost: u32, t_cost: u32, p_cost: u32) -> bool {
    &&& m_cost >= 8
    &&& m_cost >= p_cost * 8
    &&& t_cost >= 1
    &&& 1 <= p_cost <= 0xFFFFFF
}

/// Whether the cost parameters are accepted.
pub fn argon2_params_valid(m_cost: u32, t_cost: u32, p_cost: u32) -> (r: bool)
    requires
        p_cost * 8 <= u32::MAX,
    ensures
        r == argon2_params_ok(m_cost, t_cost, p_cost),
{
    m_cost >= 8 && m_cost >= p_cost * 8 && t_cost >= 1 && p_cost >= 1 && p_cost <= 0xFFFFFF
}

/// `Argon2::hash_password_into` (argon2) with Argon2id, version 0x13 and
/// `Params::new(m, t, p, Some(32))`: the derived key. It fails where the
/// parameters are refused, or the salt is shorter than 8 bytes, or the
/// password or salt is longer than `u32::MAX` bytes. (A cost too large for
/// the machine's memory aborts; that is not stated.)
#[verifier::external_body]
fn argon2id_derive(password: &[u8], salt: &[u8], m_cost: u32, t_cost: u32, p_cost: u32) -> (r: Result<Vec<u8>, String>)
    requires
        p_cost * 8 <= u32::MAX,
    ensures
        r is Ok <==> (argon2_params_ok(m_cost, t_cost, p_cost) && 8 <= salt@.len() && salt@.len() <= 0xFFFFFFFF
            && password@.len() <= 0xFFFFFFFF),
        r is Ok ==> r->Ok_0@ == argon2id_key(password@, salt@, m_cost, t_cost, p_cost) && r->Ok_0@.len() == 32,
{
    let params = argon2::Params::new(m_cost, t_cost, p_cost, Some(32)).map_err(|e| e.to_string())?;
    let a = argon2::Argon2::new(argon2::Algorithm::Argon2id, argon2::Version::V0x13, params);
    let mut key = vec![0u8; 32];
    a.hash_password_into(password, salt, &mut key).map_err(|e| e.to_string())?;
    Ok(key)
}

fn encryption_error(code: &str, message: &str, details: JsonValue) -> (e: AppError)
    ensures
        e.code@ == code@,
        e.category@ == "encryption"@,
{
    AppError::new(code, "encryption", message, false, details)
}

/// Derives the store key from a passphrase: the salt id must be at least
/// 8 bytes and the costs acceptable to Argon2id.
pub fn derive_object_store_key(
    passphrase: &str,
    salt_id: &str,
    memory_kib: u32,
    iterations: u32,
    parallelism: u32,
) -> (r: AppResult<[u8; 32]>)
    requires
        vstd::utf8::encode_utf8(salt_id@).len() >= 8 ==> parallelism * 8 <= u32::MAX,
    ensures
        ({
            let pw = vstd::utf8::encode_utf8(passphrase@);
            let salt = vstd::utf8::encode_utf8(salt_id@);
            &&& r is Ok <==> 8 <= salt.len() <= 0xFFFFFFFF && argon2_params_ok(memory_kib, iterations, parallelism)
                && pw.len() <= 0xFFFFFFFF
            &&& r is Ok ==> r->Ok_0@ == argon2id_key(pw, salt, memory_kib, iterations, parallelism)
        }),
        r is Err ==> r->Err_0.code@ == "KC_ENCRYPTION_KEY_INVALID"@,
{
    let pw = bytes_of(passphrase);
    let salt = bytes_of(salt_id);
    if salt.len() < 8 {
        return Err(encryption_error(
            "KC_ENCRYPTION_KEY_INVALID",
            "salt_id must be at least 8 bytes",
            JsonValue::Object(vec![(owned("salt_id_len"), juint(salt.len() as u64))]),
        ));
    }
    if !argon2_params_valid(memory_kib, iterations, parallelism) {
        return Err(encryption_error(
            "KC_ENCRYPTION_KEY_INVALID",
            "invalid argon2 parameters",
            JsonValue::Object(Vec::new()),
        ));
    }
    match argon2id_derive(pw.as_slice(), salt.as_slice(), memory_kib, iterations, parallelism) {
        Ok(k) => {
            let mut key = [0u8; 32];
            let mut i: usize = 0;
            while i < 32
                invariant
                    i <= 32,
                    k@.len() == 32,
                    key@.len() == 32,
                    forall|j: int| 0 <= j < i ==> key@[j] == k@[j],
                decreases 32 - i,
            {
                key.set(i, k[i]);
                i = i + 1;
            }
            proof {
                assert(key@ =~= k@);
            }
            Ok(key)
        },
        Err(msg) => Err(encryption_error(
            "KC_ENCRYPTION_KEY_INVALID",
            "failed deriving encryption key from passphrase",
            JsonValue::Object(vec![sfield("error", msg.as_str())]),
        )),
    }
}

/// The nonce an object is sealed under: the first 24 bytes of the BLAKE3
/// digest of `<object hash>:<key reference>`.
pub open spec fn nonce_of(object_hash: Seq<char>, key_reference: Seq<char>) -> Seq<u8> {
    blake3_of(vstd::utf8::encode_utf8(object_hash + ":"@ + key_reference)).subrange(0, 24)
}

/// What an object's bytes are stored as: as they are without encryption;
/// with it, `KCE1`, the nonce, and the sealed bytes.
pub open spec fn stored_form(enc: Option<ObjectStoreEncryptionContext>, object_hash: Seq<char>, bytes: Seq<u8>) -> Seq<u8> {
    match enc {
        None => bytes,
        Some(e) => {
            let n = nonce_of(object_hash, e.key_reference@);
            magic() + n + xchacha_seal(e.key@, n, bytes)
        },
    }
}

/// What reading stored bytes may give: the relation `maybe_decrypt_bytes`
/// keeps between what it reads and what it returns.
pub open spec fn decrypt_relation(
    enc: Option<ObjectStoreEncryptionContext>,
    object_hash: Seq<char>,
    data: Seq<u8>,
    r: Result<Seq<u8>, Seq<char>>,
) -> bool {
    if !(data.len() >= 4 && data.subrange(0, 4) == magic()) {
        r == Ok::<Seq<u8>, Seq<char>>(data)
    } else if enc is None {
        r == Err::<Seq<u8>, Seq<char>>("KC_ENCRYPTION_REQUIRED"@)
    } else if data.len() < 28 {
        r == Err::<Seq<u8>, Seq<char>>("KC_ENCRYPTION_UNSUPPORTED"@)
    } else {
        let e = enc->Some_0;
        let n = data.subrange(4, 28);
        let ct = data.subrange(28, data.len() as int);
        if n != nonce_of(object_hash, e.key_reference@) {
            r == Err::<Seq<u8>, Seq<char>>("KC_ENCRYPTION_KEY_INVALID"@)
        } else {
            &&& r is Ok ==> xchacha_seal(e.key@, n, r->Ok_0) == ct
            &&& r is Err ==> r->Err_0 == "KC_ENCRYPTION_KEY_INVALID"@
            &&& forall|p: Seq<u8>| p.len() < seal_limit() && #[trigger] xchacha_seal(e.key@, n, p) == ct ==> r == Ok::<
                Seq<u8>,
                Seq<char>,
            >(p)
        }
    }
}

/// A result seen through its bytes and its error code.
pub open spec fn outcome(r: AppResult<Vec<u8>>) -> Result<Seq<u8>, Seq<char>> {
    match r {
        Ok(v) => Ok(v@),
        Err(e) => Err(e.code@),
    }
}

/// Whether stored bytes carry the encryption mark `KCE1`.
pub fn is_encrypted_payload(bytes: &[u8]) -> (r: bool)
    ensures
        r == (bytes@.len() >= 4 && bytes@.subrange(0, 4) == magic()),
{
    let r = bytes.len() >= 4 && bytes[0] == 0x4Bu8 && bytes[1] == 0x43u8 && bytes[2] == 0x45u8 && bytes[3] == 0x31u8;
    proof {
        if bytes@.len() >= 4 {
            assert(r == (bytes@.subrange(0, 4) =~= magic()));
        }
    }
    r
}

impl ObjectStore {
    pub fn new(objects_dir: String) -> (r: Self)
        ensures
            r.objects_dir == objects_dir,
            r.encryption is None,
    {
        ObjectStore { objects_dir, encryption: None }
    }

    pub fn with_encryption(objects_dir: String, encryption: ObjectStoreEncryptionContext) -> (r: Self)
        ensures
            r.objects_dir == objects_dir,
            r.encryption == Some(encryption),
    {
        ObjectStore { objects_dir, encryption: Some(encryption) }
    }

    /// The nonce an object is sealed under.
    pub fn deterministic_nonce(object_hash: &ObjectHash, key_reference: &str) -> (r: [u8; 24])
        ensures
            r@ == nonce_of(object_hash.0@, key_reference@),
    {
        let mut material = String::new();
        push_str(&mut material, object_hash.0.as_str());
        push_str(&mut material, ":");
        push_str(&mut material, key_reference);
        let b = bytes_of(material.as_str());
        let digest = blake3_digest(b.as_slice());
        let mut nonce = [0u8; 24];
        let mut i: usize = 0;
        while i < 24
            invariant
                i <= 24,
                digest@.len() == 32,
                nonce@.len() == 24,
                forall|j: int| 0 <= j < i ==> nonce@[j] == digest@[j],
            decreases 24 - i,
        {
            nonce.set(i, digest[i]);
            i = i + 1;
        }
        proof {
            assert(nonce@ =~= digest@.subrange(0, 24));
        }
        nonce
    }

    /// The bytes to store for an object: sealed where the store encrypts.
    pub fn maybe_encrypt_bytes(&self, object_hash: &ObjectHash, bytes: &[u8]) -> (r: AppResult<Vec<u8>>)
        ensures
            self.encryption is None ==> r is Ok,
            self.encryption is Some ==> (r is Ok <==> bytes@.len() < seal_limit()),
            r is Ok ==> r->Ok_0@ == stored_form(self.encryption, object_hash.0@, bytes@),
            r is Ok && self.encryption is Some ==> r->Ok_0@.len() == bytes@.len() + 44 && r->Ok_0@.subrange(0, 4)
                == magic(),
            r is Err ==> r->Err_0.code@ == "KC_ENCRYPTION_KEY_INVALID"@,
    {
        match &self.encryption {
            None => {
                let mut out: Vec<u8> = Vec::new();
                let mut i: usize = 0;
                while i < bytes.len()
                    invariant
                        i <= bytes@.len(),
                        out@ == bytes@.subrange(0, i as int),
                    decreases bytes.len() - i,
                {
                    out.push(bytes[i]);
                    i = i + 1;
                }
                proof {
                    assert(out@ =~= bytes@);
                }
                Ok(out)
            },
            Some(enc) => {
                let nonce = Self::deterministic_nonce(object_hash, enc.key_reference.as_str());
                let ct = match xchacha_encrypt(&enc.key, &nonce, bytes) {
                    Ok(c) => c,
                    Err(msg) => {
                        return Err(encryption_error(
                            "KC_ENCRYPTION_KEY_INVALID",
                            "failed encrypting object payload",
                            JsonValue::Object(vec![sfield("error", msg.as_str())]),
                        ));
                    },
                };
                let mut out: Vec<u8> = vec![0x4Bu8, 0x43u8, 0x45u8, 0x31u8];
                let mut i: usize = 0;
                while i < 24
                    invariant
                        i <= 24,
                        nonce@.len() == 24,
                        out@ == magic() + nonce@.subrange(0, i as int),
                    decreases 24 - i,
                {
                    out.push(nonce[i]);
                    proof {
                        assert(nonce@.subrange(0, i + 1) =~= nonce@.subrange(0, i as int).push(nonce@[i as int]));
                    }
                    i = i + 1;
                }
                let mut j: usize = 0;
                while j < ct.len()
                    invariant
                        j <= ct@.len(),
                        nonce@.len() == 24,
                        out@ == magic() + nonce@ + ct@.subrange(0, j as int),
                    decreases ct.len() - j,
                {
                    out.push(ct[j]);
                    proof {
                        assert(ct@.subrange(0, j + 1) =~= ct@.subrange(0, j as int).push(ct@[j as int]));
                    }
                    j = j + 1;
                }
                proof {
                    assert(nonce@.subrange(0, 24) =~= nonce@);
                    assert(ct@.subrange(0, ct@.len() as int) =~= ct@);
                    assert(out@ =~= magic() + nonce@ + ct@);
                }
                Ok(out)
            },
        }
    }

    /// The bytes of an object read from the store: opened where they carry
    /// the encryption mark, as read otherwise.
    pub fn maybe_decrypt_bytes(&self, object_hash: &ObjectHash, bytes: &[u8]) -> (r: AppResult<Vec<u8>>)
        ensures
            decrypt_relation(self.encryption, object_hash.0@, bytes@, outcome(r)),
    {
        proof {
            assert(magic().len() == 4);
        }
        let marked = bytes.len() >= 4 && bytes[0] == 0x4Bu8 && bytes[1] == 0x43u8 && bytes[2] == 0x45u8 && bytes[3]
            == 0x31u8;
        proof {
            if bytes@.len() >= 4 {
                assert(marked == (bytes@.subrange(0, 4) =~= magic()));
            }
        }
        if !marked {
            let mut out: Vec<u8> = Vec::new();
            let mut i: usize = 0;
            while i < bytes.len()
                invariant
                    i <= bytes@.len(),
                    out@ == bytes@.subrange(0, i as int),
                decreases bytes.len() - i,
            {
                out.push(bytes[i]);
                i = i + 1;
            }
            proof {
                assert(out@ =~= bytes@);
            }
            return Ok(out);
        }
        let enc = match &self.encryption {
            None => {
                return Err(encryption_error(
                    "KC_ENCRYPTION_REQUIRED",
                    "encrypted object payload requires encryption context",
                    JsonValue::Object(vec![sfield("object_hash", object_hash.0.as_str())]),
                ));
            },
            Some(e) => e,
        };
        if bytes.len() < 28 {
            return Err(encryption_error(
                "KC_ENCRYPTION_UNSUPPORTED",
                "encrypted object payload has invalid format",
                JsonValue::Object(vec![
                    sfield("object_hash", object_hash.0.as_str()),
                    (owned("bytes"), juint(bytes.len() as u64)),
                ]),
            ));
        }
        let mut nonce = [0u8; 24];
        let mut i: usize = 0;
        while i < 24
            invariant
                i <= 24,
                bytes@.len() >= 28,
                nonce@.len() == 24,
                forall|j: int| 0 <= j < i ==> nonce@[j] == bytes@[4 + j],
            decreases 24 - i,
        {
            nonce.set(i, bytes[4 + i]);
            i = i + 1;
        }
        let mut ct: Vec<u8> = Vec::new();
        let mut k: usize = 28;
        while k < bytes.len()
            invariant
                28 <= k <= bytes@.len(),
                ct@ == bytes@.subrange(28, k as int),
            decreases bytes.len() - k,
        {
            ct.push(bytes[k]);
            proof {
                assert(bytes@.subrange(28, k + 1) =~= bytes@.subrange(28, k as int).push(bytes@[k as int]));
            }
            k = k + 1;
        }
        proof {
            assert(nonce@ =~= bytes@.subrange(4, 28));
        }
        let expected = Self::deterministic_nonce(object_hash, enc.key_reference.as_str());
        let mut same = true;
        let mut q: usize = 0;
        while q < 24
            invariant
                q <= 24,
                nonce@.len() == 24,
                expected@.len() == 24,
                same == forall|j: int| 0 <= j < q ==> nonce@[j] == expected@[j],
            decreases 24 - q,
        {
            if nonce[q] != expected[q] {
                same = false;
            }
            q = q + 1;
        }
        proof {
            if same {
                assert(nonce@ =~= expected@);
            }
        }
        if !same {
            return Err(encryption_error(
                "KC_ENCRYPTION_KEY_INVALID",
                "encryption key context does not match stored object payload",
                JsonValue::Object(vec![sfield("object_hash", object_hash.0.as_str())]),
            ));
        }
        match xchacha_decrypt(&enc.key, &nonce, ct.as_slice()) {
            Ok(p) => Ok(p),
            Err(msg) => Err(encryption_error(
                "KC_ENCRYPTION_KEY_INVALID",
                "failed decrypting object payload",
                JsonValue::Object(vec![sfield("error", msg.as_str()), sfield("object_hash", object_hash.0.as_str())]),
            )),
        }
    }

    /// Where an object is filed: `<objects_dir>/<first two hex digits>/<hash>`,
    /// for a hash written `blake3:` and at least two more characters.
    pub fn file_path_for_hash(&self, object_hash: &ObjectHash) -> (r: AppResult<String>)
        requires
            object_hash.0@.len() >= 9 ==> object_hash.0@[7] < '\u{80}' && object_hash.0@[8] < '\u{80}',
            object_hash.0@.len() == 8 ==> object_hash.0@[7] < '\u{80}',
        ensures
            r is Ok <==> has_prefix(object_hash.0@, "blake3:"@) && object_hash.0@.len() >= 9,
            r is Err ==> r->Err_0.code@ == "KC_HASH_INVALID_FORMAT"@,
            r is Ok ==> r->Ok_0@ == path_join(path_join(self.objects_dir@, object_hash.0@.subrange(7, 9)), object_hash.0@),
    {
        let cs = chars_of(object_hash.0.as_str());
        if !starts_with(object_hash.0.as_str(), "blake3:") || cs.len() < 9 {
            return Err(AppError::new(
                "KC_HASH_INVALID_FORMAT",
                "object_store",
                "invalid object hash format",
                false,
                JsonValue::Object(vec![sfield("object_hash", object_hash.0.as_str())]),
            ));
        }
        let prefix = string_from_range(&cs, 7, 9);
        let dir = join_path(self.objects_dir.as_str(), prefix.as_str());
        Ok(join_path(dir.as_str(), object_hash.0.as_str()))
    }

    /// The path of an object relative to the objects directory, as recorded.
    pub fn relpath_for_hash(object_hash: &ObjectHash) -> (r: String)
        requires
            object_hash.0@.len() >= 9,
        ensures
            r@ == object_hash.0@.subrange(7, 9) + "/"@ + object_hash.0@,
    {
        let cs = chars_of(object_hash.0.as_str());
        let mut out = string_from_range(&cs, 7, 9);
        push_str(&mut out, "/");
        push_str(&mut out, object_hash.0.as_str());
        out
    }

    /// The hash an object is filed under, and where.
    pub fn put_plan(&self, bytes: &[u8]) -> (r: (ObjectHash, String))
        ensures
            r.0.0@ == blake3_prefixed(bytes@),
            r.1@ == path_join(path_join(self.objects_dir@, r.0.0@.subrange(7, 9)), r.0.0@),
    {
        let h = blake3_hex_prefixed(bytes);
        let hash = ObjectHash(h);
        proof {
            reveal_strlit("blake3:");
            assert(hash.0@.subrange(0, 7) =~= "blake3:"@);
            assert(crate::hashing::is_lower_hex(hash.0@[7]));
            assert(crate::hashing::is_lower_hex(hash.0@[8]));
        }
        let path = match self.file_path_for_hash(&hash) {
            Ok(p) => p,
            Err(_) => String::new(),
        };
        (hash, path)
    }
}

/// What an encrypted store writes, it reads back: the stored form of any
/// bytes the cipher can seal opens to those bytes, under the same hash and
/// context; without encryption, bytes that do not start with the mark are
/// read back as they are.
pub proof fn law_store_round_trip(
    enc: Option<ObjectStoreEncryptionContext>,
    object_hash: Seq<char>,
    bytes: Seq<u8>,
    r: Result<Seq<u8>, Seq<char>>,
)
    requires
        bytes.len() < seal_limit(),
        enc is None ==> !(bytes.len() >= 4 && bytes.subrange(0, 4) == magic()),
        enc is Some ==> blake3_of(vstd::utf8::encode_utf8(object_hash + ":"@ + enc->Some_0.key_reference@)).len() == 32,
        decrypt_relation(enc, object_hash, stored_form(enc, object_hash, bytes), r),
    ensures
        r == Ok::<Seq<u8>, Seq<char>>(bytes),
{
    match enc {
        None => {},
        Some(e) => {
            let n = nonce_of(object_hash, e.key_reference@);
            let data = stored_form(enc, object_hash, bytes);
            let ct = xchacha_seal(e.key@, n, bytes);
            assert(data == magic() + n + ct);
            assert(n.len() == 24);
            assert(data.subrange(0, 4) =~= magic());
            assert(data.subrange(4, 28) =~= n);
            assert(data.subrange(28, data.len() as int) =~= ct);
        },
    }
}

} // verus!
