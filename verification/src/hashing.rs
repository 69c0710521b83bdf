//! Content hashes: BLAKE3 digests written as `blake3:` and 64 lowercase hex digits.
use vstd::prelude::*;
use crate::app_error::{AppError, AppResult};
use crate::json::{JsonValue, field, jstr};
use crate::text::{chars_of, push_char, push_str, has_prefix};

verus! {

/// The BLAKE3 digest of a byte sequence.
pub uninterp spec fn blake3_of(input: Seq<u8>) -> Seq<u8>;

/// `blake3::hash`: the 32-byte BLAKE3 digest of `input`.
#[verifier::external_body]
pub(crate) fn blake3_digest(input: &[u8]) -> (r: Vec<u8>)
    ensures
        r@ == blake3_of(input@),
        r@.len() == 32,
{
    blake3::hash(input).as_bytes().to_vec()
}

/// Lowercase hex digit for a value below 16.
pub open spec fn hex_char(d: u8) -> char {
    if d < 10 {
        ((d + 48) as u8) as char
    } else {
        ((d + 87) as u8) as char
    }
}

/// Lowercase hex of a byte sequence, two digits per byte, high nibble first.
pub open spec fn hex_lower(bytes: Seq<u8>) -> Seq<char>
    decreases bytes.len(),
{
    if bytes.len() == 0 {
        Seq::empty()
    } else {
        hex_lower(bytes.drop_last()) + seq![hex_char(bytes.last() / 16), hex_char(bytes.last() % 16)]
    }
}

/// `0`-`9` or `a`-`f`.
pub open spec fn is_lower_hex(c: char) -> bool {
    ('0' <= c && c <= '9') || ('a' <= c && c <= 'f')
}

pub open spec fn hash_prefix() -> Seq<char> {
    seq!['b', 'l', 'a', 'k', 'e', '3', ':']
}

/// The prefixed hash text of a byte sequence.
pub open spec fn blake3_prefixed(bytes: Seq<u8>) -> Seq<char> {
    hash_prefix() + hex_lower(blake3_of(bytes))
}

/// A well-formed prefixed hash: the prefix, then 64 lowercase hex digits.
pub open spec fn is_prefixed_hash(s: Seq<char>) -> bool {
    &&& has_prefix(s, hash_prefix())
    &&& s.len() == 71
    &&& forall|i: int| 7 <= i < 71 ==> is_lower_hex(#[trigger] s[i])
}

pub proof fn lemma_hex_lower_shape(bytes: Seq<u8>)
    ensures
        hex_lower(bytes).len() == 2 * bytes.len(),
        forall|i: int| 0 <= i < hex_lower(bytes).len() ==> is_lower_hex(#[trigger] hex_lower(bytes)[i]),
    decreases bytes.len(),
{
    if bytes.len() > 0 {
        lemma_hex_lower_shape(bytes.drop_last());
        let h = hex_lower(bytes);
        let h0 = hex_lower(bytes.drop_last());
        assert forall|i: int| 0 <= i < h.len() implies is_lower_hex(#[trigger] h[i]) by {
            if i < h0.len() {
                assert(h[i] == h0[i]);
            }
        }
    }
}

fn hex_digit(d: u8) -> (c: char)
    requires
        d < 16,
    ensures
        c == hex_char(d),
{
    if d < 10 {
        (d + 48) as char
    } else {
        (d + 87) as char
    }
}

/// `blake3::Hash::to_hex` applied to the digest bytes.
pub fn to_hex_lower(bytes: &Vec<u8>) -> (r: String)
    ensures
        r@ == hex_lower(bytes@),
{
    let mut out = String::new();
    let mut i: usize = 0;
    while i < bytes.len()
        invariant
            i <= bytes@.len(),
            out@ == hex_lower(bytes@.subrange(0, i as int)),
        decreases bytes.len() - i,
    {
        let b = bytes[i];
        push_char(&mut out, hex_digit(b / 16));
        push_char(&mut out, hex_digit(b % 16));
        assert(bytes@.subrange(0, i + 1).drop_last() =~= bytes@.subrange(0, i as int));
        i = i + 1;
    }
    assert(bytes@.subrange(0, bytes@.len() as int) =~= bytes@);
    out
}

/// `blake3:` followed by the lowercase hex BLAKE3 digest of `bytes`.
pub fn blake3_hex_prefixed(bytes: &[u8]) -> (r: String)
    ensures
        r@ == blake3_prefixed(bytes@),
        is_prefixed_hash(r@),
{
    let digest = blake3_digest(bytes);
    let hex = to_hex_lower(&digest);
    let mut out = String::new();
    push_str(&mut out, "blake3:");
    push_str(&mut out, hex.as_str());
    proof {
        reveal_strlit("blake3:");
        lemma_hex_lower_shape(blake3_of(bytes@));
        assert(out@ =~= blake3_prefixed(bytes@));
        assert(out@.subrange(0, 7) =~= hash_prefix());
        assert forall|i: int| 7 <= i < 71 implies is_lower_hex(#[trigger] out@[i]) by {
            assert(out@[i] == hex_lower(blake3_of(bytes@))[i - 7]);
        }
    }
    out
}

/// Checks that `s` is a prefixed lowercase BLAKE3 hex digest.
pub fn validate_blake3_prefixed(s: &str) -> (r: AppResult<()>)
    ensures
        r is Ok <==> is_prefixed_hash(s@),
        !has_prefix(s@, hash_prefix()) ==> r is Err && r->Err_0.code@ == "KC_HASH_INVALID_FORMAT"@,
        has_prefix(s@, hash_prefix()) && !is_prefixed_hash(s@) ==> r is Err && r->Err_0.code@
            == "KC_HASH_DECODE_FAILED"@,
        r is Err ==> r->Err_0.category@ == "hash"@ && !r->Err_0.retryable,
{
    let cs = chars_of(s);
    proof {
        reveal_strlit("blake3:");
    }
    let prefixed = cs.len() >= 7 && cs[0] == 'b' && cs[1] == 'l' && cs[2] == 'a' && cs[3] == 'k' && cs[4]
        == 'e' && cs[5] == '3' && cs[6] == ':';
    if !prefixed {
        proof {
            if has_prefix(s@, hash_prefix()) {
                assert(cs@[0] == s@.subrange(0, 7)[0]);
                assert(cs@[1] == s@.subrange(0, 7)[1]);
                assert(cs@[2] == s@.subrange(0, 7)[2]);
                assert(cs@[3] == s@.subrange(0, 7)[3]);
                assert(cs@[4] == s@.subrange(0, 7)[4]);
                assert(cs@[5] == s@.subrange(0, 7)[5]);
                assert(cs@[6] == s@.subrange(0, 7)[6]);
            }
        }
        return Err(
            AppError::new(
                "KC_HASH_INVALID_FORMAT",
                "hash",
                "hash must start with blake3:",
                false,
                JsonValue::Object(vec![field("value", jstr(s))]),
            ),
        );
    }
    assert(s@.subrange(0, 7) =~= hash_prefix());
    let mut ok = cs.len() == 71;
    let mut i: usize = 7;
    while ok && i < cs.len()
        invariant
            cs@ == s@,
            7 <= i <= cs@.len(),
            ok ==> cs@.len() == 71,
            ok ==> forall|j: int| 7 <= j < i ==> is_lower_hex(#[trigger] cs@[j]),
            !ok ==> !is_prefixed_hash(s@),
        decreases cs.len() - i,
    {
        let c = cs[i];
        if !(('0' <= c && c <= '9') || ('a' <= c && c <= 'f')) {
            ok = false;
        }
        i = i + 1;
    }
    if !ok {
        return Err(
            AppError::new(
                "KC_HASH_DECODE_FAILED",
                "hash",
                "invalid lowercase hex digest",
                false,
                JsonValue::Object(vec![field("value", jstr(s))]),
            ),
        );
    }
    Ok(())
}

/// Every hash this library writes passes its own hash validation (a BLAKE3
/// digest is 32 bytes, as `blake3_digest` states of each digest it returns).
pub proof fn law_written_hashes_validate(bytes: Seq<u8>)
    requires
        blake3_of(bytes).len() == 32,
    ensures
        is_prefixed_hash(blake3_prefixed(bytes)),
{
    lemma_hex_lower_shape(blake3_of(bytes));
    let s = blake3_prefixed(bytes);
    assert(s.subrange(0, 7) =~= hash_prefix());
    assert forall|i: int| 7 <= i < 71 implies is_lower_hex(#[trigger] s[i]) by {
        assert(s[i] == hex_lower(blake3_of(bytes))[i - 7]);
    }
}

} // verus!
