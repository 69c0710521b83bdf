//! Trust policies of identity providers: the clock skew a session may have
//! and the claims it must carry, and the revocation of sessions.
use vstd::prelude::*;
use crate::app_error::{AppError, AppResult};
use crate::json::{JsonValue, canon, canonical_string, is_first, quote, push_quoted, sfield, ifield};
use crate::json::{find_key, lemma_find_key};
use crate::sync_transport::{trail_c, lemma_trail_c};
use crate::text::{blank, is_blank, owned, push_str, str_eq, trimmed, trim, to_ascii_lower, ascii_lower, chars_of,
    string_from_range};

verus! {

/// The clock skew a tenant template allows: five seconds.
pub const DEFAULT_TENANT_TEMPLATE_CLOCK_SKEW_MS: i64 = 5000;

/// The trust policy of an identity provider.
#[derive(Debug)]
pub struct TrustProviderPolicyV1 {
    pub provider_id: String,
    pub max_clock_skew_ms: i64,
    pub require_claims_json: String,
    pub updated_at_ms: i64,
}

/// The revocation of an identity session.
#[derive(Debug)]
pub struct TrustSessionRevocationV1 {
    pub session_id: String,
    pub revoked_by: String,
    pub revoked_at_ms: i64,
    pub details_json: String,
}

fn policy_error(code: &str, message: &str, details: JsonValue) -> (e: AppError)
    ensures
        e.code@ == code@,
        e.category@ == "trust_policy"@,
        e.message@ == message@,
        !e.retryable,
        e.details == details,
{
    AppError::new(code, "trust_policy", message, false, details)
}

fn invalid(message: &str) -> (e: AppError)
    ensures
        e.code@ == "KC_TRUST_PROVIDER_POLICY_INVALID"@,
        e.category@ == "trust_policy"@,
{
    policy_error("KC_TRUST_PROVIDER_POLICY_INVALID", message, JsonValue::Object(Vec::new()))
}

/// The claims a policy requires, where `v` states them: an object whose
/// keys (first occurrences) are not blank and whose values are strings.
pub open spec fn required_claims_ok(v: JsonValue) -> bool {
    v matches JsonValue::Object(es) && forall|i: int| #[trigger] is_first(es@, i) ==> !is_blank(es@[i].0@)
        && es@[i].1 is Str
}

/// The pair of key and string an entry holds.
pub open spec fn claim_pair(e: (String, JsonValue)) -> (Seq<char>, Seq<char>) {
    (e.0@, match e.1 {
        JsonValue::Str(s) => s@,
        _ => Seq::empty(),
    })
}

/// The pair `x` is that of a first entry of `es`.
pub open spec fn pair_from(es: Seq<(String, JsonValue)>, x: (String, String)) -> bool {
    exists|i: int| #[trigger] is_first(es, i) && x.0@ == claim_pair(es[i]).0 && x.1@ == claim_pair(es[i]).1
}

/// The pair of entry `e` is among `out`.
pub open spec fn pair_in(out: Seq<(String, String)>, e: (String, JsonValue)) -> bool {
    exists|p: int| 0 <= p < out.len() && (#[trigger] out[p]).0@ == claim_pair(e).0 && out[p].1@ == claim_pair(e).1
}

/// Reads the required claims of a policy from their JSON value (`Err` with
/// the reader's message where the text was not JSON): the key and value of
/// each first entry, in order.
pub fn parse_require_claims(parsed: &Result<JsonValue, String>) -> (r: AppResult<Vec<(String, String)>>)
    ensures
        r is Ok <==> parsed is Ok && required_claims_ok(parsed->Ok_0),
        r is Err ==> r->Err_0.code@ == "KC_TRUST_PROVIDER_POLICY_INVALID"@,
        r is Ok ==> {
            let es = parsed->Ok_0->Object_0@;
            let out = r->Ok_0@;
            &&& forall|p: int| 0 <= p < out.len() ==> pair_from(es, #[trigger] out[p])
            &&& forall|i: int| #[trigger] is_first(es, i) ==> pair_in(out, es[i])
        },
{
    let v = match parsed {
        Err(msg) => {
            return Err(policy_error(
                "KC_TRUST_PROVIDER_POLICY_INVALID",
                "failed parsing required claims JSON",
                JsonValue::Object(vec![sfield("error", msg.as_str())]),
            ));
        },
        Ok(v) => v,
    };
    let es = match v {
        JsonValue::Object(es) => es,
        _ => {
            return Err(invalid("required claims JSON must be an object"));
        },
    };
    let mut out: Vec<(String, String)> = Vec::new();
    let mut i: usize = 0;
    while i < es.len()
        invariant
            i <= es@.len(),
            *v == JsonValue::Object(*es),
            *parsed == Ok::<JsonValue, String>(*v),
            forall|j: int| 0 <= j < i && #[trigger] is_first(es@, j) ==> !is_blank(es@[j].0@) && es@[j].1 is Str,
            forall|p: int| 0 <= p < out@.len() ==> pair_from(es@, #[trigger] out@[p]),
            forall|j: int| 0 <= j < i && #[trigger] is_first(es@, j) ==> pair_in(out@, es@[j]),
        decreases es.len() - i,
    {
        let key = es[i].0.as_str();
        let mut first = true;
        let mut j: usize = 0;
        while j < i
            invariant
                j <= i < es@.len(),
                key@ == es@[i as int].0@,
                first == forall|m: int| 0 <= m < j ==> (#[trigger] es@[m]).0@ != es@[i as int].0@,
            decreases i - j,
        {
            if str_eq(es[j].0.as_str(), key) {
                first = false;
            }
            j = j + 1;
        }
        if first {
            proof {
                assert(is_first(es@, i as int));
            }
            if blank(key) {
                proof {
                    assert(!required_claims_ok(*v));
                }
                return Err(policy_error(
                    "KC_TRUST_PROVIDER_POLICY_INVALID",
                    "required claim key must not be empty",
                    JsonValue::Object(vec![sfield("key", key)]),
                ));
            }
            match &es[i].1 {
                JsonValue::Str(s) => {
                    let ghost before = out@;
                    out.push((owned(key), s.clone()));
                    proof {
                        assert(out@[before.len() as int].0@ == claim_pair(es@[i as int]).0);
                        assert(out@[before.len() as int].1@ == claim_pair(es@[i as int]).1);
                        assert forall|p: int| 0 <= p < out@.len() implies pair_from(es@, #[trigger] out@[p]) by {
                            if p < before.len() {
                                assert(out@[p] == before[p]);
                                assert(pair_from(es@, before[p]));
                            } else {
                                assert(is_first(es@, i as int));
                            }
                        }
                        assert forall|m: int| 0 <= m < i + 1 && #[trigger] is_first(es@, m) implies pair_in(out@, es@[m]) by {
                            if m < i {
                                assert(pair_in(before, es@[m]));
                                let p = choose|p: int| 0 <= p < before.len() && (#[trigger] before[p]).0@ == claim_pair(es@[m]).0
                                    && before[p].1@ == claim_pair(es@[m]).1;
                                assert(out@[p] == before[p]);
                            } else {
                                assert(out@[before.len() as int].1@ == claim_pair(es@[m]).1);
                            }
                        }
                    }
                },
                _ => {
                    proof {
                        assert(!required_claims_ok(*v));
                    }
                    return Err(policy_error(
                        "KC_TRUST_PROVIDER_POLICY_INVALID",
                        "required claims values must be strings",
                        JsonValue::Object(vec![sfield("key", key)]),
                    ));
                },
            }
        } else {
            proof {
                assert(!is_first(es@, i as int));
            }
        }
        i = i + 1;
    }
    proof {
        assert(parsed->Ok_0->Object_0@ == es@);
    }
    Ok(out)
}

/// A tenant id, trimmed and lowercased, where it is not empty.
pub fn normalize_tenant_id(tenant_id: &str) -> (r: AppResult<String>)
    ensures
        r is Ok <==> trim(tenant_id@).len() > 0,
        r is Ok ==> r->Ok_0@ == ascii_lower(trim(tenant_id@)),
        r is Err ==> r->Err_0.code@ == "KC_TRUST_PROVIDER_POLICY_INVALID"@,
{
    let t = trimmed(tenant_id);
    let n = to_ascii_lower(t.as_str());
    if n.as_str().is_empty() {
        return Err(invalid("tenant_id must not be empty"));
    }
    Ok(n)
}

/// An issuer as the template keeps it: trimmed, trailing slashes dropped,
/// lowercased.
pub open spec fn issuer_norm(issuer: Seq<char>) -> Seq<char> {
    let t = trim(issuer);
    ascii_lower(t.subrange(0, t.len() - trail_c(t, '/')))
}

fn normalize_issuer(issuer: &str) -> (r: String)
    ensures
        r@ == issuer_norm(issuer@),
{
    let t = trimmed(issuer);
    let cs = chars_of(t.as_str());
    let mut b = cs.len();
    while b > 0 && cs[b - 1] == '/'
        invariant
            cs@ == t@,
            b <= cs@.len(),
            forall|j: int| b <= j < cs@.len() ==> cs@[j] == '/',
        decreases b,
    {
        b = b - 1;
    }
    proof {
        lemma_trail_c(cs@, '/', (cs@.len() - b) as int);
    }
    let s = string_from_range(&cs, 0, b);
    to_ascii_lower(s.as_str())
}

/// The claims a tenant template requires, as canonical JSON.
pub open spec fn tenant_claims_text(audience: Seq<char>, issuer: Seq<char>, tenant: Seq<char>) -> Seq<char> {
    "{"@ + quote("aud"@) + ":"@ + quote(audience) + ","@ + quote("iss"@) + ":"@ + quote(issuer) + ","@ + quote("tenant"@)
        + ":"@ + quote(tenant) + "}"@
}

/// Whether a provider can be given a policy: named, with a skew that is not
/// negative, and known (`provider_exists`).
pub open spec fn provider_policy_allowed(provider_id: Seq<char>, max_clock_skew_ms: int, provider_exists: bool) -> bool {
    !is_blank(provider_id) && max_clock_skew_ms >= 0 && provider_exists
}

fn check_provider(provider_id: &str, max_clock_skew_ms: i64, provider_exists: bool) -> (r: AppResult<()>)
    ensures
        r is Ok <==> provider_policy_allowed(provider_id@, max_clock_skew_ms as int, provider_exists),
        r is Err ==> r->Err_0.code@ == "KC_TRUST_PROVIDER_POLICY_INVALID"@,
{
    if blank(provider_id) {
        return Err(invalid("provider_id is required"));
    }
    if max_clock_skew_ms < 0 {
        return Err(policy_error(
            "KC_TRUST_PROVIDER_POLICY_INVALID",
            "max_clock_skew_ms must be >= 0",
            JsonValue::Object(vec![ifield("max_clock_skew_ms", max_clock_skew_ms)]),
        ));
    }
    if !provider_exists {
        return Err(policy_error(
            "KC_TRUST_PROVIDER_POLICY_INVALID",
            "provider must exist before policy can be set",
            JsonValue::Object(vec![sfield("provider_id", provider_id)]),
        ));
    }
    Ok(())
}

/// Sets the policy of a provider from a tenant template: the session must
/// carry the audience, the issuer (normalized) and the tenant (normalized),
/// within five seconds of skew. `provider_exists` says whether the provider
/// is known. Storing the policy is the caller's.
pub fn trust_provider_policy_set_tenant_template(
    provider_id: &str,
    issuer: &str,
    audience: &str,
    tenant_id: &str,
    now_ms: i64,
    provider_exists: bool,
) -> (r: AppResult<TrustProviderPolicyV1>)
    ensures
        r is Ok <==> trim(tenant_id@).len() > 0 && issuer_norm(issuer@).len() > 0 && !is_blank(audience@)
            && provider_policy_allowed(provider_id@, DEFAULT_TENANT_TEMPLATE_CLOCK_SKEW_MS as int, provider_exists),
        r is Err ==> r->Err_0.code@ == "KC_TRUST_PROVIDER_POLICY_INVALID"@,
        r is Ok ==> {
            let p = r->Ok_0;
            &&& p.provider_id@ == provider_id@
            &&& p.max_clock_skew_ms == DEFAULT_TENANT_TEMPLATE_CLOCK_SKEW_MS
            &&& p.require_claims_json@ == tenant_claims_text(trim(audience@), issuer_norm(issuer@), ascii_lower(trim(tenant_id@)))
            &&& p.updated_at_ms == now_ms
        },
{
    let tenant = normalize_tenant_id(tenant_id)?;
    let iss = normalize_issuer(issuer);
    proof {
        crate::text::lemma_trim_blank(audience@);
    }
    if iss.as_str().is_empty() || blank(audience) {
        return Err(policy_error(
            "KC_TRUST_PROVIDER_POLICY_INVALID",
            "issuer and audience are required",
            JsonValue::Object(vec![sfield("issuer", iss.as_str()), sfield("audience", audience)]),
        ));
    }
    let aud = trimmed(audience);
    let mut text = String::new();
    push_str(&mut text, "{");
    push_quoted(&mut text, "aud");
    push_str(&mut text, ":");
    push_quoted(&mut text, aud.as_str());
    push_str(&mut text, ",");
    push_quoted(&mut text, "iss");
    push_str(&mut text, ":");
    push_quoted(&mut text, iss.as_str());
    push_str(&mut text, ",");
    push_quoted(&mut text, "tenant");
    push_str(&mut text, ":");
    push_quoted(&mut text, tenant.as_str());
    push_str(&mut text, "}");
    check_provider(provider_id, DEFAULT_TENANT_TEMPLATE_CLOCK_SKEW_MS, provider_exists)?;
    Ok(TrustProviderPolicyV1 {
        provider_id: owned(provider_id),
        max_clock_skew_ms: DEFAULT_TENANT_TEMPLATE_CLOCK_SKEW_MS,
        require_claims_json: text,
        updated_at_ms: now_ms,
    })
}

/// Sets the policy of a provider: named, known (`provider_exists`), a skew
/// that is not negative, and required claims (their JSON value; `Err`
/// where the text was not JSON) stored as canonical JSON. Storing the
/// policy is the caller's.
pub fn trust_provider_policy_set(
    provider_id: &str,
    max_clock_skew_ms: i64,
    require_claims: &Result<JsonValue, String>,
    now_ms: i64,
    provider_exists: bool,
) -> (r: AppResult<TrustProviderPolicyV1>)
    ensures
        r is Ok <==> provider_policy_allowed(provider_id@, max_clock_skew_ms as int, provider_exists)
            && require_claims is Ok && required_claims_ok(require_claims->Ok_0) && canon(require_claims->Ok_0) is Some,
        !(provider_policy_allowed(provider_id@, max_clock_skew_ms as int, provider_exists) && require_claims is Ok
            && required_claims_ok(require_claims->Ok_0)) ==> r is Err && r->Err_0.code@
            == "KC_TRUST_PROVIDER_POLICY_INVALID"@,
        provider_policy_allowed(provider_id@, max_clock_skew_ms as int, provider_exists) && require_claims is Ok
            && required_claims_ok(require_claims->Ok_0) && canon(require_claims->Ok_0) is None ==> r is Err
            && r->Err_0.code@ == "KC_CANON_JSON_FLOAT_FORBIDDEN"@,
        r is Ok ==> {
            let p = r->Ok_0;
            &&& p.provider_id@ == provider_id@
            &&& p.max_clock_skew_ms == max_clock_skew_ms
            &&& p.require_claims_json@ == canon(require_claims->Ok_0)->Some_0
            &&& p.updated_at_ms == now_ms
        },
{
    check_provider(provider_id, max_clock_skew_ms, provider_exists)?;
    let _claims = parse_require_claims(require_claims)?;
    let v = match require_claims {
        Ok(v) => v,
        Err(_) => {
            return Err(invalid("failed parsing required claims JSON"));
        },
    };
    let canonical = canonical_string(v)?;
    Ok(TrustProviderPolicyV1 {
        provider_id: owned(provider_id),
        max_clock_skew_ms,
        require_claims_json: canonical,
        updated_at_ms: now_ms,
    })
}

/// Revokes an identity session, given whether it exists. The revocation
/// records who revoked it as canonical JSON. Storing it is the caller's.
pub fn trust_session_revoke(session_id: &str, revoked_by: &str, now_ms: i64, session_exists: bool) -> (r: AppResult<TrustSessionRevocationV1>)
    ensures
        r is Ok <==> !is_blank(session_id@) && !is_blank(revoked_by@) && session_exists,
        r is Err ==> r->Err_0.code@ == "KC_TRUST_SESSION_REVOKED"@,
        r is Ok ==> {
            let v = r->Ok_0;
            &&& v.session_id@ == session_id@
            &&& v.revoked_by@ == revoked_by@
            &&& v.revoked_at_ms == now_ms
            &&& v.details_json@ == "{"@ + quote("revoked_by"@) + ":"@ + quote(revoked_by@) + "}"@
        },
{
    if blank(session_id) || blank(revoked_by) {
        return Err(policy_error(
            "KC_TRUST_SESSION_REVOKED",
            "session_id and revoked_by are required",
            JsonValue::Object(Vec::new()),
        ));
    }
    if !session_exists {
        return Err(policy_error(
            "KC_TRUST_SESSION_REVOKED",
            "cannot revoke unknown identity session",
            JsonValue::Object(vec![sfield("session_id", session_id)]),
        ));
    }
    let mut details = String::new();
    push_str(&mut details, "{");
    push_quoted(&mut details, "revoked_by");
    push_str(&mut details, ":");
    push_quoted(&mut details, revoked_by);
    push_str(&mut details, "}");
    Ok(TrustSessionRevocationV1 {
        session_id: owned(session_id),
        revoked_by: owned(revoked_by),
        revoked_at_ms: now_ms,
        details_json: details,
    })
}

/// The session's claims hold each required pair: the claim with that key
/// (first entry) is that string.
pub open spec fn claims_hold(required: Seq<(String, String)>, claims: Seq<(String, JsonValue)>) -> bool {
    forall|p: int| 0 <= p < required.len() ==> {
        let k = find_key(claims, (#[trigger] required[p]).0@);
        k < claims.len() && (claims[k].1 matches JsonValue::Str(s) && s@ == required[p].1@)
    }
}


/// Whether `claims` hold each required pair.
pub fn claims_hold_check(required: &Vec<(String, String)>, claims: &Vec<(String, JsonValue)>) -> (r: bool)
    ensures
        r == claims_hold(required@, claims@),
{
    let mut q: usize = 0;
    while q < required.len()
        invariant
            q <= required@.len(),
            forall|p: int| 0 <= p < q ==> {
                let k = find_key(claims@, (#[trigger] required@[p]).0@);
                k < claims@.len() && (claims@[k].1 matches JsonValue::Str(s) && s@ == required@[p].1@)
            },
        decreases required.len() - q,
    {
        let key = required[q].0.as_str();
        let mut k: usize = 0;
        while k < claims.len() && !str_eq(claims[k].0.as_str(), key)
            invariant
                k <= claims@.len(),
                key@ == required@[q as int].0@,
                forall|j: int| 0 <= j < k ==> (#[trigger] claims@[j]).0@ != key@,
            decreases claims.len() - k,
        {
            k = k + 1;
        }
        proof {
            lemma_find_key(claims@, key@, k as int);
        }
        let ok = k < claims.len() && match &claims[k].1 {
            JsonValue::Str(s) => str_eq(s.as_str(), required[q].1.as_str()),
            _ => false,
        };
        if !ok {
            return false;
        }
        q = q + 1;
    }
    true
}

/// The session falls within the policy's clock skew around its lifetime.
pub open spec fn within_skew(p: TrustProviderPolicyV1, issued_at_ms: int, expires_at_ms: int, now_ms: int) -> bool {
    issued_at_ms - p.max_clock_skew_ms <= now_ms <= expires_at_ms + p.max_clock_skew_ms
}

/// Checks an identity session against its provider's policy: it must not
/// be revoked (`revoked`); with no policy (`policy`) it is accepted;
/// otherwise it must fall within the clock skew and, where the policy
/// requires claims (`policy_claims`, the value of its stored claims), its
/// claim subset (`claim_subset`, its value; `Err` where not JSON) must hold
/// each of them.
pub fn ensure_session_policy_allows(
    provider_id: &str,
    session_id: &str,
    claim_subset: &Result<JsonValue, String>,
    issued_at_ms: i64,
    expires_at_ms: i64,
    now_ms: i64,
    revoked: bool,
    policy: &Option<TrustProviderPolicyV1>,
    policy_claims: &Result<JsonValue, String>,
) -> (r: AppResult<()>)
    requires
        !revoked && policy is Some ==> i64::MIN <= issued_at_ms - policy->Some_0.max_clock_skew_ms <= i64::MAX,
        !revoked && policy is Some ==> i64::MIN <= expires_at_ms + policy->Some_0.max_clock_skew_ms <= i64::MAX,
    ensures
        revoked ==> r is Err && r->Err_0.code@ == "KC_TRUST_SESSION_REVOKED"@,
        !revoked && policy is None ==> r is Ok,
        !revoked && policy is Some && !within_skew(policy->Some_0, issued_at_ms as int, expires_at_ms as int, now_ms as int)
            ==> r is Err && r->Err_0.code@ == "KC_TRUST_PROVIDER_POLICY_INVALID"@,
        !revoked && policy is Some && within_skew(policy->Some_0, issued_at_ms as int, expires_at_ms as int, now_ms as int)
            ==> {
            &&& !(policy_claims is Ok && required_claims_ok(policy_claims->Ok_0)) ==> r is Err
                && r->Err_0.code@ == "KC_TRUST_PROVIDER_POLICY_INVALID"@
            &&& policy_claims is Ok && required_claims_ok(policy_claims->Ok_0) ==> {
                let es = policy_claims->Ok_0->Object_0@;
                &&& (forall|i: int| !#[trigger] is_first(es, i)) ==> r is Ok
                &&& (exists|i: int| #[trigger] is_first(es, i)) ==> (r is Ok <==> claim_subset is Ok
                    && claim_subset->Ok_0 is Object && forall|i: int| #[trigger] is_first(es, i) ==> {
                    let cs = claim_subset->Ok_0->Object_0@;
                    let k = find_key(cs, es[i].0@);
                    k < cs.len() && (cs[k].1 matches JsonValue::Str(s) && s@ == claim_pair(es[i]).1)
                })
            }
        },
        r is Err ==> r->Err_0.code@ == "KC_TRUST_SESSION_REVOKED"@ || r->Err_0.code@ == "KC_TRUST_PROVIDER_POLICY_INVALID"@,
        !revoked && r is Err ==> r->Err_0.code@ == "KC_TRUST_PROVIDER_POLICY_INVALID"@,
{
    if revoked {
        return Err(policy_error(
            "KC_TRUST_SESSION_REVOKED",
            "identity session has been revoked",
            JsonValue::Object(vec![sfield("session_id", session_id), sfield("provider_id", provider_id)]),
        ));
    }
    let p = match policy {
        None => {
            return Ok(());
        },
        Some(p) => p,
    };
    let lower = issued_at_ms - p.max_clock_skew_ms;
    let upper = expires_at_ms + p.max_clock_skew_ms;
    if now_ms < lower || now_ms > upper {
        return Err(policy_error(
            "KC_TRUST_PROVIDER_POLICY_INVALID",
            "identity session falls outside provider clock skew policy",
            JsonValue::Object(vec![
                sfield("provider_id", provider_id),
                sfield("session_id", session_id),
                ifield("now_ms", now_ms),
                ifield("lower_bound_ms", lower),
                ifield("upper_bound_ms", upper),
            ]),
        ));
    }
    let required = parse_require_claims(policy_claims)?;
    let ghost es = policy_claims->Ok_0->Object_0@;
    if required.len() == 0 {
        proof {
            assert forall|i: int| !#[trigger] is_first(es, i) by {
                if is_first(es, i) {
                    assert(pair_in(required@, es[i]));
                }
            }
        }
        return Ok(());
    }
    proof {
        assert(pair_from(es, required@[0]));
    }
    let claims = match claim_subset {
        Err(msg) => {
            return Err(policy_error(
                "KC_TRUST_PROVIDER_POLICY_INVALID",
                "session claim subset is not valid JSON",
                JsonValue::Object(vec![
                    sfield("error", msg.as_str()),
                    sfield("provider_id", provider_id),
                    sfield("session_id", session_id),
                ]),
            ));
        },
        Ok(JsonValue::Object(cs)) => cs,
        Ok(_) => {
            return Err(policy_error(
                "KC_TRUST_PROVIDER_POLICY_INVALID",
                "session claim subset must be an object",
                JsonValue::Object(vec![sfield("provider_id", provider_id), sfield("session_id", session_id)]),
            ));
        },
    };
    let held = claims_hold_check(&required, claims);
    proof {
        assert(claim_subset->Ok_0->Object_0@ == claims@);
        if held {
            assert forall|i: int| #[trigger] is_first(es, i) implies ({
                let k = find_key(claims@, es[i].0@);
                k < claims@.len() && (claims@[k].1 matches JsonValue::Str(s) && s@ == claim_pair(es[i]).1)
            }) by {
                assert(pair_in(required@, es[i]));
                let p = choose|p: int| 0 <= p < required@.len() && (#[trigger] required@[p]).0@ == claim_pair(es[i]).0
                    && required@[p].1@ == claim_pair(es[i]).1;
                assert(required@[p].0@ == es[i].0@);
            }
        } else {
            let p = choose|p: int| 0 <= p < required@.len() && !({
                let k = find_key(claims@, (#[trigger] required@[p]).0@);
                k < claims@.len() && (claims@[k].1 matches JsonValue::Str(s) && s@ == required@[p].1@)
            });
            assert(pair_from(es, required@[p]));
            let i = choose|i: int| #[trigger] is_first(es, i) && required@[p].0@ == claim_pair(es[i]).0
                && required@[p].1@ == claim_pair(es[i]).1;
            assert(is_first(es, i));
        }
    }
    if !held {
        return Err(policy_error(
            "KC_TRUST_PROVIDER_POLICY_INVALID",
            "session claims do not satisfy provider policy",
            JsonValue::Object(vec![sfield("provider_id", provider_id), sfield("session_id", session_id)]),
        ));
    }
    Ok(())
}
} // verus!
