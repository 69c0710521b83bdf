//! Lineage policies: named allow or deny rules bound to subjects, with a
//! condition on the action and the document, and the decision they make
//! together, where a matching deny wins over any allow.
use vstd::prelude::*;
use crate::app_error::{AppError, AppResult};
use crate::hashing::{blake3_hex_prefixed, blake3_prefixed};
use crate::json::{JsonValue, JAtom, flat_obj, lemma_flat_obj, find_key, lemma_find_key, canon, canonical_string, is_first, sfield, field, jopt_str, jstr};
use crate::text::{blank, is_blank, owned, push_str, bytes_of, str_eq, trimmed, trim, to_ascii_lower, ascii_lower,
    starts_with, has_prefix};

verus! {

/// A stored policy.
#[derive(Debug)]
pub struct LineagePolicyV3 {
    pub policy_id: String,
    pub policy_name: String,
    pub effect: String,
    pub priority: i64,
    pub condition_json: String,
    pub created_by: String,
    pub created_at_ms: i64,
}

/// A policy bound to a subject.
#[derive(Debug)]
pub struct LineagePolicyBindingV3 {
    pub subject_id: String,
    pub policy_id: String,
    pub policy_name: String,
    pub effect: String,
    pub priority: i64,
    pub condition_json: String,
    pub bound_by: String,
    pub bound_at_ms: i64,
}

/// The decision the policies of a subject make on an action.
#[derive(Debug)]
pub struct LineagePolicyDecisionV3 {
    pub subject_id: String,
    pub action: String,
    pub doc_id: Option<String>,
    pub allowed: bool,
    pub reason: String,
    pub matched_policy_id: Option<String>,
    pub matched_policy_name: Option<String>,
    pub matched_effect: Option<String>,
}

/// The condition of a policy: the action it applies to and the prefix the
/// document id must have, each where given.
#[derive(Debug)]
pub struct LineagePolicyConditionV3 {
    pub action: Option<String>,
    pub doc_id_prefix: Option<String>,
}

/// A policy bound to the subject, in priority order, with its condition as
/// read from its stored text (`Err` with the reader's message where the
/// text is not JSON).
#[derive(Debug)]
pub struct EvaluatedPolicy {
    pub policy_id: String,
    pub policy_name: String,
    pub effect: String,
    pub condition: Result<JsonValue, String>,
}

fn policy_error(code: &str, message: &str, details: JsonValue) -> (e: AppError)
    ensures
        e.code@ == code@,
        e.category@ == "lineage"@,
        e.message@ == message@,
        !e.retryable,
        e.details == details,
{
    AppError::new(code, "lineage", message, false, details)
}

fn condition_invalid(message: &str) -> (e: AppError)
    ensures
        e.code@ == "KC_LINEAGE_POLICY_CONDITION_INVALID"@,
{
    policy_error("KC_LINEAGE_POLICY_CONDITION_INVALID", message, JsonValue::Object(Vec::new()))
}

/// An effect, trimmed and lowercased, where it is `allow` or `deny`.
pub open spec fn effect_of(effect: Seq<char>) -> Option<Seq<char>> {
    let n = ascii_lower(trim(effect));
    if n == "allow"@ || n == "deny"@ {
        Some(n)
    } else {
        None
    }
}

/// Normalizes an effect to `allow` or `deny`.
pub fn normalize_effect(effect: &str) -> (r: AppResult<String>)
    ensures
        effect_of(effect@) is Some <==> r is Ok,
        r is Ok ==> r->Ok_0@ == effect_of(effect@)->Some_0,
        r is Err ==> r->Err_0.code@ == "KC_LINEAGE_POLICY_CONDITION_INVALID"@,
{
    let t = trimmed(effect);
    let n = to_ascii_lower(t.as_str());
    proof {
        reveal_strlit("allow");
        reveal_strlit("deny");
    }
    if str_eq(n.as_str(), "allow") || str_eq(n.as_str(), "deny") {
        Ok(n)
    } else {
        Err(policy_error(
            "KC_LINEAGE_POLICY_CONDITION_INVALID",
            "lineage policy effect must be allow or deny",
            JsonValue::Object(vec![
                sfield("effect", effect),
                field("supported", JsonValue::Array(vec![jstr("allow"), jstr("deny")])),
            ]),
        ))
    }
}

/// The priority a policy gets from its effect: deny 100, allow 200, so that
/// denies are listed first.
pub fn default_priority(effect: &str) -> (r: i64)
    ensures
        r == (if effect@ == "deny"@ { 100i64 } else { 200i64 }),
{
    if str_eq(effect, "deny") {
        100
    } else {
        200
    }
}

/// The string a condition field holds, if any.
pub open spec fn field_value(es: Seq<(String, JsonValue)>, k: Seq<char>) -> Option<Seq<char>> {
    let i = find_key(es, k);
    if i < es.len() {
        match es[i].1 {
            JsonValue::Str(s) => Some(s@),
            _ => None,
        }
    } else {
        None
    }
}

/// Every key (first occurrence) is a condition field holding a string or null.
pub open spec fn fields_ok(es: Seq<(String, JsonValue)>) -> bool {
    forall|i: int| #[trigger] is_first(es, i) ==> (es[i].0@ == "action"@ || es[i].0@ == "doc_id_prefix"@)
        && (es[i].1 is Str || es[i].1 is Null)
}

/// The condition a JSON value states: an object, free of floats, with only
/// the fields `action` and `doc_id_prefix`, each a string or null, neither
/// string blank.
pub open spec fn condition_of(v: JsonValue) -> Option<(Option<Seq<char>>, Option<Seq<char>>)> {
    match v {
        JsonValue::Object(es) => {
            let a = field_value(es@, "action"@);
            let p = field_value(es@, "doc_id_prefix"@);
            if canon(v) is Some && fields_ok(es@) && !(a is Some && is_blank(a->Some_0)) && !(p is Some && is_blank(
                p->Some_0,
            )) {
                Some((a, p))
            } else {
                None
            }
        },
        _ => None,
    }
}

pub open spec fn opt_view(o: Option<String>) -> Option<Seq<char>> {
    match o {
        Some(s) => Some(s@),
        None => None,
    }
}

/// Reads a policy condition from its JSON value, and returns it with its
/// canonical text.
pub fn parse_condition(parsed: &JsonValue) -> (r: AppResult<(LineagePolicyConditionV3, String)>)
    ensures
        r is Ok <==> condition_of(*parsed) is Some,
        parsed is Object && canon(*parsed) is None ==> r is Err && r->Err_0.code@ == "KC_CANON_JSON_FLOAT_FORBIDDEN"@,
        !(parsed is Object && canon(*parsed) is None) && r is Err ==> r->Err_0.code@
            == "KC_LINEAGE_POLICY_CONDITION_INVALID"@,
        r is Ok ==> {
            let c = condition_of(*parsed)->Some_0;
            &&& opt_view(r->Ok_0.0.action) == c.0
            &&& opt_view(r->Ok_0.0.doc_id_prefix) == c.1
            &&& r->Ok_0.1@ == canon(*parsed)->Some_0
        },
{
    let es = match parsed {
        JsonValue::Object(es) => es,
        _ => {
            return Err(condition_invalid("lineage policy condition JSON must be an object"));
        },
    };
    let canonical = canonical_string(parsed)?;
    proof {
        reveal_strlit("action");
        reveal_strlit("doc_id_prefix");
    }
    let mut action_at: usize = es.len();
    let mut prefix_at: usize = es.len();
    let mut i: usize = 0;
    while i < es.len()
        invariant
            i <= es@.len(),
            *parsed == JsonValue::Object(*es),
            canon(*parsed) is Some,
            action_at <= es@.len(),
            prefix_at <= es@.len(),
            forall|j: int| 0 <= j < i && #[trigger] is_first(es@, j) ==> (es@[j].0@ == "action"@ || es@[j].0@
                == "doc_id_prefix"@) && (es@[j].1 is Str || es@[j].1 is Null),
            action_at == es@.len() ==> forall|j: int| 0 <= j < i ==> (#[trigger] es@[j]).0@ != "action"@,
            action_at < es@.len() ==> action_at < i && es@[action_at as int].0@ == "action"@ && forall|j: int|
                0 <= j < action_at ==> (#[trigger] es@[j]).0@ != "action"@,
            prefix_at == es@.len() ==> forall|j: int| 0 <= j < i ==> (#[trigger] es@[j]).0@ != "doc_id_prefix"@,
            prefix_at < es@.len() ==> prefix_at < i && es@[prefix_at as int].0@ == "doc_id_prefix"@ && forall|j: int|
                0 <= j < prefix_at ==> (#[trigger] es@[j]).0@ != "doc_id_prefix"@,
        decreases es.len() - i,
    {
        let key = es[i].0.as_str();
        let mut first = true;
        let mut j: usize = 0;
        while j < i
            invariant
                j <= i < es@.len(),
                key@ == es@[i as int].0@,
                first == forall|m: int| 0 <= m < j ==> (#[trigger] es@[m]).0@ != es@[i as int].0@,
            decreases i - j,
        {
            if str_eq(es[j].0.as_str(), key) {
                first = false;
            }
            j = j + 1;
        }
        if first {
            let is_action = str_eq(key, "action");
            let is_prefix = str_eq(key, "doc_id_prefix");
            if !is_action && !is_prefix {
                proof {
                    assert(is_first(es@, i as int));
                    assert(!fields_ok(es@));
                    assert(condition_of(*parsed) is None);
                }
                return Err(condition_invalid("failed decoding lineage policy condition fields"));
            }
            match &es[i].1 {
                JsonValue::Str(_) => {},
                JsonValue::Null => {},
                _ => {
                    proof {
                        assert(is_first(es@, i as int));
                        assert(!fields_ok(es@));
                        assert(condition_of(*parsed) is None);
                    }
                    return Err(condition_invalid("failed decoding lineage policy condition fields"));
                },
            }
            if is_action {
                action_at = i;
            }
            if is_prefix {
                prefix_at = i;
            }
        }
        i = i + 1;
    }
    proof {
        lemma_find_key(es@, "action"@, action_at as int);
        lemma_find_key(es@, "doc_id_prefix"@, prefix_at as int);
    }
    let action: Option<String> = if action_at < es.len() {
        match &es[action_at].1 {
            JsonValue::Str(s) => Some(s.clone()),
            _ => None,
        }
    } else {
        None
    };
    let doc_id_prefix: Option<String> = if prefix_at < es.len() {
        match &es[prefix_at].1 {
            JsonValue::Str(s) => Some(s.clone()),
            _ => None,
        }
    } else {
        None
    };
    if let Some(a) = &action {
        if blank(a.as_str()) {
            return Err(policy_error(
                "KC_LINEAGE_POLICY_CONDITION_INVALID",
                "lineage policy action condition must not be empty",
                JsonValue::Object(vec![sfield("field", "action")]),
            ));
        }
    }
    if let Some(p) = &doc_id_prefix {
        if blank(p.as_str()) {
            return Err(policy_error(
                "KC_LINEAGE_POLICY_CONDITION_INVALID",
                "lineage policy doc_id_prefix condition must not be empty",
                JsonValue::Object(vec![sfield("field", "doc_id_prefix")]),
            ));
        }
    }
    Ok((LineagePolicyConditionV3 { action, doc_id_prefix }, canonical))
}

/// Reads the condition of a stored policy: refused where its text was not
/// JSON, then as `parse_condition`.
pub fn condition_from_text(parsed: &Result<JsonValue, String>) -> (r: AppResult<(LineagePolicyConditionV3, String)>)
    ensures
        r is Ok <==> parsed is Ok && condition_of(parsed->Ok_0) is Some,
        parsed is Ok && parsed->Ok_0 is Object && canon(parsed->Ok_0) is None ==> r is Err && r->Err_0.code@
            == "KC_CANON_JSON_FLOAT_FORBIDDEN"@,
        !(parsed is Ok && parsed->Ok_0 is Object && canon(parsed->Ok_0) is None) && r is Err ==> r->Err_0.code@
            == "KC_LINEAGE_POLICY_CONDITION_INVALID"@,
        r is Ok ==> {
            let c = condition_of(parsed->Ok_0)->Some_0;
            &&& opt_view(r->Ok_0.0.action) == c.0
            &&& opt_view(r->Ok_0.0.doc_id_prefix) == c.1
            &&& r->Ok_0.1@ == canon(parsed->Ok_0)->Some_0
        },
{
    match parsed {
        Err(msg) => Err(policy_error(
            "KC_LINEAGE_POLICY_CONDITION_INVALID",
            "failed parsing lineage policy condition JSON",
            JsonValue::Object(vec![sfield("error", msg.as_str())]),
        )),
        Ok(v) => parse_condition(v),
    }
}

/// The text a policy's id is the hash of.
pub open spec fn policy_id_text(name: Seq<char>) -> Seq<char> {
    "kc.lineage.policy.v3\n"@ + trim(name)
}

/// The id of a policy, from its trimmed name.
pub fn policy_id_for_name(name: &str) -> (r: String)
    ensures
        r@ == blake3_prefixed(vstd::utf8::encode_utf8(policy_id_text(name@))),
{
    let mut s = String::new();
    push_str(&mut s, "kc.lineage.policy.v3\n");
    let t = trimmed(name);
    push_str(&mut s, t.as_str());
    let b = bytes_of(s.as_str());
    blake3_hex_prefixed(b.as_slice())
}

/// Whether a condition applies to `action` on `doc_id`.
pub open spec fn condition_applies(
    c: (Option<Seq<char>>, Option<Seq<char>>),
    action: Seq<char>,
    doc_id: Option<Seq<char>>,
) -> bool {
    &&& (c.0 is Some ==> c.0->Some_0 == action)
    &&& (c.1 is Some ==> doc_id is Some && has_prefix(doc_id->Some_0, c.1->Some_0))
}

/// Whether `condition` applies to `action` on `doc_id`.
pub fn evaluate_condition(condition: &LineagePolicyConditionV3, action: &str, doc_id: Option<&str>) -> (r: bool)
    ensures
        r == condition_applies(
            (opt_view(condition.action), opt_view(condition.doc_id_prefix)),
            action@,
            match doc_id {
                Some(d) => Some(d@),
                None => None,
            },
        ),
{
    if let Some(expected) = &condition.action {
        if !str_eq(expected.as_str(), action) {
            return false;
        }
    }
    if let Some(prefix) = &condition.doc_id_prefix {
        match doc_id {
            None => {
                return false;
            },
            Some(doc) => {
                if !starts_with(doc, prefix.as_str()) {
                    return false;
                }
            },
        }
    }
    true
}

/// Builds the policy record to store: name and author must be set, the
/// effect is normalized and the condition stored as canonical JSON.
pub fn lineage_policy_add(
    policy_name: &str,
    effect: &str,
    condition: &Result<JsonValue, String>,
    created_by: &str,
    now_ms: i64,
) -> (r: AppResult<LineagePolicyV3>)
    ensures
        r is Ok <==> !is_blank(policy_name@) && !is_blank(created_by@) && effect_of(effect@) is Some && condition is Ok
            && condition_of(condition->Ok_0) is Some,
        r is Ok ==> {
            let p = r->Ok_0;
            &&& p.policy_id@ == blake3_prefixed(vstd::utf8::encode_utf8(policy_id_text(policy_name@)))
            &&& p.policy_name@ == policy_name@
            &&& p.effect@ == effect_of(effect@)->Some_0
            &&& p.priority == (if p.effect@ == "deny"@ { 100i64 } else { 200i64 })
            &&& p.condition_json@ == canon(condition->Ok_0)->Some_0
            &&& p.created_by@ == created_by@
            &&& p.created_at_ms == now_ms
        },
        (is_blank(policy_name@) || is_blank(created_by@) || effect_of(effect@) is None) ==> r is Err
            && r->Err_0.code@ == "KC_LINEAGE_POLICY_CONDITION_INVALID"@,
{
    if blank(policy_name) || blank(created_by) {
        return Err(policy_error(
            "KC_LINEAGE_POLICY_CONDITION_INVALID",
            "lineage policy requires non-empty policy_name and created_by",
            JsonValue::Object(vec![sfield("policy_name", policy_name), sfield("created_by", created_by)]),
        ));
    }
    let effect_norm = normalize_effect(effect)?;
    let (_condition, canonical) = condition_from_text(condition)?;
    let priority = default_priority(effect_norm.as_str());
    Ok(LineagePolicyV3 {
        policy_id: policy_id_for_name(policy_name),
        policy_name: owned(policy_name),
        effect: effect_norm,
        priority,
        condition_json: canonical,
        created_by: owned(created_by),
        created_at_ms: now_ms,
    })
}

/// Binds the policy named `policy_name` (`policy`, as stored; `None` where
/// there is none) to `subject_id`. Storing the binding is the caller's.
pub fn lineage_policy_bind(
    subject_id: &str,
    policy_name: &str,
    bound_by: &str,
    now_ms: i64,
    policy: Option<LineagePolicyV3>,
) -> (r: AppResult<LineagePolicyBindingV3>)
    ensures
        r is Ok <==> !is_blank(subject_id@) && !is_blank(policy_name@) && !is_blank(bound_by@) && policy is Some,
        r is Err ==> r->Err_0.code@ == "KC_LINEAGE_POLICY_CONDITION_INVALID"@,
        r is Ok ==> {
            let b = r->Ok_0;
            let p = policy->Some_0;
            &&& b.subject_id@ == subject_id@
            &&& b.policy_id == p.policy_id
            &&& b.policy_name == p.policy_name
            &&& b.effect == p.effect
            &&& b.priority == p.priority
            &&& b.condition_json == p.condition_json
            &&& b.bound_by@ == bound_by@
            &&& b.bound_at_ms == now_ms
        },
{
    if blank(subject_id) || blank(policy_name) || blank(bound_by) {
        return Err(policy_error(
            "KC_LINEAGE_POLICY_CONDITION_INVALID",
            "lineage policy binding requires non-empty subject_id, policy_name, and bound_by",
            JsonValue::Object(vec![
                sfield("subject_id", subject_id),
                sfield("policy_name", policy_name),
                sfield("bound_by", bound_by),
            ]),
        ));
    }
    match policy {
        None => Err(policy_error(
            "KC_LINEAGE_POLICY_CONDITION_INVALID",
            "lineage policy must exist before binding",
            JsonValue::Object(vec![sfield("policy_name", policy_name)]),
        )),
        Some(p) => Ok(LineagePolicyBindingV3 {
            subject_id: owned(subject_id),
            policy_id: p.policy_id,
            policy_name: p.policy_name,
            effect: p.effect,
            priority: p.priority,
            condition_json: p.condition_json,
            bound_by: owned(bound_by),
            bound_at_ms: now_ms,
        }),
    }
}

/// The condition of an evaluated policy, where it reads.
pub open spec fn policy_condition(p: EvaluatedPolicy) -> Option<(Option<Seq<char>>, Option<Seq<char>>)> {
    match p.condition {
        Ok(v) => condition_of(v),
        Err(_) => None,
    }
}

/// Policy `p` applies to `action` on `doc_id` with effect `effect`.
pub open spec fn applies_with(p: EvaluatedPolicy, action: Seq<char>, doc_id: Option<Seq<char>>, effect: Seq<char>) -> bool {
    policy_condition(p) is Some && condition_applies(policy_condition(p)->Some_0, action, doc_id) && p.effect@ == effect
}

/// `ps[i]` is the first policy that applies with `effect`.
pub open spec fn first_applying(ps: Seq<EvaluatedPolicy>, action: Seq<char>, doc_id: Option<Seq<char>>, effect: Seq<char>, i: int) -> bool {
    &&& 0 <= i < ps.len()
    &&& applies_with(ps[i], action, doc_id, effect)
    &&& forall|j: int| 0 <= j < i ==> !applies_with(#[trigger] ps[j], action, doc_id, effect)
}

pub open spec fn any_applying(ps: Seq<EvaluatedPolicy>, action: Seq<char>, doc_id: Option<Seq<char>>, effect: Seq<char>) -> bool {
    exists|i: int| 0 <= i < ps.len() && applies_with(#[trigger] ps[i], action, doc_id, effect)
}

pub open spec fn opt_str_view(d: Option<&str>) -> Option<Seq<char>> {
    match d {
        Some(x) => Some(x@),
        None => None,
    }
}

/// The decision a subject's policies make on `action`: a matching deny
/// refuses; otherwise a matching allow permits; otherwise the answer is no.
/// `policies` are the subject's, in priority order; one whose condition
/// does not read makes the whole decision fail.
pub fn lineage_policy_decision(subject_id: &str, action: &str, doc_id: Option<&str>, policies: &Vec<EvaluatedPolicy>) -> (r: AppResult<LineagePolicyDecisionV3>)
    ensures
        r is Ok <==> !is_blank(subject_id@) && !is_blank(action@) && forall|i: int| 0 <= i < policies@.len()
            ==> (#[trigger] policy_condition(policies@[i])) is Some,
        (is_blank(subject_id@) || is_blank(action@)) ==> r is Err && r->Err_0.code@ == "KC_LINEAGE_POLICY_CONDITION_INVALID"@
            && r->Err_0.category@ == "lineage"@ && flat_obj(r->Err_0.details) == Some(
            seq![("subject_id"@, JAtom::Str(subject_id@)), ("action"@, JAtom::Str(action@))],
        ),
        r is Ok ==> {
            let d = r->Ok_0;
            let doc = opt_str_view(doc_id);
            &&& d.subject_id@ == subject_id@
            &&& d.action@ == action@
            &&& opt_view(d.doc_id) == doc
            &&& d.allowed == decision_allowed(policies@, action@, doc)
            &&& any_applying(policies@, action@, doc, "deny"@) ==> !d.allowed && d.reason@ == "policy_deny"@
                && d.matched_effect is Some && d.matched_effect->Some_0@ == "deny"@ && exists|i: int| first_applying(
                policies@,
                action@,
                doc,
                "deny"@,
                i,
            ) && d.matched_policy_id is Some && d.matched_policy_id->Some_0@ == policies@[i].policy_id@
                && d.matched_policy_name is Some && d.matched_policy_name->Some_0@ == policies@[i].policy_name@
            &&& !any_applying(policies@, action@, doc, "deny"@) && any_applying(policies@, action@, doc, "allow"@)
                ==> d.allowed && d.reason@ == "policy_allow"@ && d.matched_effect is Some && d.matched_effect->Some_0@
                == "allow"@ && exists|i: int| first_applying(policies@, action@, doc, "allow"@, i)
                && d.matched_policy_id is Some && d.matched_policy_id->Some_0@ == policies@[i].policy_id@
                && d.matched_policy_name is Some && d.matched_policy_name->Some_0@ == policies@[i].policy_name@
            &&& !any_applying(policies@, action@, doc, "deny"@) && !any_applying(policies@, action@, doc, "allow"@)
                ==> !d.allowed && d.reason@ == "no_matching_allow_policy"@ && d.matched_policy_id is None
                && d.matched_policy_name is None && d.matched_effect is None
        },
{
    if blank(subject_id) || blank(action) {
        let es = vec![sfield("subject_id", subject_id), sfield("action", action)];
        proof {
            lemma_flat_obj(es, seq![("subject_id"@, JAtom::Str(subject_id@)), ("action"@, JAtom::Str(action@))]);
        }
        return Err(policy_error(
            "KC_LINEAGE_POLICY_CONDITION_INVALID",
            "lineage policy decision requires non-empty subject_id and action",
            JsonValue::Object(es),
        ));
    }
    let ghost doc = opt_str_view(doc_id);
    proof {
        reveal_strlit("deny");
        reveal_strlit("allow");
    }
    let mut first_allow: Option<usize> = None;
    let mut first_deny: Option<usize> = None;
    let mut i: usize = 0;
    while i < policies.len()
        invariant
            i <= policies@.len(),
            !is_blank(subject_id@),
            !is_blank(action@),
            doc == opt_str_view(doc_id),
            forall|j: int| 0 <= j < i ==> (#[trigger] policy_condition(policies@[j])) is Some,
            first_deny is None ==> forall|j: int| 0 <= j < i ==> !applies_with(#[trigger] policies@[j], action@, doc, "deny"@),
            first_deny is Some ==> first_deny->Some_0 < i && first_applying(policies@, action@, doc, "deny"@, first_deny->Some_0 as int),
            first_allow is None ==> forall|j: int| 0 <= j < i ==> !applies_with(#[trigger] policies@[j], action@, doc, "allow"@),
            first_allow is Some ==> first_allow->Some_0 < i && first_applying(policies@, action@, doc, "allow"@, first_allow->Some_0 as int),
        decreases policies.len() - i,
    {
        let p = &policies[i];
        let (condition, _) = match condition_from_text(&p.condition) {
            Ok(c) => c,
            Err(e) => {
                proof {
                    assert(policy_condition(policies@[i as int]) is None);
                }
                return Err(e);
            },
        };
        let applies = evaluate_condition(&condition, action, doc_id);
        proof {
            reveal_strlit("deny");
            reveal_strlit("allow");
            let c = policy_condition(policies@[i as int])->Some_0;
            assert(c == (opt_view(condition.action), opt_view(condition.doc_id_prefix)));
            assert(applies == condition_applies(c, action@, doc));
            assert(doc == match doc_id {
                Some(d) => Some(d@),
                None => None,
            });
        }
        let is_deny = str_eq(p.effect.as_str(), "deny");
        let is_allow = str_eq(p.effect.as_str(), "allow");
        proof {
            reveal_strlit("deny");
            reveal_strlit("allow");
            assert("deny"@.len() == 4);
            assert("allow"@.len() == 5);
            assert("deny"@ != "allow"@);
            assert(is_deny ==> !is_allow);
            assert(applies_with(policies@[i as int], action@, doc, "allow"@) == (applies && is_allow));
            assert(applies_with(policies@[i as int], action@, doc, "deny"@) == (applies && is_deny));
        }
        if applies && is_deny && first_deny.is_none() {
            first_deny = Some(i);
        }
        if applies && is_allow && first_allow.is_none() {
            first_allow = Some(i);
        }
        i = i + 1;
    }
    let doc_owned: Option<String> = match doc_id {
        Some(d) => Some(owned(d)),
        None => None,
    };
    if let Some(k) = first_deny {
        let p = &policies[k];
        return Ok(LineagePolicyDecisionV3 {
            subject_id: owned(subject_id),
            action: owned(action),
            doc_id: doc_owned,
            allowed: false,
            reason: owned("policy_deny"),
            matched_policy_id: Some(p.policy_id.clone()),
            matched_policy_name: Some(p.policy_name.clone()),
            matched_effect: Some(owned("deny")),
        });
    }
    if let Some(k) = first_allow {
        let p = &policies[k];
        return Ok(LineagePolicyDecisionV3 {
            subject_id: owned(subject_id),
            action: owned(action),
            doc_id: doc_owned,
            allowed: true,
            reason: owned("policy_allow"),
            matched_policy_id: Some(p.policy_id.clone()),
            matched_policy_name: Some(p.policy_name.clone()),
            matched_effect: Some(owned("allow")),
        });
    }
    Ok(LineagePolicyDecisionV3 {
        subject_id: owned(subject_id),
        action: owned(action),
        doc_id: doc_owned,
        allowed: false,
        reason: owned("no_matching_allow_policy"),
        matched_policy_id: None,
        matched_policy_name: None,
        matched_effect: None,
    })
}

/// The details of a decision, as its audit row and its refusal record them.
pub fn decision_details(decision: &LineagePolicyDecisionV3) -> (v: JsonValue)
    ensures
        crate::json::flat_obj(v) == Some(seq![
            ("subject_id"@, crate::json::JAtom::Str(decision.subject_id@)),
            ("action"@, crate::json::JAtom::Str(decision.action@)),
            ("doc_id"@, crate::json::opt_atom(decision.doc_id)),
            ("reason"@, crate::json::JAtom::Str(decision.reason@)),
            ("matched_policy_id"@, crate::json::opt_atom(decision.matched_policy_id)),
            ("matched_policy_name"@, crate::json::opt_atom(decision.matched_policy_name)),
            ("matched_effect"@, crate::json::opt_atom(decision.matched_effect)),
        ]),
{
    let es = vec![
        sfield("subject_id", decision.subject_id.as_str()),
        sfield("action", decision.action.as_str()),
        crate::json::ofield("doc_id", &decision.doc_id),
        sfield("reason", decision.reason.as_str()),
        crate::json::ofield("matched_policy_id", &decision.matched_policy_id),
        crate::json::ofield("matched_policy_name", &decision.matched_policy_name),
        crate::json::ofield("matched_effect", &decision.matched_effect),
    ];
    proof {
        crate::json::lemma_flat_obj(es, seq![
            ("subject_id"@, crate::json::JAtom::Str(decision.subject_id@)),
            ("action"@, crate::json::JAtom::Str(decision.action@)),
            ("doc_id"@, crate::json::opt_atom(decision.doc_id)),
            ("reason"@, crate::json::JAtom::Str(decision.reason@)),
            ("matched_policy_id"@, crate::json::opt_atom(decision.matched_policy_id)),
            ("matched_policy_name"@, crate::json::opt_atom(decision.matched_policy_name)),
            ("matched_effect"@, crate::json::opt_atom(decision.matched_effect)),
        ]);
    }
    JsonValue::Object(es)
}

/// Turns a decision into an outcome: allowed, or refused, as enforced by a
/// deny policy or for want of an allowing one.
pub fn ensure_lineage_policy_allows(decision: &LineagePolicyDecisionV3) -> (r: AppResult<()>)
    ensures
        r is Ok <==> decision.allowed,
        r is Err && decision.matched_effect is Some && decision.matched_effect->Some_0@ == "deny"@
            ==> r->Err_0.code@ == "KC_LINEAGE_POLICY_DENY_ENFORCED"@,
        r is Err && !(decision.matched_effect is Some && decision.matched_effect->Some_0@ == "deny"@)
            ==> r->Err_0.code@ == "KC_LINEAGE_PERMISSION_DENIED"@,
{
    if decision.allowed {
        return Ok(());
    }
    let deny = match &decision.matched_effect {
        Some(e) => str_eq(e.as_str(), "deny"),
        None => false,
    };
    let code = if deny {
        "KC_LINEAGE_POLICY_DENY_ENFORCED"
    } else {
        "KC_LINEAGE_PERMISSION_DENIED"
    };
    Err(policy_error(code, "lineage policy denied action", decision_details(decision)))
}

/// Whether the policies permit `action` on `doc`.
pub open spec fn decision_allowed(ps: Seq<EvaluatedPolicy>, action: Seq<char>, doc: Option<Seq<char>>) -> bool {
    !any_applying(ps, action, doc, "deny"@) && any_applying(ps, action, doc, "allow"@)
}

/// A matching deny policy always wins: whatever allow policies also match,
/// the action is refused.
pub proof fn law_deny_overrides_allow(ps: Seq<EvaluatedPolicy>, action: Seq<char>, doc: Option<Seq<char>>, i: int)
    requires
        0 <= i < ps.len(),
        applies_with(ps[i], action, doc, "deny"@),
    ensures
        !decision_allowed(ps, action, doc),
{
}

/// Without a matching allow policy nothing is permitted.
pub proof fn law_default_deny(ps: Seq<EvaluatedPolicy>, action: Seq<char>, doc: Option<Seq<char>>)
    requires
        !any_applying(ps, action, doc, "allow"@),
    ensures
        !decision_allowed(ps, action, doc),
{
}

/// Binding one more policy never grants what was refused unless that
/// policy is itself a matching allow: a permission after the binding was
/// either there before or comes from the new policy.
pub proof fn law_binding_monotone(ps: Seq<EvaluatedPolicy>, p: EvaluatedPolicy, action: Seq<char>, doc: Option<Seq<char>>)
    requires
        decision_allowed(ps.push(p), action, doc),
    ensures
        decision_allowed(ps, action, doc) || applies_with(p, action, doc, "allow"@),
        !applies_with(p, action, doc, "deny"@),
{
    let q = ps.push(p);
    assert(q[ps.len() as int] == p);
    if !applies_with(p, action, doc, "allow"@) {
        let i = choose|i: int| 0 <= i < q.len() && applies_with(#[trigger] q[i], action, doc, "allow"@);
        assert(i < ps.len());
        assert(q[i] == ps[i]);
        assert(any_applying(ps, action, doc, "allow"@));
        if any_applying(ps, action, doc, "deny"@) {
            let k = choose|k: int| 0 <= k < ps.len() && applies_with(#[trigger] ps[k], action, doc, "deny"@);
            assert(q[k] == ps[k]);
        }
    }
}

/// A condition applies exactly when every field it gives holds: a named
/// action must be the requested one (whatever the prefix), and a document
/// prefix needs a document whose id starts with it; a condition giving
/// neither applies to every request.
pub proof fn law_condition_needs_every_field(
    c: (Option<Seq<char>>, Option<Seq<char>>),
    action: Seq<char>,
    doc: Option<Seq<char>>,
)
    ensures
        c.0 is Some && c.0->Some_0 != action ==> !condition_applies(c, action, doc),
        c.1 is Some && doc is None ==> !condition_applies(c, action, doc),
        c.1 is Some && doc is Some && !has_prefix(doc->Some_0, c.1->Some_0) ==> !condition_applies(c, action, doc),
        (c.0 is None || c.0->Some_0 == action) && (c.1 is None || (doc is Some && has_prefix(
            doc->Some_0,
            c.1->Some_0,
        ))) ==> condition_applies(c, action, doc),
{
}

/// A policy whose condition names another action plays no part in a
/// decision: removing it changes nothing, whatever its effect or prefix.
pub proof fn law_other_action_is_ignored(ps: Seq<EvaluatedPolicy>, i: int, action: Seq<char>, doc: Option<Seq<char>>)
    requires
        0 <= i < ps.len(),
        policy_condition(ps[i]) is Some,
        policy_condition(ps[i])->Some_0.0 is Some,
        policy_condition(ps[i])->Some_0.0->Some_0 != action,
    ensures
        decision_allowed(ps, action, doc) == decision_allowed(ps.remove(i), action, doc),
        forall|e: Seq<char>| #[trigger] any_applying(ps, action, doc, e) == any_applying(ps.remove(i), action, doc, e),
{
    let q = ps.remove(i);
    assert(!condition_applies(policy_condition(ps[i])->Some_0, action, doc));
    assert forall|e: Seq<char>| #[trigger] any_applying(ps, action, doc, e) == any_applying(q, action, doc, e) by {
        if any_applying(ps, action, doc, e) {
            let k = choose|k: int| 0 <= k < ps.len() && applies_with(#[trigger] ps[k], action, doc, e);
            assert(k != i);
            if k < i {
                assert(q[k] == ps[k]);
            } else {
                assert(q[k - 1] == ps[k]);
            }
        }
        if any_applying(q, action, doc, e) {
            let k = choose|k: int| 0 <= k < q.len() && applies_with(#[trigger] q[k], action, doc, e);
            if k < i {
                assert(q[k] == ps[k]);
            } else {
                assert(q[k] == ps[k + 1]);
            }
        }
    }
    assert(any_applying(ps, action, doc, "deny"@) == any_applying(q, action, doc, "deny"@));
    assert(any_applying(ps, action, doc, "allow"@) == any_applying(q, action, doc, "allow"@));
}

} // verus!
