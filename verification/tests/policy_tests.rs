use kc_core::trust_policy::{ensure_session_policy_allows, TrustProviderPolicyV1};
use kc_core::json::JsonValue;
use kc_core::lineage_governance::{
    ensure_lineage_permission, lineage_permission_decision, normalize_scope, PermissionMatch,
};
use kc_core::lineage_policy::{
    condition_from_text, default_priority, ensure_lineage_policy_allows, lineage_policy_decision, normalize_effect,
    EvaluatedPolicy,
};

fn cond(action: Option<&str>, prefix: Option<&str>) -> JsonValue {
    let mut es = Vec::new();
    if let Some(a) = action {
        es.push(("action".to_string(), JsonValue::Str(a.to_string())));
    }
    if let Some(p) = prefix {
        es.push(("doc_id_prefix".to_string(), JsonValue::Str(p.to_string())));
    }
    JsonValue::Object(es)
}

fn policy(id: &str, effect: &str, c: JsonValue) -> EvaluatedPolicy {
    EvaluatedPolicy {
        policy_id: id.to_string(),
        policy_name: format!("name-{}", id),
        effect: effect.to_string(),
        condition: Ok(c),
    }
}

#[test]
fn a_matching_deny_overrides_an_earlier_allow() {
    let ps = vec![policy("p1", "allow", cond(Some("lineage.overlay.write"), None)), policy("p2", "deny", cond(None, Some("doc-")))];
    let d = lineage_policy_decision("alice", "lineage.overlay.write", Some("doc-9"), &ps).unwrap();
    assert!(!d.allowed);
    assert_eq!(d.reason, "policy_deny");
    assert_eq!(d.matched_policy_id.as_deref(), Some("p2"));
    assert_eq!(d.matched_effect.as_deref(), Some("deny"));
    let err = ensure_lineage_policy_allows(&d).unwrap_err();
    assert_eq!(err.code, "KC_LINEAGE_POLICY_DENY_ENFORCED");
}

#[test]
fn an_allow_permits_when_no_deny_applies() {
    let ps = vec![policy("p2", "deny", cond(None, Some("secret-"))), policy("p1", "allow", cond(None, None))];
    let d = lineage_policy_decision("alice", "lineage.read", Some("doc-9"), &ps).unwrap();
    assert!(d.allowed);
    assert_eq!(d.reason, "policy_allow");
    assert_eq!(d.matched_policy_name.as_deref(), Some("name-p1"));
    assert!(ensure_lineage_policy_allows(&d).is_ok());
}

#[test]
fn without_a_matching_policy_the_answer_is_no() {
    let ps = vec![policy("p1", "allow", cond(Some("other"), None))];
    let d = lineage_policy_decision("alice", "lineage.read", None, &ps).unwrap();
    assert!(!d.allowed);
    assert_eq!(d.reason, "no_matching_allow_policy");
    assert!(d.matched_policy_id.is_none());
}

#[test]
fn a_prefix_condition_needs_a_document() {
    let ps = vec![policy("p1", "allow", cond(None, Some("doc-")))];
    let d = lineage_policy_decision("alice", "lineage.read", None, &ps).unwrap();
    assert!(!d.allowed);
}

#[test]
fn unreadable_conditions_and_blank_subjects_fail() {
    let bad = vec![EvaluatedPolicy {
        policy_id: "p".to_string(),
        policy_name: "n".to_string(),
        effect: "allow".to_string(),
        condition: Err("eof".to_string()),
    }];
    assert!(lineage_policy_decision("alice", "read", None, &bad).is_err());
    let err = lineage_policy_decision("  ", "read", None, &vec![]).unwrap_err();
    assert_eq!(err.code, "KC_LINEAGE_POLICY_CONDITION_INVALID");
}

#[test]
fn effects_are_normalized_and_ranked() {
    assert_eq!(normalize_effect(" DENY ").unwrap(), "deny");
    assert_eq!(normalize_effect("Allow").unwrap(), "allow");
    assert_eq!(normalize_effect("maybe").unwrap_err().code, "KC_LINEAGE_POLICY_CONDITION_INVALID");
    assert_eq!(default_priority("deny"), 100);
    assert_eq!(default_priority("allow"), 200);
}

#[test]
fn conditions_accept_only_known_string_fields() {
    let (c, text) = condition_from_text(&Ok(cond(Some("a"), Some("p")))).unwrap();
    assert_eq!(c.action.as_deref(), Some("a"));
    assert_eq!(c.doc_id_prefix.as_deref(), Some("p"));
    assert_eq!(text, r#"{"action":"a","doc_id_prefix":"p"}"#);
    let unknown = JsonValue::Object(vec![("who".to_string(), JsonValue::Str("x".to_string()))]);
    assert!(condition_from_text(&Ok(unknown)).is_err());
    assert!(condition_from_text(&Err("bad json".to_string())).is_err());
}

#[test]
fn the_lowest_ranked_matching_role_decides_permission() {
    let ms = vec![
        PermissionMatch { role_name: "viewer".to_string(), role_rank: 30, allowed: 0 },
        PermissionMatch { role_name: "editor".to_string(), role_rank: 20, allowed: 1 },
    ];
    let d = lineage_permission_decision("alice", "lineage.overlay.write", &ms).unwrap();
    assert!(d.allowed);
    assert_eq!(d.matched_role.as_deref(), Some("editor"));
    assert_eq!(d.matched_rank, Some(20));
    assert!(ensure_lineage_permission(&d, Some("doc-1")).is_ok());
    let none = lineage_permission_decision("alice", "x", &vec![]).unwrap();
    assert!(!none.allowed);
    assert_eq!(ensure_lineage_permission(&none, None).unwrap_err().code, "KC_LINEAGE_PERMISSION_DENIED");
}

#[test]
fn scopes_are_trimmed_and_lowercased() {
    let (k, v) = normalize_scope(" DOC ", " doc-1 ").unwrap();
    assert_eq!(k, "doc");
    assert_eq!(v, "doc-1");
    assert_eq!(normalize_scope("planet", "x").unwrap_err().code, "KC_LINEAGE_SCOPE_INVALID");
}

#[test]
fn session_policy_decisions_and_their_codes() {
    let claims = |es: Vec<(&str, &str)>| -> Result<JsonValue, String> {
        Ok(JsonValue::Object(es.into_iter().map(|(k, v)| (k.to_string(), JsonValue::Str(v.to_string()))).collect()))
    };
    let policy = Some(TrustProviderPolicyV1 {
        provider_id: "idp".to_string(),
        max_clock_skew_ms: 10,
        require_claims_json: "{\"tenant\":\"t1\"}".to_string(),
        updated_at_ms: 1,
    });
    let required = claims(vec![("tenant", "t1")]);
    let ok = ensure_session_policy_allows("idp", "s", &claims(vec![("tenant", "t1")]), 100, 200, 150, false, &policy, &required);
    assert!(ok.is_ok());
    let revoked = ensure_session_policy_allows("idp", "s", &claims(vec![]), 100, 200, 150, true, &policy, &required);
    assert_eq!(revoked.unwrap_err().code, "KC_TRUST_SESSION_REVOKED");
    let skew = ensure_session_policy_allows("idp", "s", &claims(vec![("tenant", "t1")]), 100, 200, 211, false, &policy, &required);
    assert_eq!(skew.unwrap_err().code, "KC_TRUST_PROVIDER_POLICY_INVALID");
    let wrong = ensure_session_policy_allows("idp", "s", &claims(vec![("tenant", "t2")]), 100, 200, 150, false, &policy, &required);
    assert_eq!(wrong.unwrap_err().code, "KC_TRUST_PROVIDER_POLICY_INVALID");
    let not_json = ensure_session_policy_allows("idp", "s", &Err("bad".to_string()), 100, 200, 150, false, &policy, &required);
    assert_eq!(not_json.unwrap_err().code, "KC_TRUST_PROVIDER_POLICY_INVALID");
    let none = ensure_session_policy_allows("idp", "s", &Err("bad".to_string()), 100, 200, 150, false, &None, &claims(vec![]));
    assert!(none.is_ok());
}
