use ghss::transform::{normalize_ruleset, protection_get_to_put, webhook_get_to_config};
use ghss::json::{Json, JsonMap, JsonNumber};

fn conv(v: &serde_json::Value) -> Json {
    match v {
        serde_json::Value::Null => Json::Null,
        serde_json::Value::Bool(b) => Json::Bool(*b),
        serde_json::Value::Number(n) => Json::Number(if let Some(u) = n.as_u64() {
            JsonNumber::PosInt(u)
        } else if let Some(i) = n.as_i64() {
            JsonNumber::NegInt(i)
        } else {
            JsonNumber::Float(n.as_f64().unwrap().to_bits())
        }),
        serde_json::Value::String(s) => Json::Str(s.clone()),
        serde_json::Value::Array(a) => Json::Array(a.iter().map(conv).collect()),
        serde_json::Value::Object(o) => {
            let mut m = JsonMap::new();
            for (k, x) in o {
                m.insert(k.clone(), conv(x));
            }
            Json::Object(m)
        }
    }
}

fn j(text: &str) -> Json {
    conv(&serde_json::from_str(text).unwrap())
}

fn at(v: &Json, k: &str) -> Json {
    v.get(k).map(|x| x.deep_clone()).unwrap_or(Json::Null)
}

#[test]
fn normalize_ruleset_strips_server_fields() {
    let raw = j(r#"{
        "id": 42, "node_id": "RRS_x", "source": "acme/ref", "source_type": "Repository",
        "created_at": "2026-01-01", "updated_at": "2026-01-02",
        "_links": {"self": {"href": "..."}}, "current_user_can_bypass": "never",
        "name": "protect-main", "target": "branch", "enforcement": "active",
        "bypass_actors": [], "conditions": {"ref_name": {"include": ["~DEFAULT_BRANCH"], "exclude": []}},
        "rules": [{"type": "deletion"}]
    }"#);
    let n = normalize_ruleset(raw);
    assert_eq!(n, j(r#"{
        "name": "protect-main", "target": "branch", "enforcement": "active",
        "bypass_actors": [], "conditions": {"ref_name": {"include": ["~DEFAULT_BRANCH"], "exclude": []}},
        "rules": [{"type": "deletion"}]
    }"#));
}

#[test]
fn normalize_ruleset_drops_write_unsupported_rule_at_index_3() {
    let raw = j(r#"{
        "id": 9350827,
        "node_id": "RRS_x",
        "source": "freepik-company/ai-integration-wizard",
        "source_type": "Repository",
        "created_at": "2026-01-01T00:00:00Z",
        "updated_at": "2026-01-02T00:00:00Z",
        "_links": {"self": {"href": "https://api.github.com/..."}},
        "current_user_can_bypass": "always",
        "name": "main",
        "target": "branch",
        "enforcement": "active",
        "bypass_actors": [],
        "conditions": {"ref_name": {"include": ["~DEFAULT_BRANCH"], "exclude": []}},
        "rules": [
            {"type": "deletion"},
            {"type": "non_fast_forward"},
            {"type": "pull_request", "parameters": {
                "allowed_merge_methods": ["squash"],
                "dismiss_stale_reviews_on_push": false,
                "require_code_owner_review": false,
                "require_last_push_approval": false,
                "required_approving_review_count": 1,
                "required_review_thread_resolution": true,
                "required_reviewers": []
            }},
            {"type": "copilot_code_review"}
        ]
    }"#);
    let n = normalize_ruleset(raw);
    for k in ["id", "node_id", "source", "source_type", "created_at", "updated_at", "_links", "current_user_can_bypass"] {
        assert!(n.get(k).is_none(), "{k} must be stripped from the write payload");
    }
    let keys: Vec<String> = match &n {
        Json::Object(m) => (0..m.len()).map(|i| m.key_at(i).clone()).collect(),
        _ => panic!("expected an object"),
    };
    let mut keys_sorted = keys.clone();
    keys_sorted.sort_unstable();
    assert_eq!(keys_sorted, vec!["bypass_actors", "conditions", "enforcement", "name", "rules", "target"]);
    let rules = n.get("rules").unwrap().as_array().unwrap();
    let types: Vec<&str> = rules.iter().filter_map(|r| r.get("type").and_then(|t| t.as_str()).map(|s| s.as_str())).collect();
    assert_eq!(types, vec!["deletion", "non_fast_forward", "pull_request"]);
    assert!(!types.contains(&"copilot_code_review"), "copilot_code_review must be removed");
}

#[test]
fn normalize_ruleset_keeps_all_supported_rules() {
    let raw = j(r#"{
        "name": "main", "target": "branch", "enforcement": "active",
        "rules": [
            {"type": "deletion"},
            {"type": "non_fast_forward"},
            {"type": "required_status_checks", "parameters": {"required_status_checks": [], "strict_required_status_checks_policy": false}},
            {"type": "pull_request", "parameters": {"required_approving_review_count": 1}}
        ]
    }"#);
    let n = normalize_ruleset(raw.deep_clone());
    assert_eq!(n.get("rules").unwrap().as_array().unwrap().len(), 4, "no supported rule should be dropped");
}

#[test]
fn protection_get_to_put_full() {
    let get = j(r#"{
        "required_status_checks": {"strict": true, "contexts": ["ci"], "checks": [{"context": "ci", "app_id": null}]},
        "enforce_admins": {"enabled": true},
        "required_pull_request_reviews": {
            "dismiss_stale_reviews": true,
            "require_code_owner_reviews": false,
            "required_approving_review_count": 2,
            "require_last_push_approval": true,
            "dismissal_restrictions": {
                "users": [{"login": "alice"}],
                "teams": [{"slug": "platform"}],
                "apps": [{"slug": "ci-app"}]
            },
            "bypass_pull_request_allowances": {
                "users": [{"login": "carol"}],
                "teams": [{"slug": "release"}],
                "apps": [{"slug": "merge-bot"}]
            }
        },
        "restrictions": {"users": [{"login": "bob"}], "teams": [{"slug": "core"}], "apps": [{"slug": "ci-app"}]},
        "required_linear_history": {"enabled": true},
        "allow_force_pushes": {"enabled": false},
        "allow_deletions": {"enabled": false},
        "required_conversation_resolution": {"enabled": true},
        "lock_branch": {"enabled": false},
        "allow_fork_syncing": {"enabled": false}
    }"#);
    let put = protection_get_to_put(&get);
    assert_eq!(at(&put, "enforce_admins"), j("true"));
    assert_eq!(at(&put, "required_status_checks"), j(r#"{"strict": true, "contexts": ["ci"], "checks": [{"context": "ci", "app_id": null}]}"#));
    let reviews = at(&put, "required_pull_request_reviews");
    assert_eq!(at(&reviews, "required_approving_review_count"), j("2"));
    assert_eq!(at(&reviews, "dismissal_restrictions"), j(r#"{"users": ["alice"], "teams": ["platform"], "apps": ["ci-app"]}"#));
    assert_eq!(at(&reviews, "bypass_pull_request_allowances"), j(r#"{"users": ["carol"], "teams": ["release"], "apps": ["merge-bot"]}"#));
    assert_eq!(at(&put, "restrictions"), j(r#"{"users": ["bob"], "teams": ["core"], "apps": ["ci-app"]}"#));
    assert_eq!(at(&put, "required_linear_history"), j("true"));
    assert_eq!(at(&put, "lock_branch"), j("false"));
}

#[test]
fn webhook_get_to_config_strips_secret_and_volatile() {
    let get = j(r#"{
        "id": 12,
        "name": "web",
        "active": true,
        "events": ["push"],
        "config": {
            "url": "https://example.com/hook",
            "content_type": "json",
            "insecure_ssl": "0",
            "secret": "********",
            "created_at": "2026-01-01",
            "updated_at": "2026-01-02",
            "last_response": {"code": 200}
        }
    }"#);
    let config = webhook_get_to_config(&get);
    assert_eq!(config, j(r#"{
        "url": "https://example.com/hook",
        "content_type": "json",
        "insecure_ssl": "0"
    }"#));
    assert!(config.get("secret").is_none(), "el secret nunca debe incluirse");
}

#[test]
fn protection_get_to_put_minimal() {
    let get = j(r#"{"enforce_admins": {"enabled": false}}"#);
    let put = protection_get_to_put(&get);
    assert_eq!(at(&put, "required_status_checks"), Json::Null);
    assert_eq!(at(&put, "required_pull_request_reviews"), Json::Null);
    assert_eq!(at(&put, "restrictions"), Json::Null);
    assert_eq!(at(&put, "enforce_admins"), j("false"));
    assert_eq!(at(&put, "allow_force_pushes"), j("false"));
}

// The exact PUT body for a response with only some flags: every flag present, absent ones false.
#[test]
fn protection_put_body_is_exact() {
    let get = j(r#"{"allow_deletions": {"enabled": true}, "lock_branch": {"enabled": "yes"}}"#);
    let put = protection_get_to_put(&get);
    assert_eq!(put, j(r#"{
        "required_status_checks": null,
        "enforce_admins": false,
        "required_pull_request_reviews": null,
        "restrictions": null,
        "required_linear_history": false,
        "allow_force_pushes": false,
        "allow_deletions": true,
        "required_conversation_resolution": false,
        "lock_branch": false,
        "allow_fork_syncing": false
    }"#));
}

// Missing parts of nested sections take their defaults; a non-array list gives an empty list.
#[test]
fn protection_put_defaults_in_sections() {
    let get = j(r#"{
        "required_status_checks": {"contexts": ["a"]},
        "required_pull_request_reviews": {"dismissal_restrictions": {"users": "nobody", "teams": [{"slug": "t"}, {"name": "x"}]}},
        "restrictions": null
    }"#);
    let put = protection_get_to_put(&get);
    assert_eq!(at(&put, "required_status_checks"), j(r#"{"strict": false, "contexts": ["a"], "checks": []}"#));
    assert_eq!(at(&put, "required_pull_request_reviews"), j(r#"{
        "dismiss_stale_reviews": false,
        "require_code_owner_reviews": false,
        "required_approving_review_count": 0,
        "require_last_push_approval": false,
        "dismissal_restrictions": {"users": [], "teams": ["t"], "apps": []}
    }"#));
    assert_eq!(at(&put, "restrictions"), Json::Null);
}

// Normalizing twice gives what normalizing once gave.
#[test]
fn normalize_ruleset_twice_is_once() {
    let raw = j(r#"{"id": 3, "name": "n", "rules": [{"type": "copilot_code_review"}, {"type": "deletion"}, {"x": 1}]}"#);
    let once = normalize_ruleset(raw);
    assert_eq!(once, j(r#"{"name": "n", "rules": [{"type": "deletion"}, {"x": 1}]}"#));
    let twice = normalize_ruleset(once.deep_clone());
    assert_eq!(twice, once);
}

// A value that is not an object comes back as it was; a config that is not an object too.
#[test]
fn non_objects_pass_through() {
    assert_eq!(normalize_ruleset(j("[1, 2]")), j("[1, 2]"));
    assert_eq!(webhook_get_to_config(&j(r#"{"config": "text"}"#)), j(r#""text""#));
    assert_eq!(webhook_get_to_config(&j(r#"{"name": "web"}"#)), j("{}"));
}
