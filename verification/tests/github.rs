use ghss::github::{
    answer_is_empty, branch_names, branches_page_path, is_last_page, org_teams_page_path, parse_scopes,
    parse_u64, protection_is_absent, protection_path, repo_info_from_json, repo_path, ruleset_from_full,
    ruleset_id, ruleset_path, rulesets_page_path, rulesets_path, rulesets_unavailable, send_step,
    snapshot_from_parts, team_info_from_json, team_repo_names, team_repos_page_path, unexpected_answer,
    user_repos_page_path, SendStep,
};
use ghss::github::{field_ids, installations_of, org_installations_page_path, Listing};
use ghss::model::{BranchProtection, RulesetSummary};
use ghss::text::decimal;
use ghss::json::{Json, JsonMap, JsonNumber};

fn conv(v: &serde_json::Value) -> Json {
    match v {
        serde_json::Value::Null => Json::Null,
        serde_json::Value::Bool(b) => Json::Bool(*b),
        serde_json::Value::Number(n) => Json::Number(if let Some(u) = n.as_u64() {
            JsonNumber::PosInt(u)
        } else if let Some(i) = n.as_i64() {
            JsonNumber::NegInt(i)
        } else {
            JsonNumber::Float(n.as_f64().unwrap().to_bits())
        }),
        serde_json::Value::String(s) => Json::Str(s.clone()),
        serde_json::Value::Array(a) => Json::Array(a.iter().map(conv).collect()),
        serde_json::Value::Object(o) => {
            let mut m = JsonMap::new();
            for (k, x) in o {
                m.insert(k.clone(), conv(x));
            }
            Json::Object(m)
        }
    }
}

fn j(text: &str) -> Json {
    conv(&serde_json::from_str(text).unwrap())
}

#[test]
fn parse_u64_accepts_digits_and_plus() {
    assert_eq!(parse_u64("0"), Some(0));
    assert_eq!(parse_u64("30"), Some(30));
    assert_eq!(parse_u64("+7"), Some(7));
    assert_eq!(parse_u64("18446744073709551615"), Some(u64::MAX));
    assert_eq!(parse_u64("18446744073709551616"), None);
    assert_eq!(parse_u64(""), None);
    assert_eq!(parse_u64("+"), None);
    assert_eq!(parse_u64("-1"), None);
    assert_eq!(parse_u64(" 5"), None);
    assert_eq!(parse_u64("1.5"), None);
    assert_eq!(parse_u64("Wed, 21 Oct 2015 07:28:00 GMT"), None);
}

#[test]
fn decimal_writes_numbers() {
    assert_eq!(decimal(0), "0");
    assert_eq!(decimal(9), "9");
    assert_eq!(decimal(10), "10");
    assert_eq!(decimal(9350827), "9350827");
    assert_eq!(decimal(u64::MAX), "18446744073709551615");
}

// Only a 429 is retried, twice at most, waiting what retry-after says (2 s by default, 60 at most).
#[test]
fn send_step_retries_rate_limits() {
    assert_eq!(send_step(429, 0, Some("1")), SendStep::Retry { wait_secs: 1 });
    assert_eq!(send_step(429, 1, None), SendStep::Retry { wait_secs: 2 });
    assert_eq!(send_step(429, 0, Some("soon")), SendStep::Retry { wait_secs: 2 });
    assert_eq!(send_step(429, 0, Some("3600")), SendStep::Retry { wait_secs: 60 });
    assert_eq!(send_step(429, 2, Some("1")), SendStep::Failed);
    assert_eq!(send_step(401, 0, None), SendStep::Unauthorized);
    assert_eq!(send_step(403, 0, Some("1")), SendStep::Failed);
    assert_eq!(send_step(404, 0, None), SendStep::Failed);
    assert_eq!(send_step(200, 0, None), SendStep::Done);
    assert_eq!(send_step(204, 2, None), SendStep::Done);
    assert_eq!(send_step(304, 0, None), SendStep::Failed);
}

#[test]
fn scopes_are_trimmed_and_empty_ones_dropped() {
    assert_eq!(parse_scopes(Some("repo, read:org, gist")), vec!["repo", "read:org", "gist"]);
    assert_eq!(parse_scopes(Some("")), Vec::<String>::new());
    assert_eq!(parse_scopes(Some(" repo ,, \u{3000}workflow\t,")), vec!["repo", "workflow"]);
    assert_eq!(parse_scopes(None), Vec::<String>::new());
}

#[test]
fn paging_and_statuses() {
    assert!(!is_last_page(100));
    assert!(is_last_page(99));
    assert!(is_last_page(0));
    assert!(protection_is_absent(404));
    assert!(!protection_is_absent(403));
    assert!(rulesets_unavailable(403));
    assert!(rulesets_unavailable(404));
    assert!(!rulesets_unavailable(500));
    assert!(answer_is_empty(204));
    assert!(!answer_is_empty(200));
}

#[test]
fn endpoint_paths() {
    assert_eq!(repo_path("acme", "t1"), "/repos/acme/t1");
    assert_eq!(rulesets_path("acme", "t1"), "/repos/acme/t1/rulesets");
    assert_eq!(ruleset_path("acme", "t1", 9), "/repos/acme/t1/rulesets/9");
    assert_eq!(protection_path("acme", "t1", "main"), "/repos/acme/t1/branches/main/protection");
    assert_eq!(branches_page_path("acme", "ref", 2), "/repos/acme/ref/branches?per_page=100&page=2");
    assert_eq!(
        rulesets_page_path("acme", "ref", 1),
        "/repos/acme/ref/rulesets?per_page=100&page=1&includes_parents=false"
    );
    assert_eq!(
        user_repos_page_path(3),
        "/user/repos?per_page=100&page=3&affiliation=owner,collaborator,organization_member&sort=full_name"
    );
    assert_eq!(org_teams_page_path("acme", 1), "/orgs/acme/teams?per_page=100&page=1");
    assert_eq!(team_repos_page_path("acme", "core", 12), "/orgs/acme/teams/core/repos?per_page=100&page=12");
    assert_eq!(unexpected_answer("/user/repos", "boom"), "respuesta inesperada de /user/repos: boom");
}

#[test]
fn repo_info_maps_listing_entries() {
    let r = repo_info_from_json(&j(r#"{
        "full_name": "jamuriano/solo", "name": "solo", "owner": {"login": "jamuriano"},
        "private": false, "default_branch": "master", "description": "d",
        "permissions": {"admin": true}, "archived": true
    }"#));
    assert_eq!(r.full_name, "jamuriano/solo");
    assert_eq!(r.owner, "jamuriano");
    assert_eq!(r.name, "solo");
    assert!(!r.private);
    assert!(r.admin);
    assert!(r.archived);
    assert_eq!(r.default_branch, "master");
    assert_eq!(r.description.as_deref(), Some("d"));
    let bare = repo_info_from_json(&j(r#"{"description": null, "permissions": {"admin": "yes"}}"#));
    assert_eq!(bare.full_name, "");
    assert_eq!(bare.owner, "");
    assert!(!bare.admin);
    assert_eq!(bare.default_branch, "main");
    assert_eq!(bare.description, None);
}

#[test]
fn teams_and_team_repos() {
    let t = team_info_from_json(&j(r#"{"slug": "core", "name": "Core"}"#));
    assert_eq!((t.slug.as_str(), t.name.as_str()), ("core", "Core"));
    let t = team_info_from_json(&j("{}"));
    assert_eq!((t.slug.as_str(), t.name.as_str()), ("", ""));
    let page = match j(r#"[{"full_name": "acme/a"}, {"name": "x"}, {"full_name": 3}, {"full_name": "acme/b"}]"#) {
        Json::Array(v) => v,
        _ => unreachable!(),
    };
    assert_eq!(team_repo_names(&page), vec!["acme/a", "acme/b"]);
}

#[test]
fn branch_pages() {
    let page = match j(r#"[{"name": "main", "protected": true}, {"name": "dev", "protected": false}, {"protected": true}]"#) {
        Json::Array(v) => v,
        _ => unreachable!(),
    };
    let (names, protected) = branch_names(&page);
    assert_eq!(names, vec!["main", "dev", ""]);
    assert_eq!(protected, vec!["main", ""]);
}

#[test]
fn rulesets_read_in_full() {
    assert_eq!(ruleset_id(&j(r#"{"id": 5}"#)), Some(5));
    assert_eq!(ruleset_id(&j(r#"{"id": "5"}"#)), None);
    assert_eq!(ruleset_id(&j(r#"{"id": -5}"#)), None);
    assert_eq!(ruleset_id(&j("{}")), None);
    let r = ruleset_from_full(5, j(r#"{"id": 5, "name": "protect-main", "rules": [{"type": "copilot_code_review"}]}"#));
    assert_eq!(r.id, 5);
    assert_eq!(r.name, "protect-main");
    assert_eq!(r.target, "branch");
    assert_eq!(r.payload, j(r#"{"name": "protect-main", "rules": []}"#));
}

#[test]
fn snapshot_from_parts_defaults() {
    let s = snapshot_from_parts(
        "acme",
        "ref",
        &j(r#"{"has_issues": true, "merge_commit_message": "PR_BODY", "allow_forking": 1}"#),
        vec!["main".into()],
        vec![RulesetSummary { id: 1, name: "r".into(), target: "tag".into(), payload: j("{}") }],
        vec![BranchProtection { branch: "main".into(), config: j("{}") }],
    );
    assert_eq!(s.repo, "acme/ref");
    assert_eq!(s.default_branch, "main");
    assert!(s.features.has_issues);
    assert!(!s.features.allow_forking);
    assert_eq!(s.pull_requests.merge_commit_message.as_deref(), Some("PR_BODY"));
    assert_eq!(s.pull_requests.merge_commit_title, None);
    assert!(!s.others.web_commit_signoff_required);
    assert_eq!(s.rulesets.len(), 1);
    assert_eq!(s.branch_protections[0].branch, "main");
}

#[test]
fn team_and_app_ids() {
    let teams = match j(r#"[{"id": 1, "slug": "a"}, {"slug": "no-id"}, {"id": 3}]"#) {
        Json::Array(v) => v,
        _ => unreachable!(),
    };
    assert_eq!(field_ids(&teams, "id"), vec![1, 3]);
    let page = installations_of(&j(r#"{"total_count": 2, "installations": [{"id": 10, "app_id": 7}, {"id": 11, "app_id": 8}]}"#));
    assert_eq!(field_ids(&page, "app_id"), vec![7, 8]);
    assert!(installations_of(&j(r#"{"message": "Not Found"}"#)).is_empty());
    assert_eq!(org_installations_page_path("acme", 2), "/orgs/acme/installations?per_page=100&page=2");
}

// A listing holds every page's entries in order and is complete after the first short page.
#[test]
fn listing_reads_pages_up_to_the_short_one() {
    let mut l = Listing::new();
    assert_eq!(l.page(), 1);
    let full: Vec<Json> = (0..100).map(|i| j(&format!(r#"{{"n": {i}}}"#))).collect();
    l.take_page(full);
    assert!(!l.is_done());
    assert_eq!(l.page(), 2);
    l.take_page(vec![j(r#"{"n": 100}"#)]);
    assert!(l.is_done());
    let items = l.into_items();
    assert_eq!(items.len(), 101);
    assert_eq!(items[0], j(r#"{"n": 0}"#));
    assert_eq!(items[100], j(r#"{"n": 100}"#));
}
