use ghss::diff::diff_snapshots;
use ghss::json::{Json, JsonMap, JsonNumber};
use ghss::model::{
    BranchProtection, Category, Features, OtherSettings, PullRequestSettings,
    RepoSettingsSnapshot, RulesetSummary,
};

fn conv(v: &serde_json::Value) -> Json {
    match v {
        serde_json::Value::Null => Json::Null,
        serde_json::Value::Bool(b) => Json::Bool(*b),
        serde_json::Value::Number(n) => Json::Number(if let Some(u) = n.as_u64() {
            JsonNumber::PosInt(u)
        } else if let Some(i) = n.as_i64() {
            JsonNumber::NegInt(i)
        } else {
            JsonNumber::Float(n.as_f64().unwrap().to_bits())
        }),
        serde_json::Value::String(s) => Json::Str(s.clone()),
        serde_json::Value::Array(a) => Json::Array(a.iter().map(conv).collect()),
        serde_json::Value::Object(o) => {
            let mut m = JsonMap::new();
            for (k, x) in o {
                m.insert(k.clone(), conv(x));
            }
            Json::Object(m)
        }
    }
}

fn j(text: &str) -> Json {
    conv(&serde_json::from_str(text).unwrap())
}

fn base(repo: &str) -> RepoSettingsSnapshot {
    RepoSettingsSnapshot {
        repo: repo.into(),
        default_branch: "main".into(),
        branches: vec!["main".into()],
        features: Features { has_wiki: true, has_issues: true, has_projects: false, has_discussions: false, allow_forking: false },
        pull_requests: PullRequestSettings::default(),
        others: OtherSettings::default(),
        rulesets: vec![],
        branch_protections: vec![],
    }
}

#[test]
fn identical_snapshots_have_no_changes() {
    let d = diff_snapshots(&base("a/ref"), &base("a/t1"));
    assert!(d.changes.is_empty());
}

#[test]
fn scalar_differences_detected() {
    let reference = base("a/ref");
    let mut target = base("a/t1");
    target.features.has_wiki = false;
    target.pull_requests.allow_squash_merge = true;
    let d = diff_snapshots(&reference, &target);
    assert_eq!(d.changes.len(), 2);
    let wiki = d.changes.iter().find(|c| c.key == "features.has_wiki").unwrap();
    assert_eq!(wiki.current, j("false"));
    assert_eq!(wiki.desired, j("true"));
    assert_eq!(wiki.category, Category::Features);
    assert!(d.changes.iter().any(|c| c.key == "pull_requests.allow_squash_merge" && c.category == Category::PullRequests));
}

#[test]
fn default_branch_missing_in_target_is_not_applicable() {
    let mut reference = base("a/ref");
    reference.default_branch = "develop".into();
    reference.branches = vec!["main".into(), "develop".into()];
    let target = base("a/t1");
    let d = diff_snapshots(&reference, &target);
    let c = d.changes.iter().find(|c| c.key == "default_branch").unwrap();
    assert!(!c.applicable);
    assert!(c.note.is_some());
}

#[test]
fn ruleset_create_update_and_tag_category() {
    let mut reference = base("a/ref");
    reference.rulesets = vec![
        RulesetSummary { id: 1, name: "branch-rules".into(), target: "branch".into(), payload: j(r#"{"name": "branch-rules", "rules": [{"type": "deletion"}]}"#) },
        RulesetSummary { id: 2, name: "tag-rules".into(), target: "tag".into(), payload: j(r#"{"name": "tag-rules"}"#) },
    ];
    let mut target = base("a/t1");
    target.rulesets = vec![
        RulesetSummary { id: 9, name: "branch-rules".into(), target: "branch".into(), payload: j(r#"{"name": "branch-rules", "rules": []}"#) },
    ];
    let d = diff_snapshots(&reference, &target);
    let upd = d.changes.iter().find(|c| c.key == "ruleset.branch.branch-rules").unwrap();
    assert_eq!(upd.category, Category::Rules);
    assert_eq!(upd.current, j(r#"{"name": "branch-rules", "rules": []}"#));
    let create = d.changes.iter().find(|c| c.key == "ruleset.tag.tag-rules").unwrap();
    assert_eq!(create.category, Category::Tags);
    assert_eq!(create.current, Json::Null);
}

#[test]
fn target_only_ruleset_produces_no_change() {
    let reference = base("a/ref");
    let mut target = base("a/t1");
    target.rulesets = vec![
        RulesetSummary { id: 5, name: "target-only".into(), target: "branch".into(), payload: j("{}") },
    ];
    let d = diff_snapshots(&reference, &target);
    assert!(d.changes.is_empty());
}

#[test]
fn branch_protection_diff_and_missing_branch() {
    let mut reference = base("a/ref");
    reference.branches = vec!["main".into(), "release".into()];
    reference.branch_protections = vec![
        BranchProtection { branch: "main".into(), config: j(r#"{"enforce_admins": true}"#) },
        BranchProtection { branch: "release".into(), config: j(r#"{"enforce_admins": false}"#) },
    ];
    let target = base("a/t1");
    let d = diff_snapshots(&reference, &target);
    let main = d.changes.iter().find(|c| c.key == "branch_protection.main").unwrap();
    assert!(main.applicable);
    assert_eq!(main.current, Json::Null);
    let release = d.changes.iter().find(|c| c.key == "branch_protection.release").unwrap();
    assert!(!release.applicable);
}

// The diff of a snapshot with itself is empty, rulesets and protections included.
#[test]
fn snapshot_compared_with_itself_has_no_changes() {
    let mut s = base("a/ref");
    s.branches = vec!["main".into(), "dev".into()];
    s.rulesets = vec![
        RulesetSummary { id: 1, name: "r".into(), target: "branch".into(), payload: j(r#"{"name": "r"}"#) },
    ];
    s.branch_protections = vec![BranchProtection { branch: "dev".into(), config: j(r#"{"lock_branch": true}"#) }];
    let mut t = base("a/ref");
    t.branches = vec!["main".into(), "dev".into()];
    t.rulesets = vec![
        RulesetSummary { id: 7, name: "r".into(), target: "branch".into(), payload: j(r#"{"name": "r"}"#) },
    ];
    t.branch_protections = vec![BranchProtection { branch: "dev".into(), config: j(r#"{"lock_branch": true}"#) }];
    assert!(diff_snapshots(&s, &t).changes.is_empty());
}

#[test]
fn diff_labels_notes_and_order() {
    let mut reference = base("a/ref");
    reference.default_branch = "develop".into();
    reference.others.web_commit_signoff_required = true;
    reference.pull_requests.squash_merge_commit_title = Some("PR_TITLE".into());
    reference.branch_protections = vec![BranchProtection { branch: "main".into(), config: j(r#"{"a": 1}"#) }];
    let mut target = base("a/t1");
    target.branch_protections = vec![BranchProtection { branch: "main".into(), config: j(r#"{"a": 2}"#) }];
    let d = diff_snapshots(&reference, &target);
    assert_eq!(d.repo, "a/t1");
    let keys: Vec<&str> = d.changes.iter().map(|c| c.key.as_str()).collect();
    assert_eq!(keys, vec![
        "default_branch",
        "pull_requests.squash_merge_commit_title",
        "others.web_commit_signoff_required",
        "branch_protection.main",
    ]);
    assert_eq!(d.changes[0].note.as_deref(), Some("Branch «develop» does not exist in the target"));
    assert_eq!(d.changes[0].current, j(r#""main""#));
    assert_eq!(d.changes[0].desired, j(r#""develop""#));
    assert_eq!(d.changes[1].current, Json::Null);
    assert_eq!(d.changes[1].desired, j(r#""PR_TITLE""#));
    assert_eq!(d.changes[3].label, "Branch protection «main»");
    assert!(d.changes[3].applicable);
    assert_eq!(d.changes[3].current, j(r#"{"a": 2}"#));
}
