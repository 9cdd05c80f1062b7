use ghss::snapshot::{FetchStep, Reply, SnapshotFetch};
use ghss::json::{Json, JsonMap, JsonNumber};

fn conv(v: &serde_json::Value) -> Json {
    match v {
        serde_json::Value::Null => Json::Null,
        serde_json::Value::Bool(b) => Json::Bool(*b),
        serde_json::Value::Number(n) => Json::Number(if let Some(u) = n.as_u64() {
            JsonNumber::PosInt(u)
        } else if let Some(i) = n.as_i64() {
            JsonNumber::NegInt(i)
        } else {
            JsonNumber::Float(n.as_f64().unwrap().to_bits())
        }),
        serde_json::Value::String(s) => Json::Str(s.clone()),
        serde_json::Value::Array(a) => Json::Array(a.iter().map(conv).collect()),
        serde_json::Value::Object(o) => {
            let mut m = JsonMap::new();
            for (k, x) in o {
                m.insert(k.clone(), conv(x));
            }
            Json::Object(m)
        }
    }
}

fn j(text: &str) -> Json {
    conv(&serde_json::from_str(text).unwrap())
}

fn expect_get(step: FetchStep) -> String {
    match step {
        FetchStep::Get(p) => p,
        FetchStep::Stop => panic!("unexpected stop"),
        FetchStep::Invalid(m) => panic!("unexpected invalid answer: {m}"),
        FetchStep::Done => panic!("unexpected end"),
    }
}

fn ref_repo() -> Json {
    j(r#"{
        "full_name": "acme/ref", "default_branch": "main",
        "has_wiki": true, "has_issues": true, "has_projects": false,
        "has_discussions": false, "allow_forking": false,
        "web_commit_signoff_required": false,
        "allow_merge_commit": false, "merge_commit_title": null, "merge_commit_message": null,
        "allow_squash_merge": true, "squash_merge_commit_title": "PR_TITLE",
        "squash_merge_commit_message": "COMMIT_MESSAGES",
        "allow_rebase_merge": false, "allow_update_branch": true,
        "allow_auto_merge": false, "delete_branch_on_merge": true
    }"#)
}

// The reading of a snapshot asks for each source in turn and combines them.
#[test]
fn snapshot_reading_combines_all_sources() {
    let mut f = SnapshotFetch::new("acme", "ref");
    assert_eq!(f.request(), "/repos/acme/ref");
    let p = expect_get(f.advance(Reply::Answer(ref_repo())));
    assert_eq!(p, "/repos/acme/ref/branches?per_page=100&page=1");
    let p = expect_get(f.advance(Reply::Answer(j(r#"[{"name": "main", "protected": true}, {"name": "dev", "protected": false}]"#))));
    assert_eq!(p, "/repos/acme/ref/rulesets?per_page=100&page=1&includes_parents=false");
    let p = expect_get(f.advance(Reply::Answer(j(r#"[{"id": 5, "name": "protect-main", "target": "branch"}, {"name": "no-id"}]"#))));
    assert_eq!(p, "/repos/acme/ref/rulesets/5");
    let p = expect_get(f.advance(Reply::Answer(j(r#"{
        "id": 5, "node_id": "x", "source": "acme/ref", "source_type": "Repository",
        "name": "protect-main", "target": "branch", "enforcement": "active",
        "bypass_actors": [], "conditions": {"ref_name": {"include": ["~DEFAULT_BRANCH"], "exclude": []}},
        "rules": [{"type": "deletion"}], "created_at": "2026-01-01", "updated_at": "2026-01-01"
    }"#))));
    assert_eq!(p, "/repos/acme/ref/branches/main/protection");
    let step = f.advance(Reply::Answer(j(r#"{
        "enforce_admins": {"enabled": true},
        "required_linear_history": {"enabled": true},
        "allow_force_pushes": {"enabled": false},
        "allow_deletions": {"enabled": false}
    }"#)));
    assert!(matches!(step, FetchStep::Done));
    assert!(f.is_finished());
    let snap = f.into_snapshot();
    assert_eq!(snap.repo, "acme/ref");
    assert_eq!(snap.default_branch, "main");
    assert_eq!(snap.branches, vec!["main".to_string(), "dev".to_string()]);
    assert!(snap.features.has_wiki);
    assert!(snap.pull_requests.allow_squash_merge);
    assert_eq!(snap.pull_requests.squash_merge_commit_title.as_deref(), Some("PR_TITLE"));
    assert_eq!(snap.pull_requests.merge_commit_title, None);
    assert_eq!(snap.rulesets.len(), 1);
    assert_eq!(snap.rulesets[0].id, 5);
    assert_eq!(snap.rulesets[0].name, "protect-main");
    assert!(snap.rulesets[0].payload.get("id").is_none(), "el payload debe estar normalizado");
    assert_eq!(snap.branch_protections.len(), 1);
    assert_eq!(snap.branch_protections[0].branch, "main");
    assert_eq!(snap.branch_protections[0].config.get("enforce_admins"), Some(&j("true")));
}

// A branch protected only by rulesets answers 404 for its classic protection: it is skipped.
#[test]
fn snapshot_reading_skips_protection_404() {
    let mut f = SnapshotFetch::new("acme", "ref");
    expect_get(f.advance(Reply::Answer(j(r#"{"full_name": "acme/ref", "default_branch": "main"}"#))));
    expect_get(f.advance(Reply::Answer(j(r#"[{"name": "feat", "protected": true}]"#))));
    let p = expect_get(f.advance(Reply::Answer(j("[]"))));
    assert_eq!(p, "/repos/acme/ref/branches/feat/protection");
    assert!(matches!(f.advance(Reply::Refused(404)), FetchStep::Done));
    let snap = f.into_snapshot();
    assert_eq!(snap.branches, vec!["feat".to_string()]);
    assert!(snap.branch_protections.is_empty(), "la rama protegida solo por rulesets no aporta protección clásica");
}

// Rulesets that the plan does not offer answer 403: the snapshot has none.
#[test]
fn snapshot_reading_tolerates_rulesets_403() {
    let mut f = SnapshotFetch::new("acme", "priv");
    expect_get(f.advance(Reply::Answer(j(r#"{"full_name": "acme/priv", "default_branch": "main", "has_wiki": true}"#))));
    expect_get(f.advance(Reply::Answer(j(r#"[{"name": "main", "protected": false}]"#))));
    assert!(matches!(f.advance(Reply::Refused(403)), FetchStep::Done));
    let snap = f.into_snapshot();
    assert_eq!(snap.repo, "acme/priv");
    assert!(snap.rulesets.is_empty(), "los rulesets bloqueados por plan se ignoran");
    assert!(snap.features.has_wiki);
}

// A full page asks for the next one; errors other than the tolerated ones stop the reading.
#[test]
fn snapshot_reading_pages_and_stops() {
    let mut f = SnapshotFetch::new("o", "n");
    expect_get(f.advance(Reply::Answer(j("{}"))));
    let page: Vec<String> = (0..100).map(|i| format!(r#"{{"name": "b{i}"}}"#)).collect();
    let p = expect_get(f.advance(Reply::Answer(j(&format!("[{}]", page.join(","))))));
    assert_eq!(p, "/repos/o/n/branches?per_page=100&page=2");
    let p = expect_get(f.advance(Reply::Answer(j(r#"[{"name": "last", "protected": true}]"#))));
    assert_eq!(p, "/repos/o/n/rulesets?per_page=100&page=1&includes_parents=false");
    assert!(matches!(f.advance(Reply::Refused(500)), FetchStep::Stop));
    // The reading stays where it was after a stop.
    assert_eq!(f.request(), "/repos/o/n/rulesets?per_page=100&page=1&includes_parents=false");
    let p = expect_get(f.advance(Reply::Answer(j("[]"))));
    assert_eq!(p, "/repos/o/n/branches/last/protection");
    assert!(matches!(f.advance(Reply::Refused(403)), FetchStep::Stop));
    assert!(matches!(f.advance(Reply::Failed), FetchStep::Stop));
    let snap = {
        assert!(matches!(f.advance(Reply::Answer(j(r#"{"lock_branch": {"enabled": true}}"#))), FetchStep::Done));
        f.into_snapshot()
    };
    assert_eq!(snap.branches.len(), 101);
    assert_eq!(snap.default_branch, "main");
    assert_eq!(snap.branch_protections[0].config.get("lock_branch"), Some(&j("true")));
}

// A listing that is not a list ends the reading with a message that names the path.
#[test]
fn snapshot_reading_refuses_non_lists() {
    let mut f = SnapshotFetch::new("o", "n");
    expect_get(f.advance(Reply::Answer(j("{}"))));
    match f.advance(Reply::Unreadable("invalid type: map, expected a sequence".into())) {
        FetchStep::Invalid(m) => assert_eq!(
            m,
            "respuesta inesperada de /repos/o/n/branches?per_page=100&page=1: invalid type: map, expected a sequence"
        ),
        _ => panic!("expected an invalid answer"),
    }
    match f.advance(Reply::Answer(j(r#"{"a": 1}"#))) {
        FetchStep::Invalid(m) => assert!(m.starts_with("respuesta inesperada de /repos/o/n/branches")),
        _ => panic!("expected an invalid answer"),
    }
    assert!(matches!(f.advance(Reply::Failed), FetchStep::Stop));
}

// The repository's own description failing stops the reading at once.
#[test]
fn snapshot_reading_stops_when_repo_fails() {
    let mut f = SnapshotFetch::new("o", "n");
    assert!(matches!(f.advance(Reply::Refused(404)), FetchStep::Stop));
    assert_eq!(f.request(), "/repos/o/n");
}
