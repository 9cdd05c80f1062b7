use ghss::sync::{action_request, WriteMethod};
use ghss::sync::{plan_actions, plan_sync, restrict_actions, ActionResult, ApplyRun, KnownActors, SyncAction};
use ghss::json::{Json, JsonMap, JsonNumber};

fn conv(v: &serde_json::Value) -> Json {
    match v {
        serde_json::Value::Null => Json::Null,
        serde_json::Value::Bool(b) => Json::Bool(*b),
        serde_json::Value::Number(n) => Json::Number(if let Some(u) = n.as_u64() {
            JsonNumber::PosInt(u)
        } else if let Some(i) = n.as_i64() {
            JsonNumber::NegInt(i)
        } else {
            JsonNumber::Float(n.as_f64().unwrap().to_bits())
        }),
        serde_json::Value::String(s) => Json::Str(s.clone()),
        serde_json::Value::Array(a) => Json::Array(a.iter().map(conv).collect()),
        serde_json::Value::Object(o) => {
            let mut m = JsonMap::new();
            for (k, x) in o {
                m.insert(k.clone(), conv(x));
            }
            Json::Object(m)
        }
    }
}

fn j(text: &str) -> Json {
    conv(&serde_json::from_str(text).unwrap())
}
use ghss::model::{
    Category, Features, OtherSettings, PullRequestSettings, RepoSettingsSnapshot, RulesetSummary,
    SettingChange,
};

fn change(key: &str, category: Category, desired: Json) -> SettingChange {
    SettingChange { key: key.into(), label: key.into(), category, current: Json::Null, desired, applicable: true, note: None }
}

fn target_with_ruleset() -> RepoSettingsSnapshot {
    RepoSettingsSnapshot {
        repo: "a/t1".into(),
        default_branch: "main".into(),
        branches: vec!["main".into()],
        features: Features::default(),
        pull_requests: PullRequestSettings::default(),
        others: OtherSettings::default(),
        rulesets: vec![RulesetSummary { id: 77, name: "existing".into(), target: "branch".into(), payload: j(r#"{"name": "existing"}"#) }],
        branch_protections: vec![],
    }
}

#[test]
fn scalars_merge_into_single_patch() {
    let changes = vec![
        change("features.has_wiki", Category::Features, j("true")),
        change("pull_requests.allow_squash_merge", Category::PullRequests, j("true")),
        change("default_branch", Category::DefaultBranch, j(r#""develop""#)),
        change("others.web_commit_signoff_required", Category::Others, j("true")),
    ];
    let actions = plan_actions(&changes, &target_with_ruleset());
    assert_eq!(actions.len(), 1);
    match &actions[0] {
        SyncAction::PatchRepo(body) => {
            assert_eq!(*body, j(r#"{"has_wiki": true, "allow_squash_merge": true, "default_branch": "develop", "web_commit_signoff_required": true}"#));
        }
        other => panic!("esperaba PatchRepo, fue {:?}", other),
    }
}

#[test]
fn ruleset_upsert_resolves_create_vs_update() {
    let changes = vec![
        change("ruleset.branch.existing", Category::Rules, j(r#"{"name": "existing", "target": "branch", "rules": [{"type": "deletion"}]}"#)),
        change("ruleset.tag.newtag", Category::Tags, j(r#"{"name": "newtag", "target": "tag"}"#)),
    ];
    let actions = plan_actions(&changes, &target_with_ruleset());
    assert_eq!(actions.len(), 2);
    assert!(matches!(&actions[0], SyncAction::UpdateRuleset { id: 77, .. }));
    assert!(matches!(&actions[1], SyncAction::CreateRuleset(_)));
}

#[test]
fn branch_protection_and_non_applicable_skipped() {
    let changes = vec![
        change("branch_protection.main", Category::Rules, j(r#"{"enforce_admins": true}"#)),
        SettingChange { key: "default_branch".into(), label: "x".into(), category: Category::DefaultBranch, current: Json::Null, desired: j(r#""develop""#), applicable: false, note: None },
    ];
    let actions = plan_actions(&changes, &target_with_ruleset());
    assert_eq!(actions.len(), 1);
    match &actions[0] {
        SyncAction::PutBranchProtection { branch, config } => {
            assert_eq!(branch, "main");
            assert_eq!(*config, j(r#"{"enforce_admins": true}"#));
        }
        other => panic!("esperaba PutBranchProtection, fue {:?}", other),
    }
}

#[test]
fn ruleset_with_dotted_name_resolves_update_via_payload() {
    let mut target = target_with_ruleset();
    target.rulesets.push(RulesetSummary { id: 88, name: "protect.main".into(), target: "branch".into(), payload: j(r#"{"name": "protect.main"}"#) });
    let changes = vec![change("ruleset.branch.protect.main", Category::Rules, j(r#"{"name": "protect.main", "target": "branch", "rules": []}"#))];
    let actions = plan_actions(&changes, &target);
    assert_eq!(actions.len(), 1);
    assert!(matches!(&actions[0], SyncAction::UpdateRuleset { id: 88, .. }));
}

// The patch comes first even where the plain setting was chosen after the other changes;
// a ruleset change without a name in its payload is skipped; a ruleset target defaults to branch.
#[test]
fn patch_goes_first_and_nameless_rulesets_are_skipped() {
    let changes = vec![
        change("branch_protection.dev", Category::Rules, j("{}")),
        change("ruleset.branch.x", Category::Rules, j(r#"{"target": "branch"}"#)),
        change("ruleset.branch.existing", Category::Rules, j(r#"{"name": "existing"}"#)),
        change("features.has_issues", Category::Features, j("false")),
        change("unknown.key", Category::Others, j("1")),
    ];
    let actions = plan_actions(&changes, &target_with_ruleset());
    assert_eq!(actions.len(), 3);
    match &actions[0] {
        SyncAction::PatchRepo(body) => assert_eq!(*body, j(r#"{"has_issues": false}"#)),
        other => panic!("expected a patch, got {:?}", other),
    }
    assert!(matches!(&actions[1], SyncAction::PutBranchProtection { branch, .. } if branch == "dev"));
    assert!(matches!(&actions[2], SyncAction::UpdateRuleset { id: 77, .. }));
}

// A later change of the same field overwrites the earlier one in the patch.
#[test]
fn later_change_of_a_field_wins() {
    let changes = vec![
        change("default_branch", Category::DefaultBranch, j(r#""a""#)),
        change("default_branch", Category::DefaultBranch, j(r#""b""#)),
    ];
    let actions = plan_actions(&changes, &target_with_ruleset());
    assert_eq!(actions.len(), 1);
    match &actions[0] {
        SyncAction::PatchRepo(body) => assert_eq!(*body, j(r#"{"default_branch": "b"}"#)),
        other => panic!("expected a patch, got {:?}", other),
    }
}

#[test]
fn nothing_applicable_plans_nothing() {
    let mut c = change("features.has_wiki", Category::Features, j("true"));
    c.applicable = false;
    assert!(plan_actions(&[c], &target_with_ruleset()).is_empty());
    assert!(plan_actions(&[], &target_with_ruleset()).is_empty());
}

#[test]
fn describe_each_action() {
    let patch = SyncAction::PatchRepo(j(r#"{"has_wiki": true, "allow_forking": false}"#));
    assert_eq!(patch.describe(), "Actualizar settings del repo (allow_forking, has_wiki)");
    assert_eq!(SyncAction::CreateRuleset(j(r#"{"name": "r1"}"#)).describe(), "Crear ruleset «r1»");
    assert_eq!(SyncAction::CreateRuleset(j("{}")).describe(), "Crear ruleset «?»");
    assert_eq!(
        SyncAction::UpdateRuleset { id: 3, payload: j(r#"{"name": "r2"}"#) }.describe(),
        "Actualizar ruleset «r2»"
    );
    assert_eq!(
        SyncAction::PutBranchProtection { branch: "main".into(), config: j("{}") }.describe(),
        "Aplicar branch protection a «main»"
    );
    assert_eq!(SyncAction::PatchRepo(Json::Null).describe(), "Actualizar settings del repo ()");
}

#[test]
fn action_result_reports_outcome() {
    let a = SyncAction::CreateRuleset(j(r#"{"name": "r1"}"#));
    let ok = ActionResult::from_outcome(&a, Ok(()));
    assert_eq!(ok.description, "Crear ruleset «r1»");
    assert!(ok.ok);
    assert_eq!(ok.error, None);
    let failed = ActionResult::from_outcome(&a, Err("GitHub respondió 422: bad".into()));
    assert!(!failed.ok);
    assert_eq!(failed.error.as_deref(), Some("GitHub respondió 422: bad"));
}

// A failed call does not stop the run: every action gets its result, in order.
#[test]
fn apply_run_reports_every_action() {
    let actions = vec![
        SyncAction::PatchRepo(j(r#"{"has_wiki": true}"#)),
        SyncAction::PutBranchProtection { branch: "main".into(), config: j(r#"{"enforce_admins": true}"#) },
        SyncAction::CreateRuleset(j(r#"{"name": "r"}"#)),
    ];
    let mut run = ApplyRun::new(actions);
    let mut seen = Vec::new();
    let mut outcomes = vec![Ok(()), Err("GitHub respondió 403 Forbidden: {\"message\":\"Forbidden\"}".to_string()), Ok(())].into_iter();
    while let Some(a) = run.current() {
        seen.push(a.describe());
        run.record(outcomes.next().unwrap());
    }
    let results = run.into_results();
    assert_eq!(results.len(), 3, "debe notificar progreso por acción");
    assert_eq!(seen.len(), 3);
    assert!(results[0].ok);
    assert!(!results[1].ok);
    assert_eq!(results[1].description, "Aplicar branch protection a «main»");
    assert!(results[1].error.as_deref().unwrap().contains("403"));
    assert!(results[2].ok);
    assert_eq!(results[2].description, "Crear ruleset «r»");
}

// Bypass actors naming teams or apps that the target does not have are dropped from the copied
// ruleset, with a warning that names it; other actors, and rulesets without losses, stay.
#[test]
fn unknown_bypass_actors_are_dropped_with_a_warning() {
    let payload = j(r#"{"name": "protect", "target": "branch", "bypass_actors": [
        {"actor_id": 1, "actor_type": "Team", "bypass_mode": "always"},
        {"actor_id": 2, "actor_type": "Team", "bypass_mode": "always"},
        {"actor_id": 7, "actor_type": "Integration", "bypass_mode": "always"},
        {"actor_id": 5, "actor_type": "RepositoryRole", "bypass_mode": "always"},
        {"actor_id": 1, "actor_type": "OrganizationAdmin", "bypass_mode": "always"}
    ]}"#);
    let changes = vec![
        change("ruleset.branch.protect", Category::Rules, payload),
        change("ruleset.branch.existing", Category::Rules, j(r#"{"name": "existing", "bypass_actors": [{"actor_id": 2, "actor_type": "Team"}]}"#)),
    ];
    let known = KnownActors { teams: Some(vec![2, 3]), apps: Some(vec![]) };
    let plan = plan_sync(&changes, &target_with_ruleset(), &known);
    assert_eq!(plan.actions.len(), 2);
    match &plan.actions[0] {
        SyncAction::CreateRuleset(p) => assert_eq!(*p, j(r#"{"name": "protect", "target": "branch", "bypass_actors": [
            {"actor_id": 2, "actor_type": "Team", "bypass_mode": "always"},
            {"actor_id": 5, "actor_type": "RepositoryRole", "bypass_mode": "always"},
            {"actor_id": 1, "actor_type": "OrganizationAdmin", "bypass_mode": "always"}
        ]}"#)),
        other => panic!("expected a create, got {:?}", other),
    }
    match &plan.actions[1] {
        SyncAction::UpdateRuleset { id: 77, payload } => {
            assert_eq!(*payload, j(r#"{"name": "existing", "bypass_actors": [{"actor_id": 2, "actor_type": "Team"}]}"#))
        }
        other => panic!("expected an update, got {:?}", other),
    }
    assert_eq!(plan.warnings, vec!["Ruleset «protect»: se omiten bypass_actors que no existen en el destino"]);
}

// Where the target's teams or apps could not be read, no actor of that kind is dropped.
#[test]
fn unreadable_actors_are_kept() {
    let actions = vec![
        SyncAction::CreateRuleset(j(r#"{"name": "r", "bypass_actors": [{"actor_id": 9, "actor_type": "Team"}, {"actor_type": "Integration"}]}"#)),
        SyncAction::PatchRepo(j(r#"{"has_wiki": true}"#)),
    ];
    let plan = restrict_actions(actions, &KnownActors { teams: None, apps: Some(vec![4]) });
    match &plan.actions[0] {
        SyncAction::CreateRuleset(p) => assert_eq!(*p, j(r#"{"name": "r", "bypass_actors": [{"actor_id": 9, "actor_type": "Team"}]}"#)),
        other => panic!("expected a create, got {:?}", other),
    }
    assert_eq!(plan.actions[1].describe(), "Actualizar settings del repo (has_wiki)");
    assert_eq!(plan.warnings, vec!["Ruleset «r»: se omiten bypass_actors que no existen en el destino"]);
    let same = plan_actions(&[change("ruleset.branch.r", Category::Rules, j(r#"{"name": "r"}"#))], &target_with_ruleset());
    assert_eq!(same.len(), 1);
}

#[test]
fn actions_map_to_requests() {
    let patch = SyncAction::PatchRepo(j(r#"{"has_wiki": true}"#));
    let (m, p, b) = action_request("acme", "t1", &patch);
    assert_eq!((m, p.as_str()), (WriteMethod::Patch, "/repos/acme/t1"));
    assert_eq!(*b, j(r#"{"has_wiki": true}"#));
    let create = SyncAction::CreateRuleset(j(r#"{"name": "r"}"#));
    let (m, p, _) = action_request("acme", "t1", &create);
    assert_eq!((m, p.as_str()), (WriteMethod::Post, "/repos/acme/t1/rulesets"));
    let update = SyncAction::UpdateRuleset { id: 9, payload: j(r#"{"name": "r"}"#) };
    let (m, p, _) = action_request("acme", "t1", &update);
    assert_eq!((m, p.as_str()), (WriteMethod::Put, "/repos/acme/t1/rulesets/9"));
    let protect = SyncAction::PutBranchProtection { branch: "main".into(), config: j(r#"{"enforce_admins": true}"#) };
    let (m, p, b) = action_request("acme", "t1", &protect);
    assert_eq!((m, p.as_str()), (WriteMethod::Put, "/repos/acme/t1/branches/main/protection"));
    assert_eq!(*b, j(r#"{"enforce_admins": true}"#));
}
