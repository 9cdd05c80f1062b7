use ghss::commands::{audit_target, collect_audit, split_full_name, user_info_from_json};
use ghss::json::{Json, JsonMap};
use ghss::model::{Features, OtherSettings, PullRequestSettings, RepoSettingsSnapshot};
use ghss::sync::{ActionResult, SyncAction};
use ghss::commands::{RepoSyncPlan, RepoSyncResult, SyncRun};
use ghss::model::{Category, SettingChange};
use ghss::sync::KnownActors;

fn snap(repo: &str, wiki: bool) -> RepoSettingsSnapshot {
    RepoSettingsSnapshot {
        repo: repo.into(),
        default_branch: "main".into(),
        branches: vec!["main".into()],
        features: Features { has_wiki: wiki, ..Features::default() },
        pull_requests: PullRequestSettings::default(),
        others: OtherSettings::default(),
        rulesets: vec![],
        branch_protections: vec![],
    }
}

#[test]
fn split_full_name_at_first_slash() {
    assert_eq!(split_full_name("acme/ref"), Ok(("acme".to_string(), "ref".to_string())));
    assert_eq!(split_full_name("a/b/c"), Ok(("a".to_string(), "b/c".to_string())));
    assert_eq!(split_full_name("/x"), Ok(("".to_string(), "x".to_string())));
    assert_eq!(split_full_name("noslash"), Err("nombre de repo inválido: noslash".to_string()));
    assert_eq!(audit_target("acme/t1"), Ok(("acme".to_string(), "t1".to_string())));
    assert_eq!(audit_target("t1"), Err("nombre inválido".to_string()));
}

#[test]
fn user_info_reads_login_and_avatar() {
    let mut m = JsonMap::new();
    m.insert("login".into(), Json::Str("jamuriano".into()));
    m.insert("avatar_url".into(), Json::Str("https://a/x.png".into()));
    let u = user_info_from_json(&Json::Object(m));
    assert_eq!(u.login, "jamuriano");
    assert_eq!(u.avatar_url, "https://a/x.png");
    let u = user_info_from_json(&Json::Null);
    assert_eq!((u.login.as_str(), u.avatar_url.as_str()), ("", ""));
}

// Every target comes out once, as a diff or as an error, in the order of the targets,
// whatever order the fetches finished in.
#[test]
fn audit_accounts_for_every_target() {
    let targets = vec!["acme/t1".to_string(), "bad".to_string(), "acme/t2".to_string(), "acme/t3".to_string()];
    let results = vec![
        (2, Ok(snap("acme/t2", true))),
        (3, Err("GitHub respondió 404 Not Found: {}".to_string())),
        (0, Ok(snap("acme/t1", false))),
        (1, Err("nombre inválido".to_string())),
    ];
    let a = collect_audit(snap("acme/ref", true), &targets, &results);
    assert_eq!(a.reference.repo, "acme/ref");
    assert_eq!(a.diffs.len() + a.errors.len(), targets.len());
    assert_eq!(a.diffs.len(), 2);
    assert_eq!(a.diffs[0].repo, "acme/t1");
    assert_eq!(a.diffs[0].changes.len(), 1);
    assert_eq!(a.diffs[0].changes[0].key, "features.has_wiki");
    assert_eq!(a.diffs[1].repo, "acme/t2");
    assert!(a.diffs[1].changes.is_empty());
    assert_eq!(
        a.errors,
        vec![
            ("bad".to_string(), "nombre inválido".to_string()),
            ("acme/t3".to_string(), "GitHub respondió 404 Not Found: {}".to_string()),
        ]
    );
}

#[test]
fn sync_result_holds_action_results() {
    let r = RepoSyncResult {
        repo: "acme/t1".into(),
        results: vec![ActionResult::from_outcome(&SyncAction::PatchRepo(Json::Null), Ok(()))],
        warnings: vec![],
        fatal: None,
    };
    assert_eq!(r.results[0].description, "Actualizar settings del repo ()");
    assert!(r.results[0].ok);
}

// One repository's failure does not stop the batch: a bad name and an unreadable snapshot
// each get their error, the others are planned and applied, one result per plan in order.
#[test]
fn sync_run_goes_on_after_failures() {
    let change = SettingChange {
        key: "features.has_wiki".into(),
        label: "Wikis".into(),
        category: Category::Features,
        current: Json::Bool(false),
        desired: Json::Bool(true),
        applicable: true,
        note: None,
    };
    let plans = vec![
        RepoSyncPlan { repo: "noslash".into(), changes: vec![] },
        RepoSyncPlan { repo: "acme/gone".into(), changes: vec![] },
        RepoSyncPlan { repo: "acme/t1".into(), changes: vec![change] },
    ];
    let mut run = SyncRun::new(plans);
    assert_eq!(run.next_target(), None);
    assert_eq!(run.next_target(), Some(("acme".to_string(), "gone".to_string())));
    run.snapshot_failed("GitHub respondió 404 Not Found: {}".into());
    assert_eq!(run.next_target(), Some(("acme".to_string(), "t1".to_string())));
    assert_eq!(run.current_repo(), "acme/t1");
    let plan = run.actions_for(&snap("acme/t1", false), &KnownActors { teams: None, apps: None });
    assert_eq!(plan.actions.len(), 1);
    assert!(matches!(&plan.actions[0], SyncAction::PatchRepo(_)));
    let results = vec![ActionResult::from_outcome(&plan.actions[0], Ok(()))];
    run.applied(plan.warnings, results);
    assert!(run.is_done());
    let all = run.into_results();
    assert_eq!(all.len(), 3);
    assert_eq!(all[0].repo, "noslash");
    assert_eq!(all[0].fatal.as_deref(), Some("nombre de repo inválido: noslash"));
    assert!(all[0].results.is_empty());
    assert_eq!(all[1].fatal.as_deref(), Some("GitHub respondió 404 Not Found: {}"));
    assert_eq!(all[2].fatal, None);
    assert_eq!(all[2].results.len(), 1);
    assert!(all[2].results[0].ok);
    assert!(all[2].warnings.is_empty());
}
