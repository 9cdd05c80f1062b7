use vstd::prelude::*;
use crate::json::{Json, JV, opt_str_json, lemma_json_view};
use crate::model::{
    Category, ChangeV, Features, OtherSettings, ProtectionV, PullRequestSettings,
    PullRequestSettingsV, RepoDiff, RepoDiffV, RepoSettingsSnapshot, RulesetV, SettingChange,
    SnapshotV, changes_view, BranchProtection, RulesetSummary,
};
use crate::search::{first_match, lemma_first_match_at, lemma_first_match_none, lemma_first_match_push};
use crate::text::{concat, concat3, concat4, contains_str, str_eq};

verus! {

broadcast use lemma_json_view;

/// A change of one setting whose values differ; nothing where they are equal.
#[verifier::opaque]
pub open spec fn scalar_change(
    category: Category,
    key: Seq<char>,
    label: Seq<char>,
    current: JV,
    desired: JV,
) -> Seq<ChangeV> {
    if current != desired {
        seq![
            ChangeV {
                key,
                label,
                category,
                current,
                desired,
                applicable: true,
                note: None,
            },
        ]
    } else {
        Seq::empty()
    }
}

/// The note of a change that needs a branch the target lacks.
pub open spec fn missing_branch_note(branch: Seq<char>) -> Seq<char> {
    "Branch «"@ + branch + "» does not exist in the target"@
}

/// The change of the default branch, applicable only where the target has that branch.
pub open spec fn default_branch_changes(r: SnapshotV, t: SnapshotV) -> Seq<ChangeV> {
    if r.default_branch != t.default_branch {
        let exists = t.branches.contains(r.default_branch);
        seq![
            ChangeV {
                key: "default_branch"@,
                label: "Default branch"@,
                category: Category::DefaultBranch,
                current: JV::Str(t.default_branch),
                desired: JV::Str(r.default_branch),
                applicable: exists,
                note: if exists {
                    None
                } else {
                    Some(missing_branch_note(r.default_branch))
                },
            },
        ]
    } else {
        Seq::empty()
    }
}

/// The changes of the features, in their order.
pub open spec fn feature_changes(r: Features, t: Features) -> Seq<ChangeV> {
    scalar_change(
        Category::Features,
        "features.has_wiki"@,
        "Wikis"@,
        JV::Bool(t.has_wiki),
        JV::Bool(r.has_wiki),
    ) + scalar_change(
        Category::Features,
        "features.has_issues"@,
        "Issues"@,
        JV::Bool(t.has_issues),
        JV::Bool(r.has_issues),
    ) + scalar_change(
        Category::Features,
        "features.has_projects"@,
        "Projects"@,
        JV::Bool(t.has_projects),
        JV::Bool(r.has_projects),
    ) + scalar_change(
        Category::Features,
        "features.has_discussions"@,
        "Discussions"@,
        JV::Bool(t.has_discussions),
        JV::Bool(r.has_discussions),
    ) + scalar_change(
        Category::Features,
        "features.allow_forking"@,
        "Allow forking"@,
        JV::Bool(t.allow_forking),
        JV::Bool(r.allow_forking),
    )
}

/// The changes of the merge settings, in their order.
pub open spec fn merge_changes(r: PullRequestSettingsV, t: PullRequestSettingsV) -> Seq<ChangeV> {
    scalar_change(
        Category::PullRequests,
        "pull_requests.allow_merge_commit"@,
        "Allow merge commits"@,
        JV::Bool(t.allow_merge_commit),
        JV::Bool(r.allow_merge_commit),
    ) + scalar_change(
        Category::PullRequests,
        "pull_requests.merge_commit_title"@,
        "Merge commit title"@,
        opt_str_json(t.merge_commit_title),
        opt_str_json(r.merge_commit_title),
    ) + scalar_change(
        Category::PullRequests,
        "pull_requests.merge_commit_message"@,
        "Merge commit message"@,
        opt_str_json(t.merge_commit_message),
        opt_str_json(r.merge_commit_message),
    ) + scalar_change(
        Category::PullRequests,
        "pull_requests.allow_squash_merge"@,
        "Allow squash merging"@,
        JV::Bool(t.allow_squash_merge),
        JV::Bool(r.allow_squash_merge),
    ) + scalar_change(
        Category::PullRequests,
        "pull_requests.squash_merge_commit_title"@,
        "Squash commit title"@,
        opt_str_json(t.squash_merge_commit_title),
        opt_str_json(r.squash_merge_commit_title),
    ) + scalar_change(
        Category::PullRequests,
        "pull_requests.squash_merge_commit_message"@,
        "Squash commit message"@,
        opt_str_json(t.squash_merge_commit_message),
        opt_str_json(r.squash_merge_commit_message),
    )
}

/// The changes of the branch-handling settings of pull requests, in their order.
pub open spec fn branch_pr_changes(r: PullRequestSettingsV, t: PullRequestSettingsV) -> Seq<
    ChangeV,
> {
    scalar_change(
        Category::PullRequests,
        "pull_requests.allow_rebase_merge"@,
        "Allow rebase merging"@,
        JV::Bool(t.allow_rebase_merge),
        JV::Bool(r.allow_rebase_merge),
    ) + scalar_change(
        Category::PullRequests,
        "pull_requests.allow_update_branch"@,
        "Always suggest updating PR branches"@,
        JV::Bool(t.allow_update_branch),
        JV::Bool(r.allow_update_branch),
    ) + scalar_change(
        Category::PullRequests,
        "pull_requests.allow_auto_merge"@,
        "Allow auto-merge"@,
        JV::Bool(t.allow_auto_merge),
        JV::Bool(r.allow_auto_merge),
    ) + scalar_change(
        Category::PullRequests,
        "pull_requests.delete_branch_on_merge"@,
        "Automatically delete head branches"@,
        JV::Bool(t.delete_branch_on_merge),
        JV::Bool(r.delete_branch_on_merge),
    )
}

/// The changes of the other settings.
pub open spec fn other_changes(r: OtherSettings, t: OtherSettings) -> Seq<ChangeV> {
    scalar_change(
        Category::Others,
        "others.web_commit_signoff_required"@,
        "Require contributors to sign off on web-based commits"@,
        JV::Bool(t.web_commit_signoff_required),
        JV::Bool(r.web_commit_signoff_required),
    )
}

/// A ruleset with this name and target.
pub open spec fn same_ruleset(name: Seq<char>, target: Seq<char>) -> spec_fn(RulesetV) -> bool {
    |x: RulesetV| x.name == name && x.target == target
}

/// Key of the change of a ruleset.
pub open spec fn ruleset_key(rs: RulesetV) -> Seq<char> {
    "ruleset."@ + rs.target + "."@ + rs.name
}

/// Category of a ruleset: tag rulesets are `Tags`, all others `Rules`.
pub open spec fn ruleset_category(rs: RulesetV) -> Category {
    if rs.target == "tag"@ {
        Category::Tags
    } else {
        Category::Rules
    }
}

/// The change of one reference ruleset: created where the target has no ruleset of that
/// name and target, updated where the first such ruleset has another payload.
pub open spec fn ruleset_change(rs: RulesetV, ts: Seq<RulesetV>) -> Seq<ChangeV> {
    let i = first_match(ts, same_ruleset(rs.name, rs.target));
    if i < 0 {
        seq![
            ChangeV {
                key: ruleset_key(rs),
                label: "Ruleset «"@ + rs.name + "» (create)"@,
                category: ruleset_category(rs),
                current: JV::Null,
                desired: rs.payload,
                applicable: true,
                note: None,
            },
        ]
    } else if ts[i].payload != rs.payload {
        seq![
            ChangeV {
                key: ruleset_key(rs),
                label: "Ruleset «"@ + rs.name + "» (update)"@,
                category: ruleset_category(rs),
                current: ts[i].payload,
                desired: rs.payload,
                applicable: true,
                note: None,
            },
        ]
    } else {
        Seq::empty()
    }
}

/// The changes of the reference rulesets, in their order.
pub open spec fn ruleset_changes(rs: Seq<RulesetV>, ts: Seq<RulesetV>) -> Seq<ChangeV>
    decreases rs.len(),
{
    if rs.len() == 0 {
        Seq::empty()
    } else {
        ruleset_changes(rs.drop_last(), ts) + ruleset_change(rs.last(), ts)
    }
}

/// A protection of this branch.
pub open spec fn same_branch(branch: Seq<char>) -> spec_fn(ProtectionV) -> bool {
    |x: ProtectionV| x.branch == branch
}

/// The target's protection of `branch`, `null` where it has none.
pub open spec fn target_protection(t: SnapshotV, branch: Seq<char>) -> JV {
    let i = first_match(t.branch_protections, same_branch(branch));
    if i < 0 {
        JV::Null
    } else {
        t.branch_protections[i].config
    }
}

/// The change of one reference branch protection: not applicable where the target lacks the
/// branch, otherwise present where the target's protection differs.
pub open spec fn protection_change(bp: ProtectionV, t: SnapshotV) -> Seq<ChangeV> {
    let current = target_protection(t, bp.branch);
    let key = "branch_protection."@ + bp.branch;
    let label = "Branch protection «"@ + bp.branch + "»"@;
    if !t.branches.contains(bp.branch) {
        seq![
            ChangeV {
                key,
                label,
                category: Category::Rules,
                current,
                desired: bp.config,
                applicable: false,
                note: Some(missing_branch_note(bp.branch)),
            },
        ]
    } else if current != bp.config {
        seq![
            ChangeV {
                key,
                label,
                category: Category::Rules,
                current,
                desired: bp.config,
                applicable: true,
                note: None,
            },
        ]
    } else {
        Seq::empty()
    }
}

/// The changes of the reference branch protections, in their order.
pub open spec fn protection_changes(bps: Seq<ProtectionV>, t: SnapshotV) -> Seq<ChangeV>
    decreases bps.len(),
{
    if bps.len() == 0 {
        Seq::empty()
    } else {
        protection_changes(bps.drop_last(), t) + protection_change(bps.last(), t)
    }
}

/// All differences of `t` from the reference `r`, in the order the categories are listed.
pub open spec fn diff_spec(r: SnapshotV, t: SnapshotV) -> Seq<ChangeV> {
    default_branch_changes(r, t) + feature_changes(r.features, t.features) + merge_changes(
        r.pull_requests,
        t.pull_requests,
    ) + branch_pr_changes(r.pull_requests, t.pull_requests) + other_changes(r.others, t.others)
        + ruleset_changes(r.rulesets, t.rulesets) + protection_changes(r.branch_protections, t)
}

proof fn lemma_add_assoc<A>(a: Seq<A>, b: Seq<A>, c: Seq<A>)
    ensures
        a + b + c == a + (b + c),
{
    assert(a + b + c =~= a + (b + c));
}

/// Pushes a change if the values differ. `current` is the target's value, `desired` the
/// reference's.
fn push_scalar(
    changes: &mut Vec<SettingChange>,
    category: Category,
    key: &str,
    label: &str,
    current: Json,
    desired: Json,
)
    ensures
        changes_view(final(changes)@) == changes_view(old(changes)@) + scalar_change(
            category,
            key@,
            label@,
            current@,
            desired@,
        ),
{
    reveal(scalar_change);
    let ghost before = changes@;
    if !current.equals(&desired) {
        let ghost (cv, dv) = (current@, desired@);
        changes.push(
            SettingChange {
                key: key.to_owned(),
                label: label.to_owned(),
                category,
                current,
                desired,
                applicable: true,
                note: None,
            },
        );
        assert(changes_view(changes@) =~= changes_view(before) + scalar_change(
            category,
            key@,
            label@,
            cv,
            dv,
        ));
    } else {
        assert(changes_view(changes@) =~= changes_view(before) + scalar_change(
            category,
            key@,
            label@,
            current@,
            desired@,
        ));
    }
}


fn push_feature_changes(changes: &mut Vec<SettingChange>, r: &Features, t: &Features)
    ensures
        changes_view(final(changes)@) == changes_view(old(changes)@) + feature_changes(*r, *t),
{
    let ghost before = changes_view(changes@);
    push_scalar(
        changes,
        Category::Features,
        "features.has_wiki",
        "Wikis",
        Json::Bool(t.has_wiki),
        Json::Bool(r.has_wiki),
    );
    push_scalar(
        changes,
        Category::Features,
        "features.has_issues",
        "Issues",
        Json::Bool(t.has_issues),
        Json::Bool(r.has_issues),
    );
    push_scalar(
        changes,
        Category::Features,
        "features.has_projects",
        "Projects",
        Json::Bool(t.has_projects),
        Json::Bool(r.has_projects),
    );
    push_scalar(
        changes,
        Category::Features,
        "features.has_discussions",
        "Discussions",
        Json::Bool(t.has_discussions),
        Json::Bool(r.has_discussions),
    );
    push_scalar(
        changes,
        Category::Features,
        "features.allow_forking",
        "Allow forking",
        Json::Bool(t.allow_forking),
        Json::Bool(r.allow_forking),
    );
    assert(changes_view(changes@) =~= before + feature_changes(*r, *t));
}

fn push_merge_changes(
    changes: &mut Vec<SettingChange>,
    r: &PullRequestSettings,
    t: &PullRequestSettings,
)
    ensures
        changes_view(final(changes)@) == changes_view(old(changes)@) + merge_changes(r@, t@),
{
    let ghost before = changes_view(changes@);
    push_scalar(
        changes,
        Category::PullRequests,
        "pull_requests.allow_merge_commit",
        "Allow merge commits",
        Json::Bool(t.allow_merge_commit),
        Json::Bool(r.allow_merge_commit),
    );
    push_scalar(
        changes,
        Category::PullRequests,
        "pull_requests.merge_commit_title",
        "Merge commit title",
        Json::from_opt_string(&t.merge_commit_title),
        Json::from_opt_string(&r.merge_commit_title),
    );
    push_scalar(
        changes,
        Category::PullRequests,
        "pull_requests.merge_commit_message",
        "Merge commit message",
        Json::from_opt_string(&t.merge_commit_message),
        Json::from_opt_string(&r.merge_commit_message),
    );
    push_scalar(
        changes,
        Category::PullRequests,
        "pull_requests.allow_squash_merge",
        "Allow squash merging",
        Json::Bool(t.allow_squash_merge),
        Json::Bool(r.allow_squash_merge),
    );
    push_scalar(
        changes,
        Category::PullRequests,
        "pull_requests.squash_merge_commit_title",
        "Squash commit title",
        Json::from_opt_string(&t.squash_merge_commit_title),
        Json::from_opt_string(&r.squash_merge_commit_title),
    );
    push_scalar(
        changes,
        Category::PullRequests,
        "pull_requests.squash_merge_commit_message",
        "Squash commit message",
        Json::from_opt_string(&t.squash_merge_commit_message),
        Json::from_opt_string(&r.squash_merge_commit_message),
    );
    assert(changes_view(changes@) =~= before + merge_changes(r@, t@));
}

fn push_branch_pr_changes(
    changes: &mut Vec<SettingChange>,
    r: &PullRequestSettings,
    t: &PullRequestSettings,
)
    ensures
        changes_view(final(changes)@) == changes_view(old(changes)@) + branch_pr_changes(r@, t@),
{
    let ghost before = changes_view(changes@);
    push_scalar(
        changes,
        Category::PullRequests,
        "pull_requests.allow_rebase_merge",
        "Allow rebase merging",
        Json::Bool(t.allow_rebase_merge),
        Json::Bool(r.allow_rebase_merge),
    );
    push_scalar(
        changes,
        Category::PullRequests,
        "pull_requests.allow_update_branch",
        "Always suggest updating PR branches",
        Json::Bool(t.allow_update_branch),
        Json::Bool(r.allow_update_branch),
    );
    push_scalar(
        changes,
        Category::PullRequests,
        "pull_requests.allow_auto_merge",
        "Allow auto-merge",
        Json::Bool(t.allow_auto_merge),
        Json::Bool(r.allow_auto_merge),
    );
    push_scalar(
        changes,
        Category::PullRequests,
        "pull_requests.delete_branch_on_merge",
        "Automatically delete head branches",
        Json::Bool(t.delete_branch_on_merge),
        Json::Bool(r.delete_branch_on_merge),
    );
    assert(changes_view(changes@) =~= before + branch_pr_changes(r@, t@));
}

fn push_other_changes(changes: &mut Vec<SettingChange>, r: &OtherSettings, t: &OtherSettings)
    ensures
        changes_view(final(changes)@) == changes_view(old(changes)@) + other_changes(*r, *t),
{
    push_scalar(
        changes,
        Category::Others,
        "others.web_commit_signoff_required",
        "Require contributors to sign off on web-based commits",
        Json::Bool(t.web_commit_signoff_required),
        Json::Bool(r.web_commit_signoff_required),
    );
}


/// The values of a list of rulesets.
pub open spec fn rulesets_view(v: Seq<RulesetSummary>) -> Seq<RulesetV> {
    v.map_values(|r: RulesetSummary| r@)
}

/// The values of a list of branch protections.
pub open spec fn protections_view(v: Seq<BranchProtection>) -> Seq<ProtectionV> {
    v.map_values(|p: BranchProtection| p@)
}

/// Position of the first ruleset with this name and target.
pub fn find_ruleset(ts: &Vec<RulesetSummary>, name: &str, target: &str) -> (r: Option<usize>)
    ensures
        r is None <==> first_match(rulesets_view(ts@), same_ruleset(name@, target@)) == -1,
        r matches Some(i) ==> i == first_match(rulesets_view(ts@), same_ruleset(name@, target@))
            && i < ts@.len(),
{
    let ghost tv = rulesets_view(ts@);
    let n = ts.len();
    let mut i: usize = 0;
    while i < n
        invariant
            i <= n,
            n == ts@.len(),
            tv == rulesets_view(ts@),
            forall|j: int| 0 <= j < i ==> !same_ruleset(name@, target@)(tv[j]),
        decreases n - i,
    {
        if str_eq(ts[i].name.as_str(), name) && str_eq(ts[i].target.as_str(), target) {
            proof {
                lemma_first_match_at(tv, same_ruleset(name@, target@), i as int);
            }
            return Some(i);
        }
        i = i + 1;
    }
    proof {
        lemma_first_match_none(tv, same_ruleset(name@, target@));
    }
    None
}

/// Position of the first protection of `branch`.
fn find_protection(ps: &Vec<BranchProtection>, branch: &str) -> (r: Option<usize>)
    ensures
        r is None <==> first_match(protections_view(ps@), same_branch(branch@)) == -1,
        r matches Some(i) ==> i == first_match(protections_view(ps@), same_branch(branch@))
            && i < ps@.len(),
{
    let ghost pv = protections_view(ps@);
    let n = ps.len();
    let mut i: usize = 0;
    while i < n
        invariant
            i <= n,
            n == ps@.len(),
            pv == protections_view(ps@),
            forall|j: int| 0 <= j < i ==> !same_branch(branch@)(pv[j]),
        decreases n - i,
    {
        if str_eq(ps[i].branch.as_str(), branch) {
            proof {
                lemma_first_match_at(pv, same_branch(branch@), i as int);
            }
            return Some(i);
        }
        i = i + 1;
    }
    proof {
        lemma_first_match_none(pv, same_branch(branch@));
    }
    None
}

fn push_ruleset_changes(
    changes: &mut Vec<SettingChange>,
    rs: &Vec<RulesetSummary>,
    ts: &Vec<RulesetSummary>,
)
    ensures
        changes_view(final(changes)@) == changes_view(old(changes)@) + ruleset_changes(
            rulesets_view(rs@),
            rulesets_view(ts@),
        ),
{
    let ghost before = changes_view(changes@);
    let ghost rv = rulesets_view(rs@);
    let ghost tv = rulesets_view(ts@);
    let n = rs.len();
    let mut i: usize = 0;
    assert(rv.take(0) =~= Seq::<RulesetV>::empty());
    assert(before + ruleset_changes(rv.take(0), tv) =~= before);
    while i < n
        invariant
            i <= n,
            n == rs@.len(),
            rv == rulesets_view(rs@),
            tv == rulesets_view(ts@),
            changes_view(changes@) == before + ruleset_changes(rv.take(i as int), tv),
        decreases n - i,
    {
        let r = &rs[i];
        assert(rv.take(i + 1).drop_last() =~= rv.take(i as int));
        assert(rv.take(i + 1).last() == r@);
        let ghost prev = changes@;
        let category = if str_eq(r.target.as_str(), "tag") {
            Category::Tags
        } else {
            Category::Rules
        };
        match find_ruleset(ts, r.name.as_str(), r.target.as_str()) {
            None => {
                changes.push(
                    SettingChange {
                        key: ruleset_key_of(r),
                        label: concat3("Ruleset «", r.name.as_str(), "» (create)"),
                        category,
                        current: Json::Null,
                        desired: r.payload.deep_clone(),
                        applicable: true,
                        note: None,
                    },
                );
            },
            Some(j) => {
                let existing = &ts[j];
                if !existing.payload.equals(&r.payload) {
                    changes.push(
                        SettingChange {
                            key: ruleset_key_of(r),
                            label: concat3("Ruleset «", r.name.as_str(), "» (update)"),
                            category,
                            current: existing.payload.deep_clone(),
                            desired: r.payload.deep_clone(),
                            applicable: true,
                            note: None,
                        },
                    );
                }
            },
        }
        assert(changes_view(changes@) =~= changes_view(prev) + ruleset_change(r@, tv));
        proof {
            lemma_add_assoc(before, ruleset_changes(rv.take(i as int), tv), ruleset_change(r@, tv));
        }
        i = i + 1;
    }
    assert(rv.take(n as int) =~= rv);
}

/// The key of the change of a ruleset.
fn ruleset_key_of(r: &RulesetSummary) -> (k: String)
    ensures
        k@ == ruleset_key(r@),
{
    concat4("ruleset.", r.target.as_str(), ".", r.name.as_str())
}

fn push_protection_changes(
    changes: &mut Vec<SettingChange>,
    bps: &Vec<BranchProtection>,
    target: &RepoSettingsSnapshot,
)
    ensures
        changes_view(final(changes)@) == changes_view(old(changes)@) + protection_changes(
            protections_view(bps@),
            target@,
        ),
{
    let ghost before = changes_view(changes@);
    let ghost bv = protections_view(bps@);
    let n = bps.len();
    let mut i: usize = 0;
    assert(bv.take(0) =~= Seq::<ProtectionV>::empty());
    assert(before + protection_changes(bv.take(0), target@) =~= before);
    while i < n
        invariant
            i <= n,
            n == bps@.len(),
            bv == protections_view(bps@),
            changes_view(changes@) == before + protection_changes(bv.take(i as int), target@),
        decreases n - i,
    {
        let bp = &bps[i];
        assert(bv.take(i + 1).drop_last() =~= bv.take(i as int));
        assert(bv.take(i + 1).last() == bp@);
        let ghost prev = changes@;
        let exists = contains_str(&target.branches, bp.branch.as_str());
        let current = match find_protection(&target.branch_protections, bp.branch.as_str()) {
            Some(j) => target.branch_protections[j].config.deep_clone(),
            None => Json::Null,
        };
        assert(current@ == target_protection(target@, bp.branch@));
        if !exists {
            changes.push(
                SettingChange {
                    key: concat("branch_protection.", bp.branch.as_str()),
                    label: concat3("Branch protection «", bp.branch.as_str(), "»"),
                    category: Category::Rules,
                    current,
                    desired: bp.config.deep_clone(),
                    applicable: false,
                    note: Some(missing_branch_message(bp.branch.as_str())),
                },
            );
        } else if !current.equals(&bp.config) {
            changes.push(
                SettingChange {
                    key: concat("branch_protection.", bp.branch.as_str()),
                    label: concat3("Branch protection «", bp.branch.as_str(), "»"),
                    category: Category::Rules,
                    current,
                    desired: bp.config.deep_clone(),
                    applicable: true,
                    note: None,
                },
            );
        }
        assert(changes_view(changes@) =~= changes_view(prev) + protection_change(bp@, target@));
        proof {
            lemma_add_assoc(
                before,
                protection_changes(bv.take(i as int), target@),
                protection_change(bp@, target@),
            );
        }
        i = i + 1;
    }
    assert(bv.take(n as int) =~= bv);
}

/// The note of a change that needs a branch the target lacks.
fn missing_branch_message(branch: &str) -> (s: String)
    ensures
        s@ == missing_branch_note(branch@),
{
    concat3("Branch «", branch, "» does not exist in the target")
}

/// Compares a target snapshot with the reference: every setting in which the target differs,
/// with the target's value as `current` and the reference's as `desired`.
pub fn diff_snapshots(reference: &RepoSettingsSnapshot, target: &RepoSettingsSnapshot) -> (d:
    RepoDiff)
    ensures
        d@ == (RepoDiffV { repo: target@.repo, changes: diff_spec(reference@, target@) }),
{
    let mut ch: Vec<SettingChange> = Vec::new();
    let ghost r = reference@;
    let ghost t = target@;
    if !str_eq(reference.default_branch.as_str(), target.default_branch.as_str()) {
        let exists = contains_str(&target.branches, reference.default_branch.as_str());
        let note = if exists {
            None
        } else {
            Some(missing_branch_message(reference.default_branch.as_str()))
        };
        ch.push(
            SettingChange {
                key: "default_branch".to_owned(),
                label: "Default branch".to_owned(),
                category: Category::DefaultBranch,
                current: Json::from_str(target.default_branch.as_str()),
                desired: Json::from_str(reference.default_branch.as_str()),
                applicable: exists,
                note,
            },
        );
    }
    assert(changes_view(ch@) =~= default_branch_changes(r, t));
    let ghost s0 = changes_view(ch@);
    push_feature_changes(&mut ch, &reference.features, &target.features);
    let ghost s1 = feature_changes(r.features, t.features);
    push_merge_changes(&mut ch, &reference.pull_requests, &target.pull_requests);
    let ghost s2 = merge_changes(r.pull_requests, t.pull_requests);
    push_branch_pr_changes(&mut ch, &reference.pull_requests, &target.pull_requests);
    let ghost s3 = branch_pr_changes(r.pull_requests, t.pull_requests);
    push_other_changes(&mut ch, &reference.others, &target.others);
    let ghost s4 = other_changes(r.others, t.others);
    push_ruleset_changes(&mut ch, &reference.rulesets, &target.rulesets);
    let ghost s5 = ruleset_changes(r.rulesets, t.rulesets);
    push_protection_changes(&mut ch, &reference.branch_protections, target);
    let ghost s6 = protection_changes(r.branch_protections, t);
    assert(changes_view(ch@) == s0 + s1 + s2 + s3 + s4 + s5 + s6);
    RepoDiff { repo: target.repo.clone(), changes: ch }
}


/// No two rulesets share both name and target.
pub open spec fn rulesets_unique(rs: Seq<RulesetV>) -> bool {
    forall|i: int, j: int|
        0 <= i < j < rs.len() ==> !(rs[i].name == rs[j].name && rs[i].target == rs[j].target)
}

/// No branch has two protections, and every protected branch is a branch of the repository.
pub open spec fn protections_consistent(s: SnapshotV) -> bool {
    &&& forall|i: int, j: int|
        0 <= i < j < s.branch_protections.len() ==> s.branch_protections[i].branch
            != s.branch_protections[j].branch
    &&& forall|i: int|
        0 <= i < s.branch_protections.len() ==> s.branches.contains(
            #[trigger] s.branch_protections[i].branch,
        )
}

proof fn lemma_ruleset_changes_self(rs: Seq<RulesetV>, n: int)
    requires
        rulesets_unique(rs),
        0 <= n <= rs.len(),
    ensures
        ruleset_changes(rs.take(n), rs) == Seq::<ChangeV>::empty(),
    decreases n,
{
    if n > 0 {
        lemma_ruleset_changes_self(rs, n - 1);
        assert(rs.take(n).drop_last() =~= rs.take(n - 1));
        let x = rs[n - 1];
        assert forall|j: int| 0 <= j < n - 1 implies !same_ruleset(x.name, x.target)(rs[j]) by {}
        lemma_first_match_at(rs, same_ruleset(x.name, x.target), n - 1);
        assert(ruleset_change(x, rs) =~= Seq::<ChangeV>::empty());
        assert(ruleset_changes(rs.take(n), rs) =~= Seq::<ChangeV>::empty());
    } else {
        assert(rs.take(0) =~= Seq::<RulesetV>::empty());
    }
}

proof fn lemma_protection_changes_self(s: SnapshotV, n: int)
    requires
        protections_consistent(s),
        0 <= n <= s.branch_protections.len(),
    ensures
        protection_changes(s.branch_protections.take(n), s) == Seq::<ChangeV>::empty(),
    decreases n,
{
    let ps = s.branch_protections;
    if n > 0 {
        lemma_protection_changes_self(s, n - 1);
        assert(ps.take(n).drop_last() =~= ps.take(n - 1));
        let x = ps[n - 1];
        assert forall|j: int| 0 <= j < n - 1 implies !same_branch(x.branch)(ps[j]) by {}
        lemma_first_match_at(ps, same_branch(x.branch), n - 1);
        assert(s.branches.contains(x.branch));
        assert(protection_change(x, s) =~= Seq::<ChangeV>::empty());
        assert(protection_changes(ps.take(n), s) =~= Seq::<ChangeV>::empty());
    } else {
        assert(ps.take(0) =~= Seq::<ProtectionV>::empty());
    }
}

/// A repository compared with itself shows no difference, provided its rulesets are unique by
/// name and target and its protections are unique by branch and name branches it has.
pub proof fn law_diff_of_itself_is_empty(s: SnapshotV)
    requires
        rulesets_unique(s.rulesets),
        protections_consistent(s),
    ensures
        diff_spec(s, s) == Seq::<ChangeV>::empty(),
{
    reveal(scalar_change);
    lemma_ruleset_changes_self(s.rulesets, s.rulesets.len() as int);
    lemma_protection_changes_self(s, s.branch_protections.len() as int);
    assert(s.rulesets.take(s.rulesets.len() as int) =~= s.rulesets);
    assert(s.branch_protections.take(s.branch_protections.len() as int) =~= s.branch_protections);
    assert(diff_spec(s, s) =~= Seq::<ChangeV>::empty());
}

proof fn lemma_ruleset_changes_extra(rs: Seq<RulesetV>, ts: Seq<RulesetV>, extra: RulesetV)
    requires
        forall|i: int|
            0 <= i < rs.len() ==> !(rs[i].name == extra.name && rs[i].target == extra.target),
    ensures
        ruleset_changes(rs, ts.push(extra)) == ruleset_changes(rs, ts),
    decreases rs.len(),
{
    if rs.len() > 0 {
        lemma_ruleset_changes_extra(rs.drop_last(), ts, extra);
        let x = rs.last();
        lemma_first_match_push(ts, same_ruleset(x.name, x.target), extra);
        let i = first_match(ts, same_ruleset(x.name, x.target));
        if i >= 0 {
            crate::search::lemma_first_match_props(ts, same_ruleset(x.name, x.target));
            assert(ts.push(extra)[i] == ts[i]);
        }
        assert(ruleset_change(x, ts.push(extra)) == ruleset_change(x, ts));
    }
}

proof fn lemma_protection_changes_depend_on_branches(
    bps: Seq<ProtectionV>,
    t1: SnapshotV,
    t2: SnapshotV,
)
    requires
        t1.branches == t2.branches,
        t1.branch_protections == t2.branch_protections,
    ensures
        protection_changes(bps, t1) == protection_changes(bps, t2),
    decreases bps.len(),
{
    if bps.len() > 0 {
        lemma_protection_changes_depend_on_branches(bps.drop_last(), t1, t2);
    }
}

/// Sync adds and corrects, it never removes: a ruleset that only the target has (no
/// reference ruleset shares its name and target) changes nothing in the differences.
pub proof fn law_target_only_ruleset_is_ignored(r: SnapshotV, t: SnapshotV, extra: RulesetV)
    requires
        forall|i: int|
            0 <= i < r.rulesets.len() ==> !(r.rulesets[i].name == extra.name
                && r.rulesets[i].target == extra.target),
    ensures
        diff_spec(r, SnapshotV { rulesets: t.rulesets.push(extra), ..t }) == diff_spec(r, t),
{
    let t2 = SnapshotV { rulesets: t.rulesets.push(extra), ..t };
    lemma_ruleset_changes_extra(r.rulesets, t.rulesets, extra);
    lemma_protection_changes_depend_on_branches(r.branch_protections, t, t2);
}

/// The target agrees with the reference on everything that is synced: the default branch,
/// the features, the pull request and other settings, each reference ruleset (the target's
/// first one of that name and target has the same payload) and each reference branch
/// protection (the target has the branch, protected the same way).
pub open spec fn in_sync(r: SnapshotV, t: SnapshotV) -> bool {
    &&& r.default_branch == t.default_branch
    &&& r.features == t.features
    &&& r.pull_requests == t.pull_requests
    &&& r.others == t.others
    &&& forall|i: int|
        0 <= i < r.rulesets.len() ==> ruleset_in_sync(#[trigger] r.rulesets[i], t.rulesets)
    &&& forall|i: int|
        0 <= i < r.branch_protections.len() ==> protection_in_sync(
            #[trigger] r.branch_protections[i],
            t,
        )
}

/// The target has a ruleset of this name and target, and the first one has this payload.
pub open spec fn ruleset_in_sync(rs: RulesetV, ts: Seq<RulesetV>) -> bool {
    let i = first_match(ts, same_ruleset(rs.name, rs.target));
    i >= 0 && ts[i].payload == rs.payload
}

/// The target has the branch, and protects it with this configuration.
pub open spec fn protection_in_sync(bp: ProtectionV, t: SnapshotV) -> bool {
    t.branches.contains(bp.branch) && target_protection(t, bp.branch) == bp.config
}

proof fn lemma_scalar_change_empty(
    category: Category,
    key: Seq<char>,
    label: Seq<char>,
    current: JV,
    desired: JV,
)
    ensures
        scalar_change(category, key, label, current, desired).len() == 0 <==> current == desired,
{
    reveal(scalar_change);
}

proof fn lemma_ruleset_changes_empty(rs: Seq<RulesetV>, ts: Seq<RulesetV>)
    ensures
        ruleset_changes(rs, ts).len() == 0 <==> forall|i: int|
            0 <= i < rs.len() ==> ruleset_in_sync(#[trigger] rs[i], ts),
    decreases rs.len(),
{
    if rs.len() > 0 {
        let prev = rs.drop_last();
        lemma_ruleset_changes_empty(prev, ts);
        let x = rs.last();
        let i = first_match(ts, same_ruleset(x.name, x.target));
        assert(ruleset_change(x, ts).len() == 0 <==> ruleset_in_sync(x, ts));
        if forall|i: int| 0 <= i < rs.len() ==> ruleset_in_sync(#[trigger] rs[i], ts) {
            assert forall|i: int| 0 <= i < prev.len() implies ruleset_in_sync(#[trigger] prev[i], ts) by {
                assert(prev[i] == rs[i]);
            }
            assert(ruleset_in_sync(rs[rs.len() - 1], ts));
        }
        if ruleset_changes(rs, ts).len() == 0 {
            assert forall|i: int| 0 <= i < rs.len() implies ruleset_in_sync(#[trigger] rs[i], ts) by {
                if i < prev.len() {
                    assert(prev[i] == rs[i]);
                }
            }
        }
    }
}

proof fn lemma_protection_changes_empty(bps: Seq<ProtectionV>, t: SnapshotV)
    ensures
        protection_changes(bps, t).len() == 0 <==> forall|i: int|
            0 <= i < bps.len() ==> protection_in_sync(#[trigger] bps[i], t),
    decreases bps.len(),
{
    if bps.len() > 0 {
        let prev = bps.drop_last();
        lemma_protection_changes_empty(prev, t);
        let x = bps.last();
        assert(protection_change(x, t).len() == 0 <==> protection_in_sync(x, t));
        if forall|i: int| 0 <= i < bps.len() ==> protection_in_sync(#[trigger] bps[i], t) {
            assert forall|i: int| 0 <= i < prev.len() implies protection_in_sync(#[trigger] prev[i], t) by {
                assert(prev[i] == bps[i]);
            }
            assert(protection_in_sync(bps[bps.len() - 1], t));
        }
        if protection_changes(bps, t).len() == 0 {
            assert forall|i: int| 0 <= i < bps.len() implies protection_in_sync(#[trigger] bps[i], t) by {
                if i < prev.len() {
                    assert(prev[i] == bps[i]);
                }
            }
        }
    }
}

/// The audit shows a target without differences exactly when it is in sync with the
/// reference.
pub proof fn law_no_changes_iff_in_sync(r: SnapshotV, t: SnapshotV)
    ensures
        diff_spec(r, t).len() == 0 <==> in_sync(r, t),
{
    let (rf, tf) = (r.features, t.features);
    let (rp, tp) = (r.pull_requests, t.pull_requests);
    lemma_scalar_change_empty(
        Category::Features,
        "features.has_wiki"@,
        "Wikis"@,
        JV::Bool(tf.has_wiki),
        JV::Bool(rf.has_wiki),
    );
    lemma_scalar_change_empty(
        Category::Features,
        "features.has_issues"@,
        "Issues"@,
        JV::Bool(tf.has_issues),
        JV::Bool(rf.has_issues),
    );
    lemma_scalar_change_empty(
        Category::Features,
        "features.has_projects"@,
        "Projects"@,
        JV::Bool(tf.has_projects),
        JV::Bool(rf.has_projects),
    );
    lemma_scalar_change_empty(
        Category::Features,
        "features.has_discussions"@,
        "Discussions"@,
        JV::Bool(tf.has_discussions),
        JV::Bool(rf.has_discussions),
    );
    lemma_scalar_change_empty(
        Category::Features,
        "features.allow_forking"@,
        "Allow forking"@,
        JV::Bool(tf.allow_forking),
        JV::Bool(rf.allow_forking),
    );
    lemma_scalar_change_empty(
        Category::PullRequests,
        "pull_requests.allow_merge_commit"@,
        "Allow merge commits"@,
        JV::Bool(tp.allow_merge_commit),
        JV::Bool(rp.allow_merge_commit),
    );
    lemma_scalar_change_empty(
        Category::PullRequests,
        "pull_requests.merge_commit_title"@,
        "Merge commit title"@,
        opt_str_json(tp.merge_commit_title),
        opt_str_json(rp.merge_commit_title),
    );
    lemma_scalar_change_empty(
        Category::PullRequests,
        "pull_requests.merge_commit_message"@,
        "Merge commit message"@,
        opt_str_json(tp.merge_commit_message),
        opt_str_json(rp.merge_commit_message),
    );
    lemma_scalar_change_empty(
        Category::PullRequests,
        "pull_requests.allow_squash_merge"@,
        "Allow squash merging"@,
        JV::Bool(tp.allow_squash_merge),
        JV::Bool(rp.allow_squash_merge),
    );
    lemma_scalar_change_empty(
        Category::PullRequests,
        "pull_requests.squash_merge_commit_title"@,
        "Squash commit title"@,
        opt_str_json(tp.squash_merge_commit_title),
        opt_str_json(rp.squash_merge_commit_title),
    );
    lemma_scalar_change_empty(
        Category::PullRequests,
        "pull_requests.squash_merge_commit_message"@,
        "Squash commit message"@,
        opt_str_json(tp.squash_merge_commit_message),
        opt_str_json(rp.squash_merge_commit_message),
    );
    lemma_scalar_change_empty(
        Category::PullRequests,
        "pull_requests.allow_rebase_merge"@,
        "Allow rebase merging"@,
        JV::Bool(tp.allow_rebase_merge),
        JV::Bool(rp.allow_rebase_merge),
    );
    lemma_scalar_change_empty(
        Category::PullRequests,
        "pull_requests.allow_update_branch"@,
        "Always suggest updating PR branches"@,
        JV::Bool(tp.allow_update_branch),
        JV::Bool(rp.allow_update_branch),
    );
    lemma_scalar_change_empty(
        Category::PullRequests,
        "pull_requests.allow_auto_merge"@,
        "Allow auto-merge"@,
        JV::Bool(tp.allow_auto_merge),
        JV::Bool(rp.allow_auto_merge),
    );
    lemma_scalar_change_empty(
        Category::PullRequests,
        "pull_requests.delete_branch_on_merge"@,
        "Automatically delete head branches"@,
        JV::Bool(tp.delete_branch_on_merge),
        JV::Bool(rp.delete_branch_on_merge),
    );
    lemma_scalar_change_empty(
        Category::Others,
        "others.web_commit_signoff_required"@,
        "Require contributors to sign off on web-based commits"@,
        JV::Bool(t.others.web_commit_signoff_required),
        JV::Bool(r.others.web_commit_signoff_required),
    );
    lemma_ruleset_changes_empty(r.rulesets, t.rulesets);
    lemma_protection_changes_empty(r.branch_protections, t);
}

/// The changes hold an applicable change of `key` from `current` to `desired`.
pub open spec fn has_applicable_change(
    cs: Seq<ChangeV>,
    key: Seq<char>,
    category: Category,
    current: JV,
    desired: JV,
) -> bool {
    exists|i: int|
        0 <= i < cs.len() && (#[trigger] cs[i]).key == key && cs[i].category == category
            && cs[i].current == current && cs[i].desired == desired && cs[i].applicable
}

proof fn lemma_has_change_concat(
    a: Seq<ChangeV>,
    b: Seq<ChangeV>,
    key: Seq<char>,
    category: Category,
    current: JV,
    desired: JV,
)
    ensures
        has_applicable_change(a, key, category, current, desired) ==> has_applicable_change(
            a + b,
            key,
            category,
            current,
            desired,
        ),
        has_applicable_change(b, key, category, current, desired) ==> has_applicable_change(
            a + b,
            key,
            category,
            current,
            desired,
        ),
{
    if has_applicable_change(a, key, category, current, desired) {
        let i = choose|i: int|
            0 <= i < a.len() && (#[trigger] a[i]).key == key && a[i].category == category
                && a[i].current == current && a[i].desired == desired && a[i].applicable;
        assert((a + b)[i] == a[i]);
    }
    if has_applicable_change(b, key, category, current, desired) {
        let i = choose|i: int|
            0 <= i < b.len() && (#[trigger] b[i]).key == key && b[i].category == category
                && b[i].current == current && b[i].desired == desired && b[i].applicable;
        assert((a + b)[a.len() + i] == b[i]);
    }
}

proof fn lemma_scalar_has_change(
    category: Category,
    key: Seq<char>,
    label: Seq<char>,
    current: JV,
    desired: JV,
)
    requires
        current != desired,
    ensures
        has_applicable_change(
            scalar_change(category, key, label, current, desired),
            key,
            category,
            current,
            desired,
        ),
{
    reveal(scalar_change);
    let s = scalar_change(category, key, label, current, desired);
    assert(s[0].key == key);
}

/// The value of an optional string setting.
pub open spec fn opt_setting(o: Option<Seq<char>>) -> JV {
    match o {
        Some(s) => JV::Str(s),
        None => JV::Null,
    }
}

/// Every plain setting in which the target differs from the reference is reported as an
/// applicable change of its key, from the target's value to the reference's: each feature,
/// each pull request setting and the web commit sign-off.
#[verifier::rlimit(40)]
pub proof fn law_plain_setting_differences_are_applicable(r: SnapshotV, t: SnapshotV)
    ensures
        r.features.has_wiki != t.features.has_wiki ==> has_applicable_change(
            diff_spec(r, t),
            "features.has_wiki"@,
            Category::Features,
            JV::Bool(t.features.has_wiki),
            JV::Bool(r.features.has_wiki),
        ),
        r.features.has_issues != t.features.has_issues ==> has_applicable_change(
            diff_spec(r, t),
            "features.has_issues"@,
            Category::Features,
            JV::Bool(t.features.has_issues),
            JV::Bool(r.features.has_issues),
        ),
        r.features.has_projects != t.features.has_projects ==> has_applicable_change(
            diff_spec(r, t),
            "features.has_projects"@,
            Category::Features,
            JV::Bool(t.features.has_projects),
            JV::Bool(r.features.has_projects),
        ),
        r.features.has_discussions != t.features.has_discussions ==> has_applicable_change(
            diff_spec(r, t),
            "features.has_discussions"@,
            Category::Features,
            JV::Bool(t.features.has_discussions),
            JV::Bool(r.features.has_discussions),
        ),
        r.features.allow_forking != t.features.allow_forking ==> has_applicable_change(
            diff_spec(r, t),
            "features.allow_forking"@,
            Category::Features,
            JV::Bool(t.features.allow_forking),
            JV::Bool(r.features.allow_forking),
        ),
        r.pull_requests.allow_merge_commit != t.pull_requests.allow_merge_commit ==> has_applicable_change(
            diff_spec(r, t),
            "pull_requests.allow_merge_commit"@,
            Category::PullRequests,
            JV::Bool(t.pull_requests.allow_merge_commit),
            JV::Bool(r.pull_requests.allow_merge_commit),
        ),
        r.pull_requests.merge_commit_title != t.pull_requests.merge_commit_title ==> has_applicable_change(
            diff_spec(r, t),
            "pull_requests.merge_commit_title"@,
            Category::PullRequests,
            opt_setting(t.pull_requests.merge_commit_title),
            opt_setting(r.pull_requests.merge_commit_title),
        ),
        r.pull_requests.merge_commit_message != t.pull_requests.merge_commit_message ==> has_applicable_change(
            diff_spec(r, t),
            "pull_requests.merge_commit_message"@,
            Category::PullRequests,
            opt_setting(t.pull_requests.merge_commit_message),
            opt_setting(r.pull_requests.merge_commit_message),
        ),
        r.pull_requests.allow_squash_merge != t.pull_requests.allow_squash_merge ==> has_applicable_change(
            diff_spec(r, t),
            "pull_requests.allow_squash_merge"@,
            Category::PullRequests,
            JV::Bool(t.pull_requests.allow_squash_merge),
            JV::Bool(r.pull_requests.allow_squash_merge),
        ),
        r.pull_requests.squash_merge_commit_title != t.pull_requests.squash_merge_commit_title ==> has_applicable_change(
            diff_spec(r, t),
            "pull_requests.squash_merge_commit_title"@,
            Category::PullRequests,
            opt_setting(t.pull_requests.squash_merge_commit_title),
            opt_setting(r.pull_requests.squash_merge_commit_title),
        ),
        r.pull_requests.squash_merge_commit_message != t.pull_requests.squash_merge_commit_message ==> has_applicable_change(
            diff_spec(r, t),
            "pull_requests.squash_merge_commit_message"@,
            Category::PullRequests,
            opt_setting(t.pull_requests.squash_merge_commit_message),
            opt_setting(r.pull_requests.squash_merge_commit_message),
        ),
        r.pull_requests.allow_rebase_merge != t.pull_requests.allow_rebase_merge ==> has_applicable_change(
            diff_spec(r, t),
            "pull_requests.allow_rebase_merge"@,
            Category::PullRequests,
            JV::Bool(t.pull_requests.allow_rebase_merge),
            JV::Bool(r.pull_requests.allow_rebase_merge),
        ),
        r.pull_requests.allow_update_branch != t.pull_requests.allow_update_branch ==> has_applicable_change(
            diff_spec(r, t),
            "pull_requests.allow_update_branch"@,
            Category::PullRequests,
            JV::Bool(t.pull_requests.allow_update_branch),
            JV::Bool(r.pull_requests.allow_update_branch),
        ),
        r.pull_requests.allow_auto_merge != t.pull_requests.allow_auto_merge ==> has_applicable_change(
            diff_spec(r, t),
            "pull_requests.allow_auto_merge"@,
            Category::PullRequests,
            JV::Bool(t.pull_requests.allow_auto_merge),
            JV::Bool(r.pull_requests.allow_auto_merge),
        ),
        r.pull_requests.delete_branch_on_merge != t.pull_requests.delete_branch_on_merge ==> has_applicable_change(
            diff_spec(r, t),
            "pull_requests.delete_branch_on_merge"@,
            Category::PullRequests,
            JV::Bool(t.pull_requests.delete_branch_on_merge),
            JV::Bool(r.pull_requests.delete_branch_on_merge),
        ),
        r.others.web_commit_signoff_required != t.others.web_commit_signoff_required ==> has_applicable_change(
            diff_spec(r, t),
            "others.web_commit_signoff_required"@,
            Category::Others,
            JV::Bool(t.others.web_commit_signoff_required),
            JV::Bool(r.others.web_commit_signoff_required),
        ),
{
    let (rf, tf) = (r.features, t.features);
    let (rp, tp) = (r.pull_requests, t.pull_requests);
    let f1 = scalar_change(
        Category::Features,
        "features.has_wiki"@,
        "Wikis"@,
        JV::Bool(tf.has_wiki),
        JV::Bool(rf.has_wiki),
    );
    let f2 = scalar_change(
        Category::Features,
        "features.has_issues"@,
        "Issues"@,
        JV::Bool(tf.has_issues),
        JV::Bool(rf.has_issues),
    );
    let f3 = scalar_change(
        Category::Features,
        "features.has_projects"@,
        "Projects"@,
        JV::Bool(tf.has_projects),
        JV::Bool(rf.has_projects),
    );
    let f4 = scalar_change(
        Category::Features,
        "features.has_discussions"@,
        "Discussions"@,
        JV::Bool(tf.has_discussions),
        JV::Bool(rf.has_discussions),
    );
    let f5 = scalar_change(
        Category::Features,
        "features.allow_forking"@,
        "Allow forking"@,
        JV::Bool(tf.allow_forking),
        JV::Bool(rf.allow_forking),
    );
    let m1 = scalar_change(
        Category::PullRequests,
        "pull_requests.allow_merge_commit"@,
        "Allow merge commits"@,
        JV::Bool(tp.allow_merge_commit),
        JV::Bool(rp.allow_merge_commit),
    );
    let m2 = scalar_change(
        Category::PullRequests,
        "pull_requests.merge_commit_title"@,
        "Merge commit title"@,
        opt_str_json(tp.merge_commit_title),
        opt_str_json(rp.merge_commit_title),
    );
    let m3 = scalar_change(
        Category::PullRequests,
        "pull_requests.merge_commit_message"@,
        "Merge commit message"@,
        opt_str_json(tp.merge_commit_message),
        opt_str_json(rp.merge_commit_message),
    );
    let m4 = scalar_change(
        Category::PullRequests,
        "pull_requests.allow_squash_merge"@,
        "Allow squash merging"@,
        JV::Bool(tp.allow_squash_merge),
        JV::Bool(rp.allow_squash_merge),
    );
    let m5 = scalar_change(
        Category::PullRequests,
        "pull_requests.squash_merge_commit_title"@,
        "Squash commit title"@,
        opt_str_json(tp.squash_merge_commit_title),
        opt_str_json(rp.squash_merge_commit_title),
    );
    let m6 = scalar_change(
        Category::PullRequests,
        "pull_requests.squash_merge_commit_message"@,
        "Squash commit message"@,
        opt_str_json(tp.squash_merge_commit_message),
        opt_str_json(rp.squash_merge_commit_message),
    );
    let b1 = scalar_change(
        Category::PullRequests,
        "pull_requests.allow_rebase_merge"@,
        "Allow rebase merging"@,
        JV::Bool(tp.allow_rebase_merge),
        JV::Bool(rp.allow_rebase_merge),
    );
    let b2 = scalar_change(
        Category::PullRequests,
        "pull_requests.allow_update_branch"@,
        "Always suggest updating PR branches"@,
        JV::Bool(tp.allow_update_branch),
        JV::Bool(rp.allow_update_branch),
    );
    let b3 = scalar_change(
        Category::PullRequests,
        "pull_requests.allow_auto_merge"@,
        "Allow auto-merge"@,
        JV::Bool(tp.allow_auto_merge),
        JV::Bool(rp.allow_auto_merge),
    );
    let b4 = scalar_change(
        Category::PullRequests,
        "pull_requests.delete_branch_on_merge"@,
        "Automatically delete head branches"@,
        JV::Bool(tp.delete_branch_on_merge),
        JV::Bool(rp.delete_branch_on_merge),
    );
    let o1 = scalar_change(
        Category::Others,
        "others.web_commit_signoff_required"@,
        "Require contributors to sign off on web-based commits"@,
        JV::Bool(t.others.web_commit_signoff_required),
        JV::Bool(r.others.web_commit_signoff_required),
    );
    let d0 = default_branch_changes(r, t);
    let f = f1 + f2 + f3 + f4 + f5;
    let m = m1 + m2 + m3 + m4 + m5 + m6;
    let b = b1 + b2 + b3 + b4;
    let o = o1;
    let rs = ruleset_changes(r.rulesets, t.rulesets);
    let ps = protection_changes(r.branch_protections, t);
    // Each differing setting's change is in its part, and each part is in the whole diff.
    assert(JV::Bool(tf.has_wiki) != JV::Bool(rf.has_wiki) ==> has_applicable_change(
        diff_spec(r, t),
        "features.has_wiki"@,
        Category::Features,
        JV::Bool(tf.has_wiki),
        JV::Bool(rf.has_wiki),
    )) by {
        if JV::Bool(tf.has_wiki) != JV::Bool(rf.has_wiki) {
            let (k, c, cu, de) = (
                "features.has_wiki"@,
                Category::Features,
                JV::Bool(tf.has_wiki),
                JV::Bool(rf.has_wiki),
            );
            lemma_scalar_has_change(c, k, "Wikis"@, cu, de);
            lemma_has_change_concat(f1, f2, k, c, cu, de);
            lemma_has_change_concat(f1 + f2, f3, k, c, cu, de);
            lemma_has_change_concat(f1 + f2 + f3, f4, k, c, cu, de);
            lemma_has_change_concat(f1 + f2 + f3 + f4, f5, k, c, cu, de);
            lemma_has_change_concat(d0, f, k, c, cu, de);
            lemma_has_change_concat(d0 + f, m, k, c, cu, de);
            lemma_has_change_concat(d0 + f + m, b, k, c, cu, de);
            lemma_has_change_concat(d0 + f + m + b, o, k, c, cu, de);
            lemma_has_change_concat(d0 + f + m + b + o, rs, k, c, cu, de);
            lemma_has_change_concat(d0 + f + m + b + o + rs, ps, k, c, cu, de);
        }
    }
    assert(JV::Bool(tf.has_issues) != JV::Bool(rf.has_issues) ==> has_applicable_change(
        diff_spec(r, t),
        "features.has_issues"@,
        Category::Features,
        JV::Bool(tf.has_issues),
        JV::Bool(rf.has_issues),
    )) by {
        if JV::Bool(tf.has_issues) != JV::Bool(rf.has_issues) {
            let (k, c, cu, de) = (
                "features.has_issues"@,
                Category::Features,
                JV::Bool(tf.has_issues),
                JV::Bool(rf.has_issues),
            );
            lemma_scalar_has_change(c, k, "Issues"@, cu, de);
            lemma_has_change_concat(f1, f2, k, c, cu, de);
            lemma_has_change_concat(f1 + f2, f3, k, c, cu, de);
            lemma_has_change_concat(f1 + f2 + f3, f4, k, c, cu, de);
            lemma_has_change_concat(f1 + f2 + f3 + f4, f5, k, c, cu, de);
            lemma_has_change_concat(d0, f, k, c, cu, de);
            lemma_has_change_concat(d0 + f, m, k, c, cu, de);
            lemma_has_change_concat(d0 + f + m, b, k, c, cu, de);
            lemma_has_change_concat(d0 + f + m + b, o, k, c, cu, de);
            lemma_has_change_concat(d0 + f + m + b + o, rs, k, c, cu, de);
            lemma_has_change_concat(d0 + f + m + b + o + rs, ps, k, c, cu, de);
        }
    }
    assert(JV::Bool(tf.has_projects) != JV::Bool(rf.has_projects) ==> has_applicable_change(
        diff_spec(r, t),
        "features.has_projects"@,
        Category::Features,
        JV::Bool(tf.has_projects),
        JV::Bool(rf.has_projects),
    )) by {
        if JV::Bool(tf.has_projects) != JV::Bool(rf.has_projects) {
            let (k, c, cu, de) = (
                "features.has_projects"@,
                Category::Features,
                JV::Bool(tf.has_projects),
                JV::Bool(rf.has_projects),
            );
            lemma_scalar_has_change(c, k, "Projects"@, cu, de);
            lemma_has_change_concat(f1, f2, k, c, cu, de);
            lemma_has_change_concat(f1 + f2, f3, k, c, cu, de);
            lemma_has_change_concat(f1 + f2 + f3, f4, k, c, cu, de);
            lemma_has_change_concat(f1 + f2 + f3 + f4, f5, k, c, cu, de);
            lemma_has_change_concat(d0, f, k, c, cu, de);
            lemma_has_change_concat(d0 + f, m, k, c, cu, de);
            lemma_has_change_concat(d0 + f + m, b, k, c, cu, de);
            lemma_has_change_concat(d0 + f + m + b, o, k, c, cu, de);
            lemma_has_change_concat(d0 + f + m + b + o, rs, k, c, cu, de);
            lemma_has_change_concat(d0 + f + m + b + o + rs, ps, k, c, cu, de);
        }
    }
    assert(JV::Bool(tf.has_discussions) != JV::Bool(rf.has_discussions) ==> has_applicable_change(
        diff_spec(r, t),
        "features.has_discussions"@,
        Category::Features,
        JV::Bool(tf.has_discussions),
        JV::Bool(rf.has_discussions),
    )) by {
        if JV::Bool(tf.has_discussions) != JV::Bool(rf.has_discussions) {
            let (k, c, cu, de) = (
                "features.has_discussions"@,
                Category::Features,
                JV::Bool(tf.has_discussions),
                JV::Bool(rf.has_discussions),
            );
            lemma_scalar_has_change(c, k, "Discussions"@, cu, de);
            lemma_has_change_concat(f1, f2, k, c, cu, de);
            lemma_has_change_concat(f1 + f2, f3, k, c, cu, de);
            lemma_has_change_concat(f1 + f2 + f3, f4, k, c, cu, de);
            lemma_has_change_concat(f1 + f2 + f3 + f4, f5, k, c, cu, de);
            lemma_has_change_concat(d0, f, k, c, cu, de);
            lemma_has_change_concat(d0 + f, m, k, c, cu, de);
            lemma_has_change_concat(d0 + f + m, b, k, c, cu, de);
            lemma_has_change_concat(d0 + f + m + b, o, k, c, cu, de);
            lemma_has_change_concat(d0 + f + m + b + o, rs, k, c, cu, de);
            lemma_has_change_concat(d0 + f + m + b + o + rs, ps, k, c, cu, de);
        }
    }
    assert(JV::Bool(tf.allow_forking) != JV::Bool(rf.allow_forking) ==> has_applicable_change(
        diff_spec(r, t),
        "features.allow_forking"@,
        Category::Features,
        JV::Bool(tf.allow_forking),
        JV::Bool(rf.allow_forking),
    )) by {
        if JV::Bool(tf.allow_forking) != JV::Bool(rf.allow_forking) {
            let (k, c, cu, de) = (
                "features.allow_forking"@,
                Category::Features,
                JV::Bool(tf.allow_forking),
                JV::Bool(rf.allow_forking),
            );
            lemma_scalar_has_change(c, k, "Allow forking"@, cu, de);
            lemma_has_change_concat(f1, f2, k, c, cu, de);
            lemma_has_change_concat(f1 + f2, f3, k, c, cu, de);
            lemma_has_change_concat(f1 + f2 + f3, f4, k, c, cu, de);
            lemma_has_change_concat(f1 + f2 + f3 + f4, f5, k, c, cu, de);
            lemma_has_change_concat(d0, f, k, c, cu, de);
            lemma_has_change_concat(d0 + f, m, k, c, cu, de);
            lemma_has_change_concat(d0 + f + m, b, k, c, cu, de);
            lemma_has_change_concat(d0 + f + m + b, o, k, c, cu, de);
            lemma_has_change_concat(d0 + f + m + b + o, rs, k, c, cu, de);
            lemma_has_change_concat(d0 + f + m + b + o + rs, ps, k, c, cu, de);
        }
    }
    assert(JV::Bool(tp.allow_merge_commit) != JV::Bool(rp.allow_merge_commit) ==> has_applicable_change(
        diff_spec(r, t),
        "pull_requests.allow_merge_commit"@,
        Category::PullRequests,
        JV::Bool(tp.allow_merge_commit),
        JV::Bool(rp.allow_merge_commit),
    )) by {
        if JV::Bool(tp.allow_merge_commit) != JV::Bool(rp.allow_merge_commit) {
            let (k, c, cu, de) = (
                "pull_requests.allow_merge_commit"@,
                Category::PullRequests,
                JV::Bool(tp.allow_merge_commit),
                JV::Bool(rp.allow_merge_commit),
            );
            lemma_scalar_has_change(c, k, "Allow merge commits"@, cu, de);
            lemma_has_change_concat(m1, m2, k, c, cu, de);
            lemma_has_change_concat(m1 + m2, m3, k, c, cu, de);
            lemma_has_change_concat(m1 + m2 + m3, m4, k, c, cu, de);
            lemma_has_change_concat(m1 + m2 + m3 + m4, m5, k, c, cu, de);
            lemma_has_change_concat(m1 + m2 + m3 + m4 + m5, m6, k, c, cu, de);
            lemma_has_change_concat(d0, f, k, c, cu, de);
            lemma_has_change_concat(d0 + f, m, k, c, cu, de);
            lemma_has_change_concat(d0 + f + m, b, k, c, cu, de);
            lemma_has_change_concat(d0 + f + m + b, o, k, c, cu, de);
            lemma_has_change_concat(d0 + f + m + b + o, rs, k, c, cu, de);
            lemma_has_change_concat(d0 + f + m + b + o + rs, ps, k, c, cu, de);
        }
    }
    assert(opt_str_json(tp.merge_commit_title) != opt_str_json(rp.merge_commit_title) ==> has_applicable_change(
        diff_spec(r, t),
        "pull_requests.merge_commit_title"@,
        Category::PullRequests,
        opt_str_json(tp.merge_commit_title),
        opt_str_json(rp.merge_commit_title),
    )) by {
        if opt_str_json(tp.merge_commit_title) != opt_str_json(rp.merge_commit_title) {
            let (k, c, cu, de) = (
                "pull_requests.merge_commit_title"@,
                Category::PullRequests,
                opt_str_json(tp.merge_commit_title),
                opt_str_json(rp.merge_commit_title),
            );
            lemma_scalar_has_change(c, k, "Merge commit title"@, cu, de);
            lemma_has_change_concat(m1, m2, k, c, cu, de);
            lemma_has_change_concat(m1 + m2, m3, k, c, cu, de);
            lemma_has_change_concat(m1 + m2 + m3, m4, k, c, cu, de);
            lemma_has_change_concat(m1 + m2 + m3 + m4, m5, k, c, cu, de);
            lemma_has_change_concat(m1 + m2 + m3 + m4 + m5, m6, k, c, cu, de);
            lemma_has_change_concat(d0, f, k, c, cu, de);
            lemma_has_change_concat(d0 + f, m, k, c, cu, de);
            lemma_has_change_concat(d0 + f + m, b, k, c, cu, de);
            lemma_has_change_concat(d0 + f + m + b, o, k, c, cu, de);
            lemma_has_change_concat(d0 + f + m + b + o, rs, k, c, cu, de);
            lemma_has_change_concat(d0 + f + m + b + o + rs, ps, k, c, cu, de);
        }
    }
    assert(opt_str_json(tp.merge_commit_message) != opt_str_json(rp.merge_commit_message) ==> has_applicable_change(
        diff_spec(r, t),
        "pull_requests.merge_commit_message"@,
        Category::PullRequests,
        opt_str_json(tp.merge_commit_message),
        opt_str_json(rp.merge_commit_message),
    )) by {
        if opt_str_json(tp.merge_commit_message) != opt_str_json(rp.merge_commit_message) {
            let (k, c, cu, de) = (
                "pull_requests.merge_commit_message"@,
                Category::PullRequests,
                opt_str_json(tp.merge_commit_message),
                opt_str_json(rp.merge_commit_message),
            );
            lemma_scalar_has_change(c, k, "Merge commit message"@, cu, de);
            lemma_has_change_concat(m1, m2, k, c, cu, de);
            lemma_has_change_concat(m1 + m2, m3, k, c, cu, de);
            lemma_has_change_concat(m1 + m2 + m3, m4, k, c, cu, de);
            lemma_has_change_concat(m1 + m2 + m3 + m4, m5, k, c, cu, de);
            lemma_has_change_concat(m1 + m2 + m3 + m4 + m5, m6, k, c, cu, de);
            lemma_has_change_concat(d0, f, k, c, cu, de);
            lemma_has_change_concat(d0 + f, m, k, c, cu, de);
            lemma_has_change_concat(d0 + f + m, b, k, c, cu, de);
            lemma_has_change_concat(d0 + f + m + b, o, k, c, cu, de);
            lemma_has_change_concat(d0 + f + m + b + o, rs, k, c, cu, de);
            lemma_has_change_concat(d0 + f + m + b + o + rs, ps, k, c, cu, de);
        }
    }
    assert(JV::Bool(tp.allow_squash_merge) != JV::Bool(rp.allow_squash_merge) ==> has_applicable_change(
        diff_spec(r, t),
        "pull_requests.allow_squash_merge"@,
        Category::PullRequests,
        JV::Bool(tp.allow_squash_merge),
        JV::Bool(rp.allow_squash_merge),
    )) by {
        if JV::Bool(tp.allow_squash_merge) != JV::Bool(rp.allow_squash_merge) {
            let (k, c, cu, de) = (
                "pull_requests.allow_squash_merge"@,
                Category::PullRequests,
                JV::Bool(tp.allow_squash_merge),
                JV::Bool(rp.allow_squash_merge),
            );
            lemma_scalar_has_change(c, k, "Allow squash merging"@, cu, de);
            lemma_has_change_concat(m1, m2, k, c, cu, de);
            lemma_has_change_concat(m1 + m2, m3, k, c, cu, de);
            lemma_has_change_concat(m1 + m2 + m3, m4, k, c, cu, de);
            lemma_has_change_concat(m1 + m2 + m3 + m4, m5, k, c, cu, de);
            lemma_has_change_concat(m1 + m2 + m3 + m4 + m5, m6, k, c, cu, de);
            lemma_has_change_concat(d0, f, k, c, cu, de);
            lemma_has_change_concat(d0 + f, m, k, c, cu, de);
            lemma_has_change_concat(d0 + f + m, b, k, c, cu, de);
            lemma_has_change_concat(d0 + f + m + b, o, k, c, cu, de);
            lemma_has_change_concat(d0 + f + m + b + o, rs, k, c, cu, de);
            lemma_has_change_concat(d0 + f + m + b + o + rs, ps, k, c, cu, de);
        }
    }
    assert(opt_str_json(tp.squash_merge_commit_title) != opt_str_json(rp.squash_merge_commit_title) ==> has_applicable_change(
        diff_spec(r, t),
        "pull_requests.squash_merge_commit_title"@,
        Category::PullRequests,
        opt_str_json(tp.squash_merge_commit_title),
        opt_str_json(rp.squash_merge_commit_title),
    )) by {
        if opt_str_json(tp.squash_merge_commit_title) != opt_str_json(rp.squash_merge_commit_title) {
            let (k, c, cu, de) = (
                "pull_requests.squash_merge_commit_title"@,
                Category::PullRequests,
                opt_str_json(tp.squash_merge_commit_title),
                opt_str_json(rp.squash_merge_commit_title),
            );
            lemma_scalar_has_change(c, k, "Squash commit title"@, cu, de);
            lemma_has_change_concat(m1, m2, k, c, cu, de);
            lemma_has_change_concat(m1 + m2, m3, k, c, cu, de);
            lemma_has_change_concat(m1 + m2 + m3, m4, k, c, cu, de);
            lemma_has_change_concat(m1 + m2 + m3 + m4, m5, k, c, cu, de);
            lemma_has_change_concat(m1 + m2 + m3 + m4 + m5, m6, k, c, cu, de);
            lemma_has_change_concat(d0, f, k, c, cu, de);
            lemma_has_change_concat(d0 + f, m, k, c, cu, de);
            lemma_has_change_concat(d0 + f + m, b, k, c, cu, de);
            lemma_has_change_concat(d0 + f + m + b, o, k, c, cu, de);
            lemma_has_change_concat(d0 + f + m + b + o, rs, k, c, cu, de);
            lemma_has_change_concat(d0 + f + m + b + o + rs, ps, k, c, cu, de);
        }
    }
    assert(opt_str_json(tp.squash_merge_commit_message) != opt_str_json(rp.squash_merge_commit_message) ==> has_applicable_change(
        diff_spec(r, t),
        "pull_requests.squash_merge_commit_message"@,
        Category::PullRequests,
        opt_str_json(tp.squash_merge_commit_message),
        opt_str_json(rp.squash_merge_commit_message),
    )) by {
        if opt_str_json(tp.squash_merge_commit_message) != opt_str_json(rp.squash_merge_commit_message) {
            let (k, c, cu, de) = (
                "pull_requests.squash_merge_commit_message"@,
                Category::PullRequests,
                opt_str_json(tp.squash_merge_commit_message),
                opt_str_json(rp.squash_merge_commit_message),
            );
            lemma_scalar_has_change(c, k, "Squash commit message"@, cu, de);
            lemma_has_change_concat(m1, m2, k, c, cu, de);
            lemma_has_change_concat(m1 + m2, m3, k, c, cu, de);
            lemma_has_change_concat(m1 + m2 + m3, m4, k, c, cu, de);
            lemma_has_change_concat(m1 + m2 + m3 + m4, m5, k, c, cu, de);
            lemma_has_change_concat(m1 + m2 + m3 + m4 + m5, m6, k, c, cu, de);
            lemma_has_change_concat(d0, f, k, c, cu, de);
            lemma_has_change_concat(d0 + f, m, k, c, cu, de);
            lemma_has_change_concat(d0 + f + m, b, k, c, cu, de);
            lemma_has_change_concat(d0 + f + m + b, o, k, c, cu, de);
            lemma_has_change_concat(d0 + f + m + b + o, rs, k, c, cu, de);
            lemma_has_change_concat(d0 + f + m + b + o + rs, ps, k, c, cu, de);
        }
    }
    assert(JV::Bool(tp.allow_rebase_merge) != JV::Bool(rp.allow_rebase_merge) ==> has_applicable_change(
        diff_spec(r, t),
        "pull_requests.allow_rebase_merge"@,
        Category::PullRequests,
        JV::Bool(tp.allow_rebase_merge),
        JV::Bool(rp.allow_rebase_merge),
    )) by {
        if JV::Bool(tp.allow_rebase_merge) != JV::Bool(rp.allow_rebase_merge) {
            let (k, c, cu, de) = (
                "pull_requests.allow_rebase_merge"@,
                Category::PullRequests,
                JV::Bool(tp.allow_rebase_merge),
                JV::Bool(rp.allow_rebase_merge),
            );
            lemma_scalar_has_change(c, k, "Allow rebase merging"@, cu, de);
            lemma_has_change_concat(b1, b2, k, c, cu, de);
            lemma_has_change_concat(b1 + b2, b3, k, c, cu, de);
            lemma_has_change_concat(b1 + b2 + b3, b4, k, c, cu, de);
            lemma_has_change_concat(d0, f, k, c, cu, de);
            lemma_has_change_concat(d0 + f, m, k, c, cu, de);
            lemma_has_change_concat(d0 + f + m, b, k, c, cu, de);
            lemma_has_change_concat(d0 + f + m + b, o, k, c, cu, de);
            lemma_has_change_concat(d0 + f + m + b + o, rs, k, c, cu, de);
            lemma_has_change_concat(d0 + f + m + b + o + rs, ps, k, c, cu, de);
        }
    }
    assert(JV::Bool(tp.allow_update_branch) != JV::Bool(rp.allow_update_branch) ==> has_applicable_change(
        diff_spec(r, t),
        "pull_requests.allow_update_branch"@,
        Category::PullRequests,
        JV::Bool(tp.allow_update_branch),
        JV::Bool(rp.allow_update_branch),
    )) by {
        if JV::Bool(tp.allow_update_branch) != JV::Bool(rp.allow_update_branch) {
            let (k, c, cu, de) = (
                "pull_requests.allow_update_branch"@,
                Category::PullRequests,
                JV::Bool(tp.allow_update_branch),
                JV::Bool(rp.allow_update_branch),
            );
            lemma_scalar_has_change(c, k, "Always suggest updating PR branches"@, cu, de);
            lemma_has_change_concat(b1, b2, k, c, cu, de);
            lemma_has_change_concat(b1 + b2, b3, k, c, cu, de);
            lemma_has_change_concat(b1 + b2 + b3, b4, k, c, cu, de);
            lemma_has_change_concat(d0, f, k, c, cu, de);
            lemma_has_change_concat(d0 + f, m, k, c, cu, de);
            lemma_has_change_concat(d0 + f + m, b, k, c, cu, de);
            lemma_has_change_concat(d0 + f + m + b, o, k, c, cu, de);
            lemma_has_change_concat(d0 + f + m + b + o, rs, k, c, cu, de);
            lemma_has_change_concat(d0 + f + m + b + o + rs, ps, k, c, cu, de);
        }
    }
    assert(JV::Bool(tp.allow_auto_merge) != JV::Bool(rp.allow_auto_merge) ==> has_applicable_change(
        diff_spec(r, t),
        "pull_requests.allow_auto_merge"@,
        Category::PullRequests,
        JV::Bool(tp.allow_auto_merge),
        JV::Bool(rp.allow_auto_merge),
    )) by {
        if JV::Bool(tp.allow_auto_merge) != JV::Bool(rp.allow_auto_merge) {
            let (k, c, cu, de) = (
                "pull_requests.allow_auto_merge"@,
                Category::PullRequests,
                JV::Bool(tp.allow_auto_merge),
                JV::Bool(rp.allow_auto_merge),
            );
            lemma_scalar_has_change(c, k, "Allow auto-merge"@, cu, de);
            lemma_has_change_concat(b1, b2, k, c, cu, de);
            lemma_has_change_concat(b1 + b2, b3, k, c, cu, de);
            lemma_has_change_concat(b1 + b2 + b3, b4, k, c, cu, de);
            lemma_has_change_concat(d0, f, k, c, cu, de);
            lemma_has_change_concat(d0 + f, m, k, c, cu, de);
            lemma_has_change_concat(d0 + f + m, b, k, c, cu, de);
            lemma_has_change_concat(d0 + f + m + b, o, k, c, cu, de);
            lemma_has_change_concat(d0 + f + m + b + o, rs, k, c, cu, de);
            lemma_has_change_concat(d0 + f + m + b + o + rs, ps, k, c, cu, de);
        }
    }
    assert(JV::Bool(tp.delete_branch_on_merge) != JV::Bool(rp.delete_branch_on_merge) ==> has_applicable_change(
        diff_spec(r, t),
        "pull_requests.delete_branch_on_merge"@,
        Category::PullRequests,
        JV::Bool(tp.delete_branch_on_merge),
        JV::Bool(rp.delete_branch_on_merge),
    )) by {
        if JV::Bool(tp.delete_branch_on_merge) != JV::Bool(rp.delete_branch_on_merge) {
            let (k, c, cu, de) = (
                "pull_requests.delete_branch_on_merge"@,
                Category::PullRequests,
                JV::Bool(tp.delete_branch_on_merge),
                JV::Bool(rp.delete_branch_on_merge),
            );
            lemma_scalar_has_change(c, k, "Automatically delete head branches"@, cu, de);
            lemma_has_change_concat(b1, b2, k, c, cu, de);
            lemma_has_change_concat(b1 + b2, b3, k, c, cu, de);
            lemma_has_change_concat(b1 + b2 + b3, b4, k, c, cu, de);
            lemma_has_change_concat(d0, f, k, c, cu, de);
            lemma_has_change_concat(d0 + f, m, k, c, cu, de);
            lemma_has_change_concat(d0 + f + m, b, k, c, cu, de);
            lemma_has_change_concat(d0 + f + m + b, o, k, c, cu, de);
            lemma_has_change_concat(d0 + f + m + b + o, rs, k, c, cu, de);
            lemma_has_change_concat(d0 + f + m + b + o + rs, ps, k, c, cu, de);
        }
    }
    assert(JV::Bool(t.others.web_commit_signoff_required) != JV::Bool(r.others.web_commit_signoff_required) ==> has_applicable_change(
        diff_spec(r, t),
        "others.web_commit_signoff_required"@,
        Category::Others,
        JV::Bool(t.others.web_commit_signoff_required),
        JV::Bool(r.others.web_commit_signoff_required),
    )) by {
        if JV::Bool(t.others.web_commit_signoff_required) != JV::Bool(r.others.web_commit_signoff_required) {
            let (k, c, cu, de) = (
                "others.web_commit_signoff_required"@,
                Category::Others,
                JV::Bool(t.others.web_commit_signoff_required),
                JV::Bool(r.others.web_commit_signoff_required),
            );
            lemma_scalar_has_change(c, k, "Require contributors to sign off on web-based commits"@, cu, de);
            lemma_has_change_concat(d0, f, k, c, cu, de);
            lemma_has_change_concat(d0 + f, m, k, c, cu, de);
            lemma_has_change_concat(d0 + f + m, b, k, c, cu, de);
            lemma_has_change_concat(d0 + f + m + b, o, k, c, cu, de);
            lemma_has_change_concat(d0 + f + m + b + o, rs, k, c, cu, de);
            lemma_has_change_concat(d0 + f + m + b + o + rs, ps, k, c, cu, de);
        }
    }
}

} // verus!
