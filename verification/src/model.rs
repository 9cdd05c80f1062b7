use vstd::prelude::*;
use crate::json::{Json, JV, opt_view};

verus! {

/// A repository as listed for the user.
pub struct RepoInfo {
    pub full_name: String,
    pub owner: String,
    pub name: String,
    pub private: bool,
    pub admin: bool,
    pub archived: bool,
    pub default_branch: String,
    pub description: Option<String>,
}

/// A team of an organization.
pub struct TeamInfo {
    pub slug: String,
    pub name: String,
}

/// Repository features that can be switched on and off.
#[derive(Clone, Copy, Debug, Default, PartialEq, Eq, Structural)]
pub struct Features {
    pub has_wiki: bool,
    pub has_issues: bool,
    pub has_projects: bool,
    pub has_discussions: bool,
    pub allow_forking: bool,
}

/// Pull request settings of a repository.
#[derive(Debug, Default)]
pub struct PullRequestSettings {
    pub allow_merge_commit: bool,
    pub merge_commit_title: Option<String>,
    pub merge_commit_message: Option<String>,
    pub allow_squash_merge: bool,
    pub squash_merge_commit_title: Option<String>,
    pub squash_merge_commit_message: Option<String>,
    pub allow_rebase_merge: bool,
    pub allow_update_branch: bool,
    pub allow_auto_merge: bool,
    pub delete_branch_on_merge: bool,
}

/// Other repository settings.
#[derive(Clone, Copy, Debug, Default, PartialEq, Eq, Structural)]
pub struct OtherSettings {
    pub web_commit_signoff_required: bool,
}

/// A ruleset of a repository, with its payload as the write endpoint accepts it.
#[derive(Debug)]
pub struct RulesetSummary {
    pub id: u64,
    pub name: String,
    pub target: String,
    pub payload: Json,
}

/// The classic protection of a branch, as the body of a PUT.
#[derive(Debug)]
pub struct BranchProtection {
    pub branch: String,
    pub config: Json,
}

/// Everything that is compared and synchronised of one repository.
#[derive(Debug)]
pub struct RepoSettingsSnapshot {
    pub repo: String,
    pub default_branch: String,
    pub branches: Vec<String>,
    pub features: Features,
    pub pull_requests: PullRequestSettings,
    pub others: OtherSettings,
    pub rulesets: Vec<RulesetSummary>,
    pub branch_protections: Vec<BranchProtection>,
}

/// The group a setting belongs to.
#[derive(Clone, Copy, Debug, PartialEq, Eq, Hash, Structural)]
pub enum Category {
    DefaultBranch,
    Features,
    PullRequests,
    Others,
    Tags,
    Rules,
}

/// One setting in which a target differs from the reference: `current` is the target's
/// value, `desired` the reference's.
#[derive(Debug)]
pub struct SettingChange {
    pub key: String,
    pub label: String,
    pub category: Category,
    pub current: Json,
    pub desired: Json,
    pub applicable: bool,
    pub note: Option<String>,
}

/// The differences of one target repository from the reference.
#[derive(Debug)]
pub struct RepoDiff {
    pub repo: String,
    pub changes: Vec<SettingChange>,
}

/// Value of `PullRequestSettings`.
pub struct PullRequestSettingsV {
    pub allow_merge_commit: bool,
    pub merge_commit_title: Option<Seq<char>>,
    pub merge_commit_message: Option<Seq<char>>,
    pub allow_squash_merge: bool,
    pub squash_merge_commit_title: Option<Seq<char>>,
    pub squash_merge_commit_message: Option<Seq<char>>,
    pub allow_rebase_merge: bool,
    pub allow_update_branch: bool,
    pub allow_auto_merge: bool,
    pub delete_branch_on_merge: bool,
}

/// Value of `RulesetSummary`.
pub struct RulesetV {
    pub id: u64,
    pub name: Seq<char>,
    pub target: Seq<char>,
    pub payload: JV,
}

/// Value of `BranchProtection`.
pub struct ProtectionV {
    pub branch: Seq<char>,
    pub config: JV,
}

/// Value of `RepoSettingsSnapshot`.
pub struct SnapshotV {
    pub repo: Seq<char>,
    pub default_branch: Seq<char>,
    pub branches: Seq<Seq<char>>,
    pub features: Features,
    pub pull_requests: PullRequestSettingsV,
    pub others: OtherSettings,
    pub rulesets: Seq<RulesetV>,
    pub branch_protections: Seq<ProtectionV>,
}

/// Value of `SettingChange`.
pub struct ChangeV {
    pub key: Seq<char>,
    pub label: Seq<char>,
    pub category: Category,
    pub current: JV,
    pub desired: JV,
    pub applicable: bool,
    pub note: Option<Seq<char>>,
}

/// Value of `RepoDiff`.
pub struct RepoDiffV {
    pub repo: Seq<char>,
    pub changes: Seq<ChangeV>,
}

impl View for PullRequestSettings {
    type V = PullRequestSettingsV;

    open spec fn view(&self) -> PullRequestSettingsV {
        PullRequestSettingsV {
            allow_merge_commit: self.allow_merge_commit,
            merge_commit_title: opt_view(self.merge_commit_title),
            merge_commit_message: opt_view(self.merge_commit_message),
            allow_squash_merge: self.allow_squash_merge,
            squash_merge_commit_title: opt_view(self.squash_merge_commit_title),
            squash_merge_commit_message: opt_view(self.squash_merge_commit_message),
            allow_rebase_merge: self.allow_rebase_merge,
            allow_update_branch: self.allow_update_branch,
            allow_auto_merge: self.allow_auto_merge,
            delete_branch_on_merge: self.delete_branch_on_merge,
        }
    }
}

impl View for RulesetSummary {
    type V = RulesetV;

    open spec fn view(&self) -> RulesetV {
        RulesetV { id: self.id, name: self.name@, target: self.target@, payload: self.payload@ }
    }
}

impl View for BranchProtection {
    type V = ProtectionV;

    open spec fn view(&self) -> ProtectionV {
        ProtectionV { branch: self.branch@, config: self.config@ }
    }
}

impl View for RepoSettingsSnapshot {
    type V = SnapshotV;

    open spec fn view(&self) -> SnapshotV {
        SnapshotV {
            repo: self.repo@,
            default_branch: self.default_branch@,
            branches: self.branches@.map_values(|b: String| b@),
            features: self.features,
            pull_requests: self.pull_requests@,
            others: self.others,
            rulesets: self.rulesets@.map_values(|r: RulesetSummary| r@),
            branch_protections: self.branch_protections@.map_values(|p: BranchProtection| p@),
        }
    }
}

impl View for SettingChange {
    type V = ChangeV;

    open spec fn view(&self) -> ChangeV {
        ChangeV {
            key: self.key@,
            label: self.label@,
            category: self.category,
            current: self.current@,
            desired: self.desired@,
            applicable: self.applicable,
            note: opt_view(self.note),
        }
    }
}

impl View for RepoDiff {
    type V = RepoDiffV;

    open spec fn view(&self) -> RepoDiffV {
        RepoDiffV { repo: self.repo@, changes: changes_view(self.changes@) }
    }
}

/// The values of a list of changes.
pub open spec fn changes_view(v: Seq<SettingChange>) -> Seq<ChangeV> {
    v.map_values(|c: SettingChange| c@)
}

} // verus!
