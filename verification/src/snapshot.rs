use vstd::prelude::*;
use crate::diff::{protections_view, rulesets_view};
use crate::github::{
    branch_names, branch_names_of, branches_page_path, is_last_page, protected_names_of,
    protection_is_absent, protection_path, repo_path, repo_path_spec, ruleset_from_full,
    ruleset_id, ruleset_path, rulesets_page_path, rulesets_unavailable, snapshot_from_parts,
    str_or, unexpected_answer, unexpected_answer_spec,
};
use crate::json::{Json, JV, elems_view, lemma_json_view, lemma_elems_view};
use crate::model::{
    BranchProtection, Features, OtherSettings, ProtectionV, PullRequestSettingsV,
    RepoSettingsSnapshot, RulesetSummary, RulesetV, SnapshotV,
};
use crate::text::{decimal_spec, views};
use crate::transform::{bool_or_false, normalize_spec, protection_get_to_put, protection_put_spec};

verus! {

broadcast use {lemma_json_view, lemma_elems_view};

/// Where the reading of a snapshot stands.
#[derive(Clone, Copy, Debug, PartialEq, Eq, Structural)]
pub enum Stage {
    /// The repository's own description is asked for.
    Repo,
    /// A page of the branches is asked for.
    Branches,
    /// A page of the rulesets is asked for.
    Rulesets,
    /// One ruleset is asked for in full.
    Details,
    /// The classic protection of one protected branch is asked for.
    Protections,
    /// Everything has been read.
    Finished,
}

/// The reading of the snapshot of one repository, one request at a time: each answer is
/// handed to `advance`, which says what to ask next.
pub struct SnapshotFetch {
    owner: String,
    name: String,
    stage: Stage,
    page: u64,
    repo: Json,
    branches: Vec<String>,
    protected: Vec<String>,
    ids: Vec<u64>,
    next: usize,
    rulesets: Vec<RulesetSummary>,
    protections: Vec<BranchProtection>,
}

/// Value of `SnapshotFetch`.
pub struct FetchV {
    pub owner: Seq<char>,
    pub name: Seq<char>,
    pub stage: Stage,
    /// The page asked for, while branches or rulesets are listed.
    pub page: u64,
    pub repo: JV,
    pub branches: Seq<Seq<char>>,
    pub protected: Seq<Seq<char>>,
    /// The ids of the rulesets listed, of those that have a numeric one.
    pub ids: Seq<u64>,
    /// The ruleset or protected branch asked for, by its index.
    pub next: int,
    pub rulesets: Seq<RulesetV>,
    pub protections: Seq<ProtectionV>,
}

impl View for SnapshotFetch {
    type V = FetchV;

    closed spec fn view(&self) -> FetchV {
        FetchV {
            owner: self.owner@,
            name: self.name@,
            stage: self.stage,
            page: self.page,
            repo: self.repo@,
            branches: views(self.branches@),
            protected: views(self.protected@),
            ids: self.ids@,
            next: self.next as int,
            rulesets: rulesets_view(self.rulesets@),
            protections: protections_view(self.protections@),
        }
    }
}

/// The answer to a request.
pub enum Reply {
    /// GitHub answered with this body.
    Answer(Json),
    /// The answer to a listing could not be read as a list, for this reason.
    Unreadable(String),
    /// GitHub answered with this error status.
    Refused(u16),
    /// The request failed otherwise: network, or a token that was not accepted.
    Failed,
}

/// Value of `Reply`.
pub enum ReplyV {
    Answer(JV),
    Unreadable(Seq<char>),
    Refused(u16),
    Failed,
}

impl View for Reply {
    type V = ReplyV;

    open spec fn view(&self) -> ReplyV {
        match self {
            Reply::Answer(j) => ReplyV::Answer(j@),
            Reply::Unreadable(d) => ReplyV::Unreadable(d@),
            Reply::Refused(s) => ReplyV::Refused(*s),
            Reply::Failed => ReplyV::Failed,
        }
    }
}

/// What to do after an answer.
pub enum FetchStep {
    /// Ask for this path next.
    Get(String),
    /// Give up with the error of the last request.
    Stop,
    /// Give up: the answer was not what the endpoint promises; the message says so.
    Invalid(String),
    /// The snapshot is complete.
    Done,
}

/// Value of `FetchStep`.
pub enum StepV {
    Get(Seq<char>),
    Stop,
    Invalid(Seq<char>),
    Done,
}

impl View for FetchStep {
    type V = StepV;

    open spec fn view(&self) -> StepV {
        match self {
            FetchStep::Get(p) => StepV::Get(p@),
            FetchStep::Stop => StepV::Stop,
            FetchStep::Invalid(m) => StepV::Invalid(m@),
            FetchStep::Done => StepV::Done,
        }
    }
}

/// The reading of `owner/name` before its first request.
pub open spec fn initial_fetch(owner: Seq<char>, name: Seq<char>) -> FetchV {
    FetchV {
        owner,
        name,
        stage: Stage::Repo,
        page: 1,
        repo: JV::Null,
        branches: Seq::empty(),
        protected: Seq::empty(),
        ids: Seq::empty(),
        next: 0,
        rulesets: Seq::empty(),
        protections: Seq::empty(),
    }
}

/// The pages and indexes of a reading are in range.
pub open spec fn fetch_wf(s: FetchV) -> bool {
    &&& (s.stage == Stage::Branches || s.stage == Stage::Rulesets) ==> s.page >= 1
    &&& s.stage == Stage::Details ==> 0 <= s.next < s.ids.len()
    &&& s.stage == Stage::Protections ==> 0 <= s.next < s.protected.len()
}

/// The path asked for at the current stage.
pub open spec fn request_path(s: FetchV) -> Seq<char> {
    let base = repo_path_spec(s.owner, s.name);
    match s.stage {
        Stage::Repo => base,
        Stage::Branches => base + "/branches?per_page=100&page="@ + decimal_spec(s.page as nat),
        Stage::Rulesets => base + "/rulesets?per_page=100&page="@ + decimal_spec(s.page as nat)
            + "&includes_parents=false"@,
        Stage::Details => base + "/rulesets/"@ + decimal_spec(s.ids[s.next] as nat),
        Stage::Protections => base + "/branches/"@ + s.protected[s.next] + "/protection"@,
        Stage::Finished => Seq::empty(),
    }
}

/// The numeric ids of the rulesets of a page, in order.
pub open spec fn ids_of(a: Seq<JV>) -> Seq<u64>
    decreases a.len(),
{
    if a.len() == 0 {
        Seq::empty()
    } else {
        match a.last().at("id"@).as_u64() {
            Some(id) => ids_of(a.drop_last()).push(id),
            None => ids_of(a.drop_last()),
        }
    }
}

/// Whether the page just read is the last one: it is short, or no later page can be named.
pub open spec fn last_page(s: FetchV, a: Seq<JV>) -> bool {
    a.len() < 100 || s.page == u64::MAX
}

/// Once all protections are read, or where no branch is protected, the reading is over.
pub open spec fn after_details(s: FetchV) -> FetchV {
    if s.protected.len() > 0 {
        FetchV { stage: Stage::Protections, next: 0, ..s }
    } else {
        FetchV { stage: Stage::Finished, ..s }
    }
}

/// Once the rulesets are listed, each one with an id is read in full, then the protections.
pub open spec fn after_rulesets(s: FetchV) -> FetchV {
    if s.ids.len() > 0 {
        FetchV { stage: Stage::Details, next: 0, ..s }
    } else {
        after_details(s)
    }
}

/// What a listing that is not a list is told apart by.
pub open spec fn not_a_list() -> Seq<char> {
    "invalid type: expected a sequence"@
}

/// The reading after an answer to the current request, or the step that ends it.
pub open spec fn fetch_transition(s: FetchV, r: ReplyV) -> Result<FetchV, StepV> {
    match s.stage {
        Stage::Repo => match r {
            ReplyV::Answer(j) => Ok(FetchV { stage: Stage::Branches, page: 1, repo: j, ..s }),
            _ => Err(StepV::Stop),
        },
        Stage::Branches => match r {
            ReplyV::Answer(JV::Array(a)) => {
                let t = FetchV {
                    branches: s.branches + branch_names_of(a),
                    protected: s.protected + protected_names_of(a),
                    ..s
                };
                if last_page(s, a) {
                    Ok(FetchV { stage: Stage::Rulesets, page: 1, ..t })
                } else {
                    Ok(FetchV { page: (s.page + 1) as u64, ..t })
                }
            },
            ReplyV::Answer(_) => Err(
                StepV::Invalid(unexpected_answer_spec(request_path(s), not_a_list())),
            ),
            ReplyV::Unreadable(d) => Err(StepV::Invalid(unexpected_answer_spec(request_path(s), d))),
            _ => Err(StepV::Stop),
        },
        Stage::Rulesets => match r {
            ReplyV::Answer(JV::Array(a)) => {
                let t = FetchV { ids: s.ids + ids_of(a), ..s };
                if last_page(s, a) {
                    Ok(after_rulesets(t))
                } else {
                    Ok(FetchV { page: (s.page + 1) as u64, ..t })
                }
            },
            ReplyV::Answer(_) => Err(
                StepV::Invalid(unexpected_answer_spec(request_path(s), not_a_list())),
            ),
            ReplyV::Unreadable(d) => Err(StepV::Invalid(unexpected_answer_spec(request_path(s), d))),
            ReplyV::Refused(status) => if status == 403 || status == 404 {
                Ok(after_rulesets(s))
            } else {
                Err(StepV::Stop)
            },
            ReplyV::Failed => Err(StepV::Stop),
        },
        Stage::Details => match r {
            ReplyV::Answer(j) => {
                let t = FetchV {
                    rulesets: s.rulesets.push(
                        RulesetV {
                            id: s.ids[s.next],
                            name: str_or(j.at("name"@), Seq::empty()),
                            target: str_or(j.at("target"@), "branch"@),
                            payload: normalize_spec(j),
                        },
                    ),
                    next: s.next + 1,
                    ..s
                };
                if t.next == s.ids.len() {
                    Ok(after_details(t))
                } else {
                    Ok(t)
                }
            },
            _ => Err(StepV::Stop),
        },
        Stage::Protections => {
            let done = s.next + 1 == s.protected.len();
            match r {
                ReplyV::Answer(j) => {
                    let t = FetchV {
                        protections: s.protections.push(
                            ProtectionV {
                                branch: s.protected[s.next],
                                config: protection_put_spec(j),
                            },
                        ),
                        next: s.next + 1,
                        ..s
                    };
                    if done {
                        Ok(FetchV { stage: Stage::Finished, ..t })
                    } else {
                        Ok(t)
                    }
                },
                ReplyV::Refused(status) => if status == 404 {
                    let t = FetchV { next: s.next + 1, ..s };
                    if done {
                        Ok(FetchV { stage: Stage::Finished, ..t })
                    } else {
                        Ok(t)
                    }
                } else {
                    Err(StepV::Stop)
                },
                _ => Err(StepV::Stop),
            }
        },
        Stage::Finished => Err(StepV::Stop),
    }
}

/// While the protections are read, each answer moves on to the next protected branch, in
/// order, and the reading ends only after the last one: an answer for a branch that is not
/// the last asks for the protection of the branch after it. The protection read, if any, is
/// that of the branch asked for.
pub proof fn law_protections_read_in_order(s: FetchV, r: ReplyV)
    requires
        fetch_wf(s),
        s.stage == Stage::Protections,
        fetch_transition(s, r) is Ok,
    ensures
        ({
            let t = fetch_transition(s, r)->Ok_0;
            &&& t.next == s.next + 1
            &&& (t.stage == Stage::Finished) == (s.next + 1 == s.protected.len())
            &&& t.stage != Stage::Finished ==> t.stage == Stage::Protections && request_path(t)
                == repo_path_spec(s.owner, s.name) + "/branches/"@ + s.protected[s.next + 1]
                + "/protection"@
            &&& t.protections.len() <= s.protections.len() + 1
            &&& t.protections.take(s.protections.len() as int) == s.protections
            &&& t.protections.len() == s.protections.len() + 1 ==> t.protections.last().branch
                == s.protected[s.next]
            &&& r is Answer <==> t.protections.len() == s.protections.len() + 1
        }),
{
    let t = fetch_transition(s, r)->Ok_0;
    assert(t.protections.take(s.protections.len() as int) =~= s.protections);
}

/// The protections start being read at the first protected branch, once the rulesets are read.
pub proof fn law_protections_start_at_first(s: FetchV, r: ReplyV)
    requires
        fetch_wf(s),
        s.stage != Stage::Protections,
        fetch_transition(s, r) is Ok,
        fetch_transition(s, r)->Ok_0.stage == Stage::Protections,
    ensures
        fetch_transition(s, r)->Ok_0.next == 0,
        fetch_transition(s, r)->Ok_0.protected.len() > 0,
        fetch_transition(s, r)->Ok_0.protections == s.protections,
{
}

/// The reading after an answer, and the step it leads to: the next request, the end, or
/// the reason to give up (the reading then stays as it was).
pub open spec fn fetch_next_spec(s: FetchV, r: ReplyV) -> (FetchV, StepV) {
    match fetch_transition(s, r) {
        Ok(t) => (
            t,
            if t.stage == Stage::Finished {
                StepV::Done
            } else {
                StepV::Get(request_path(t))
            },
        ),
        Err(e) => (s, e),
    }
}

/// The snapshot of `owner/name` from its description and the parts read separately:
/// missing flags are false, missing strings absent, the default branch `main`.
pub open spec fn snapshot_spec(
    owner: Seq<char>,
    name: Seq<char>,
    repo: JV,
    branches: Seq<Seq<char>>,
    rulesets: Seq<RulesetV>,
    protections: Seq<ProtectionV>,
) -> SnapshotV {
    let f = |k: Seq<char>| bool_or_false(repo.at(k));
    let t = |k: Seq<char>| repo.at(k).as_str();
    SnapshotV {
        repo: owner + "/"@ + name,
        default_branch: str_or(repo.at("default_branch"@), "main"@),
        branches,
        features: Features {
            has_wiki: f("has_wiki"@),
            has_issues: f("has_issues"@),
            has_projects: f("has_projects"@),
            has_discussions: f("has_discussions"@),
            allow_forking: f("allow_forking"@),
        },
        pull_requests: PullRequestSettingsV {
            allow_merge_commit: f("allow_merge_commit"@),
            merge_commit_title: t("merge_commit_title"@),
            merge_commit_message: t("merge_commit_message"@),
            allow_squash_merge: f("allow_squash_merge"@),
            squash_merge_commit_title: t("squash_merge_commit_title"@),
            squash_merge_commit_message: t("squash_merge_commit_message"@),
            allow_rebase_merge: f("allow_rebase_merge"@),
            allow_update_branch: f("allow_update_branch"@),
            allow_auto_merge: f("allow_auto_merge"@),
            delete_branch_on_merge: f("delete_branch_on_merge"@),
        },
        others: OtherSettings { web_commit_signoff_required: f("web_commit_signoff_required"@) },
        rulesets,
        branch_protections: protections,
    }
}

/// The ids of a page of rulesets that have a numeric one, in order.
fn ruleset_ids(batch: &Vec<Json>) -> (ids: Vec<u64>)
    ensures
        ids@ == ids_of(elems_view(batch@)),
{
    let ghost all = elems_view(batch@);
    let mut out: Vec<u64> = Vec::new();
    let n = batch.len();
    let mut i: usize = 0;
    assert(all.take(0) =~= Seq::<JV>::empty());
    while i < n
        invariant
            i <= n,
            n == batch@.len(),
            all == elems_view(batch@),
            out@ == ids_of(all.take(i as int)),
        decreases n - i,
    {
        assert(all.take(i + 1).drop_last() =~= all.take(i as int));
        assert(all.take(i + 1).last() == batch@[i as int]@);
        match ruleset_id(&batch[i]) {
            Some(id) => {
                out.push(id);
            },
            None => {},
        }
        i = i + 1;
    }
    assert(all.take(n as int) =~= all);
    out
}

impl SnapshotFetch {
    /// Starts reading the snapshot of `owner/name`.
    pub fn new(owner: &str, name: &str) -> (f: SnapshotFetch)
        ensures
            f@ == initial_fetch(owner@, name@),
    {
        let f = SnapshotFetch {
            owner: owner.to_owned(),
            name: name.to_owned(),
            stage: Stage::Repo,
            page: 1,
            repo: Json::Null,
            branches: Vec::new(),
            protected: Vec::new(),
            ids: Vec::new(),
            next: 0,
            rulesets: Vec::new(),
            protections: Vec::new(),
        };
        assert(f@.branches =~= Seq::<Seq<char>>::empty());
        assert(f@.protected =~= Seq::<Seq<char>>::empty());
        assert(f@.rulesets =~= Seq::<RulesetV>::empty());
        assert(f@.protections =~= Seq::<ProtectionV>::empty());
        f
    }

    /// The path to ask for now.
    pub fn request(&self) -> (p: String)
        requires
            fetch_wf(self@),
        ensures
            p@ == request_path(self@),
    {
        match self.stage {
            Stage::Repo => repo_path(self.owner.as_str(), self.name.as_str()),
            Stage::Branches => branches_page_path(self.owner.as_str(), self.name.as_str(), self.page),
            Stage::Rulesets => rulesets_page_path(self.owner.as_str(), self.name.as_str(), self.page),
            Stage::Details => ruleset_path(self.owner.as_str(), self.name.as_str(), self.ids[self.next]),
            Stage::Protections => {
                assert(views(self.protected@)[self.next as int] == self.protected@[self.next as int]@);
                protection_path(
                    self.owner.as_str(),
                    self.name.as_str(),
                    self.protected[self.next].as_str(),
                )
            },
            Stage::Finished => String::new(),
        }
    }

    /// Whether the current request asks for a page of a listing, whose answer must be a list.
    pub fn expects_list(&self) -> (b: bool)
        ensures
            b == (self@.stage == Stage::Branches || self@.stage == Stage::Rulesets),
    {
        self.stage == Stage::Branches || self.stage == Stage::Rulesets
    }

    /// Whether everything has been read.
    pub fn is_finished(&self) -> (b: bool)
        ensures
            b == (self@.stage == Stage::Finished),
    {
        self.stage == Stage::Finished
    }

    fn finish_details(&mut self)
        ensures
            final(self)@ == after_details(old(self)@),
    {
        if self.protected.len() > 0 {
            self.stage = Stage::Protections;
            self.next = 0;
        } else {
            self.stage = Stage::Finished;
        }
    }

    fn finish_rulesets(&mut self)
        ensures
            final(self)@ == after_rulesets(old(self)@),
    {
        if self.ids.len() > 0 {
            self.stage = Stage::Details;
            self.next = 0;
        } else {
            self.finish_details();
        }
    }

    /// Takes the answer to the current request and says what to do next.
    pub fn advance(&mut self, reply: Reply) -> (step: FetchStep)
        requires
            fetch_wf(old(self)@),
            old(self)@.stage != Stage::Finished,
        ensures
            fetch_wf(final(self)@),
            (final(self)@, step@) == fetch_next_spec(old(self)@, reply@),
    {
        let ghost s = self@;
        match self.stage {
            Stage::Repo => match reply {
                Reply::Answer(j) => {
                    self.repo = j;
                    self.stage = Stage::Branches;
                    self.page = 1;
                },
                _ => {
                    return FetchStep::Stop;
                },
            },
            Stage::Branches => {
                let path = self.request();
                match reply {
                    Reply::Answer(Json::Array(batch)) => {
                        let (mut names, mut protected) = branch_names(&batch);
                        let ghost (nv, pv) = (names@, protected@);
                        self.branches.append(&mut names);
                        self.protected.append(&mut protected);
                        assert(views(self.branches@) =~= s.branches + views(nv));
                        assert(views(self.protected@) =~= s.protected + views(pv));
                        if is_last_page(batch.len()) || self.page == u64::MAX {
                            self.stage = Stage::Rulesets;
                            self.page = 1;
                        } else {
                            self.page = self.page + 1;
                        }
                    },
                    Reply::Answer(_) => {
                        return FetchStep::Invalid(
                            unexpected_answer(path.as_str(), "invalid type: expected a sequence"),
                        );
                    },
                    Reply::Unreadable(d) => {
                        return FetchStep::Invalid(unexpected_answer(path.as_str(), d.as_str()));
                    },
                    _ => {
                        return FetchStep::Stop;
                    },
                }
            },
            Stage::Rulesets => {
                let path = self.request();
                match reply {
                    Reply::Answer(Json::Array(batch)) => {
                        let mut ids = ruleset_ids(&batch);
                        self.ids.append(&mut ids);
                        if is_last_page(batch.len()) || self.page == u64::MAX {
                            self.finish_rulesets();
                        } else {
                            self.page = self.page + 1;
                        }
                    },
                    Reply::Answer(_) => {
                        return FetchStep::Invalid(
                            unexpected_answer(path.as_str(), "invalid type: expected a sequence"),
                        );
                    },
                    Reply::Unreadable(d) => {
                        return FetchStep::Invalid(unexpected_answer(path.as_str(), d.as_str()));
                    },
                    Reply::Refused(status) => {
                        if rulesets_unavailable(status) {
                            self.finish_rulesets();
                        } else {
                            return FetchStep::Stop;
                        }
                    },
                    Reply::Failed => {
                        return FetchStep::Stop;
                    },
                }
            },
            Stage::Details => match reply {
                Reply::Answer(full) => {
                    let n_ids = self.ids.len();
                    assert(self.next < n_ids);
                    let id = self.ids[self.next];
                    let r = ruleset_from_full(id, full);
                    let ghost before = self.rulesets@;
                    self.rulesets.push(r);
                    assert(rulesets_view(self.rulesets@) =~= rulesets_view(before).push(r@));
                    self.next = self.next + 1;
                    if self.next == self.ids.len() {
                        self.finish_details();
                    }
                },
                _ => {
                    return FetchStep::Stop;
                },
            },
            Stage::Protections => {
                let n_protected = self.protected.len();
                assert(self.next < n_protected);
                let done = self.next + 1 == n_protected;
                match reply {
                    Reply::Answer(get) => {
                        let config = protection_get_to_put(&get);
                        let branch = self.protected[self.next].clone();
                        let ghost before = self.protections@;
                        let bp = BranchProtection { branch, config };
                        self.protections.push(bp);
                        assert(protections_view(self.protections@) =~= protections_view(
                            before,
                        ).push(bp@));
                        self.next = self.next + 1;
                    },
                    Reply::Refused(status) => {
                        if protection_is_absent(status) {
                            self.next = self.next + 1;
                        } else {
                            return FetchStep::Stop;
                        }
                    },
                    _ => {
                        return FetchStep::Stop;
                    },
                }
                if done {
                    self.stage = Stage::Finished;
                }
            },
            Stage::Finished => {
                return FetchStep::Stop;
            },
        }
        if self.stage == Stage::Finished {
            FetchStep::Done
        } else {
            FetchStep::Get(self.request())
        }
    }

    /// The snapshot read.
    pub fn into_snapshot(self) -> (s: RepoSettingsSnapshot)
        requires
            self@.stage == Stage::Finished,
        ensures
            s@ == snapshot_spec(
                self@.owner,
                self@.name,
                self@.repo,
                self@.branches,
                self@.rulesets,
                self@.protections,
            ),
    {
        let ghost v = self@;
        let s = snapshot_from_parts(
            self.owner.as_str(),
            self.name.as_str(),
            &self.repo,
            self.branches,
            self.rulesets,
            self.protections,
        );
        assert(s@.branches =~= v.branches);
        assert(s@.rulesets =~= v.rulesets);
        assert(s@.branch_protections =~= v.protections);
        s
    }
}

} // verus!
