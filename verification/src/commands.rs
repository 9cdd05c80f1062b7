use vstd::prelude::*;
use crate::diff::{diff_snapshots, diff_spec};
use crate::github::{member_str, str_or};
use crate::json::{Json, lemma_json_view};
use crate::model::{RepoDiff, RepoDiffV, RepoSettingsSnapshot, SettingChange, SnapshotV};
use crate::json::opt_view;
use crate::sync::{
    actions_view, ids_view, plan_spec, plan_sync, plan_warnings, restrict_plan, ActionResult,
    KnownActors, SyncPlan,
};
use crate::search::{
    first_match, lemma_first_match_at, lemma_first_match_props,
    lemma_first_match_push,
};
use crate::model::changes_view;
use crate::text::{char_index, concat, split_once, views};

verus! {

broadcast use lemma_json_view;

/// The signed-in user, as the interface shows it.
pub struct UserInfo {
    pub login: String,
    pub avatar_url: String,
}

/// Reads the user that `GET /user` answered with; a missing field reads as empty.
pub fn user_info_from_json(user: &Json) -> (info: UserInfo)
    ensures
        info.login@ == str_or(user@.at("login"@), Seq::empty()),
        info.avatar_url@ == str_or(user@.at("avatar_url"@), Seq::empty()),
{
    UserInfo { login: member_str(user, "login"), avatar_url: member_str(user, "avatar_url") }
}

/// The message for a repository name without an owner.
pub open spec fn invalid_name_message(full: Seq<char>) -> Seq<char> {
    "nombre de repo inválido: "@ + full
}

/// Splits `owner/name` at its first `/`; a name without one is refused.
pub fn split_full_name(full: &str) -> (r: Result<(String, String), String>)
    ensures
        r is Err <==> char_index(full@, '/') == -1,
        r matches Err(e) ==> e@ == invalid_name_message(full@),
        r matches Ok((o, n)) ==> o@ == full@.take(char_index(full@, '/')) && n@ == full@.skip(
            char_index(full@, '/') + 1,
        ),
{
    match split_once(full, '/') {
        Some(parts) => Ok(parts),
        None => Err(concat("nombre de repo inválido: ", full)),
    }
}

/// Splits a target of an audit at its first `/`; a name without one is refused, and the
/// audit records that refusal beside the name.
pub fn audit_target(t: &str) -> (r: Result<(String, String), String>)
    ensures
        r is Err <==> char_index(t@, '/') == -1,
        r matches Err(e) ==> e@ == "nombre inválido"@,
        r matches Ok((o, n)) ==> o@ == t@.take(char_index(t@, '/')) && n@ == t@.skip(
            char_index(t@, '/') + 1,
        ),
{
    match split_once(t, '/') {
        Some(parts) => Ok(parts),
        None => Err("nombre inválido".to_owned()),
    }
}

/// The outcome of an audit: the reference, the differences of each target that could be read,
/// and, for each one that could not, its name and the error.
#[derive(Debug)]
pub struct AuditResult {
    pub reference: RepoSettingsSnapshot,
    pub diffs: Vec<RepoDiff>,
    pub errors: Vec<(String, String)>,
}

/// A fetched target: the index of the target it belongs to, and its snapshot or the error.
pub type Fetched = (usize, Result<RepoSettingsSnapshot, String>);

/// The target indexes that the results carry, in the order the results came.
pub open spec fn result_tags(results: Seq<Fetched>) -> Seq<usize> {
    results.map_values(|x: Fetched| x.0)
}

/// A result carrying the index `j`.
pub open spec fn is_tag(j: int) -> spec_fn(usize) -> bool {
    |t: usize| t == j
}

/// Position of the first of `tags` that is `j`, or -1.
pub open spec fn first_tag(tags: Seq<usize>, j: int) -> int {
    first_match(tags, is_tag(j))
}

/// The result of target `j`: the first one that carries its index.
pub open spec fn result_of(results: Seq<Fetched>, j: int) -> int {
    first_tag(result_tags(results), j)
}

/// Some result carries the index `j`.
pub open spec fn has_result(results: Seq<Fetched>, j: int) -> bool {
    exists|k: int| 0 <= k < results.len() && results[k].0 == j
}

/// Every target has a result.
pub open spec fn covers(n: int, results: Seq<Fetched>) -> bool {
    forall|j: int| 0 <= j < n ==> #[trigger] has_result(results, j)
}

/// The targets, each with its snapshot or error, in the order of the targets.
pub open spec fn in_target_order(targets: Seq<String>, results: Seq<Fetched>) -> Seq<
    (Seq<char>, Result<SnapshotV, Seq<char>>),
> {
    Seq::new(
        targets.len(),
        |i: int|
            (
                targets[i]@,
                match results[result_of(results, i)].1 {
                    Ok(s) => Ok(s@),
                    Err(e) => Err(e@),
                },
            ),
    )
}

/// The values of a list of differences.
pub open spec fn diffs_view(v: Seq<RepoDiff>) -> Seq<RepoDiffV> {
    v.map_values(|d: RepoDiff| d@)
}

/// The values of a list of named errors.
pub open spec fn errors_view(v: Seq<(String, String)>) -> Seq<(Seq<char>, Seq<char>)> {
    v.map_values(|e: (String, String)| (e.0@, e.1@))
}

/// The differences from `r` of the targets that were read, in the order given.
pub open spec fn audit_diffs(r: SnapshotV, fs: Seq<(Seq<char>, Result<SnapshotV, Seq<char>>)>) -> Seq<
    RepoDiffV,
>
    decreases fs.len(),
{
    if fs.len() == 0 {
        Seq::empty()
    } else {
        let rest = audit_diffs(r, fs.drop_last());
        match fs.last().1 {
            Ok(t) => rest.push(RepoDiffV { repo: t.repo, changes: diff_spec(r, t) }),
            Err(_) => rest,
        }
    }
}

/// The names and errors of the targets that could not be read, in the order given.
pub open spec fn audit_errors(fs: Seq<(Seq<char>, Result<SnapshotV, Seq<char>>)>) -> Seq<
    (Seq<char>, Seq<char>),
>
    decreases fs.len(),
{
    if fs.len() == 0 {
        Seq::empty()
    } else {
        let rest = audit_errors(fs.drop_last());
        match fs.last().1 {
            Ok(_) => rest,
            Err(e) => rest.push((fs.last().0, e)),
        }
    }
}

proof fn lemma_first_match_push_found<A>(s: Seq<A>, p: spec_fn(A) -> bool, x: A)
    requires
        first_match(s, p) >= 0,
    ensures
        first_match(s.push(x), p) == first_match(s, p),
{
    lemma_first_match_props(s, p);
    let k = first_match(s, p);
    assert(s.push(x)[k] == s[k]);
    assert forall|j: int| 0 <= j < k implies !p(s.push(x)[j]) by {
        assert(s.push(x)[j] == s[j]);
    }
    lemma_first_match_at(s.push(x), p, k);
}

/// For each target, the position of its first result.
fn first_results(n: usize, results: &[Fetched]) -> (pos: Vec<Option<usize>>)
    ensures
        pos@.len() == n,
        forall|j: int|
            0 <= j < n ==> (#[trigger] pos@[j] matches Some(k) ==> k == result_of(results@, j)
                && k < results@.len()) && (pos@[j] is None ==> result_of(results@, j) == -1),
{
    let ghost tags = result_tags(results@);
    let mut pos: Vec<Option<usize>> = Vec::new();
    let mut j: usize = 0;
    while j < n
        invariant
            j <= n,
            pos@.len() == j,
            forall|i: int| 0 <= i < j ==> pos@[i] is None,
        decreases n - j,
    {
        pos.push(None);
        j = j + 1;
    }
    let m = results.len();
    let mut k: usize = 0;
    while k < m
        invariant
            k <= m,
            m == results@.len(),
            tags == result_tags(results@),
            pos@.len() == n,
            forall|i: int|
                0 <= i < n ==> (#[trigger] pos@[i] matches Some(q) ==> q == first_tag(
                    tags.take(k as int),
                    i,
                ) && q < k) && (pos@[i] is None ==> first_tag(tags.take(k as int), i) == -1),
        decreases m - k,
    {
        let t = results[k].0;
        assert(tags[k as int] == t);
        assert(tags.take(k + 1) =~= tags.take(k as int).push(t));
        assert forall|i: int| 0 <= i < n && i != t implies #[trigger] first_tag(
            tags.take(k + 1),
            i,
        ) == first_tag(tags.take(k as int), i) by {
            lemma_first_match_push(tags.take(k as int), is_tag(i), t);
        }
        if t < n {
            let ghost ti = t as int;
            match pos[t] {
                None => {
                    proof {
                        lemma_first_match_props(tags.take(k as int), is_tag(ti));
                        lemma_first_match_at(tags.take(k + 1), is_tag(ti), k as int);
                    }
                    pos.set(t, Some(k));
                },
                Some(_) => {
                    proof {
                        lemma_first_match_push_found(tags.take(k as int), is_tag(ti), t);
                    }
                },
            }
        }
        k = k + 1;
    }
    assert(tags.take(m as int) =~= tags);
    pos
}

/// Gathers the audit of the targets, whatever order their fetches finished in: a difference
/// from `reference` for each target that was read, its name and error for each one that was
/// not, both in the order of the targets. Each result carries the index of its target.
pub fn collect_audit(
    reference: RepoSettingsSnapshot,
    targets: &[String],
    results: &[Fetched],
) -> (a: AuditResult)
    requires
        covers(targets@.len() as int, results@),
    ensures
        a.reference@ == reference@,
        diffs_view(a.diffs@) == audit_diffs(reference@, in_target_order(targets@, results@)),
        errors_view(a.errors@) == audit_errors(in_target_order(targets@, results@)),
        a.diffs@.len() + a.errors@.len() == targets@.len(),
{
    let ghost fs = in_target_order(targets@, results@);
    let n = targets.len();
    let pos = first_results(n, results);
    let mut diffs: Vec<RepoDiff> = Vec::new();
    let mut errors: Vec<(String, String)> = Vec::new();
    let mut i: usize = 0;
    assert(fs.take(0) =~= Seq::<(Seq<char>, Result<SnapshotV, Seq<char>>)>::empty());
    while i < n
        invariant
            i <= n,
            n == targets@.len(),
            pos@.len() == n,
            covers(n as int, results@),
            forall|j: int|
                0 <= j < n ==> (#[trigger] pos@[j] matches Some(k) ==> k == result_of(results@, j)
                    && k < results@.len()) && (pos@[j] is None ==> result_of(results@, j) == -1),
            fs == in_target_order(targets@, results@),
            diffs_view(diffs@) == audit_diffs(reference@, fs.take(i as int)),
            errors_view(errors@) == audit_errors(fs.take(i as int)),
        decreases n - i,
    {
        assert(fs.take(i + 1).drop_last() =~= fs.take(i as int));
        assert(fs.take(i + 1).last() == fs[i as int]);
        let ghost ii = i as int;
        proof {
            assert(has_result(results@, ii));
            let k0 = choose|k: int| 0 <= k < results@.len() && results@[k].0 == ii;
            assert(result_tags(results@)[k0] == ii);
            lemma_first_match_props(result_tags(results@), is_tag(ii));
        }
        match pos[i] {
            Some(k) => {
                match &results[k].1 {
                    Ok(snap) => {
                        let ghost before = diffs@;
                        diffs.push(diff_snapshots(&reference, snap));
                        assert(diffs_view(diffs@) =~= diffs_view(before).push(diffs@.last()@));
                    },
                    Err(e) => {
                        let ghost before = errors@;
                        errors.push((targets[i].clone(), e.clone()));
                        assert(errors_view(errors@) =~= errors_view(before).push(
                            (targets@[ii]@, e@),
                        ));
                    },
                }
            },
            None => {
                assert(false);
            },
        }
        i = i + 1;
    }
    assert(fs.take(n as int) =~= fs);
    proof {
        law_audit_accounts_for_every_target(reference@, fs);
    }
    AuditResult { reference, diffs, errors }
}

/// Every target of an audit comes out once: as a difference or as an error.
pub proof fn law_audit_accounts_for_every_target(
    r: SnapshotV,
    fs: Seq<(Seq<char>, Result<SnapshotV, Seq<char>>)>,
)
    ensures
        audit_diffs(r, fs).len() + audit_errors(fs).len() == fs.len(),
    decreases fs.len(),
{
    if fs.len() > 0 {
        law_audit_accounts_for_every_target(r, fs.drop_last());
    }
}

/// How many of the targets were read.
pub open spec fn read_count(fs: Seq<(Seq<char>, Result<SnapshotV, Seq<char>>)>) -> nat
    decreases fs.len(),
{
    if fs.len() == 0 {
        0
    } else {
        read_count(fs.drop_last()) + if fs.last().1 is Ok {
            1nat
        } else {
            0nat
        }
    }
}

proof fn lemma_audit_lengths(r: SnapshotV, fs: Seq<(Seq<char>, Result<SnapshotV, Seq<char>>)>)
    ensures
        audit_diffs(r, fs).len() == read_count(fs),
        audit_errors(fs).len() == fs.len() - read_count(fs),
        read_count(fs) <= fs.len(),
    decreases fs.len(),
{
    if fs.len() > 0 {
        lemma_audit_lengths(r, fs.drop_last());
    }
}

/// Each target that was read has, as its diff, its own diff from the reference (the target's
/// values as current, the reference's as desired), at its place among the targets read; each
/// target that was not read has its name and error at its place among the others.
pub proof fn law_audit_diff_of_each_target(
    r: SnapshotV,
    fs: Seq<(Seq<char>, Result<SnapshotV, Seq<char>>)>,
)
    ensures
        forall|i: int|
            0 <= i < fs.len() ==> match (#[trigger] fs[i]).1 {
                Ok(t) => read_count(fs.take(i)) < audit_diffs(r, fs).len() && audit_diffs(r, fs)[read_count(
                    fs.take(i),
                ) as int] == (RepoDiffV { repo: t.repo, changes: diff_spec(r, t) }),
                Err(e) => i - read_count(fs.take(i)) < audit_errors(fs).len() && audit_errors(
                    fs,
                )[i - read_count(fs.take(i))] == (fs[i].0, e),
            },
    decreases fs.len(),
{
    if fs.len() > 0 {
        let prev = fs.drop_last();
        law_audit_diff_of_each_target(r, prev);
        lemma_audit_lengths(r, prev);
        lemma_audit_lengths(r, fs);
        let n = fs.len() - 1;
        assert(fs.take(n) =~= prev);
        assert forall|i: int| 0 <= i < fs.len() implies match (#[trigger] fs[i]).1 {
            Ok(t) => read_count(fs.take(i)) < audit_diffs(r, fs).len() && audit_diffs(r, fs)[read_count(
                fs.take(i),
            ) as int] == (RepoDiffV { repo: t.repo, changes: diff_spec(r, t) }),
            Err(e) => i - read_count(fs.take(i)) < audit_errors(fs).len() && audit_errors(fs)[i
                - read_count(fs.take(i))] == (fs[i].0, e),
        } by {
            if i < n {
                assert(fs.take(i) =~= prev.take(i));
                assert(fs[i] == prev[i]);
                lemma_audit_lengths(r, prev.take(i));
            }
        }
    }
}

/// The changes chosen for one repository.
#[derive(Debug)]
pub struct RepoSyncPlan {
    pub repo: String,
    pub changes: Vec<SettingChange>,
}

/// What became of the sync of one repository: the result of each action and the warnings of
/// its plan, or the error that stopped it before any action.
#[derive(Debug)]
pub struct RepoSyncResult {
    pub repo: String,
    pub results: Vec<ActionResult>,
    pub warnings: Vec<String>,
    pub fatal: Option<String>,
}

/// The sync of several repositories, one after the other. A repository that cannot be synced
/// gets its error as its result and the run goes on with the next one.
pub struct SyncRun {
    plans: Vec<RepoSyncPlan>,
    results: Vec<RepoSyncResult>,
    awaiting: bool,
}

impl SyncRun {
    /// The plans to sync.
    pub closed spec fn planned(&self) -> Seq<RepoSyncPlan> {
        self.plans@
    }

    /// The results so far, one per plan from the first.
    pub closed spec fn reported(&self) -> Seq<RepoSyncResult> {
        self.results@
    }

    /// Whether the current repository was named and its snapshot is awaited.
    pub closed spec fn awaiting(&self) -> bool {
        self.awaiting
    }

    /// The plan being synced.
    pub open spec fn current(&self) -> RepoSyncPlan {
        self.planned()[self.reported().len() as int]
    }

    /// One result per plan synced so far, for its repository; a repository is awaited only
    /// while it has no result and its name has an owner.
    pub open spec fn wf(&self) -> bool {
        &&& self.reported().len() <= self.planned().len()
        &&& self.awaiting() ==> self.reported().len() < self.planned().len() && char_index(
            self.current().repo@,
            '/',
        ) != -1
        &&& forall|i: int|
            0 <= i < self.reported().len() ==> (#[trigger] self.reported()[i]).repo@
                == self.planned()[i].repo@
    }

    /// A run of `plans` that has synced none of them yet.
    pub fn new(plans: Vec<RepoSyncPlan>) -> (run: SyncRun)
        ensures
            run.wf(),
            run.planned() == plans@,
            run.reported().len() == 0,
            !run.awaiting(),
    {
        SyncRun { plans, results: Vec::new(), awaiting: false }
    }

    /// Whether every plan has its result.
    pub fn is_done(&self) -> (b: bool)
        ensures
            b == (self.reported().len() == self.planned().len()),
    {
        self.results.len() == self.plans.len()
    }

    /// The repository to read next, by owner and name. A name without an owner gets its error
    /// as its result at once, and none is returned.
    pub fn next_target(&mut self) -> (t: Option<(String, String)>)
        requires
            old(self).wf(),
            !old(self).awaiting(),
            old(self).reported().len() < old(self).planned().len(),
        ensures
            final(self).wf(),
            final(self).planned() == old(self).planned(),
            t is None <==> char_index(old(self).current().repo@, '/') == -1,
            t matches Some((o, n)) ==> {
                &&& final(self).awaiting()
                &&& final(self).reported() == old(self).reported()
                &&& o@ == old(self).current().repo@.take(char_index(old(self).current().repo@, '/'))
                &&& n@ == old(self).current().repo@.skip(
                    char_index(old(self).current().repo@, '/') + 1,
                )
            },
            t is None ==> {
                &&& !final(self).awaiting()
                &&& final(self).reported().drop_last() == old(self).reported()
                &&& final(self).reported().len() == old(self).reported().len() + 1
                &&& final(self).reported().last().repo@ == old(self).current().repo@
                &&& final(self).reported().last().results@.len() == 0
                &&& final(self).reported().last().warnings@.len() == 0
                &&& opt_view(final(self).reported().last().fatal) == Some(
                    invalid_name_message(old(self).current().repo@),
                )
            },
    {
        let i = self.results.len();
        let repo = self.plans[i].repo.clone();
        match split_full_name(repo.as_str()) {
            Ok(parts) => {
                self.awaiting = true;
                Some(parts)
            },
            Err(e) => {
                let ghost before = self.results@;
                self.results.push(
                    RepoSyncResult { repo, results: Vec::new(), warnings: Vec::new(), fatal: Some(e) },
                );
                assert(self.results@.drop_last() =~= before);
                None
            },
        }
    }

    /// The repository being synced.
    pub fn current_repo(&self) -> (r: &String)
        requires
            self.wf(),
            self.awaiting(),
        ensures
            r@ == self.current().repo@,
    {
        &self.plans[self.results.len()].repo
    }

    /// The snapshot of the current repository could not be read: that error is its result.
    pub fn snapshot_failed(&mut self, error: String)
        requires
            old(self).wf(),
            old(self).awaiting(),
        ensures
            final(self).wf(),
            !final(self).awaiting(),
            final(self).planned() == old(self).planned(),
            final(self).reported().drop_last() == old(self).reported(),
            final(self).reported().len() == old(self).reported().len() + 1,
            final(self).reported().last().repo@ == old(self).current().repo@,
            final(self).reported().last().results@.len() == 0,
            final(self).reported().last().warnings@.len() == 0,
            opt_view(final(self).reported().last().fatal) == Some(error@),
    {
        let i = self.results.len();
        let repo = self.plans[i].repo.clone();
        let ghost before = self.results@;
        self.results.push(
            RepoSyncResult { repo, results: Vec::new(), warnings: Vec::new(), fatal: Some(error) },
        );
        assert(self.results@.drop_last() =~= before);
        self.awaiting = false;
    }

    /// The plan for the current repository against its snapshot `target`: its chosen changes
    /// as actions, rulesets restricted to the bypass actors that exist there, with warnings.
    pub fn actions_for(&self, target: &RepoSettingsSnapshot, known: &KnownActors) -> (p: SyncPlan)
        requires
            self.wf(),
            self.awaiting(),
        ensures
            actions_view(p.actions@) == restrict_plan(
                plan_spec(changes_view(self.current().changes@), target@),
                ids_view(known.teams),
                ids_view(known.apps),
            ),
            views(p.warnings@) == plan_warnings(
                plan_spec(changes_view(self.current().changes@), target@),
                ids_view(known.teams),
                ids_view(known.apps),
            ),
    {
        plan_sync(self.plans[self.results.len()].changes.as_slice(), target, known)
    }

    /// The current repository was synced with these action results and plan warnings.
    pub fn applied(&mut self, warnings: Vec<String>, results: Vec<ActionResult>)
        requires
            old(self).wf(),
            old(self).awaiting(),
        ensures
            final(self).wf(),
            !final(self).awaiting(),
            final(self).planned() == old(self).planned(),
            final(self).reported().drop_last() == old(self).reported(),
            final(self).reported().len() == old(self).reported().len() + 1,
            final(self).reported().last().repo@ == old(self).current().repo@,
            final(self).reported().last().results@ == results@,
            final(self).reported().last().warnings@ == warnings@,
            final(self).reported().last().fatal is None,
    {
        let i = self.results.len();
        let repo = self.plans[i].repo.clone();
        let ghost before = self.results@;
        self.results.push(RepoSyncResult { repo, results, warnings, fatal: None });
        assert(self.results@.drop_last() =~= before);
        self.awaiting = false;
    }

    /// The results, one per plan in the order of the plans, once every plan has its result.
    pub fn into_results(self) -> (r: Vec<RepoSyncResult>)
        requires
            self.wf(),
            self.reported().len() == self.planned().len(),
        ensures
            r@ == self.reported(),
            r@.len() == self.planned().len(),
            forall|i: int| 0 <= i < r@.len() ==> (#[trigger] r@[i]).repo@ == self.planned()[i].repo@,
    {
        self.results
    }
}

} // verus!
