use vstd::prelude::*;
use crate::json::{Json, JV, opt_view, lemma_json_view, lemma_elems_view, elems_view};
use crate::model::{
    BranchProtection, Features, OtherSettings, PullRequestSettings, RepoInfo,
    RepoSettingsSnapshot, RulesetSummary, TeamInfo,
};
use crate::text::{
    concat3, concat4, decimal, decimal_spec, digit_char, split, split_spec, trim, trim_spec, views,
};
use crate::transform::{bool_or_false, normalize_ruleset, normalize_spec};

verus! {

broadcast use {lemma_json_view, lemma_elems_view};

/// Number of items GitHub returns per page; a shorter page is the last one.
pub const PAGE_SIZE: usize = 100;

/// Whether a page of `n` items is the last one.
pub fn is_last_page(n: usize) -> (last: bool)
    ensures
        last == (n < PAGE_SIZE),
{
    n < PAGE_SIZE
}

/// The value of a string of decimal digits.
pub open spec fn digits_value(s: Seq<char>) -> nat
    decreases s.len(),
{
    if s.len() == 0 {
        0
    } else {
        digits_value(s.drop_last()) * 10 + ((s.last() as int) - ('0' as int)) as nat
    }
}

pub open spec fn is_digit(c: char) -> bool {
    '0' <= c && c <= '9'
}

/// `s` without one leading `+`.
pub open spec fn strip_plus(s: Seq<char>) -> Seq<char> {
    if s.len() > 0 && s[0] == '+' {
        s.drop_first()
    } else {
        s
    }
}

/// `s.parse::<u64>()`: an optional `+`, then one or more decimal digits whose value fits.
pub open spec fn parse_u64_spec(s: Seq<char>) -> Option<u64> {
    parse_u64_spec_digits(strip_plus(s))
}

/// All characters are decimal digits.
pub open spec fn all_digits(d: Seq<char>) -> bool {
    forall|i: int| 0 <= i < d.len() ==> is_digit(#[trigger] d[i])
}

proof fn lemma_digits_value_monotone(d: Seq<char>, n: int)
    requires
        0 <= n <= d.len(),
        forall|i: int| 0 <= i < d.len() ==> is_digit(#[trigger] d[i]),
    ensures
        digits_value(d.take(n)) <= digits_value(d),
    decreases d.len() - n,
{
    if n < d.len() {
        lemma_digits_value_monotone(d, n + 1);
        assert(d.take(n + 1).drop_last() =~= d.take(n));
        assert(is_digit(d[n]));
    } else {
        assert(d.take(n) =~= d);
    }
}

/// `s.parse::<u64>().ok()`.
pub fn parse_u64(s: &str) -> (r: Option<u64>)
    ensures
        r == parse_u64_spec(s@),
{
    let n = s.unicode_len();
    let mut start: usize = 0;
    if n > 0 && s.get_char(0) == '+' {
        start = 1;
    }
    let ghost d = strip_plus(s@);
    assert(d =~= s@.skip(start as int));
    assert(parse_u64_spec(s@) == parse_u64_spec_digits(d));
    if start == n {
        return None;
    }
    let mut value: u64 = 0;
    let mut i: usize = start;
    assert(d.take(0) =~= Seq::<char>::empty());
    while i < n
        invariant
            start <= i <= n,
            n == s@.len(),
            start < n,
            d == s@.skip(start as int),
            parse_u64_spec(s@) == parse_u64_spec_digits(d),
            forall|j: int| 0 <= j < i - start ==> is_digit(#[trigger] d[j]),
            value == digits_value(d.take(i - start)),
        decreases n - i,
    {
        let c = s.get_char(i);
        assert(d[i - start] == c);
        if !('0' <= c && c <= '9') {
            assert(!is_digit(d[i - start]));
            return None;
        }
        let digit = (c as u32 - '0' as u32) as u64;
        assert(d.take(i - start + 1).drop_last() =~= d.take(i - start));
        assert(d.take(i - start + 1).last() == c);
        assert(digits_value(d.take(i - start + 1)) == value * 10 + digit);
        match value.checked_mul(10) {
            Some(v10) => match v10.checked_add(digit) {
                Some(v) => {
                    value = v;
                },
                None => {
                    proof {
                        lemma_rest_overflows(d, (i - start + 1) as int);
                    }
                    return None;
                },
            },
            None => {
                proof {
                    lemma_rest_overflows(d, (i - start + 1) as int);
                }
                return None;
            },
        }
        i = i + 1;
    }
    assert(d.take(n - start) =~= d);
    Some(value)
}

proof fn lemma_rest_overflows(d: Seq<char>, n: int)
    requires
        0 < n <= d.len(),
        digits_value(d.take(n)) > u64::MAX,
    ensures
        parse_u64_spec_digits(d) is None,
{
    if all_digits(d) {
        lemma_digits_value_monotone(d, n);
    }
}

/// `parse_u64_spec` of digits with the sign already taken off.
pub open spec fn parse_u64_spec_digits(d: Seq<char>) -> Option<u64> {
    if d.len() > 0 && all_digits(d) && digits_value(d) <= u64::MAX {
        Some(digits_value(d) as u64)
    } else {
        None
    }
}


proof fn lemma_decimal_digits(n: nat)
    ensures
        decimal_spec(n).len() > 0,
        all_digits(decimal_spec(n)),
        digits_value(decimal_spec(n)) == n,
        decimal_spec(n)[0] != '+',
    decreases n,
{
    let d = n % 10;
    assert((digit_char(d as int) as int) == ('0' as int) + d);
    assert(decimal_spec(n).last() == digit_char(d as int));
    if n < 10 {
        assert(decimal_spec(n).drop_last() =~= Seq::<char>::empty());
        assert(digits_value(Seq::<char>::empty()) == 0);
    } else {
        lemma_decimal_digits(n / 10);
        let s = decimal_spec(n / 10);
        assert(decimal_spec(n).drop_last() =~= s);
        assert(n == (n / 10) * 10 + d);
        assert forall|i: int| 0 <= i < decimal_spec(n).len() implies is_digit(
            #[trigger] decimal_spec(n)[i],
        ) by {
            if i < s.len() {
                assert(decimal_spec(n)[i] == s[i]);
            }
        }
    }
}

/// The decimal notation that paths carry reads back as the number it was made from.
pub proof fn law_decimal_reads_back(n: u64)
    ensures
        parse_u64_spec(decimal_spec(n as nat)) == Some(n),
{
    lemma_decimal_digits(n as nat);
}

/// What the client does with a response.
#[derive(Debug, PartialEq, Eq, Structural)]
pub enum SendStep {
    /// Wait this many seconds and send the request again.
    Retry { wait_secs: u64 },
    /// The token was refused.
    Unauthorized,
    /// GitHub answered with an error.
    Failed,
    /// The response is the answer.
    Done,
}

/// Seconds to wait before a retry: the `retry-after` header's value (2 where it is missing
/// or not a number), at most 60.
pub open spec fn retry_wait(retry_after: Option<Seq<char>>) -> u64 {
    let w = match retry_after {
        Some(v) => match parse_u64_spec(v) {
            Some(n) => n,
            None => 2,
        },
        None => 2,
    };
    if w < 60 {
        w
    } else {
        60
    }
}

/// The step after a response with `status` to attempt number `attempt` (from 0; three in
/// all): only a 429 is retried, and only on the first two attempts; a 401 is a refused
/// token; any other status outside 2xx is an error.
pub open spec fn send_step_spec(status: u16, attempt: u32, retry_after: Option<Seq<char>>) -> SendStep {
    if status == 429 && attempt < 2 {
        SendStep::Retry { wait_secs: retry_wait(retry_after) }
    } else if status == 401 {
        SendStep::Unauthorized
    } else if !(200 <= status && status <= 299) {
        SendStep::Failed
    } else {
        SendStep::Done
    }
}

/// Decides what to do with the response to a request: retry after a rate limit, report a
/// refused token or an error, or take the response.
pub fn send_step(status: u16, attempt: u32, retry_after: Option<&str>) -> (step: SendStep)
    ensures
        step == send_step_spec(
            status,
            attempt,
            match retry_after {
                Some(v) => Some(v@),
                None => None,
            },
        ),
{
    if status == 429 && attempt < 2 {
        let w = match retry_after {
            Some(v) => match parse_u64(v) {
                Some(n) => n,
                None => 2,
            },
            None => 2,
        };
        let wait_secs = if w < 60 {
            w
        } else {
            60
        };
        SendStep::Retry { wait_secs }
    } else if status == 401 {
        SendStep::Unauthorized
    } else if !(200 <= status && status <= 299) {
        SendStep::Failed
    } else {
        SendStep::Done
    }
}

/// The trimmed, non-empty pieces of a comma-separated list, in order.
pub open spec fn scopes_of(parts: Seq<Seq<char>>) -> Seq<Seq<char>>
    decreases parts.len(),
{
    if parts.len() == 0 {
        Seq::empty()
    } else if trim_spec(parts.last()).len() > 0 {
        scopes_of(parts.drop_last()).push(trim_spec(parts.last()))
    } else {
        scopes_of(parts.drop_last())
    }
}

/// The scopes of a token from its `x-oauth-scopes` header: the trimmed, non-empty items of
/// the comma-separated list; none where the header is missing.
pub fn parse_scopes(header: Option<&str>) -> (scopes: Vec<String>)
    ensures
        views(scopes@) == match header {
            Some(h) => scopes_of(split_spec(h@, ',')),
            None => Seq::empty(),
        },
{
    let mut out: Vec<String> = Vec::new();
    match header {
        Some(h) => {
            let parts = split(h, ',');
            let ghost ps = views(parts@);
            let n = parts.len();
            let mut i: usize = 0;
            assert(ps.take(0) =~= Seq::<Seq<char>>::empty());
            while i < n
                invariant
                    i <= n,
                    n == parts@.len(),
                    ps == views(parts@),
                    views(out@) == scopes_of(ps.take(i as int)),
                decreases n - i,
            {
                assert(ps.take(i + 1).drop_last() =~= ps.take(i as int));
                assert(ps.take(i + 1).last() == parts@[i as int]@);
                let t = trim(parts[i].as_str());
                if t.unicode_len() > 0 {
                    let ghost before = out@;
                    out.push(t);
                    assert(views(out@) =~= views(before).push(trim_spec(parts@[i as int]@)));
                }
                i = i + 1;
            }
            assert(ps.take(n as int) =~= ps);
        },
        None => {
            assert(views(out@) =~= Seq::<Seq<char>>::empty());
        },
    }
    out
}

/// `v.as_str().unwrap_or(default)`.
pub open spec fn str_or(v: JV, default: Seq<char>) -> Seq<char> {
    match v.as_str() {
        Some(s) => s,
        None => default,
    }
}

/// `v[k].as_str().unwrap_or(default)`, owned.
pub(crate) fn member_str_or(v: &Json, k: &str, default: &str) -> (s: String)
    ensures
        s@ == str_or(v@.at(k@), default@),
{
    match v.get(k) {
        Some(x) => match x.as_str() {
            Some(t) => t.clone(),
            None => default.to_owned(),
        },
        None => default.to_owned(),
    }
}

/// `v[k].as_str().unwrap_or_default()`, owned.
pub(crate) fn member_str(v: &Json, k: &str) -> (s: String)
    ensures
        s@ == str_or(v@.at(k@), Seq::empty()),
{
    match v.get(k) {
        Some(x) => match x.as_str() {
            Some(t) => t.clone(),
            None => String::new(),
        },
        None => String::new(),
    }
}

/// `v[k].as_str().map(String::from)`.
fn member_opt_str(v: &Json, k: &str) -> (s: Option<String>)
    ensures
        opt_view(s) == v@.at(k@).as_str(),
{
    match v.get(k) {
        Some(x) => match x.as_str() {
            Some(t) => Some(t.clone()),
            None => None,
        },
        None => None,
    }
}

/// `v[k].as_bool().unwrap_or(false)`.
fn member_flag(v: &Json, k: &str) -> (b: bool)
    ensures
        b == bool_or_false(v@.at(k@)),
{
    match v.get(k) {
        Some(x) => match x.as_bool() {
            Some(b) => b,
            None => false,
        },
        None => false,
    }
}

/// `v[k1][k2]`, `null` where either is missing.
fn member2<'a>(v: &'a Json, k1: &str, k2: &str) -> (r: Option<&'a Json>)
    ensures
        r is None <==> v@.at(k1@).get(k2@) is None,
        r matches Some(x) ==> v@.at(k1@).get(k2@) == Some(x@),
{
    match v.get(k1) {
        Some(x) => x.get(k2),
        None => None,
    }
}

/// A repository as the list endpoints describe it.
pub open spec fn repo_info_matches(info: RepoInfo, r: JV) -> bool {
    &&& info.full_name@ == str_or(r.at("full_name"@), Seq::empty())
    &&& info.owner@ == str_or(r.at("owner"@).at("login"@), Seq::empty())
    &&& info.name@ == str_or(r.at("name"@), Seq::empty())
    &&& info.private == bool_or_false(r.at("private"@))
    &&& info.admin == bool_or_false(r.at("permissions"@).at("admin"@))
    &&& info.archived == bool_or_false(r.at("archived"@))
    &&& info.default_branch@ == str_or(r.at("default_branch"@), "main"@)
    &&& opt_view(info.description) == r.at("description"@).as_str()
}

/// Reads a repository of a listing: missing strings are empty (the default branch `main`),
/// missing flags false.
pub fn repo_info_from_json(r: &Json) -> (info: RepoInfo)
    ensures
        repo_info_matches(info, r@),
{
    let owner = match member2(r, "owner", "login") {
        Some(x) => match x.as_str() {
            Some(t) => t.clone(),
            None => String::new(),
        },
        None => String::new(),
    };
    let admin = match member2(r, "permissions", "admin") {
        Some(x) => match x.as_bool() {
            Some(b) => b,
            None => false,
        },
        None => false,
    };
    RepoInfo {
        full_name: member_str(r, "full_name"),
        owner,
        name: member_str(r, "name"),
        private: member_flag(r, "private"),
        admin,
        archived: member_flag(r, "archived"),
        default_branch: member_str_or(r, "default_branch", "main"),
        description: member_opt_str(r, "description"),
    }
}

/// Reads a team of an organization: missing strings are empty.
pub fn team_info_from_json(t: &Json) -> (info: TeamInfo)
    ensures
        info.slug@ == str_or(t@.at("slug"@), Seq::empty()),
        info.name@ == str_or(t@.at("name"@), Seq::empty()),
{
    TeamInfo { slug: member_str(t, "slug"), name: member_str(t, "name") }
}

/// The `full_name`s of the repositories of a page that have one, in order.
pub open spec fn full_names_of(a: Seq<JV>) -> Seq<Seq<char>>
    decreases a.len(),
{
    if a.len() == 0 {
        Seq::empty()
    } else {
        match a.last().at("full_name"@).as_str() {
            Some(s) => full_names_of(a.drop_last()).push(s),
            None => full_names_of(a.drop_last()),
        }
    }
}

/// The full names of the repositories of a team's page, skipping entries without one.
pub fn team_repo_names(batch: &Vec<Json>) -> (names: Vec<String>)
    ensures
        views(names@) == full_names_of(elems_view(batch@)),
{
    let ghost all = elems_view(batch@);
    let mut out: Vec<String> = Vec::new();
    let n = batch.len();
    let mut i: usize = 0;
    assert(all.take(0) =~= Seq::<JV>::empty());
    while i < n
        invariant
            i <= n,
            n == batch@.len(),
            all == elems_view(batch@),
            views(out@) == full_names_of(all.take(i as int)),
        decreases n - i,
    {
        assert(all.take(i + 1).drop_last() =~= all.take(i as int));
        assert(all.take(i + 1).last() == batch@[i as int]@);
        match member_opt_str(&batch[i], "full_name") {
            Some(s) => {
                let ghost before = out@;
                out.push(s);
                assert(views(out@) =~= views(before).push(
                    batch@[i as int]@.at("full_name"@).as_str()->Some_0,
                ));
            },
            None => {},
        }
        i = i + 1;
    }
    assert(all.take(n as int) =~= all);
    out
}


/// The names of the branches of a page (empty where one has none), in order.
pub open spec fn branch_names_of(a: Seq<JV>) -> Seq<Seq<char>> {
    a.map_values(|b: JV| str_or(b.at("name"@), Seq::empty()))
}

/// The names of the protected branches of a page, in order.
pub open spec fn protected_names_of(a: Seq<JV>) -> Seq<Seq<char>>
    decreases a.len(),
{
    if a.len() == 0 {
        Seq::empty()
    } else if bool_or_false(a.last().at("protected"@)) {
        protected_names_of(a.drop_last()).push(str_or(a.last().at("name"@), Seq::empty()))
    } else {
        protected_names_of(a.drop_last())
    }
}

/// The branch names of a page of branches, and those of the protected ones.
pub fn branch_names(batch: &Vec<Json>) -> (r: (Vec<String>, Vec<String>))
    ensures
        views(r.0@) == branch_names_of(elems_view(batch@)),
        views(r.1@) == protected_names_of(elems_view(batch@)),
{
    let ghost all = elems_view(batch@);
    let mut names: Vec<String> = Vec::new();
    let mut protected: Vec<String> = Vec::new();
    let n = batch.len();
    let mut i: usize = 0;
    assert(all.take(0) =~= Seq::<JV>::empty());
    while i < n
        invariant
            i <= n,
            n == batch@.len(),
            all == elems_view(batch@),
            views(names@) == branch_names_of(all.take(i as int)),
            views(protected@) == protected_names_of(all.take(i as int)),
        decreases n - i,
    {
        assert(all.take(i + 1).drop_last() =~= all.take(i as int));
        assert(all.take(i + 1).last() == batch@[i as int]@);
        let name = member_str(&batch[i], "name");
        if member_flag(&batch[i], "protected") {
            let ghost before = protected@;
            protected.push(name.clone());
            assert(views(protected@) =~= views(before).push(name@));
        }
        let ghost before_names = names@;
        names.push(name);
        assert(views(names@) =~= views(before_names).push(
            str_or(batch@[i as int]@.at("name"@), Seq::empty()),
        ));
        assert(branch_names_of(all.take(i + 1)) =~= branch_names_of(all.take(i as int)).push(
            str_or(batch@[i as int]@.at("name"@), Seq::empty()),
        ));
        i = i + 1;
    }
    assert(all.take(n as int) =~= all);
    (names, protected)
}

/// The id of a ruleset of a listing, where it is a number; entries without one are skipped.
pub fn ruleset_id(summary: &Json) -> (id: Option<u64>)
    ensures
        id == summary@.at("id"@).as_u64(),
{
    match summary.get("id") {
        Some(x) => x.as_u64(),
        None => None,
    }
}

/// A ruleset read in full: its name (empty where missing), its target (`branch` where
/// missing) and its normalized payload.
pub fn ruleset_from_full(id: u64, full: Json) -> (r: RulesetSummary)
    ensures
        r.id == id,
        r.name@ == str_or(full@.at("name"@), Seq::empty()),
        r.target@ == str_or(full@.at("target"@), "branch"@),
        r.payload@ == normalize_spec(full@),
{
    let name = member_str(&full, "name");
    let target = member_str_or(&full, "target", "branch");
    RulesetSummary { id, name, target, payload: normalize_ruleset(full) }
}

/// A branch protected only by rulesets has no classic protection: its protection answers
/// 404, which the snapshot skips.
pub fn protection_is_absent(status: u16) -> (absent: bool)
    ensures
        absent == (status == 404),
{
    status == 404
}

/// Rulesets that the plan of a private repository does not offer answer 403 (or 404); the
/// snapshot then has no rulesets instead of failing.
pub fn rulesets_unavailable(status: u16) -> (unavailable: bool)
    ensures
        unavailable == (status == 403 || status == 404),
{
    status == 403 || status == 404
}

/// The snapshot of `owner/name` from the repository's description and the parts read
/// separately: missing flags are false, missing strings absent, the default branch `main`.
pub fn snapshot_from_parts(
    owner: &str,
    name: &str,
    repo: &Json,
    branches: Vec<String>,
    rulesets: Vec<RulesetSummary>,
    branch_protections: Vec<BranchProtection>,
) -> (s: RepoSettingsSnapshot)
    ensures
        s.repo@ == owner@ + "/"@ + name@,
        s.default_branch@ == str_or(repo@.at("default_branch"@), "main"@),
        s.branches == branches,
        s.features == (Features {
            has_wiki: bool_or_false(repo@.at("has_wiki"@)),
            has_issues: bool_or_false(repo@.at("has_issues"@)),
            has_projects: bool_or_false(repo@.at("has_projects"@)),
            has_discussions: bool_or_false(repo@.at("has_discussions"@)),
            allow_forking: bool_or_false(repo@.at("allow_forking"@)),
        }),
        s.pull_requests.allow_merge_commit == bool_or_false(repo@.at("allow_merge_commit"@)),
        opt_view(s.pull_requests.merge_commit_title) == repo@.at("merge_commit_title"@).as_str(),
        opt_view(s.pull_requests.merge_commit_message) == repo@.at(
            "merge_commit_message"@,
        ).as_str(),
        s.pull_requests.allow_squash_merge == bool_or_false(repo@.at("allow_squash_merge"@)),
        opt_view(s.pull_requests.squash_merge_commit_title) == repo@.at(
            "squash_merge_commit_title"@,
        ).as_str(),
        opt_view(s.pull_requests.squash_merge_commit_message) == repo@.at(
            "squash_merge_commit_message"@,
        ).as_str(),
        s.pull_requests.allow_rebase_merge == bool_or_false(repo@.at("allow_rebase_merge"@)),
        s.pull_requests.allow_update_branch == bool_or_false(repo@.at("allow_update_branch"@)),
        s.pull_requests.allow_auto_merge == bool_or_false(repo@.at("allow_auto_merge"@)),
        s.pull_requests.delete_branch_on_merge == bool_or_false(
            repo@.at("delete_branch_on_merge"@),
        ),
        s.others == (OtherSettings {
            web_commit_signoff_required: bool_or_false(repo@.at("web_commit_signoff_required"@)),
        }),
        s.rulesets == rulesets,
        s.branch_protections == branch_protections,
{
    RepoSettingsSnapshot {
        repo: concat3(owner, "/", name),
        default_branch: member_str_or(repo, "default_branch", "main"),
        branches,
        features: Features {
            has_wiki: member_flag(repo, "has_wiki"),
            has_issues: member_flag(repo, "has_issues"),
            has_projects: member_flag(repo, "has_projects"),
            has_discussions: member_flag(repo, "has_discussions"),
            allow_forking: member_flag(repo, "allow_forking"),
        },
        pull_requests: PullRequestSettings {
            allow_merge_commit: member_flag(repo, "allow_merge_commit"),
            merge_commit_title: member_opt_str(repo, "merge_commit_title"),
            merge_commit_message: member_opt_str(repo, "merge_commit_message"),
            allow_squash_merge: member_flag(repo, "allow_squash_merge"),
            squash_merge_commit_title: member_opt_str(repo, "squash_merge_commit_title"),
            squash_merge_commit_message: member_opt_str(repo, "squash_merge_commit_message"),
            allow_rebase_merge: member_flag(repo, "allow_rebase_merge"),
            allow_update_branch: member_flag(repo, "allow_update_branch"),
            allow_auto_merge: member_flag(repo, "allow_auto_merge"),
            delete_branch_on_merge: member_flag(repo, "delete_branch_on_merge"),
        },
        others: OtherSettings {
            web_commit_signoff_required: member_flag(repo, "web_commit_signoff_required"),
        },
        rulesets,
        branch_protections,
    }
}

/// Path of a repository.
pub open spec fn repo_path_spec(owner: Seq<char>, name: Seq<char>) -> Seq<char> {
    "/repos/"@ + owner + "/"@ + name
}

/// `/repos/{owner}/{name}`.
pub fn repo_path(owner: &str, name: &str) -> (p: String)
    ensures
        p@ == repo_path_spec(owner@, name@),
{
    concat4("/repos/", owner, "/", name)
}

/// `/repos/{owner}/{name}/rulesets`, where rulesets are created.
pub fn rulesets_path(owner: &str, name: &str) -> (p: String)
    ensures
        p@ == repo_path_spec(owner@, name@) + "/rulesets"@,
{
    let mut p = repo_path(owner, name);
    p.append("/rulesets");
    p
}

/// `/repos/{owner}/{name}/rulesets/{id}`.
pub fn ruleset_path(owner: &str, name: &str, id: u64) -> (p: String)
    ensures
        p@ == repo_path_spec(owner@, name@) + "/rulesets/"@ + decimal_spec(id as nat),
{
    let mut p = repo_path(owner, name);
    p.append("/rulesets/");
    let d = decimal(id);
    p.append(d.as_str());
    p
}

/// `/repos/{owner}/{name}/branches/{branch}/protection`.
pub fn protection_path(owner: &str, name: &str, branch: &str) -> (p: String)
    ensures
        p@ == repo_path_spec(owner@, name@) + "/branches/"@ + branch@ + "/protection"@,
{
    let mut p = repo_path(owner, name);
    p.append("/branches/");
    p.append(branch);
    p.append("/protection");
    p
}

/// Page `page` of the branches of a repository.
pub fn branches_page_path(owner: &str, name: &str, page: u64) -> (p: String)
    ensures
        p@ == repo_path_spec(owner@, name@) + "/branches?per_page=100&page="@ + decimal_spec(
            page as nat,
        ),
{
    let mut p = repo_path(owner, name);
    p.append("/branches?per_page=100&page=");
    let d = decimal(page);
    p.append(d.as_str());
    p
}

/// Page `page` of the rulesets of a repository, without those of its organization.
pub fn rulesets_page_path(owner: &str, name: &str, page: u64) -> (p: String)
    ensures
        p@ == repo_path_spec(owner@, name@) + "/rulesets?per_page=100&page="@ + decimal_spec(
            page as nat,
        ) + "&includes_parents=false"@,
{
    let mut p = repo_path(owner, name);
    p.append("/rulesets?per_page=100&page=");
    let d = decimal(page);
    p.append(d.as_str());
    p.append("&includes_parents=false");
    p
}

/// Page `page` of the repositories of the user, as owner, collaborator or member of an
/// organization, by full name.
pub fn user_repos_page_path(page: u64) -> (p: String)
    ensures
        p@ == "/user/repos?per_page=100&page="@ + decimal_spec(page as nat)
            + "&affiliation=owner,collaborator,organization_member&sort=full_name"@,
{
    let d = decimal(page);
    concat3(
        "/user/repos?per_page=100&page=",
        d.as_str(),
        "&affiliation=owner,collaborator,organization_member&sort=full_name",
    )
}

/// Page `page` of the teams of an organization.
pub fn org_teams_page_path(org: &str, page: u64) -> (p: String)
    ensures
        p@ == "/orgs/"@ + org@ + "/teams?per_page=100&page="@ + decimal_spec(page as nat),
{
    let mut p = concat3("/orgs/", org, "/teams?per_page=100&page=");
    let d = decimal(page);
    p.append(d.as_str());
    p
}

/// Page `page` of the repositories of a team.
pub fn team_repos_page_path(org: &str, team_slug: &str, page: u64) -> (p: String)
    ensures
        p@ == "/orgs/"@ + org@ + "/teams/"@ + team_slug@ + "/repos?per_page=100&page="@
            + decimal_spec(page as nat),
{
    let mut p = concat4("/orgs/", org, "/teams/", team_slug);
    p.append("/repos?per_page=100&page=");
    let d = decimal(page);
    p.append(d.as_str());
    p
}

/// Page `page` of the app installations of an organization.
pub fn org_installations_page_path(org: &str, page: u64) -> (p: String)
    ensures
        p@ == "/orgs/"@ + org@ + "/installations?per_page=100&page="@ + decimal_spec(page as nat),
{
    let mut p = concat3("/orgs/", org, "/installations?per_page=100&page=");
    let d = decimal(page);
    p.append(d.as_str());
    p
}

/// The numbers under `field` of the entries of a page that have one, in order.
pub open spec fn field_ids_of(a: Seq<JV>, field: Seq<char>) -> Seq<u64>
    decreases a.len(),
{
    if a.len() == 0 {
        Seq::empty()
    } else {
        match a.last().at(field).as_u64() {
            Some(id) => field_ids_of(a.drop_last(), field).push(id),
            None => field_ids_of(a.drop_last(), field),
        }
    }
}

/// The ids under `field` of the entries of a page (teams by `id`, installations by
/// `app_id`), skipping entries without a numeric one.
pub fn field_ids(batch: &Vec<Json>, field: &str) -> (ids: Vec<u64>)
    ensures
        ids@ == field_ids_of(elems_view(batch@), field@),
{
    let ghost all = elems_view(batch@);
    let mut out: Vec<u64> = Vec::new();
    let n = batch.len();
    let mut i: usize = 0;
    assert(all.take(0) =~= Seq::<JV>::empty());
    while i < n
        invariant
            i <= n,
            n == batch@.len(),
            all == elems_view(batch@),
            out@ == field_ids_of(all.take(i as int), field@),
        decreases n - i,
    {
        assert(all.take(i + 1).drop_last() =~= all.take(i as int));
        assert(all.take(i + 1).last() == batch@[i as int]@);
        let id = match batch[i].get(field) {
            Some(x) => x.as_u64(),
            None => None,
        };
        match id {
            Some(v) => {
                out.push(v);
            },
            None => {},
        }
        i = i + 1;
    }
    assert(all.take(n as int) =~= all);
    out
}

/// The installations of a page of an organization's app installations; none where the
/// answer holds no list of them.
pub fn installations_of(resp: &Json) -> (r: Vec<Json>)
    ensures
        elems_view(r@) == match resp@.at("installations"@) {
            JV::Array(a) => a,
            _ => Seq::empty(),
        },
{
    match resp.get("installations") {
        Some(Json::Array(v)) => {
            let mut out: Vec<Json> = Vec::new();
            let n = v.len();
            let mut i: usize = 0;
            while i < n
                invariant
                    i <= n,
                    n == v@.len(),
                    elems_view(out@) == elems_view(v@).take(i as int),
                decreases n - i,
            {
                let ghost before = out@;
                out.push(v[i].deep_clone());
                assert(elems_view(out@) =~= elems_view(before).push(v@[i as int]@));
                assert(elems_view(v@).take(i + 1) =~= elems_view(v@).take(i as int).push(
                    v@[i as int]@,
                ));
                i = i + 1;
            }
            assert(elems_view(v@).take(n as int) =~= elems_view(v@));
            out
        },
        _ => {
            let out: Vec<Json> = Vec::new();
            assert(elems_view(out@) =~= Seq::<JV>::empty());
            out
        },
    }
}

/// The message for an answer of `what` that is not a list.
pub open spec fn unexpected_answer_spec(what: Seq<char>, detail: Seq<char>) -> Seq<char> {
    "respuesta inesperada de "@ + what + ": "@ + detail
}

/// `respuesta inesperada de {what}: {detail}`.
pub fn unexpected_answer(what: &str, detail: &str) -> (m: String)
    ensures
        m@ == unexpected_answer_spec(what@, detail@),
{
    concat4("respuesta inesperada de ", what, ": ", detail)
}

/// A write that GitHub answers with 204 has no body; it reads as `null`.
pub fn answer_is_empty(status: u16) -> (empty: bool)
    ensures
        empty == (status == 204),
{
    status == 204
}

/// The entries of a listing read page by page: each page is appended, and the listing is
/// complete after the first page shorter than `PAGE_SIZE`.
pub struct Listing {
    items: Vec<Json>,
    page: u64,
    done: bool,
}

impl Listing {
    /// The entries read so far.
    pub closed spec fn items(&self) -> Seq<JV> {
        elems_view(self.items@)
    }

    /// The page to ask for next.
    pub closed spec fn current_page(&self) -> u64 {
        self.page
    }

    /// Whether the listing is complete.
    pub closed spec fn complete(&self) -> bool {
        self.done
    }

    /// A listing before its first page.
    pub fn new() -> (l: Listing)
        ensures
            l.items() == Seq::<JV>::empty(),
            l.current_page() == 1,
            !l.complete(),
    {
        let l = Listing { items: Vec::new(), page: 1, done: false };
        assert(l.items() =~= Seq::<JV>::empty());
        l
    }

    /// The page to ask for next.
    pub fn page(&self) -> (p: u64)
        ensures
            p == self.current_page(),
    {
        self.page
    }

    /// Whether the listing is complete.
    pub fn is_done(&self) -> (b: bool)
        ensures
            b == self.complete(),
    {
        self.done
    }

    /// Appends a page; a short page (or the last page that can be named) completes the
    /// listing, else the next page is asked for.
    pub fn take_page(&mut self, batch: Vec<Json>)
        requires
            !old(self).complete(),
        ensures
            final(self).items() == old(self).items() + elems_view(batch@),
            final(self).complete() == (batch@.len() < PAGE_SIZE || old(self).current_page()
                == u64::MAX),
            !final(self).complete() ==> final(self).current_page() == old(self).current_page() + 1,
    {
        let ghost before = self.items();
        let n = batch.len();
        let mut rest = batch;
        let ghost all = elems_view(rest@);
        self.items.append(&mut rest);
        assert(elems_view(self.items@) =~= before + all);
        if is_last_page(n) || self.page == u64::MAX {
            self.done = true;
        } else {
            self.page = self.page + 1;
        }
    }

    /// The entries of the complete listing.
    pub fn into_items(self) -> (v: Vec<Json>)
        ensures
            elems_view(v@) == self.items(),
    {
        self.items
    }
}

} // verus!
