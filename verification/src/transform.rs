use vstd::prelude::*;
use crate::json::{
    Json, JsonMap, JsonNumber, JV, elems_view, members_get, members_insert, members_remove,
    members_from, pairs_view, lemma_json_view, lemma_elems_view, has_key, keys_sorted,
    lemma_key_index, lemma_remove_keeps_absent, lemma_remove_sorted, lemma_insert_props,
    lemma_insert_twice, lemma_insert_get_other, lemma_members_from_get,
};

verus! {

broadcast use {lemma_json_view, lemma_elems_view};

/// The members after removing each key of `ks` in turn.
pub open spec fn remove_keys(m: Seq<(Seq<char>, JV)>, ks: Seq<Seq<char>>) -> Seq<(Seq<char>, JV)>
    decreases ks.len(),
{
    if ks.len() == 0 {
        m
    } else {
        members_remove(remove_keys(m, ks.drop_last()), ks.last())
    }
}

/// Fields that GitHub adds to a ruleset and that the write endpoint does not take.
pub open spec fn ruleset_server_fields() -> Seq<Seq<char>> {
    seq![
        "id"@,
        "node_id"@,
        "source"@,
        "source_type"@,
        "created_at"@,
        "updated_at"@,
        "_links"@,
        "current_user_can_bypass"@,
    ]
}

/// A rule the write endpoint accepts: any rule but one whose `type` is `copilot_code_review`
/// (a preview rule that reads return and writes reject).
pub open spec fn write_supported(rule: JV) -> bool {
    match rule.get("type"@) {
        Some(JV::Str(t)) => t != "copilot_code_review"@,
        _ => true,
    }
}

/// The rules that the write endpoint accepts, in their order.
pub open spec fn keep_rules(s: Seq<JV>) -> Seq<JV>
    decreases s.len(),
{
    if s.len() == 0 {
        Seq::empty()
    } else if write_supported(s.last()) {
        keep_rules(s.drop_last()).push(s.last())
    } else {
        keep_rules(s.drop_last())
    }
}

/// A ruleset as the write endpoint takes it: without server fields, and, where `rules` is an
/// array, without the rules that writes reject. A value that is not an object is unchanged.
pub open spec fn normalize_spec(v: JV) -> JV {
    match v {
        JV::Object(m) => {
            let m1 = remove_keys(m, ruleset_server_fields());
            match members_get(m1, "rules"@) {
                Some(JV::Array(rules)) => JV::Object(
                    members_insert(m1, "rules"@, JV::Array(keep_rules(rules))),
                ),
                _ => JV::Object(m1),
            }
        },
        _ => v,
    }
}

fn is_write_supported(rule: &Json) -> (r: bool)
    ensures
        r == write_supported(rule@),
{
    match rule.get("type") {
        Some(t) => match t.as_str() {
            Some(s) => !crate::text::str_eq(s.as_str(), "copilot_code_review"),
            None => true,
        },
        None => true,
    }
}

fn filter_rules(rules: &Vec<Json>) -> (r: Vec<Json>)
    ensures
        elems_view(r@) == keep_rules(elems_view(rules@)),
{
    let ghost all = elems_view(rules@);
    let mut out: Vec<Json> = Vec::new();
    let n = rules.len();
    let mut i: usize = 0;
    assert(all.take(0) =~= Seq::<JV>::empty());
    while i < n
        invariant
            i <= n,
            n == rules@.len(),
            all == elems_view(rules@),
            elems_view(out@) == keep_rules(all.take(i as int)),
        decreases n - i,
    {
        assert(all.take(i + 1).drop_last() =~= all.take(i as int));
        assert(all.take(i + 1).last() == rules@[i as int]@);
        if is_write_supported(&rules[i]) {
            let ghost before = out@;
            out.push(rules[i].deep_clone());
            assert(elems_view(out@) =~= elems_view(before).push(rules@[i as int]@));
        }
        i = i + 1;
    }
    assert(all.take(n as int) =~= all);
    out
}

/// Strips server-side fields from a ruleset so it can be compared and re-sent in POST/PUT,
/// and drops the rule types that the write endpoint rejects.
pub fn normalize_ruleset(v: Json) -> (r: Json)
    ensures
        r@ == normalize_spec(v@),
{
    match v {
        Json::Object(mut m) => {
            let ghost m0 = m@;
            let ghost ks = ruleset_server_fields();
            assert(ks.take(0) =~= Seq::<Seq<char>>::empty());
            let keys = [
                "id",
                "node_id",
                "source",
                "source_type",
                "created_at",
                "updated_at",
                "_links",
                "current_user_can_bypass",
            ];
            let mut i: usize = 0;
            while i < 8
                invariant
                    i <= 8,
                    ks == ruleset_server_fields(),
                    forall|j: int| 0 <= j < 8 ==> (#[trigger] keys@[j])@ == ks[j],
                    m@ == remove_keys(m0, ks.take(i as int)),
                decreases 8 - i,
            {
                assert(ks.take(i + 1).drop_last() =~= ks.take(i as int));
                m.remove(keys[i]);
                i = i + 1;
            }
            assert(ks.take(8) =~= ks);
            let filtered = match m.get("rules") {
                Some(rules) => match rules.as_array() {
                    Some(a) => Some(filter_rules(a)),
                    None => None,
                },
                None => None,
            };
            match filtered {
                Some(f) => {
                    m.insert("rules".to_owned(), Json::Array(f));
                },
                None => {},
            }
            Json::Object(m)
        },
        other => other,
    }
}


/// Fields of a webhook's `config` that are secret or server state.
pub open spec fn webhook_volatile_fields() -> Seq<Seq<char>> {
    seq!["secret"@, "created_at"@, "updated_at"@, "last_response"@]
}

/// A webhook's `config` for comparison and re-sending: the `config` member (an empty object
/// where there is none) without its secret and server-state fields.
pub open spec fn webhook_config_spec(get: JV) -> JV {
    let config = match get.get("config"@) {
        Some(c) => c,
        None => JV::Object(Seq::empty()),
    };
    match config {
        JV::Object(m) => JV::Object(remove_keys(m, webhook_volatile_fields())),
        other => other,
    }
}

/// Normalizes a webhook's `config` object for stable comparison and re-sending.
pub fn webhook_get_to_config(get: &Json) -> (r: Json)
    ensures
        r@ == webhook_config_spec(get@),
{
    let config = match get.get("config") {
        Some(c) => c.deep_clone(),
        None => Json::Object(JsonMap::new()),
    };
    match config {
        Json::Object(mut m) => {
            let ghost m0 = m@;
            let ghost ks = webhook_volatile_fields();
            assert(ks.take(0) =~= Seq::<Seq<char>>::empty());
            let keys = ["secret", "created_at", "updated_at", "last_response"];
            let mut i: usize = 0;
            while i < 4
                invariant
                    i <= 4,
                    ks == webhook_volatile_fields(),
                    forall|j: int| 0 <= j < 4 ==> (#[trigger] keys@[j])@ == ks[j],
                    m@ == remove_keys(m0, ks.take(i as int)),
                decreases 4 - i,
            {
                assert(ks.take(i + 1).drop_last() =~= ks.take(i as int));
                m.remove(keys[i]);
                i = i + 1;
            }
            assert(ks.take(4) =~= ks);
            Json::Object(m)
        },
        other => other,
    }
}

/// `get.pointer("/<field>/enabled").and_then(as_bool).unwrap_or(false)`.
pub open spec fn enabled_flag(get: JV, field: Seq<char>) -> bool {
    match get.get(field) {
        Some(x) => match x.get("enabled"@) {
            Some(JV::Bool(b)) => b,
            _ => false,
        },
        None => false,
    }
}

/// The member `k` where it is present and not `null`.
pub open spec fn present(v: JV, k: Seq<char>) -> Option<JV> {
    match v.get(k) {
        Some(x) => if x.is_null() {
            None
        } else {
            Some(x)
        },
        None => None,
    }
}

/// `x.as_bool().unwrap_or(false)`.
pub open spec fn bool_or_false(x: JV) -> bool {
    match x.as_bool() {
        Some(b) => b,
        None => false,
    }
}

/// The string members `field` of the elements of `a`, skipping elements without one.
pub open spec fn names_of(a: Seq<JV>, field: Seq<char>) -> Seq<JV>
    decreases a.len(),
{
    if a.len() == 0 {
        Seq::empty()
    } else {
        match a.last().at(field).as_str() {
            Some(s) => names_of(a.drop_last(), field).push(JV::Str(s)),
            None => names_of(a.drop_last(), field),
        }
    }
}

/// The names of a list of users, teams or apps: an array of the string members `field`,
/// empty where `v` is not an array.
pub open spec fn logins_spec(v: JV, field: Seq<char>) -> JV {
    match v {
        JV::Array(a) => JV::Array(names_of(a, field)),
        _ => JV::Array(Seq::empty()),
    }
}

/// Users, teams and apps of a restriction, by login and slug.
pub open spec fn actors_put(x: JV) -> JV {
    JV::Object(
        members_from(
            seq![
                ("users"@, logins_spec(x.at("users"@), "login"@)),
                ("teams"@, logins_spec(x.at("teams"@), "slug"@)),
                ("apps"@, logins_spec(x.at("apps"@), "slug"@)),
            ],
        ),
    )
}

/// The required status checks in the PUT form.
pub open spec fn status_checks_put(rsc: JV) -> JV {
    JV::Object(
        members_from(
            seq![
                ("strict"@, JV::Bool(bool_or_false(rsc.at("strict"@)))),
                ("contexts"@, match rsc.get("contexts"@) {
                    Some(c) => c,
                    None => JV::Array(Seq::empty()),
                }),
                ("checks"@, match rsc.get("checks"@) {
                    Some(c) => c,
                    None => JV::Array(Seq::empty()),
                }),
            ],
        ),
    )
}

/// The required pull request reviews in the PUT form.
pub open spec fn reviews_put(rev: JV) -> JV {
    let count = match rev.at("required_approving_review_count"@).as_u64() {
        Some(n) => n,
        None => 0,
    };
    let r0 = members_from(
        seq![
            ("dismiss_stale_reviews"@, JV::Bool(bool_or_false(rev.at("dismiss_stale_reviews"@)))),
            (
                "require_code_owner_reviews"@,
                JV::Bool(bool_or_false(rev.at("require_code_owner_reviews"@))),
            ),
            ("required_approving_review_count"@, JV::Number(JsonNumber::PosInt(count))),
            (
                "require_last_push_approval"@,
                JV::Bool(bool_or_false(rev.at("require_last_push_approval"@))),
            ),
        ],
    );
    let r1 = match present(rev, "dismissal_restrictions"@) {
        Some(dr) => members_insert(r0, "dismissal_restrictions"@, actors_put(dr)),
        None => r0,
    };
    let r2 = match present(rev, "bypass_pull_request_allowances"@) {
        Some(bpa) => members_insert(r1, "bypass_pull_request_allowances"@, actors_put(bpa)),
        None => r1,
    };
    JV::Object(r2)
}

/// The body of a PUT of branch protection with everything off.
pub open spec fn protection_base(get: JV) -> Seq<(Seq<char>, JV)> {
    members_from(
        seq![
            ("required_status_checks"@, JV::Null),
            ("enforce_admins"@, JV::Bool(enabled_flag(get, "enforce_admins"@))),
            ("required_pull_request_reviews"@, JV::Null),
            ("restrictions"@, JV::Null),
            ("required_linear_history"@, JV::Bool(enabled_flag(get, "required_linear_history"@))),
            ("allow_force_pushes"@, JV::Bool(enabled_flag(get, "allow_force_pushes"@))),
            ("allow_deletions"@, JV::Bool(enabled_flag(get, "allow_deletions"@))),
            (
                "required_conversation_resolution"@,
                JV::Bool(enabled_flag(get, "required_conversation_resolution"@)),
            ),
            ("lock_branch"@, JV::Bool(enabled_flag(get, "lock_branch"@))),
            ("allow_fork_syncing"@, JV::Bool(enabled_flag(get, "allow_fork_syncing"@))),
        ],
    )
}

/// The body of a PUT of branch protection made from the GET response.
pub open spec fn protection_put_spec(get: JV) -> JV {
    let p0 = protection_base(get);
    let p1 = match present(get, "required_status_checks"@) {
        Some(rsc) => members_insert(p0, "required_status_checks"@, status_checks_put(rsc)),
        None => p0,
    };
    let p2 = match present(get, "required_pull_request_reviews"@) {
        Some(rev) => members_insert(p1, "required_pull_request_reviews"@, reviews_put(rev)),
        None => p1,
    };
    let p3 = match present(get, "restrictions"@) {
        Some(res) => members_insert(p2, "restrictions"@, actors_put(res)),
        None => p2,
    };
    JV::Object(p3)
}


/// `get.pointer("/<field>/enabled").and_then(as_bool).unwrap_or(false)`.
fn enabled(get: &Json, field: &str) -> (b: bool)
    ensures
        b == enabled_flag(get@, field@),
{
    match get.get(field) {
        Some(x) => match x.get("enabled") {
            Some(e) => match e.as_bool() {
                Some(b) => b,
                None => false,
            },
            None => false,
        },
        None => false,
    }
}

/// The member `k` of `v` where it is present and not `null`.
fn present_member<'a>(v: &'a Json, k: &str) -> (r: Option<&'a Json>)
    ensures
        r is None <==> present(v@, k@) is None,
        r matches Some(x) ==> present(v@, k@) == Some(x@),
{
    match v.get(k) {
        Some(x) => if x.is_null() {
            None
        } else {
            Some(x)
        },
        None => None,
    }
}

/// `x[k].as_bool().unwrap_or(false)`.
fn bool_member(x: &Json, k: &str) -> (b: bool)
    ensures
        b == bool_or_false(x@.at(k@)),
{
    match x.get(k) {
        Some(y) => match y.as_bool() {
            Some(b) => b,
            None => false,
        },
        None => false,
    }
}

/// `x.get(k).cloned().unwrap_or_else(|| json!([]))`.
fn member_or_empty_array(x: &Json, k: &str) -> (r: Json)
    ensures
        r@ == match x@.get(k@) {
            Some(c) => c,
            None => JV::Array(Seq::empty()),
        },
{
    match x.get(k) {
        Some(c) => c.deep_clone(),
        None => {
            let r = Json::Array(Vec::new());
            assert(r@->Array_0 =~= Seq::<JV>::empty());
            r
        },
    }
}

/// The names in `x[k]`, by their member `field`.
fn logins(x: &Json, k: &str, field: &str) -> (r: Json)
    ensures
        r@ == logins_spec(x@.at(k@), field@),
{
    let mut out: Vec<Json> = Vec::new();
    match x.get(k) {
        Some(v) => match v.as_array() {
            Some(a) => {
                let ghost all = elems_view(a@);
                let n = a.len();
                let mut i: usize = 0;
                assert(all.take(0) =~= Seq::<JV>::empty());
                while i < n
                    invariant
                        i <= n,
                        n == a@.len(),
                        all == elems_view(a@),
                        elems_view(out@) == names_of(all.take(i as int), field@),
                    decreases n - i,
                {
                    assert(all.take(i + 1).drop_last() =~= all.take(i as int));
                    assert(all.take(i + 1).last() == a@[i as int]@);
                    let name = match a[i].get(field) {
                        Some(f) => f.as_str(),
                        None => None,
                    };
                    match name {
                        Some(s) => {
                            let ghost before = out@;
                            out.push(Json::from_str(s.as_str()));
                            assert(elems_view(out@) =~= elems_view(before).push(JV::Str(s@)));
                        },
                        None => {},
                    }
                    i = i + 1;
                }
                assert(all.take(n as int) =~= all);
            },
            None => {},
        },
        None => {},
    }
    let r = Json::Array(out);
    assert(r@->Array_0 =~= logins_spec(x@.at(k@), field@)->Array_0);
    r
}

/// Users, teams and apps of a restriction, by login and slug.
fn actors(x: &Json) -> (r: Json)
    ensures
        r@ == actors_put(x@),
{
    let mut members: Vec<(String, Json)> = Vec::new();
    members.push(("users".to_owned(), logins(x, "users", "login")));
    members.push(("teams".to_owned(), logins(x, "teams", "slug")));
    members.push(("apps".to_owned(), logins(x, "apps", "slug")));
    assert(pairs_view(members@) =~= seq![
        ("users"@, logins_spec(x@.at("users"@), "login"@)),
        ("teams"@, logins_spec(x@.at("teams"@), "slug"@)),
        ("apps"@, logins_spec(x@.at("apps"@), "slug"@)),
    ]);
    Json::object(members)
}

/// The required status checks in the PUT form.
fn status_checks(rsc: &Json) -> (r: Json)
    ensures
        r@ == status_checks_put(rsc@),
{
    let mut members: Vec<(String, Json)> = Vec::new();
    members.push(("strict".to_owned(), Json::Bool(bool_member(rsc, "strict"))));
    members.push(("contexts".to_owned(), member_or_empty_array(rsc, "contexts")));
    members.push(("checks".to_owned(), member_or_empty_array(rsc, "checks")));
    assert(pairs_view(members@) =~= seq![
        ("strict"@, JV::Bool(bool_or_false(rsc@.at("strict"@)))),
        ("contexts"@, match rsc@.get("contexts"@) {
            Some(c) => c,
            None => JV::Array(Seq::empty()),
        }),
        ("checks"@, match rsc@.get("checks"@) {
            Some(c) => c,
            None => JV::Array(Seq::empty()),
        }),
    ]);
    Json::object(members)
}

/// The required pull request reviews in the PUT form.
fn reviews(rev: &Json) -> (r: Json)
    ensures
        r@ == reviews_put(rev@),
{
    let count = match rev.get("required_approving_review_count") {
        Some(c) => match c.as_u64() {
            Some(n) => n,
            None => 0,
        },
        None => 0,
    };
    let mut members: Vec<(String, Json)> = Vec::new();
    members.push(
        ("dismiss_stale_reviews".to_owned(), Json::Bool(bool_member(rev, "dismiss_stale_reviews"))),
    );
    members.push(
        (
            "require_code_owner_reviews".to_owned(),
            Json::Bool(bool_member(rev, "require_code_owner_reviews")),
        ),
    );
    members.push(
        ("required_approving_review_count".to_owned(), Json::Number(JsonNumber::PosInt(count))),
    );
    members.push(
        (
            "require_last_push_approval".to_owned(),
            Json::Bool(bool_member(rev, "require_last_push_approval")),
        ),
    );
    assert(pairs_view(members@) =~= seq![
        ("dismiss_stale_reviews"@, JV::Bool(bool_or_false(rev@.at("dismiss_stale_reviews"@)))),
        (
            "require_code_owner_reviews"@,
            JV::Bool(bool_or_false(rev@.at("require_code_owner_reviews"@))),
        ),
        ("required_approving_review_count"@, JV::Number(JsonNumber::PosInt(count))),
        (
            "require_last_push_approval"@,
            JV::Bool(bool_or_false(rev@.at("require_last_push_approval"@))),
        ),
    ]);
    let r = Json::object(members);
    match r {
        Json::Object(mut m) => {
            match present_member(rev, "dismissal_restrictions") {
                Some(dr) => m.insert("dismissal_restrictions".to_owned(), actors(dr)),
                None => {},
            }
            match present_member(rev, "bypass_pull_request_allowances") {
                Some(bpa) => m.insert("bypass_pull_request_allowances".to_owned(), actors(bpa)),
                None => {},
            }
            Json::Object(m)
        },
        other => other,
    }
}

/// Converts the GET branch protection response to the body required by PUT.
pub fn protection_get_to_put(get: &Json) -> (put: Json)
    ensures
        put@ == protection_put_spec(get@),
{
    let mut members: Vec<(String, Json)> = Vec::new();
    members.push(("required_status_checks".to_owned(), Json::Null));
    members.push(("enforce_admins".to_owned(), Json::Bool(enabled(get, "enforce_admins"))));
    members.push(("required_pull_request_reviews".to_owned(), Json::Null));
    members.push(("restrictions".to_owned(), Json::Null));
    members.push(
        ("required_linear_history".to_owned(), Json::Bool(enabled(get, "required_linear_history"))),
    );
    members.push(("allow_force_pushes".to_owned(), Json::Bool(enabled(get, "allow_force_pushes"))));
    members.push(("allow_deletions".to_owned(), Json::Bool(enabled(get, "allow_deletions"))));
    members.push(
        (
            "required_conversation_resolution".to_owned(),
            Json::Bool(enabled(get, "required_conversation_resolution")),
        ),
    );
    members.push(("lock_branch".to_owned(), Json::Bool(enabled(get, "lock_branch"))));
    members.push(("allow_fork_syncing".to_owned(), Json::Bool(enabled(get, "allow_fork_syncing"))));
    assert(pairs_view(members@) =~= seq![
        ("required_status_checks"@, JV::Null),
        ("enforce_admins"@, JV::Bool(enabled_flag(get@, "enforce_admins"@))),
        ("required_pull_request_reviews"@, JV::Null),
        ("restrictions"@, JV::Null),
        ("required_linear_history"@, JV::Bool(enabled_flag(get@, "required_linear_history"@))),
        ("allow_force_pushes"@, JV::Bool(enabled_flag(get@, "allow_force_pushes"@))),
        ("allow_deletions"@, JV::Bool(enabled_flag(get@, "allow_deletions"@))),
        (
            "required_conversation_resolution"@,
            JV::Bool(enabled_flag(get@, "required_conversation_resolution"@)),
        ),
        ("lock_branch"@, JV::Bool(enabled_flag(get@, "lock_branch"@))),
        ("allow_fork_syncing"@, JV::Bool(enabled_flag(get@, "allow_fork_syncing"@))),
    ]);
    let put = Json::object(members);
    match put {
        Json::Object(mut m) => {
            match present_member(get, "required_status_checks") {
                Some(rsc) => m.insert("required_status_checks".to_owned(), status_checks(rsc)),
                None => {},
            }
            match present_member(get, "required_pull_request_reviews") {
                Some(rev) => m.insert("required_pull_request_reviews".to_owned(), reviews(rev)),
                None => {},
            }
            match present_member(get, "restrictions") {
                Some(res) => m.insert("restrictions".to_owned(), actors(res)),
                None => {},
            }
            Json::Object(m)
        },
        other => other,
    }
}


proof fn lemma_remove_keys(m: Seq<(Seq<char>, JV)>, ks: Seq<Seq<char>>)
    requires
        keys_sorted(m),
    ensures
        keys_sorted(remove_keys(m, ks)),
        forall|j: int| 0 <= j < ks.len() ==> !has_key(remove_keys(m, ks), #[trigger] ks[j]),
        forall|k: Seq<char>| !has_key(m, k) ==> !has_key(remove_keys(m, ks), k),
    decreases ks.len(),
{
    if ks.len() > 0 {
        let prev = remove_keys(m, ks.drop_last());
        lemma_remove_keys(m, ks.drop_last());
        lemma_remove_sorted(prev, ks.last());
        assert forall|k: Seq<char>| !has_key(prev, k) implies !has_key(
            members_remove(prev, ks.last()),
            k,
        ) by {
            lemma_remove_keeps_absent(prev, ks.last(), k);
        }
        assert forall|j: int| 0 <= j < ks.len() implies !has_key(
            remove_keys(m, ks),
            #[trigger] ks[j],
        ) by {
            if j < ks.len() - 1 {
                assert(ks.drop_last()[j] == ks[j]);
            }
        }
    }
}

proof fn lemma_remove_keys_absent(m: Seq<(Seq<char>, JV)>, ks: Seq<Seq<char>>)
    requires
        forall|j: int| 0 <= j < ks.len() ==> !has_key(m, #[trigger] ks[j]),
    ensures
        remove_keys(m, ks) == m,
    decreases ks.len(),
{
    if ks.len() > 0 {
        assert forall|j: int| 0 <= j < ks.len() - 1 implies !has_key(
            m,
            #[trigger] ks.drop_last()[j],
        ) by {
            assert(ks.drop_last()[j] == ks[j]);
        }
        lemma_remove_keys_absent(m, ks.drop_last());
        lemma_key_index(m, ks.last());
    }
}

proof fn lemma_keep_rules(s: Seq<JV>)
    ensures
        keep_rules(keep_rules(s)) == keep_rules(s),
        forall|i: int| 0 <= i < keep_rules(s).len() ==> write_supported(#[trigger] keep_rules(s)[i]),
    decreases s.len(),
{
    if s.len() > 0 {
        lemma_keep_rules(s.drop_last());
        let k = keep_rules(s.drop_last());
        if write_supported(s.last()) {
            assert(k.push(s.last()).drop_last() =~= k);
        }
    }
}

/// The keys that normalization strips are not "rules".
proof fn lemma_rules_not_stripped()
    ensures
        forall|j: int|
            0 <= j < ruleset_server_fields().len() ==> ruleset_server_fields()[j] != "rules"@,
{
    reveal_strlit("rules");
    reveal_strlit("id");
    reveal_strlit("node_id");
    reveal_strlit("source");
    reveal_strlit("source_type");
    reveal_strlit("created_at");
    reveal_strlit("updated_at");
    reveal_strlit("_links");
    reveal_strlit("current_user_can_bypass");
    let f = ruleset_server_fields();
    assert(f.len() == 8);
    assert(f[0].len() != "rules"@.len());
    assert(f[1].len() != "rules"@.len());
    assert(f[2][0] != "rules"@[0]);
    assert(f[3].len() != "rules"@.len());
    assert(f[4].len() != "rules"@.len());
    assert(f[5].len() != "rules"@.len());
    assert(f[6].len() != "rules"@.len());
    assert(f[7].len() != "rules"@.len());
}

/// A normalized ruleset carries none of the server fields, and, where it has an array of
/// rules, only rules that the write endpoint accepts.
pub proof fn law_normalized_ruleset_is_writable(v: JV)
    requires
        v is Object ==> keys_sorted(v->Object_0),
    ensures
        forall|j: int|
            0 <= j < ruleset_server_fields().len() ==> (v is Object ==> normalize_spec(v).get(
                #[trigger] ruleset_server_fields()[j],
            ) is None),
        match normalize_spec(v).get("rules"@) {
            Some(JV::Array(rules)) => v is Object ==> forall|i: int|
                0 <= i < rules.len() ==> write_supported(#[trigger] rules[i]),
            _ => true,
        },
{
    if let JV::Object(m) = v {
        let f = ruleset_server_fields();
        let m1 = remove_keys(m, f);
        lemma_remove_keys(m, f);
        lemma_rules_not_stripped();
        match members_get(m1, "rules"@) {
            Some(JV::Array(rules)) => {
                lemma_insert_props(m1, "rules"@, JV::Array(keep_rules(rules)));
                lemma_keep_rules(rules);
                assert forall|j: int| 0 <= j < f.len() implies normalize_spec(v).get(
                    #[trigger] f[j],
                ) is None by {
                    lemma_key_index(
                        members_insert(m1, "rules"@, JV::Array(keep_rules(rules))),
                        f[j],
                    );
                }
            },
            _ => {
                assert forall|j: int| 0 <= j < f.len() implies normalize_spec(v).get(
                    #[trigger] f[j],
                ) is None by {
                    lemma_key_index(m1, f[j]);
                }
            },
        }
    }
}

/// Normalizing a ruleset twice gives what normalizing it once gives.
pub proof fn law_normalize_idempotent(v: JV)
    requires
        v is Object ==> keys_sorted(v->Object_0),
    ensures
        normalize_spec(normalize_spec(v)) == normalize_spec(v),
{
    if let JV::Object(m) = v {
        let f = ruleset_server_fields();
        let m1 = remove_keys(m, f);
        lemma_remove_keys(m, f);
        lemma_rules_not_stripped();
        match members_get(m1, "rules"@) {
            Some(JV::Array(rules)) => {
                let kept = JV::Array(keep_rules(rules));
                let m2 = members_insert(m1, "rules"@, kept);
                lemma_insert_props(m1, "rules"@, kept);
                assert forall|j: int| 0 <= j < f.len() implies !has_key(m2, #[trigger] f[j]) by {}
                lemma_remove_keys_absent(m2, f);
                lemma_keep_rules(rules);
                lemma_insert_twice(m1, "rules"@, kept);
            },
            _ => {
                lemma_remove_keys_absent(m1, f);
            },
        }
    }
}

/// A normalized webhook configuration never carries the secret.
pub proof fn law_webhook_config_has_no_secret(get: JV)
    requires
        match get.get("config"@) {
            Some(JV::Object(m)) => keys_sorted(m),
            _ => true,
        },
    ensures
        webhook_config_spec(get).get("secret"@) is None,
{
    if let Some(JV::Object(m)) = get.get("config"@) {
        lemma_remove_keys(m, webhook_volatile_fields());
        assert(webhook_volatile_fields()[0] == "secret"@);
        lemma_key_index(remove_keys(m, webhook_volatile_fields()), "secret"@);
    } else if get.get("config"@) is None {
        lemma_key_index(remove_keys(Seq::empty(), webhook_volatile_fields()), "secret"@);
        lemma_remove_keys(Seq::empty(), webhook_volatile_fields());
        assert(webhook_volatile_fields()[0] == "secret"@);
    }
}

/// The flags of a branch protection's PUT body that its GET response holds as `{"enabled": ..}`.
pub open spec fn protection_flags() -> Seq<Seq<char>> {
    seq![
        "enforce_admins"@,
        "required_linear_history"@,
        "allow_force_pushes"@,
        "allow_deletions"@,
        "required_conversation_resolution"@,
        "lock_branch"@,
        "allow_fork_syncing"@,
    ]
}

/// Whether the GET response has the flag `f` on: `f.enabled` is the boolean `true`.
pub open spec fn flag_on(get: JV, f: Seq<char>) -> bool {
    get.at(f).at("enabled"@) == JV::Bool(true)
}

proof fn lemma_enabled_flag(get: JV, f: Seq<char>)
    ensures
        enabled_flag(get, f) == flag_on(get, f),
{
}

/// Each flag of the PUT body is the flag of the same name in the GET response: `true` exactly
/// where that one is enabled, whatever the other flags and sections hold.
pub proof fn law_protection_flags_follow_get(get: JV)
    ensures
        forall|i: int|
            0 <= i < protection_flags().len() ==> protection_put_spec(get).get(
                #[trigger] protection_flags()[i],
            ) == Some(JV::Bool(flag_on(get, protection_flags()[i]))),
{
    reveal_strlit("required_status_checks");
    reveal_strlit("enforce_admins");
    reveal_strlit("required_pull_request_reviews");
    reveal_strlit("restrictions");
    reveal_strlit("required_linear_history");
    reveal_strlit("allow_force_pushes");
    reveal_strlit("allow_deletions");
    reveal_strlit("required_conversation_resolution");
    reveal_strlit("lock_branch");
    reveal_strlit("allow_fork_syncing");
    let pairs = seq![
        ("required_status_checks"@, JV::Null),
        ("enforce_admins"@, JV::Bool(enabled_flag(get, "enforce_admins"@))),
        ("required_pull_request_reviews"@, JV::Null),
        ("restrictions"@, JV::Null),
        ("required_linear_history"@, JV::Bool(enabled_flag(get, "required_linear_history"@))),
        ("allow_force_pushes"@, JV::Bool(enabled_flag(get, "allow_force_pushes"@))),
        ("allow_deletions"@, JV::Bool(enabled_flag(get, "allow_deletions"@))),
        (
            "required_conversation_resolution"@,
            JV::Bool(enabled_flag(get, "required_conversation_resolution"@)),
        ),
        ("lock_branch"@, JV::Bool(enabled_flag(get, "lock_branch"@))),
        ("allow_fork_syncing"@, JV::Bool(enabled_flag(get, "allow_fork_syncing"@))),
    ];
    assert(protection_base(get) == members_from(pairs));
    assert("allow_force_pushes"@[9] != "allow_fork_syncing"@[9]);
    let flags = protection_flags();
    let at_pair = seq![1int, 4, 5, 6, 7, 8, 9];
    assert forall|i: int| 0 <= i < flags.len() implies protection_put_spec(get).get(
        #[trigger] flags[i],
    ) == Some(JV::Bool(flag_on(get, flags[i]))) by {
        let j = at_pair[i];
        assert(pairs[j].0 == flags[i]);
        assert forall|k: int| j < k < pairs.len() implies (#[trigger] pairs[k]).0 != pairs[j].0 by {
            if pairs[k].0.len() == pairs[j].0.len() {
                assert(pairs[k].0[9] != pairs[j].0[9]);
            }
        }
        lemma_members_from_get(pairs, j);
        lemma_enabled_flag(get, flags[i]);
        let p0 = protection_base(get);
        assert(flags[i] != "required_status_checks"@ && flags[i] != "required_pull_request_reviews"@
            && flags[i] != "restrictions"@) by {
            assert(flags[i].len() != 22 && flags[i].len() != 29 && flags[i].len() != 12);
        }
        let p1 = match present(get, "required_status_checks"@) {
            Some(rsc) => members_insert(p0, "required_status_checks"@, status_checks_put(rsc)),
            None => p0,
        };
        if let Some(rsc) = present(get, "required_status_checks"@) {
            lemma_insert_get_other(p0, "required_status_checks"@, status_checks_put(rsc), flags[i]);
        }
        let p2 = match present(get, "required_pull_request_reviews"@) {
            Some(rev) => members_insert(p1, "required_pull_request_reviews"@, reviews_put(rev)),
            None => p1,
        };
        if let Some(rev) = present(get, "required_pull_request_reviews"@) {
            lemma_insert_get_other(p1, "required_pull_request_reviews"@, reviews_put(rev), flags[i]);
        }
        if let Some(res) = present(get, "restrictions"@) {
            lemma_insert_get_other(p2, "restrictions"@, actors_put(res), flags[i]);
        }
    }
}

} // verus!
