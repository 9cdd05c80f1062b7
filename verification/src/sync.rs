use vstd::prelude::*;
use crate::diff::{
    default_branch_changes, diff_spec, find_ruleset, missing_branch_note, ruleset_change,
    ruleset_key, rulesets_view, same_ruleset,
};
use crate::json::{
    Json, JsonMap, JV, elems_view, insert_pos, keys_of, members_get, members_insert, opt_view,
    lemma_insert_props, lemma_json_view, lemma_elems_view,
};
use crate::github::{
    protection_path, repo_path, repo_path_spec, ruleset_path, rulesets_path,
};
use crate::model::{ChangeV, RulesetV, RepoSettingsSnapshot, SettingChange, SnapshotV};
use crate::search::{first_match, lemma_first_match_props};
use crate::text::{
    chars_lt, concat3, decimal_spec, is_prefix, join, join_spec, starts_with, str_eq, strip_prefix, views,
};

verus! {

broadcast use {lemma_json_view, lemma_elems_view};

/// A call to make against the target repository.
#[derive(Debug)]
pub enum SyncAction {
    /// PATCH of the repository with the given settings.
    PatchRepo(Json),
    /// POST of a new ruleset.
    CreateRuleset(Json),
    /// PUT of the ruleset with this id.
    UpdateRuleset { id: u64, payload: Json },
    /// PUT of the protection of a branch.
    PutBranchProtection { branch: String, config: Json },
}

/// Value of `SyncAction`.
pub enum ActionV {
    PatchRepo(JV),
    CreateRuleset(JV),
    UpdateRuleset { id: u64, payload: JV },
    PutBranchProtection { branch: Seq<char>, config: JV },
}

impl View for SyncAction {
    type V = ActionV;

    open spec fn view(&self) -> ActionV {
        match self {
            SyncAction::PatchRepo(b) => ActionV::PatchRepo(b@),
            SyncAction::CreateRuleset(p) => ActionV::CreateRuleset(p@),
            SyncAction::UpdateRuleset { id, payload } => ActionV::UpdateRuleset {
                id: *id,
                payload: payload@,
            },
            SyncAction::PutBranchProtection { branch, config } => ActionV::PutBranchProtection {
                branch: branch@,
                config: config@,
            },
        }
    }
}

/// The values of a list of actions.
pub open spec fn actions_view(v: Seq<SyncAction>) -> Seq<ActionV> {
    v.map_values(|a: SyncAction| a@)
}

/// The keys of an object, none for any other value.
pub open spec fn object_keys(v: JV) -> Seq<Seq<char>> {
    match v {
        JV::Object(m) => keys_of(m),
        _ => Seq::empty(),
    }
}

/// `p["name"].as_str().unwrap_or("?")`.
pub open spec fn name_or_unknown(p: JV) -> Seq<char> {
    match p.at("name"@).as_str() {
        Some(n) => n,
        None => "?"@,
    }
}

/// What an action does, for the progress display.
pub open spec fn describe_spec(a: ActionV) -> Seq<char> {
    match a {
        ActionV::PatchRepo(body) => "Actualizar settings del repo ("@ + join_spec(
            object_keys(body),
            ", "@,
        ) + ")"@,
        ActionV::CreateRuleset(p) => "Crear ruleset «"@ + name_or_unknown(p) + "»"@,
        ActionV::UpdateRuleset { payload, .. } => "Actualizar ruleset «"@ + name_or_unknown(
            payload,
        ) + "»"@,
        ActionV::PutBranchProtection { branch, .. } => "Aplicar branch protection a «"@ + branch
            + "»"@,
    }
}

fn name_or_question_mark(p: &Json) -> (s: String)
    ensures
        s@ == name_or_unknown(p@),
{
    match p.get("name") {
        Some(n) => match n.as_str() {
            Some(s) => s.clone(),
            None => "?".to_owned(),
        },
        None => "?".to_owned(),
    }
}

impl SyncAction {
    /// What the action does, for the progress display.
    pub fn describe(&self) -> (s: String)
        ensures
            s@ == describe_spec(self@),
    {
        match self {
            SyncAction::PatchRepo(body) => {
                let mut fields: Vec<String> = Vec::new();
                match body {
                    Json::Object(m) => {
                        let n = m.len();
                        let mut i: usize = 0;
                        while i < n
                            invariant
                                i <= n,
                                n == m@.len(),
                                views(fields@) == keys_of(m@).take(i as int),
                            decreases n - i,
                        {
                            let ghost before = fields@;
                            let k = m.key_at(i).clone();
                            assert(k@ == m@[i as int].0);
                            fields.push(k);
                            assert(views(fields@) =~= views(before).push(m@[i as int].0));
                            assert(keys_of(m@).take(i + 1) =~= keys_of(m@).take(i as int).push(
                                m@[i as int].0,
                            ));
                            i = i + 1;
                        }
                        assert(keys_of(m@).take(n as int) =~= keys_of(m@));
                    },
                    _ => {
                        assert(views(fields@) =~= Seq::<Seq<char>>::empty());
                    },
                }
                let joined = join(&fields, ", ");
                concat3("Actualizar settings del repo (", joined.as_str(), ")")
            },
            SyncAction::CreateRuleset(p) => {
                let name = name_or_question_mark(p);
                concat3("Crear ruleset «", name.as_str(), "»")
            },
            SyncAction::UpdateRuleset { payload, .. } => {
                let name = name_or_question_mark(payload);
                concat3("Actualizar ruleset «", name.as_str(), "»")
            },
            SyncAction::PutBranchProtection { branch, .. } => {
                concat3("Aplicar branch protection a «", branch.as_str(), "»")
            },
        }
    }
}


/// The repository field that a change of a plain setting sets, if it is one.
pub open spec fn patch_field(key: Seq<char>) -> Option<Seq<char>> {
    if key == "default_branch"@ {
        Some("default_branch"@)
    } else if is_prefix("features."@, key) {
        Some(key.skip("features."@.len() as int))
    } else if is_prefix("pull_requests."@, key) {
        Some(key.skip("pull_requests."@.len() as int))
    } else if is_prefix("others."@, key) {
        Some(key.skip("others."@.len() as int))
    } else {
        None
    }
}

/// The fields to patch and the other actions planned so far.
pub struct PlanState {
    pub patch: Seq<(Seq<char>, JV)>,
    pub actions: Seq<ActionV>,
}

/// The action for a ruleset change: an update of the target's first ruleset with the
/// payload's name and target (`branch` where the payload names none), else a create.
pub open spec fn ruleset_action(desired: JV, name: Seq<char>, ts: Seq<RulesetV>) -> ActionV {
    let target = match desired.at("target"@).as_str() {
        Some(t) => t,
        None => "branch"@,
    };
    let i = first_match(ts, same_ruleset(name, target));
    if i >= 0 {
        ActionV::UpdateRuleset { id: ts[i].id, payload: desired }
    } else {
        ActionV::CreateRuleset(desired)
    }
}

/// One change planned: plain settings go into the patch, rulesets and branch protections
/// become actions; a change that is not applicable, a ruleset without a name, and an
/// unknown key add nothing.
pub open spec fn plan_step(st: PlanState, c: ChangeV, ts: Seq<RulesetV>) -> PlanState {
    if !c.applicable {
        st
    } else {
        match patch_field(c.key) {
            Some(f) => PlanState { patch: members_insert(st.patch, f, c.desired), ..st },
            None => if is_prefix("ruleset."@, c.key) {
                match c.desired.at("name"@).as_str() {
                    Some(name) => PlanState {
                        actions: st.actions.push(ruleset_action(c.desired, name, ts)),
                        ..st
                    },
                    None => st,
                }
            } else if is_prefix("branch_protection."@, c.key) {
                PlanState {
                    actions: st.actions.push(
                        ActionV::PutBranchProtection {
                            branch: c.key.skip("branch_protection."@.len() as int),
                            config: c.desired,
                        },
                    ),
                    ..st
                }
            } else {
                st
            },
        }
    }
}

/// The changes planned in order.
pub open spec fn plan_state(cs: Seq<ChangeV>, ts: Seq<RulesetV>) -> PlanState
    decreases cs.len(),
{
    if cs.len() == 0 {
        PlanState { patch: Seq::empty(), actions: Seq::empty() }
    } else {
        plan_step(plan_state(cs.drop_last(), ts), cs.last(), ts)
    }
}

/// The actions for the selected changes: one patch of all plain settings first, where there
/// are any, then the ruleset and branch protection actions in the order of the changes.
pub open spec fn plan_spec(cs: Seq<ChangeV>, target: SnapshotV) -> Seq<ActionV> {
    let st = plan_state(cs, target.rulesets);
    if st.patch.len() == 0 {
        st.actions
    } else {
        seq![ActionV::PatchRepo(JV::Object(st.patch))] + st.actions
    }
}

/// The field of a plain setting's key.
fn patch_field_of(key: &str) -> (r: Option<String>)
    ensures
        r is None <==> patch_field(key@) is None,
        r matches Some(f) ==> patch_field(key@) == Some(f@),
{
    if str_eq(key, "default_branch") {
        return Some("default_branch".to_owned());
    }
    match strip_prefix(key, "features.") {
        Some(f) => {
            return Some(f);
        },
        None => {},
    }
    match strip_prefix(key, "pull_requests.") {
        Some(f) => {
            return Some(f);
        },
        None => {},
    }
    match strip_prefix(key, "others.") {
        Some(f) => {
            return Some(f);
        },
        None => {},
    }
    None
}

/// Turns the selected changes into API actions against the target repository. Changes that
/// are not applicable are skipped; ruleset changes are resolved by the payload's name and
/// target against the target's current rulesets.
pub fn plan_actions(changes: &[SettingChange], target: &RepoSettingsSnapshot) -> (actions: Vec<
    SyncAction,
>)
    ensures
        actions_view(actions@) == plan_spec(crate::model::changes_view(changes@), target@),
{
    let ghost cs = crate::model::changes_view(changes@);
    let ghost ts = target@.rulesets;
    let mut patch = JsonMap::new();
    let mut actions: Vec<SyncAction> = Vec::new();
    let n = changes.len();
    let mut i: usize = 0;
    assert(cs.take(0) =~= Seq::<ChangeV>::empty());
    while i < n
        invariant
            i <= n,
            n == changes@.len(),
            cs == crate::model::changes_view(changes@),
            ts == target@.rulesets,
            ts == rulesets_view(target.rulesets@),
            patch@ == plan_state(cs.take(i as int), ts).patch,
            actions_view(actions@) == plan_state(cs.take(i as int), ts).actions,
        decreases n - i,
    {
        let c = &changes[i];
        assert(cs.take(i + 1).drop_last() =~= cs.take(i as int));
        assert(cs.take(i + 1).last() == c@);
        let ghost before = actions@;
        if c.applicable {
            match patch_field_of(c.key.as_str()) {
                Some(f) => {
                    patch.insert(f, c.desired.deep_clone());
                },
                None => {
                    if starts_with(c.key.as_str(), "ruleset.") {
                        let name = match c.desired.get("name") {
                            Some(x) => x.as_str(),
                            None => None,
                        };
                        match name {
                            Some(name) => {
                                let rs_target = match c.desired.get("target") {
                                    Some(x) => match x.as_str() {
                                        Some(t) => t.clone(),
                                        None => "branch".to_owned(),
                                    },
                                    None => "branch".to_owned(),
                                };
                                match find_ruleset(
                                    &target.rulesets,
                                    name.as_str(),
                                    rs_target.as_str(),
                                ) {
                                    Some(j) => {
                                        actions.push(
                                            SyncAction::UpdateRuleset {
                                                id: target.rulesets[j].id,
                                                payload: c.desired.deep_clone(),
                                            },
                                        );
                                    },
                                    None => {
                                        actions.push(
                                            SyncAction::CreateRuleset(c.desired.deep_clone()),
                                        );
                                    },
                                }
                                assert(actions_view(actions@) =~= actions_view(before).push(
                                    ruleset_action(c.desired@, name@, ts),
                                ));
                            },
                            None => {},
                        }
                    } else {
                        match strip_prefix(c.key.as_str(), "branch_protection.") {
                            Some(branch) => {
                                actions.push(
                                    SyncAction::PutBranchProtection {
                                        branch,
                                        config: c.desired.deep_clone(),
                                    },
                                );
                                assert(actions_view(actions@) =~= actions_view(before).push(
                                    ActionV::PutBranchProtection {
                                        branch: c.key@.skip("branch_protection."@.len() as int),
                                        config: c.desired@,
                                    },
                                ));
                            },
                            None => {},
                        }
                    }
                },
            }
        }
        i = i + 1;
    }
    assert(cs.take(n as int) =~= cs);
    if !patch.is_empty() {
        let ghost rest = actions@;
        actions.insert(0, SyncAction::PatchRepo(Json::Object(patch)));
        assert(actions_view(actions@) =~= seq![ActionV::PatchRepo(JV::Object(plan_state(cs, ts).patch))]
            + actions_view(rest));
    }
    actions
}


/// Whether a change is applicable.
pub open spec fn is_applicable() -> spec_fn(ChangeV) -> bool {
    |c: ChangeV| c.applicable
}

proof fn lemma_plan_state_filter(cs: Seq<ChangeV>, ts: Seq<RulesetV>)
    ensures
        plan_state(cs, ts) == plan_state(cs.filter(is_applicable()), ts),
    decreases cs.len(),
{
    reveal(Seq::filter);
    if cs.len() > 0 {
        lemma_plan_state_filter(cs.drop_last(), ts);
        let f = cs.drop_last().filter(is_applicable());
        if cs.last().applicable {
            assert(cs.filter(is_applicable()) == f.push(cs.last()));
            assert(f.push(cs.last()).drop_last() =~= f);
        } else {
            assert(cs.filter(is_applicable()) == f);
        }
    }
}

/// Changes that are not applicable are skipped: planning all changes gives the same actions
/// as planning only the applicable ones.
pub proof fn law_plan_ignores_non_applicable(cs: Seq<ChangeV>, target: SnapshotV)
    ensures
        plan_spec(cs, target) == plan_spec(cs.filter(is_applicable()), target),
{
    lemma_plan_state_filter(cs, target.rulesets);
}

proof fn lemma_plan_actions_have_no_patch(cs: Seq<ChangeV>, ts: Seq<RulesetV>)
    ensures
        forall|i: int|
            0 <= i < plan_state(cs, ts).actions.len() ==> !(plan_state(cs, ts).actions[i] is PatchRepo),
    decreases cs.len(),
{
    if cs.len() > 0 {
        lemma_plan_actions_have_no_patch(cs.drop_last(), ts);
    }
}

/// All plain settings go into one patch of the repository, which comes before every other
/// action: no action but the first is a patch.
pub proof fn law_plan_single_patch_first(cs: Seq<ChangeV>, target: SnapshotV)
    ensures
        forall|i: int|
            1 <= i < plan_spec(cs, target).len() ==> !(plan_spec(cs, target)[i] is PatchRepo),
{
    lemma_plan_actions_have_no_patch(cs, target.rulesets);
}

/// Some applicable change among `cs` desires `v`.
pub open spec fn desired_by(cs: Seq<ChangeV>, v: JV) -> bool {
    exists|j: int| 0 <= j < cs.len() && cs[j].applicable && cs[j].desired == v
}

/// The values an action writes: the value of each field of a patch, a ruleset's payload, a
/// branch's protection.
pub open spec fn written_values(a: ActionV) -> Seq<JV> {
    match a {
        ActionV::PatchRepo(JV::Object(m)) => m.map_values(|e: (Seq<char>, JV)| e.1),
        ActionV::PatchRepo(v) => seq![v],
        ActionV::CreateRuleset(p) => seq![p],
        ActionV::UpdateRuleset { payload, .. } => seq![payload],
        ActionV::PutBranchProtection { config, .. } => seq![config],
    }
}

proof fn lemma_insert_members(m: Seq<(Seq<char>, JV)>, k: Seq<char>, v: JV, i: int)
    requires
        0 <= i < members_insert(m, k, v).len(),
    ensures
        members_insert(m, k, v)[i] == (k, v) || exists|j: int|
            0 <= j < m.len() && m[j] == members_insert(m, k, v)[i],
{
    let p = |e: (Seq<char>, JV)| !chars_lt(e.0, k);
    lemma_first_match_props(m, p);
    let pos = insert_pos(m, k);
    let r = members_insert(m, k, v);
    if pos < 0 {
        if i < m.len() {
            assert(r[i] == m[i]);
        }
    } else if m[pos].0 == k {
        if i != pos {
            assert(r[i] == m[i]);
        }
    } else {
        if i < pos {
            assert(r[i] == m[i]);
        } else if i > pos {
            assert(r[i] == m[i - 1]);
        }
    }
}

/// What the plan state carries so far comes from the applicable changes.
spec fn state_from_changes(st: PlanState, cs: Seq<ChangeV>) -> bool {
    &&& forall|i: int| 0 <= i < st.patch.len() ==> desired_by(cs, #[trigger] st.patch[i].1)
    &&& forall|i: int, k: int|
        0 <= i < st.actions.len() && 0 <= k < written_values(st.actions[i]).len()
            ==> desired_by(cs, #[trigger] written_values(st.actions[i])[k])
}

proof fn lemma_plan_state_from_changes(cs: Seq<ChangeV>, ts: Seq<RulesetV>)
    ensures
        state_from_changes(plan_state(cs, ts), cs),
    decreases cs.len(),
{
    if cs.len() > 0 {
        let prev = cs.drop_last();
        lemma_plan_state_from_changes(prev, ts);
        let st0 = plan_state(prev, ts);
        let st = plan_state(cs, ts);
        let c = cs.last();
        assert forall|v: JV| desired_by(prev, v) implies desired_by(cs, v) by {
            let j = choose|j: int| 0 <= j < prev.len() && prev[j].applicable && prev[j].desired == v;
            assert(cs[j] == prev[j]);
        }
        if c.applicable {
            assert(desired_by(cs, c.desired)) by {
                assert(cs[cs.len() - 1] == c);
            }
        }
        assert forall|i: int| 0 <= i < st.patch.len() implies desired_by(cs, #[trigger] st.patch[i].1) by {
            if c.applicable && patch_field(c.key) is Some {
                let f = patch_field(c.key)->Some_0;
                lemma_insert_members(st0.patch, f, c.desired, i);
                if st.patch[i] != (f, c.desired) {
                    let j = choose|j: int| 0 <= j < st0.patch.len() && st0.patch[j] == st.patch[i];
                    assert(desired_by(prev, st0.patch[j].1));
                }
            } else {
                assert(desired_by(prev, st0.patch[i].1));
            }
        }
        assert forall|i: int, k: int|
            0 <= i < st.actions.len() && 0 <= k < written_values(st.actions[i]).len()
            implies desired_by(cs, #[trigger] written_values(st.actions[i])[k]) by {
            if i < st0.actions.len() {
                assert(st.actions[i] == st0.actions[i]);
                assert(desired_by(prev, written_values(st0.actions[i])[k]));
            }
        }
    }
}

/// Nothing is written that was not chosen: every value that the planned actions write is the
/// desired value of an applicable change among those given.
pub proof fn law_plan_writes_only_chosen_values(cs: Seq<ChangeV>, target: SnapshotV)
    ensures
        forall|i: int, k: int|
            0 <= i < plan_spec(cs, target).len() && 0 <= k < written_values(
                plan_spec(cs, target)[i],
            ).len() ==> desired_by(cs, #[trigger] written_values(plan_spec(cs, target)[i])[k]),
{
    let st = plan_state(cs, target.rulesets);
    lemma_plan_state_from_changes(cs, target.rulesets);
    let plan = plan_spec(cs, target);
    assert forall|i: int, k: int|
        0 <= i < plan.len() && 0 <= k < written_values(plan[i]).len() implies desired_by(
        cs,
        #[trigger] written_values(plan[i])[k],
    ) by {
        if st.patch.len() == 0 {
            assert(plan[i] == st.actions[i]);
        } else if i == 0 {
            assert(written_values(plan[0])[k] == st.patch[k].1);
        } else {
            assert(plan[i] == st.actions[i - 1]);
        }
    }
}

proof fn lemma_plan_skips_first(c: ChangeV, rest: Seq<ChangeV>, ts: Seq<RulesetV>)
    requires
        !c.applicable,
    ensures
        plan_state(seq![c] + rest, ts) == plan_state(rest, ts),
    decreases rest.len(),
{
    let s = seq![c] + rest;
    if rest.len() == 0 {
        assert(s.drop_last() =~= Seq::<ChangeV>::empty());
        assert(s.last() == c);
        assert(plan_state(s, ts) == plan_step(plan_state(s.drop_last(), ts), c, ts));
    } else {
        lemma_plan_skips_first(c, rest.drop_last(), ts);
        assert(s.drop_last() =~= seq![c] + rest.drop_last());
        assert(s.last() == rest.last());
        assert(plan_state(s, ts) == plan_step(plan_state(s.drop_last(), ts), s.last(), ts));
        assert(plan_state(rest, ts) == plan_step(plan_state(rest.drop_last(), ts), rest.last(), ts));
    }
}

/// A default branch that the target lacks is reported, as not applicable, and not synced:
/// the audit's first change is that of the default branch, with a note, and the sync of all
/// the audit's changes plans the same actions as without it.
pub proof fn law_missing_default_branch_is_not_synced(r: SnapshotV, t: SnapshotV)
    requires
        r.default_branch != t.default_branch,
        !t.branches.contains(r.default_branch),
    ensures
        diff_spec(r, t)[0].key == "default_branch"@,
        !diff_spec(r, t)[0].applicable,
        diff_spec(r, t)[0].note == Some(missing_branch_note(r.default_branch)),
        plan_spec(diff_spec(r, t), t) == plan_spec(diff_spec(r, t).drop_first(), t),
{
    let cs = diff_spec(r, t);
    let c = default_branch_changes(r, t)[0];
    assert(default_branch_changes(r, t) == seq![c]);
    assert(cs =~= seq![c] + cs.drop_first());
    lemma_plan_skips_first(c, cs.drop_first(), t.rulesets);
}

/// The action planned for the audit's change of a reference ruleset whose payload names it:
/// an update of the target's ruleset of that name and target where the audit found one, a
/// create where it did not.
pub open spec fn upsert_of(rs: RulesetV, ts: Seq<RulesetV>) -> ActionV {
    let i = first_match(ts, same_ruleset(rs.name, rs.target));
    if i >= 0 {
        ActionV::UpdateRuleset { id: ts[i].id, payload: rs.payload }
    } else {
        ActionV::CreateRuleset(rs.payload)
    }
}

/// Syncing the change that the audit reports for a ruleset upserts it by name: the sync
/// updates the target's ruleset that the audit compared with, and creates the ruleset where
/// the audit found none (its change is then the one labelled a create).
pub proof fn law_ruleset_change_syncs_as_upsert(rs: RulesetV, t: SnapshotV)
    requires
        rs.payload.at("name"@).as_str() == Some(rs.name),
        rs.target == match rs.payload.at("target"@).as_str() {
            Some(x) => x,
            None => "branch"@,
        },
        ruleset_change(rs, t.rulesets).len() > 0,
    ensures
        plan_spec(ruleset_change(rs, t.rulesets), t) == seq![upsert_of(rs, t.rulesets)],
        (upsert_of(rs, t.rulesets) is CreateRuleset) <==> ruleset_change(rs, t.rulesets)[0].label
            == "Ruleset «"@ + rs.name + "» (create)"@,
{
    let cs = ruleset_change(rs, t.rulesets);
    let c = cs[0];
    let key = ruleset_key(rs);
    reveal_strlit("ruleset.");
    reveal_strlit("default_branch");
    reveal_strlit("features.");
    reveal_strlit("pull_requests.");
    reveal_strlit("others.");
    reveal_strlit("Ruleset «");
    reveal_strlit("» (create)");
    reveal_strlit("» (update)");
    assert(key[0] == 'r');
    assert(key.take(8) =~= "ruleset."@);
    assert(key != "default_branch"@) by {
        if key == "default_branch"@ {
            assert(key[0] == 'd');
        }
    }
    assert(!is_prefix("features."@, key)) by {
        if is_prefix("features."@, key) {
            assert(key.take(9)[0] == 'f');
        }
    }
    assert(!is_prefix("pull_requests."@, key)) by {
        if is_prefix("pull_requests."@, key) {
            assert(key.take(14)[0] == 'p');
        }
    }
    assert(!is_prefix("others."@, key)) by {
        if is_prefix("others."@, key) {
            assert(key.take(7)[0] == 'o');
        }
    }
    assert(c.key == key);
    assert(patch_field(c.key) is None);
    assert(is_prefix("ruleset."@, c.key));
    assert(cs.len() == 1 && cs.last() == c);
    assert(cs.drop_last() =~= Seq::<ChangeV>::empty());
    let st0 = plan_state(cs.drop_last(), t.rulesets);
    assert(st0.patch.len() == 0 && st0.actions.len() == 0);
    assert(c.applicable && c.desired == rs.payload);
    assert(ruleset_action(c.desired, rs.name, t.rulesets) == upsert_of(rs, t.rulesets));
    let st = plan_state(cs, t.rulesets);
    assert(st == plan_step(st0, c, t.rulesets));
    assert(st.patch.len() == 0);
    assert(st.actions =~= seq![upsert_of(rs, t.rulesets)]);
    let create = "Ruleset «"@ + rs.name + "» (create)"@;
    let update = "Ruleset «"@ + rs.name + "» (update)"@;
    assert(create != update) by {
        let k = ("Ruleset «"@.len() + rs.name.len() + 3) as int;
        assert(create[k] == 'c');
        assert(update[k] == 'u');
    }
}

/// What became of one action, as the user is told.
#[derive(Debug)]
pub struct ActionResult {
    pub description: String,
    pub ok: bool,
    pub error: Option<String>,
}

impl ActionResult {
    /// The report of `action` once its call came back with `outcome`: it succeeded where the
    /// outcome is `Ok`, else it failed with the outcome's message.
    pub fn from_outcome(action: &SyncAction, outcome: Result<(), String>) -> (r: ActionResult)
        ensures
            r.description@ == describe_spec(action@),
            r.ok == outcome is Ok,
            opt_view(r.error) == match outcome {
                Ok(_) => None,
                Err(e) => Some(e@),
            },
    {
        let description = action.describe();
        match outcome {
            Ok(_) => ActionResult { description, ok: true, error: None },
            Err(e) => ActionResult { description, ok: false, error: Some(e) },
        }
    }
}

/// The application of a plan's actions, one at a time: each call's outcome is recorded and
/// the run goes on to the next action, whatever the outcome was.
pub struct ApplyRun {
    actions: Vec<SyncAction>,
    results: Vec<ActionResult>,
}

impl ApplyRun {
    /// The actions to apply.
    pub closed spec fn planned(&self) -> Seq<ActionV> {
        actions_view(self.actions@)
    }

    /// The results recorded so far, one per action from the first.
    pub closed spec fn reported(&self) -> Seq<ActionResult> {
        self.results@
    }

    /// One result per action applied so far, each describing its action.
    pub open spec fn wf(&self) -> bool {
        &&& self.reported().len() <= self.planned().len()
        &&& forall|i: int|
            0 <= i < self.reported().len() ==> (#[trigger] self.reported()[i]).description@
                == describe_spec(self.planned()[i])
    }

    /// A run of `actions` that has applied none of them yet.
    pub fn new(actions: Vec<SyncAction>) -> (run: ApplyRun)
        ensures
            run.wf(),
            run.planned() == actions_view(actions@),
            run.reported().len() == 0,
    {
        ApplyRun { actions, results: Vec::new() }
    }

    /// The action to apply next, or none once every action has its result.
    pub fn current(&self) -> (a: Option<&SyncAction>)
        requires
            self.wf(),
        ensures
            a is None <==> self.reported().len() == self.planned().len(),
            a matches Some(x) ==> x@ == self.planned()[self.reported().len() as int],
    {
        let i = self.results.len();
        if i < self.actions.len() {
            Some(&self.actions[i])
        } else {
            None
        }
    }

    /// Records the outcome of the call made for the current action and moves on.
    pub fn record(&mut self, outcome: Result<(), String>)
        requires
            old(self).wf(),
            old(self).reported().len() < old(self).planned().len(),
        ensures
            final(self).wf(),
            final(self).planned() == old(self).planned(),
            final(self).reported().drop_last() == old(self).reported(),
            final(self).reported().len() == old(self).reported().len() + 1,
            final(self).reported().last().ok == outcome is Ok,
            opt_view(final(self).reported().last().error) == match outcome {
                Ok(_) => None,
                Err(e) => Some(e@),
            },
    {
        let i = self.results.len();
        let r = ActionResult::from_outcome(&self.actions[i], outcome);
        self.results.push(r);
        assert(self.results@.drop_last() =~= old(self).results@);
    }

    /// The results, one per action in the order of the actions, once all are applied.
    pub fn into_results(self) -> (results: Vec<ActionResult>)
        requires
            self.wf(),
            self.reported().len() == self.planned().len(),
        ensures
            results@ == self.reported(),
            results@.len() == self.planned().len(),
            forall|i: int|
                0 <= i < results@.len() ==> (#[trigger] results@[i]).description@ == describe_spec(
                    self.planned()[i],
                ),
    {
        self.results
    }
}

/// The teams and the apps that exist where rulesets are written, by id; `None` where they
/// could not be read.
pub struct KnownActors {
    pub teams: Option<Vec<u64>>,
    pub apps: Option<Vec<u64>>,
}

/// Value of a list of known ids: `None` where they could not be read.
pub open spec fn ids_view(ids: Option<Vec<u64>>) -> Option<Seq<u64>> {
    match ids {
        Some(v) => Some(v@),
        None => None,
    }
}

/// An id among those known; any id where they could not be read.
pub open spec fn id_known(ids: Option<Seq<u64>>, id: Option<u64>) -> bool {
    match ids {
        None => true,
        Some(v) => match id {
            Some(i) => v.contains(i),
            None => false,
        },
    }
}

/// A bypass actor that exists where the ruleset is written: a team or an app whose id is
/// known there, or an actor of any other type.
pub open spec fn actor_known(a: JV, teams: Option<Seq<u64>>, apps: Option<Seq<u64>>) -> bool {
    let id = a.at("actor_id"@).as_u64();
    match a.at("actor_type"@).as_str() {
        Some(t) => if t == "Team"@ {
            id_known(teams, id)
        } else if t == "Integration"@ {
            id_known(apps, id)
        } else {
            true
        },
        None => true,
    }
}

/// The bypass actors that exist where the ruleset is written, in their order.
pub open spec fn keep_actors(s: Seq<JV>, teams: Option<Seq<u64>>, apps: Option<Seq<u64>>) -> Seq<
    JV,
>
    decreases s.len(),
{
    if s.len() == 0 {
        Seq::empty()
    } else if actor_known(s.last(), teams, apps) {
        keep_actors(s.drop_last(), teams, apps).push(s.last())
    } else {
        keep_actors(s.drop_last(), teams, apps)
    }
}

/// A ruleset payload without the bypass actors that do not exist where it is written.
pub open spec fn restrict_actors(p: JV, teams: Option<Seq<u64>>, apps: Option<Seq<u64>>) -> JV {
    match p {
        JV::Object(m) => match members_get(m, "bypass_actors"@) {
            Some(JV::Array(a)) => JV::Object(
                members_insert(m, "bypass_actors"@, JV::Array(keep_actors(a, teams, apps))),
            ),
            _ => p,
        },
        _ => p,
    }
}

/// Whether the payload has bypass actors that do not exist where it is written.
pub open spec fn loses_actors(p: JV, teams: Option<Seq<u64>>, apps: Option<Seq<u64>>) -> bool {
    match p {
        JV::Object(m) => match members_get(m, "bypass_actors"@) {
            Some(JV::Array(a)) => keep_actors(a, teams, apps).len() < a.len(),
            _ => false,
        },
        _ => false,
    }
}

/// The warning for a ruleset written without some of its bypass actors.
pub open spec fn actors_warning(p: JV) -> Seq<char> {
    "Ruleset «"@ + name_or_unknown(p) + "»: se omiten bypass_actors que no existen en el destino"@
}

/// The action with its ruleset payload restricted to the actors that exist.
pub open spec fn restrict_action(a: ActionV, teams: Option<Seq<u64>>, apps: Option<Seq<u64>>) -> ActionV {
    match a {
        ActionV::CreateRuleset(p) => ActionV::CreateRuleset(restrict_actors(p, teams, apps)),
        ActionV::UpdateRuleset { id, payload } => ActionV::UpdateRuleset {
            id,
            payload: restrict_actors(payload, teams, apps),
        },
        _ => a,
    }
}

/// The ruleset payload of an action, if it writes one.
pub open spec fn ruleset_payload(a: ActionV) -> Option<JV> {
    match a {
        ActionV::CreateRuleset(p) => Some(p),
        ActionV::UpdateRuleset { payload, .. } => Some(payload),
        _ => None,
    }
}

/// The actions, each restricted to the actors that exist.
pub open spec fn restrict_plan(
    actions: Seq<ActionV>,
    teams: Option<Seq<u64>>,
    apps: Option<Seq<u64>>,
) -> Seq<ActionV> {
    actions.map_values(|a: ActionV| restrict_action(a, teams, apps))
}

/// One warning for each ruleset of the actions that loses bypass actors, in their order.
pub open spec fn plan_warnings(
    actions: Seq<ActionV>,
    teams: Option<Seq<u64>>,
    apps: Option<Seq<u64>>,
) -> Seq<Seq<char>>
    decreases actions.len(),
{
    if actions.len() == 0 {
        Seq::empty()
    } else {
        let rest = plan_warnings(actions.drop_last(), teams, apps);
        match ruleset_payload(actions.last()) {
            Some(p) => if loses_actors(p, teams, apps) {
                rest.push(actors_warning(p))
            } else {
                rest
            },
            None => rest,
        }
    }
}

/// The bypass actors of a ruleset payload, where it has a list of them.
pub open spec fn bypass_actors_of(p: JV) -> Seq<JV> {
    match p.get("bypass_actors"@) {
        Some(JV::Array(a)) => a,
        _ => Seq::empty(),
    }
}

/// Every bypass actor of the payload exists where it is written.
pub open spec fn all_actors_known(p: JV, teams: Option<Seq<u64>>, apps: Option<Seq<u64>>) -> bool {
    forall|k: int|
        0 <= k < bypass_actors_of(p).len() ==> actor_known(
            #[trigger] bypass_actors_of(p)[k],
            teams,
            apps,
        )
}

/// Some bypass actor of the payload does not exist where it is written.
pub open spec fn has_unknown_actor(p: JV, teams: Option<Seq<u64>>, apps: Option<Seq<u64>>) -> bool {
    exists|k: int|
        0 <= k < bypass_actors_of(p).len() && !actor_known(
            #[trigger] bypass_actors_of(p)[k],
            teams,
            apps,
        )
}

proof fn lemma_keep_actors(a: Seq<JV>, teams: Option<Seq<u64>>, apps: Option<Seq<u64>>)
    ensures
        forall|k: int|
            0 <= k < keep_actors(a, teams, apps).len() ==> actor_known(
                #[trigger] keep_actors(a, teams, apps)[k],
                teams,
                apps,
            ),
        keep_actors(a, teams, apps).len() <= a.len(),
        (exists|k: int| 0 <= k < a.len() && !actor_known(#[trigger] a[k], teams, apps))
            ==> keep_actors(a, teams, apps).len() < a.len(),
    decreases a.len(),
{
    if a.len() > 0 {
        let p = a.drop_last();
        lemma_keep_actors(p, teams, apps);
        if exists|k: int| 0 <= k < a.len() && !actor_known(#[trigger] a[k], teams, apps) {
            let k = choose|k: int| 0 <= k < a.len() && !actor_known(#[trigger] a[k], teams, apps);
            if k < p.len() {
                assert(p[k] == a[k]);
            } else {
                assert(a.last() == a[k]);
            }
        }
    }
}

proof fn lemma_restrict_actors(p: JV, teams: Option<Seq<u64>>, apps: Option<Seq<u64>>)
    ensures
        all_actors_known(restrict_actors(p, teams, apps), teams, apps),
        has_unknown_actor(p, teams, apps) ==> loses_actors(p, teams, apps),
{
    if let JV::Object(m) = p {
        if let Some(JV::Array(a)) = members_get(m, "bypass_actors"@) {
            lemma_keep_actors(a, teams, apps);
            lemma_insert_props(m, "bypass_actors"@, JV::Array(keep_actors(a, teams, apps)));
            assert(bypass_actors_of(restrict_actors(p, teams, apps)) == keep_actors(a, teams, apps));
            assert(bypass_actors_of(p) == a);
        }
    }
}

/// Every ruleset that the sync writes, created or updated, keeps only bypass actors that exist
/// in the target, and each ruleset write whose payload named an actor that does not exist there
/// gets its warning. Other actions are left as they were.
pub proof fn law_written_rulesets_have_known_actors(
    actions: Seq<ActionV>,
    teams: Option<Seq<u64>>,
    apps: Option<Seq<u64>>,
)
    ensures
        restrict_plan(actions, teams, apps).len() == actions.len(),
        forall|i: int|
            0 <= i < actions.len() ==> match #[trigger] restrict_plan(actions, teams, apps)[i] {
                ActionV::CreateRuleset(p) => all_actors_known(p, teams, apps),
                ActionV::UpdateRuleset { payload, .. } => all_actors_known(payload, teams, apps),
                other => other == actions[i],
            },
        forall|i: int|
            0 <= i < actions.len() ==> match #[trigger] actions[i] {
                ActionV::CreateRuleset(p) => has_unknown_actor(p, teams, apps) ==> plan_warnings(
                    actions,
                    teams,
                    apps,
                ).contains(actors_warning(p)),
                ActionV::UpdateRuleset { payload, .. } => has_unknown_actor(payload, teams, apps)
                    ==> plan_warnings(actions, teams, apps).contains(actors_warning(payload)),
                _ => true,
            },
    decreases actions.len(),
{
    let rp = restrict_plan(actions, teams, apps);
    assert forall|i: int| 0 <= i < actions.len() implies match #[trigger] rp[i] {
        ActionV::CreateRuleset(p) => all_actors_known(p, teams, apps),
        ActionV::UpdateRuleset { payload, .. } => all_actors_known(payload, teams, apps),
        other => other == actions[i],
    } by {
        match actions[i] {
            ActionV::CreateRuleset(p) => lemma_restrict_actors(p, teams, apps),
            ActionV::UpdateRuleset { payload, .. } => lemma_restrict_actors(payload, teams, apps),
            _ => {},
        }
    }
    if actions.len() > 0 {
        let prev = actions.drop_last();
        law_written_rulesets_have_known_actors(prev, teams, apps);
        let w = plan_warnings(actions, teams, apps);
        let w0 = plan_warnings(prev, teams, apps);
        assert forall|x: Seq<char>| w0.contains(x) implies w.contains(x) by {
            let k = choose|k: int| 0 <= k < w0.len() && w0[k] == x;
            if w != w0 {
                assert(w == w0.push(actors_warning(ruleset_payload(actions.last())->Some_0)));
                assert(w[k] == w0[k]);
            }
        }
        assert forall|i: int| 0 <= i < actions.len() implies match #[trigger] actions[i] {
            ActionV::CreateRuleset(p) => has_unknown_actor(p, teams, apps) ==> w.contains(
                actors_warning(p),
            ),
            ActionV::UpdateRuleset { payload, .. } => has_unknown_actor(payload, teams, apps)
                ==> w.contains(actors_warning(payload)),
            _ => true,
        } by {
            if i < prev.len() {
                assert(prev[i] == actions[i]);
            } else {
                assert(actions[i] == actions.last());
                match actions[i] {
                    ActionV::CreateRuleset(p) => {
                        lemma_restrict_actors(p, teams, apps);
                        if has_unknown_actor(p, teams, apps) {
                            assert(w == w0.push(actors_warning(p)));
                            assert(w[w0.len() as int] == actors_warning(p));
                        }
                    },
                    ActionV::UpdateRuleset { payload, .. } => {
                        lemma_restrict_actors(payload, teams, apps);
                        if has_unknown_actor(payload, teams, apps) {
                            assert(w == w0.push(actors_warning(payload)));
                            assert(w[w0.len() as int] == actors_warning(payload));
                        }
                    },
                    _ => {},
                }
            }
        }
    }
}

fn contains_id(ids: &Vec<u64>, id: u64) -> (r: bool)
    ensures
        r == ids@.contains(id),
{
    let n = ids.len();
    let mut i: usize = 0;
    while i < n
        invariant
            i <= n,
            n == ids@.len(),
            forall|j: int| 0 <= j < i ==> ids@[j] != id,
        decreases n - i,
    {
        if ids[i] == id {
            assert(ids@[i as int] == id);
            return true;
        }
        i = i + 1;
    }
    false
}

fn is_id_known(ids: &Option<Vec<u64>>, id: Option<u64>) -> (r: bool)
    ensures
        r == id_known(ids_view(*ids), id),
{
    match ids {
        None => true,
        Some(v) => match id {
            Some(i) => contains_id(v, i),
            None => false,
        },
    }
}

fn is_actor_known(a: &Json, known: &KnownActors) -> (r: bool)
    ensures
        r == actor_known(a@, ids_view(known.teams), ids_view(known.apps)),
{
    let id = match a.get("actor_id") {
        Some(x) => x.as_u64(),
        None => None,
    };
    let kind = match a.get("actor_type") {
        Some(x) => x.as_str(),
        None => None,
    };
    match kind {
        Some(t) => if str_eq(t.as_str(), "Team") {
            is_id_known(&known.teams, id)
        } else if str_eq(t.as_str(), "Integration") {
            is_id_known(&known.apps, id)
        } else {
            true
        },
        None => true,
    }
}

fn keep_known_actors(actors: &Vec<Json>, known: &KnownActors) -> (r: Vec<Json>)
    ensures
        elems_view(r@) == keep_actors(
            elems_view(actors@),
            ids_view(known.teams),
            ids_view(known.apps),
        ),
{
    let ghost all = elems_view(actors@);
    let ghost (ts, aps) = (ids_view(known.teams), ids_view(known.apps));
    let mut out: Vec<Json> = Vec::new();
    let n = actors.len();
    let mut i: usize = 0;
    assert(all.take(0) =~= Seq::<JV>::empty());
    while i < n
        invariant
            i <= n,
            n == actors@.len(),
            all == elems_view(actors@),
            ts == ids_view(known.teams),
            aps == ids_view(known.apps),
            elems_view(out@) == keep_actors(all.take(i as int), ts, aps),
        decreases n - i,
    {
        assert(all.take(i + 1).drop_last() =~= all.take(i as int));
        assert(all.take(i + 1).last() == actors@[i as int]@);
        if is_actor_known(&actors[i], known) {
            let ghost before = out@;
            out.push(actors[i].deep_clone());
            assert(elems_view(out@) =~= elems_view(before).push(actors@[i as int]@));
        }
        i = i + 1;
    }
    assert(all.take(n as int) =~= all);
    out
}

/// A ruleset payload without the bypass actors that do not exist where it is written, and
/// whether it lost any.
fn restrict_payload(p: Json, known: &KnownActors) -> (r: (Json, bool))
    ensures
        r.0@ == restrict_actors(p@, ids_view(known.teams), ids_view(known.apps)),
        r.1 == loses_actors(p@, ids_view(known.teams), ids_view(known.apps)),
{
    match p {
        Json::Object(mut m) => {
            let kept = match m.get("bypass_actors") {
                Some(Json::Array(actors)) => {
                    let k = keep_known_actors(actors, known);
                    let lost = k.len() < actors.len();
                    Some((k, lost))
                },
                _ => None,
            };
            match kept {
                Some((k, lost)) => {
                    m.insert("bypass_actors".to_owned(), Json::Array(k));
                    (Json::Object(m), lost)
                },
                None => (Json::Object(m), false),
            }
        },
        other => (other, false),
    }
}

/// A plan: the actions to make and the warnings to report.
pub struct SyncPlan {
    pub actions: Vec<SyncAction>,
    pub warnings: Vec<String>,
}

/// Restricts the rulesets of `actions` to the bypass actors that exist where they are
/// written, with a warning for each ruleset that loses some.
pub fn restrict_actions(actions: Vec<SyncAction>, known: &KnownActors) -> (p: SyncPlan)
    ensures
        actions_view(p.actions@) == restrict_plan(
            actions_view(actions@),
            ids_view(known.teams),
            ids_view(known.apps),
        ),
        views(p.warnings@) == plan_warnings(
            actions_view(actions@),
            ids_view(known.teams),
            ids_view(known.apps),
        ),
{
    let ghost all = actions_view(actions@);
    let ghost orig = actions@;
    let ghost (ts, aps) = (ids_view(known.teams), ids_view(known.apps));
    let mut rest = actions;
    let mut out: Vec<SyncAction> = Vec::new();
    let mut warnings: Vec<String> = Vec::new();
    let n = rest.len();
    let mut i: usize = 0;
    assert(all.take(0) =~= Seq::<ActionV>::empty());
    assert(orig.skip(0) =~= orig);
    while i < n
        invariant
            i <= n,
            n == orig.len(),
            all == actions_view(orig),
            rest@ == orig.skip(i as int),
            ts == ids_view(known.teams),
            aps == ids_view(known.apps),
            actions_view(out@) == restrict_plan(all.take(i as int), ts, aps),
            views(warnings@) == plan_warnings(all.take(i as int), ts, aps),
        decreases n - i,
    {
        let a = rest.remove(0);
        assert(orig.skip(i + 1) =~= orig.skip(i as int).drop_first());
        assert(all.take(i + 1).drop_last() =~= all.take(i as int));
        assert(all.take(i + 1).last() == a@);
        let ghost av = a@;
        let ghost (before, wbefore) = (out@, warnings@);
        let (next, warning) = match a {
            SyncAction::CreateRuleset(p) => {
                let name = name_or_question_mark(&p);
                let (q, lost) = restrict_payload(p, known);
                (SyncAction::CreateRuleset(q), if lost {
                    Some(name)
                } else {
                    None
                })
            },
            SyncAction::UpdateRuleset { id, payload } => {
                let name = name_or_question_mark(&payload);
                let (q, lost) = restrict_payload(payload, known);
                (SyncAction::UpdateRuleset { id, payload: q }, if lost {
                    Some(name)
                } else {
                    None
                })
            },
            other => (other, None),
        };
        assert(next@ == restrict_action(av, ts, aps));
        out.push(next);
        assert(actions_view(out@) =~= actions_view(before).push(restrict_action(av, ts, aps)));
        assert(restrict_plan(all.take(i + 1), ts, aps) =~= restrict_plan(all.take(i as int), ts, aps).push(
            restrict_action(av, ts, aps),
        ));
        match warning {
            Some(name) => {
                let w = concat3(
                    "Ruleset «",
                    name.as_str(),
                    "»: se omiten bypass_actors que no existen en el destino",
                );
                warnings.push(w);
                assert(views(warnings@) =~= views(wbefore).push(w@));
            },
            None => {},
        }
        i = i + 1;
    }
    assert(all.take(n as int) =~= all);
    SyncPlan { actions: out, warnings }
}

/// The plan for chosen changes: the actions of `plan_actions`, each ruleset restricted to the
/// bypass actors that exist in the target, and a warning for each ruleset that loses some.
pub fn plan_sync(
    changes: &[SettingChange],
    target: &RepoSettingsSnapshot,
    known: &KnownActors,
) -> (p: SyncPlan)
    ensures
        actions_view(p.actions@) == restrict_plan(
            plan_spec(crate::model::changes_view(changes@), target@),
            ids_view(known.teams),
            ids_view(known.apps),
        ),
        views(p.warnings@) == plan_warnings(
            plan_spec(crate::model::changes_view(changes@), target@),
            ids_view(known.teams),
            ids_view(known.apps),
        ),
{
    restrict_actions(plan_actions(changes, target), known)
}

/// The HTTP method of a write.
#[derive(Clone, Copy, Debug, PartialEq, Eq, Structural)]
pub enum WriteMethod {
    Patch,
    Post,
    Put,
}

/// The method and path of the request that makes an action on `owner/name`.
pub open spec fn request_of(owner: Seq<char>, name: Seq<char>, a: ActionV) -> (WriteMethod, Seq<char>) {
    let base = repo_path_spec(owner, name);
    match a {
        ActionV::PatchRepo(_) => (WriteMethod::Patch, base),
        ActionV::CreateRuleset(_) => (WriteMethod::Post, base + "/rulesets"@),
        ActionV::UpdateRuleset { id, .. } => (
            WriteMethod::Put,
            base + "/rulesets/"@ + decimal_spec(id as nat),
        ),
        ActionV::PutBranchProtection { branch, .. } => (
            WriteMethod::Put,
            base + "/branches/"@ + branch + "/protection"@,
        ),
    }
}

/// The body that an action sends.
pub open spec fn body_of(a: ActionV) -> JV {
    match a {
        ActionV::PatchRepo(b) => b,
        ActionV::CreateRuleset(p) => p,
        ActionV::UpdateRuleset { payload, .. } => payload,
        ActionV::PutBranchProtection { config, .. } => config,
    }
}

/// The request that makes `action` on `owner/name`: its method, its path and its body.
pub fn action_request<'a>(owner: &str, name: &str, action: &'a SyncAction) -> (r: (
    WriteMethod,
    String,
    &'a Json,
))
    ensures
        (r.0, r.1@) == request_of(owner@, name@, action@),
        r.2@ == body_of(action@),
{
    match action {
        SyncAction::PatchRepo(b) => (WriteMethod::Patch, repo_path(owner, name), b),
        SyncAction::CreateRuleset(p) => (WriteMethod::Post, rulesets_path(owner, name), p),
        SyncAction::UpdateRuleset { id, payload } => (
            WriteMethod::Put,
            ruleset_path(owner, name, *id),
            payload,
        ),
        SyncAction::PutBranchProtection { branch, config } => (
            WriteMethod::Put,
            protection_path(owner, name, branch.as_str()),
            config,
        ),
    }
}

} // verus!
