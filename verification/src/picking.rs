use vstd::prelude::*;
use crate::cli::{flag, opt, opt_value, Options};
use crate::commands::{all_rules, all_view, flag_on, lemma_empty_literal};
use crate::db::{contains_text, copy_strings, RuleStore};
use crate::ops::{outcome_is, update_result};
use crate::payload::{project_payload, project_payload_spec, session_payload, session_payload_spec, ProjectPayload};
use crate::picks::{select_final, select_outcome};
use crate::query::{db_views, list_view, selected_view, DbRule, DbRuleView};
use crate::session::{resolve_session_id, resolved_session, seconds_text};
use crate::store::StoreView;
use crate::tags::{comma_items, split_ids};
use crate::text::{chars_of, string_of, texts_of, trim_seq};
use crate::window::{update_views, PickerAction, UpdateView};

verus! {

// ---------------------------------------------------------------------------
// pick and check
// ---------------------------------------------------------------------------

/// What `pick` does next.
pub enum PickStep {
    /// Show the checklist over `visible` for session `session_id`,
    /// searching for `query` first.
    Window { session_id: String, visible: Vec<DbRule>, query: String },
    /// The command is done.
    Done(ProjectPayload),
}

pub open spec fn ids_of(rules: Seq<DbRuleView>) -> Seq<Seq<char>> {
    rules.map_values(|r: DbRuleView| r.id)
}

pub open spec fn no_match_message() -> Seq<char> {
    "no active project rules matched"@
}

/// Whether `pick` for session `sid` at time `ts`, from `v0`, leaving `v1`
/// and answering `r`, did what it does: with the checklist asked for, it
/// only shows the rules that `--tag` and `--ids` let through; without, it
/// selects for the session the active rules that `--tag`, `--query` and
/// `--ids` let through, keeping its other selections.
pub open spec fn pick_cmd(v0: StoreView, v1: StoreView, m: Map<Seq<char>, Seq<char>>, force_ui: bool, sid: Seq<char>, ts: Seq<char>, r: Result<PickStep, String>) -> bool {
    let ids = comma_items(opt_value(m, "ids"@));
    let tag = trim_seq(opt_value(m, "tag"@));
    if force_ui || flag_on(m, "ui"@) {
        &&& v1 == v0
        &&& r matches Ok(PickStep::Window { session_id, visible, query })
        &&& session_id@ == sid
        &&& db_views(visible@) == list_view(v0.rules, v0.sels, true, tag, Seq::empty(), ids, Some(sid))
        &&& query@ == opt_value(m, "query"@)
    } else {
        let candidates = list_view(v0.rules, v0.sels, false, tag, trim_seq(opt_value(m, "query"@)), ids, None);
        if candidates.len() == 0 {
            v1 == v0 && (r matches Err(e) && e@ == no_match_message())
        } else {
            let (v, err) = select_final(v0, sid, ids_of(candidates), false, ts);
            &&& v1 == v
            &&& match err {
                Some(e) => r matches Err(x) && x@ == e,
                None => r matches Ok(PickStep::Done(p)) && p@ == project_payload_spec(
                    "pick"@,
                    all_view(v, Some(sid)),
                    Some(selected_view(v.rules, v.sels, sid, false)),
                    Seq::empty(),
                    sid,
                    "project rules selected for current session"@,
                    Some(session_payload_spec("list"@, sid, selected_view(v.rules, v.sels, sid, false), Seq::empty(), "selected rules listed"@)),
                ),
            }
        }
    }
}

fn ids_vec(rules: &Vec<DbRule>) -> (r: Vec<String>)
    ensures
        texts_of(r@) == ids_of(db_views(rules@)),
{
    let mut out: Vec<String> = Vec::new();
    let mut i: usize = 0;
    while i < rules.len()
        invariant
            i <= rules.len(),
            texts_of(out@) =~= ids_of(db_views(rules@)).take(i as int),
        decreases rules.len() - i,
    {
        let ghost before = texts_of(out@);
        out.push(rules[i].id.clone());
        assert(texts_of(out@) =~= before.push(rules@[i as int].id@));
        i += 1;
    }
    assert(ids_of(db_views(rules@)).take(rules.len() as int) =~= ids_of(db_views(rules@)));
    out
}

/// `pick` (and `check`, which always asks for the checklist): selects
/// matching active rules for the session, or hands back what the checklist
/// is to show.
pub fn cli_pick(store: &mut RuleStore, options: &Options, env_values: &Vec<String>, force_ui: bool) -> (r: Result<PickStep, String>)
    requires
        old(store).wf(),
    ensures
        final(store).wf(),
        exists|s1: Option<u64>, s2: Option<u64>| #[trigger] pick_cmd(old(store)@, final(store)@, options@, force_ui,
            resolved_session(opt_value(options@, "session-id"@), texts_of(env_values@), s1), seconds_text(s2), r),
{
    let session_id = resolve_session_id(opt(options, "session-id").as_str(), env_values);
    let ghost s1 = choose|secs: Option<u64>| session_id@ == resolved_session(opt_value(options@, "session-id"@), texts_of(env_values@), secs);
    let ids = split_ids(opt(options, "ids").as_str());
    if force_ui || flag(options, "ui") {
        proof {
            lemma_empty_literal();
        }
        let visible = store.list_rules(true, opt(options, "tag").as_str(), "", &ids, Some(session_id.as_str()));
        let r: Result<PickStep, String> = Ok(PickStep::Window { session_id, visible, query: opt(options, "query") });
        assert(pick_cmd(old(store)@, store@, options@, force_ui, resolved_session(opt_value(options@, "session-id"@), texts_of(env_values@), s1), seconds_text(None), r));
        return r;
    }
    let candidates = store.list_rules(false, opt(options, "tag").as_str(), opt(options, "query").as_str(), &ids, None);
    if candidates.len() == 0 {
        let r: Result<PickStep, String> = Err("no active project rules matched".to_string());
        assert(pick_cmd(old(store)@, store@, options@, force_ui, session_id@, seconds_text(None), r));
        return r;
    }
    let wanted = ids_vec(&candidates);
    let selected = store.select_rules(session_id.as_str(), &wanted, false);
    let ghost s2 = choose|secs: Option<u64>| select_outcome(old(store)@, store@, selected, session_id@, texts_of(wanted@), false, seconds_text(secs));
    let selected = match selected {
        Ok(s) => s,
        Err(e) => {
            let r: Result<PickStep, String> = Err(e);
            assert(pick_cmd(old(store)@, store@, options@, force_ui, session_id@, seconds_text(s2), r));
            return r;
        },
    };
    let all = all_rules(store, Some(session_id.as_str()));
    let none: Vec<DbRule> = Vec::new();
    assert(db_views(none@) =~= Seq::<DbRuleView>::empty());
    let session_value = session_payload("list", session_id.as_str(), &selected, none, "selected rules listed");
    let none2: Vec<DbRule> = Vec::new();
    assert(db_views(none2@) =~= Seq::<DbRuleView>::empty());
    let p = project_payload("pick", &all, Some(selected), none2, session_id.as_str(), "project rules selected for current session", Some(session_value));
    let r: Result<PickStep, String> = Ok(PickStep::Done(p));
    assert(pick_cmd(old(store)@, store@, options@, force_ui, session_id@, seconds_text(s2), r));
    r
}

// ---------------------------------------------------------------------------
// After the checklist
// ---------------------------------------------------------------------------

pub open spec fn outside_message(id: Seq<char>) -> Seq<char> {
    "rule picker returned update outside visible rule set: "@ + id
}

/// The picker's updates applied in order at the clock readings `stamps`,
/// each only for a rule the checklist showed; the first refusal stops the
/// rest and what came before stays.
pub open spec fn apply_updates(v: StoreView, allowed: Seq<Seq<char>>, ups: Seq<UpdateView>, stamps: Seq<Seq<char>>) -> Result<(StoreView, Seq<DbRuleView>), (StoreView, Seq<char>)>
    decreases ups.len(),
{
    if ups.len() == 0 {
        Ok((v, Seq::empty()))
    } else {
        match apply_updates(v, allowed, ups.drop_last(), stamps.drop_last()) {
            Err(x) => Err(x),
            Ok((v1, done)) => {
                let u = ups.last();
                if !allowed.contains(u.id) {
                    Err((v1, outside_message(u.id)))
                } else {
                    match update_result(v1, u.id, u.title, u.content, Some(u.tags), u.status, stamps.last()) {
                        Err(e) => Err((v1, e)),
                        Ok((v2, d)) => Ok((v2, done.push(d))),
                    }
                }
            },
        }
    }
}

/// The picked ids that the checklist showed, in order.
pub open spec fn allowed_ids(ids: Seq<Seq<char>>, allowed: Seq<Seq<char>>) -> Seq<Seq<char>>
    decreases ids.len(),
{
    if ids.len() == 0 {
        Seq::empty()
    } else if allowed.contains(ids.last()) {
        allowed_ids(ids.drop_last(), allowed).push(ids.last())
    } else {
        allowed_ids(ids.drop_last(), allowed)
    }
}

/// Whether finishing `pick` for session `sid` over the rules `visible`
/// after the checklist ended with `action`, from `v0`, leaving `v1` and
/// answering `r`, did what it does: a cancel changes nothing; a pick
/// applies the edits, then makes the session select exactly the picked
/// rules that were shown.
pub open spec fn finish_cmd(v0: StoreView, v1: StoreView, sid: Seq<char>, visible: Seq<DbRuleView>, action: PickerAction, stamps: Seq<Seq<char>>, ts: Seq<char>, r: Result<ProjectPayload, String>) -> bool {
    let allowed = ids_of(visible);
    match action {
        PickerAction::Cancel => {
            &&& v1 == v0
            &&& r matches Ok(p) && p@ == project_payload_spec("pick-ui-cancel"@, all_view(v0, Some(sid)), Some(Seq::empty()), Seq::empty(), sid,
                "rule picker cancelled"@, None)
        },
        PickerAction::Pick(res) => {
            let ups = update_views(res.updates@);
            &&& stamps.len() <= ups.len()
            &&& match apply_updates(v0, allowed, ups.take(stamps.len() as int), stamps) {
                Err((v, e)) => v1 == v && (r matches Err(x) && x@ == e),
                Ok((v, changed)) => {
                    &&& stamps.len() == ups.len()
                    &&& {
                        let (v2, err) = select_final(v, sid, allowed_ids(texts_of(res.selected_ids@), allowed), true, ts);
                        &&& v1 == v2
                        &&& match err {
                            Some(e) => r matches Err(x) && x@ == e,
                            None => r matches Ok(p) && p@ == project_payload_spec(
                                "pick-ui"@,
                                all_view(v2, Some(sid)),
                                Some(selected_view(v2.rules, v2.sels, sid, false)),
                                changed,
                                sid,
                                "current-session selections updated"@,
                                Some(session_payload_spec("list"@, sid, selected_view(v2.rules, v2.sels, sid, false), Seq::empty(), "selected rules listed"@)),
                            ),
                        }
                    }
                },
            }
        },
    }
}

fn outside_error(id: &str) -> (r: String)
    ensures
        r@ == outside_message(id@),
{
    let mut v = chars_of("rule picker returned update outside visible rule set: ");
    crate::text::append_chars(&mut v, &chars_of(id));
    string_of(&v)
}

/// Finishes `pick` after the checklist: applies the edits of rules it
/// showed, then makes the session select the picked rules it showed (and
/// drop its other selections).
pub fn finish_pick(store: &mut RuleStore, session_id: &str, visible: &Vec<DbRule>, action: PickerAction) -> (r: Result<ProjectPayload, String>)
    requires
        old(store).wf(),
    ensures
        final(store).wf(),
        exists|stamps: Seq<Seq<char>>, s2: Option<u64>| #[trigger] finish_cmd(old(store)@, final(store)@, session_id@, db_views(visible@), action, stamps, seconds_text(s2), r),
{
    let ghost v0 = store@;
    let ghost act = action;
    let allowed = ids_vec(visible);
    let ghost av = texts_of(allowed@);
    let result = match action {
        PickerAction::Cancel => {
            let all = all_rules(store, Some(session_id));
            let none: Vec<DbRule> = Vec::new();
            assert(db_views(none@) =~= Seq::<DbRuleView>::empty());
            let none2: Vec<DbRule> = Vec::new();
            assert(db_views(none2@) =~= Seq::<DbRuleView>::empty());
            let r: Result<ProjectPayload, String> = Ok(project_payload("pick-ui-cancel", &all, Some(none), none2, session_id, "rule picker cancelled", None));
            assert(finish_cmd(v0, store@, session_id@, db_views(visible@), act, Seq::empty(), seconds_text(None), r));
            return r;
        },
        PickerAction::Pick(res) => res,
    };
    assert(act == PickerAction::Pick(result));
    let ghost ups = update_views(result.updates@);
    let ghost mut stamps: Seq<Seq<char>> = Seq::empty();
    let mut changed: Vec<DbRule> = Vec::new();
    let mut i: usize = 0;
    assert(ups.take(0) =~= Seq::<UpdateView>::empty());
    assert(db_views(changed@) =~= Seq::<DbRuleView>::empty());
    while i < result.updates.len()
        invariant
            i <= result.updates.len(),
            store.wf(),
            v0 == old(store)@,
            act == PickerAction::Pick(result),
            act == action,
            av == texts_of(allowed@),
            av == ids_of(db_views(visible@)),
            ups == update_views(result.updates@),
            stamps.len() == i,
            changed@.len() == i,
            apply_updates(v0, av, ups.take(i as int), stamps) == Ok::<(StoreView, Seq<DbRuleView>), (StoreView, Seq<char>)>((store@, db_views(changed@))),
        decreases result.updates.len() - i,
    {
        let u = &result.updates[i];
        assert(ups[i as int] == u@);
        assert(ups.take(i + 1).drop_last() =~= ups.take(i as int));
        assert(ups.take(i + 1).last() == u@);
        if !contains_text(&allowed, u.id.as_str()) {
            let ghost st2 = stamps.push(seconds_text(None));
            assert(st2.drop_last() =~= stamps);
            let e = outside_error(u.id.as_str());
            assert(!av.contains(u@.id));
            assert(apply_updates(v0, av, ups.take(i + 1), st2) == Err::<(StoreView, Seq<DbRuleView>), (StoreView, Seq<char>)>((store@, outside_message(u@.id))));
            let r: Result<ProjectPayload, String> = Err(e);
            assert(finish_cmd(v0, store@, session_id@, db_views(visible@), act, st2, seconds_text(None), r));
            return r;
        }
        let ghost before = store@;
        let upd = store.update_db_rule(u.id.as_str(), u.title.as_str(), u.content.as_str(), Some(copy_strings(&u.tags)), u.status.as_str());
        let ghost s = choose|secs: Option<u64>| outcome_is(before, store@, upd, update_result(before, u.id@, u.title@, u.content@, Some(texts_of(u.tags@)), u.status@, seconds_text(secs)));
        let ghost st2 = stamps.push(seconds_text(s));
        assert(st2.drop_last() =~= stamps);
        match upd {
            Ok(d) => {
                let ghost cb = db_views(changed@);
                changed.push(d);
                assert(db_views(changed@) =~= cb.push(changed@[i as int]@));
            },
            Err(e) => {
                assert(apply_updates(v0, av, ups.take(i + 1), st2) == Err::<(StoreView, Seq<DbRuleView>), (StoreView, Seq<char>)>((store@, e@)));
                let r: Result<ProjectPayload, String> = Err(e);
                assert(finish_cmd(v0, store@, session_id@, db_views(visible@), act, st2, seconds_text(None), r));
                return r;
            },
        }
        proof {
            stamps = st2;
        }
        i += 1;
    }
    assert(ups.take(result.updates.len() as int) =~= ups);
    let ghost v_mid = store@;
    let mut picked: Vec<String> = Vec::new();
    let mut k: usize = 0;
    let ghost sv = texts_of(result.selected_ids@);
    while k < result.selected_ids.len()
        invariant
            k <= result.selected_ids.len(),
            act == PickerAction::Pick(result),
            sv == texts_of(result.selected_ids@),
            av == texts_of(allowed@),
            texts_of(picked@) == allowed_ids(sv.take(k as int), av),
        decreases result.selected_ids.len() - k,
    {
        assert(sv.take(k + 1).drop_last() =~= sv.take(k as int));
        assert(sv.take(k + 1).last() == result.selected_ids@[k as int]@);
        if contains_text(&allowed, result.selected_ids[k].as_str()) {
            let ghost pb = texts_of(picked@);
            picked.push(result.selected_ids[k].clone());
            assert(texts_of(picked@) =~= pb.push(result.selected_ids@[k as int]@));
        }
        k += 1;
    }
    assert(sv.take(result.selected_ids.len() as int) =~= sv);
    let selected = store.select_rules(session_id, &picked, true);
    let ghost s2 = choose|secs: Option<u64>| select_outcome(v_mid, store@, selected, session_id@, texts_of(picked@), true, seconds_text(secs));
    let selected = match selected {
        Ok(s) => s,
        Err(e) => {
            let r: Result<ProjectPayload, String> = Err(e);
            assert(finish_cmd(v0, store@, session_id@, db_views(visible@), act, stamps, seconds_text(s2), r));
            return r;
        },
    };
    let all = all_rules(store, Some(session_id));
    let none: Vec<DbRule> = Vec::new();
    assert(db_views(none@) =~= Seq::<DbRuleView>::empty());
    let session_value = session_payload("list", session_id, &selected, none, "selected rules listed");
    let p = project_payload("pick-ui", &all, Some(selected), changed, session_id, "current-session selections updated", Some(session_value));
    let r: Result<ProjectPayload, String> = Ok(p);
    assert(finish_cmd(v0, store@, session_id@, db_views(visible@), act, stamps, seconds_text(s2), r));
    r
}

} // verus!
