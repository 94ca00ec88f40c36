use vstd::prelude::*;
use crate::cli::{flag, opt, opt_value, required, truthy, Options};
use crate::db::{among, any_rule, contains_text, RuleStore};
use crate::ops::{retire_result, update_result};
use crate::payload::{
    project_payload, project_payload_spec, session_payload, session_payload_spec, ProjectPayload,
    ProjectPayloadView, SessionPayload, SessionPayloadView,
};
use crate::query::{copy_db_rule, db_view, db_views, list_view, selected_ids, selected_view, DbRule, DbRuleView};
use crate::session::{resolve_session_id, resolved_session, sanitized, seconds_text};
use crate::ops::{added_row, candidate_id, ids_exhausted};
use crate::split::split_by;
use crate::store::{ins_rule, keep_sels, not_dropped, RuleRow, StoreView};
use crate::tags::{batch_items, cli_tags, split_batch, split_tags};
use crate::text::{chars_of, string_of, texts_of, trim_chars, trim_seq};

verus! {

// ---------------------------------------------------------------------------
// What the commands read and report
// ---------------------------------------------------------------------------

/// Whether option `name` was given with a truthy value.
pub open spec fn flag_on(m: Map<Seq<char>, Seq<char>>, name: Seq<char>) -> bool {
    m.contains_key(name) && truthy(m[name])
}

/// All rules in listing order, each marked selected or not when a session
/// is given.
pub open spec fn all_view(v: StoreView, session: Option<Seq<char>>) -> Seq<DbRuleView> {
    list_view(v.rules, v.sels, true, Seq::empty(), Seq::empty(), Seq::empty(), session)
}

/// Whether a session command from `v0` that left `v1` and answered `r` did
/// what `expected` says.
pub open spec fn session_outcome(v0: StoreView, v1: StoreView, r: Result<SessionPayload, String>, expected: Result<(StoreView, SessionPayloadView), Seq<char>>) -> bool {
    match expected {
        Ok((v, p)) => v1 == v && (r matches Ok(x) && x@ == p),
        Err(e) => v1 == v0 && (r matches Err(x) && x@ == e),
    }
}

/// Whether a project command from `v0` that left `v1` and answered `r` did
/// what `expected` says.
pub open spec fn project_outcome(v0: StoreView, v1: StoreView, r: Result<ProjectPayload, String>, expected: Result<(StoreView, ProjectPayloadView), Seq<char>>) -> bool {
    match expected {
        Ok((v, p)) => v1 == v && (r matches Ok(x) && x@ == p),
        Err(e) => v1 == v0 && (r matches Err(x) && x@ == e),
    }
}

/// What a missing required option answers.
pub open spec fn required_message(name: Seq<char>) -> Seq<char> {
    "--"@ + name + " is required"@
}

pub open spec fn not_in_session(id: Seq<char>) -> Seq<char> {
    "selected rule not found in current session: "@ + id
}

fn not_in_session_message(id: &str) -> (r: String)
    ensures
        r@ == not_in_session(id@),
{
    let mut v = chars_of("selected rule not found in current session: ");
    crate::text::append_chars(&mut v, &chars_of(id));
    string_of(&v)
}

pub(crate) proof fn lemma_empty_literal()
    ensures
        ""@ == Seq::<char>::empty(),
        trim_seq(Seq::<char>::empty()) == Seq::<char>::empty(),
{
    reveal_strlit("");
    assert(""@ =~= Seq::<char>::empty());
}

pub(crate) fn all_rules(store: &RuleStore, session: Option<&str>) -> (r: Vec<DbRule>)
    requires
        store.wf(),
    ensures
        db_views(r@) == all_view(store@, match session { Some(s) => Some(s@), None => None }),
{
    proof {
        lemma_empty_literal();
    }
    let none: Vec<String> = Vec::new();
    assert(texts_of(none@) =~= Seq::<Seq<char>>::empty());
    store.list_rules(true, "", "", &none, session)
}

// ---------------------------------------------------------------------------
// list
// ---------------------------------------------------------------------------

/// What `list` reports: the full session report, or only its summary.
pub struct ListResult {
    pub summary_only: bool,
    pub payload: SessionPayload,
}

/// `list`: the rules the session selected (deprecated ones too with
/// `--all`), or with `--summary` only how many and their titles.
pub fn cli_list(store: &RuleStore, options: &Options, env_values: &Vec<String>) -> (r: ListResult)
    requires
        store.wf(),
    ensures
        exists|secs: Option<u64>| r.payload.session_id@ == #[trigger] resolved_session(opt_value(options@, "session-id"@), texts_of(env_values@), secs),
        r.summary_only == flag_on(options@, "summary"@),
        r.payload@ == session_payload_spec(
            if r.summary_only { "summary"@ } else { "list"@ },
            r.payload.session_id@,
            selected_view(store@.rules, store@.sels, r.payload.session_id@, flag_on(options@, "all"@)),
            Seq::empty(),
            "selected rules listed"@,
        ),
{
    let session_id = resolve_session_id(opt(options, "session-id").as_str(), env_values);
    let rules = store.list_selected_rules(session_id.as_str(), flag(options, "all"));
    let summary_only = flag(options, "summary");
    let action = if summary_only { "summary" } else { "list" };
    let none: Vec<DbRule> = Vec::new();
    assert(db_views(none@) =~= Seq::<DbRuleView>::empty());
    ListResult {
        summary_only,
        payload: session_payload(action, session_id.as_str(), &rules, none, "selected rules listed"),
    }
}

// ---------------------------------------------------------------------------
// project-list
// ---------------------------------------------------------------------------

/// The session a `project-list` asks about: none when `--session-id` is
/// blank, else the sanitized id.
pub open spec fn listing_session(raw: Seq<char>) -> Seq<char> {
    if trim_seq(raw).len() == 0 { Seq::empty() } else { sanitized(raw) }
}

/// `project-list`: every rule, and those that pass `--all`, `--tag` and
/// `--query`; with `--session-id`, each marked selected or not.
pub fn cli_project_list(store: &RuleStore, options: &Options) -> (r: ProjectPayload)
    requires
        store.wf(),
    ensures
        ({
            let sid = listing_session(opt_value(options@, "session-id"@));
            let state = if sid.len() == 0 { None } else { Some(sid) };
            r@ == project_payload_spec(
                "list"@,
                all_view(store@, state),
                Some(list_view(store@.rules, store@.sels, flag_on(options@, "all"@), trim_seq(opt_value(options@, "tag"@)),
                    trim_seq(opt_value(options@, "query"@)), Seq::empty(), state)),
                Seq::empty(),
                sid,
                "project rules listed"@,
                None,
            )
        }),
{
    let raw = opt(options, "session-id");
    let session_id = if trim_chars(&chars_of(raw.as_str())).len() == 0 {
        proof {
            lemma_empty_literal();
        }
        String::new()
    } else {
        let none: Vec<String> = Vec::new();
        let s = resolve_session_id(raw.as_str(), &none);
        s
    };
    let state: Option<&str> = if chars_of(session_id.as_str()).len() == 0 { None } else { Some(session_id.as_str()) };
    let all = all_rules(store, state);
    let none: Vec<String> = Vec::new();
    assert(texts_of(none@) =~= Seq::<Seq<char>>::empty());
    let selected = store.list_rules(flag(options, "all"), opt(options, "tag").as_str(), opt(options, "query").as_str(), &none, state);
    let changed: Vec<DbRule> = Vec::new();
    assert(db_views(changed@) =~= Seq::<DbRuleView>::empty());
    project_payload("list", &all, Some(selected), changed, session_id.as_str(), "project rules listed", None)
}

// ---------------------------------------------------------------------------
// update
// ---------------------------------------------------------------------------

pub open spec fn nothing_to_update_message() -> Seq<char> {
    "--title or --content is required"@
}

/// What `update` does for session `sid` at time `ts`: the rule `--id` must
/// be one the session selected, and at least one of title and content must
/// be given; they change where given.
pub open spec fn update_cmd(v: StoreView, m: Map<Seq<char>, Seq<char>>, sid: Seq<char>, ts: Seq<char>) -> Result<(StoreView, SessionPayloadView), Seq<char>> {
    let id = opt_value(m, "id"@);
    if trim_seq(id).len() == 0 {
        Err(required_message("id"@))
    } else if !selected_ids(v.sels, sid).contains(id) {
        Err(not_in_session(id))
    } else if trim_seq(opt_value(m, "title"@)).len() == 0 && trim_seq(opt_value(m, "content"@)).len() == 0 {
        Err(nothing_to_update_message())
    } else {
        match update_result(v, id, opt_value(m, "title"@), opt_value(m, "content"@), None, Seq::empty(), ts) {
            Err(e) => Err(e),
            Ok((v2, d)) => Ok((v2, session_payload_spec("update"@, sid, selected_view(v2.rules, v2.sels, sid, false), seq![d], "selected project rule updated"@))),
        }
    }
}

/// `update`: changes the title or content of a rule the session selected.
pub fn cli_update(store: &mut RuleStore, options: &Options, env_values: &Vec<String>) -> (r: Result<SessionPayload, String>)
    requires
        old(store).wf(),
    ensures
        final(store).wf(),
        exists|s1: Option<u64>, s2: Option<u64>| #[trigger] session_outcome(old(store)@, final(store)@, r,
            update_cmd(old(store)@, options@, resolved_session(opt_value(options@, "session-id"@), texts_of(env_values@), s1), seconds_text(s2))),
{
    let session_id = resolve_session_id(opt(options, "session-id").as_str(), env_values);
    let ghost s1 = choose|secs: Option<u64>| session_id@ == resolved_session(opt_value(options@, "session-id"@), texts_of(env_values@), secs);
    let id = match required(options, "id") {
        Ok(id) => id,
        Err(e) => {
            assert(session_outcome(old(store)@, store@, Err(e), update_cmd(old(store)@, options@, session_id@, seconds_text(None))));
            return Err(e);
        },
    };
    let selected = store.get_selected_ids(session_id.as_str());
    if !contains_text(&selected, id.as_str()) {
        let e = not_in_session_message(id.as_str());
        assert(session_outcome(old(store)@, store@, Err(e), update_cmd(old(store)@, options@, session_id@, seconds_text(None))));
        return Err(e);
    }
    if trim_chars(&chars_of(opt(options, "title").as_str())).len() == 0
        && trim_chars(&chars_of(opt(options, "content").as_str())).len() == 0 {
        let e = "--title or --content is required".to_string();
        assert(session_outcome(old(store)@, store@, Err(e), update_cmd(old(store)@, options@, session_id@, seconds_text(None))));
        return Err(e);
    }
    proof {
        lemma_empty_literal();
    }
    let changed = store.update_db_rule(id.as_str(), opt(options, "title").as_str(), opt(options, "content").as_str(), None, "");
    let ghost s2 = choose|secs: Option<u64>| crate::ops::outcome_is(old(store)@, store@, changed,
        update_result(old(store)@, id@, opt_value(options@, "title"@), opt_value(options@, "content"@), None, ""@, seconds_text(secs)));
    let changed = match changed {
        Ok(c) => c,
        Err(e) => {
            assert(session_outcome(old(store)@, store@, Err(e), update_cmd(old(store)@, options@, session_id@, seconds_text(s2))));
            return Err(e);
        },
    };
    let rules = store.list_selected_rules(session_id.as_str(), false);
    let mut one: Vec<DbRule> = Vec::new();
    one.push(changed);
    assert(db_views(one@) =~= seq![one@[0]@]);
    let p = session_payload("update", session_id.as_str(), &rules, one, "selected project rule updated");
    let r: Result<SessionPayload, String> = Ok(p);
    assert(session_outcome(old(store)@, store@, r, update_cmd(old(store)@, options@, session_id@, seconds_text(s2))));
    r
}

// ---------------------------------------------------------------------------
// delete
// ---------------------------------------------------------------------------

/// The first rule with this id.
pub open spec fn find_by_id(rules: Seq<DbRuleView>, id: Seq<char>) -> Option<DbRuleView>
    decreases rules.len(),
{
    if rules.len() == 0 {
        None
    } else if rules[0].id == id {
        Some(rules[0])
    } else {
        find_by_id(rules.drop_first(), id)
    }
}

/// What `delete` does for session `sid`: with a blank `--id`, the session
/// drops all its selections; otherwise the rule must be one it selected
/// (deprecated ones included) and only that selection goes.
pub open spec fn delete_cmd(v: StoreView, m: Map<Seq<char>, Seq<char>>, sid: Seq<char>) -> Result<(StoreView, SessionPayloadView), Seq<char>> {
    let id = opt_value(m, "id"@);
    let before = selected_view(v.rules, v.sels, sid, true);
    let message = "rule unselected from current session"@;
    if trim_seq(id).len() == 0 {
        let v2 = StoreView { rules: v.rules, sels: keep_sels(v.sels, not_dropped(sid, any_rule())) };
        Ok((v2, session_payload_spec("unselect-all"@, sid, selected_view(v2.rules, v2.sels, sid, false), before, message)))
    } else {
        match find_by_id(before, id) {
            None => Err(not_in_session(id)),
            Some(f) => {
                let v2 = StoreView { rules: v.rules, sels: keep_sels(v.sels, not_dropped(sid, among(seq![id]))) };
                Ok((v2, session_payload_spec("unselect"@, sid, selected_view(v2.rules, v2.sels, sid, false), seq![f], message)))
            },
        }
    }
}

fn find_rule_by_id(rules: &Vec<DbRule>, id: &str) -> (r: Option<DbRule>)
    ensures
        match find_by_id(db_views(rules@), id@) {
            Some(f) => r matches Some(x) && x@ == f,
            None => r is None,
        },
{
    let ghost rv = db_views(rules@);
    let mut i: usize = 0;
    assert(rv.skip(0) =~= rv);
    while i < rules.len()
        invariant
            i <= rules.len(),
            rv == db_views(rules@),
            find_by_id(rv, id@) == find_by_id(rv.skip(i as int), id@),
        decreases rules.len() - i,
    {
        assert(rv.skip(i as int)[0] == rules@[i as int]@);
        if crate::text::str_eq(rules[i].id.as_str(), id) {
            return Some(copy_db_rule(&rules[i]));
        }
        assert(rv.skip(i as int).drop_first() =~= rv.skip(i + 1));
        i += 1;
    }
    None
}

/// `delete`: the session drops a selected rule, or all of them.
pub fn cli_delete(store: &mut RuleStore, options: &Options, env_values: &Vec<String>) -> (r: Result<SessionPayload, String>)
    requires
        old(store).wf(),
    ensures
        final(store).wf(),
        exists|s1: Option<u64>| #[trigger] session_outcome(old(store)@, final(store)@, r,
            delete_cmd(old(store)@, options@, resolved_session(opt_value(options@, "session-id"@), texts_of(env_values@), s1))),
{
    let session_id = resolve_session_id(opt(options, "session-id").as_str(), env_values);
    let ghost s1 = choose|secs: Option<u64>| session_id@ == resolved_session(opt_value(options@, "session-id"@), texts_of(env_values@), secs);
    let id = opt(options, "id");
    let before = store.list_selected_rules(session_id.as_str(), true);
    let blank = trim_chars(&chars_of(id.as_str())).len() == 0;
    let changed = if blank {
        before
    } else {
        match find_rule_by_id(&before, id.as_str()) {
            Some(found) => {
                let mut one: Vec<DbRule> = Vec::new();
                one.push(found);
                assert(db_views(one@) =~= seq![one@[0]@]);
                one
            },
            None => {
                let e = not_in_session_message(id.as_str());
                assert(session_outcome(old(store)@, store@, Err(e), delete_cmd(old(store)@, options@, session_id@)));
                return Err(e);
            },
        }
    };
    let mut ids: Vec<String> = Vec::new();
    if !blank {
        ids.push(id.clone());
        assert(texts_of(ids@) =~= seq![id@]);
    }
    let rules = store.unselect_rules(session_id.as_str(), &ids);
    let action = if blank { "unselect-all" } else { "unselect" };
    let p = session_payload(action, session_id.as_str(), &rules, changed, "rule unselected from current session");
    let r: Result<SessionPayload, String> = Ok(p);
    assert(session_outcome(old(store)@, store@, r, delete_cmd(old(store)@, options@, session_id@)));
    r
}

// ---------------------------------------------------------------------------
// project-update and project-delete
// ---------------------------------------------------------------------------

/// The tags `project-update` sets: none when `--tags` is blank.
pub open spec fn update_tags(m: Map<Seq<char>, Seq<char>>) -> Option<Seq<Seq<char>>> {
    if trim_seq(opt_value(m, "tags"@)).len() == 0 { None } else { Some(cli_tags(opt_value(m, "tags"@))) }
}

/// What `project-update` does at time `ts`.
pub open spec fn project_update_cmd(v: StoreView, m: Map<Seq<char>, Seq<char>>, ts: Seq<char>) -> Result<(StoreView, ProjectPayloadView), Seq<char>> {
    let id = opt_value(m, "id"@);
    if trim_seq(id).len() == 0 {
        Err(required_message("id"@))
    } else {
        match update_result(v, id, opt_value(m, "title"@), opt_value(m, "content"@), update_tags(m), opt_value(m, "status"@), ts) {
            Err(e) => Err(e),
            Ok((v2, d)) => Ok((v2, project_payload_spec("update"@, all_view(v2, None), None, seq![d], Seq::empty(), "project rule updated"@, None))),
        }
    }
}

/// `project-update`: changes a rule's title, content, tags or status.
pub fn cli_project_update(store: &mut RuleStore, options: &Options) -> (r: Result<ProjectPayload, String>)
    requires
        old(store).wf(),
    ensures
        final(store).wf(),
        exists|s2: Option<u64>| #[trigger] project_outcome(old(store)@, final(store)@, r, project_update_cmd(old(store)@, options@, seconds_text(s2))),
{
    let tags_raw = opt(options, "tags");
    let tags = if trim_chars(&chars_of(tags_raw.as_str())).len() == 0 { None } else { Some(split_tags(tags_raw.as_str())) };
    let id = match required(options, "id") {
        Ok(id) => id,
        Err(e) => {
            assert(project_outcome(old(store)@, store@, Err(e), project_update_cmd(old(store)@, options@, seconds_text(None))));
            return Err(e);
        },
    };
    let ghost tv = match &tags { Some(t) => Some(texts_of(t@)), None => None };
    assert(tv == update_tags(options@));
    let changed = store.update_db_rule(id.as_str(), opt(options, "title").as_str(), opt(options, "content").as_str(), tags, opt(options, "status").as_str());
    let ghost s2 = choose|secs: Option<u64>| crate::ops::outcome_is(old(store)@, store@, changed,
        update_result(old(store)@, id@, opt_value(options@, "title"@), opt_value(options@, "content"@), tv, opt_value(options@, "status"@), seconds_text(secs)));
    let changed = match changed {
        Ok(c) => c,
        Err(e) => {
            assert(project_outcome(old(store)@, store@, Err(e), project_update_cmd(old(store)@, options@, seconds_text(s2))));
            return Err(e);
        },
    };
    let rules = all_rules(store, None);
    let mut one: Vec<DbRule> = Vec::new();
    one.push(changed);
    assert(db_views(one@) =~= seq![one@[0]@]);
    proof {
        lemma_empty_literal();
    }
    let p = project_payload("update", &rules, None, one, "", "project rule updated", None);
    let r: Result<ProjectPayload, String> = Ok(p);
    assert(project_outcome(old(store)@, store@, r, project_update_cmd(old(store)@, options@, seconds_text(s2))));
    r
}

/// What `project-delete` does at time `ts`: deprecates the rule, or with
/// `--hard` deletes it and its selections.
pub open spec fn project_delete_cmd(v: StoreView, m: Map<Seq<char>, Seq<char>>, ts: Seq<char>) -> Result<(StoreView, ProjectPayloadView), Seq<char>> {
    let id = opt_value(m, "id"@);
    let hard = flag_on(m, "hard"@);
    if trim_seq(id).len() == 0 {
        Err(required_message("id"@))
    } else {
        match retire_result(v, id, hard, ts) {
            Err(e) => Err(e),
            Ok((v2, d)) => Ok((v2, project_payload_spec(
                if hard { "delete-hard"@ } else { "delete"@ },
                all_view(v2, None),
                None,
                seq![d],
                Seq::empty(),
                if hard { "project rule hard deleted"@ } else { "project rule deprecated"@ },
                None,
            ))),
        }
    }
}

/// `project-delete`: deprecates a rule, or deletes it with `--hard`.
pub fn cli_project_delete(store: &mut RuleStore, options: &Options) -> (r: Result<ProjectPayload, String>)
    requires
        old(store).wf(),
    ensures
        final(store).wf(),
        exists|s2: Option<u64>| #[trigger] project_outcome(old(store)@, final(store)@, r, project_delete_cmd(old(store)@, options@, seconds_text(s2))),
{
    let id = match required(options, "id") {
        Ok(id) => id,
        Err(e) => {
            assert(project_outcome(old(store)@, store@, Err(e), project_delete_cmd(old(store)@, options@, seconds_text(None))));
            return Err(e);
        },
    };
    let hard = flag(options, "hard");
    let changed = store.deprecate_or_delete_rule(id.as_str(), hard);
    let ghost s2 = choose|secs: Option<u64>| crate::ops::outcome_is(old(store)@, store@, changed, retire_result(old(store)@, id@, hard, seconds_text(secs)));
    let changed = match changed {
        Ok(c) => c,
        Err(e) => {
            assert(project_outcome(old(store)@, store@, Err(e), project_delete_cmd(old(store)@, options@, seconds_text(s2))));
            return Err(e);
        },
    };
    let rules = all_rules(store, None);
    let mut one: Vec<DbRule> = Vec::new();
    one.push(changed);
    assert(db_views(one@) =~= seq![one@[0]@]);
    proof {
        lemma_empty_literal();
    }
    let action = if hard { "delete-hard" } else { "delete" };
    let message = if hard { "project rule hard deleted" } else { "project rule deprecated" };
    let p = project_payload(action, &rules, None, one, "", message, None);
    let r: Result<ProjectPayload, String> = Ok(p);
    assert(project_outcome(old(store)@, store@, r, project_delete_cmd(old(store)@, options@, seconds_text(s2))));
    r
}

// ---------------------------------------------------------------------------
// add
// ---------------------------------------------------------------------------

pub open spec fn retired_message() -> Seq<char> {
    "scope=session is retired in v0.3; use project-level rules and rule-check selection"@
}

pub open spec fn batch_mismatch_message() -> Seq<char> {
    "batch add requires the same number of title/content segments when using English semicolon `;`"@
}

pub open spec fn no_segment_message() -> Seq<char> {
    "title and content must each hold at least one non-empty segment"@
}

/// Rows added one after another.
pub open spec fn add_rows(rows: Seq<RuleRow>, added: Seq<RuleRow>) -> Seq<RuleRow>
    decreases added.len(),
{
    if added.len() == 0 {
        rows
    } else {
        ins_rule(add_rows(rows, added.drop_last()), added.last())
    }
}

/// The rows of the rules a batch added, each under the id and creation
/// time it got, with the batch's titles, contents and tags.
pub open spec fn added_rows(done: Seq<DbRuleView>, titles: Seq<Seq<char>>, contents: Seq<Seq<char>>, tags_raw: Seq<char>) -> Seq<RuleRow> {
    Seq::new(done.len(), |i: int| added_row(done[i].id, titles[i], contents[i], tags_raw, done[i].created_at))
}

/// Whether the rules `done` were added from `v0` to make `v1`, in order,
/// each under a fresh generated id at a clock reading.
pub open spec fn batch_added(v0: StoreView, v1: StoreView, done: Seq<DbRuleView>, titles: Seq<Seq<char>>, contents: Seq<Seq<char>>, tags_raw: Seq<char>) -> bool {
    let rows = added_rows(done, titles, contents, tags_raw);
    &&& v1 == (StoreView { rules: add_rows(v0.rules, rows), sels: v0.sels })
    &&& forall|i: int| 0 <= i < done.len() ==> #[trigger] done[i] == db_view(rows[i], None)
    &&& forall|i: int| 0 <= i < done.len() ==> (exists|n: u128, k: u32| k < 1000 && #[trigger] done[i].id == candidate_id(n, k))
    &&& forall|i: int| 0 <= i < done.len() ==> (exists|secs: Option<u64>| #[trigger] done[i].created_at == seconds_text(secs))
}

/// The batches of an `add`: `;`-separated titles and contents.
pub open spec fn add_titles(m: Map<Seq<char>, Seq<char>>) -> Seq<Seq<char>> {
    batch_items(opt_value(m, "title"@))
}

pub open spec fn add_contents(m: Map<Seq<char>, Seq<char>>) -> Seq<Seq<char>> {
    batch_items(opt_value(m, "content"@))
}

/// The error `add` answers before it changes anything, if any.
pub open spec fn add_refusal(m: Map<Seq<char>, Seq<char>>) -> Option<Seq<char>> {
    if opt_value(m, "scope"@) == "session"@ {
        Some(retired_message())
    } else if trim_seq(opt_value(m, "title"@)).len() == 0 {
        Some(required_message("title"@))
    } else if trim_seq(opt_value(m, "content"@)).len() == 0 {
        Some(required_message("content"@))
    } else if add_titles(m).len() != add_contents(m).len() {
        Some(batch_mismatch_message())
    } else if add_titles(m).len() == 0 {
        Some(no_segment_message())
    } else {
        None
    }
}

/// Checks the one option `add` refuses before it opens the database.
pub fn add_scope_check(options: &Options) -> (r: Result<(), String>)
    ensures
        opt_value(options@, "scope"@) == "session"@ <==> r is Err,
        r matches Err(e) ==> e@ == retired_message(),
{
    if crate::text::str_eq(opt(options, "scope").as_str(), "session") {
        return Err("scope=session is retired in v0.3; use project-level rules and rule-check selection".to_string());
    }
    Ok(())
}

proof fn lemma_add_rows_push(rows: Seq<RuleRow>, added: Seq<RuleRow>, x: RuleRow)
    ensures
        add_rows(rows, added.push(x)) == ins_rule(add_rows(rows, added), x),
{
    assert(added.push(x).drop_last() =~= added);
}

/// `add`: adds project rules, one per `;`-separated title and content, with
/// the same tags; reports all rules and the ones added.
pub fn cli_add(store: &mut RuleStore, options: &Options) -> (r: Result<ProjectPayload, String>)
    requires
        old(store).wf(),
    ensures
        final(store).wf(),
        add_refusal(options@) matches Some(e) ==> final(store)@ == old(store)@ && (r matches Err(x) && x@ == e),
        add_refusal(options@) is None ==> match r {
            Ok(p) => {
                &&& p@.changed_rules.len() == add_titles(options@).len()
                &&& batch_added(old(store)@, final(store)@, p@.changed_rules, add_titles(options@), add_contents(options@), opt_value(options@, "tags"@))
                &&& p@ == project_payload_spec(if p@.changed_rules.len() > 1 { "add-batch"@ } else { "add"@ },
                    all_view(final(store)@, None), None, p@.changed_rules, Seq::empty(), "project rule added"@, None)
            },
            Err(e) => {
                &&& e@ == "failed to generate rule id"@
                &&& exists|done: Seq<DbRuleView>| done.len() < add_titles(options@).len()
                    && #[trigger] batch_added(old(store)@, final(store)@, done, add_titles(options@), add_contents(options@), opt_value(options@, "tags"@))
                &&& exists|ns: Seq<u128>| ids_exhausted(final(store)@.rules, ns)
            },
        },
{
    add_scope_check(options)?;
    let title = required(options, "title")?;
    let content = required(options, "content")?;
    let titles = split_batch(title.as_str());
    let contents = split_batch(content.as_str());
    if titles.len() != contents.len() {
        return Err("batch add requires the same number of title/content segments when using English semicolon `;`".to_string());
    }
    if titles.len() == 0 {
        return Err("title and content must each hold at least one non-empty segment".to_string());
    }
    let tags_raw = opt(options, "tags");
    let ghost tv = texts_of(titles@);
    let ghost cv = texts_of(contents@);
    proof {
        crate::split::lemma_trimmed_parts_clean(split_by(title@, ';'));
        crate::split::lemma_trimmed_parts_clean(split_by(content@, ';'));
    }
    let mut changed: Vec<DbRule> = Vec::new();
    let mut i: usize = 0;
    assert(added_rows(db_views(changed@), tv, cv, tags_raw@) =~= Seq::<RuleRow>::empty());
    while i < titles.len()
        invariant
            i <= titles.len() == contents.len(),
            store.wf(),
            tv == texts_of(titles@),
            cv == texts_of(contents@),
            tv == add_titles(options@),
            cv == add_contents(options@),
            tags_raw@ == opt_value(options@, "tags"@),
            forall|j: int| 0 <= j < tv.len() ==> (#[trigger] tv[j]).len() > 0 && trim_seq(tv[j]) == tv[j],
            forall|j: int| 0 <= j < cv.len() ==> (#[trigger] cv[j]).len() > 0 && trim_seq(cv[j]) == cv[j],
            changed@.len() == i,
            add_refusal(options@) is None,
            batch_added(old(store)@, store@, db_views(changed@), tv, cv, tags_raw@),
        decreases titles.len() - i,
    {
        let ghost done = db_views(changed@);
        let ghost v_before = store@;
        assert(tv[i as int] == titles@[i as int]@ && cv[i as int] == contents@[i as int]@);
        match store.insert_rule(titles[i].as_str(), contents[i].as_str(), tags_raw.as_str()) {
            Ok(rule) => {
                let ghost row = added_row(rule.id@, tv[i as int], cv[i as int], tags_raw@, rule.created_at@);
                changed.push(rule);
                let ghost done2 = db_views(changed@);
                assert(done2 =~= done.push(changed@[i as int]@));
                assert(added_rows(done2, tv, cv, tags_raw@) =~= added_rows(done, tv, cv, tags_raw@).push(row));
                proof {
                    lemma_add_rows_push(old(store)@.rules, added_rows(done, tv, cv, tags_raw@), row);
                    assert forall|j: int| 0 <= j < done2.len() implies (exists|n: u128, k: u32| k < 1000 && #[trigger] done2[j].id == candidate_id(n, k)) by {
                        if j < i {
                            assert(done2[j] == done[j]);
                        }
                    }
                    assert forall|j: int| 0 <= j < done2.len() implies (exists|secs: Option<u64>| #[trigger] done2[j].created_at == seconds_text(secs)) by {
                        if j < i {
                            assert(done2[j] == done[j]);
                        }
                    }
                    assert forall|j: int| 0 <= j < done2.len() implies #[trigger] done2[j] == db_view(added_rows(done2, tv, cv, tags_raw@)[j], None) by {
                        if j < i {
                            assert(done2[j] == done[j]);
                        }
                    }
                }
            },
            Err(e) => {
                assert(batch_added(old(store)@, store@, done, tv, cv, tags_raw@));
                assert(done.len() < add_titles(options@).len());
                return Err(e);
            },
        }
        i += 1;
    }
    let rules = all_rules(store, None);
    let action = if changed.len() > 1 { "add-batch" } else { "add" };
    proof {
        lemma_empty_literal();
    }
    Ok(project_payload(action, &rules, None, changed, "", "project rule added", None))
}

} // verus!
