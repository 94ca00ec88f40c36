use vstd::prelude::*;
use crate::db::{among, any_rule, contains_text, not_among, RuleStore};
use crate::query::{db_views, not_found_message, selected_ids, selected_view, DbRule};
use crate::session::{now_text, seconds_text};
use crate::status::{active_text, is_active};
use crate::store::{
    has_pair, has_rule, ins_sel, keep_sels, lemma_ins_sel_wf, lemma_rule_index, not_dropped,
    rule_index, touch_sels, RuleRow, SelRow, Selection, StoreView, StoredRule,
};
use crate::text::{chars_of, texts_of, trim, trim_chars, trim_seq};

verus! {

pub open spec fn unique_pair_message() -> Seq<char> {
    "UNIQUE constraint failed: rule_selections.session_id, rule_selections.rule_id"@
}

pub open spec fn foreign_key_message() -> Seq<char> {
    "FOREIGN KEY constraint failed"@
}

/// A rule's row after a session picked it at `ts`: one more pick, picked
/// and updated at `ts`. The count stops at the largest `i64`.
pub open spec fn bumped(row: RuleRow, ts: Seq<char>) -> RuleRow {
    RuleRow {
        picked_count: if row.picked_count < i64::MAX { row.picked_count + 1 } else { row.picked_count },
        last_picked_at: ts,
        updated_at: ts,
        ..row
    }
}

/// A new selection of `rule` by `session` at `ts`, and the rule's pick
/// counted; refused as the database's constraints refuse it.
pub open spec fn pick_result(v: StoreView, session: Seq<char>, rule: Seq<char>, ts: Seq<char>) -> Result<StoreView, Seq<char>> {
    match rule_index(v.rules, rule) {
        None => Err(foreign_key_message()),
        Some(k) => if has_pair(v.sels, session, rule) {
            Err(unique_pair_message())
        } else {
            Ok(StoreView {
                rules: v.rules.update(k, bumped(v.rules[k], ts)),
                sels: ins_sel(v.sels, SelRow { session_id: session, rule_id: rule, selected_at: ts, updated_at: ts }),
            })
        },
    }
}

/// One id of a selection request: an unknown id stops the request; a
/// deprecated rule is passed over; a rule the session had selected before
/// the request is renewed; any other is picked.
pub open spec fn select_step(v: StoreView, session: Seq<char>, existing: Seq<Seq<char>>, id: Seq<char>, ts: Seq<char>) -> Result<StoreView, Seq<char>> {
    match rule_index(v.rules, trim_seq(id)) {
        None => Err(not_found_message(id)),
        Some(k) => {
            let row = v.rules[k];
            if row.status != active_text() {
                Ok(v)
            } else if existing.contains(row.id) {
                Ok(StoreView { rules: v.rules, sels: touch_sels(v.sels, session, row.id, ts) })
            } else {
                pick_result(v, session, row.id, ts)
            }
        },
    }
}

/// The ids of a selection request taken in order; the first refusal stops
/// the rest, and what came before it stays.
pub open spec fn select_all(v: StoreView, session: Seq<char>, existing: Seq<Seq<char>>, ids: Seq<Seq<char>>, ts: Seq<char>) -> (StoreView, Option<Seq<char>>)
    decreases ids.len(),
{
    if ids.len() == 0 {
        (v, None)
    } else {
        match select_step(v, session, existing, ids[0], ts) {
            Err(e) => (v, Some(e)),
            Ok(v2) => select_all(v2, session, existing, ids.drop_first(), ts),
        }
    }
}

/// The ids of the rules that are not active, in table order.
pub open spec fn inactive_ids(rows: Seq<RuleRow>) -> Seq<Seq<char>>
    decreases rows.len(),
{
    if rows.len() == 0 {
        Seq::empty()
    } else if rows.last().status != active_text() {
        inactive_ids(rows.drop_last()).push(rows.last().id)
    } else {
        inactive_ids(rows.drop_last())
    }
}

/// A rule id is among the inactive ones exactly when some row of that id
/// is not active.
pub proof fn lemma_inactive_ids(rows: Seq<RuleRow>, x: Seq<char>)
    ensures
        inactive_ids(rows).contains(x) <==> exists|i: int|
            0 <= i < rows.len() && (#[trigger] rows[i]).id == x && rows[i].status != active_text(),
    decreases rows.len(),
{
    if rows.len() > 0 {
        let d = rows.drop_last();
        lemma_inactive_ids(d, x);
        let prev = inactive_ids(d);
        if rows.last().status != active_text() {
            crate::tags::lemma_push_contains(prev, rows.last().id, x);
        }
        if exists|i: int| 0 <= i < d.len() && (#[trigger] d[i]).id == x && d[i].status != active_text() {
            let i = choose|i: int| 0 <= i < d.len() && (#[trigger] d[i]).id == x && d[i].status != active_text();
            assert(rows[i] == d[i]);
        }
        if exists|i: int| 0 <= i < rows.len() && (#[trigger] rows[i]).id == x && rows[i].status != active_text() {
            let i = choose|i: int| 0 <= i < rows.len() && (#[trigger] rows[i]).id == x && rows[i].status != active_text();
            if i < rows.len() - 1 {
                assert(d[i] == rows[i]);
            }
        }
    }
}

/// The tables after the stale selections of a replacing request are gone:
/// a non-blank session's selections of rules not among `ids`, and of rules
/// that are not active (a replaced selection holds active rules only).
pub open spec fn without_stale(v: StoreView, session: Seq<char>, ids: Seq<Seq<char>>, replace: bool) -> StoreView {
    if replace && trim_seq(session).len() > 0 {
        StoreView {
            rules: v.rules,
            sels: keep_sels(
                keep_sels(v.sels, not_dropped(session, not_among(ids))),
                not_dropped(session, among(inactive_ids(v.rules))),
            ),
        }
    } else {
        v
    }
}

/// What a selection request leaves.
pub open spec fn select_final(v: StoreView, session: Seq<char>, ids: Seq<Seq<char>>, replace: bool, ts: Seq<char>) -> (StoreView, Option<Seq<char>>) {
    select_all(without_stale(v, session, ids, replace), session, selected_ids(v.sels, session), ids, ts)
}

/// Whether a selection request from `v0` that left `v1` and answered `r`
/// did what `select_final` says.
pub open spec fn select_outcome(v0: StoreView, v1: StoreView, r: Result<Vec<DbRule>, String>, session: Seq<char>, ids: Seq<Seq<char>>, replace: bool, ts: Seq<char>) -> bool {
    let (v, err) = select_final(v0, session, ids, replace, ts);
    &&& v1 == v
    &&& match err {
        Some(e) => r matches Err(x) && x@ == e,
        None => r matches Ok(list) && db_views(list@) == selected_view(v.rules, v.sels, session, false),
    }
}

/// Whether a pick from `v0` that left `v1` and answered `r` did what
/// `pick_result` says.
pub open spec fn pick_outcome(v0: StoreView, v1: StoreView, r: Result<bool, String>, session: Seq<char>, rule: Seq<char>, ts: Seq<char>) -> bool {
    match pick_result(v0, session, rule, ts) {
        Ok(v) => v1 == v && r == Ok::<bool, String>(true),
        Err(e) => v1 == v0 && (r matches Err(x) && x@ == e),
    }
}

impl RuleStore {
    /// The ids of the rules that are not active, in table order.
    pub fn inactive_rule_ids(&self) -> (r: Vec<String>)
        requires
            self.wf(),
        ensures
            texts_of(r@) == inactive_ids(self@.rules),
    {
        let rows = self.rules();
        let ghost rv = self@.rules;
        let mut out: Vec<String> = Vec::new();
        let mut i: usize = 0;
        while i < rows.len()
            invariant
                i <= rows.len(),
                rv == crate::db::rule_rows(rows@),
                texts_of(out@) == inactive_ids(rv.take(i as int)),
            decreases rows.len() - i,
        {
            assert(rv.take(i + 1).drop_last() =~= rv.take(i as int));
            assert(rv.take(i + 1).last() == rows@[i as int]@);
            if !is_active(rows[i].status.as_str()) {
                out.push(rows[i].id.clone());
                assert(texts_of(out@) =~= inactive_ids(rv.take(i as int)).push(rows@[i as int]@.id));
            }
            i += 1;
        }
        assert(rv.take(rows.len() as int) =~= rv);
        out
    }

    /// Records that `session` picked rule `rule` at `ts` and counts the pick.
    pub fn pick_rule_at(&mut self, session: &str, rule: &str, ts: &str) -> (r: Result<(), String>)
        requires
            old(self).wf(),
        ensures
            final(self).wf(),
            match pick_result(old(self)@, session@, rule@, ts@) {
                Ok(v) => final(self)@ == v && r is Ok,
                Err(e) => final(self)@ == old(self)@ && (r matches Err(x) && x@ == e),
            },
    {
        proof {
            lemma_rule_index(self@.rules, rule@);
        }
        let k = match self.find_rule(rule) {
            Some(k) => k,
            None => return Err("FOREIGN KEY constraint failed".to_string()),
        };
        if self.has_selection(session, rule) {
            return Err("UNIQUE constraint failed: rule_selections.session_id, rule_selections.rule_id".to_string());
        }
        let sel = Selection {
            session_id: session.to_string(),
            rule_id: rule.to_string(),
            selected_at: ts.to_string(),
            updated_at: ts.to_string(),
        };
        self.insert_sel_row(sel);
        let rows = self.rules();
        assert(crate::db::rule_rows(rows@)[k as int] == rows@[k as int]@);
        let old_row = &rows[k];
        let count = if old_row.picked_count < i64::MAX { old_row.picked_count + 1 } else { old_row.picked_count };
        let nr = StoredRule {
            id: old_row.id.clone(),
            title: old_row.title.clone(),
            status: old_row.status.clone(),
            created_at: old_row.created_at.clone(),
            updated_at: ts.to_string(),
            picked_count: count,
            last_picked_at: ts.to_string(),
            content: old_row.content.clone(),
            tags_json: old_row.tags_json.clone(),
            search_text: old_row.search_text.clone(),
        };
        self.replace_rule(k, nr);
        Ok(())
    }

    /// Records that `session` picked rule `rule` unless it had already
    /// selected it; tells whether it recorded a new selection.
    pub fn select_existing_rule_for_session_at(&mut self, session: &str, rule: &str, ts: &str) -> (r: Result<bool, String>)
        requires
            old(self).wf(),
        ensures
            final(self).wf(),
            selected_ids(old(self)@.sels, session@).contains(rule@) ==> final(self)@ == old(self)@ && r == Ok::<bool, String>(false),
            !selected_ids(old(self)@.sels, session@).contains(rule@) ==> pick_outcome(old(self)@, final(self)@, r, session@, rule@, ts@),
    {
        let existing = self.get_selected_ids(session);
        if contains_text(&existing, rule) {
            return Ok(false);
        }
        self.pick_rule_at(session, rule, ts)?;
        Ok(true)
    }

    /// Records now that `session` picked rule `rule` unless it had already
    /// selected it.
    pub fn select_existing_rule_for_session(&mut self, session: &str, rule: &str) -> (r: Result<bool, String>)
        requires
            old(self).wf(),
        ensures
            final(self).wf(),
            selected_ids(old(self)@.sels, session@).contains(rule@) ==> final(self)@ == old(self)@ && r == Ok::<bool, String>(false),
            !selected_ids(old(self)@.sels, session@).contains(rule@) ==> exists|secs: Option<u64>|
                #[trigger] pick_outcome(old(self)@, final(self)@, r, session@, rule@, seconds_text(secs)),
    {
        let ts = now_text();
        self.select_existing_rule_for_session_at(session, rule, ts.as_str())
    }

    /// Makes `session` select the rules `ids` at `ts`: with `replace`, a
    /// non-blank session first drops its selections of other rules and of
    /// rules that are not active; then
    /// each id in turn is looked up (trimmed), passed over when deprecated,
    /// renewed when the session had selected it, picked otherwise. Answers
    /// the session's active selected rules.
    pub fn select_rules_at(&mut self, session: &str, ids: &Vec<String>, replace: bool, ts: &str) -> (r: Result<Vec<DbRule>, String>)
        requires
            old(self).wf(),
        ensures
            final(self).wf(),
            select_outcome(old(self)@, final(self)@, r, session@, texts_of(ids@), replace, ts@),
    {
        let ghost v0 = self@;
        let ghost idv = texts_of(ids@);
        let existing = self.get_selected_ids(session);
        let ghost ex = texts_of(existing@);
        let blank = trim_chars(&chars_of(session)).len() == 0;
        if replace && !blank {
            self.remove_unwanted(session, ids);
            let inactive = self.inactive_rule_ids();
            self.remove_among(session, &inactive);
        }
        assert(self@ == without_stale(v0, session@, idv, replace));
        let mut i: usize = 0;
        assert(idv.skip(0) =~= idv);
        while i < ids.len()
            invariant
                i <= ids.len(),
                self.wf(),
                idv == texts_of(ids@),
                ex == texts_of(existing@),
                ex == selected_ids(v0.sels, session@),
                v0 == old(self)@,
                select_final(v0, session@, idv, replace, ts@) == select_all(self@, session@, ex, idv.skip(i as int), ts@),
            decreases ids.len() - i,
        {
            assert(idv.skip(i as int)[0] == ids@[i as int]@);
            assert(idv.skip(i as int).drop_first() =~= idv.skip(i + 1));
            let ghost cur = self@;
            let ghost step = select_step(cur, session@, ex, ids@[i as int]@, ts@);
            assert(select_all(cur, session@, ex, idv.skip(i as int), ts@) == match step {
                Err(e) => (cur, Some(e)),
                Ok(v2) => select_all(v2, session@, ex, idv.skip(i + 1), ts@),
            });
            let key = trim(ids[i].as_str());
            proof {
                lemma_rule_index(self@.rules, key@);
            }
            let k = match self.find_rule(key.as_str()) {
                Some(k) => k,
                None => {
                    let mut msg = "rule not found: ".to_string();
                    msg.append(key.as_str());
                    assert(step == Err::<StoreView, Seq<char>>(not_found_message(ids@[i as int]@)));
                    assert(select_final(v0, session@, idv, replace, ts@) == (cur, Some(not_found_message(ids@[i as int]@))));
                    assert(msg@ == not_found_message(ids@[i as int]@));
                    return Err(msg);
                },
            };
            let rows = self.rules();
            assert(crate::db::rule_rows(rows@)[k as int] == rows@[k as int]@);
            let rid = rows[k].id.clone();
            if is_active(rows[k].status.as_str()) {
                if contains_text(&existing, rid.as_str()) {
                    self.touch_selection(session, rid.as_str(), ts);
                } else {
                    assert(step == pick_result(cur, session@, rid@, ts@));
                    self.pick_rule_at(session, rid.as_str(), ts)?;
                }
            }
            i += 1;
        }
        Ok(self.list_selected_rules(session, false))
    }

    /// Makes `session` select the rules `ids` now; see `select_rules_at`.
    pub fn select_rules(&mut self, session: &str, ids: &Vec<String>, replace: bool) -> (r: Result<Vec<DbRule>, String>)
        requires
            old(self).wf(),
        ensures
            final(self).wf(),
            exists|secs: Option<u64>| select_outcome(old(self)@, final(self)@, r, session@, texts_of(ids@), replace, seconds_text(secs)),
    {
        let ts = now_text();
        self.select_rules_at(session, ids, replace, ts.as_str())
    }

    /// Makes `session` drop its selections of `ids` (of all its rules when
    /// `ids` is empty); answers the session's active selected rules.
    pub fn unselect_rules(&mut self, session: &str, ids: &Vec<String>) -> (r: Vec<DbRule>)
        requires
            old(self).wf(),
        ensures
            final(self).wf(),
            final(self)@ == (StoreView {
                rules: old(self)@.rules,
                sels: if ids.len() == 0 {
                    keep_sels(old(self)@.sels, not_dropped(session@, any_rule()))
                } else {
                    keep_sels(old(self)@.sels, not_dropped(session@, among(texts_of(ids@))))
                },
            }),
            db_views(r@) == selected_view(final(self)@.rules, final(self)@.sels, session@, false),
    {
        if ids.len() == 0 {
            self.remove_session(session);
        } else {
            self.remove_among(session, ids);
        }
        self.list_selected_rules(session, false)
    }
}

} // verus!
