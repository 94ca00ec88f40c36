use vstd::prelude::*;
use crate::order::lex_less;
use crate::status::is_status;
use crate::store::{
    copy_rule, copy_selection, has_pair, has_rule, ins_rule, ins_sel, keep_sels, lemma_ins_rule_split,
    lemma_ins_rule_wf, lemma_ins_sel_split, lemma_ins_sel_wf, lemma_keep_sels_wf, lemma_drop_rule,
    lemma_rule_index, lemma_sels_wf_more_rules, lemma_touch_sels, lemma_update_rule, drop_rule,
    not_dropped, not_of_rule, rule_index, rule_lt, rules_wf, sel_lt, sels_wf, store_wf,
    touch_sels, RuleRow, SelRow, Selection, StoreView, StoredRule,
};
use crate::text::{chars_eq, chars_of, texts_of};

verus! {

/// The rules table and the selections table of a project's rule database.
pub struct RuleStore {
    rules: Vec<StoredRule>,
    selections: Vec<Selection>,
}

pub open spec fn rule_rows(v: Seq<StoredRule>) -> Seq<RuleRow> {
    v.map_values(|r: StoredRule| r@)
}

pub open spec fn sel_rows(v: Seq<Selection>) -> Seq<SelRow> {
    v.map_values(|s: Selection| s@)
}

impl View for RuleStore {
    type V = StoreView;

    closed spec fn view(&self) -> StoreView {
        StoreView { rules: rule_rows(self.rules@), sels: sel_rows(self.selections@) }
    }
}

/// Marks every rule.
pub open spec fn any_rule() -> spec_fn(Seq<char>) -> bool {
    |r: Seq<char>| true
}

/// Marks the rules among `ids`.
pub open spec fn among(ids: Seq<Seq<char>>) -> spec_fn(Seq<char>) -> bool {
    |r: Seq<char>| ids.contains(r)
}

/// Marks the rules not among `ids`.
pub open spec fn not_among(ids: Seq<Seq<char>>) -> spec_fn(Seq<char>) -> bool {
    |r: Seq<char>| !ids.contains(r)
}

pub fn rule_less(a: &StoredRule, b: &StoredRule) -> (r: bool)
    ensures
        r == rule_lt(a@, b@),
{
    lex_less(a.created_at.as_str(), b.created_at.as_str()) || (a.created_at == b.created_at
        && lex_less(a.id.as_str(), b.id.as_str()))
}

pub fn sel_less(a: &Selection, b: &Selection) -> (r: bool)
    ensures
        r == sel_lt(a@, b@),
{
    lex_less(a.selected_at.as_str(), b.selected_at.as_str()) || (a.selected_at == b.selected_at
        && lex_less(a.rule_id.as_str(), b.rule_id.as_str()))
}

impl RuleStore {
    pub open spec fn wf(&self) -> bool {
        store_wf(self@)
    }

    /// An empty database.
    pub fn new() -> (s: RuleStore)
        ensures
            s.wf(),
            s@.rules == Seq::<RuleRow>::empty(),
            s@.sels == Seq::<SelRow>::empty(),
    {
        let s = RuleStore { rules: Vec::new(), selections: Vec::new() };
        assert(s@.rules =~= Seq::<RuleRow>::empty());
        assert(s@.sels =~= Seq::<SelRow>::empty());
        s
    }

    /// The rules, in listing order.
    pub fn rules(&self) -> (r: &Vec<StoredRule>)
        ensures
            rule_rows(r@) == self@.rules,
    {
        &self.rules
    }

    /// The selections, in listing order.
    pub fn selections(&self) -> (r: &Vec<Selection>)
        ensures
            sel_rows(r@) == self@.sels,
    {
        &self.selections
    }

    /// The index of the rule with the given id.
    pub fn find_rule(&self, id: &str) -> (r: Option<usize>)
        ensures
            match r {
                Some(i) => rule_index(self@.rules, id@) == Some(i as int) && i < self@.rules.len(),
                None => rule_index(self@.rules, id@) is None,
            },
    {
        let ghost rows = self@.rules;
        let mut i: usize = 0;
        assert(rows.skip(0) =~= rows);
        while i < self.rules.len()
            invariant
                i <= self.rules.len(),
                rows == self@.rules,
                rows.len() == self.rules.len(),
                forall|j: int| 0 <= j < i ==> (#[trigger] rows[j]).id != id@,
            decreases self.rules.len() - i,
        {
            assert(rows[i as int] == self.rules@[i as int]@);
            if crate::text::str_eq(self.rules[i].id.as_str(), id) {
                proof {
                    lemma_rule_index(rows, id@);
                    match rule_index(rows, id@) {
                        Some(k) => {
                            if k > i {
                                assert(rows[i as int].id != id@);
                            }
                        },
                        None => {
                            assert(has_rule(rows, id@));
                        },
                    }
                }
                return Some(i);
            }
            i += 1;
        }
        proof {
            lemma_rule_index(rows, id@);
        }
        None
    }

    /// Whether `session` has selected `rule`.
    pub fn has_selection(&self, session: &str, rule: &str) -> (b: bool)
        ensures
            b == has_pair(self@.sels, session@, rule@),
    {
        let ghost sels = self@.sels;
        let mut i: usize = 0;
        while i < self.selections.len()
            invariant
                i <= self.selections.len(),
                sels == self@.sels,
                sels.len() == self.selections.len(),
                forall|j: int|
                    0 <= j < i ==> !((#[trigger] sels[j]).session_id == session@ && sels[j].rule_id
                        == rule@),
            decreases self.selections.len() - i,
        {
            assert(sels[i as int] == self.selections@[i as int]@);
            if crate::text::str_eq(self.selections[i].session_id.as_str(), session)
                && crate::text::str_eq(self.selections[i].rule_id.as_str(), rule) {
                return true;
            }
            i += 1;
        }
        false
    }

    /// Puts a rule with a new id in its place.
    pub fn insert_rule_row(&mut self, r: StoredRule)
        requires
            old(self).wf(),
            !has_rule(old(self)@.rules, r@.id),
            is_status(r@.status),
        ensures
            final(self).wf(),
            final(self)@ == (StoreView { rules: ins_rule(old(self)@.rules, r@), sels: old(self)@.sels }),
    {
        let ghost rows = self@.rules;
        let ghost sels = self@.sels;
        let mut p: usize = 0;
        while p < self.rules.len() && rule_less(&self.rules[p], &r)
            invariant
                p <= self.rules.len(),
                rows == self@.rules,
                rows.len() == self.rules.len(),
                forall|i: int| 0 <= i < p ==> rule_lt(#[trigger] rows[i], r@),
            decreases self.rules.len() - p,
        {
            assert(rows[p as int] == self.rules@[p as int]@);
            p += 1;
        }
        proof {
            let q = lemma_ins_rule_split(rows, r@);
            if p < rows.len() {
                assert(rows[p as int] == self.rules@[p as int]@);
            }
            if (p as int) < q {
                assert(rule_lt(rows[p as int], r@));
            }
            if q < (p as int) {
                assert(rule_lt(rows[q], r@));
            }
            assert(p as int == q);
            lemma_ins_rule_wf(rows, r@);
            lemma_sels_wf_more_rules(sels, rows, ins_rule(rows, r@));
        }
        self.rules.insert(p, r);
        assert(rule_rows(self.rules@) =~= rows.take(p as int) + seq![r@] + rows.skip(p as int));
    }

    /// Adds a selection of an existing rule that the session had not made.
    pub fn insert_sel_row(&mut self, x: Selection)
        requires
            old(self).wf(),
            has_rule(old(self)@.rules, x@.rule_id),
            !has_pair(old(self)@.sels, x@.session_id, x@.rule_id),
        ensures
            final(self).wf(),
            final(self)@ == (StoreView { rules: old(self)@.rules, sels: ins_sel(old(self)@.sels, x@) }),
    {
        let ghost rows = self@.rules;
        let ghost sels = self@.sels;
        let mut p: usize = 0;
        while p < self.selections.len() && !sel_less(&x, &self.selections[p])
            invariant
                p <= self.selections.len(),
                sels == self@.sels,
                sels.len() == self.selections.len(),
                forall|i: int| 0 <= i < p ==> !sel_lt(x@, #[trigger] sels[i]),
            decreases self.selections.len() - p,
        {
            assert(sels[p as int] == self.selections@[p as int]@);
            p += 1;
        }
        proof {
            let q = lemma_ins_sel_split(sels, x@);
            if p < sels.len() {
                assert(sels[p as int] == self.selections@[p as int]@);
            }
            if (p as int) < q {
                assert(!sel_lt(x@, sels[p as int]));
            }
            if q < (p as int) {
                assert(sel_lt(x@, sels[q]));
            }
            assert(p as int == q);
            lemma_ins_sel_wf(sels, rows, x@);
        }
        self.selections.insert(p, x);
        assert(sel_rows(self.selections@) =~= sels.take(p as int) + seq![x@] + sels.skip(p as int));
    }

    /// Rewrites the rule at `k`, keeping its id and creation time.
    pub fn replace_rule(&mut self, k: usize, r: StoredRule)
        requires
            old(self).wf(),
            k < old(self)@.rules.len(),
            r@.id == old(self)@.rules[k as int].id,
            r@.created_at == old(self)@.rules[k as int].created_at,
            is_status(r@.status),
        ensures
            final(self).wf(),
            final(self)@ == (StoreView {
                rules: old(self)@.rules.update(k as int, r@),
                sels: old(self)@.sels,
            }),
    {
        let ghost rows = self@.rules;
        proof {
            lemma_update_rule(rows, k as int, r@);
            lemma_sels_wf_more_rules(self@.sels, rows, rows.update(k as int, r@));
        }
        self.rules.set(k, r);
        assert(rule_rows(self.rules@) =~= rows.update(k as int, r@));
    }

    /// Deletes the rule with id `id`, and its selections with it.
    pub fn remove_rule(&mut self, id: &str)
        requires
            old(self).wf(),
        ensures
            final(self).wf(),
            final(self)@ == (StoreView {
                rules: drop_rule(old(self)@.rules, id@),
                sels: keep_sels(old(self)@.sels, not_of_rule(id@)),
            }),
    {
        let ghost rows = self@.rules;
        let ghost sels = self@.sels;
        let mut kept: Vec<StoredRule> = Vec::new();
        let mut i: usize = 0;
        while i < self.rules.len()
            invariant
                i <= self.rules.len(),
                rows == rule_rows(self.rules@),
                rule_rows(kept@) == drop_rule(rows.take(i as int), id@),
            decreases self.rules.len() - i,
        {
            assert(rows.take(i + 1).drop_last() =~= rows.take(i as int));
            assert(rows.take(i + 1).last() == self.rules@[i as int]@);
            if !crate::text::str_eq(self.rules[i].id.as_str(), id) {
                let c = copy_rule(&self.rules[i]);
                kept.push(c);
                assert(rule_rows(kept@) =~= drop_rule(rows.take(i as int), id@).push(rows[i as int]));
            }
            i += 1;
        }
        assert(rows.take(rows.len() as int) =~= rows);
        let mut kept_sels: Vec<Selection> = Vec::new();
        let mut j: usize = 0;
        while j < self.selections.len()
            invariant
                j <= self.selections.len(),
                sels == sel_rows(self.selections@),
                sel_rows(kept_sels@) == keep_sels(sels.take(j as int), not_of_rule(id@)),
            decreases self.selections.len() - j,
        {
            assert(sels.take(j + 1).drop_last() =~= sels.take(j as int));
            assert(sels.take(j + 1).last() == self.selections@[j as int]@);
            if !crate::text::str_eq(self.selections[j].rule_id.as_str(), id) {
                let c = copy_selection(&self.selections[j]);
                kept_sels.push(c);
                assert(sel_rows(kept_sels@) =~= keep_sels(sels.take(j as int), not_of_rule(id@)).push(sels[j as int]));
            }
            j += 1;
        }
        assert(sels.take(sels.len() as int) =~= sels);
        proof {
            lemma_drop_rule(rows, id@);
            assert forall|x: SelRow| sels.contains(x) && not_of_rule(id@)(x) implies #[trigger] has_rule(drop_rule(rows, id@), x.rule_id) by {
                let a = choose|a: int| 0 <= a < sels.len() && sels[a] == x;
                assert(has_rule(rows, sels[a].rule_id));
            }
            lemma_keep_sels_wf(sels, rows, not_of_rule(id@), drop_rule(rows, id@));
        }
        self.rules = kept;
        self.selections = kept_sels;
    }

    /// Deletes the selections of `session` whose rule `drop` marks; `drop`
    /// is one of: the rule `rule` alone, every rule, the rules not among
    /// `ids`.
    fn remove_selections(&mut self, session: &str, which: SelectionDrop, Ghost(drop): Ghost<spec_fn(Seq<char>) -> bool>)
        requires
            old(self).wf(),
            which.marks(drop),
        ensures
            final(self).wf(),
            final(self)@ == (StoreView {
                rules: old(self)@.rules,
                sels: keep_sels(old(self)@.sels, not_dropped(session@, drop)),
            }),
    {
        let ghost rows = self@.rules;
        let ghost sels = self@.sels;
        let mut kept_sels: Vec<Selection> = Vec::new();
        let mut j: usize = 0;
        while j < self.selections.len()
            invariant
                j <= self.selections.len(),
                which.marks(drop),
                sels == sel_rows(self.selections@),
                sel_rows(kept_sels@) == keep_sels(sels.take(j as int), not_dropped(session@, drop)),
            decreases self.selections.len() - j,
        {
            assert(sels.take(j + 1).drop_last() =~= sels.take(j as int));
            assert(sels.take(j + 1).last() == self.selections@[j as int]@);
            let same_session = crate::text::str_eq(self.selections[j].session_id.as_str(), session);
            let dropped = which.drops(self.selections[j].rule_id.as_str(), Ghost(drop));
            if !(same_session && dropped) {
                let c = copy_selection(&self.selections[j]);
                kept_sels.push(c);
                assert(sel_rows(kept_sels@) =~= keep_sels(sels.take(j as int), not_dropped(session@, drop)).push(sels[j as int]));
            }
            j += 1;
        }
        assert(sels.take(sels.len() as int) =~= sels);
        proof {
            assert forall|x: SelRow| sels.contains(x) && not_dropped(session@, drop)(x) implies #[trigger] has_rule(rows, x.rule_id) by {
                let a = choose|a: int| 0 <= a < sels.len() && sels[a] == x;
                assert(has_rule(rows, sels[a].rule_id));
            }
            lemma_keep_sels_wf(sels, rows, not_dropped(session@, drop), rows);
        }
        self.selections = kept_sels;
    }

    /// Deletes every selection of `session`.
    pub fn remove_session(&mut self, session: &str)
        requires
            old(self).wf(),
        ensures
            final(self).wf(),
            final(self)@ == (StoreView {
                rules: old(self)@.rules,
                sels: keep_sels(old(self)@.sels, not_dropped(session@, any_rule())),
            }),
    {
        self.remove_selections(session, SelectionDrop::All, Ghost(any_rule()));
    }

    /// Deletes the selections of `session` of rules not among `ids`.
    pub fn remove_unwanted(&mut self, session: &str, ids: &Vec<String>)
        requires
            old(self).wf(),
        ensures
            final(self).wf(),
            final(self)@ == (StoreView {
                rules: old(self)@.rules,
                sels: keep_sels(old(self)@.sels, not_dropped(session@, not_among(texts_of(ids@)))),
            }),
    {
        let copy = copy_strings(ids);
        self.remove_selections(session, SelectionDrop::NotAmong(copy), Ghost(not_among(texts_of(ids@))));
    }

    /// Deletes the selections of `session` of rules among `ids`.
    pub fn remove_among(&mut self, session: &str, ids: &Vec<String>)
        requires
            old(self).wf(),
        ensures
            final(self).wf(),
            final(self)@ == (StoreView {
                rules: old(self)@.rules,
                sels: keep_sels(old(self)@.sels, not_dropped(session@, among(texts_of(ids@)))),
            }),
    {
        let copy = copy_strings(ids);
        self.remove_selections(session, SelectionDrop::Among(copy), Ghost(among(texts_of(ids@))));
    }

    /// Marks the selection of `rule` by `session` as renewed at `ts`.
    pub fn touch_selection(&mut self, session: &str, rule: &str, ts: &str)
        requires
            old(self).wf(),
        ensures
            final(self).wf(),
            final(self)@ == (StoreView {
                rules: old(self)@.rules,
                sels: touch_sels(old(self)@.sels, session@, rule@, ts@),
            }),
    {
        let ghost rows = self@.rules;
        let ghost sels = self@.sels;
        let mut j: usize = 0;
        while j < self.selections.len()
            invariant
                j <= self.selections.len(),
                sels.len() == self.selections.len(),
                rule_rows(self.rules@) == rows,
                forall|k: int| 0 <= k < j ==> (#[trigger] self.selections@[k])@ == touch_sels(sels, session@, rule@, ts@)[k],
                forall|k: int| j <= k < sels.len() ==> (#[trigger] self.selections@[k])@ == sels[k],
            decreases self.selections.len() - j,
        {
            if crate::text::str_eq(self.selections[j].session_id.as_str(), session)
                && crate::text::str_eq(self.selections[j].rule_id.as_str(), rule) {
                let c = Selection {
                    session_id: self.selections[j].session_id.clone(),
                    rule_id: self.selections[j].rule_id.clone(),
                    selected_at: self.selections[j].selected_at.clone(),
                    updated_at: ts.to_string(),
                };
                self.selections.set(j, c);
            }
            j += 1;
        }
        proof {
            lemma_touch_sels(sels, rows, session@, rule@, ts@);
        }
        assert(sel_rows(self.selections@) =~= touch_sels(sels, session@, rule@, ts@));
    }
}

/// Rows that a database holding them could have: unique rule ids, valid
/// statuses, selections of existing rules, one per session and rule.
pub open spec fn rows_consistent(rules: Seq<RuleRow>, sels: Seq<SelRow>) -> bool {
    &&& forall|i: int, j: int| 0 <= i < j < rules.len() ==> (#[trigger] rules[i]).id != (#[trigger] rules[j]).id
    &&& forall|i: int| 0 <= i < rules.len() ==> is_status((#[trigger] rules[i]).status)
    &&& forall|i: int| 0 <= i < sels.len() ==> has_rule(rules, (#[trigger] sels[i]).rule_id)
    &&& forall|i: int, j: int|
        0 <= i < j < sels.len() ==> !((#[trigger] sels[i]).session_id == (#[trigger] sels[j]).session_id
            && sels[i].rule_id == sels[j].rule_id)
}

impl RuleStore {
    /// The database holding the given rows, each table put in listing
    /// order; refused when the rows break the tables' constraints.
    pub fn from_rows(rules: Vec<StoredRule>, selections: Vec<Selection>) -> (r: Result<RuleStore, String>)
        ensures
            r is Ok <==> rows_consistent(rule_rows(rules@), sel_rows(selections@)),
            r matches Ok(st) ==> {
                &&& st.wf()
                &&& forall|x: RuleRow| #[trigger] st@.rules.contains(x) <==> rule_rows(rules@).contains(x)
                &&& forall|x: SelRow| #[trigger] st@.sels.contains(x) <==> sel_rows(selections@).contains(x)
            },
    {
        let ghost rr = rule_rows(rules@);
        let ghost ss = sel_rows(selections@);
        let mut st = RuleStore::new();
        let mut rule_vec = rules;
        let n = rule_vec.len();
        let mut i: usize = 0;
        while i < n
            invariant
                i <= n == rule_vec.len(),
                rr == rule_rows(rules@),
                ss == sel_rows(selections@),
                rr.len() == n,
                forall|k: int| i <= k < n ==> (#[trigger] rule_vec@[k])@ == rr[k],
                st.wf(),
                st@.sels == Seq::<SelRow>::empty(),
                forall|x: RuleRow| #[trigger] st@.rules.contains(x) <==> rr.take(i as int).contains(x),
                forall|a: int, b: int| 0 <= a < b < i ==> (#[trigger] rr[a]).id != (#[trigger] rr[b]).id,
                forall|a: int| 0 <= a < i ==> is_status((#[trigger] rr[a]).status),
            decreases n - i,
        {
            let mut row = StoredRule {
                id: String::new(), title: String::new(), status: String::new(), created_at: String::new(),
                updated_at: String::new(), picked_count: 0, last_picked_at: String::new(),
                content: String::new(), tags_json: String::new(), search_text: String::new(),
            };
            std::mem::swap(&mut row, &mut rule_vec[i]);
            assert(row@ == rr[i as int]);
            let ok_status = crate::status::is_active(row.status.as_str()) || crate::text::str_eq(row.status.as_str(), crate::status::deprecated_string().as_str());
            if !ok_status {
                assert(!rows_consistent(rr, ss));
                return Err("CHECK constraint failed: status IN ('active', 'deprecated')".to_string());
            }
            proof {
                lemma_rule_index(st@.rules, row@.id);
            }
            if self_find(&st, row.id.as_str()) {
                proof {
                    let k = choose|k: int| 0 <= k < st@.rules.len() && (#[trigger] st@.rules[k]).id == row@.id;
                    assert(st@.rules.contains(st@.rules[k]));
                    let a = choose|a: int| 0 <= a < i && rr.take(i as int)[a] == st@.rules[k];
                    assert(rr[a].id == rr[i as int].id);
                    assert(!rows_consistent(rr, ss));
                }
                return Err("UNIQUE constraint failed: rules.id".to_string());
            }
            proof {
                assert forall|a: int| 0 <= a < i implies rr[a].id != rr[i as int].id by {
                    assert(rr.take(i as int).contains(rr[a])) by {
                        assert(rr.take(i as int)[a] == rr[a]);
                    }
                    assert(st@.rules.contains(rr[a]));
                    let k = choose|k: int| 0 <= k < st@.rules.len() && st@.rules[k] == rr[a];
                    assert(has_rule(st@.rules, rr[a].id));
                }
                lemma_ins_rule_wf(st@.rules, row@);
                assert forall|x: RuleRow| ins_rule(st@.rules, row@).contains(x) <==> #[trigger] rr.take(i + 1).contains(x) by {
                    assert(rr.take(i + 1) =~= rr.take(i as int).push(rr[i as int]));
                    crate::store::lemma_push_contains_row(rr.take(i as int), rr[i as int], x);
                }
            }
            st.insert_rule_row(row);
            i += 1;
        }
        assert(rr.take(n as int) =~= rr);
        let mut sel_vec = selections;
        let m = sel_vec.len();
        let mut j: usize = 0;
        while j < m
            invariant
                j <= m == sel_vec.len(),
                rr == rule_rows(rules@),
                ss == sel_rows(selections@),
                ss.len() == m,
                forall|k: int| j <= k < m ==> (#[trigger] sel_vec@[k])@ == ss[k],
                st.wf(),
                forall|x: RuleRow| #[trigger] st@.rules.contains(x) <==> rr.contains(x),
                forall|a: int, b: int| 0 <= a < b < n ==> (#[trigger] rr[a]).id != (#[trigger] rr[b]).id,
                forall|a: int| 0 <= a < n ==> is_status((#[trigger] rr[a]).status),
                rr.len() == n,
                forall|x: SelRow| #[trigger] st@.sels.contains(x) <==> ss.take(j as int).contains(x),
                forall|a: int| 0 <= a < j ==> has_rule(rr, (#[trigger] ss[a]).rule_id),
                forall|a: int, b: int|
                    0 <= a < b < j ==> !((#[trigger] ss[a]).session_id == (#[trigger] ss[b]).session_id
                        && ss[a].rule_id == ss[b].rule_id),
            decreases m - j,
        {
            let mut x = Selection {
                session_id: String::new(), rule_id: String::new(), selected_at: String::new(), updated_at: String::new(),
            };
            std::mem::swap(&mut x, &mut sel_vec[j]);
            assert(x@ == ss[j as int]);
            proof {
                lemma_rule_index(st@.rules, x@.rule_id);
            }
            if !self_find(&st, x.rule_id.as_str()) {
                proof {
                    if has_rule(rr, x@.rule_id) {
                        let a = choose|a: int| 0 <= a < rr.len() && (#[trigger] rr[a]).id == x@.rule_id;
                        assert(rr.contains(rr[a]));
                        assert(st@.rules.contains(rr[a]));
                        let k = choose|k: int| 0 <= k < st@.rules.len() && st@.rules[k] == rr[a];
                        assert(has_rule(st@.rules, x@.rule_id));
                    }
                    assert(!rows_consistent(rr, ss));
                }
                return Err("FOREIGN KEY constraint failed".to_string());
            }
            if st.has_selection(x.session_id.as_str(), x.rule_id.as_str()) {
                proof {
                    let k = choose|k: int| 0 <= k < st@.sels.len() && (#[trigger] st@.sels[k]).session_id == x@.session_id && st@.sels[k].rule_id == x@.rule_id;
                    assert(st@.sels.contains(st@.sels[k]));
                    let a = choose|a: int| 0 <= a < j && ss.take(j as int)[a] == st@.sels[k];
                    assert(ss[a].session_id == ss[j as int].session_id);
                    assert(!rows_consistent(rr, ss));
                }
                return Err("UNIQUE constraint failed: rule_selections.session_id, rule_selections.rule_id".to_string());
            }
            proof {
                assert(has_rule(rr, x@.rule_id)) by {
                    let k = choose|k: int| 0 <= k < st@.rules.len() && (#[trigger] st@.rules[k]).id == x@.rule_id;
                    assert(st@.rules.contains(st@.rules[k]));
                    let a = choose|a: int| 0 <= a < rr.len() && rr[a] == st@.rules[k];
                    assert(rr[a].id == x@.rule_id);
                }
                assert forall|a: int| 0 <= a < j implies !(ss[a].session_id == ss[j as int].session_id && ss[a].rule_id == ss[j as int].rule_id) by {
                    assert(ss.take(j as int)[a] == ss[a]);
                    assert(st@.sels.contains(ss[a]));
                    let k = choose|k: int| 0 <= k < st@.sels.len() && st@.sels[k] == ss[a];
                    if ss[a].session_id == ss[j as int].session_id && ss[a].rule_id == ss[j as int].rule_id {
                        assert(has_pair(st@.sels, x@.session_id, x@.rule_id));
                    }
                }
                lemma_ins_sel_wf(st@.sels, st@.rules, x@);
                assert forall|y: SelRow| ins_sel(st@.sels, x@).contains(y) <==> #[trigger] ss.take(j + 1).contains(y) by {
                    assert(ss.take(j + 1) =~= ss.take(j as int).push(ss[j as int]));
                    crate::store::lemma_push_contains_sel(ss.take(j as int), ss[j as int], y);
                }
            }
            st.insert_sel_row(x);
            j += 1;
        }
        assert(ss.take(m as int) =~= ss);
        Ok(st)
    }
}

fn self_find(st: &RuleStore, id: &str) -> (b: bool)
    ensures
        b == has_rule(st@.rules, id@),
{
    proof {
        lemma_rule_index(st@.rules, id@);
    }
    st.find_rule(id).is_some()
}

/// Which selections of a session to delete.
pub enum SelectionDrop {
    All,
    Among(Vec<String>),
    NotAmong(Vec<String>),
}

impl SelectionDrop {
    pub open spec fn marks(&self, drop: spec_fn(Seq<char>) -> bool) -> bool {
        match self {
            SelectionDrop::All => drop == any_rule(),
            SelectionDrop::Among(ids) => drop == among(texts_of(ids@)),
            SelectionDrop::NotAmong(ids) => drop == not_among(texts_of(ids@)),
        }
    }

    fn drops(&self, rule: &str, Ghost(drop): Ghost<spec_fn(Seq<char>) -> bool>) -> (b: bool)
        requires
            self.marks(drop),
        ensures
            b == drop(rule@),
    {
        match self {
            SelectionDrop::All => true,
            SelectionDrop::Among(ids) => contains_text(ids, rule),
            SelectionDrop::NotAmong(ids) => !contains_text(ids, rule),
        }
    }
}

/// Whether `s` is among `items`.
pub fn contains_text(items: &Vec<String>, s: &str) -> (b: bool)
    ensures
        b == texts_of(items@).contains(s@),
{
    let mut i: usize = 0;
    while i < items.len()
        invariant
            i <= items.len(),
            forall|k: int| 0 <= k < i ==> (#[trigger] items@[k])@ != s@,
        decreases items.len() - i,
    {
        if crate::text::str_eq(items[i].as_str(), s) {
            assert(texts_of(items@)[i as int] == s@);
            return true;
        }
        i += 1;
    }
    assert(!texts_of(items@).contains(s@)) by {
        if texts_of(items@).contains(s@) {
            let k = choose|k: int| 0 <= k < items.len() && texts_of(items@)[k] == s@;
            assert(items@[k]@ == s@);
        }
    }
    false
}

pub fn copy_strings(items: &Vec<String>) -> (r: Vec<String>)
    ensures
        texts_of(r@) == texts_of(items@),
        r@ == items@,
{
    let mut r: Vec<String> = Vec::new();
    let mut i: usize = 0;
    while i < items.len()
        invariant
            i <= items.len(),
            r@ =~= items@.take(i as int),
        decreases items.len() - i,
    {
        r.push(items[i].clone());
        i += 1;
    }
    assert(items@.take(items.len() as int) =~= items@);
    r
}

} // verus!
