use vstd::prelude::*;
use crate::order::{lex_lt, lex_less, lemma_lex_transitive, lemma_lex_total, lemma_lex_irreflexive};
use crate::status::{active_text, is_status};
use crate::text::{chars_eq, chars_of};

verus! {

// ---------------------------------------------------------------------------
// Rows
// ---------------------------------------------------------------------------

/// A row of the rules table joined with its row of the details table.
pub struct StoredRule {
    pub id: String,
    pub title: String,
    pub status: String,
    pub created_at: String,
    pub updated_at: String,
    pub picked_count: i64,
    pub last_picked_at: String,
    pub content: String,
    pub tags_json: String,
    pub search_text: String,
}

pub struct RuleRow {
    pub id: Seq<char>,
    pub title: Seq<char>,
    pub status: Seq<char>,
    pub created_at: Seq<char>,
    pub updated_at: Seq<char>,
    pub picked_count: int,
    pub last_picked_at: Seq<char>,
    pub content: Seq<char>,
    pub tags_json: Seq<char>,
    pub search_text: Seq<char>,
}

impl View for StoredRule {
    type V = RuleRow;

    open spec fn view(&self) -> RuleRow {
        RuleRow {
            id: self.id@,
            title: self.title@,
            status: self.status@,
            created_at: self.created_at@,
            updated_at: self.updated_at@,
            picked_count: self.picked_count as int,
            last_picked_at: self.last_picked_at@,
            content: self.content@,
            tags_json: self.tags_json@,
            search_text: self.search_text@,
        }
    }
}

/// A row of the selections table: a session has adopted a rule.
pub struct Selection {
    pub session_id: String,
    pub rule_id: String,
    pub selected_at: String,
    pub updated_at: String,
}

pub struct SelRow {
    pub session_id: Seq<char>,
    pub rule_id: Seq<char>,
    pub selected_at: Seq<char>,
    pub updated_at: Seq<char>,
}

impl View for Selection {
    type V = SelRow;

    open spec fn view(&self) -> SelRow {
        SelRow {
            session_id: self.session_id@,
            rule_id: self.rule_id@,
            selected_at: self.selected_at@,
            updated_at: self.updated_at@,
        }
    }
}

pub fn copy_rule(r: &StoredRule) -> (c: StoredRule)
    ensures
        c@ == r@,
{
    StoredRule {
        id: r.id.clone(),
        title: r.title.clone(),
        status: r.status.clone(),
        created_at: r.created_at.clone(),
        updated_at: r.updated_at.clone(),
        picked_count: r.picked_count,
        last_picked_at: r.last_picked_at.clone(),
        content: r.content.clone(),
        tags_json: r.tags_json.clone(),
        search_text: r.search_text.clone(),
    }
}

pub fn copy_selection(s: &Selection) -> (c: Selection)
    ensures
        c@ == s@,
{
    Selection {
        session_id: s.session_id.clone(),
        rule_id: s.rule_id.clone(),
        selected_at: s.selected_at.clone(),
        updated_at: s.updated_at.clone(),
    }
}

// ---------------------------------------------------------------------------
// Order and well-formedness
// ---------------------------------------------------------------------------

/// Rules are listed by creation time, then id.
pub open spec fn rule_lt(a: RuleRow, b: RuleRow) -> bool {
    lex_lt(a.created_at, b.created_at) || (a.created_at == b.created_at && lex_lt(a.id, b.id))
}

/// Selections are listed by the time of selection, then rule id.
pub open spec fn sel_lt(a: SelRow, b: SelRow) -> bool {
    lex_lt(a.selected_at, b.selected_at) || (a.selected_at == b.selected_at && lex_lt(
        a.rule_id,
        b.rule_id,
    ))
}

pub open spec fn has_rule(rows: Seq<RuleRow>, id: Seq<char>) -> bool {
    exists|i: int| 0 <= i < rows.len() && (#[trigger] rows[i]).id == id
}

pub open spec fn has_pair(sels: Seq<SelRow>, session: Seq<char>, rule: Seq<char>) -> bool {
    exists|i: int|
        0 <= i < sels.len() && (#[trigger] sels[i]).session_id == session && sels[i].rule_id
            == rule
}

pub open spec fn rules_wf(rows: Seq<RuleRow>) -> bool {
    &&& forall|i: int, j: int| 0 <= i < j < rows.len() ==> rule_lt(#[trigger] rows[i], #[trigger] rows[j])
    &&& forall|i: int, j: int| 0 <= i < j < rows.len() ==> (#[trigger] rows[i]).id != (#[trigger] rows[j]).id
    &&& forall|i: int| 0 <= i < rows.len() ==> is_status((#[trigger] rows[i]).status)
}

pub open spec fn sels_wf(sels: Seq<SelRow>, rows: Seq<RuleRow>) -> bool {
    &&& forall|i: int, j: int| 0 <= i < j < sels.len() ==> !sel_lt(#[trigger] sels[j], #[trigger] sels[i])
    &&& forall|i: int, j: int|
        0 <= i < j < sels.len() ==> !((#[trigger] sels[i]).session_id == (#[trigger] sels[j]).session_id
            && sels[i].rule_id == sels[j].rule_id)
    &&& forall|i: int| 0 <= i < sels.len() ==> has_rule(rows, (#[trigger] sels[i]).rule_id)
}

/// The two tables as the database holds them: rules in listing order with
/// unique ids and valid statuses; selections in listing order, one per
/// session and rule, each of an existing rule.
pub struct StoreView {
    pub rules: Seq<RuleRow>,
    pub sels: Seq<SelRow>,
}

pub open spec fn store_wf(v: StoreView) -> bool {
    rules_wf(v.rules) && sels_wf(v.sels, v.rules)
}

pub proof fn lemma_rule_lt_total(a: RuleRow, b: RuleRow)
    requires
        a.id != b.id,
    ensures
        rule_lt(a, b) || rule_lt(b, a),
{
    if a.created_at != b.created_at {
        lemma_lex_total(a.created_at, b.created_at);
    } else {
        lemma_lex_total(a.id, b.id);
    }
}

pub proof fn lemma_rule_lt_transitive(a: RuleRow, b: RuleRow, c: RuleRow)
    requires
        rule_lt(a, b),
        rule_lt(b, c),
    ensures
        rule_lt(a, c),
{
    if lex_lt(a.created_at, b.created_at) && lex_lt(b.created_at, c.created_at) {
        lemma_lex_transitive(a.created_at, b.created_at, c.created_at);
    }
    if a.created_at == b.created_at && b.created_at == c.created_at {
        lemma_lex_irreflexive(a.created_at);
        lemma_lex_transitive(a.id, b.id, c.id);
    }
}

pub proof fn lemma_sel_lt_transitive(a: SelRow, b: SelRow, c: SelRow)
    requires
        sel_lt(a, b),
        sel_lt(b, c),
    ensures
        sel_lt(a, c),
{
    if lex_lt(a.selected_at, b.selected_at) && lex_lt(b.selected_at, c.selected_at) {
        lemma_lex_transitive(a.selected_at, b.selected_at, c.selected_at);
    }
    if a.selected_at == b.selected_at && b.selected_at == c.selected_at {
        lemma_lex_irreflexive(a.selected_at);
        lemma_lex_transitive(a.rule_id, b.rule_id, c.rule_id);
    }
}

/// `!sel_lt(b, a)` is `a` at or before `b`; it is transitive.
pub proof fn lemma_sel_le_transitive(a: SelRow, b: SelRow, c: SelRow)
    requires
        !sel_lt(b, a),
        !sel_lt(c, b),
    ensures
        !sel_lt(c, a),
{
    if sel_lt(c, a) {
        // c < a; a <= b means b < a fails, so by totality a < b or a ~ b.
        if a.selected_at != b.selected_at {
            lemma_lex_total(a.selected_at, b.selected_at);
        } else if a.rule_id != b.rule_id {
            lemma_lex_total(a.rule_id, b.rule_id);
        }
        if sel_lt(a, b) {
            lemma_sel_lt_transitive(c, a, b);
            // c < b contradicts b <= c
        } else {
            // a and b have the same key, so c < a is c < b
            assert(a.selected_at == b.selected_at && a.rule_id == b.rule_id);
        }
    }
}

// ---------------------------------------------------------------------------
// Changes to the tables, as functions on rows
// ---------------------------------------------------------------------------

/// A new rule put in its place in listing order.
pub open spec fn ins_rule(rows: Seq<RuleRow>, r: RuleRow) -> Seq<RuleRow>
    decreases rows.len(),
{
    if rows.len() == 0 {
        seq![r]
    } else if rule_lt(rows[0], r) {
        seq![rows[0]] + ins_rule(rows.drop_first(), r)
    } else {
        seq![r] + rows
    }
}

/// A new selection put after every selection that does not come after it.
pub open spec fn ins_sel(sels: Seq<SelRow>, s: SelRow) -> Seq<SelRow>
    decreases sels.len(),
{
    if sels.len() == 0 {
        seq![s]
    } else if !sel_lt(s, sels[0]) {
        seq![sels[0]] + ins_sel(sels.drop_first(), s)
    } else {
        seq![s] + sels
    }
}

/// The rules without the one with id `id`.
pub open spec fn drop_rule(rows: Seq<RuleRow>, id: Seq<char>) -> Seq<RuleRow>
    decreases rows.len(),
{
    if rows.len() == 0 {
        Seq::empty()
    } else {
        let prev = drop_rule(rows.drop_last(), id);
        if rows.last().id == id {
            prev
        } else {
            prev.push(rows.last())
        }
    }
}

/// The selections that `keep` keeps, in order.
pub open spec fn keep_sels(sels: Seq<SelRow>, keep: spec_fn(SelRow) -> bool) -> Seq<SelRow>
    decreases sels.len(),
{
    if sels.len() == 0 {
        Seq::empty()
    } else {
        let prev = keep_sels(sels.drop_last(), keep);
        if keep(sels.last()) {
            prev.push(sels.last())
        } else {
            prev
        }
    }
}

/// Keeps the selections that are not of rule `id`.
pub open spec fn not_of_rule(id: Seq<char>) -> spec_fn(SelRow) -> bool {
    |s: SelRow| s.rule_id != id
}

/// Keeps the selections other than those of `session` whose rule `drop`
/// marks.
pub open spec fn not_dropped(session: Seq<char>, drop: spec_fn(Seq<char>) -> bool) -> spec_fn(
    SelRow,
) -> bool {
    |s: SelRow| !(s.session_id == session && drop(s.rule_id))
}

/// The selection of `rule` by `session` marked as renewed at `ts`.
pub open spec fn touch_sels(
    sels: Seq<SelRow>,
    session: Seq<char>,
    rule: Seq<char>,
    ts: Seq<char>,
) -> Seq<SelRow> {
    sels.map_values(
        |s: SelRow|
            if s.session_id == session && s.rule_id == rule {
                SelRow { updated_at: ts, ..s }
            } else {
                s
            },
    )
}

/// The index of the rule with id `id`.
pub open spec fn rule_index(rows: Seq<RuleRow>, id: Seq<char>) -> Option<int>
    decreases rows.len(),
{
    if rows.len() == 0 {
        None
    } else if rows[0].id == id {
        Some(0)
    } else {
        match rule_index(rows.drop_first(), id) {
            Some(k) => Some(k + 1),
            None => None,
        }
    }
}

pub proof fn lemma_rule_index(rows: Seq<RuleRow>, id: Seq<char>)
    ensures
        match rule_index(rows, id) {
            Some(k) => 0 <= k < rows.len() && rows[k].id == id && forall|j: int|
                0 <= j < k ==> (#[trigger] rows[j]).id != id,
            None => !has_rule(rows, id),
        },
    decreases rows.len(),
{
    if rows.len() > 0 {
        lemma_rule_index(rows.drop_first(), id);
        if rows[0].id != id {
            match rule_index(rows.drop_first(), id) {
                Some(k) => {
                    assert forall|j: int| 0 <= j < k + 1 implies (#[trigger] rows[j]).id != id by {
                        if j > 0 {
                            assert(rows[j] == rows.drop_first()[j - 1]);
                        }
                    }
                },
                None => {
                    if has_rule(rows, id) {
                        let i = choose|i: int| 0 <= i < rows.len() && (#[trigger] rows[i]).id == id;
                        assert(rows.drop_first()[i - 1] == rows[i]);
                    }
                },
            }
        }
    }
}

// ---------------------------------------------------------------------------
// Facts about the changes
// ---------------------------------------------------------------------------

/// Where `ins_rule` puts the new rule: after every rule before it.
pub proof fn lemma_ins_rule_split(rows: Seq<RuleRow>, r: RuleRow) -> (p: int)
    ensures
        0 <= p <= rows.len(),
        ins_rule(rows, r) == rows.take(p) + seq![r] + rows.skip(p),
        forall|i: int| 0 <= i < p ==> rule_lt(#[trigger] rows[i], r),
        p < rows.len() ==> !rule_lt(rows[p], r),
    decreases rows.len(),
{
    if rows.len() == 0 {
        assert(ins_rule(rows, r) =~= rows.take(0) + seq![r] + rows.skip(0));
        0
    } else if rule_lt(rows[0], r) {
        let q = lemma_ins_rule_split(rows.drop_first(), r);
        let d = rows.drop_first();
        assert(seq![rows[0]] + (d.take(q) + seq![r] + d.skip(q)) =~= rows.take(q + 1) + seq![r]
            + rows.skip(q + 1));
        assert forall|i: int| 0 <= i < q + 1 implies rule_lt(#[trigger] rows[i], r) by {
            if i > 0 {
                assert(rows[i] == d[i - 1]);
            }
        }
        q + 1
    } else {
        assert(ins_rule(rows, r) =~= rows.take(0) + seq![r] + rows.skip(0));
        0
    }
}

/// Putting a rule with a new id and a valid status in its place keeps the
/// rules table well formed and adds exactly that rule.
pub proof fn lemma_ins_rule_wf(rows: Seq<RuleRow>, r: RuleRow)
    requires
        rules_wf(rows),
        !has_rule(rows, r.id),
        is_status(r.status),
    ensures
        rules_wf(ins_rule(rows, r)),
        ins_rule(rows, r).len() == rows.len() + 1,
        forall|x: RuleRow| #[trigger] ins_rule(rows, r).contains(x) <==> rows.contains(x) || x == r,
        forall|id: Seq<char>| #[trigger] has_rule(ins_rule(rows, r), id) <==> has_rule(rows, id) || id == r.id,
{
    let p = lemma_ins_rule_split(rows, r);
    let n = ins_rule(rows, r);
    assert(n.len() == rows.len() + 1);
    assert forall|i: int| 0 <= i < n.len() implies #[trigger] n[i] == (if i < p {
        rows[i]
    } else if i == p {
        r
    } else {
        rows[i - 1]
    }) by {}
    assert forall|i: int| p <= i < rows.len() implies rule_lt(r, #[trigger] rows[i]) by {
        assert(rows[p].id != r.id);
        lemma_rule_lt_total(rows[p], r);
        if i > p {
            lemma_rule_lt_transitive(r, rows[p], rows[i]);
        }
    }
    assert forall|i: int, j: int| 0 <= i < j < n.len() implies rule_lt(#[trigger] n[i], #[trigger] n[j]) by {
        if j < p {
        } else if j == p {
        } else if i < p {
            lemma_rule_lt_transitive(rows[i], r, rows[j - 1]);
        } else if i == p {
        } else {
        }
    }
    assert forall|i: int, j: int| 0 <= i < j < n.len() implies (#[trigger] n[i]).id != (#[trigger] n[j]).id by {
        if i != p && j != p {
            let a = if i < p { i } else { i - 1 };
            let b = if j < p { j } else { j - 1 };
            assert(rows[a].id != rows[b].id);
        } else if i == p {
            assert(has_rule(rows, rows[j - 1].id));
        } else {
            assert(has_rule(rows, rows[i].id));
        }
    }
    assert forall|i: int| 0 <= i < n.len() implies is_status((#[trigger] n[i]).status) by {}
    assert forall|x: RuleRow| #[trigger] n.contains(x) <==> rows.contains(x) || x == r by {
        if n.contains(x) {
            let i = choose|i: int| 0 <= i < n.len() && n[i] == x;
            if i < p {
                assert(rows[i] == x);
            } else if i > p {
                assert(rows[i - 1] == x);
            }
        }
        if rows.contains(x) {
            let i = choose|i: int| 0 <= i < rows.len() && rows[i] == x;
            if i < p {
                assert(n[i] == x);
            } else {
                assert(n[i + 1] == x);
            }
        }
        if x == r {
            assert(n[p] == x);
        }
    }
    assert forall|id: Seq<char>| #[trigger] has_rule(n, id) <==> has_rule(rows, id) || id == r.id by {
        if has_rule(n, id) {
            let i = choose|i: int| 0 <= i < n.len() && (#[trigger] n[i]).id == id;
            if i < p {
                assert(rows[i].id == id);
            } else if i > p {
                assert(rows[i - 1].id == id);
            }
        }
        if has_rule(rows, id) {
            let i = choose|i: int| 0 <= i < rows.len() && (#[trigger] rows[i]).id == id;
            if i < p {
                assert(n[i].id == id);
            } else {
                assert(n[i + 1].id == id);
            }
        }
        if id == r.id {
            assert(n[p].id == id);
        }
    }
}

/// Where `ins_sel` puts the new selection: after every selection that does
/// not come after it.
pub proof fn lemma_ins_sel_split(sels: Seq<SelRow>, x: SelRow) -> (p: int)
    ensures
        0 <= p <= sels.len(),
        ins_sel(sels, x) == sels.take(p) + seq![x] + sels.skip(p),
        forall|i: int| 0 <= i < p ==> !sel_lt(x, #[trigger] sels[i]),
        p < sels.len() ==> sel_lt(x, sels[p]),
    decreases sels.len(),
{
    if sels.len() == 0 {
        assert(ins_sel(sels, x) =~= sels.take(0) + seq![x] + sels.skip(0));
        0
    } else if !sel_lt(x, sels[0]) {
        let q = lemma_ins_sel_split(sels.drop_first(), x);
        let d = sels.drop_first();
        assert(seq![sels[0]] + (d.take(q) + seq![x] + d.skip(q)) =~= sels.take(q + 1) + seq![x]
            + sels.skip(q + 1));
        assert forall|i: int| 0 <= i < q + 1 implies !sel_lt(x, #[trigger] sels[i]) by {
            if i > 0 {
                assert(sels[i] == d[i - 1]);
            }
        }
        q + 1
    } else {
        assert(ins_sel(sels, x) =~= sels.take(0) + seq![x] + sels.skip(0));
        0
    }
}

/// Adding a selection of an existing rule that the session has not yet
/// selected keeps the selections table well formed and adds exactly it.
pub proof fn lemma_ins_sel_wf(sels: Seq<SelRow>, rows: Seq<RuleRow>, x: SelRow)
    requires
        sels_wf(sels, rows),
        has_rule(rows, x.rule_id),
        !has_pair(sels, x.session_id, x.rule_id),
    ensures
        sels_wf(ins_sel(sels, x), rows),
        ins_sel(sels, x).len() == sels.len() + 1,
        forall|y: SelRow| #[trigger] ins_sel(sels, x).contains(y) <==> sels.contains(y) || y == x,
        forall|a: Seq<char>, b: Seq<char>|
            #[trigger] has_pair(ins_sel(sels, x), a, b) <==> has_pair(sels, a, b) || (a
                == x.session_id && b == x.rule_id),
{
    let p = lemma_ins_sel_split(sels, x);
    let n = ins_sel(sels, x);
    assert forall|i: int| 0 <= i < n.len() implies #[trigger] n[i] == (if i < p {
        sels[i]
    } else if i == p {
        x
    } else {
        sels[i - 1]
    }) by {}
    assert forall|i: int| p <= i < sels.len() implies !sel_lt(#[trigger] sels[i], x) by {
        if sel_lt(sels[i], x) {
            lemma_sel_lt_transitive(sels[i], x, sels[p]);
            lemma_lex_irreflexive(sels[i].selected_at);
            lemma_lex_irreflexive(sels[i].rule_id);
            if i > p {
                assert(!sel_lt(sels[i], sels[p]));
            }
        }
    }
    assert forall|i: int, j: int| 0 <= i < j < n.len() implies !sel_lt(#[trigger] n[j], #[trigger] n[i]) by {
        if j < p {
        } else if j == p {
        } else if i < p {
            lemma_sel_le_transitive(sels[i], x, sels[j - 1]);
        } else if i == p {
        } else {
        }
    }
    assert forall|i: int, j: int|
        0 <= i < j < n.len() implies !((#[trigger] n[i]).session_id == (#[trigger] n[j]).session_id
        && n[i].rule_id == n[j].rule_id) by {
        if i != p && j != p {
            let a = if i < p { i } else { i - 1 };
            let b = if j < p { j } else { j - 1 };
            assert(!(sels[a].session_id == sels[b].session_id && sels[a].rule_id == sels[b].rule_id));
        } else if i == p {
            if n[i].session_id == n[j].session_id && n[i].rule_id == n[j].rule_id {
                assert(has_pair(sels, x.session_id, x.rule_id)) by {
                    assert(sels[j - 1].session_id == x.session_id);
                }
            }
        } else {
            if n[i].session_id == n[j].session_id && n[i].rule_id == n[j].rule_id {
                assert(has_pair(sels, x.session_id, x.rule_id)) by {
                    assert(sels[i].session_id == x.session_id);
                }
            }
        }
    }
    assert forall|i: int| 0 <= i < n.len() implies has_rule(rows, (#[trigger] n[i]).rule_id) by {}
    assert forall|y: SelRow| #[trigger] n.contains(y) <==> sels.contains(y) || y == x by {
        if n.contains(y) {
            let i = choose|i: int| 0 <= i < n.len() && n[i] == y;
            if i < p {
                assert(sels[i] == y);
            } else if i > p {
                assert(sels[i - 1] == y);
            }
        }
        if sels.contains(y) {
            let i = choose|i: int| 0 <= i < sels.len() && sels[i] == y;
            if i < p {
                assert(n[i] == y);
            } else {
                assert(n[i + 1] == y);
            }
        }
        if y == x {
            assert(n[p] == y);
        }
    }
    assert forall|a: Seq<char>, b: Seq<char>|
        #[trigger] has_pair(n, a, b) <==> has_pair(sels, a, b) || (a == x.session_id && b
            == x.rule_id) by {
        if has_pair(n, a, b) {
            let i = choose|i: int|
                0 <= i < n.len() && (#[trigger] n[i]).session_id == a && n[i].rule_id == b;
            if i < p {
                assert(sels[i].session_id == a);
            } else if i > p {
                assert(sels[i - 1].session_id == a);
            }
        }
        if has_pair(sels, a, b) {
            let i = choose|i: int|
                0 <= i < sels.len() && (#[trigger] sels[i]).session_id == a && sels[i].rule_id
                    == b;
            if i < p {
                assert(n[i].session_id == a);
            } else {
                assert(n[i + 1].session_id == a);
            }
        }
        if a == x.session_id && b == x.rule_id {
            assert(n[p].session_id == a);
        }
    }
}

/// Selections stay well formed when the rules table keeps every rule id.
pub proof fn lemma_sels_wf_more_rules(sels: Seq<SelRow>, rows: Seq<RuleRow>, rows2: Seq<RuleRow>)
    requires
        sels_wf(sels, rows),
        forall|id: Seq<char>| has_rule(rows, id) ==> #[trigger] has_rule(rows2, id),
    ensures
        sels_wf(sels, rows2),
{
    assert forall|i: int| 0 <= i < sels.len() implies has_rule(rows2, (#[trigger] sels[i]).rule_id) by {
        assert(has_rule(rows, sels[i].rule_id));
    }
}

pub proof fn lemma_drop_rule(rows: Seq<RuleRow>, id: Seq<char>)
    requires
        rules_wf(rows),
    ensures
        rules_wf(drop_rule(rows, id)),
        forall|x: RuleRow| #[trigger] drop_rule(rows, id).contains(x) <==> rows.contains(x) && x.id != id,
        forall|k: Seq<char>| #[trigger] has_rule(drop_rule(rows, id), k) <==> has_rule(rows, k) && k != id,
    decreases rows.len(),
{
    if rows.len() > 0 {
        let pre = rows.drop_last();
        lemma_drop_rule(pre, id);
        let d = drop_rule(pre, id);
        let l = rows.last();
        if l.id != id {
            let n = d.push(l);
            assert forall|i: int| 0 <= i < d.len() implies rule_lt(#[trigger] d[i], l) && d[i].id != l.id by {
                assert(d.contains(d[i]));
                let a = choose|a: int| 0 <= a < pre.len() && pre[a] == d[i];
                assert(rows[a] == d[i]);
            }
            assert forall|i: int, j: int| 0 <= i < j < n.len() implies rule_lt(#[trigger] n[i], #[trigger] n[j]) by {
                if j == n.len() - 1 {
                    assert(n[i] == d[i]);
                } else {
                    assert(n[i] == d[i] && n[j] == d[j]);
                }
            }
            assert forall|i: int, j: int| 0 <= i < j < n.len() implies (#[trigger] n[i]).id != (#[trigger] n[j]).id by {
                if j == n.len() - 1 {
                    assert(n[i] == d[i]);
                } else {
                    assert(n[i] == d[i] && n[j] == d[j]);
                }
            }
            assert forall|i: int| 0 <= i < n.len() implies is_status((#[trigger] n[i]).status) by {
                if i < d.len() {
                    assert(n[i] == d[i]);
                }
            }
            assert forall|x: RuleRow| #[trigger] n.contains(x) <==> rows.contains(x) && x.id != id by {
                crate::store::lemma_push_contains_row(d, l, x);
                if rows.contains(x) && x != l {
                    let i = choose|i: int| 0 <= i < rows.len() && rows[i] == x;
                    assert(i < rows.len() - 1);
                    assert(pre.contains(x)) by { assert(pre[i] == x); }
                }
            }
            assert forall|k: Seq<char>| #[trigger] has_rule(n, k) <==> has_rule(rows, k) && k != id by {
                if has_rule(n, k) {
                    let i = choose|i: int| 0 <= i < n.len() && (#[trigger] n[i]).id == k;
                    if i < d.len() {
                        assert(n[i] == d[i]);
                        assert(has_rule(d, k));
                        assert(has_rule(pre, k));
                        let a = choose|a: int| 0 <= a < pre.len() && (#[trigger] pre[a]).id == k;
                        assert(rows[a].id == k);
                    } else {
                        assert(rows[rows.len() - 1].id == k);
                    }
                }
                if has_rule(rows, k) && k != id {
                    let i = choose|i: int| 0 <= i < rows.len() && (#[trigger] rows[i]).id == k;
                    if i < rows.len() - 1 {
                        assert(pre[i].id == k);
                        assert(has_rule(d, k));
                        let a = choose|a: int| 0 <= a < d.len() && (#[trigger] d[a]).id == k;
                        assert(n[a].id == k);
                    } else {
                        assert(n[n.len() - 1].id == k);
                    }
                }
            }
        } else {
            assert forall|x: RuleRow| #[trigger] d.contains(x) <==> rows.contains(x) && x.id != id by {
                if rows.contains(x) && x.id != id {
                    let i = choose|i: int| 0 <= i < rows.len() && rows[i] == x;
                    assert(i < rows.len() - 1);
                    assert(pre[i] == x);
                }
            }
            assert forall|k: Seq<char>| #[trigger] has_rule(d, k) <==> has_rule(rows, k) && k != id by {
                if has_rule(d, k) {
                    let a = choose|a: int| 0 <= a < pre.len() && (#[trigger] pre[a]).id == k;
                    assert(rows[a].id == k);
                }
                if has_rule(rows, k) && k != id {
                    let i = choose|i: int| 0 <= i < rows.len() && (#[trigger] rows[i]).id == k;
                    assert(pre[i].id == k);
                }
            }
        }
    } else {
        assert(drop_rule(rows, id) =~= Seq::<RuleRow>::empty());
    }
}

pub proof fn lemma_push_contains_row(s: Seq<RuleRow>, a: RuleRow, x: RuleRow)
    ensures
        s.push(a).contains(x) <==> s.contains(x) || x == a,
{
    if s.contains(x) {
        let k = choose|k: int| 0 <= k < s.len() && s[k] == x;
        assert(s.push(a)[k] == x);
    }
    if x == a {
        assert(s.push(a)[s.len() as int] == x);
    }
    if s.push(a).contains(x) && x != a {
        let k = choose|k: int| 0 <= k < s.push(a).len() && s.push(a)[k] == x;
        assert(s[k] == x);
    }
}

pub proof fn lemma_push_contains_sel(s: Seq<SelRow>, a: SelRow, x: SelRow)
    ensures
        s.push(a).contains(x) <==> s.contains(x) || x == a,
{
    if s.contains(x) {
        let k = choose|k: int| 0 <= k < s.len() && s[k] == x;
        assert(s.push(a)[k] == x);
    }
    if x == a {
        assert(s.push(a)[s.len() as int] == x);
    }
    if s.push(a).contains(x) && x != a {
        let k = choose|k: int| 0 <= k < s.push(a).len() && s.push(a)[k] == x;
        assert(s[k] == x);
    }
}

/// Keeping some of the selections keeps the table in order and one per
/// session and rule; those kept are exactly the old ones that `keep` keeps.
pub proof fn lemma_keep_sels(sels: Seq<SelRow>, rows: Seq<RuleRow>, keep: spec_fn(SelRow) -> bool)
    requires
        sels_wf(sels, rows),
    ensures
        forall|x: SelRow| #[trigger] keep_sels(sels, keep).contains(x) <==> sels.contains(x) && keep(x),
        forall|i: int, j: int|
            0 <= i < j < keep_sels(sels, keep).len() ==> !sel_lt(
                #[trigger] keep_sels(sels, keep)[j],
                #[trigger] keep_sels(sels, keep)[i],
            ),
        forall|i: int, j: int|
            0 <= i < j < keep_sels(sels, keep).len() ==> !((#[trigger] keep_sels(
                sels,
                keep,
            )[i]).session_id == (#[trigger] keep_sels(sels, keep)[j]).session_id && keep_sels(
                sels,
                keep,
            )[i].rule_id == keep_sels(sels, keep)[j].rule_id),
    decreases sels.len(),
{
    if sels.len() > 0 {
        let pre = sels.drop_last();
        let l = sels.last();
        assert(sels_wf(pre, rows)) by {
            assert forall|i: int| 0 <= i < pre.len() implies has_rule(rows, (#[trigger] pre[i]).rule_id) by {
                assert(pre[i] == sels[i]);
            }
        }
        lemma_keep_sels(pre, rows, keep);
        let d = keep_sels(pre, keep);
        assert forall|x: SelRow| #[trigger] pre.contains(x) implies sels.contains(x) by {
            if pre.contains(x) {
                let i = choose|i: int| 0 <= i < pre.len() && pre[i] == x;
                assert(sels[i] == x);
            }
        }
        assert forall|x: SelRow| sels.contains(x) && x != l implies #[trigger] pre.contains(x) by {
            if sels.contains(x) && x != l {
                let i = choose|i: int| 0 <= i < sels.len() && sels[i] == x;
                assert(pre[i] == x);
            }
        }
        if keep(l) {
            let n = d.push(l);
            assert forall|x: SelRow| #[trigger] n.contains(x) <==> sels.contains(x) && keep(x) by {
                lemma_push_contains_sel(d, l, x);
                assert(sels[sels.len() - 1] == l);
            }
            assert forall|i: int| 0 <= i < d.len() implies !sel_lt(l, #[trigger] d[i]) && !(d[i].session_id == l.session_id && d[i].rule_id == l.rule_id) by {
                assert(d.contains(d[i]));
                let a = choose|a: int| 0 <= a < pre.len() && pre[a] == d[i];
                assert(sels[a] == d[i]);
            }
            assert forall|i: int, j: int| 0 <= i < j < n.len() implies !sel_lt(#[trigger] n[j], #[trigger] n[i]) by {
                if j == n.len() - 1 {
                    assert(n[i] == d[i]);
                } else {
                    assert(n[i] == d[i] && n[j] == d[j]);
                }
            }
            assert forall|i: int, j: int|
                0 <= i < j < n.len() implies !((#[trigger] n[i]).session_id == (#[trigger] n[j]).session_id
                && n[i].rule_id == n[j].rule_id) by {
                if j == n.len() - 1 {
                    assert(n[i] == d[i]);
                } else {
                    assert(n[i] == d[i] && n[j] == d[j]);
                }
            }
        } else {
            assert forall|x: SelRow| #[trigger] d.contains(x) <==> sels.contains(x) && keep(x) by {
                if sels.contains(x) && keep(x) {
                    assert(x != l);
                }
            }
        }
    } else {
        assert(keep_sels(sels, keep) =~= Seq::<SelRow>::empty());
    }
}

/// Kept selections of rules that the rules table still holds are well
/// formed.
pub proof fn lemma_keep_sels_wf(
    sels: Seq<SelRow>,
    rows: Seq<RuleRow>,
    keep: spec_fn(SelRow) -> bool,
    rows2: Seq<RuleRow>,
)
    requires
        sels_wf(sels, rows),
        forall|x: SelRow| sels.contains(x) && keep(x) ==> #[trigger] has_rule(rows2, x.rule_id),
    ensures
        sels_wf(keep_sels(sels, keep), rows2),
        forall|x: SelRow| #[trigger] keep_sels(sels, keep).contains(x) <==> sels.contains(x) && keep(x),
{
    lemma_keep_sels(sels, rows, keep);
    let n = keep_sels(sels, keep);
    assert forall|i: int| 0 <= i < n.len() implies has_rule(rows2, (#[trigger] n[i]).rule_id) by {
        assert(n.contains(n[i]));
    }
}

pub proof fn lemma_touch_sels(sels: Seq<SelRow>, rows: Seq<RuleRow>, session: Seq<char>, rule: Seq<char>, ts: Seq<char>)
    requires
        sels_wf(sels, rows),
    ensures
        sels_wf(touch_sels(sels, session, rule, ts), rows),
        touch_sels(sels, session, rule, ts).len() == sels.len(),
        forall|i: int| 0 <= i < sels.len() ==> {
            let t = #[trigger] touch_sels(sels, session, rule, ts)[i];
            &&& t.session_id == sels[i].session_id
            &&& t.rule_id == sels[i].rule_id
            &&& t.selected_at == sels[i].selected_at
        },
        forall|a: Seq<char>, b: Seq<char>| #[trigger] has_pair(touch_sels(sels, session, rule, ts), a, b) <==> has_pair(sels, a, b),
{
    let n = touch_sels(sels, session, rule, ts);
    assert forall|i: int, j: int| 0 <= i < j < n.len() implies !sel_lt(#[trigger] n[j], #[trigger] n[i]) by {
        assert(!sel_lt(sels[j], sels[i]));
    }
    assert forall|i: int, j: int|
        0 <= i < j < n.len() implies !((#[trigger] n[i]).session_id == (#[trigger] n[j]).session_id
        && n[i].rule_id == n[j].rule_id) by {
        assert(!(sels[i].session_id == sels[j].session_id && sels[i].rule_id == sels[j].rule_id));
    }
    assert forall|i: int| 0 <= i < n.len() implies has_rule(rows, (#[trigger] n[i]).rule_id) by {
        assert(has_rule(rows, sels[i].rule_id));
    }
    assert forall|a: Seq<char>, b: Seq<char>| #[trigger] has_pair(n, a, b) <==> has_pair(sels, a, b) by {
        if has_pair(n, a, b) {
            let i = choose|i: int| 0 <= i < n.len() && (#[trigger] n[i]).session_id == a && n[i].rule_id == b;
            assert(sels[i].session_id == a);
        }
        if has_pair(sels, a, b) {
            let i = choose|i: int| 0 <= i < sels.len() && (#[trigger] sels[i]).session_id == a && sels[i].rule_id == b;
            assert(n[i].session_id == a);
        }
    }
}

/// Changing a rule's fields other than its id and creation time, to a
/// valid status, keeps the rules table well formed and the same ids.
pub proof fn lemma_update_rule(rows: Seq<RuleRow>, k: int, r: RuleRow)
    requires
        rules_wf(rows),
        0 <= k < rows.len(),
        r.id == rows[k].id,
        r.created_at == rows[k].created_at,
        is_status(r.status),
    ensures
        rules_wf(rows.update(k, r)),
        forall|id: Seq<char>| #[trigger] has_rule(rows.update(k, r), id) <==> has_rule(rows, id),
{
    let n = rows.update(k, r);
    assert forall|i: int, j: int| 0 <= i < j < n.len() implies rule_lt(#[trigger] n[i], #[trigger] n[j]) by {
        assert(rule_lt(rows[i], rows[j]));
    }
    assert forall|i: int, j: int| 0 <= i < j < n.len() implies (#[trigger] n[i]).id != (#[trigger] n[j]).id by {
        assert(rows[i].id != rows[j].id);
    }
    assert forall|id: Seq<char>| #[trigger] has_rule(n, id) <==> has_rule(rows, id) by {
        if has_rule(n, id) {
            let i = choose|i: int| 0 <= i < n.len() && (#[trigger] n[i]).id == id;
            assert(rows[i].id == id);
        }
        if has_rule(rows, id) {
            let i = choose|i: int| 0 <= i < rows.len() && (#[trigger] rows[i]).id == id;
            assert(n[i].id == id);
        }
    }
}

} // verus!
