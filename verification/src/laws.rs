use vstd::prelude::*;
use crate::db::among;
use crate::legacy::{legacy_row, legacy_step, LegacyView};
use crate::ops::retire_result;
use crate::query::{db_view, first_duplicate, get_view, DbRuleView};
use crate::split::{dedup_seq, split_by, trimmed_parts};
use crate::store::{
    drop_rule, has_pair, has_rule, ins_rule, keep_sels, lemma_drop_rule, lemma_ins_rule_split,
    lemma_ins_rule_wf, lemma_keep_sels, lemma_rule_index, not_dropped, not_of_rule, rule_index,
    rules_wf, sels_wf, store_wf, RuleRow, SelRow, StoreView,
};
use crate::tags::{batch_items, cli_tags, comma_items, flat_items, hyphenate, hyphenate_all, lemma_dedup_no_duplicates, lemma_dedup_same_items, normalized_tags, ui_tags};
use crate::session::{all_allowed, dash_fold, lemma_sanitize_idempotent, lemma_sanitized_shape, lemma_trim_dashes_shape, sanitized, trim_dashes};
use crate::text::{is_ascii_alnum, is_ws};
use crate::picks::{bumped, inactive_ids, lemma_inactive_ids, select_all, select_final, select_step, without_stale};
use crate::query::{ids_of_session, selected_ids};
use crate::db::not_among;
use crate::status::active_text;
use crate::store::{ins_sel, lemma_touch_sels, lemma_update_rule};
use crate::picker::{refreshed, RuleItemView};
use crate::split::{join_seq, nonempty_parts, split_whitespace_seq, split_ws_raw};
use crate::status::ui_status;
use crate::text::{ascii_lower_seq, trim_seq};
use crate::window::{edited, guard_run, loaded, picker_wf, saved, GuardEvent, PickerView};

verus! {

// ---------------------------------------------------------------------------
// Reading back what was written
// ---------------------------------------------------------------------------

/// A rule stored under a fresh, trimmed id is what reading that id gives
/// back.
pub proof fn law_added_rule_reads_back(v: StoreView, row: RuleRow)
    requires
        store_wf(v),
        !has_rule(v.rules, row.id),
        crate::status::is_status(row.status),
        trim_seq(row.id) == row.id,
    ensures
        get_view(ins_rule(v.rules, row), row.id) == Some(db_view(row, None)),
{
    let n = ins_rule(v.rules, row);
    lemma_ins_rule_wf(v.rules, row);
    let p = lemma_ins_rule_split(v.rules, row);
    assert(n[p] == row);
    assert(has_rule(n, row.id));
    lemma_rule_index(n, row.id);
    let k = rule_index(n, row.id)->0;
    if k != p {
        assert(n[k].id == n[p].id);
        if k < p {
            assert((n[k]).id != (n[p]).id);
        } else {
            assert((n[p]).id != (n[k]).id);
        }
    }
}

// ---------------------------------------------------------------------------
// Dropping selections and rules
// ---------------------------------------------------------------------------

/// After a session drops its selections of `ids`, it selects none of them,
/// and every other selection stays.
pub proof fn law_unselect_removes(sels: Seq<SelRow>, rows: Seq<RuleRow>, session: Seq<char>, ids: Seq<Seq<char>>)
    requires
        sels_wf(sels, rows),
    ensures
        forall|id: Seq<char>| ids.contains(id) ==> !has_pair(#[trigger] keep_sels(sels, not_dropped(session, among(ids))), session, id),
        forall|s: SelRow| sels.contains(s) && !(s.session_id == session && ids.contains(s.rule_id))
            ==> #[trigger] keep_sels(sels, not_dropped(session, among(ids))).contains(s),
{
    let out = keep_sels(sels, not_dropped(session, among(ids)));
    lemma_keep_sels(sels, rows, not_dropped(session, among(ids)));
    assert forall|id: Seq<char>| ids.contains(id) implies !has_pair(#[trigger] keep_sels(sels, not_dropped(session, among(ids))), session, id) by {
        if has_pair(out, session, id) {
            let i = choose|i: int| 0 <= i < out.len() && (#[trigger] out[i]).session_id == session && out[i].rule_id == id;
            assert(out.contains(out[i]));
        }
    }
}

/// A hard delete leaves neither the rule nor any selection of it, and
/// answers the rule as it was; a rule that is not there is refused.
pub proof fn law_hard_delete_removes(v: StoreView, id: Seq<char>, ts: Seq<char>)
    requires
        store_wf(v),
    ensures
        match retire_result(v, id, true, ts) {
            Ok((v2, d)) => {
                &&& get_view(v.rules, id) == Some(d)
                &&& !has_rule(v2.rules, d.id)
                &&& forall|i: int| 0 <= i < v2.sels.len() ==> (#[trigger] v2.sels[i]).rule_id != d.id
            },
            Err(_) => get_view(v.rules, id) is None,
        },
{
    match get_view(v.rules, id) {
        Some(cur) => {
            lemma_drop_rule(v.rules, cur.id);
            lemma_keep_sels(v.sels, v.rules, not_of_rule(cur.id));
            let ks = keep_sels(v.sels, not_of_rule(cur.id));
            assert forall|i: int| 0 <= i < ks.len() implies (#[trigger] ks[i]).rule_id != cur.id by {
                assert(ks.contains(ks[i]));
            }
        },
        None => {},
    }
}

// ---------------------------------------------------------------------------
// Importing legacy rules
// ---------------------------------------------------------------------------

proof fn lemma_first_duplicate_found(rows: Seq<RuleRow>, t: Seq<char>, c: Seq<char>, i: int)
    requires
        0 <= i < rows.len(),
        rows[i].title == t,
        rows[i].content == c,
    ensures
        first_duplicate(rows, t, c) is Some,
    decreases rows.len(),
{
    if !(rows[0].title == t && rows[0].content == c) {
        assert(rows.drop_first()[i - 1] == rows[i]);
        lemma_first_duplicate_found(rows.drop_first(), t, c, i - 1);
    }
}

/// A legacy rule imported as new is, imported again, a reuse: the tables
/// stay as they are, no rule is added, and the answer is the same rule under
/// the same id.
pub proof fn law_import_twice_adds_once(
    v0: StoreView,
    v1: StoreView,
    v2: StoreView,
    l: LegacyView,
    ts1: Seq<char>,
    ts2: Seq<char>,
    y: DbRuleView,
    r: Result<(DbRuleView, bool), Seq<char>>,
)
    requires
        store_wf(v0),
        trim_seq(l.title) == l.title,
        trim_seq(l.content) == l.content,
        legacy_step(v0, v1, l, ts1, Ok((y, true))),
        legacy_step(v1, v2, l, ts2, r),
    ensures
        v2 == v1,
        r == Ok::<(DbRuleView, bool), Seq<char>>((y, false)),
{
    let row = legacy_row(y.id, l, ts1);
    lemma_ins_rule_wf(v0.rules, row);
    let p = lemma_ins_rule_split(v0.rules, row);
    assert(v1.rules[p] == row);
    lemma_first_duplicate_found(v1.rules, l.title, l.content, p);
    lemma_first_duplicate_only(v0.rules, row, l.title, l.content);
    let (n, i) = choose|n: u128, i: u32| i < 1000 && y.id == crate::ops::candidate_id(n, i);
    crate::ops::lemma_candidate_trimmed(n, i);
    law_added_rule_reads_back(v0, row);
}

/// With no duplicate before, the one added row is the first duplicate
/// after.
proof fn lemma_first_duplicate_only(rows: Seq<RuleRow>, row: RuleRow, t: Seq<char>, c: Seq<char>)
    requires
        rules_wf(rows),
        !has_rule(rows, row.id),
        first_duplicate(rows, t, c) is None,
        row.title == t,
        row.content == c,
    ensures
        first_duplicate(ins_rule(rows, row), t, c) == Some(row.id),
{
    let n = ins_rule(rows, row);
    let p = lemma_ins_rule_split(rows, row);
    lemma_first_duplicate_none(rows, t, c);
    lemma_first_duplicate_first(n, t, c, p);
}

proof fn lemma_first_duplicate_none(rows: Seq<RuleRow>, t: Seq<char>, c: Seq<char>)
    requires
        first_duplicate(rows, t, c) is None,
    ensures
        forall|i: int| 0 <= i < rows.len() ==> !((#[trigger] rows[i]).title == t && rows[i].content == c),
    decreases rows.len(),
{
    if rows.len() > 0 {
        lemma_first_duplicate_none(rows.drop_first(), t, c);
        assert forall|i: int| 0 <= i < rows.len() implies !((#[trigger] rows[i]).title == t && rows[i].content == c) by {
            if i > 0 {
                assert(rows[i] == rows.drop_first()[i - 1]);
            }
        }
    }
}

proof fn lemma_first_duplicate_first(rows: Seq<RuleRow>, t: Seq<char>, c: Seq<char>, p: int)
    requires
        0 <= p < rows.len(),
        rows[p].title == t && rows[p].content == c,
        forall|i: int| 0 <= i < rows.len() && i != p ==> !((#[trigger] rows[i]).title == t && rows[i].content == c),
    ensures
        first_duplicate(rows, t, c) == Some(rows[p].id),
    decreases rows.len(),
{
    if p > 0 {
        assert(!(rows[0].title == t && rows[0].content == c));
        let d = rows.drop_first();
        assert forall|i: int| 0 <= i < d.len() && i != p - 1 implies !((#[trigger] d[i]).title == t && d[i].content == c) by {
            assert(d[i] == rows[i + 1]);
        }
        lemma_first_duplicate_first(d, t, c, p - 1);
    }
}

// ---------------------------------------------------------------------------
// Splitting lists
// ---------------------------------------------------------------------------

proof fn lemma_split_by_whole(s: Seq<char>, sep: char)
    requires
        !s.contains(sep),
    ensures
        split_by(s, sep) == seq![s],
    decreases s.len(),
{
    if s.len() > 0 {
        let d = s.drop_last();
        assert(!d.contains(sep)) by {
            if d.contains(sep) {
                let k = choose|k: int| 0 <= k < d.len() && d[k] == sep;
                assert(s[k] == sep);
            }
        }
        lemma_split_by_whole(d, sep);
        assert(s.last() != sep) by {
            assert(s[s.len() - 1] == s.last());
        }
        assert(d.push(s.last()) =~= s);
    } else {
        assert(s =~= Seq::<char>::empty());
    }
}

/// Batch input without `;` is one item, trimmed, or none when blank.
pub proof fn law_batch_without_semicolon(raw: Seq<char>)
    requires
        !raw.contains(';'),
    ensures
        batch_items(raw) == if trim_seq(raw).len() == 0 { Seq::<Seq<char>>::empty() } else { seq![trim_seq(raw)] },
{
    lemma_split_by_whole(raw, ';');
    let p = seq![raw];
    assert(p.drop_last() =~= Seq::<Seq<char>>::empty());
    assert(p.last() == raw);
    assert(trimmed_parts(p.drop_last()) == Seq::<Seq<char>>::empty());
    assert(batch_items(raw) == trimmed_parts(p));
    if trim_seq(raw).len() > 0 {
        assert(trimmed_parts(p) == Seq::<Seq<char>>::empty().push(trim_seq(raw)));
        assert(Seq::<Seq<char>>::empty().push(trim_seq(raw)) =~= seq![trim_seq(raw)]);
    } else {
        assert(trimmed_parts(p) == Seq::<Seq<char>>::empty());
    }
}

proof fn lemma_trimmed_parts_without(parts: Seq<Seq<char>>, c: char)
    requires
        forall|i: int| 0 <= i < parts.len() ==> !(#[trigger] parts[i]).contains(c),
    ensures
        forall|i: int| 0 <= i < trimmed_parts(parts).len() ==> !(#[trigger] trimmed_parts(parts)[i]).contains(c),
    decreases parts.len(),
{
    if parts.len() > 0 {
        let d = parts.drop_last();
        assert forall|i: int| 0 <= i < d.len() implies !(#[trigger] d[i]).contains(c) by {
            assert(d[i] == parts[i]);
        }
        lemma_trimmed_parts_without(d, c);
        let l = parts.last();
        assert(!l.contains(c)) by {
            assert(parts[parts.len() - 1] == l);
        }
        crate::text::lemma_trim_shape(l);
        let t = trim_seq(l);
        assert(!t.contains(c)) by {
            if t.contains(c) {
                let (a, b) = choose|a: int, b: int| 0 <= a <= b <= l.len() && t == l.subrange(a, b);
                let k = choose|k: int| 0 <= k < t.len() && t[k] == c;
                assert(l[a + k] == c);
            }
        }
        let tp = trimmed_parts(parts);
        assert forall|i: int| 0 <= i < tp.len() implies !(#[trigger] tp[i]).contains(c) by {
            if i < trimmed_parts(d).len() {
                assert(tp[i] == trimmed_parts(d)[i]);
            } else {
                assert(tp[i] == t);
            }
        }
    }
}

/// The tags the picker's editor keeps are clean (trimmed, not empty,
/// without a comma, each once) and are exactly the comma items of the
/// input.
pub proof fn law_ui_tags_clean(raw: Seq<char>)
    ensures
        clean_tags(ui_tags(raw)),
        forall|x: Seq<char>| #[trigger] ui_tags(raw).contains(x) <==> comma_items(raw).contains(x),
{
    lemma_dedup_no_duplicates(comma_items(raw));
    lemma_dedup_same_items(comma_items(raw));
    crate::split::lemma_trimmed_parts_clean(split_by(raw, ','));
    crate::split::lemma_split_by_no_sep(raw, ',');
    lemma_trimmed_parts_without(split_by(raw, ','), ',');
    assert forall|i: int| 0 <= i < ui_tags(raw).len() implies (#[trigger] ui_tags(raw)[i]).len() > 0
        && trim_seq(ui_tags(raw)[i]) == ui_tags(raw)[i] && !ui_tags(raw)[i].contains(',') by {
        let x = ui_tags(raw)[i];
        assert(ui_tags(raw).contains(x));
        assert(comma_items(raw).contains(x));
        let k = choose|k: int| 0 <= k < comma_items(raw).len() && comma_items(raw)[k] == x;
        assert(trimmed_parts(split_by(raw, ','))[k] == x);
    }
}

// ---------------------------------------------------------------------------
// Picking rules for a session
// ---------------------------------------------------------------------------

/// Two rule tables with the same ids and statuses, row for row.
pub open spec fn same_keys(a: Seq<RuleRow>, b: Seq<RuleRow>) -> bool {
    &&& a.len() == b.len()
    &&& forall|k: int| 0 <= k < a.len() ==> (#[trigger] a[k]).id == b[k].id && a[k].status == b[k].status
}

proof fn lemma_rule_index_same_keys(a: Seq<RuleRow>, b: Seq<RuleRow>, id: Seq<char>)
    requires
        same_keys(a, b),
    ensures
        rule_index(a, id) == rule_index(b, id),
    decreases a.len(),
{
    if a.len() > 0 {
        assert(a[0].id == b[0].id);
        assert forall|k: int| 0 <= k < a.drop_first().len() implies (#[trigger] a.drop_first()[k]).id == b.drop_first()[k].id
            && a.drop_first()[k].status == b.drop_first()[k].status by {
            assert(a.drop_first()[k] == a[k + 1]);
            assert(b.drop_first()[k] == b[k + 1]);
        }
        lemma_rule_index_same_keys(a.drop_first(), b.drop_first(), id);
    }
}

proof fn lemma_session_ids_paired(sels: Seq<SelRow>, session: Seq<char>, x: Seq<char>)
    requires
        ids_of_session(sels, session).contains(x),
    ensures
        has_pair(sels, session, x),
    decreases sels.len(),
{
    let d = sels.drop_last();
    let prev = ids_of_session(d, session);
    if sels.last().session_id == session && x == sels.last().rule_id {
        assert(sels[sels.len() - 1] == sels.last());
    } else {
        if sels.last().session_id == session {
            crate::tags::lemma_push_contains(prev, sels.last().rule_id, x);
        }
        lemma_session_ids_paired(d, session, x);
        let i = choose|i: int| 0 <= i < d.len() && (#[trigger] d[i]).session_id == session && d[i].rule_id == x;
        assert(sels[i] == d[i]);
    }
}

/// The active rule of id `id` in `rows`.
pub open spec fn active_in(rows: Seq<RuleRow>, id: Seq<char>) -> bool {
    match rule_index(rows, id) {
        Some(k) => rows[k].status == active_text(),
        None => false,
    }
}

proof fn lemma_select_all(w: StoreView, session: Seq<char>, existing: Seq<Seq<char>>, ids: Seq<Seq<char>>, ts: Seq<char>)
    requires
        store_wf(w),
        forall|k: int| 0 <= k < ids.len() ==> trim_seq(#[trigger] ids[k]) == ids[k],
        forall|x: Seq<char>| ids.contains(x) && existing.contains(x) && active_in(w.rules, x) ==> #[trigger] has_pair(w.sels, session, x),
        select_all(w, session, existing, ids, ts).1 is None,
    ensures
        ({
            let w2 = select_all(w, session, existing, ids, ts).0;
            &&& store_wf(w2)
            &&& same_keys(w2.rules, w.rules)
            &&& forall|a: Seq<char>, b: Seq<char>| has_pair(w.sels, a, b) ==> #[trigger] has_pair(w2.sels, a, b)
            &&& forall|k: int| 0 <= k < ids.len() && active_in(w.rules, #[trigger] ids[k]) ==> has_pair(w2.sels, session, ids[k])
        }),
    decreases ids.len(),
{
    if ids.len() == 0 {
        return;
    }
    let id = ids[0];
    let rest = ids.drop_first();
    assert(trim_seq(id) == id);
    lemma_rule_index(w.rules, id);
    let k = rule_index(w.rules, id)->0;
    let row = w.rules[k];
    let step = select_step(w, session, existing, id, ts);
    assert forall|x: Seq<char>| rest.contains(x) implies ids.contains(x) by {
        let j = choose|j: int| 0 <= j < rest.len() && rest[j] == x;
        assert(ids[j + 1] == x);
    }
    assert forall|j: int| 0 <= j < rest.len() implies trim_seq(#[trigger] rest[j]) == rest[j] by {
        assert(rest[j] == ids[j + 1]);
    }
    let w1 = step->Ok_0;
    if row.status != active_text() {
        assert(w1 == w);
        assert(same_keys(w.rules, w.rules));
    } else if existing.contains(row.id) {
        lemma_touch_sels(w.sels, w.rules, session, row.id, ts);
        assert(ids.contains(id)) by {
            assert(ids[0] == id);
        }
        assert(same_keys(w.rules, w.rules));
    } else {
        lemma_rule_index(w.rules, row.id);
        let nr = bumped(row, ts);
        lemma_update_rule(w.rules, k, nr);
        let rows2 = w.rules.update(k, nr);
        crate::store::lemma_ins_sel_wf(w.sels, w.rules, SelRow { session_id: session, rule_id: row.id, selected_at: ts, updated_at: ts });
        crate::store::lemma_sels_wf_more_rules(ins_sel(w.sels, SelRow { session_id: session, rule_id: row.id, selected_at: ts, updated_at: ts }), w.rules, rows2);
        assert(same_keys(rows2, w.rules));
    }
    assert(same_keys(w1.rules, w.rules));
    assert forall|x: Seq<char>| rest.contains(x) && existing.contains(x) && active_in(w1.rules, x) implies #[trigger] has_pair(w1.sels, session, x) by {
        lemma_rule_index_same_keys(w1.rules, w.rules, x);
        lemma_rule_index(w.rules, x);
        if rule_index(w.rules, x) is Some {
            let m = rule_index(w.rules, x)->0;
            assert(w1.rules[m].status == w.rules[m].status);
        }
        assert(active_in(w.rules, x));
    }
    lemma_select_all(w1, session, existing, rest, ts);
    let w2 = select_all(w1, session, existing, rest, ts).0;
    assert(select_all(w, session, existing, ids, ts) == select_all(w1, session, existing, rest, ts));
    lemma_same_keys_trans(w2.rules, w1.rules, w.rules);
    assert forall|j: int| 0 <= j < ids.len() && active_in(w.rules, #[trigger] ids[j]) implies has_pair(w2.sels, session, ids[j]) by {
        if j > 0 {
            assert(rest[j - 1] == ids[j]);
            lemma_rule_index_same_keys(w1.rules, w.rules, ids[j]);
            lemma_rule_index(w.rules, ids[j]);
            let m = rule_index(w.rules, ids[j])->0;
            assert(w1.rules[m].status == w.rules[m].status);
            assert(active_in(w1.rules, rest[j - 1]));
        } else {
            assert(has_pair(w1.sels, session, id));
        }
    }
}

/// An active rule's id is not among the inactive ids.
proof fn lemma_active_not_inactive(rows: Seq<RuleRow>, x: Seq<char>)
    requires
        rules_wf(rows),
        active_in(rows, x),
    ensures
        !inactive_ids(rows).contains(x),
{
    lemma_rule_index(rows, x);
    lemma_inactive_ids(rows, x);
    let k = rule_index(rows, x)->0;
    if inactive_ids(rows).contains(x) {
        let i = choose|i: int| 0 <= i < rows.len() && (#[trigger] rows[i]).id == x && rows[i].status != active_text();
        if i < k {
            assert(rows[i].id != x);
        } else if k < i {
            assert(rows[k].id != rows[i].id);
        }
    }
}

proof fn lemma_same_keys_trans(a: Seq<RuleRow>, b: Seq<RuleRow>, c: Seq<RuleRow>)
    requires
        same_keys(a, b),
        same_keys(b, c),
    ensures
        same_keys(a, c),
{
    assert forall|k: int| 0 <= k < a.len() implies (#[trigger] a[k]).id == c[k].id && a[k].status == c[k].status by {
        assert(a[k].id == b[k].id);
        assert(b[k].id == c[k].id);
    }
}

/// After a session's selection request that was not refused, with a
/// non-blank session and trimmed ids, the session selects every requested
/// rule that is active, and every selection that was not stale stays.
pub proof fn law_picked_rules_selected(v: StoreView, session: Seq<char>, ids: Seq<Seq<char>>, replace: bool, ts: Seq<char>)
    requires
        store_wf(v),
        trim_seq(session).len() > 0,
        forall|k: int| 0 <= k < ids.len() ==> trim_seq(#[trigger] ids[k]) == ids[k],
        select_final(v, session, ids, replace, ts).1 is None,
    ensures
        forall|k: int| 0 <= k < ids.len() && active_in(v.rules, #[trigger] ids[k])
            ==> has_pair(select_final(v, session, ids, replace, ts).0.sels, session, ids[k]),
{
    let w0 = without_stale(v, session, ids, replace);
    let existing = selected_ids(v.sels, session);
    let s1 = keep_sels(v.sels, not_dropped(session, not_among(ids)));
    if replace {
        crate::store::lemma_keep_sels_wf(v.sels, v.rules, not_dropped(session, not_among(ids)), v.rules);
        crate::store::lemma_keep_sels_wf(s1, v.rules, not_dropped(session, among(inactive_ids(v.rules))), v.rules);
    }
    assert forall|x: Seq<char>| ids.contains(x) && existing.contains(x) && active_in(w0.rules, x) implies #[trigger] has_pair(w0.sels, session, x) by {
        lemma_session_ids_paired(v.sels, session, x);
        let i = choose|i: int| 0 <= i < v.sels.len() && (#[trigger] v.sels[i]).session_id == session && v.sels[i].rule_id == x;
        if replace {
            lemma_active_not_inactive(v.rules, x);
            assert(v.sels.contains(v.sels[i]));
            assert(s1.contains(v.sels[i]));
            assert(w0.sels.contains(v.sels[i]));
            let j = choose|j: int| 0 <= j < w0.sels.len() && w0.sels[j] == v.sels[i];
            assert(w0.sels[j].session_id == session && w0.sels[j].rule_id == x);
        }
    }
    assert(same_keys(w0.rules, v.rules));
    lemma_select_all(w0, session, existing, ids, ts);
    assert forall|k: int| 0 <= k < ids.len() && active_in(v.rules, #[trigger] ids[k])
        implies has_pair(select_final(v, session, ids, replace, ts).0.sels, session, ids[k]) by {
        assert(active_in(w0.rules, ids[k]));
    }
}

proof fn lemma_same_keys_active(a: Seq<RuleRow>, b: Seq<RuleRow>, x: Seq<char>)
    requires
        same_keys(a, b),
    ensures
        active_in(a, x) == active_in(b, x),
        has_rule(a, x) == has_rule(b, x),
{
    lemma_rule_index_same_keys(a, b, x);
    lemma_rule_index(a, x);
    lemma_rule_index(b, x);
    if rule_index(a, x) is Some {
        let m = rule_index(a, x)->0;
        assert(a[m].status == b[m].status);
    }
    if has_rule(a, x) {
        let i = choose|i: int| 0 <= i < a.len() && (#[trigger] a[i]).id == x;
        assert(b[i].id == x);
    }
    if has_rule(b, x) {
        let i = choose|i: int| 0 <= i < b.len() && (#[trigger] b[i]).id == x;
        assert(a[i].id == x);
    }
}

/// What a selection request does, step by step, when every id names a rule
/// and none repeats: the session gains a selection of each requested active
/// rule, and exactly the rules it had not selected before count a pick.
proof fn lemma_select_exact(w: StoreView, session: Seq<char>, existing: Seq<Seq<char>>, ids: Seq<Seq<char>>, ts: Seq<char>)
    requires
        store_wf(w),
        forall|k: int| 0 <= k < ids.len() ==> trim_seq(#[trigger] ids[k]) == ids[k] && has_rule(w.rules, ids[k]),
        ids.no_duplicates(),
        forall|x: Seq<char>| ids.contains(x) && active_in(w.rules, x) ==> (existing.contains(x) <==> #[trigger] has_pair(w.sels, session, x)),
    ensures
        select_all(w, session, existing, ids, ts).1 is None,
        ({
            let w2 = select_all(w, session, existing, ids, ts).0;
            &&& store_wf(w2)
            &&& w2.rules.len() == w.rules.len()
            &&& forall|k: int| 0 <= k < w.rules.len() ==> #[trigger] w2.rules[k] == (if ids.contains(w.rules[k].id)
                && w.rules[k].status == active_text() && !existing.contains(w.rules[k].id) { bumped(w.rules[k], ts) } else { w.rules[k] })
            &&& forall|a: Seq<char>, b: Seq<char>| #[trigger] has_pair(w2.sels, a, b)
                <==> has_pair(w.sels, a, b) || (a == session && ids.contains(b) && active_in(w.rules, b))
        }),
    decreases ids.len(),
{
    if ids.len() == 0 {
        return;
    }
    let id = ids[0];
    let rest = ids.drop_first();
    assert(trim_seq(id) == id && has_rule(w.rules, id));
    lemma_rule_index(w.rules, id);
    let k = rule_index(w.rules, id)->0;
    let row = w.rules[k];
    assert(row.id == id);
    assert(active_in(w.rules, id) == (row.status == active_text()));
    assert(ids.contains(id)) by {
        assert(ids[0] == id);
    }
    assert forall|x: Seq<char>| #[trigger] ids.contains(x) <==> x == id || rest.contains(x) by {
        if ids.contains(x) {
            let j = choose|j: int| 0 <= j < ids.len() && ids[j] == x;
            if j > 0 {
                assert(rest[j - 1] == x);
            }
        }
        if rest.contains(x) {
            let j = choose|j: int| 0 <= j < rest.len() && rest[j] == x;
            assert(ids[j + 1] == x);
        }
    }
    assert(!rest.contains(id)) by {
        if rest.contains(id) {
            let j = choose|j: int| 0 <= j < rest.len() && rest[j] == id;
            assert(ids[j + 1] == ids[0]);
        }
    }
    assert(rest.no_duplicates()) by {
        assert forall|i: int, j: int| 0 <= i < rest.len() && 0 <= j < rest.len() && i != j implies rest[i] != rest[j] by {
            assert(rest[i] == ids[i + 1] && rest[j] == ids[j + 1]);
        }
    }
    let picked = row.status == active_text() && !existing.contains(id);
    let step = select_step(w, session, existing, id, ts);
    let w1 = step->Ok_0;
    if row.status != active_text() {
        assert(w1 == w);
    } else if existing.contains(id) {
        lemma_touch_sels(w.sels, w.rules, session, id, ts);
        assert(has_pair(w.sels, session, id));
    } else {
        assert(!has_pair(w.sels, session, id));
        let nr = bumped(row, ts);
        lemma_update_rule(w.rules, k, nr);
        let rows2 = w.rules.update(k, nr);
        let x = SelRow { session_id: session, rule_id: id, selected_at: ts, updated_at: ts };
        crate::store::lemma_ins_sel_wf(w.sels, w.rules, x);
        crate::store::lemma_sels_wf_more_rules(ins_sel(w.sels, x), w.rules, rows2);
    }
    assert(step is Ok);
    assert(store_wf(w1));
    assert(w1.rules == if picked { w.rules.update(k, bumped(row, ts)) } else { w.rules });
    assert forall|a: Seq<char>, b: Seq<char>| #[trigger] has_pair(w1.sels, a, b)
        <==> has_pair(w.sels, a, b) || (a == session && b == id && row.status == active_text()) by {
    }
    assert(same_keys(w1.rules, w.rules));
    assert forall|j: int| 0 <= j < rest.len() implies trim_seq(#[trigger] rest[j]) == rest[j] && has_rule(w1.rules, rest[j]) by {
        assert(rest[j] == ids[j + 1]);
        lemma_same_keys_active(w1.rules, w.rules, rest[j]);
    }
    assert forall|x: Seq<char>| rest.contains(x) && active_in(w1.rules, x) implies (existing.contains(x) <==> #[trigger] has_pair(w1.sels, session, x)) by {
        lemma_same_keys_active(w1.rules, w.rules, x);
        assert(x != id);
        assert(ids.contains(x));
    }
    lemma_select_exact(w1, session, existing, rest, ts);
    assert(select_all(w, session, existing, ids, ts) == select_all(w1, session, existing, rest, ts));
    let w2 = select_all(w1, session, existing, rest, ts).0;
    assert forall|j: int| 0 <= j < w.rules.len() implies #[trigger] w2.rules[j] == (if ids.contains(w.rules[j].id)
        && w.rules[j].status == active_text() && !existing.contains(w.rules[j].id) { bumped(w.rules[j], ts) } else { w.rules[j] }) by {
        assert(w2.rules[j] == (if rest.contains(w1.rules[j].id) && w1.rules[j].status == active_text()
            && !existing.contains(w1.rules[j].id) { bumped(w1.rules[j], ts) } else { w1.rules[j] }));
        if j == k {
            assert(w1.rules[j].id == id);
        } else {
            assert(w1.rules[j] == w.rules[j]);
            if j < k {
                assert(w.rules[j].id != w.rules[k].id);
            } else {
                assert(w.rules[k].id != w.rules[j].id);
            }
        }
    }
    assert forall|a: Seq<char>, b: Seq<char>| #[trigger] has_pair(w2.sels, a, b)
        <==> has_pair(w.sels, a, b) || (a == session && ids.contains(b) && active_in(w.rules, b)) by {
        lemma_same_keys_active(w1.rules, w.rules, b);
        assert(has_pair(w2.sels, a, b) <==> has_pair(w1.sels, a, b) || (a == session && rest.contains(b) && active_in(w1.rules, b)));
    }
}

proof fn lemma_session_ids_complete(sels: Seq<SelRow>, session: Seq<char>, x: Seq<char>)
    requires
        has_pair(sels, session, x),
    ensures
        ids_of_session(sels, session).contains(x),
    decreases sels.len(),
{
    let d = sels.drop_last();
    let prev = ids_of_session(d, session);
    let i = choose|i: int| 0 <= i < sels.len() && (#[trigger] sels[i]).session_id == session && sels[i].rule_id == x;
    if i == sels.len() - 1 {
        assert(sels.last() == sels[i]);
        crate::tags::lemma_push_contains(prev, x, x);
    } else {
        assert(d[i] == sels[i]);
        lemma_session_ids_complete(d, session, x);
        if sels.last().session_id == session {
            crate::tags::lemma_push_contains(prev, sels.last().rule_id, x);
        }
    }
}

/// A selection of kept selections is one that was there and is not
/// dropped.
proof fn lemma_has_pair_keep(sels: Seq<SelRow>, rows: Seq<RuleRow>, session: Seq<char>, drop: spec_fn(Seq<char>) -> bool, a: Seq<char>, b: Seq<char>)
    requires
        sels_wf(sels, rows),
    ensures
        has_pair(keep_sels(sels, not_dropped(session, drop)), a, b) <==> has_pair(sels, a, b) && !(a == session && drop(b)),
{
    let out = keep_sels(sels, not_dropped(session, drop));
    lemma_keep_sels(sels, rows, not_dropped(session, drop));
    if has_pair(out, a, b) {
        let i = choose|i: int| 0 <= i < out.len() && (#[trigger] out[i]).session_id == a && out[i].rule_id == b;
        assert(out.contains(out[i]));
        let j = choose|j: int| 0 <= j < sels.len() && sels[j] == out[i];
        assert(sels[j].session_id == a && sels[j].rule_id == b);
    }
    if has_pair(sels, a, b) && !(a == session && drop(b)) {
        let i = choose|i: int| 0 <= i < sels.len() && (#[trigger] sels[i]).session_id == a && sels[i].rule_id == b;
        assert(sels.contains(sels[i]));
        assert(out.contains(sels[i]));
        let j = choose|j: int| 0 <= j < out.len() && out[j] == sels[i];
        assert(out[j].session_id == a && out[j].rule_id == b);
    }
}

/// The preconditions shared by the selection laws: a non-blank session and
/// distinct, trimmed ids, each of a rule.
pub open spec fn plain_request(v: StoreView, session: Seq<char>, ids: Seq<Seq<char>>) -> bool {
    &&& trim_seq(session).len() > 0
    &&& ids.no_duplicates()
    &&& forall|k: int| 0 <= k < ids.len() ==> trim_seq(#[trigger] ids[k]) == ids[k] && has_rule(v.rules, ids[k])
}

/// Whether a request newly selects `row` for `session`: it is requested,
/// active, and the session had not selected it.
pub open spec fn newly_selected(v: StoreView, session: Seq<char>, ids: Seq<Seq<char>>, row: RuleRow) -> bool {
    ids.contains(row.id) && row.status == active_text() && !has_pair(v.sels, session, row.id)
}

/// An adding selection request is never refused when its ids are distinct
/// rules: afterwards the session selects what it selected before and every
/// requested active rule, other sessions are untouched, exactly the newly
/// selected rules count one more pick, and the same request again leaves
/// the selections and the rules as they are.
pub proof fn law_select_adds(v: StoreView, session: Seq<char>, ids: Seq<Seq<char>>, ts: Seq<char>, ts2: Seq<char>)
    requires
        store_wf(v),
        plain_request(v, session, ids),
    ensures
        ({
            let (v1, err) = select_final(v, session, ids, false, ts);
            let (v2, err2) = select_final(v1, session, ids, false, ts2);
            &&& err is None
            &&& forall|a: Seq<char>, b: Seq<char>| #[trigger] has_pair(v1.sels, a, b)
                <==> has_pair(v.sels, a, b) || (a == session && ids.contains(b) && active_in(v.rules, b))
            &&& v1.rules.len() == v.rules.len()
            &&& forall|k: int| 0 <= k < v.rules.len() ==> #[trigger] v1.rules[k]
                == (if newly_selected(v, session, ids, v.rules[k]) { bumped(v.rules[k], ts) } else { v.rules[k] })
            &&& err2 is None
            &&& v2.rules == v1.rules
            &&& forall|a: Seq<char>, b: Seq<char>| #[trigger] has_pair(v2.sels, a, b) <==> has_pair(v1.sels, a, b)
        }),
{
    let existing = selected_ids(v.sels, session);
    assert forall|x: Seq<char>| ids.contains(x) && active_in(v.rules, x) implies (existing.contains(x) <==> #[trigger] has_pair(v.sels, session, x)) by {
        if existing.contains(x) {
            lemma_session_ids_paired(v.sels, session, x);
        }
        if has_pair(v.sels, session, x) {
            lemma_session_ids_complete(v.sels, session, x);
        }
    }
    lemma_select_exact(v, session, existing, ids, ts);
    let v1 = select_final(v, session, ids, false, ts).0;
    assert forall|k: int| 0 <= k < v.rules.len() implies #[trigger] v1.rules[k]
        == (if newly_selected(v, session, ids, v.rules[k]) { bumped(v.rules[k], ts) } else { v.rules[k] }) by {
        let x = v.rules[k].id;
        if ids.contains(x) && v.rules[k].status == active_text() {
            lemma_rule_index(v.rules, x);
            let m = rule_index(v.rules, x)->0;
            if m != k {
                if m < k {
                    assert(v.rules[m].id != v.rules[k].id);
                } else {
                    assert(v.rules[k].id != v.rules[m].id);
                }
            }
            assert(active_in(v.rules, x));
            assert(existing.contains(x) <==> has_pair(v.sels, session, x));
        }
    }
    assert(same_keys(v1.rules, v.rules));
    let existing1 = selected_ids(v1.sels, session);
    assert forall|j: int| 0 <= j < ids.len() implies trim_seq(#[trigger] ids[j]) == ids[j] && has_rule(v1.rules, ids[j]) by {
        lemma_same_keys_active(v1.rules, v.rules, ids[j]);
    }
    assert forall|x: Seq<char>| ids.contains(x) && active_in(v1.rules, x) implies (existing1.contains(x) <==> #[trigger] has_pair(v1.sels, session, x)) by {
        if existing1.contains(x) {
            lemma_session_ids_paired(v1.sels, session, x);
        }
        if has_pair(v1.sels, session, x) {
            lemma_session_ids_complete(v1.sels, session, x);
        }
    }
    lemma_select_exact(v1, session, existing1, ids, ts2);
    let v2 = select_final(v1, session, ids, false, ts2).0;
    assert forall|k: int| 0 <= k < v1.rules.len() implies v2.rules[k] == v1.rules[k] by {
        let x = v1.rules[k].id;
        if ids.contains(x) && v1.rules[k].status == active_text() {
            lemma_same_keys_active(v1.rules, v.rules, x);
            lemma_rule_index(v1.rules, x);
            let m = rule_index(v1.rules, x)->0;
            if m != k {
                if m < k {
                    assert(v1.rules[m].id != v1.rules[k].id);
                } else {
                    assert(v1.rules[k].id != v1.rules[m].id);
                }
            }
            assert(active_in(v1.rules, x));
            assert(has_pair(v1.sels, session, x));
            lemma_session_ids_complete(v1.sels, session, x);
        }
    }
    assert(v2.rules =~= v1.rules);
    assert forall|a: Seq<char>, b: Seq<char>| #[trigger] has_pair(v2.sels, a, b) <==> has_pair(v1.sels, a, b) by {
        if a == session && ids.contains(b) && active_in(v1.rules, b) {
            lemma_same_keys_active(v1.rules, v.rules, b);
        }
    }
}

/// A replacing selection request is never refused when its ids are
/// distinct rules: afterwards the session selects exactly the requested
/// rules that are active (a deprecated rule is never kept), and other
/// sessions are untouched.
pub proof fn law_select_replaces(v: StoreView, session: Seq<char>, ids: Seq<Seq<char>>, ts: Seq<char>)
    requires
        store_wf(v),
        plain_request(v, session, ids),
    ensures
        ({
            let (v1, err) = select_final(v, session, ids, true, ts);
            &&& err is None
            &&& forall|b: Seq<char>| #[trigger] has_pair(v1.sels, session, b) <==> ids.contains(b) && active_in(v.rules, b)
            &&& forall|a: Seq<char>, b: Seq<char>| a != session ==> (#[trigger] has_pair(v1.sels, a, b) <==> has_pair(v.sels, a, b))
        }),
{
    let existing = selected_ids(v.sels, session);
    let s1 = keep_sels(v.sels, not_dropped(session, not_among(ids)));
    let w0 = without_stale(v, session, ids, true);
    crate::store::lemma_keep_sels_wf(v.sels, v.rules, not_dropped(session, not_among(ids)), v.rules);
    crate::store::lemma_keep_sels_wf(s1, v.rules, not_dropped(session, among(inactive_ids(v.rules))), v.rules);
    assert forall|a: Seq<char>, b: Seq<char>| #[trigger] has_pair(w0.sels, a, b)
        <==> has_pair(v.sels, a, b) && !(a == session && (!ids.contains(b) || inactive_ids(v.rules).contains(b))) by {
        lemma_has_pair_keep(v.sels, v.rules, session, not_among(ids), a, b);
        lemma_has_pair_keep(s1, v.rules, session, among(inactive_ids(v.rules)), a, b);
    }
    assert forall|x: Seq<char>| ids.contains(x) && active_in(w0.rules, x) implies (existing.contains(x) <==> #[trigger] has_pair(w0.sels, session, x)) by {
        lemma_active_not_inactive(v.rules, x);
        if existing.contains(x) {
            lemma_session_ids_paired(v.sels, session, x);
        }
        if has_pair(v.sels, session, x) {
            lemma_session_ids_complete(v.sels, session, x);
        }
    }
    lemma_select_exact(w0, session, existing, ids, ts);
    let v1 = select_final(v, session, ids, true, ts).0;
    assert forall|b: Seq<char>| #[trigger] has_pair(v1.sels, session, b) <==> ids.contains(b) && active_in(v.rules, b) by {
        if has_pair(w0.sels, session, b) {
            assert(has_pair(v.sels, session, b));
            let i = choose|i: int| 0 <= i < v.sels.len() && (#[trigger] v.sels[i]).session_id == session && v.sels[i].rule_id == b;
            assert(has_rule(v.rules, v.sels[i].rule_id));
            lemma_rule_index(v.rules, b);
            lemma_inactive_ids(v.rules, b);
            let m = rule_index(v.rules, b)->0;
            assert(v.rules[m].id == b);
        }
    }
}

// ---------------------------------------------------------------------------
// The picker's editor
// ---------------------------------------------------------------------------

proof fn lemma_split_append(a: Seq<char>, b: Seq<char>, sep: char)
    requires
        !b.contains(sep),
    ensures
        split_by(a + seq![sep] + b, sep) == split_by(a, sep).push(b),
    decreases b.len(),
{
    let s = a + seq![sep] + b;
    if b.len() == 0 {
        assert(s.drop_last() =~= a);
        assert(s.last() == sep);
        assert(b =~= Seq::<char>::empty());
    } else {
        let d = b.drop_last();
        assert(!d.contains(sep)) by {
            if d.contains(sep) {
                let k = choose|k: int| 0 <= k < d.len() && d[k] == sep;
                assert(b[k] == sep);
            }
        }
        lemma_split_append(a, d, sep);
        assert(s.drop_last() =~= a + seq![sep] + d);
        assert(s.last() == b.last());
        assert(b.last() != sep) by {
            assert(b[b.len() - 1] == b.last());
        }
        assert(d.push(b.last()) =~= b);
        let prev = split_by(a, sep).push(d);
        assert(prev.update(prev.len() - 1, prev.last().push(b.last())) =~= split_by(a, sep).push(b));
    }
}

proof fn lemma_split_join(tags: Seq<Seq<char>>, sep: char)
    requires
        tags.len() > 0,
        forall|i: int| 0 <= i < tags.len() ==> !(#[trigger] tags[i]).contains(sep),
    ensures
        split_by(join_seq(tags, seq![sep]), sep) == tags,
    decreases tags.len(),
{
    if tags.len() == 1 {
        lemma_split_by_whole(tags[0], sep);
        assert(seq![tags[0]] =~= tags);
    } else {
        let d = tags.drop_last();
        assert forall|i: int| 0 <= i < d.len() implies !(#[trigger] d[i]).contains(sep) by {
            assert(d[i] == tags[i]);
        }
        lemma_split_join(d, sep);
        assert(!tags.last().contains(sep)) by {
            assert(tags[tags.len() - 1] == tags.last());
        }
        lemma_split_append(join_seq(d, seq![sep]), tags.last(), sep);
        assert(d.push(tags.last()) =~= tags);
    }
}

proof fn lemma_trimmed_parts_keep(parts: Seq<Seq<char>>)
    requires
        forall|i: int| 0 <= i < parts.len() ==> (#[trigger] parts[i]).len() > 0 && trim_seq(parts[i]) == parts[i],
    ensures
        trimmed_parts(parts) == parts,
    decreases parts.len(),
{
    if parts.len() > 0 {
        let d = parts.drop_last();
        assert forall|i: int| 0 <= i < d.len() implies (#[trigger] d[i]).len() > 0 && trim_seq(d[i]) == d[i] by {
            assert(d[i] == parts[i]);
        }
        lemma_trimmed_parts_keep(d);
        assert(parts[parts.len() - 1] == parts.last());
        assert(d.push(parts.last()) =~= parts);
    }
}

proof fn lemma_dedup_keep(parts: Seq<Seq<char>>)
    requires
        parts.no_duplicates(),
    ensures
        dedup_seq(parts) == parts,
    decreases parts.len(),
{
    if parts.len() > 0 {
        let d = parts.drop_last();
        assert(d.no_duplicates()) by {
            assert forall|i: int, j: int| 0 <= i < d.len() && 0 <= j < d.len() && i != j implies d[i] != d[j] by {
                assert(d[i] == parts[i] && d[j] == parts[j]);
            }
        }
        lemma_dedup_keep(d);
        assert(!d.contains(parts.last())) by {
            if d.contains(parts.last()) {
                let k = choose|k: int| 0 <= k < d.len() && d[k] == parts.last();
                assert(parts[k] == parts[parts.len() - 1]);
            }
        }
        assert(d.push(parts.last()) =~= parts);
    }
}

/// Tags as the editor keeps them: each trimmed, not empty, without a comma,
/// each once.
pub open spec fn clean_tags(tags: Seq<Seq<char>>) -> bool {
    &&& tags.no_duplicates()
    &&& forall|i: int| 0 <= i < tags.len() ==> (#[trigger] tags[i]).len() > 0 && trim_seq(tags[i]) == tags[i] && !tags[i].contains(',')
}

/// Clean tags, joined by commas in the editor, read back as themselves.
pub proof fn law_tags_round_trip(tags: Seq<Seq<char>>)
    requires
        clean_tags(tags),
    ensures
        ui_tags(join_seq(tags, seq![','])) == tags,
{
    if tags.len() == 0 {
        assert(split_by(Seq::<char>::empty(), ',') == seq![Seq::<char>::empty()]);
        let p = seq![Seq::<char>::empty()];
        assert(p.drop_last() =~= Seq::<Seq<char>>::empty());
        assert(trim_seq(Seq::<char>::empty()) =~= Seq::<char>::empty());
        assert(p.last() == Seq::<char>::empty());
        assert(trimmed_parts(p.drop_last()) == Seq::<Seq<char>>::empty());
        assert(trimmed_parts(p) == Seq::<Seq<char>>::empty());
        assert(dedup_seq(Seq::<Seq<char>>::empty()) == Seq::<Seq<char>>::empty());
    } else {
        lemma_split_join(tags, ',');
        lemma_trimmed_parts_keep(tags);
        lemma_dedup_keep(tags);
    }
}

/// A rule in the picker whose fields are as the editor writes them: title
/// and content trimmed, a valid status, clean tags, and its shown and
/// searched texts made from them.
pub open spec fn editor_clean(r: RuleItemView) -> bool {
    &&& trim_seq(r.title) == r.title
    &&& trim_seq(r.content) == r.content
    &&& crate::status::is_status(r.status)
    &&& clean_tags(r.tags)
    &&& refreshed(r) == r
}

/// Loading a rule into the editor and saving the editor untouched leaves
/// the picker's rules as they were, so the picker reports no edit.
pub proof fn law_load_then_save_unchanged(v: PickerView, row: usize)
    requires
        picker_wf(v),
        row < v.visible.len(),
        editor_clean(v.rules[v.visible[row as int] as int]),
    ensures
        ({
            let (v1, fields) = loaded(v, Some(row));
            &&& fields matches Some((t, c, g, s))
            &&& saved(v1, t, c, g, s).rules == v.rules
        }),
{
    let k = v.visible[row as int];
    let r = v.rules[k as int];
    law_tags_round_trip(r.tags);
    let (v1, fields) = loaded(v, Some(row));
    assert(v1.editing == Some(k));
    assert(ui_status(r.status) == r.status) by {
        reveal_strlit("active");
        reveal_strlit("deprecated");
        if r.status == active_text() {
            assert(ascii_lower_seq(trim_seq(r.status)) =~= r.status);
        } else {
            assert(ascii_lower_seq(trim_seq(r.status)) =~= r.status);
        }
    }
    let e = edited(r, r.title, r.content, join_seq(r.tags, seq![',']), r.status);
    assert(e == refreshed(r));
    assert(v.rules.update(k as int, r) =~= v.rules);
}

// ---------------------------------------------------------------------------
// Deprecating
// ---------------------------------------------------------------------------

/// Deprecating a rule keeps it, with the status `deprecated`, and keeps
/// every selection.
pub proof fn law_deprecate_keeps_rule(v: StoreView, id: Seq<char>, ts: Seq<char>)
    requires
        store_wf(v),
    ensures
        retire_result(v, id, false, ts) matches Ok((v2, d)) ==> {
            &&& d.status == crate::status::deprecated_text()
            &&& has_rule(v2.rules, d.id)
            &&& v2.sels == v.sels
            &&& v2.rules.len() == v.rules.len()
        },
{
    match retire_result(v, id, false, ts) {
        Ok((v2, d)) => {
            let cur = get_view(v.rules, id)->0;
            assert(crate::status::cli_status(crate::status::deprecated_text()) == Some(crate::status::deprecated_text())) by {
                assert(ascii_lower_seq(trim_seq(crate::status::deprecated_text())) =~= crate::status::deprecated_text());
            }
            lemma_rule_index(v.rules, trim_seq(cur.id));
            let k = rule_index(v.rules, trim_seq(cur.id))->0;
            assert(v2.rules[k].id == d.id);
        },
        Err(_) => {},
    }
}

// ---------------------------------------------------------------------------
// Tag lists
// ---------------------------------------------------------------------------

proof fn lemma_comma_items_clean(raw: Seq<char>)
    ensures
        forall|i: int| 0 <= i < comma_items(raw).len() ==> (#[trigger] comma_items(raw)[i]).len() > 0
            && trim_seq(comma_items(raw)[i]) == comma_items(raw)[i] && !comma_items(raw)[i].contains(','),
{
    crate::split::lemma_trimmed_parts_clean(split_by(raw, ','));
    crate::split::lemma_split_by_no_sep(raw, ',');
    lemma_trimmed_parts_without(split_by(raw, ','), ',');
}

/// A clean tag is its own only comma item.
proof fn lemma_comma_items_of_tag(t: Seq<char>)
    requires
        t.len() > 0,
        trim_seq(t) == t,
        !t.contains(','),
    ensures
        comma_items(t) == seq![t],
{
    lemma_split_by_whole(t, ',');
    let p = seq![t];
    assert(p.drop_last() =~= Seq::<Seq<char>>::empty());
    assert(p.last() == t);
    assert(trimmed_parts(p.drop_last()) == Seq::<Seq<char>>::empty());
    assert(Seq::<Seq<char>>::empty().push(t) =~= seq![t]);
}

proof fn lemma_flat_items_clean(raw: Seq<Seq<char>>)
    ensures
        forall|i: int| 0 <= i < flat_items(raw).len() ==> (#[trigger] flat_items(raw)[i]).len() > 0
            && trim_seq(flat_items(raw)[i]) == flat_items(raw)[i] && !flat_items(raw)[i].contains(','),
    decreases raw.len(),
{
    if raw.len() > 0 {
        lemma_flat_items_clean(raw.drop_last());
        lemma_comma_items_clean(raw.last());
        let a = flat_items(raw.drop_last());
        let b = comma_items(raw.last());
        assert forall|i: int| 0 <= i < flat_items(raw).len() implies (#[trigger] flat_items(raw)[i]).len() > 0
            && trim_seq(flat_items(raw)[i]) == flat_items(raw)[i] && !flat_items(raw)[i].contains(',') by {
            if i < a.len() {
                assert(flat_items(raw)[i] == a[i]);
            } else {
                assert(flat_items(raw)[i] == b[i - a.len()]);
            }
        }
    }
}

proof fn lemma_flat_items_of_clean(tags: Seq<Seq<char>>)
    requires
        forall|i: int| 0 <= i < tags.len() ==> (#[trigger] tags[i]).len() > 0 && trim_seq(tags[i]) == tags[i] && !tags[i].contains(','),
    ensures
        flat_items(tags) == tags,
    decreases tags.len(),
{
    if tags.len() > 0 {
        let d = tags.drop_last();
        assert forall|i: int| 0 <= i < d.len() implies (#[trigger] d[i]).len() > 0 && trim_seq(d[i]) == d[i] && !d[i].contains(',') by {
            assert(d[i] == tags[i]);
        }
        lemma_flat_items_of_clean(d);
        assert(tags[tags.len() - 1] == tags.last());
        lemma_comma_items_of_tag(tags.last());
        assert(d + seq![tags.last()] =~= tags);
    }
}

/// Tags normalized from a list are clean, hold exactly the comma items of
/// the list's entries, and normalizing them again changes nothing.
pub proof fn law_normalized_tags_clean(raw: Seq<Seq<char>>)
    ensures
        clean_tags(normalized_tags(raw)),
        forall|x: Seq<char>| #[trigger] normalized_tags(raw).contains(x) <==> flat_items(raw).contains(x),
        normalized_tags(normalized_tags(raw)) == normalized_tags(raw),
{
    let f = flat_items(raw);
    let t = normalized_tags(raw);
    lemma_dedup_no_duplicates(f);
    lemma_dedup_same_items(f);
    lemma_flat_items_clean(raw);
    assert forall|i: int| 0 <= i < t.len() implies (#[trigger] t[i]).len() > 0 && trim_seq(t[i]) == t[i] && !t[i].contains(',') by {
        assert(t.contains(t[i]));
        let k = choose|k: int| 0 <= k < f.len() && f[k] == t[i];
    }
    lemma_flat_items_of_clean(t);
    lemma_dedup_keep(t);
}

// ---------------------------------------------------------------------------
// Session ids
// ---------------------------------------------------------------------------

proof fn lemma_dash_fold_only_dashes(s: Seq<char>)
    requires
        forall|k: int| 0 <= k < s.len() ==> !(is_ascii_alnum(#[trigger] s[k]) || s[k] == '.' || s[k] == '_'),
    ensures
        forall|k: int| 0 <= k < dash_fold(s).0.len() ==> #[trigger] dash_fold(s).0[k] == '-',
    decreases s.len(),
{
    if s.len() > 0 {
        let d = s.drop_last();
        assert forall|k: int| 0 <= k < d.len() implies !(is_ascii_alnum(#[trigger] d[k]) || d[k] == '.' || d[k] == '_') by {
            assert(d[k] == s[k]);
        }
        lemma_dash_fold_only_dashes(d);
        assert(s[s.len() - 1] == s.last());
        let (out, last_dash) = dash_fold(d);
        let c = s.last();
        assert(crate::session::allowed_char(c) ==> c == '-');
        let r = dash_fold(s).0;
        assert forall|k: int| 0 <= k < r.len() implies #[trigger] r[k] == '-' by {
            if k < out.len() {
                assert(r[k] == out[k]);
            }
        }
    }
}

/// A session id is never empty, holds only ASCII letters, digits, `.`, `_`
/// and `-`, neither starts nor ends with `-`, and is its own sanitized
/// form; a raw name without an ASCII letter, digit, `.` or `_` becomes
/// `unknown-session`.
pub proof fn law_session_id_clean(raw: Seq<char>)
    ensures
        sanitized(raw).len() > 0,
        all_allowed(sanitized(raw)),
        sanitized(raw)[0] != '-',
        sanitized(raw).last() != '-',
        sanitized(sanitized(raw)) == sanitized(raw),
        (forall|k: int| 0 <= k < raw.len() ==> !(is_ascii_alnum(#[trigger] raw[k]) || raw[k] == '.' || raw[k] == '_'))
            ==> sanitized(raw) == "unknown-session"@,
{
    lemma_sanitized_shape(raw);
    lemma_sanitize_idempotent(raw);
    if forall|k: int| 0 <= k < raw.len() ==> !(is_ascii_alnum(#[trigger] raw[k]) || raw[k] == '.' || raw[k] == '_') {
        let t = trim_seq(raw);
        crate::text::lemma_trim_shape(raw);
        let (a, b) = choose|a: int, b: int| 0 <= a <= b <= raw.len() && t == raw.subrange(a, b);
        assert forall|k: int| 0 <= k < t.len() implies !(is_ascii_alnum(#[trigger] t[k]) || t[k] == '.' || t[k] == '_') by {
            assert(t[k] == raw[a + k]);
        }
        lemma_dash_fold_only_dashes(t);
        let folded = dash_fold(t).0;
        lemma_trim_dashes_shape(folded);
        let cleaned = trim_dashes(folded);
        if cleaned.len() > 0 {
            let (x, y) = choose|x: int, y: int| 0 <= x <= y <= folded.len() && cleaned == folded.subrange(x, y);
            assert(cleaned[0] == folded[x]);
        }
    }
}

// ---------------------------------------------------------------------------
// Command-line tags
// ---------------------------------------------------------------------------

/// The pieces of a whitespace split hold no whitespace, and only
/// characters of the text.
proof fn lemma_split_ws_pieces(s: Seq<char>)
    ensures
        forall|k: int, j: int| 0 <= k < split_ws_raw(s).len() && 0 <= j < split_ws_raw(s)[k].len()
            ==> !is_ws(#[trigger] split_ws_raw(s)[k][j]) && s.contains(split_ws_raw(s)[k][j]),
        split_ws_raw(s).len() >= 1,
    decreases s.len(),
{
    if s.len() > 0 {
        let d = s.drop_last();
        lemma_split_ws_pieces(d);
        let prev = split_ws_raw(d);
        let c = s.last();
        assert(s[s.len() - 1] == c);
        assert forall|x: char| d.contains(x) implies s.contains(x) by {
            let i = choose|i: int| 0 <= i < d.len() && d[i] == x;
            assert(s[i] == x);
        }
        let cur = split_ws_raw(s);
        assert forall|k: int, j: int| 0 <= k < cur.len() && 0 <= j < cur[k].len()
            implies !is_ws(#[trigger] cur[k][j]) && s.contains(cur[k][j]) by {
            if k < prev.len() - 1 || (k == prev.len() - 1 && j < prev[k].len()) {
                if !is_ws(c) && k == prev.len() - 1 {
                    assert(cur[k][j] == prev.last()[j]);
                    assert(prev.last() == prev[k]);
                } else {
                    assert(cur[k] == prev[k]);
                }
                assert(!is_ws(prev[k][j]) && d.contains(prev[k][j]));
            } else if k == prev.len() - 1 {
                assert(!is_ws(c));
                assert(cur[k][j] == c);
            }
        }
    }
}

/// The kept pieces are pieces, and not empty.
proof fn lemma_nonempty_parts_from(parts: Seq<Seq<char>>)
    ensures
        forall|i: int| 0 <= i < nonempty_parts(parts).len() ==> (#[trigger] nonempty_parts(parts)[i]).len() > 0
            && parts.contains(nonempty_parts(parts)[i]),
    decreases parts.len(),
{
    if parts.len() > 0 {
        let d = parts.drop_last();
        lemma_nonempty_parts_from(d);
        let prev = nonempty_parts(d);
        assert forall|i: int| 0 <= i < nonempty_parts(parts).len() implies (#[trigger] nonempty_parts(parts)[i]).len() > 0
            && parts.contains(nonempty_parts(parts)[i]) by {
            if i < prev.len() {
                assert(nonempty_parts(parts)[i] == prev[i]);
                let k = choose|k: int| 0 <= k < d.len() && d[k] == prev[i];
                assert(parts[k] == d[k]);
            } else {
                assert(nonempty_parts(parts)[i] == parts.last());
                assert(parts[parts.len() - 1] == parts.last());
            }
        }
    }
}

/// A text with a character that is not whitespace has a word.
proof fn lemma_has_word(s: Seq<char>, i: int)
    requires
        0 <= i < s.len(),
        !is_ws(s[i]),
    ensures
        split_whitespace_seq(s).len() > 0,
    decreases s.len(),
{
    let d = s.drop_last();
    let prev = split_ws_raw(d);
    lemma_split_ws_pieces(d);
    if i == s.len() - 1 {
        assert(s.last() == s[i]);
        let cur = split_ws_raw(s);
        assert(cur.last() == prev.last().push(s.last()));
        assert(cur.drop_last() == prev.drop_last());
    } else {
        assert(d[i] == s[i]);
        lemma_has_word(d, i);
        if is_ws(s.last()) {
            assert(split_ws_raw(s).drop_last() == prev);
        } else {
            let cur = split_ws_raw(s);
            assert(cur.last().len() > 0);
        }
    }
}

/// Every character of a join satisfies what every character of the pieces
/// and of the separator does.
proof fn lemma_join_chars(parts: Seq<Seq<char>>, sep: Seq<char>, q: spec_fn(char) -> bool)
    requires
        forall|k: int, j: int| 0 <= k < parts.len() && 0 <= j < parts[k].len() ==> q(#[trigger] parts[k][j]),
        forall|j: int| 0 <= j < sep.len() ==> q(#[trigger] sep[j]),
    ensures
        forall|j: int| 0 <= j < join_seq(parts, sep).len() ==> q(#[trigger] join_seq(parts, sep)[j]),
    decreases parts.len(),
{
    if parts.len() == 1 {
        assert forall|j: int| 0 <= j < join_seq(parts, sep).len() implies q(#[trigger] join_seq(parts, sep)[j]) by {
            assert(join_seq(parts, sep)[j] == parts[0][j]);
        }
    } else if parts.len() > 1 {
        let d = parts.drop_last();
        assert forall|k: int, j: int| 0 <= k < d.len() && 0 <= j < d[k].len() implies q(#[trigger] d[k][j]) by {
            assert(d[k] == parts[k]);
        }
        lemma_join_chars(d, sep, q);
        let a = join_seq(d, sep);
        let l = parts.last();
        assert(parts[parts.len() - 1] == l);
        assert forall|j: int| 0 <= j < join_seq(parts, sep).len() implies q(#[trigger] join_seq(parts, sep)[j]) by {
            let w = join_seq(parts, sep);
            if j < a.len() {
                assert(w[j] == a[j]);
            } else if j < a.len() + sep.len() {
                assert(w[j] == sep[j - a.len()]);
            } else {
                assert(w[j] == l[j - a.len() - sep.len()]);
            }
        }
    }
}

/// A tag with its inner whitespace runs turned into `-` holds no
/// whitespace and no comma when the tag held none, and is not empty when
/// the tag was not blank.
proof fn lemma_hyphenate_clean(t: Seq<char>)
    requires
        t.len() > 0,
        trim_seq(t) == t,
        !t.contains(','),
    ensures
        hyphenate(t).len() > 0,
        forall|j: int| 0 <= j < hyphenate(t).len() ==> !is_ws(#[trigger] hyphenate(t)[j]) && hyphenate(t)[j] != ',',
{
    let raw = split_ws_raw(t);
    let words = split_whitespace_seq(t);
    lemma_split_ws_pieces(t);
    lemma_nonempty_parts_from(raw);
    crate::text::lemma_trim_shape(t);
    lemma_has_word(t, 0);
    let q = |c: char| !is_ws(c) && c != ',';
    assert forall|k: int, j: int| 0 <= k < words.len() && 0 <= j < words[k].len() implies q(#[trigger] words[k][j]) by {
        let m = choose|m: int| 0 <= m < raw.len() && raw[m] == words[k];
        assert(raw[m][j] == words[k][j]);
        assert(t.contains(words[k][j]));
    }
    assert forall|j: int| 0 <= j < seq!['-'].len() implies q(#[trigger] seq!['-'][j]) by {
        assert(seq!['-'][j] == '-');
        assert(!is_ws('-'));
    }
    lemma_join_chars(words, seq!['-'], q);
    assert(hyphenate(t) == join_seq(words, seq!['-']));
    if words.len() == 1 {
        assert(words[0].len() > 0);
    } else {
        assert(join_seq(words, seq!['-']).len() >= 1);
    }
    assert forall|j: int| 0 <= j < hyphenate(t).len() implies !is_ws(#[trigger] hyphenate(t)[j]) && hyphenate(t)[j] != ',' by {
        assert(q(hyphenate(t)[j]));
    }
}

/// A text without whitespace is one word.
proof fn lemma_ws_split_whole(s: Seq<char>)
    requires
        forall|j: int| 0 <= j < s.len() ==> !is_ws(#[trigger] s[j]),
    ensures
        split_ws_raw(s) == seq![s],
    decreases s.len(),
{
    if s.len() > 0 {
        let d = s.drop_last();
        assert forall|j: int| 0 <= j < d.len() implies !is_ws(#[trigger] d[j]) by {
            assert(d[j] == s[j]);
        }
        lemma_ws_split_whole(d);
        assert(!is_ws(s[s.len() - 1]));
        assert(d.push(s.last()) =~= s);
    } else {
        assert(s =~= Seq::<char>::empty());
    }
}

proof fn lemma_hyphenate_keeps(t: Seq<char>)
    requires
        t.len() > 0,
        forall|j: int| 0 <= j < t.len() ==> !is_ws(#[trigger] t[j]),
    ensures
        hyphenate(t) == t,
{
    lemma_ws_split_whole(t);
    let p = seq![t];
    assert(p.drop_last() =~= Seq::<Seq<char>>::empty());
    assert(p.last() == t);
    assert(nonempty_parts(p.drop_last()) == Seq::<Seq<char>>::empty());
    assert(Seq::<Seq<char>>::empty().push(t) =~= p);
    assert(split_whitespace_seq(t) == p);
}

/// Tags as the command line keeps them: each not empty, without
/// whitespace or a comma, each once.
pub open spec fn cli_clean(tags: Seq<Seq<char>>) -> bool {
    &&& tags.no_duplicates()
    &&& forall|i: int| 0 <= i < tags.len() ==> (#[trigger] tags[i]).len() > 0 && !tags[i].contains(',')
        && forall|j: int| 0 <= j < tags[i].len() ==> !is_ws(#[trigger] tags[i][j])
}

/// The tags split from a comma-separated list are clean, and splitting
/// them again once joined by commas gives them back.
pub proof fn law_cli_tags_clean(raw: Seq<char>)
    ensures
        cli_clean(cli_tags(raw)),
        cli_tags(join_seq(cli_tags(raw), seq![','])) == cli_tags(raw),
{
    let items = comma_items(raw);
    let h = hyphenate_all(items);
    let t = cli_tags(raw);
    lemma_comma_items_clean(raw);
    assert forall|i: int| 0 <= i < h.len() implies (#[trigger] h[i]).len() > 0 && !h[i].contains(',')
        && forall|j: int| 0 <= j < h[i].len() ==> !is_ws(#[trigger] h[i][j]) by {
        lemma_hyphenate_clean(items[i]);
        assert(h[i] == hyphenate(items[i]));
        if h[i].contains(',') {
            let j = choose|j: int| 0 <= j < h[i].len() && h[i][j] == ',';
        }
    }
    lemma_dedup_no_duplicates(h);
    lemma_dedup_same_items(h);
    assert forall|i: int| 0 <= i < t.len() implies (#[trigger] t[i]).len() > 0 && !t[i].contains(',')
        && forall|j: int| 0 <= j < t[i].len() ==> !is_ws(#[trigger] t[i][j]) by {
        assert(t.contains(t[i]));
        let k = choose|k: int| 0 <= k < h.len() && h[k] == t[i];
    }
    if t.len() == 0 {
        assert(split_by(Seq::<char>::empty(), ',') == seq![Seq::<char>::empty()]);
        let p = seq![Seq::<char>::empty()];
        assert(p.drop_last() =~= Seq::<Seq<char>>::empty());
        assert(trim_seq(Seq::<char>::empty()) =~= Seq::<char>::empty());
        assert(p.last() == Seq::<char>::empty());
        assert(trimmed_parts(p.drop_last()) == Seq::<Seq<char>>::empty());
        assert(trimmed_parts(p) == Seq::<Seq<char>>::empty());
        assert(hyphenate_all(Seq::<Seq<char>>::empty()) =~= Seq::<Seq<char>>::empty());
        assert(dedup_seq(Seq::<Seq<char>>::empty()) == Seq::<Seq<char>>::empty());
    } else {
        lemma_split_join(t, ',');
        assert forall|i: int| 0 <= i < t.len() implies (#[trigger] t[i]).len() > 0 && trim_seq(t[i]) == t[i] by {
            crate::text::lemma_trim_noop(t[i]);
            assert(!is_ws(t[i][0]));
            assert(t[i].last() == t[i][t[i].len() - 1]);
        }
        lemma_trimmed_parts_keep(t);
        assert(hyphenate_all(t) =~= t) by {
            assert forall|i: int| 0 <= i < t.len() implies #[trigger] hyphenate_all(t)[i] == t[i] by {
                lemma_hyphenate_keeps(t[i]);
            }
        }
        lemma_dedup_keep(t);
    }
}

// ---------------------------------------------------------------------------
// A window's answer
// ---------------------------------------------------------------------------

/// From any state, a run of events sends nothing when an answer was sent,
/// and otherwise exactly one action as soon as there is any event.
proof fn lemma_guard_run(sent: bool, events: Seq<GuardEvent>)
    ensures
        guard_run(sent, events).1 == (if sent || events.len() == 0 { 0nat } else { 1nat }),
        guard_run(sent, events).0 == (sent || events.len() > 0),
    decreases events.len(),
{
    if events.len() > 0 {
        lemma_guard_run(true, events.drop_first());
    }
}

/// A checklist window answers at most once, and exactly once by the time it
/// goes away: from a fresh guard, whatever sends and going-aways follow,
/// one action is sent as soon as anything happens (the first action sent,
/// or a cancel when the window went away first), and none after it.
pub proof fn law_one_action_per_window(events: Seq<GuardEvent>)
    ensures
        guard_run(false, events).1 <= 1,
        events.len() > 0 ==> guard_run(false, events).1 == 1,
        (exists|i: int| 0 <= i < events.len() && #[trigger] events[i] is Destroy) ==> guard_run(false, events).1 == 1,
{
    lemma_guard_run(false, events);
}

// ---------------------------------------------------------------------------
// What a session's list shows
// ---------------------------------------------------------------------------

/// A session's list shows only rules that session selected (never those of
/// another session), each marked selected, and deprecated ones only when
/// asked for; and every rule the session selected that exists, and is
/// active unless deprecated ones are asked for, is shown.
pub proof fn law_session_list_is_its_selections(rows: Seq<RuleRow>, sels: Seq<SelRow>, session: Seq<char>, include_deprecated: bool)
    ensures
        forall|i: int| 0 <= i < crate::query::selected_view(rows, sels, session, include_deprecated).len() ==> {
            let r = #[trigger] crate::query::selected_view(rows, sels, session, include_deprecated)[i];
            &&& has_pair(sels, session, r.id)
            &&& r.selected == Some(true)
            &&& (include_deprecated || r.status == active_text())
        },
        forall|b: Seq<char>| #[trigger] has_pair(sels, session, b) && has_rule(rows, b) && (include_deprecated || active_in(rows, b))
            ==> exists|i: int| 0 <= i < crate::query::selected_view(rows, sels, session, include_deprecated).len()
                && crate::query::selected_view(rows, sels, session, include_deprecated)[i].id == b,
    decreases sels.len(),
{
    let sv = crate::query::selected_view(rows, sels, session, include_deprecated);
    if sels.len() == 0 {
        return;
    }
    let d = sels.drop_last();
    let prev = crate::query::selected_view(rows, d, session, include_deprecated);
    law_session_list_is_its_selections(rows, d, session, include_deprecated);
    let s = sels.last();
    assert(sels[sels.len() - 1] == s);
    lemma_rule_index(rows, s.rule_id);
    assert forall|i: int| 0 <= i < sv.len() implies {
        let r = #[trigger] sv[i];
        &&& has_pair(sels, session, r.id)
        &&& r.selected == Some(true)
        &&& (include_deprecated || r.status == active_text())
    } by {
        if i < prev.len() {
            assert(sv[i] == prev[i]);
            let j = choose|j: int| 0 <= j < d.len() && (#[trigger] d[j]).session_id == session && d[j].rule_id == prev[i].id;
            assert(sels[j] == d[j]);
        } else {
            let k = rule_index(rows, s.rule_id)->0;
            assert(sv[i] == db_view(rows[k], Some(true)));
        }
    }
    assert forall|b: Seq<char>| #[trigger] has_pair(sels, session, b) && has_rule(rows, b) && (include_deprecated || active_in(rows, b))
        implies exists|i: int| 0 <= i < sv.len() && sv[i].id == b by {
        let j = choose|j: int| 0 <= j < sels.len() && (#[trigger] sels[j]).session_id == session && sels[j].rule_id == b;
        if j == sels.len() - 1 {
            lemma_rule_index(rows, b);
            let k = rule_index(rows, b)->0;
            assert(sv[prev.len() as int] == db_view(rows[k], Some(true)));
        } else {
            assert(d[j] == sels[j]);
            assert(has_pair(d, session, b));
            let i = choose|i: int| 0 <= i < prev.len() && prev[i].id == b;
            assert(sv[i] == prev[i]);
        }
    }
}

// ---------------------------------------------------------------------------
// What an update changes
// ---------------------------------------------------------------------------

proof fn lemma_rule_index_update(rows: Seq<RuleRow>, k: int, r: RuleRow, x: Seq<char>)
    requires
        0 <= k < rows.len(),
        r.id == rows[k].id,
    ensures
        rule_index(rows.update(k, r), x) == rule_index(rows, x),
    decreases rows.len(),
{
    if k > 0 {
        assert(rows.update(k, r).drop_first() =~= rows.drop_first().update(k - 1, r));
        lemma_rule_index_update(rows.drop_first(), k - 1, r, x);
    } else {
        assert(rows.update(k, r).drop_first() =~= rows.drop_first());
    }
}

/// An update that succeeds changes the rule it names: the title becomes the
/// given title, trimmed, and the content the given content, trimmed, each
/// independently of the other and kept where the given one is blank; the
/// status becomes the given one where it is not blank. Id, creation time
/// and pick count stay, the selections stay, and reading the rule back
/// gives the updated rule.
pub proof fn law_update_changes_fields(
    v: StoreView,
    id: Seq<char>,
    title: Seq<char>,
    content: Seq<char>,
    tags: Option<Seq<Seq<char>>>,
    status: Seq<char>,
    ts: Seq<char>,
)
    ensures
        crate::ops::update_result(v, id, title, content, tags, status, ts) matches Ok((v2, d)) ==> {
            &&& get_view(v.rules, id) matches Some(before)
            &&& d.id == before.id
            &&& d.title == (if trim_seq(title).len() == 0 { before.title } else { trim_seq(title) })
            &&& d.content == (if trim_seq(content).len() == 0 { before.content } else { trim_seq(content) })
            &&& (trim_seq(status).len() == 0 ==> d.status == before.status)
            &&& (trim_seq(status).len() > 0 ==> Some(d.status) == crate::status::cli_status(status))
            &&& d.created_at == before.created_at
            &&& d.picked_count == before.picked_count
            &&& d.updated_at == ts
            &&& v2.sels == v.sels
            &&& get_view(v2.rules, id) == Some(d)
        },
{
    match crate::ops::update_result(v, id, title, content, tags, status, ts) {
        Ok((v2, d)) => {
            lemma_rule_index(v.rules, trim_seq(id));
            let k = rule_index(v.rules, trim_seq(id))->0;
            let nr = v2.rules[k];
            assert(v2.rules == v.rules.update(k, nr));
            lemma_rule_index_update(v.rules, k, nr, trim_seq(id));
        },
        Err(_) => {},
    }
}

// ---------------------------------------------------------------------------
// What the picker's search shows
// ---------------------------------------------------------------------------

/// Whether `hay` holds every whitespace-separated word of `text`.
pub open spec fn has_every_word(hay: Seq<char>, text: Seq<char>) -> bool {
    forall|w: Seq<char>| #[trigger] split_whitespace_seq(text).contains(w) ==> crate::split::has_substring(hay, w)
}

proof fn lemma_search_one(vis: Seq<usize>, rules: Seq<RuleItemView>, query: Seq<char>, k: usize)
    requires
        crate::window::shows_matches(vis, rules, crate::window::query_terms(query)),
        (k as int) < rules.len(),
    ensures
        vis.contains(k) <==> has_every_word(rules[k as int].search_text, crate::text::lower_text(query)),
{
    let words = split_whitespace_seq(crate::text::lower_text(query));
    let terms = crate::window::query_terms(query);
    let hay = rules[k as int].search_text;
    if vis.contains(k) {
        let i = choose|i: int| 0 <= i < vis.len() && vis[i] == k;
        assert(crate::window::matches_terms(hay, terms));
        assert forall|w: Seq<char>| #[trigger] words.contains(w) implies crate::split::has_substring(hay, w) by {
            let m = choose|m: int| 0 <= m < words.len() && words[m] == w;
            assert(crate::split::has_substring(hay, terms[m]));
        }
    }
    if has_every_word(hay, crate::text::lower_text(query)) {
        assert forall|m: int| 0 <= m < terms.len() implies crate::split::has_substring(hay, #[trigger] terms[m]) by {
            assert(words.contains(terms[m]));
        }
        let ki: int = k as int;
        assert(crate::window::matches_terms(rules[ki].search_text, terms));
        assert(vis.contains(ki as usize));
    }
}

/// The picker shows, after a search, exactly the rules whose search text
/// holds every whitespace-separated word of the lowered search text (all
/// rules for a blank search).
pub proof fn law_search_needs_every_word(vis: Seq<usize>, rules: Seq<RuleItemView>, query: Seq<char>)
    requires
        crate::window::shows_matches(vis, rules, crate::window::query_terms(query)),
    ensures
        forall|k: usize| (k as int) < rules.len() ==> (#[trigger] vis.contains(k)
            <==> has_every_word(rules[k as int].search_text, crate::text::lower_text(query))),
{
    assert forall|k: usize| (k as int) < rules.len() implies (#[trigger] vis.contains(k)
        <==> has_every_word(rules[k as int].search_text, crate::text::lower_text(query))) by {
        lemma_search_one(vis, rules, query, k);
    }
}

// ---------------------------------------------------------------------------
// Which rules a filtered listing shows
// ---------------------------------------------------------------------------

/// Every rule a listing shows is a row of the table.
proof fn lemma_list_view_from_rows(
    rows: Seq<RuleRow>, sels: Seq<SelRow>, include_all: bool, tag: Seq<char>, query: Seq<char>,
    ids: Seq<Seq<char>>, session: Option<Seq<char>>,
)
    ensures
        forall|i: int| 0 <= i < crate::query::list_view(rows, sels, include_all, tag, query, ids, session).len()
            ==> exists|j: int| 0 <= j < rows.len() && (#[trigger] crate::query::list_view(rows, sels, include_all, tag, query, ids, session)[i]).id == rows[j].id,
    decreases rows.len(),
{
    if rows.len() > 0 {
        let d = rows.drop_last();
        lemma_list_view_from_rows(d, sels, include_all, tag, query, ids, session);
        let l = crate::query::list_view(rows, sels, include_all, tag, query, ids, session);
        let prev = crate::query::list_view(d, sels, include_all, tag, query, ids, session);
        assert forall|i: int| 0 <= i < l.len() implies exists|j: int| 0 <= j < rows.len() && (#[trigger] l[i]).id == rows[j].id by {
            if i < prev.len() {
                assert(l[i] == prev[i]);
                let j = choose|j: int| 0 <= j < d.len() && prev[i].id == d[j].id;
                assert(rows[j] == d[j]);
            } else {
                assert(l[i].id == rows[rows.len() - 1].id);
            }
        }
    }
}

/// A row of a table with distinct ids is shown by a listing exactly when it
/// passes the listing's filters.
proof fn lemma_list_view_member(
    rows: Seq<RuleRow>, sels: Seq<SelRow>, include_all: bool, tag: Seq<char>, query: Seq<char>,
    ids: Seq<Seq<char>>, session: Option<Seq<char>>, k: int,
)
    requires
        forall|i: int, j: int| 0 <= i < j < rows.len() ==> (#[trigger] rows[i]).id != (#[trigger] rows[j]).id,
        0 <= k < rows.len(),
    ensures
        crate::query::list_view(rows, sels, include_all, tag, query, ids, session).contains(
            db_view(rows[k], crate::query::selection_mark(sels, session, rows[k].id)))
            <==> crate::query::listed(rows[k], include_all, tag, query, ids),
    decreases rows.len(),
{
    let d = rows.drop_last();
    let n = rows.len() - 1;
    let l = crate::query::list_view(rows, sels, include_all, tag, query, ids, session);
    let prev = crate::query::list_view(d, sels, include_all, tag, query, ids, session);
    let vk = db_view(rows[k], crate::query::selection_mark(sels, session, rows[k].id));
    lemma_list_view_from_rows(d, sels, include_all, tag, query, ids, session);
    assert(rows.last() == rows[n]);
    if k == n {
        if prev.contains(vk) {
            let i = choose|i: int| 0 <= i < prev.len() && prev[i] == vk;
            let j = choose|j: int| 0 <= j < d.len() && prev[i].id == d[j].id;
            assert(rows[j] == d[j]);
            assert(rows[j].id != rows[n].id);
        }
        if crate::query::listed(rows[k], include_all, tag, query, ids) {
            assert(l[prev.len() as int] == vk);
        }
    } else {
        assert(d[k] == rows[k]);
        lemma_list_view_member(d, sels, include_all, tag, query, ids, session, k);
        if l.contains(vk) {
            let i = choose|i: int| 0 <= i < l.len() && l[i] == vk;
            if i == prev.len() {
                assert(rows[k].id != rows[n].id);
            } else {
                assert(l[i] == prev[i]);
            }
        }
        if prev.contains(vk) {
            let i = choose|i: int| 0 <= i < prev.len() && prev[i] == vk;
            assert(l[i] == prev[i]);
        }
    }
}

/// A listing of a table whose ids are distinct shows a rule exactly when it
/// is active (or all rules are asked for), is among the asked ids (when
/// some are), carries the trimmed tag (when one is given), and, for a
/// non-blank query, when its search text (id, status, title, content and
/// tags, space-separated, lowered) holds the lowered, trimmed query.
pub proof fn law_listing_filters(
    rows: Seq<RuleRow>, sels: Seq<SelRow>, include_all: bool, tag: Seq<char>, query: Seq<char>,
    ids: Seq<Seq<char>>, session: Option<Seq<char>>, k: int,
)
    requires
        forall|i: int, j: int| 0 <= i < j < rows.len() ==> (#[trigger] rows[i]).id != (#[trigger] rows[j]).id,
        0 <= k < rows.len(),
    ensures
        ({
            let r = rows[k];
            let tags = crate::json::tags_of_json(r.tags_json);
            let hay = r.id + seq![' '] + r.status + seq![' '] + r.title + seq![' '] + r.content + seq![' ']
                + join_seq(tags, seq![' ']);
            crate::query::list_view(rows, sels, include_all, trim_seq(tag), trim_seq(query), ids, session).contains(
                db_view(r, crate::query::selection_mark(sels, session, r.id)))
            <==> {
                &&& include_all || r.status == active_text()
                &&& ids.len() == 0 || ids.contains(r.id)
                &&& trim_seq(tag).len() == 0 || tags.contains(trim_seq(tag))
                &&& trim_seq(query).len() == 0 || crate::split::has_substring(
                    crate::text::lower_text(hay), crate::text::lower_text(trim_seq(query)))
            }
        }),
{
    lemma_list_view_member(rows, sels, include_all, trim_seq(tag), trim_seq(query), ids, session, k);
}

/// One of the parts is found in their join.
proof fn lemma_join_has_part(parts: Seq<Seq<char>>, sep: Seq<char>, m: int) -> (at: int)
    requires
        0 <= m < parts.len(),
    ensures
        0 <= at && at + parts[m].len() <= join_seq(parts, sep).len(),
        join_seq(parts, sep).subrange(at, at + parts[m].len()) == parts[m],
    decreases parts.len(),
{
    if parts.len() == 1 {
        assert(join_seq(parts, sep).subrange(0, parts[0].len() as int) =~= parts[0]);
        0
    } else {
        let d = parts.drop_last();
        let a = join_seq(d, sep);
        let w = join_seq(parts, sep);
        if m == parts.len() - 1 {
            let at: int = (a.len() + sep.len()) as int;
            assert(parts.last() == parts[m]);
            assert(w.subrange(at, at + parts[m].len()) =~= parts[m]);
            at
        } else {
            assert(d[m] == parts[m]);
            let at = lemma_join_has_part(d, sep, m);
            assert(w.subrange(at, at + parts[m].len()) =~= a.subrange(at, at + parts[m].len()));
            at
        }
    }
}

/// With ASCII texts, a query equal to one of a rule's tags lists it (the
/// other filters aside).
pub proof fn law_tag_query_lists(
    rows: Seq<RuleRow>, sels: Seq<SelRow>, session: Option<Seq<char>>, k: int, t: Seq<char>,
)
    requires
        forall|i: int, j: int| 0 <= i < j < rows.len() ==> (#[trigger] rows[i]).id != (#[trigger] rows[j]).id,
        0 <= k < rows.len(),
        crate::json::tags_of_json(rows[k].tags_json).contains(t),
        trim_seq(t) == t,
        crate::text::all_ascii(rows[k].id + seq![' '] + rows[k].status + seq![' '] + rows[k].title + seq![' ']
            + rows[k].content + seq![' '] + join_seq(crate::json::tags_of_json(rows[k].tags_json), seq![' '])),
    ensures
        crate::query::list_view(rows, sels, true, Seq::empty(), t, Seq::empty(), session).contains(
            db_view(rows[k], crate::query::selection_mark(sels, session, rows[k].id))),
{
    let r = rows[k];
    let tags = crate::json::tags_of_json(r.tags_json);
    let pre = r.id + seq![' '] + r.status + seq![' '] + r.title + seq![' '] + r.content + seq![' '];
    let joined = join_seq(tags, seq![' ']);
    let hay = pre + joined;
    let m = choose|m: int| 0 <= m < tags.len() && tags[m] == t;
    let at = lemma_join_has_part(tags, seq![' '], m);
    let o = pre.len() + at;
    assert(hay.subrange(o, o + t.len()) =~= t) by {
        assert(joined.subrange(at, at + t.len()) == t);
    }
    assert(crate::text::all_ascii(t)) by {
        assert forall|q: int| 0 <= q < t.len() implies (#[trigger] t[q] as u32) < 128 by {
            assert(t[q] == hay[o + q]);
        }
    }
    let lh = crate::text::ascii_lower_seq(hay);
    assert(lh.subrange(o, o + t.len()) =~= crate::text::ascii_lower_seq(t));
    assert(crate::text::lower_text(t) == crate::text::ascii_lower_seq(t));
    assert(crate::split::has_substring(crate::text::lower_text(hay), crate::text::lower_text(t)));
    crate::text::lemma_trim_idempotent(t);
    law_listing_filters(rows, sels, true, Seq::empty(), t, Seq::empty(), session, k);
    assert(trim_seq(Seq::<char>::empty()) =~= Seq::<char>::empty());
}

// ---------------------------------------------------------------------------
// What an import stores
// ---------------------------------------------------------------------------

/// A legacy rule imported as new is stored with its own title, content,
/// status and tags: the stored tag text is the JSON text of the legacy
/// rule's tags, and the stored search text is made from them too.
pub proof fn law_import_keeps_tags(v0: StoreView, v1: StoreView, l: LegacyView, ts: Seq<char>, y: DbRuleView)
    requires
        store_wf(v0),
        legacy_step(v0, v1, l, ts, Ok((y, true))),
    ensures
        exists|p: int| {
            &&& 0 <= p < v1.rules.len()
            &&& #[trigger] v1.rules[p].id == y.id
            &&& v1.rules[p].title == l.title
            &&& v1.rules[p].content == l.content
            &&& v1.rules[p].status == l.status
            &&& v1.rules[p].tags_json == crate::json::json_text_of_list(l.tags)
            &&& v1.rules[p].search_text == crate::text::lower_text(y.id + seq![' '] + l.status + seq![' '] + l.title
                + seq![' '] + l.content + seq![' '] + join_seq(l.tags, seq![' ']))
        },
        y.tags == crate::json::tags_of_json(crate::json::json_text_of_list(l.tags)),
{
    let row = legacy_row(y.id, l, ts);
    let p = lemma_ins_rule_split(v0.rules, row);
    assert(v1.rules[p] == row);
}

} // verus!
