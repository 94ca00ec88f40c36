use vstd::prelude::*;
use crate::commands::all_view;
use crate::db::{contains_text, copy_strings, RuleStore};
use crate::legacy::{legacy_step, legacy_views, opt_view, LegacyRule, LegacyView};
use crate::payload::{project_payload, project_payload_spec, ProjectPayload, ProjectPayloadView};
use crate::picks::pick_result;
use crate::query::{copy_db_rule, db_views, selected_ids, DbRule, DbRuleView};
use crate::session::seconds_text;
use crate::split::{dedup_seq, split_by};
use crate::status::{active_text, is_active};
use crate::store::StoreView;
use crate::text::texts_of;

verus! {

// ---------------------------------------------------------------------------
// Which legacy files are sources
// ---------------------------------------------------------------------------

/// A directory written so that `/` separates its components on every
/// platform: no backslash, no `:` (so no drive or verbatim prefix), and not
/// beginning a `//` network prefix once a `/` follows it.
pub open spec fn plain_dir(base: Seq<char>) -> bool {
    let b = base + "/"@;
    &&& !base.contains('\\')
    &&& !base.contains(':')
    &&& !(b[0] == '/' && b.len() >= 2 && b[1] == '/')
}

/// The paths that lie under `base` whatever the platform: `base` itself,
/// and, for a plain directory, `base` followed by `/` and anything.
pub open spec fn surely_under(path: Seq<char>, base: Seq<char>) -> bool {
    ||| path == base
    ||| (plain_dir(base) && exists|rest: Seq<char>| path == base + "/"@ + rest)
}

/// A path written the same way on every platform: not empty, no
/// backslash, no `:`, no `//`, no trailing `/`, and no `.` or `..`
/// component. Its components are exactly its `/`-separated pieces (after a
/// leading `/`, which stands for the root).
pub open spec fn plain_path(p: Seq<char>) -> bool {
    &&& p.len() > 0
    &&& !p.contains('\\')
    &&& !p.contains(':')
    &&& p.last() != '/'
    &&& forall|i: int| 0 <= i < p.len() - 1 ==> !(#[trigger] p[i] == '/' && p[i + 1] == '/')
    &&& forall|k: int| 0 <= k < split_by(p, '/').len() ==> #[trigger] split_by(p, '/')[k] != "."@
        && split_by(p, '/')[k] != ".."@
}

/// `Path::starts_with`: whether `base`'s whole components begin `path`'s.
/// Claimed: a path starts with itself, and with a plain directory that it
/// extends by `/` and more, since there `/` ends the directory's last
/// component on every platform; and, between two plain paths, that is the
/// only way one starts with the other, since their components are their
/// `/`-separated pieces. Not claimed: the answer for other paths, where
/// what a component is depends on the platform's path syntax.
#[verifier::external_body]
fn path_starts_with(path: &str, base: &str) -> (r: bool)
    ensures
        surely_under(path@, base@) ==> r,
        plain_path(path@) && plain_path(base@) && !surely_under(path@, base@) ==> !r,
{
    std::path::Path::new(path).starts_with(base)
}

/// The legacy rules whose mark is not set (`marks[i]` for `rules[i]`).
pub open spec fn keep_unmarked(rules: Seq<LegacyView>, marks: Seq<bool>) -> Seq<LegacyView>
    decreases rules.len(),
{
    if rules.len() == 0 {
        Seq::empty()
    } else {
        let prev = keep_unmarked(rules.drop_last(), marks);
        let i = rules.len() - 1;
        if i < marks.len() && marks[i] {
            prev
        } else {
            prev.push(rules.last())
        }
    }
}

fn copy_legacy(r: &LegacyRule) -> (c: LegacyRule)
    ensures
        c@ == r@,
{
    LegacyRule {
        title: r.title.clone(),
        content: r.content.clone(),
        status: r.status.clone(),
        tags: copy_strings(&r.tags),
        created_at: r.created_at.clone(),
        updated_at: r.updated_at.clone(),
        picked_count: r.picked_count,
        last_picked_at: r.last_picked_at.clone(),
        legacy_id: r.legacy_id.clone(),
        source_file: r.source_file.clone(),
        session_id: match &r.session_id {
            Some(s) => Some(s.clone()),
            None => None,
        },
    }
}

/// The legacy rules not marked as lying under the rules directory.
pub fn keep_outside(rules: &Vec<LegacyRule>, inside: &Vec<bool>) -> (r: Vec<LegacyRule>)
    ensures
        legacy_views(r@) == keep_unmarked(legacy_views(rules@), inside@),
{
    let ghost lv = legacy_views(rules@);
    let mut out: Vec<LegacyRule> = Vec::new();
    let mut i: usize = 0;
    while i < rules.len()
        invariant
            i <= rules.len(),
            lv == legacy_views(rules@),
            legacy_views(out@) == keep_unmarked(lv.take(i as int), inside@),
        decreases rules.len() - i,
    {
        assert(lv.take(i + 1).drop_last() =~= lv.take(i as int));
        assert(lv.take(i + 1).last() == rules@[i as int]@);
        if !(i < inside.len() && inside[i]) {
            let ghost before = legacy_views(out@);
            out.push(copy_legacy(&rules[i]));
            assert(legacy_views(out@) =~= before.push(rules@[i as int]@));
        }
        i += 1;
    }
    assert(lv.take(rules.len() as int) =~= lv);
    out
}

/// The legacy rules whose source file does not lie under `rules_root`: the
/// rules directory is never read back as a source. Every rule whose source
/// surely lies under it goes; with a plain root, every rule whose plain
/// source does not lie under it stays. For a source or root written in a
/// platform's own path syntax (a Windows drive letter such as `C:`, a
/// backslash, a network prefix, `.` or `..` components, doubled or trailing
/// `/`), whether the rule goes is what `Path::starts_with` answers on that
/// platform, and is not stated here.
pub fn drop_under_root(rules: &Vec<LegacyRule>, rules_root: &str) -> (r: Vec<LegacyRule>)
    ensures
        exists|marks: Seq<bool>| {
            &&& marks.len() == rules@.len()
            &&& legacy_views(r@) == #[trigger] keep_unmarked(legacy_views(rules@), marks)
            &&& forall|i: int| 0 <= i < rules@.len() && surely_under(rules@[i]@.source_file, rules_root@) ==> marks[i]
            &&& forall|i: int| 0 <= i < rules@.len() && plain_path(rules@[i]@.source_file) && plain_path(rules_root@)
                && !surely_under(rules@[i]@.source_file, rules_root@) ==> !marks[i]
        },
{
    let mut inside: Vec<bool> = Vec::new();
    let mut i: usize = 0;
    while i < rules.len()
        invariant
            i <= rules.len(),
            inside.len() == i,
            forall|j: int| 0 <= j < i && surely_under(rules@[j]@.source_file, rules_root@) ==> inside@[j],
            forall|j: int| 0 <= j < i && plain_path(rules@[j]@.source_file) && plain_path(rules_root@)
                && !surely_under(rules@[j]@.source_file, rules_root@) ==> !inside@[j],
        decreases rules.len() - i,
    {
        let b = path_starts_with(rules[i].source_file.as_str(), rules_root);
        inside.push(b);
        i += 1;
    }
    let r = keep_outside(rules, &inside);
    assert(legacy_views(r@) == keep_unmarked(legacy_views(rules@), inside@));
    r
}

// ---------------------------------------------------------------------------
// scan
// ---------------------------------------------------------------------------

/// What `scan` reports besides the project report.
pub struct ScanPayload {
    pub project: ProjectPayload,
    pub scanned_count: usize,
    pub imported_count: usize,
    pub reused_count: usize,
    pub restored_selection_count: usize,
    pub restored_sessions: Vec<String>,
    pub reused_rules: Vec<DbRule>,
}

/// One legacy rule imported: the tables after the import and after the
/// session's selection was restored, the rule, whether it was new, whether
/// a selection was restored, and the clock readings used.
pub struct ScanStep {
    pub after_insert: StoreView,
    pub after_pick: StoreView,
    pub rule: DbRuleView,
    pub inserted: bool,
    pub restored: bool,
    pub insert_secs: Option<u64>,
    pub pick_secs: Option<u64>,
}

/// The tables before step `i`.
pub open spec fn before_step(v0: StoreView, steps: Seq<ScanStep>, i: int) -> StoreView {
    if i <= 0 { v0 } else { steps[i - 1].after_pick }
}

/// Whether a legacy rule asks for its session's selection back: it has a
/// session and is not deprecated, and the rule it became is active.
pub open spec fn restores(l: LegacyView, rule: DbRuleView) -> bool {
    l.session_id is Some && l.status == active_text() && rule.status == active_text()
}

/// The selection a legacy session rule gets back: when it asks for one, an
/// active rule that the session had not selected is picked for it;
/// otherwise nothing changes. A deprecated legacy rule never gives a
/// selection back, even where it was reused onto an active rule.
pub open spec fn pick_part(a: StoreView, l: LegacyView, rule: DbRuleView, ts: Seq<char>, after: StoreView, restored: bool) -> bool {
    match l.session_id {
        Some(s) => if restores(l, rule) && !selected_ids(a.sels, s).contains(rule.id) {
            pick_result(a, s, rule.id, ts) == Ok::<StoreView, Seq<char>>(after) && restored
        } else {
            after == a && !restored
        },
        None => after == a && !restored,
    }
}

pub open spec fn step_ok(prev: StoreView, l: LegacyView, st: ScanStep) -> bool {
    &&& legacy_step(prev, st.after_insert, l, seconds_text(st.insert_secs), Ok((st.rule, st.inserted)))
    &&& pick_part(st.after_insert, l, st.rule, seconds_text(st.pick_secs), st.after_pick, st.restored)
}

/// A step that stopped the scan with `e`: the import refused, or the
/// restored selection refused (the import staying done).
pub open spec fn step_failed(prev: StoreView, l: LegacyView, st: ScanStep, e: Seq<char>) -> bool {
    ||| legacy_step(prev, st.after_insert, l, seconds_text(st.insert_secs), Err(e))
    ||| {
        &&& legacy_step(prev, st.after_insert, l, seconds_text(st.insert_secs), Ok((st.rule, st.inserted)))
        &&& l.session_id matches Some(s)
        &&& restores(l, st.rule)
        &&& !selected_ids(st.after_insert.sels, s).contains(st.rule.id)
        &&& pick_result(st.after_insert, s, st.rule.id, seconds_text(st.pick_secs)) == Err::<StoreView, Seq<char>>(e)
    }
}

pub open spec fn trace_ok(v0: StoreView, ls: Seq<LegacyView>, steps: Seq<ScanStep>) -> bool {
    &&& steps.len() <= ls.len()
    &&& forall|i: int| 0 <= i < steps.len() ==> #[trigger] step_ok(before_step(v0, steps, i), ls[i], steps[i])
}

pub open spec fn imported_of(steps: Seq<ScanStep>) -> Seq<DbRuleView>
    decreases steps.len(),
{
    if steps.len() == 0 {
        Seq::empty()
    } else if steps.last().inserted {
        imported_of(steps.drop_last()).push(steps.last().rule)
    } else {
        imported_of(steps.drop_last())
    }
}

pub open spec fn reused_of(steps: Seq<ScanStep>) -> Seq<DbRuleView>
    decreases steps.len(),
{
    if steps.len() == 0 {
        Seq::empty()
    } else if !steps.last().inserted {
        reused_of(steps.drop_last()).push(steps.last().rule)
    } else {
        reused_of(steps.drop_last())
    }
}

pub open spec fn restored_count(steps: Seq<ScanStep>) -> nat
    decreases steps.len(),
{
    if steps.len() == 0 {
        0
    } else {
        restored_count(steps.drop_last()) + if steps.last().restored { 1nat } else { 0nat }
    }
}

/// The sessions of the steps that restored a selection, in order.
pub open spec fn restored_ids(steps: Seq<ScanStep>, ls: Seq<LegacyView>) -> Seq<Seq<char>>
    decreases steps.len(),
{
    if steps.len() == 0 {
        Seq::empty()
    } else {
        let prev = restored_ids(steps.drop_last(), ls);
        if steps.last().restored {
            match ls[steps.len() - 1].session_id {
                Some(s) => prev.push(s),
                None => prev,
            }
        } else {
            prev
        }
    }
}

/// Whether a scan of `ls` from `v0` that left `v1` and answered `r` went
/// through `steps`.
pub open spec fn scan_result(v0: StoreView, v1: StoreView, ls: Seq<LegacyView>, steps: Seq<ScanStep>, r: Result<ScanPayload, String>) -> bool {
    match r {
        Ok(p) => {
            &&& steps.len() == ls.len()
            &&& trace_ok(v0, ls, steps)
            &&& v1 == before_step(v0, steps, steps.len() as int)
            &&& p.project@ == project_payload_spec("scan"@, all_view(v1, None), None, imported_of(steps), Seq::empty(),
                "legacy YAML rules scanned into SQLite"@, None)
            &&& p.scanned_count == ls.len()
            &&& p.imported_count == imported_of(steps).len()
            &&& p.reused_count == reused_of(steps).len()
            &&& p.restored_selection_count == restored_count(steps)
            &&& texts_of(p.restored_sessions@) == dedup_seq(restored_ids(steps, ls))
            &&& db_views(p.reused_rules@) == reused_of(steps)
        },
        Err(e) => {
            &&& 0 < steps.len() <= ls.len()
            &&& trace_ok(v0, ls, steps.drop_last())
            &&& step_failed(before_step(v0, steps, steps.len() - 1), ls[steps.len() - 1], steps.last(), e@)
            &&& v1 == steps.last().after_insert
        },
    }
}

proof fn lemma_trace_push(v0: StoreView, ls: Seq<LegacyView>, steps: Seq<ScanStep>, st: ScanStep)
    requires
        trace_ok(v0, ls, steps),
        steps.len() < ls.len(),
        step_ok(before_step(v0, steps, steps.len() as int), ls[steps.len() as int], st),
    ensures
        trace_ok(v0, ls, steps.push(st)),
        before_step(v0, steps.push(st), steps.len() + 1int) == st.after_pick,
        steps.push(st).drop_last() == steps,
{
    let s2 = steps.push(st);
    assert(s2.drop_last() =~= steps);
    assert forall|i: int| 0 <= i < s2.len() implies #[trigger] step_ok(before_step(v0, s2, i), ls[i], s2[i]) by {
        if i < steps.len() {
            assert(before_step(v0, s2, i) == before_step(v0, steps, i));
            assert(step_ok(before_step(v0, steps, i), ls[i], steps[i]));
        }
    }
}

/// `scan`: imports legacy rules in order (reusing a rule with the same title
/// and content), and gives back to each legacy session its selection of
/// the active rules it had (a deprecated legacy rule gives none back);
/// reports what was imported, reused and restored.
pub fn cli_scan(store: &mut RuleStore, legacy: &Vec<LegacyRule>) -> (r: Result<ScanPayload, String>)
    requires
        old(store).wf(),
    ensures
        final(store).wf(),
        exists|steps: Seq<ScanStep>| #[trigger] scan_result(old(store)@, final(store)@, legacy_views(legacy@), steps, r),
{
    let ghost v0 = store@;
    let ghost lv = legacy_views(legacy@);
    let ghost mut steps: Seq<ScanStep> = Seq::empty();
    let mut imported: Vec<DbRule> = Vec::new();
    let mut reused: Vec<DbRule> = Vec::new();
    let mut sessions: Vec<String> = Vec::new();
    let mut restored: usize = 0;
    let mut i: usize = 0;
    while i < legacy.len()
        invariant
            i <= legacy.len(),
            store.wf(),
            v0 == old(store)@,
            lv == legacy_views(legacy@),
            steps.len() == i,
            trace_ok(v0, lv, steps),
            store@ == before_step(v0, steps, i as int),
            db_views(imported@) == imported_of(steps),
            db_views(reused@) == reused_of(steps),
            restored == restored_count(steps),
            restored <= i,
            texts_of(sessions@) == dedup_seq(restored_ids(steps, lv)),
        decreases legacy.len() - i,
    {
        let l = &legacy[i];
        assert(lv[i as int] == l@);
        let ghost sess_before = texts_of(sessions@);
        let ghost prev = store@;
        let res = store.insert_legacy_rule(l);
        let ghost s1 = choose|secs: Option<u64>| crate::legacy::legacy_outcome(prev, store@, l@, seconds_text(secs), res);
        let (rule, inserted) = match res {
            Ok(x) => x,
            Err(e) => {
                let ghost st = ScanStep { after_insert: store@, after_pick: store@, rule: arbitrary(), inserted: false, restored: false, insert_secs: s1, pick_secs: None };
                proof {
                    assert(steps.push(st).drop_last() =~= steps);
                    assert(scan_result(v0, store@, lv, steps.push(st), Err(e)));
                }
                return Err(e);
            },
        };
        let ghost after_insert = store@;
        let mut did_restore = false;
        let ghost mut s2: Option<u64> = None;
        if let Some(s) = &l.session_id {
            if is_active(l.status.as_str()) && is_active(rule.status.as_str()) {
                let ghost ids = selected_ids(store@.sels, s@);
                let picked = store.select_existing_rule_for_session(s.as_str(), rule.id.as_str());
                proof {
                    if !ids.contains(rule.id@) {
                        s2 = choose|secs: Option<u64>| crate::picks::pick_outcome(after_insert, store@, picked, s@, rule.id@, seconds_text(secs));
                    }
                }
                match picked {
                    Ok(b) => {
                        if b {
                            did_restore = true;
                            restored += 1;
                            if !contains_text(&sessions, s.as_str()) {
                                sessions.push(s.clone());
                                assert(texts_of(sessions@) =~= sess_before.push(s@));
                            }
                        }
                    },
                    Err(e) => {
                        let ghost st = ScanStep { after_insert, after_pick: store@, rule: rule@, inserted, restored: false, insert_secs: s1, pick_secs: s2 };
                        proof {
                            assert(steps.push(st).drop_last() =~= steps);
                            assert(step_failed(before_step(v0, steps.push(st), steps.len() as int), lv[steps.len() as int], st, e@));
                            assert(scan_result(v0, store@, lv, steps.push(st), Err(e)));
                        }
                        return Err(e);
                    },
                }
            }
        }
        let ghost st = ScanStep { after_insert, after_pick: store@, rule: rule@, inserted, restored: did_restore, insert_secs: s1, pick_secs: s2 };
        proof {
            assert(step_ok(before_step(v0, steps, i as int), lv[i as int], st));
            lemma_trace_push(v0, lv, steps, st);
            let s3 = steps.push(st);
            assert(s3.drop_last() =~= steps);
            assert(s3.last() == st);
        }
        let ghost old_steps = steps;
        proof {
            steps = steps.push(st);
        }
        if inserted {
            let ghost before = db_views(imported@);
            imported.push(copy_db_rule(&rule));
            assert(db_views(imported@) =~= before.push(rule@));
        } else {
            let ghost before = db_views(reused@);
            reused.push(copy_db_rule(&rule));
            assert(db_views(reused@) =~= before.push(rule@));
        }
        proof {
            assert(steps.drop_last() =~= old_steps);
            let ids = restored_ids(old_steps, lv);
            if did_restore {
                let sid = lv[i as int].session_id->0;
                assert(restored_ids(steps, lv) == ids.push(sid));
                assert(dedup_seq(ids.push(sid)) == if dedup_seq(ids).contains(sid) { dedup_seq(ids) } else { dedup_seq(ids).push(sid) }) by {
                    assert(ids.push(sid).drop_last() =~= ids);
                }
                crate::tags::lemma_dedup_same_items(ids);
            }
        }
        i += 1;
    }
    let rules = crate::commands::all_rules(store, None);
    let scanned_count = legacy.len();
    let imported_count = imported.len();
    let reused_count = reused.len();
    proof {
        crate::commands::lemma_empty_literal();
    }
    let project = project_payload("scan", &rules, None, imported, "", "legacy YAML rules scanned into SQLite", None);
    let p = ScanPayload {
        project,
        scanned_count,
        imported_count,
        reused_count,
        restored_selection_count: restored,
        restored_sessions: sessions,
        reused_rules: reused,
    };
    let r: Result<ScanPayload, String> = Ok(p);
    assert(scan_result(v0, store@, lv, steps, r));
    r
}

} // verus!
