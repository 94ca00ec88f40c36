use vstd::prelude::*;
use crate::query::{copy_db_rule, db_views, DbRule, DbRuleView};
use crate::split::{decimal_chars, decimal_seq, join_chars, join_seq};
use crate::status::{active_text, is_active};
use crate::text::{append_chars, chars_of, string_of, texts_of, views_of};

verus! {

// ---------------------------------------------------------------------------
// Summaries
// ---------------------------------------------------------------------------

pub open spec fn titles_of(rules: Seq<DbRuleView>) -> Seq<Seq<char>> {
    rules.map_values(|r: DbRuleView| r.title)
}

pub open spec fn contents_of(rules: Seq<DbRuleView>) -> Seq<Seq<char>> {
    rules.map_values(|r: DbRuleView| r.content)
}

/// The active ones among rules, in order.
pub open spec fn active_rules(rules: Seq<DbRuleView>) -> Seq<DbRuleView>
    decreases rules.len(),
{
    if rules.len() == 0 {
        Seq::empty()
    } else {
        let prev = active_rules(rules.drop_last());
        if rules.last().status == active_text() {
            prev.push(rules.last())
        } else {
            prev
        }
    }
}

/// `当前会话选用规则 N 条`, and when there are any, `：` and the titles
/// joined by `、`.
pub open spec fn session_summary_seq(rules: Seq<DbRuleView>) -> Seq<char> {
    if rules.len() == 0 {
        "当前会话选用规则 0 条"@
    } else {
        "当前会话选用规则 "@ + decimal_seq(rules.len()) + " 条："@ + join_seq(titles_of(rules), "、"@)
    }
}

/// `项目规则库 active 规则 N 条` over the active rules, and when there are
/// any, `：` and their titles joined by `、`.
pub open spec fn project_summary_seq(rules: Seq<DbRuleView>) -> Seq<char> {
    let active = active_rules(rules);
    if active.len() == 0 {
        "项目规则库 active 规则 0 条"@
    } else {
        "项目规则库 active 规则 "@ + decimal_seq(active.len()) + " 条："@ + join_seq(titles_of(active), "、"@)
    }
}

/// A rule as the project listing shows it: `id [status] tags title: content`.
pub open spec fn project_line(r: DbRuleView) -> Seq<char> {
    r.id + " ["@ + r.status + "] "@ + join_seq(r.tags, ","@) + " "@ + r.title + ": "@ + r.content
}

pub open spec fn project_lines(rules: Seq<DbRuleView>) -> Seq<Seq<char>> {
    rules.map_values(|r: DbRuleView| project_line(r))
}

fn titles_vec(rules: &Vec<DbRule>) -> (r: Vec<Vec<char>>)
    ensures
        views_of(r@) == titles_of(db_views(rules@)),
{
    let mut out: Vec<Vec<char>> = Vec::new();
    let mut i: usize = 0;
    while i < rules.len()
        invariant
            i <= rules.len(),
            views_of(out@) =~= titles_of(db_views(rules@)).take(i as int),
        decreases rules.len() - i,
    {
        let ghost before = views_of(out@);
        out.push(chars_of(rules[i].title.as_str()));
        assert(views_of(out@) =~= before.push(rules@[i as int].title@));
        i += 1;
    }
    assert(titles_of(db_views(rules@)).take(rules.len() as int) =~= titles_of(db_views(rules@)));
    out
}

/// The contents of the rules, in order.
pub fn display_rules(rules: &Vec<DbRule>) -> (r: Vec<String>)
    ensures
        texts_of(r@) == contents_of(db_views(rules@)),
{
    let mut out: Vec<String> = Vec::new();
    let mut i: usize = 0;
    while i < rules.len()
        invariant
            i <= rules.len(),
            texts_of(out@) =~= contents_of(db_views(rules@)).take(i as int),
        decreases rules.len() - i,
    {
        let ghost before = texts_of(out@);
        out.push(rules[i].content.clone());
        assert(texts_of(out@) =~= before.push(rules@[i as int].content@));
        i += 1;
    }
    assert(contents_of(db_views(rules@)).take(rules.len() as int) =~= contents_of(db_views(rules@)));
    out
}

/// The titles of the rules, in order.
pub fn rule_titles(rules: &Vec<DbRule>) -> (r: Vec<String>)
    ensures
        texts_of(r@) == titles_of(db_views(rules@)),
{
    let mut out: Vec<String> = Vec::new();
    let mut i: usize = 0;
    while i < rules.len()
        invariant
            i <= rules.len(),
            texts_of(out@) =~= titles_of(db_views(rules@)).take(i as int),
        decreases rules.len() - i,
    {
        let ghost before = texts_of(out@);
        out.push(rules[i].title.clone());
        assert(texts_of(out@) =~= before.push(rules@[i as int].title@));
        i += 1;
    }
    assert(titles_of(db_views(rules@)).take(rules.len() as int) =~= titles_of(db_views(rules@)));
    out
}

fn summary_of(head: &str, n: usize, titles: &Vec<Vec<char>>) -> (r: String)
    ensures
        r@ == head@ + decimal_seq(n as nat) + " 条："@ + join_seq(views_of(titles@), "、"@),
{
    let mut v = chars_of(head);
    append_chars(&mut v, &decimal_chars(n as u64));
    append_chars(&mut v, &chars_of(" 条："));
    let sep = chars_of("、");
    append_chars(&mut v, &join_chars(titles, &sep));
    string_of(&v)
}

/// How many rules the current session uses, and their titles.
pub fn session_summary(rules: &Vec<DbRule>) -> (r: String)
    ensures
        r@ == session_summary_seq(db_views(rules@)),
{
    if rules.len() == 0 {
        return "当前会话选用规则 0 条".to_string();
    }
    let titles = titles_vec(rules);
    summary_of("当前会话选用规则 ", rules.len(), &titles)
}

fn active_only(rules: &Vec<DbRule>) -> (r: Vec<DbRule>)
    ensures
        db_views(r@) == active_rules(db_views(rules@)),
{
    let ghost rv = db_views(rules@);
    let mut out: Vec<DbRule> = Vec::new();
    let mut i: usize = 0;
    while i < rules.len()
        invariant
            i <= rules.len(),
            rv == db_views(rules@),
            db_views(out@) == active_rules(rv.take(i as int)),
        decreases rules.len() - i,
    {
        assert(rv.take(i + 1).drop_last() =~= rv.take(i as int));
        assert(rv.take(i + 1).last() == rv[i as int]);
        if is_active(rules[i].status.as_str()) {
            let ghost before = db_views(out@);
            out.push(copy_db_rule(&rules[i]));
            assert(db_views(out@) =~= before.push(rv[i as int]));
        }
        i += 1;
    }
    assert(rv.take(rules.len() as int) =~= rv);
    out
}

/// How many active rules the project has, and their titles.
pub fn project_summary(rules: &Vec<DbRule>) -> (r: String)
    ensures
        r@ == project_summary_seq(db_views(rules@)),
{
    let active = active_only(rules);
    if active.len() == 0 {
        return "项目规则库 active 规则 0 条".to_string();
    }
    let titles = titles_vec(&active);
    summary_of("项目规则库 active 规则 ", active.len(), &titles)
}

fn project_line_of(r: &DbRule) -> (s: String)
    ensures
        s@ == project_line(r@),
{
    let mut v = chars_of(r.id.as_str());
    append_chars(&mut v, &chars_of(" ["));
    append_chars(&mut v, &chars_of(r.status.as_str()));
    append_chars(&mut v, &chars_of("] "));
    let parts = crate::query::chars_all(&r.tags);
    append_chars(&mut v, &join_chars(&parts, &chars_of(",")));
    append_chars(&mut v, &chars_of(" "));
    append_chars(&mut v, &chars_of(r.title.as_str()));
    append_chars(&mut v, &chars_of(": "));
    append_chars(&mut v, &chars_of(r.content.as_str()));
    string_of(&v)
}

fn project_lines_of(rules: &Vec<DbRule>) -> (r: Vec<String>)
    ensures
        texts_of(r@) == project_lines(db_views(rules@)),
{
    let mut out: Vec<String> = Vec::new();
    let mut i: usize = 0;
    while i < rules.len()
        invariant
            i <= rules.len(),
            texts_of(out@) =~= project_lines(db_views(rules@)).take(i as int),
        decreases rules.len() - i,
    {
        let ghost before = texts_of(out@);
        out.push(project_line_of(&rules[i]));
        assert(texts_of(out@) =~= before.push(project_line(rules@[i as int]@)));
        i += 1;
    }
    assert(project_lines(db_views(rules@)).take(rules.len() as int) =~= project_lines(db_views(rules@)));
    out
}

fn copy_rules(rules: &Vec<DbRule>) -> (r: Vec<DbRule>)
    ensures
        db_views(r@) == db_views(rules@),
{
    let mut out: Vec<DbRule> = Vec::new();
    let mut i: usize = 0;
    while i < rules.len()
        invariant
            i <= rules.len(),
            db_views(out@) =~= db_views(rules@).take(i as int),
        decreases rules.len() - i,
    {
        let ghost before = db_views(out@);
        out.push(copy_db_rule(&rules[i]));
        assert(db_views(out@) =~= before.push(rules@[i as int]@));
        i += 1;
    }
    assert(db_views(rules@).take(rules.len() as int) =~= db_views(rules@));
    out
}

// ---------------------------------------------------------------------------
// Payloads
// ---------------------------------------------------------------------------

/// What the session commands report.
pub struct SessionPayload {
    pub action: String,
    pub session_id: String,
    pub rules: Vec<DbRule>,
    pub rule_titles: Vec<String>,
    pub summary: String,
    pub message: String,
    pub changed_rule: Option<DbRule>,
    pub changed_rules: Vec<DbRule>,
    pub display_rules: Vec<String>,
}

pub struct SessionPayloadView {
    pub action: Seq<char>,
    pub session_id: Seq<char>,
    pub rules: Seq<DbRuleView>,
    pub rule_titles: Seq<Seq<char>>,
    pub summary: Seq<char>,
    pub message: Seq<char>,
    pub changed_rule: Option<DbRuleView>,
    pub changed_rules: Seq<DbRuleView>,
    pub display_rules: Seq<Seq<char>>,
}

pub open spec fn opt_rule_view(r: Option<DbRule>) -> Option<DbRuleView> {
    match r {
        Some(x) => Some(x@),
        None => None,
    }
}

impl View for SessionPayload {
    type V = SessionPayloadView;

    open spec fn view(&self) -> SessionPayloadView {
        SessionPayloadView {
            action: self.action@,
            session_id: self.session_id@,
            rules: db_views(self.rules@),
            rule_titles: texts_of(self.rule_titles@),
            summary: self.summary@,
            message: self.message@,
            changed_rule: opt_rule_view(self.changed_rule),
            changed_rules: db_views(self.changed_rules@),
            display_rules: texts_of(self.display_rules@),
        }
    }
}

/// The one changed rule, when exactly one changed.
pub open spec fn single(changed: Seq<DbRuleView>) -> Option<DbRuleView> {
    if changed.len() == 1 { Some(changed[0]) } else { None }
}

/// The session report for `rules` (the session's selected rules).
pub open spec fn session_payload_spec(action: Seq<char>, session_id: Seq<char>, rules: Seq<DbRuleView>, changed: Seq<DbRuleView>, message: Seq<char>) -> SessionPayloadView {
    SessionPayloadView {
        action,
        session_id,
        rules,
        rule_titles: titles_of(rules),
        summary: session_summary_seq(rules),
        message,
        changed_rule: single(changed),
        changed_rules: changed,
        display_rules: contents_of(rules),
    }
}

fn single_rule(changed: &Vec<DbRule>) -> (r: Option<DbRule>)
    ensures
        opt_rule_view(r) == single(db_views(changed@)),
{
    if changed.len() == 1 { Some(copy_db_rule(&changed[0])) } else { None }
}

/// Builds the session report.
pub fn session_payload(action: &str, session_id: &str, rules: &Vec<DbRule>, changed_rules: Vec<DbRule>, message: &str) -> (r: SessionPayload)
    ensures
        r@ == session_payload_spec(action@, session_id@, db_views(rules@), db_views(changed_rules@), message@),
{
    SessionPayload {
        action: action.to_string(),
        session_id: session_id.to_string(),
        rules: copy_rules(rules),
        rule_titles: rule_titles(rules),
        summary: session_summary(rules),
        message: message.to_string(),
        changed_rule: single_rule(&changed_rules),
        changed_rules,
        display_rules: display_rules(rules),
    }
}

/// What the project commands report.
pub struct ProjectPayload {
    pub action: String,
    pub session_id: String,
    pub rules: Vec<DbRule>,
    pub active_rule_count: usize,
    pub summary: String,
    pub message: String,
    pub changed_rule: Option<DbRule>,
    pub changed_rules: Vec<DbRule>,
    pub selected_count: usize,
    pub selected_rules: Vec<DbRule>,
    pub display_rules: Vec<String>,
    pub session_payload: Option<SessionPayload>,
}

pub struct ProjectPayloadView {
    pub action: Seq<char>,
    pub session_id: Seq<char>,
    pub rules: Seq<DbRuleView>,
    pub active_rule_count: nat,
    pub summary: Seq<char>,
    pub message: Seq<char>,
    pub changed_rule: Option<DbRuleView>,
    pub changed_rules: Seq<DbRuleView>,
    pub selected_count: nat,
    pub selected_rules: Seq<DbRuleView>,
    pub display_rules: Seq<Seq<char>>,
    pub session_payload: Option<SessionPayloadView>,
}

impl View for ProjectPayload {
    type V = ProjectPayloadView;

    open spec fn view(&self) -> ProjectPayloadView {
        ProjectPayloadView {
            action: self.action@,
            session_id: self.session_id@,
            rules: db_views(self.rules@),
            active_rule_count: self.active_rule_count as nat,
            summary: self.summary@,
            message: self.message@,
            changed_rule: opt_rule_view(self.changed_rule),
            changed_rules: db_views(self.changed_rules@),
            selected_count: self.selected_count as nat,
            selected_rules: db_views(self.selected_rules@),
            display_rules: texts_of(self.display_rules@),
            session_payload: match self.session_payload {
                Some(p) => Some(p@),
                None => None,
            },
        }
    }
}

/// The project report for all rules `rules`, the rules `selected` that the
/// command picked out (shown instead of all when given), the rules the
/// command changed, and the session report when there is one.
pub open spec fn project_payload_spec(
    action: Seq<char>,
    rules: Seq<DbRuleView>,
    selected: Option<Seq<DbRuleView>>,
    changed: Seq<DbRuleView>,
    session_id: Seq<char>,
    message: Seq<char>,
    session: Option<SessionPayloadView>,
) -> ProjectPayloadView {
    ProjectPayloadView {
        action,
        session_id,
        rules,
        active_rule_count: active_rules(rules).len(),
        summary: project_summary_seq(rules),
        message,
        changed_rule: single(changed),
        changed_rules: changed,
        selected_count: match selected {
            Some(s) => s.len(),
            None => 0,
        },
        selected_rules: match selected {
            Some(s) => s,
            None => Seq::empty(),
        },
        display_rules: project_lines(match selected {
            Some(s) => s,
            None => rules,
        }),
        session_payload: session,
    }
}

pub open spec fn opt_views(v: Option<Vec<DbRule>>) -> Option<Seq<DbRuleView>> {
    match v {
        Some(x) => Some(db_views(x@)),
        None => None,
    }
}

pub open spec fn opt_session_view(v: Option<SessionPayload>) -> Option<SessionPayloadView> {
    match v {
        Some(x) => Some(x@),
        None => None,
    }
}

/// Builds the project report.
pub fn project_payload(
    action: &str,
    rules: &Vec<DbRule>,
    selected_rules: Option<Vec<DbRule>>,
    changed_rules: Vec<DbRule>,
    session_id: &str,
    message: &str,
    session_payload: Option<SessionPayload>,
) -> (r: ProjectPayload)
    ensures
        r@ == project_payload_spec(action@, db_views(rules@), opt_views(selected_rules), db_views(changed_rules@), session_id@, message@, opt_session_view(session_payload)),
{
    let active = active_only(rules);
    let display_rules = match &selected_rules {
        Some(s) => project_lines_of(s),
        None => project_lines_of(rules),
    };
    let (selected_count, selected) = match selected_rules {
        Some(s) => (s.len(), s),
        None => {
            let e: Vec<DbRule> = Vec::new();
            assert(db_views(e@) =~= Seq::<DbRuleView>::empty());
            (0, e)
        },
    };
    ProjectPayload {
        action: action.to_string(),
        session_id: session_id.to_string(),
        rules: copy_rules(rules),
        active_rule_count: active.len(),
        summary: project_summary(rules),
        message: message.to_string(),
        changed_rule: single_rule(&changed_rules),
        changed_rules,
        selected_count,
        selected_rules: selected,
        display_rules,
        session_payload,
    }
}

} // verus!
