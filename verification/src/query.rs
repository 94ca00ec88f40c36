use vstd::prelude::*;
use crate::db::{contains_text, copy_strings, RuleStore};
use crate::json::{parse_tags_json, tags_of_json};
use crate::split::{contains_sub, has_substring, join_chars, join_seq};
use crate::status::{active_text, is_active};
use crate::store::{has_rule, lemma_rule_index, rule_index, RuleRow, SelRow, StoredRule};
use crate::text::{
    append_chars, chars_of, lower_text, string_of, texts_of, to_lowercase, trim, trim_chars,
    trim_seq, views_of,
};

verus! {

/// A rule as the commands report it: the row with its tags read from JSON,
/// and, when a session was asked about, whether the session selected it.
pub struct DbRule {
    pub id: String,
    pub title: String,
    pub content: String,
    pub status: String,
    pub tags: Vec<String>,
    pub created_at: String,
    pub updated_at: String,
    pub picked_count: i64,
    pub last_picked_at: String,
    pub selected: Option<bool>,
}

pub struct DbRuleView {
    pub id: Seq<char>,
    pub title: Seq<char>,
    pub content: Seq<char>,
    pub status: Seq<char>,
    pub tags: Seq<Seq<char>>,
    pub created_at: Seq<char>,
    pub updated_at: Seq<char>,
    pub picked_count: int,
    pub last_picked_at: Seq<char>,
    pub selected: Option<bool>,
}

impl View for DbRule {
    type V = DbRuleView;

    open spec fn view(&self) -> DbRuleView {
        DbRuleView {
            id: self.id@,
            title: self.title@,
            content: self.content@,
            status: self.status@,
            tags: texts_of(self.tags@),
            created_at: self.created_at@,
            updated_at: self.updated_at@,
            picked_count: self.picked_count as int,
            last_picked_at: self.last_picked_at@,
            selected: self.selected,
        }
    }
}

pub open spec fn db_views(v: Seq<DbRule>) -> Seq<DbRuleView> {
    v.map_values(|r: DbRule| r@)
}

/// A stored row as the commands report it.
pub open spec fn db_view(row: RuleRow, selected: Option<bool>) -> DbRuleView {
    DbRuleView {
        id: row.id,
        title: row.title,
        content: row.content,
        status: row.status,
        tags: tags_of_json(row.tags_json),
        created_at: row.created_at,
        updated_at: row.updated_at,
        picked_count: row.picked_count,
        last_picked_at: row.last_picked_at,
        selected: selected,
    }
}

pub fn copy_db_rule(r: &DbRule) -> (c: DbRule)
    ensures
        c@ == r@,
{
    DbRule {
        id: r.id.clone(),
        title: r.title.clone(),
        content: r.content.clone(),
        status: r.status.clone(),
        tags: copy_strings(&r.tags),
        created_at: r.created_at.clone(),
        updated_at: r.updated_at.clone(),
        picked_count: r.picked_count,
        last_picked_at: r.last_picked_at.clone(),
        selected: r.selected,
    }
}

/// A stored row with its tags read from JSON.
pub fn row_to_rule(row: &StoredRule, selected: Option<bool>) -> (r: DbRule)
    ensures
        r@ == db_view(row@, selected),
{
    DbRule {
        id: row.id.clone(),
        title: row.title.clone(),
        content: row.content.clone(),
        status: row.status.clone(),
        tags: parse_tags_json(row.tags_json.as_str()),
        created_at: row.created_at.clone(),
        updated_at: row.updated_at.clone(),
        picked_count: row.picked_count,
        last_picked_at: row.last_picked_at.clone(),
        selected: selected,
    }
}

// ---------------------------------------------------------------------------
// Search text
// ---------------------------------------------------------------------------

/// The text a rule is searched in: id, status, title, content and tags,
/// space-separated, lower-cased.
pub open spec fn search_seq(
    id: Seq<char>,
    title: Seq<char>,
    content: Seq<char>,
    status: Seq<char>,
    tags: Seq<Seq<char>>,
) -> Seq<char> {
    lower_text(
        id + seq![' '] + status + seq![' '] + title + seq![' '] + content + seq![' '] + join_seq(
            tags,
            seq![' '],
        ),
    )
}

pub fn chars_all(items: &Vec<String>) -> (r: Vec<Vec<char>>)
    ensures
        views_of(r@) == texts_of(items@),
{
    let mut r: Vec<Vec<char>> = Vec::new();
    let mut i: usize = 0;
    while i < items.len()
        invariant
            i <= items.len(),
            views_of(r@) =~= texts_of(items@).take(i as int),
        decreases items.len() - i,
    {
        let c = chars_of(items[i].as_str());
        let ghost before = r@;
        r.push(c);
        assert(views_of(r@) =~= views_of(before).push(items@[i as int]@));
        i += 1;
    }
    assert(texts_of(items@).take(items.len() as int) =~= texts_of(items@));
    r
}

/// The lower-cased text a rule is searched in.
pub fn search_text(id: &str, title: &str, content: &str, status: &str, tags: &Vec<String>) -> (r:
    String)
    ensures
        r@ == search_seq(id@, title@, content@, status@, texts_of(tags@)),
{
    let mut v = chars_of(id);
    v.push(' ');
    append_chars(&mut v, &chars_of(status));
    v.push(' ');
    append_chars(&mut v, &chars_of(title));
    v.push(' ');
    append_chars(&mut v, &chars_of(content));
    v.push(' ');
    let parts = chars_all(tags);
    let sep: Vec<char> = vec![' '];
    assert(sep@ =~= seq![' ']);
    let joined = join_chars(&parts, &sep);
    append_chars(&mut v, &joined);
    let s = string_of(&v);
    assert(s@ =~= id@ + seq![' '] + status@ + seq![' '] + title@ + seq![' '] + content@ + seq![' ']
        + join_seq(texts_of(tags@), seq![' ']));
    to_lowercase(s.as_str())
}

// ---------------------------------------------------------------------------
// What the queries give
// ---------------------------------------------------------------------------

/// The rules `session` selected, in listing order of the selections.
pub open spec fn ids_of_session(sels: Seq<SelRow>, session: Seq<char>) -> Seq<Seq<char>>
    decreases sels.len(),
{
    if sels.len() == 0 {
        Seq::empty()
    } else {
        let prev = ids_of_session(sels.drop_last(), session);
        if sels.last().session_id == session {
            prev.push(sels.last().rule_id)
        } else {
            prev
        }
    }
}

/// The ids a session has selected; a blank session has selected nothing.
pub open spec fn selected_ids(sels: Seq<SelRow>, session: Seq<char>) -> Seq<Seq<char>> {
    if trim_seq(session).len() == 0 {
        Seq::empty()
    } else {
        ids_of_session(sels, session)
    }
}

/// Whether a rule is listed, given the trimmed tag and the trimmed query
/// (a blank query lets every rule pass; any other is looked for, lowered,
/// in the rule's search text).
pub open spec fn listed(
    row: RuleRow,
    include_all: bool,
    tag: Seq<char>,
    query: Seq<char>,
    ids: Seq<Seq<char>>,
) -> bool {
    &&& include_all || row.status == active_text()
    &&& ids.len() == 0 || ids.contains(row.id)
    &&& tag.len() == 0 || tags_of_json(row.tags_json).contains(tag)
    &&& query.len() == 0 || has_substring(
        search_seq(row.id, row.title, row.content, row.status, tags_of_json(row.tags_json)),
        lower_text(query),
    )
}

pub open spec fn selection_mark(sels: Seq<SelRow>, session: Option<Seq<char>>, id: Seq<char>) -> Option<bool> {
    match session {
        Some(s) => Some(selected_ids(sels, s).contains(id)),
        None => None,
    }
}

/// The rules listed, in listing order.
pub open spec fn list_view(
    rows: Seq<RuleRow>,
    sels: Seq<SelRow>,
    include_all: bool,
    tag: Seq<char>,
    query: Seq<char>,
    ids: Seq<Seq<char>>,
    session: Option<Seq<char>>,
) -> Seq<DbRuleView>
    decreases rows.len(),
{
    if rows.len() == 0 {
        Seq::empty()
    } else {
        let prev = list_view(rows.drop_last(), sels, include_all, tag, query, ids, session);
        let row = rows.last();
        if listed(row, include_all, tag, query, ids) {
            prev.push(db_view(row, selection_mark(sels, session, row.id)))
        } else {
            prev
        }
    }
}

/// The rules a session selected, in listing order of the selections,
/// deprecated ones only when asked for.
pub open spec fn selected_view(
    rows: Seq<RuleRow>,
    sels: Seq<SelRow>,
    session: Seq<char>,
    include_deprecated: bool,
) -> Seq<DbRuleView>
    decreases sels.len(),
{
    if sels.len() == 0 {
        Seq::empty()
    } else {
        let prev = selected_view(rows, sels.drop_last(), session, include_deprecated);
        let s = sels.last();
        if s.session_id == session {
            match rule_index(rows, s.rule_id) {
                Some(k) => if include_deprecated || rows[k].status == active_text() {
                    prev.push(db_view(rows[k], Some(true)))
                } else {
                    prev
                },
                None => prev,
            }
        } else {
            prev
        }
    }
}

/// The id of the first rule, in listing order, with this title and content.
pub open spec fn first_duplicate(rows: Seq<RuleRow>, title: Seq<char>, content: Seq<char>) -> Option<Seq<char>>
    decreases rows.len(),
{
    if rows.len() == 0 {
        None
    } else if rows[0].title == title && rows[0].content == content {
        Some(rows[0].id)
    } else {
        first_duplicate(rows.drop_first(), title, content)
    }
}

/// What `get_rule` answers.
pub open spec fn get_view(rows: Seq<RuleRow>, id: Seq<char>) -> Option<DbRuleView> {
    match rule_index(rows, trim_seq(id)) {
        Some(k) => Some(db_view(rows[k], None)),
        None => None,
    }
}

pub open spec fn not_found_message(id: Seq<char>) -> Seq<char> {
    "rule not found: "@ + trim_seq(id)
}

impl RuleStore {
    /// The ids of the rules a session selected.
    pub fn get_selected_ids(&self, session_id: &str) -> (r: Vec<String>)
        requires
            self.wf(),
        ensures
            texts_of(r@) == selected_ids(self@.sels, session_id@),
    {
        let t = trim_chars(&chars_of(session_id));
        let mut r: Vec<String> = Vec::new();
        if t.len() == 0 {
            assert(texts_of(r@) =~= Seq::<Seq<char>>::empty());
            return r;
        }
        let sels = self.selections();
        let ghost rows = crate::db::sel_rows(sels@);
        let mut i: usize = 0;
        while i < sels.len()
            invariant
                i <= sels.len(),
                rows == crate::db::sel_rows(sels@),
                texts_of(r@) == ids_of_session(rows.take(i as int), session_id@),
            decreases sels.len() - i,
        {
            assert(rows.take(i + 1).drop_last() =~= rows.take(i as int));
            assert(rows.take(i + 1).last() == sels@[i as int]@);
            if crate::text::str_eq(sels[i].session_id.as_str(), session_id) {
                r.push(sels[i].rule_id.clone());
                assert(texts_of(r@) =~= ids_of_session(rows.take(i as int), session_id@).push(rows[i as int].rule_id));
            }
            i += 1;
        }
        assert(rows.take(rows.len() as int) =~= rows);
        r
    }

    /// The rule with the given (trimmed) id.
    pub fn get_rule(&self, id: &str) -> (r: Result<DbRule, String>)
        requires
            self.wf(),
        ensures
            match get_view(self@.rules, id@) {
                Some(v) => r matches Ok(x) && x@ == v,
                None => r matches Err(e) && e@ == not_found_message(id@),
            },
    {
        let key = trim(id);
        proof {
            lemma_rule_index(self@.rules, key@);
        }
        match self.find_rule(key.as_str()) {
            Some(k) => {
                let rows = self.rules();
                assert(crate::db::rule_rows(rows@)[k as int] == rows@[k as int]@);
                let r = row_to_rule(&rows[k], None);
                Ok(r)
            },
            None => {
                let mut msg = "rule not found: ".to_string();
                msg.append(key.as_str());
                Err(msg)
            },
        }
    }

    /// The rules of the project, in listing order, that pass the filters:
    /// active ones unless `include_all`; those among `ids` when it is not
    /// empty; those with the (trimmed) tag when it is not blank; those whose
    /// search text holds the (trimmed, lower-cased) query when it is not
    /// blank. With a session, each says whether the session selected it.
    pub fn list_rules(
        &self,
        include_all: bool,
        tag: &str,
        query: &str,
        ids: &Vec<String>,
        session_id: Option<&str>,
    ) -> (r: Vec<DbRule>)
        requires
            self.wf(),
        ensures
            db_views(r@) == list_view(
                self@.rules,
                self@.sels,
                include_all,
                trim_seq(tag@),
                trim_seq(query@),
                texts_of(ids@),
                match session_id {
                    Some(s) => Some(s@),
                    None => None,
                },
            ),
    {
        let ghost session = match session_id {
            Some(s) => Some(s@),
            None => None,
        };
        let selected: Vec<String> = match session_id {
            Some(s) => self.get_selected_ids(s),
            None => Vec::new(),
        };
        let tq = chars_of(trim(query).as_str());
        let q = to_lowercase(trim(query).as_str());
        let qc = chars_of(q.as_str());
        let tag_t = trim(tag);
        let tag_c = chars_of(tag_t.as_str());
        let rows = self.rules();
        let ghost rr = crate::db::rule_rows(rows@);
        let ghost sels = self@.sels;
        let mut out: Vec<DbRule> = Vec::new();
        let mut i: usize = 0;
        while i < rows.len()
            invariant
                i <= rows.len(),
                rr == crate::db::rule_rows(rows@),
                rr == self@.rules,
                sels == self@.sels,
                session == (match session_id {
                    Some(s) => Some(s@),
                    None => None,
                }),
                qc@ == lower_text(trim_seq(query@)),
                tq@ == trim_seq(query@),
                tag_t@ == trim_seq(tag@),
                tag_c@ == tag_t@,
                session_id is Some ==> texts_of(selected@) == selected_ids(sels, session_id->0@),
                db_views(out@) == list_view(rr.take(i as int), sels, include_all, trim_seq(tag@), trim_seq(query@), texts_of(ids@), session),
            decreases rows.len() - i,
        {
            assert(rr.take(i + 1).drop_last() =~= rr.take(i as int));
            assert(rr.take(i + 1).last() == rows@[i as int]@);
            let row = &rows[i];
            assert(rr[i as int] == rows@[i as int]@);
            let mark = match session_id {
                Some(_) => Some(contains_text(&selected, row.id.as_str())),
                None => None,
            };
            assert(mark == selection_mark(sels, session, rr[i as int].id));
            let rule = row_to_rule(row, mark);
            let ok_status = include_all || is_active(rule.status.as_str());
            let ok_ids = ids.len() == 0 || contains_text(ids, rule.id.as_str());
            let ok_tag = tag_c.len() == 0 || contains_text(&rule.tags, tag_t.as_str());
            let ok_query = if tq.len() == 0 {
                true
            } else {
                let hay = search_text(rule.id.as_str(), rule.title.as_str(), rule.content.as_str(), rule.status.as_str(), &rule.tags);
                contains_sub(&chars_of(hay.as_str()), &qc)
            };
            if ok_status && ok_ids && ok_tag && ok_query {
                let ghost before = out@;
                out.push(rule);
                assert(db_views(out@) =~= db_views(before).push(db_view(rr[i as int], selection_mark(sels, session, rr[i as int].id))));
            }
            i += 1;
        }
        assert(rr.take(rr.len() as int) =~= rr);
        out
    }

    /// The rules a session selected, in listing order of the selections;
    /// deprecated ones only with `include_deprecated`.
    pub fn list_selected_rules(&self, session_id: &str, include_deprecated: bool) -> (r: Vec<DbRule>)
        requires
            self.wf(),
        ensures
            db_views(r@) == selected_view(self@.rules, self@.sels, session_id@, include_deprecated),
    {
        let sels = self.selections();
        let rows = self.rules();
        let ghost ss = crate::db::sel_rows(sels@);
        let ghost rr = crate::db::rule_rows(rows@);
        let mut out: Vec<DbRule> = Vec::new();
        let mut i: usize = 0;
        while i < sels.len()
            invariant
                i <= sels.len(),
                ss == crate::db::sel_rows(sels@),
                rr == crate::db::rule_rows(rows@),
                ss == self@.sels,
                rr == self@.rules,
                db_views(out@) == selected_view(rr, ss.take(i as int), session_id@, include_deprecated),
            decreases sels.len() - i,
        {
            assert(ss.take(i + 1).drop_last() =~= ss.take(i as int));
            assert(ss.take(i + 1).last() == sels@[i as int]@);
            assert(ss[i as int] == sels@[i as int]@);
            if crate::text::str_eq(sels[i].session_id.as_str(), session_id) {
                proof {
                    lemma_rule_index(rr, ss[i as int].rule_id);
                }
                match self.find_rule(sels[i].rule_id.as_str()) {
                    Some(k) => {
                        assert(rr[k as int] == rows@[k as int]@);
                        if include_deprecated || is_active(rows[k].status.as_str()) {
                            let ghost before = out@;
                            out.push(row_to_rule(&rows[k], Some(true)));
                            assert(db_views(out@) =~= db_views(before).push(db_view(rr[k as int], Some(true))));
                        }
                    },
                    None => {},
                }
            }
            i += 1;
        }
        assert(ss.take(ss.len() as int) =~= ss);
        out
    }

    /// The id of the first rule, in listing order, whose title and content
    /// are the trimmed ones given.
    pub fn find_duplicate_rule(&self, title: &str, content: &str) -> (r: Option<String>)
        requires
            self.wf(),
        ensures
            match first_duplicate(self@.rules, trim_seq(title@), trim_seq(content@)) {
                Some(id) => r matches Some(x) && x@ == id,
                None => r is None,
            },
    {
        let t = trim(title);
        let c = trim(content);
        let rows = self.rules();
        let ghost rr = crate::db::rule_rows(rows@);
        let mut i: usize = 0;
        assert(rr.skip(0) =~= rr);
        while i < rows.len()
            invariant
                i <= rows.len(),
                rr == crate::db::rule_rows(rows@),
                rr == self@.rules,
                t@ == trim_seq(title@),
                c@ == trim_seq(content@),
                first_duplicate(rr, t@, c@) == first_duplicate(rr.skip(i as int), t@, c@),
            decreases rows.len() - i,
        {
            assert(rr.skip(i as int)[0] == rows@[i as int]@);
            assert(rr[i as int] == rows@[i as int]@);
            if rows[i].title == t && rows[i].content == c {
                return Some(rows[i].id.clone());
            }
            assert(rr.skip(i as int).drop_first() =~= rr.skip(i + 1));
            i += 1;
        }
        None
    }
}

} // verus!
