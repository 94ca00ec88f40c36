use vstd::prelude::*;
use crate::db::{copy_strings, RuleStore};
use crate::numbers::{parse_i64, parsed_i64};
use crate::ops::{candidate_id, ids_exhausted, lemma_candidate_trimmed, make_row, no_candidate_taken};
use crate::query::{db_view, first_duplicate, get_view, not_found_message, DbRule, DbRuleView};
use crate::session::{now_text, seconds_text};
use crate::status::{active_string, active_text, cli_status, is_status, normalize_status};
use crate::store::{has_rule, ins_rule, RuleRow, StoreView};
use crate::tags::{cli_tags, normalize_tags, normalized_tags, split_tags};
use crate::text::{chars_of, str_eq, texts_of, trim, trim_chars, trim_seq};

verus! {

// ---------------------------------------------------------------------------
// YAML documents
// ---------------------------------------------------------------------------

/// A YAML number: the text it prints as, and its value when it is an
/// integer within `i64`.
pub struct YamlNumber {
    pub text: String,
    pub as_i64: Option<i64>,
}

/// A key and a value of a YAML mapping.
pub struct YamlEntry {
    pub key: YamlNode,
    pub value: YamlNode,
}

/// A parsed YAML document, as far as the rules importer reads it.
pub enum YamlNode {
    Null,
    Bool(bool),
    Number(YamlNumber),
    Text(String),
    Sequence(Vec<YamlNode>),
    Mapping(Vec<YamlEntry>),
    Tagged(Box<YamlNode>),
}

/// The document serde_yaml reads from a text, as the importer sees it, or
/// `None` where serde_yaml reports an error.
pub uninterp spec fn yaml_doc_of(text: Seq<char>) -> Option<YamlNode>;

#[verifier::external_type_specification]
#[verifier::external_body]
pub struct ExYamlValue(serde_yaml::Value);

/// A serde_yaml value as the importer reads it: each variant to the same
/// variant, a number to its printed text and its `i64` value, sequences,
/// mappings and tagged values converted inside.
#[verifier::external_body]
fn node_of_value(v: &serde_yaml::Value) -> YamlNode {
    match v {
        serde_yaml::Value::Null => YamlNode::Null,
        serde_yaml::Value::Bool(b) => YamlNode::Bool(*b),
        serde_yaml::Value::Number(n) => YamlNode::Number(YamlNumber { text: n.to_string(), as_i64: n.as_i64() }),
        serde_yaml::Value::String(t) => YamlNode::Text(t.clone()),
        serde_yaml::Value::Sequence(items) => YamlNode::Sequence(items.iter().map(node_of_value).collect()),
        serde_yaml::Value::Mapping(map) => YamlNode::Mapping(map.iter().map(|(k, x)| YamlEntry { key: node_of_value(k), value: node_of_value(x) }).collect()),
        serde_yaml::Value::Tagged(t) => YamlNode::Tagged(Box::new(node_of_value(&t.value))),
    }
}

/// `serde_yaml::from_str::<serde_yaml::Value>`, converted as above.
/// Claimed: it succeeds exactly where the named document exists, and then
/// gives that document; the parse depends on the text alone. The error's
/// wording is serde_yaml's and is left unstated.
#[verifier::external_body]
pub fn parse_yaml_text(text: &str) -> (r: Result<YamlNode, String>)
    ensures
        r is Ok <==> yaml_doc_of(text@) is Some,
        r matches Ok(n) ==> yaml_doc_of(text@) == Some(n),
{
    match serde_yaml::from_str::<serde_yaml::Value>(text) {
        Ok(v) => Ok(node_of_value(&v)),
        Err(e) => Err(e.to_string()),
    }
}

/// The value under its tags.
pub open spec fn untagged(v: YamlNode) -> YamlNode
    decreases v,
{
    match v {
        YamlNode::Tagged(inner) => untagged(*inner),
        _ => v,
    }
}

/// The value of the first entry whose key is the string `key`.
pub open spec fn entry_value(entries: Seq<YamlEntry>, key: Seq<char>) -> Option<YamlNode>
    decreases entries.len(),
{
    if entries.len() == 0 {
        None
    } else {
        match entries[0].key {
            YamlNode::Text(k) => if k@ == key {
                Some(entries[0].value)
            } else {
                entry_value(entries.drop_first(), key)
            },
            _ => entry_value(entries.drop_first(), key),
        }
    }
}

/// `Value::get(key)`: the value under the string key of a mapping, tags
/// looked through; nothing for anything but a mapping.
pub open spec fn yaml_lookup(v: YamlNode, key: Seq<char>) -> Option<YamlNode> {
    match untagged(v) {
        YamlNode::Mapping(entries) => entry_value(entries@, key),
        _ => None,
    }
}

fn untag(v: &YamlNode) -> (r: &YamlNode)
    ensures
        *r == untagged(*v),
    decreases v,
{
    match v {
        YamlNode::Tagged(inner) => untag(inner),
        _ => v,
    }
}

pub fn yaml_get<'a>(v: &'a YamlNode, key: &str) -> (r: Option<&'a YamlNode>)
    ensures
        match yaml_lookup(*v, key@) {
            Some(x) => r matches Some(y) && *y == x,
            None => r is None,
        },
{
    match untag(v) {
        YamlNode::Mapping(entries) => {
            let ghost es = entries@;
            let mut i: usize = 0;
            assert(es.skip(0) =~= es);
            assert(yaml_lookup(*v, key@) == entry_value(es, key@));
            while i < entries.len()
                invariant
                    i <= entries.len(),
                    es == entries@,
                    yaml_lookup(*v, key@) == entry_value(es, key@),
                    entry_value(es, key@) == entry_value(es.skip(i as int), key@),
                decreases entries.len() - i,
            {
                assert(es.skip(i as int)[0] == entries@[i as int]);
                assert(es.skip(i as int).drop_first() =~= es.skip(i + 1));
                match &entries[i].key {
                    YamlNode::Text(k) => {
                        if str_eq(k.as_str(), key) {
                            return Some(&entries[i].value);
                        }
                    },
                    _ => {},
                }
                i += 1;
            }
            None
        },
        _ => None,
    }
}

// ---------------------------------------------------------------------------
// Legacy rules
// ---------------------------------------------------------------------------

/// A rule read from an old YAML rules file.
pub struct LegacyRule {
    pub title: String,
    pub content: String,
    pub status: String,
    pub tags: Vec<String>,
    pub created_at: String,
    pub updated_at: String,
    pub picked_count: i64,
    pub last_picked_at: String,
    pub legacy_id: String,
    pub source_file: String,
    pub session_id: Option<String>,
}

pub struct LegacyView {
    pub title: Seq<char>,
    pub content: Seq<char>,
    pub status: Seq<char>,
    pub tags: Seq<Seq<char>>,
    pub created_at: Seq<char>,
    pub updated_at: Seq<char>,
    pub picked_count: int,
    pub last_picked_at: Seq<char>,
    pub legacy_id: Seq<char>,
    pub source_file: Seq<char>,
    pub session_id: Option<Seq<char>>,
}

impl View for LegacyRule {
    type V = LegacyView;

    open spec fn view(&self) -> LegacyView {
        LegacyView {
            title: self.title@,
            content: self.content@,
            status: self.status@,
            tags: texts_of(self.tags@),
            created_at: self.created_at@,
            updated_at: self.updated_at@,
            picked_count: self.picked_count as int,
            last_picked_at: self.last_picked_at@,
            legacy_id: self.legacy_id@,
            source_file: self.source_file@,
            session_id: match self.session_id {
                Some(s) => Some(s@),
                None => None,
            },
        }
    }
}

/// A field read as text: a string trimmed, a number as it prints, anything
/// else (or nothing) empty.
pub open spec fn field_text(v: YamlNode, key: Seq<char>) -> Seq<char> {
    match yaml_lookup(v, key) {
        Some(YamlNode::Text(t)) => trim_seq(t@),
        Some(YamlNode::Number(n)) => n.text@,
        _ => Seq::empty(),
    }
}

/// A field read as a count: an integer, or a string that parses as one
/// (trimmed); anything else 0; never below 0.
pub open spec fn field_count(v: YamlNode, key: Seq<char>) -> int {
    let raw: Option<i64> = match yaml_lookup(v, key) {
        Some(YamlNode::Number(n)) => n.as_i64,
        Some(YamlNode::Text(t)) => parsed_i64(trim_seq(t@)),
        _ => None,
    };
    let n: int = match raw {
        Some(x) => x as int,
        None => 0,
    };
    if n < 0 { 0 } else { n }
}

/// The strings and numbers of a list, as texts.
pub open spec fn scalar_texts(items: Seq<YamlNode>) -> Seq<Seq<char>>
    decreases items.len(),
{
    if items.len() == 0 {
        Seq::empty()
    } else {
        let prev = scalar_texts(items.drop_last());
        match items.last() {
            YamlNode::Text(t) => prev.push(t@),
            YamlNode::Number(n) => prev.push(n.text@),
            _ => prev,
        }
    }
}

/// The tags of a legacy rule: a list of strings and numbers, each possibly
/// comma-separated; or one comma-separated string; else none.
pub open spec fn field_tags(v: YamlNode) -> Seq<Seq<char>> {
    match yaml_lookup(v, "tags"@) {
        Some(YamlNode::Sequence(items)) => normalized_tags(scalar_texts(items@)),
        Some(YamlNode::Text(t)) => cli_tags(t@),
        _ => Seq::empty(),
    }
}

/// The rule that a YAML entry describes: a mapping with a title and a
/// content; an unknown status reads as `active`.
pub open spec fn legacy_of(raw: YamlNode, source_file: Seq<char>, session_id: Option<Seq<char>>) -> Option<LegacyView> {
    match raw {
        YamlNode::Mapping(_) => {
            let title = field_text(raw, "title"@);
            let content = field_text(raw, "content"@);
            if title.len() == 0 || content.len() == 0 {
                None
            } else {
                Some(LegacyView {
                    title,
                    content,
                    status: match cli_status(field_text(raw, "status"@)) {
                        Some(s) => s,
                        None => active_text(),
                    },
                    tags: field_tags(raw),
                    created_at: field_text(raw, "created_at"@),
                    updated_at: field_text(raw, "updated_at"@),
                    picked_count: field_count(raw, "picked_count"@),
                    last_picked_at: field_text(raw, "last_picked_at"@),
                    legacy_id: field_text(raw, "id"@),
                    source_file,
                    session_id,
                })
            }
        },
        _ => None,
    }
}

/// A field of a YAML mapping, as text.
pub fn yaml_string(value: &YamlNode, key: &str) -> (r: String)
    ensures
        r@ == field_text(*value, key@),
{
    match yaml_get(value, key) {
        Some(YamlNode::Text(t)) => trim(t.as_str()),
        Some(YamlNode::Number(n)) => n.text.clone(),
        _ => String::new(),
    }
}

/// A field of a YAML mapping, as a count.
pub fn yaml_i64(value: &YamlNode, key: &str) -> (r: i64)
    ensures
        r as int == field_count(*value, key@),
{
    let raw: Option<i64> = match yaml_get(value, key) {
        Some(YamlNode::Number(n)) => n.as_i64,
        Some(YamlNode::Text(t)) => parse_i64(trim(t.as_str()).as_str()),
        _ => None,
    };
    let n: i64 = match raw {
        Some(x) => x,
        None => 0,
    };
    if n < 0 { 0 } else { n }
}

fn scalar_strings(items: &Vec<YamlNode>) -> (r: Vec<String>)
    ensures
        texts_of(r@) == scalar_texts(items@),
{
    let mut r: Vec<String> = Vec::new();
    let mut i: usize = 0;
    while i < items.len()
        invariant
            i <= items.len(),
            texts_of(r@) == scalar_texts(items@.take(i as int)),
        decreases items.len() - i,
    {
        assert(items@.take(i + 1).drop_last() =~= items@.take(i as int));
        assert(items@.take(i + 1).last() == items@[i as int]);
        let ghost before = r@;
        match &items[i] {
            YamlNode::Text(t) => {
                r.push(t.clone());
                assert(texts_of(r@) =~= texts_of(before).push(t@));
            },
            YamlNode::Number(n) => {
                r.push(n.text.clone());
                assert(texts_of(r@) =~= texts_of(before).push(n.text@));
            },
            _ => {},
        }
        i += 1;
    }
    assert(items@.take(items.len() as int) =~= items@);
    r
}

/// The tags of a legacy rule.
pub fn yaml_tags(value: &YamlNode) -> (r: Vec<String>)
    ensures
        texts_of(r@) == field_tags(*value),
{
    match yaml_get(value, "tags") {
        Some(YamlNode::Sequence(items)) => normalize_tags(scalar_strings(items)),
        Some(YamlNode::Text(t)) => split_tags(t.as_str()),
        _ => {
            let r: Vec<String> = Vec::new();
            assert(texts_of(r@) =~= Seq::<Seq<char>>::empty());
            r
        },
    }
}

/// The rule a YAML entry describes, if it describes one.
pub fn normalize_legacy_rule(raw: &YamlNode, source_file: &str, session_id: Option<String>) -> (r: Option<LegacyRule>)
    ensures
        match legacy_of(*raw, source_file@, match session_id { Some(s) => Some(s@), None => None }) {
            Some(l) => r matches Some(x) && x@ == l,
            None => r is None,
        },
{
    match raw {
        YamlNode::Mapping(_) => {},
        _ => return None,
    }
    let title = yaml_string(raw, "title");
    let content = yaml_string(raw, "content");
    if chars_of(title.as_str()).len() == 0 || chars_of(content.as_str()).len() == 0 {
        return None;
    }
    let status = match normalize_status(yaml_string(raw, "status").as_str()) {
        Ok(s) => s,
        Err(_) => active_string(),
    };
    Some(LegacyRule {
        title,
        content,
        status,
        tags: yaml_tags(raw),
        created_at: yaml_string(raw, "created_at"),
        updated_at: yaml_string(raw, "updated_at"),
        picked_count: yaml_i64(raw, "picked_count"),
        last_picked_at: yaml_string(raw, "last_picked_at"),
        legacy_id: yaml_string(raw, "id"),
        source_file: source_file.to_string(),
        session_id,
    })
}

// ---------------------------------------------------------------------------
// Importing legacy rules
// ---------------------------------------------------------------------------

/// The rule entries of a legacy YAML document: the list under `rules`, or
/// the document itself when it is a list; otherwise none.
pub open spec fn raw_rules(payload: YamlNode) -> Seq<YamlNode> {
    match yaml_lookup(payload, "rules"@) {
        Some(YamlNode::Sequence(items)) => items@,
        _ => match payload {
            YamlNode::Sequence(items) => items@,
            _ => Seq::empty(),
        },
    }
}

/// The rules that a list of entries describes, in order, skipping the
/// entries that describe none.
pub open spec fn legacy_list(items: Seq<YamlNode>, source_file: Seq<char>, session_id: Option<Seq<char>>) -> Seq<LegacyView>
    decreases items.len(),
{
    if items.len() == 0 {
        Seq::empty()
    } else {
        let prev = legacy_list(items.drop_last(), source_file, session_id);
        match legacy_of(items.last(), source_file, session_id) {
            Some(l) => prev.push(l),
            None => prev,
        }
    }
}

pub open spec fn legacy_views(v: Seq<LegacyRule>) -> Seq<LegacyView> {
    v.map_values(|r: LegacyRule| r@)
}

pub open spec fn opt_view(s: Option<String>) -> Option<Seq<char>> {
    match s {
        Some(x) => Some(x@),
        None => None,
    }
}

fn copy_opt(s: &Option<String>) -> (r: Option<String>)
    ensures
        opt_view(r) == opt_view(*s),
{
    match s {
        Some(x) => Some(x.clone()),
        None => None,
    }
}

/// The legacy rules of a YAML rules file's text, read from `source_file`
/// (for the session `session_id`, if any); the YAML error where the text is
/// not YAML.
pub fn legacy_rules_from_text(text: &str, source_file: &str, session_id: Option<String>) -> (r: Result<Vec<LegacyRule>, String>)
    ensures
        r is Ok <==> yaml_doc_of(text@) is Some,
        r matches Ok(v) ==> legacy_views(v@) == legacy_list(raw_rules(yaml_doc_of(text@)->0), source_file@, opt_view(session_id)),
{
    let doc = parse_yaml_text(text)?;
    Ok(legacy_rules_from_payload(&doc, source_file, session_id))
}

/// The legacy rules of a parsed YAML rules file.
pub fn legacy_rules_from_payload(payload: &YamlNode, source_file: &str, session_id: Option<String>) -> (r: Vec<LegacyRule>)
    ensures
        legacy_views(r@) == legacy_list(raw_rules(*payload), source_file@, opt_view(session_id)),
{
    let empty: Vec<YamlNode> = Vec::new();
    let items: &Vec<YamlNode> = match yaml_get(payload, "rules") {
        Some(YamlNode::Sequence(items)) => items,
        _ => match payload {
            YamlNode::Sequence(items) => items,
            _ => &empty,
        },
    };
    assert(items@ == raw_rules(*payload));
    let ghost sid = opt_view(session_id);
    let mut out: Vec<LegacyRule> = Vec::new();
    let mut i: usize = 0;
    while i < items.len()
        invariant
            i <= items.len(),
            opt_view(session_id) == sid,
            legacy_views(out@) == legacy_list(items@.take(i as int), source_file@, sid),
        decreases items.len() - i,
    {
        assert(items@.take(i + 1).drop_last() =~= items@.take(i as int));
        assert(items@.take(i + 1).last() == items@[i as int]);
        let ghost before = out@;
        match normalize_legacy_rule(&items[i], source_file, copy_opt(&session_id)) {
            Some(rule) => {
                out.push(rule);
                assert(legacy_views(out@) =~= legacy_views(before).push(out@.last()@));
            },
            None => {},
        }
        i += 1;
    }
    assert(items@.take(items.len() as int) =~= items@);
    out
}

/// What SQLite answers when a row breaks the status check.
pub open spec fn status_check_message() -> Seq<char> {
    "CHECK constraint failed: status IN ('active', 'deprecated')"@
}

/// The row stored for a legacy rule under a fresh id, at time `ts`: a blank
/// creation time is `ts`, a blank update time the creation time.
pub open spec fn legacy_row(id: Seq<char>, l: LegacyView, ts: Seq<char>) -> RuleRow {
    let created = if trim_seq(l.created_at).len() == 0 { ts } else { l.created_at };
    let updated = if trim_seq(l.updated_at).len() == 0 { created } else { l.updated_at };
    make_row(id, l.title, l.content, l.tags, l.status, created, updated, l.picked_count, l.last_picked_at)
}

/// Whether importing legacy rule `l` at `ts` into `v0`, leaving `v1` and
/// answering `r`, did what the importer does.
pub open spec fn legacy_result_view(r: Result<(DbRule, bool), String>) -> Result<(DbRuleView, bool), Seq<char>> {
    match r {
        Ok((y, fresh)) => Ok((y@, fresh)),
        Err(e) => Err(e@),
    }
}

/// Whether importing legacy rule `l` at `ts` into `v0`, leaving `v1` and
/// answering `r`, did what the importer does.
pub open spec fn legacy_step(v0: StoreView, v1: StoreView, l: LegacyView, ts: Seq<char>, r: Result<(DbRuleView, bool), Seq<char>>) -> bool {
    match first_duplicate(v0.rules, trim_seq(l.title), trim_seq(l.content)) {
        Some(d) => v1 == v0 && match get_view(v0.rules, d) {
            Some(x) => r == Ok::<(DbRuleView, bool), Seq<char>>((x, false)),
            None => r == Err::<(DbRuleView, bool), Seq<char>>(not_found_message(d)),
        },
        None => match r {
            Ok((y, fresh)) => {
                &&& fresh
                &&& is_status(l.status)
                &&& !has_rule(v0.rules, y.id)
                &&& (exists|n: u128, i: u32| i < 1000 && y.id == candidate_id(n, i))
                &&& v1 == (StoreView { rules: ins_rule(v0.rules, legacy_row(y.id, l, ts)), sels: v0.sels })
                &&& y == db_view(legacy_row(y.id, l, ts), None)
            },
            Err(e) => v1 == v0 && ((e == "failed to generate rule id"@ && exists|ns: Seq<u128>| ids_exhausted(v0.rules, ns))
                || (!is_status(l.status) && e == status_check_message())),
        },
    }
}

/// `legacy_step` for the importer's answer.
pub open spec fn legacy_outcome(v0: StoreView, v1: StoreView, l: LegacyView, ts: Seq<char>, r: Result<(DbRule, bool), String>) -> bool {
    legacy_step(v0, v1, l, ts, legacy_result_view(r))
}

impl RuleStore {
    /// Imports a legacy rule at time `ts`: a rule with the same (trimmed)
    /// title and content is answered as it is, with `false`; otherwise the
    /// rule is stored under a fresh id and answered with `true`.
    pub fn insert_legacy_rule_at(&mut self, rule: &LegacyRule, ts: &str) -> (r: Result<(DbRule, bool), String>)
        requires
            old(self).wf(),
        ensures
            final(self).wf(),
            legacy_outcome(old(self)@, final(self)@, rule@, ts@, r),
            is_status(rule@.status) && first_duplicate(old(self)@.rules, trim_seq(rule@.title), trim_seq(rule@.content)) is None
                ==> (r is Ok || (r matches Err(e) && e@ == "failed to generate rule id"@)),
            is_status(rule@.status) && first_duplicate(old(self)@.rules, trim_seq(rule@.title), trim_seq(rule@.content)) is None
                && no_candidate_taken(old(self)@.rules) ==> r is Ok,
            r matches Ok((y, fresh)) ==> (fresh ==> y@.tags == rule@.tags),
    {
        match self.find_duplicate_rule(rule.title.as_str(), rule.content.as_str()) {
            Some(existing) => {
                let found = self.get_rule(existing.as_str())?;
                return Ok((found, false));
            },
            None => {},
        }
        let id = self.generate_rule_id()?;
        proof {
            let (n, i) = choose|n: u128, i: u32| i < 1000 && id@ == candidate_id(n, i);
            lemma_candidate_trimmed(n, i);
        }
        if !crate::status::is_status_str(rule.status.as_str()) {
            return Err("CHECK constraint failed: status IN ('active', 'deprecated')".to_string());
        }
        let created_at = if trim_chars(&chars_of(rule.created_at.as_str())).len() == 0 {
            ts.to_string()
        } else {
            rule.created_at.clone()
        };
        let updated_at = if trim_chars(&chars_of(rule.updated_at.as_str())).len() == 0 {
            created_at.clone()
        } else {
            rule.updated_at.clone()
        };
        let stored = self.insert_rule_at(id.as_str(), rule.title.as_str(), rule.content.as_str(), &rule.tags,
            rule.status.as_str(), created_at.as_str(), updated_at.as_str(), rule.picked_count, rule.last_picked_at.as_str());
        Ok((stored, true))
    }

    /// Imports a legacy rule now; see `insert_legacy_rule_at`.
    pub fn insert_legacy_rule(&mut self, rule: &LegacyRule) -> (r: Result<(DbRule, bool), String>)
        requires
            old(self).wf(),
        ensures
            final(self).wf(),
            exists|secs: Option<u64>| legacy_outcome(old(self)@, final(self)@, rule@, seconds_text(secs), r),
            is_status(rule@.status) && first_duplicate(old(self)@.rules, trim_seq(rule@.title), trim_seq(rule@.content)) is None
                ==> (r is Ok || (r matches Err(e) && e@ == "failed to generate rule id"@)),
            is_status(rule@.status) && first_duplicate(old(self)@.rules, trim_seq(rule@.title), trim_seq(rule@.content)) is None
                && no_candidate_taken(old(self)@.rules) ==> r is Ok,
            r matches Ok((y, fresh)) ==> (fresh ==> y@.tags == rule@.tags),
    {
        let ts = now_text();
        self.insert_legacy_rule_at(rule, ts.as_str())
    }
}

} // verus!
