use vstd::prelude::*;
use crate::db::copy_strings;
use crate::query::{chars_all, DbRule, DbRuleView};
use crate::split::{join_chars, join_seq};
use crate::status::{normalize_ui_status, ui_status};
use crate::tags::{normalize_tags, normalized_tags};
use crate::text::{
    append_chars, ascii_lower_seq, chars_of, lower_text, string_of, texts_of, to_ascii_lowercase,
    to_lowercase, trim, trim_seq,
};

verus! {

// ---------------------------------------------------------------------------
// Rules as the picker holds them
// ---------------------------------------------------------------------------

/// A rule as the picker's input file gives it.
pub struct RuleInput {
    pub id: String,
    pub title: String,
    pub content: String,
    pub status: String,
    pub tags: Vec<String>,
    pub selected: bool,
}

pub struct RuleInputView {
    pub id: Seq<char>,
    pub title: Seq<char>,
    pub content: Seq<char>,
    pub status: Seq<char>,
    pub tags: Seq<Seq<char>>,
    pub selected: bool,
}

impl View for RuleInput {
    type V = RuleInputView;

    open spec fn view(&self) -> RuleInputView {
        RuleInputView {
            id: self.id@,
            title: self.title@,
            content: self.content@,
            status: self.status@,
            tags: texts_of(self.tags@),
            selected: self.selected,
        }
    }
}

/// A rule in the picker: its current (possibly edited) fields, the fields
/// it came with, and the texts it is shown and searched by.
pub struct RuleItem {
    pub id: String,
    pub title: String,
    pub content: String,
    pub status: String,
    pub tags: Vec<String>,
    pub selected: bool,
    pub original_title: String,
    pub original_content: String,
    pub original_status: String,
    pub original_tags: Vec<String>,
    pub display: String,
    pub search_text: String,
}

pub struct RuleItemView {
    pub id: Seq<char>,
    pub title: Seq<char>,
    pub content: Seq<char>,
    pub status: Seq<char>,
    pub tags: Seq<Seq<char>>,
    pub selected: bool,
    pub original_title: Seq<char>,
    pub original_content: Seq<char>,
    pub original_status: Seq<char>,
    pub original_tags: Seq<Seq<char>>,
    pub display: Seq<char>,
    pub search_text: Seq<char>,
}

impl View for RuleItem {
    type V = RuleItemView;

    open spec fn view(&self) -> RuleItemView {
        RuleItemView {
            id: self.id@,
            title: self.title@,
            content: self.content@,
            status: self.status@,
            tags: texts_of(self.tags@),
            selected: self.selected,
            original_title: self.original_title@,
            original_content: self.original_content@,
            original_status: self.original_status@,
            original_tags: texts_of(self.original_tags@),
            display: self.display@,
            search_text: self.search_text@,
        }
    }
}

pub open spec fn item_views(v: Seq<RuleItem>) -> Seq<RuleItemView> {
    v.map_values(|r: RuleItem| r@)
}

/// The line a rule is shown as: `id [status] [tags] title: content`.
pub open spec fn display_seq(id: Seq<char>, status: Seq<char>, tags: Seq<Seq<char>>, title: Seq<char>, content: Seq<char>) -> Seq<char> {
    id + seq![' ', '['] + status + seq![']', ' ', '['] + join_seq(tags, seq![',']) + seq![']', ' '] + title
        + seq![':', ' '] + content
}

/// The text the picker searches a rule in: the id with ASCII letters
/// lowered, then status, title, content and the comma-joined tags, each
/// lower-cased, separated by spaces.
pub open spec fn item_search_seq(id: Seq<char>, status: Seq<char>, tags: Seq<Seq<char>>, title: Seq<char>, content: Seq<char>) -> Seq<char> {
    ascii_lower_seq(id) + seq![' '] + lower_text(status) + seq![' '] + lower_text(title) + seq![' ']
        + lower_text(content) + seq![' '] + lower_text(join_seq(tags, seq![',']))
}

/// A rule with its display and search texts made from its current fields.
pub open spec fn refreshed(v: RuleItemView) -> RuleItemView {
    RuleItemView {
        display: display_seq(v.id, v.status, v.tags, v.title, v.content),
        search_text: item_search_seq(v.id, v.status, v.tags, v.title, v.content),
        ..v
    }
}

/// Remakes a rule's display and search texts from its current fields.
pub fn refresh_rule_text(rule: &mut RuleItem)
    ensures
        final(rule)@ == refreshed(old(rule)@),
{
    let parts = chars_all(&rule.tags);
    let comma: Vec<char> = vec![','];
    assert(comma@ =~= seq![',']);
    let tags = join_chars(&parts, &comma);

    let mut d = chars_of(rule.id.as_str());
    d.push(' ');
    d.push('[');
    append_chars(&mut d, &chars_of(rule.status.as_str()));
    d.push(']');
    d.push(' ');
    d.push('[');
    append_chars(&mut d, &tags);
    d.push(']');
    d.push(' ');
    append_chars(&mut d, &chars_of(rule.title.as_str()));
    d.push(':');
    d.push(' ');
    append_chars(&mut d, &chars_of(rule.content.as_str()));
    assert(d@ =~= display_seq(rule.id@, rule.status@, texts_of(rule.tags@), rule.title@, rule.content@));

    let tags_text = string_of(&tags);
    let mut s = chars_of(to_ascii_lowercase(rule.id.as_str()).as_str());
    s.push(' ');
    append_chars(&mut s, &chars_of(to_lowercase(rule.status.as_str()).as_str()));
    s.push(' ');
    append_chars(&mut s, &chars_of(to_lowercase(rule.title.as_str()).as_str()));
    s.push(' ');
    append_chars(&mut s, &chars_of(to_lowercase(rule.content.as_str()).as_str()));
    s.push(' ');
    append_chars(&mut s, &chars_of(to_lowercase(tags_text.as_str()).as_str()));
    assert(s@ =~= item_search_seq(rule.id@, rule.status@, texts_of(rule.tags@), rule.title@, rule.content@));

    rule.display = string_of(&d);
    rule.search_text = string_of(&s);
}

/// The picker rule an input entry gives: id, title and content trimmed and
/// all required; the status `deprecated` or else `active`; the tags split
/// on commas without repeats; the fields it came with the same.
pub open spec fn input_item(inp: RuleInputView) -> Option<RuleItemView> {
    let id = trim_seq(inp.id);
    let title = trim_seq(inp.title);
    let content = trim_seq(inp.content);
    let status = ui_status(inp.status);
    let tags = normalized_tags(inp.tags);
    if id.len() == 0 || title.len() == 0 || content.len() == 0 {
        None
    } else {
        Some(refreshed(RuleItemView {
            id,
            title,
            content,
            status,
            tags,
            selected: inp.selected,
            original_title: title,
            original_content: content,
            original_status: status,
            original_tags: tags,
            display: Seq::empty(),
            search_text: Seq::empty(),
        }))
    }
}

/// The picker rules that a list of input entries gives, in order.
pub open spec fn input_items(inputs: Seq<RuleInputView>) -> Seq<RuleItemView>
    decreases inputs.len(),
{
    if inputs.len() == 0 {
        Seq::empty()
    } else {
        let prev = input_items(inputs.drop_last());
        match input_item(inputs.last()) {
            Some(x) => prev.push(x),
            None => prev,
        }
    }
}

pub open spec fn input_views(v: Seq<RuleInput>) -> Seq<RuleInputView> {
    v.map_values(|r: RuleInput| r@)
}

/// The picker rule an input entry gives, if it gives one.
pub fn item_from_input(input: &RuleInput) -> (r: Option<RuleItem>)
    ensures
        match input_item(input@) {
            Some(x) => r matches Some(y) && y@ == x,
            None => r is None,
        },
{
    let id = trim(input.id.as_str());
    let title = trim(input.title.as_str());
    let content = trim(input.content.as_str());
    let status = normalize_ui_status(input.status.as_str());
    if chars_of(id.as_str()).len() == 0 || chars_of(title.as_str()).len() == 0 || chars_of(content.as_str()).len() == 0 {
        return None;
    }
    let tags = normalize_tags(copy_strings(&input.tags));
    let mut item = RuleItem {
        id,
        original_title: title.clone(),
        title,
        original_content: content.clone(),
        content,
        original_status: status.clone(),
        status,
        original_tags: copy_strings(&tags),
        tags,
        selected: input.selected,
        display: String::new(),
        search_text: String::new(),
    };
    refresh_rule_text(&mut item);
    Some(item)
}

/// The picker rules of a rules file, in order, skipping entries without an
/// id, a title or a content.
pub fn items_from_inputs(inputs: &Vec<RuleInput>) -> (r: Vec<RuleItem>)
    ensures
        item_views(r@) == input_items(input_views(inputs@)),
{
    let ghost all = input_views(inputs@);
    let mut out: Vec<RuleItem> = Vec::new();
    let mut i: usize = 0;
    while i < inputs.len()
        invariant
            i <= inputs.len(),
            all == input_views(inputs@),
            item_views(out@) == input_items(all.take(i as int)),
        decreases inputs.len() - i,
    {
        assert(all.take(i + 1).drop_last() =~= all.take(i as int));
        assert(all.take(i + 1).last() == inputs@[i as int]@);
        let ghost before = item_views(out@);
        match item_from_input(&inputs[i]) {
            Some(item) => {
                out.push(item);
                assert(item_views(out@) =~= before.push(out@.last()@));
            },
            None => {},
        }
        i += 1;
    }
    assert(all.take(inputs.len() as int) =~= all);
    out
}

/// The picker rule for a rule from the store: as it is, selected when the
/// store says the session selected it.
pub open spec fn db_item(d: DbRuleView) -> RuleItemView {
    refreshed(RuleItemView {
        id: d.id,
        title: d.title,
        content: d.content,
        status: d.status,
        tags: d.tags,
        selected: d.selected == Some(true),
        original_title: d.title,
        original_content: d.content,
        original_status: d.status,
        original_tags: d.tags,
        display: Seq::empty(),
        search_text: Seq::empty(),
    })
}

/// The picker rules for rules from the store, in the same order.
pub fn db_rules_to_items(rules: &Vec<DbRule>) -> (r: Vec<RuleItem>)
    ensures
        r@.len() == rules@.len(),
        forall|i: int| 0 <= i < rules@.len() ==> (#[trigger] r@[i])@ == db_item(rules@[i]@),
{
    let mut out: Vec<RuleItem> = Vec::new();
    let mut i: usize = 0;
    while i < rules.len()
        invariant
            i <= rules.len(),
            out@.len() == i,
            forall|j: int| 0 <= j < i ==> (#[trigger] out@[j])@ == db_item(rules@[j]@),
        decreases rules.len() - i,
    {
        let rule = &rules[i];
        let selected = match rule.selected {
            Some(b) => b,
            None => false,
        };
        let mut item = RuleItem {
            id: rule.id.clone(),
            title: rule.title.clone(),
            content: rule.content.clone(),
            status: rule.status.clone(),
            tags: copy_strings(&rule.tags),
            selected,
            original_title: rule.title.clone(),
            original_content: rule.content.clone(),
            original_status: rule.status.clone(),
            original_tags: copy_strings(&rule.tags),
            display: String::new(),
            search_text: String::new(),
        };
        refresh_rule_text(&mut item);
        out.push(item);
        i += 1;
    }
    out
}

} // verus!
