use vstd::prelude::*;
use crate::db::{contains_text, copy_strings};
use crate::picker::{item_views, refresh_rule_text, refreshed, RuleItem, RuleItemView};
use crate::query::chars_all;
use crate::split::{
    contains_sub, decimal_chars, decimal_seq, has_substring, join_chars, join_seq,
    split_whitespace_chars, split_whitespace_seq,
};
use crate::status::{active_string, active_text, deprecated_string, deprecated_text, normalize_ui_status, ui_status};
use crate::tags::{split_ui_tags, ui_tags};
use crate::text::{
    append_chars, chars_of, lower_text, string_of, texts_of, to_lowercase, trim, trim_seq,
    views_of,
};

verus! {

// ---------------------------------------------------------------------------
// What the picker hands back
// ---------------------------------------------------------------------------

/// A rule whose fields were changed in the picker, with its new fields.
pub struct PickerUpdate {
    pub id: String,
    pub title: String,
    pub content: String,
    pub tags: Vec<String>,
    pub status: String,
}

pub struct UpdateView {
    pub id: Seq<char>,
    pub title: Seq<char>,
    pub content: Seq<char>,
    pub tags: Seq<Seq<char>>,
    pub status: Seq<char>,
}

impl View for PickerUpdate {
    type V = UpdateView;

    open spec fn view(&self) -> UpdateView {
        UpdateView { id: self.id@, title: self.title@, content: self.content@, tags: texts_of(self.tags@), status: self.status@ }
    }
}

pub open spec fn update_views(v: Seq<PickerUpdate>) -> Seq<UpdateView> {
    v.map_values(|u: PickerUpdate| u@)
}

/// The rules picked and the rules edited when the picker was confirmed.
pub struct PickerResult {
    pub selected_ids: Vec<String>,
    pub updates: Vec<PickerUpdate>,
}

/// How the picker window ended.
pub enum PickerAction {
    Pick(PickerResult),
    Cancel,
}

/// What the picker protocol prints.
pub struct PickerOutput {
    pub selected_ids: Vec<String>,
    pub updates: Vec<PickerUpdate>,
    pub cancelled: bool,
}

/// The texts the editor fields are set to.
pub struct EditorFields {
    pub title: String,
    pub content: String,
    pub tags: String,
    pub status: String,
}

/// The cells of the checklist that are edited in place.
pub enum CellField {
    Title,
    Content,
    Tags,
    Status,
}

/// A rule after one of its cells was edited to `text`.
pub open spec fn cell_value(r: RuleItemView, cell: CellField, text: Seq<char>) -> RuleItemView {
    refreshed(match cell {
        CellField::Title => RuleItemView { title: trim_seq(text), ..r },
        CellField::Content => RuleItemView { content: trim_seq(text), ..r },
        CellField::Tags => RuleItemView { tags: ui_tags(text), ..r },
        CellField::Status => RuleItemView { status: ui_status(text), ..r },
    })
}

/// The picker after a cell of visible row `row` was edited to `text`.
pub open spec fn cell_edited(v: PickerView, row: int, cell: CellField, text: Seq<char>) -> PickerView {
    if 0 <= row < v.visible.len() {
        let k = v.visible[row];
        PickerView {
            rules: v.rules.update(k as int, cell_value(v.rules[k as int], cell, text)),
            editing: Some(k),
            ..v
        }
    } else {
        v
    }
}

/// What happens to a window's answer: an action is sent, or the window
/// goes away.
pub enum GuardEvent {
    Send,
    Destroy,
}

/// One event for a guard that has (`sent`) or has not sent an answer: the
/// guard after it, and how many actions it sends (a send sends its action
/// when nothing was sent; going away sends a cancel when nothing was sent).
pub open spec fn guard_step(sent: bool, e: GuardEvent) -> (bool, nat) {
    match e {
        GuardEvent::Send => (true, if sent { 0 } else { 1 }),
        GuardEvent::Destroy => (true, if sent { 0 } else { 1 }),
    }
}

/// Events in turn: the guard after them and the actions they sent.
pub open spec fn guard_run(sent: bool, events: Seq<GuardEvent>) -> (bool, nat)
    decreases events.len(),
{
    if events.len() == 0 {
        (sent, 0)
    } else {
        let (s1, n1) = guard_step(sent, events[0]);
        let (s2, n2) = guard_run(s1, events.drop_first());
        (s2, n1 + n2)
    }
}

/// Whether the window's one answer was sent: the confirmed or cancelled
/// action, or, when the window goes away with nothing sent, a cancel.
pub struct ActionGuard {
    sent: bool,
}

impl View for ActionGuard {
    type V = bool;

    closed spec fn view(&self) -> bool {
        self.sent
    }
}

impl ActionGuard {
    /// Nothing sent yet.
    pub fn new() -> (g: ActionGuard)
        ensures
            !g@,
    {
        ActionGuard { sent: false }
    }

    /// Sends `action` as the window's answer, unless an answer was already
    /// sent; answers what is to be sent.
    pub fn send(&mut self, action: PickerAction) -> (r: Option<PickerAction>)
        ensures
            final(self)@,
            old(self)@ ==> r is None,
            !old(self)@ ==> r == Some(action),
            (final(self)@, if r is Some { 1nat } else { 0nat }) == guard_step(old(self)@, GuardEvent::Send),
    {
        if self.sent {
            None
        } else {
            self.sent = true;
            Some(action)
        }
    }

    /// What the window answers as it goes away: a cancel when nothing was
    /// sent, nothing otherwise.
    pub fn on_destroy(&mut self) -> (r: Option<PickerAction>)
        ensures
            final(self)@,
            old(self)@ ==> r is None,
            !old(self)@ ==> (r matches Some(a) && a is Cancel),
            (final(self)@, if r is Some { 1nat } else { 0nat }) == guard_step(old(self)@, GuardEvent::Destroy),
    {
        if self.sent {
            None
        } else {
            self.sent = true;
            Some(PickerAction::Cancel)
        }
    }
}

/// The cells of one row of the checklist.
pub struct ListRow {
    pub checked: bool,
    pub id: String,
    pub status: String,
    pub tags: String,
    pub title: String,
    pub preview: String,
}

// ---------------------------------------------------------------------------
// The picker's state
// ---------------------------------------------------------------------------

/// The rules in the picker, which of them the search shows (as indices into
/// the rules, in order), the ids that are ticked, the rule being edited,
/// and the status the editor shows.
pub struct PickerState {
    rules: Vec<RuleItem>,
    visible: Vec<usize>,
    checked: Vec<String>,
    editing: Option<usize>,
    status_value: String,
}

pub struct PickerView {
    pub rules: Seq<RuleItemView>,
    pub visible: Seq<usize>,
    pub checked: Seq<Seq<char>>,
    pub editing: Option<usize>,
    pub status: Seq<char>,
}

impl View for PickerState {
    type V = PickerView;

    closed spec fn view(&self) -> PickerView {
        PickerView {
            rules: item_views(self.rules@),
            visible: self.visible@,
            checked: texts_of(self.checked@),
            editing: self.editing,
            status: self.status_value@,
        }
    }
}

/// The visible rows are increasing indices of rules, the ticked ids are a
/// set, and the edited rule is a rule.
pub open spec fn picker_wf(v: PickerView) -> bool {
    &&& forall|i: int, j: int| 0 <= i < j < v.visible.len() ==> v.visible[i] < v.visible[j]
    &&& forall|i: int| 0 <= i < v.visible.len() ==> v.visible[i] < v.rules.len()
    &&& v.checked.no_duplicates()
    &&& (v.editing matches Some(k) ==> k < v.rules.len())
}

/// The search words of a query: lower-cased, split on whitespace.
pub open spec fn query_terms(query: Seq<char>) -> Seq<Seq<char>> {
    split_whitespace_seq(lower_text(query))
}

/// Whether a search text holds every word.
pub open spec fn matches_terms(hay: Seq<char>, terms: Seq<Seq<char>>) -> bool {
    forall|k: int| 0 <= k < terms.len() ==> has_substring(hay, #[trigger] terms[k])
}

/// Whether `vis` lists, in increasing order, exactly the rules whose search
/// text holds every word.
pub open spec fn shows_matches(vis: Seq<usize>, rules: Seq<RuleItemView>, terms: Seq<Seq<char>>) -> bool {
    &&& forall|i: int, j: int| 0 <= i < j < vis.len() ==> vis[i] < vis[j]
    &&& forall|i: int| 0 <= i < vis.len() ==> vis[i] < rules.len() && matches_terms(rules[vis[i] as int].search_text, terms)
    &&& forall|k: int| 0 <= k < rules.len() && matches_terms(#[trigger] rules[k].search_text, terms) ==> vis.contains(k as usize)
}

/// A rule after the editor was saved into it: title and content trimmed,
/// tags split on commas without repeats, status `deprecated` or `active`.
pub open spec fn edited(r: RuleItemView, title: Seq<char>, content: Seq<char>, tags: Seq<char>, status: Seq<char>) -> RuleItemView {
    refreshed(RuleItemView {
        title: trim_seq(title),
        content: trim_seq(content),
        tags: ui_tags(tags),
        status: ui_status(status),
        ..r
    })
}

/// The picker after the editor was saved into the rule it edits.
pub open spec fn saved(v: PickerView, title: Seq<char>, content: Seq<char>, tags: Seq<char>, status: Seq<char>) -> PickerView {
    match v.editing {
        Some(k) => PickerView { rules: v.rules.update(k as int, edited(v.rules[k as int], title, content, tags, status)), ..v },
        None => v,
    }
}

/// Whether a rule's fields differ from those it came with.
pub open spec fn is_changed(r: RuleItemView) -> bool {
    r.title != r.original_title || r.content != r.original_content || r.status != r.original_status
        || r.tags != r.original_tags
}

pub open spec fn update_of(r: RuleItemView) -> UpdateView {
    UpdateView { id: r.id, title: r.title, content: r.content, tags: r.tags, status: r.status }
}

/// The updates for the changed rules, in order.
pub open spec fn changed_updates(rules: Seq<RuleItemView>) -> Seq<UpdateView>
    decreases rules.len(),
{
    if rules.len() == 0 {
        Seq::empty()
    } else {
        let prev = changed_updates(rules.drop_last());
        if is_changed(rules.last()) {
            prev.push(update_of(rules.last()))
        } else {
            prev
        }
    }
}

/// The ids of the ticked rules, in the order of the rules.
pub open spec fn ticked_ids(rules: Seq<RuleItemView>, checked: Seq<Seq<char>>) -> Seq<Seq<char>>
    decreases rules.len(),
{
    if rules.len() == 0 {
        Seq::empty()
    } else {
        let prev = ticked_ids(rules.drop_last(), checked);
        if checked.contains(rules.last().id) {
            prev.push(rules.last().id)
        } else {
            prev
        }
    }
}

/// The ids of the visible rows marked in `rows`, among the first `n`.
pub open spec fn marked_ids(rules: Seq<RuleItemView>, vis: Seq<usize>, rows: Seq<bool>, n: int) -> Seq<Seq<char>>
    decreases n,
{
    if n <= 0 {
        Seq::empty()
    } else {
        let prev = marked_ids(rules, vis, rows, n - 1);
        if n - 1 < rows.len() && rows[n - 1] {
            prev.push(rules[vis[n - 1] as int].id)
        } else {
            prev
        }
    }
}

/// The ids the list box picks: the marked rows; when none is marked and one
/// row is visible, that row.
pub open spec fn row_pick(rules: Seq<RuleItemView>, vis: Seq<usize>, rows: Seq<bool>) -> Seq<Seq<char>> {
    let m = marked_ids(rules, vis, rows, vis.len() as int);
    if m.len() == 0 && vis.len() == 1 {
        seq![rules[vis[0] as int].id]
    } else {
        m
    }
}

/// What loading the editor from visible row `row` leaves, and the texts it
/// puts in the editor (nothing when the editor is left as it is).
pub open spec fn loaded(v: PickerView, row: Option<usize>) -> (PickerView, Option<(Seq<char>, Seq<char>, Seq<char>, Seq<char>)>) {
    match row {
        None => (
            PickerView { editing: None, status: active_text(), ..v },
            Some((Seq::empty(), Seq::empty(), Seq::empty(), active_text())),
        ),
        Some(vi) => if vi < v.visible.len() {
            let k = v.visible[vi as int];
            let r = v.rules[k as int];
            (
                PickerView { editing: Some(k), status: r.status, ..v },
                Some((r.title, r.content, join_seq(r.tags, seq![',']), r.status)),
            )
        } else {
            (PickerView { editing: None, ..v }, None)
        },
    }
}

/// `content.split_whitespace().join(" ")`, cut to 80 characters with `…`
/// added when it was longer.
pub open spec fn preview_seq(content: Seq<char>) -> Seq<char> {
    let n = join_seq(split_whitespace_seq(content), seq![' ']);
    if n.len() > 80 {
        n.take(80).push('\u{2026}')
    } else {
        n
    }
}

/// A short one-line preview of a rule's content for the checklist.
pub fn content_preview(content: &str) -> (r: String)
    ensures
        r@ == preview_seq(content@),
{
    let words = split_whitespace_chars(&chars_of(content));
    let space: Vec<char> = vec![' '];
    assert(space@ =~= seq![' ']);
    let n = join_chars(&words, &space);
    if n.len() > 80 {
        let mut p: Vec<char> = Vec::new();
        let mut i: usize = 0;
        while i < 80
            invariant
                i <= 80 < n.len(),
                p@ =~= n@.take(i as int),
            decreases 80 - i,
        {
            p.push(n[i]);
            i += 1;
        }
        p.push('\u{2026}');
        string_of(&p)
    } else {
        string_of(&n)
    }
}

fn query_terms_of(query: &str) -> (r: Vec<Vec<char>>)
    ensures
        views_of(r@) == query_terms(query@),
{
    let lower = to_lowercase(query);
    split_whitespace_chars(&chars_of(lower.as_str()))
}

fn matches_all(hay: &Vec<char>, terms: &Vec<Vec<char>>) -> (b: bool)
    ensures
        b == matches_terms(hay@, views_of(terms@)),
{
    let mut k: usize = 0;
    while k < terms.len()
        invariant
            k <= terms.len(),
            forall|j: int| 0 <= j < k ==> has_substring(hay@, #[trigger] views_of(terms@)[j]),
        decreases terms.len() - k,
    {
        if !contains_sub(hay, &terms[k]) {
            assert(!has_substring(hay@, views_of(terms@)[k as int]));
            return false;
        }
        k += 1;
    }
    true
}

fn copy_item(r: &RuleItem) -> (c: RuleItem)
    ensures
        c@ == r@,
{
    RuleItem {
        id: r.id.clone(),
        title: r.title.clone(),
        content: r.content.clone(),
        status: r.status.clone(),
        tags: copy_strings(&r.tags),
        selected: r.selected,
        original_title: r.original_title.clone(),
        original_content: r.original_content.clone(),
        original_status: r.original_status.clone(),
        original_tags: copy_strings(&r.original_tags),
        display: r.display.clone(),
        search_text: r.search_text.clone(),
    }
}

fn strings_equal(a: &Vec<String>, b: &Vec<String>) -> (r: bool)
    ensures
        r == (texts_of(a@) == texts_of(b@)),
{
    if a.len() != b.len() {
        assert(texts_of(a@).len() != texts_of(b@).len());
        return false;
    }
    let mut i: usize = 0;
    while i < a.len()
        invariant
            i <= a.len() == b.len(),
            forall|j: int| 0 <= j < i ==> texts_of(a@)[j] == texts_of(b@)[j],
        decreases a.len() - i,
    {
        if a[i] != b[i] {
            assert(texts_of(a@)[i as int] != texts_of(b@)[i as int]);
            return false;
        }
        i += 1;
    }
    assert(texts_of(a@) =~= texts_of(b@));
    true
}

fn joined_tags(tags: &Vec<String>) -> (r: String)
    ensures
        r@ == join_seq(texts_of(tags@), seq![',']),
{
    let parts = chars_all(tags);
    let comma: Vec<char> = vec![','];
    assert(comma@ =~= seq![',']);
    let j = join_chars(&parts, &comma);
    string_of(&j)
}

/// The ids of the rules that come ticked, as a set.
pub open spec fn initially_ticked(rules: Seq<RuleItemView>, x: Seq<char>) -> bool {
    exists|i: int| 0 <= i < rules.len() && rules[i].selected && rules[i].id == x
}

proof fn lemma_wf(s: PickerState)
    requires
        s.wf(),
    ensures
        item_views(s.rules@).len() == s.rules@.len(),
        forall|i: int| 0 <= i < s.visible@.len() ==> #[trigger] s.visible@[i] < s.rules@.len(),
        s.editing matches Some(k) ==> k < s.rules@.len(),
        texts_of(s.checked@).no_duplicates(),
{
    assert forall|i: int| 0 <= i < s.visible@.len() implies #[trigger] s.visible@[i] < s.rules@.len() by {
        assert(s@.visible[i] < s@.rules.len());
    }
}

impl PickerState {
    pub open spec fn wf(&self) -> bool {
        picker_wf(self@)
    }

    /// A picker over `rules`, with the rules marked selected ticked, nothing
    /// shown yet, nothing in the editor and the editor status `active`.
    pub fn new(rules: Vec<RuleItem>) -> (s: PickerState)
        ensures
            s.wf(),
            s@.rules == item_views(rules@),
            s@.visible.len() == 0,
            s@.editing is None,
            s@.status == active_text(),
            forall|x: Seq<char>| #[trigger] s@.checked.contains(x) <==> initially_ticked(item_views(rules@), x),
    {
        let mut checked: Vec<String> = Vec::new();
        let mut i: usize = 0;
        let ghost rv = item_views(rules@);
        while i < rules.len()
            invariant
                i <= rules.len(),
                rv == item_views(rules@),
                texts_of(checked@).no_duplicates(),
                forall|x: Seq<char>| #[trigger] texts_of(checked@).contains(x) <==> exists|j: int| 0 <= j < i && rv[j].selected && rv[j].id == x,
            decreases rules.len() - i,
        {
            if rules[i].selected && !contains_text(&checked, rules[i].id.as_str()) {
                let ghost before = texts_of(checked@);
                let ghost y = rv[i as int].id;
                checked.push(rules[i].id.clone());
                assert(texts_of(checked@) =~= before.push(y));
                assert forall|x: Seq<char>| #[trigger] texts_of(checked@).contains(x) <==> exists|j: int| 0 <= j < i + 1 && rv[j].selected && rv[j].id == x by {
                    if x == y {
                        assert(texts_of(checked@)[before.len() as int] == x);
                        assert(rv[i as int].selected && rv[i as int].id == x);
                    } else {
                        if texts_of(checked@).contains(x) {
                            let p = choose|p: int| 0 <= p < texts_of(checked@).len() && texts_of(checked@)[p] == x;
                            assert(p < before.len());
                            assert(before[p] == x);
                            assert(before.contains(x));
                        }
                        if before.contains(x) {
                            let p = choose|p: int| 0 <= p < before.len() && before[p] == x;
                            assert(texts_of(checked@)[p] == x);
                        }
                        if exists|j: int| 0 <= j < i + 1 && rv[j].selected && rv[j].id == x {
                            let j = choose|j: int| 0 <= j < i + 1 && rv[j].selected && rv[j].id == x;
                            assert(j < i);
                        }
                    }
                }
            } else {
                assert forall|x: Seq<char>| #[trigger] texts_of(checked@).contains(x) <==> exists|j: int| 0 <= j < i + 1 && rv[j].selected && rv[j].id == x by {
                    if exists|j: int| 0 <= j < i + 1 && rv[j].selected && rv[j].id == x {
                        let j = choose|j: int| 0 <= j < i + 1 && rv[j].selected && rv[j].id == x;
                        if j == i {
                            assert(texts_of(checked@).contains(x));
                        } else {
                            assert(exists|j: int| 0 <= j < i && rv[j].selected && rv[j].id == x);
                        }
                    }
                }
            }
            i += 1;
        }
        let s = PickerState { rules, visible: Vec::new(), checked, editing: None, status_value: active_string() };
        s
    }

    /// The rules, in order.
    pub fn rules(&self) -> (r: &Vec<RuleItem>)
        ensures
            item_views(r@) == self@.rules,
    {
        &self.rules
    }

    /// The rules the search shows, as indices into the rules.
    pub fn visible(&self) -> (r: &Vec<usize>)
        ensures
            r@ == self@.visible,
    {
        &self.visible
    }

    /// The rule in the editor.
    pub fn editing(&self) -> (r: Option<usize>)
        ensures
            r == self@.editing,
    {
        self.editing
    }

    /// The ticked ids.
    pub fn checked(&self) -> (r: &Vec<String>)
        ensures
            texts_of(r@) == self@.checked,
    {
        &self.checked
    }

    /// Shows the rules whose search text holds every word of `query`
    /// (lower-cased); the ticks, the editor and the rules stay as they are.
    pub fn refresh_visible(&mut self, query: &str)
        requires
            old(self).wf(),
        ensures
            final(self).wf(),
            final(self)@.rules == old(self)@.rules,
            final(self)@.checked == old(self)@.checked,
            final(self)@.editing == old(self)@.editing,
            final(self)@.status == old(self)@.status,
            shows_matches(final(self)@.visible, final(self)@.rules, query_terms(query@)),
    {
        let terms = query_terms_of(query);
        let ghost tv = views_of(terms@);
        let ghost rv = item_views(self.rules@);
        let mut vis: Vec<usize> = Vec::new();
        let mut i: usize = 0;
        while i < self.rules.len()
            invariant
                i <= self.rules.len(),
                rv == item_views(self.rules@),
                tv == views_of(terms@),
                forall|a: int, b: int| 0 <= a < b < vis@.len() ==> vis@[a] < vis@[b],
                forall|a: int| 0 <= a < vis@.len() ==> vis@[a] < i && matches_terms(rv[vis@[a] as int].search_text, tv),
                forall|k: int| 0 <= k < i && matches_terms(#[trigger] rv[k].search_text, tv) ==> vis@.contains(k as usize),
            decreases self.rules.len() - i,
        {
            let hay = chars_of(self.rules[i].search_text.as_str());
            if matches_all(&hay, &terms) {
                let ghost before = vis@;
                vis.push(i);
                assert forall|k: int| 0 <= k < i + 1 && matches_terms(#[trigger] rv[k].search_text, tv) implies vis@.contains(k as usize) by {
                    if k < i {
                        let p = choose|p: int| 0 <= p < before.len() && before[p] == k as usize;
                        assert(vis@[p] == k as usize);
                    } else {
                        assert(vis@[before.len() as int] == k as usize);
                    }
                }
            }
            i += 1;
        }
        self.visible = vis;
    }

    /// Ticks (`on`) or unticks the rule of visible row `row`; nothing for a
    /// row that is not shown.
    pub fn set_checked(&mut self, row: usize, on: bool)
        requires
            old(self).wf(),
        ensures
            final(self).wf(),
            final(self)@.rules == old(self)@.rules,
            final(self)@.visible == old(self)@.visible,
            final(self)@.editing == old(self)@.editing,
            final(self)@.status == old(self)@.status,
            row >= old(self)@.visible.len() ==> final(self)@.checked == old(self)@.checked,
            row < old(self)@.visible.len() ==> {
                let id = old(self)@.rules[old(self)@.visible[row as int] as int].id;
                forall|x: Seq<char>| #[trigger] final(self)@.checked.contains(x) <==> (if on {
                    old(self)@.checked.contains(x) || x == id
                } else {
                    old(self)@.checked.contains(x) && x != id
                })
            },
    {
        if row >= self.visible.len() {
            return;
        }
        proof {
            lemma_wf(*self);
        }
        let k = self.visible[row];
        let id = self.rules[k].id.clone();
        assert(item_views(self.rules@)[k as int].id == id@);
        if on {
            if !contains_text(&self.checked, id.as_str()) {
                let ghost before = texts_of(self.checked@);
                self.checked.push(id);
                assert(texts_of(self.checked@) =~= before.push(old(self)@.rules[old(self)@.visible[row as int] as int].id));
                assert forall|x: Seq<char>| #[trigger] texts_of(self.checked@).contains(x) <==> (before.contains(x) || x == old(self)@.rules[old(self)@.visible[row as int] as int].id) by {
                    if texts_of(self.checked@).contains(x) {
                        let p = choose|p: int| 0 <= p < texts_of(self.checked@).len() && texts_of(self.checked@)[p] == x;
                        if p < before.len() {
                            assert(before[p] == x);
                        }
                    }
                    if before.contains(x) {
                        let p = choose|p: int| 0 <= p < before.len() && before[p] == x;
                        assert(texts_of(self.checked@)[p] == x);
                    }
                    if x == old(self)@.rules[old(self)@.visible[row as int] as int].id {
                        assert(texts_of(self.checked@)[before.len() as int] == x);
                    }
                }
            }
        } else {
            let ghost before = texts_of(self.checked@);
            let mut kept: Vec<String> = Vec::new();
            let mut j: usize = 0;
            while j < self.checked.len()
                invariant
                    j <= self.checked.len(),
                    self@ == old(self)@,
                    before == texts_of(self.checked@),
                    before.no_duplicates(),
                    texts_of(kept@).no_duplicates(),
                    forall|x: Seq<char>| #[trigger] texts_of(kept@).contains(x) <==> (before.take(j as int).contains(x) && x != id@),
                decreases self.checked.len() - j,
            {
                assert(before.take(j + 1) =~= before.take(j as int).push(before[j as int]));
                let same = crate::text::str_eq(self.checked[j].as_str(), id.as_str());
                assert(before[j as int] == self.checked@[j as int]@);
                if !same {
                    let ghost kb = texts_of(kept@);
                    assert(!kb.contains(before[j as int])) by {
                        if kb.contains(before[j as int]) {
                            let p = choose|p: int| 0 <= p < j && before[p] == before[j as int];
                        }
                    }
                    kept.push(self.checked[j].clone());
                    assert(texts_of(kept@) =~= kb.push(before[j as int]));
                    assert forall|x: Seq<char>| #[trigger] texts_of(kept@).contains(x) <==> (before.take(j + 1).contains(x) && x != id@) by {
                        if texts_of(kept@).contains(x) {
                            let p = choose|p: int| 0 <= p < texts_of(kept@).len() && texts_of(kept@)[p] == x;
                            if p < kb.len() {
                                assert(kb[p] == x);
                                assert(kb.contains(x));
                                assert(before.take(j as int).contains(x) && x != id@);
                                let q = choose|q: int| 0 <= q < j && #[trigger] before.take(j as int)[q] == x;
                                assert(before.take(j + 1)[q] == x);
                                assert(before.take(j + 1).contains(x));
                            } else {
                                assert(x == before[j as int]);
                                assert(before.take(j + 1)[j as int] == x);
                                assert(before.take(j + 1).contains(x));
                                assert(x != id@);
                            }
                        }
                        if before.take(j + 1).contains(x) && x != id@ {
                            let p = choose|p: int| 0 <= p < j + 1 && #[trigger] before.take(j + 1)[p] == x;
                            if p < j {
                                assert(before.take(j as int)[p] == x);
                                assert(kb.contains(x));
                                let q = choose|q: int| 0 <= q < kb.len() && kb[q] == x;
                                assert(texts_of(kept@)[q] == x);
                            } else {
                                assert(texts_of(kept@)[kb.len() as int] == x);
                            }
                            assert(texts_of(kept@).contains(x));
                        }
                    }
                } else {
                    assert forall|x: Seq<char>| #[trigger] texts_of(kept@).contains(x) <==> (before.take(j + 1).contains(x) && x != id@) by {
                        if before.take(j + 1).contains(x) && x != id@ {
                            let p = choose|p: int| 0 <= p < j + 1 && #[trigger] before.take(j + 1)[p] == x;
                            assert(p < j);
                            assert(before.take(j as int)[p] == x);
                        }
                    }
                }
                j += 1;
            }
            assert(before.take(before.len() as int) =~= before);
            let ghost v0 = self@;
            self.checked = kept;
            assert(self@.visible == v0.visible);
            assert(self@.rules == v0.rules);
        }
    }

    /// Saves the editor's texts into the rule it edits: title and content
    /// trimmed, tags split on commas, `status` read as `deprecated` or `active`.
    pub fn save_editor_fields(&mut self, title: &str, content: &str, tags: &str, status: &str)
        requires
            old(self).wf(),
        ensures
            final(self).wf(),
            final(self)@ == saved(old(self)@, title@, content@, tags@, status@),
    {
        let k = match self.editing {
            Some(k) => k,
            None => return,
        };
        let mut item = copy_item(&self.rules[k]);
        item.title = trim(title);
        item.content = trim(content);
        item.tags = split_ui_tags(tags);
        item.status = normalize_ui_status(status);
        refresh_rule_text(&mut item);
        self.rules.set(k, item);
        assert(item_views(self.rules@) =~= old(self)@.rules.update(k as int, edited(old(self)@.rules[k as int], title@, content@, tags@, status@)));
    }

    /// Puts the rule of visible row `row` in the editor and answers the texts
    /// for the editor's fields; with no row, empties the editor.
    pub fn load_editor(&mut self, row: Option<usize>) -> (r: Option<EditorFields>)
        requires
            old(self).wf(),
        ensures
            final(self).wf(),
            final(self)@ == loaded(old(self)@, row).0,
            match loaded(old(self)@, row).1 {
                Some((t, c, g, s)) => r matches Some(f) && f.title@ == t && f.content@ == c && f.tags@ == g && f.status@ == s,
                None => r is None,
            },
    {
        match row {
            None => {
                self.editing = None;
                self.status_value = active_string();
                proof {
                    reveal_strlit("");
                }
                Some(EditorFields { title: String::new(), content: String::new(), tags: String::new(), status: active_string() })
            },
            Some(vi) => {
                if vi < self.visible.len() {
                    let k = self.visible[vi];
                    let rule = &self.rules[k];
                    let fields = EditorFields {
                        title: rule.title.clone(),
                        content: rule.content.clone(),
                        tags: joined_tags(&rule.tags),
                        status: rule.status.clone(),
                    };
                    self.editing = Some(k);
                    self.status_value = fields.status.clone();
                    Some(fields)
                } else {
                    self.editing = None;
                    None
                }
            },
        }
    }

    /// The visible row the checklist reports as selected (`raw`, `-1` for
    /// none), if it is a shown rule.
    pub fn current_visible_index(&self, raw: isize) -> (r: Option<usize>)
        ensures
            r == (if self@.visible.len() > 0 && 0 <= raw < self@.visible.len() { Some(raw as usize) } else { None::<usize> }),
    {
        if self.visible.len() == 0 {
            return None;
        }
        if raw >= 0 {
            let index = raw as usize;
            if index < self.visible.len() {
                return Some(index);
            }
        }
        None
    }

    /// The list box's current row (`raw`), if it is a shown rule; when it is
    /// not and only one rule is shown, that one.
    pub fn current_listbox_index(&self, raw: isize) -> (r: Option<usize>)
        ensures
            r == (if self@.visible.len() > 0 && 0 <= raw < self@.visible.len() {
                Some(raw as usize)
            } else if self@.visible.len() == 1 {
                Some(0usize)
            } else {
                None::<usize>
            }),
    {
        match self.current_visible_index(raw) {
            Some(i) => Some(i),
            None => if self.visible.len() == 1 { Some(0) } else { None },
        }
    }

    /// The row to highlight first: the first shown one; with none shown, the
    /// editor lets go of its rule.
    pub fn select_first_visible(&mut self) -> (r: Option<usize>)
        requires
            old(self).wf(),
        ensures
            final(self).wf(),
            old(self)@.visible.len() == 0 ==> r is None && final(self)@ == (PickerView { editing: None, ..old(self)@ }),
            old(self)@.visible.len() > 0 ==> r == Some(0usize) && final(self)@ == old(self)@,
    {
        if self.visible.len() == 0 {
            self.editing = None;
            None
        } else {
            Some(0)
        }
    }

    /// The row to highlight after a save: the edited rule's row when it is
    /// still shown, else the first shown one.
    pub fn restore_selection(&mut self) -> (r: Option<usize>)
        requires
            old(self).wf(),
        ensures
            final(self).wf(),
            match old(self)@.editing {
                Some(k) if old(self)@.visible.contains(k) => {
                    &&& final(self)@ == old(self)@
                    &&& r matches Some(p) && p < old(self)@.visible.len() && old(self)@.visible[p as int] == k
                },
                _ => {
                    &&& old(self)@.visible.len() == 0 ==> r is None && final(self)@ == (PickerView { editing: None, ..old(self)@ })
                    &&& old(self)@.visible.len() > 0 ==> r == Some(0usize) && final(self)@ == old(self)@
                },
            },
    {
        if let Some(k) = self.editing {
            let mut p: usize = 0;
            while p < self.visible.len()
                invariant
                    p <= self.visible.len(),
                    self.wf(),
                    self@ == old(self)@,
                    self.editing == Some(k),
                    forall|q: int| 0 <= q < p ==> self.visible@[q] != k,
                decreases self.visible.len() - p,
            {
                if self.visible[p] == k {
                    return Some(p);
                }
                p += 1;
            }
        }
        self.select_first_visible()
    }

    /// The line above the checklist: ticked, shown and total counts, and
    /// the rule in the editor.
    pub fn status_label(&self) -> (r: String)
        requires
            self.wf(),
        ensures
            r@ == "已勾选 "@ + decimal_seq(self@.checked.len()) + " 条 · 可见 "@ + decimal_seq(self@.visible.len()) + " / 总计 "@
                + decimal_seq(self@.rules.len()) + " · "@ + match self@.editing {
                    Some(k) => "当前编辑："@ + self@.rules[k as int].id + " · "@ + self@.rules[k as int].title,
                    None => "当前编辑：无"@,
                },
    {
        let mut v = chars_of("已勾选 ");
        append_chars(&mut v, &decimal_chars(self.checked.len() as u64));
        append_chars(&mut v, &chars_of(" 条 · 可见 "));
        append_chars(&mut v, &decimal_chars(self.visible.len() as u64));
        append_chars(&mut v, &chars_of(" / 总计 "));
        append_chars(&mut v, &decimal_chars(self.rules.len() as u64));
        append_chars(&mut v, &chars_of(" · "));
        match self.editing {
            Some(k) => {
                append_chars(&mut v, &chars_of("当前编辑："));
                append_chars(&mut v, &chars_of(self.rules[k].id.as_str()));
                append_chars(&mut v, &chars_of(" · "));
                append_chars(&mut v, &chars_of(self.rules[k].title.as_str()));
            },
            None => {
                append_chars(&mut v, &chars_of("当前编辑：无"));
            },
        }
        string_of(&v)
    }

    /// The cells of visible row `row`: whether it is ticked, the id, status,
    /// comma-joined tags, title and a preview of the content.
    pub fn row(&self, row: usize) -> (r: Option<ListRow>)
        requires
            self.wf(),
        ensures
            row >= self@.visible.len() ==> r is None,
            row < self@.visible.len() ==> {
                let x = self@.rules[self@.visible[row as int] as int];
                r matches Some(c) && c.checked == self@.checked.contains(x.id) && c.id@ == x.id && c.status@ == x.status
                    && c.tags@ == join_seq(x.tags, seq![',']) && c.title@ == x.title && c.preview@ == preview_seq(x.content)
            },
    {
        if row >= self.visible.len() {
            return None;
        }
        proof {
            lemma_wf(*self);
        }
        let rule = &self.rules[self.visible[row]];
        Some(ListRow {
            checked: contains_text(&self.checked, rule.id.as_str()),
            id: rule.id.clone(),
            status: rule.status.clone(),
            tags: joined_tags(&rule.tags),
            title: rule.title.clone(),
            preview: content_preview(rule.content.as_str()),
        })
    }

    /// The message the checklist shows when no rule is shown.
    pub fn empty_list_message(&self) -> (r: Option<String>)
        ensures
            self@.visible.len() > 0 ==> r is None,
            self@.visible.len() == 0 && self@.rules.len() == 0 ==> (r matches Some(m) && m@ == "当前无项目规则。请先用 rule-add --scope project 新增。"@),
            self@.visible.len() == 0 && self@.rules.len() > 0 ==> (r matches Some(m) && m@ == "没有匹配的项目规则。请调整搜索关键词。"@),
    {
        if self.visible.len() > 0 {
            None
        } else if self.rules.len() == 0 {
            Some("当前无项目规则。请先用 rule-add --scope project 新增。".to_string())
        } else {
            Some("没有匹配的项目规则。请调整搜索关键词。".to_string())
        }
    }

    /// The message the list box shows when no rule is shown.
    pub fn listbox_empty_message(&self) -> (r: Option<String>)
        ensures
            self@.visible.len() > 0 ==> r is None,
            self@.visible.len() == 0 && self@.rules.len() == 0 ==> (r matches Some(m) && m@ == "当前无 active 项目规则。请先用 rule-add --scope project 新增。"@),
            self@.visible.len() == 0 && self@.rules.len() > 0 ==> (r matches Some(m) && m@ == "没有匹配的项目规则。请调整搜索关键词。"@),
    {
        if self.visible.len() > 0 {
            None
        } else if self.rules.len() == 0 {
            Some("当前无 active 项目规则。请先用 rule-add --scope project 新增。".to_string())
        } else {
            Some("没有匹配的项目规则。请调整搜索关键词。".to_string())
        }
    }

    /// The rules whose fields differ from those they came with, in order,
    /// with their new fields.
    pub fn collect_updates(&self) -> (r: Vec<PickerUpdate>)
        ensures
            update_views(r@) == changed_updates(self@.rules),
    {
        let ghost rv = item_views(self.rules@);
        let mut out: Vec<PickerUpdate> = Vec::new();
        let mut i: usize = 0;
        while i < self.rules.len()
            invariant
                i <= self.rules.len(),
                rv == item_views(self.rules@),
                update_views(out@) == changed_updates(rv.take(i as int)),
            decreases self.rules.len() - i,
        {
            assert(rv.take(i + 1).drop_last() =~= rv.take(i as int));
            assert(rv.take(i + 1).last() == rv[i as int]);
            let r = &self.rules[i];
            if r.title != r.original_title || r.content != r.original_content || r.status != r.original_status
                || !strings_equal(&r.tags, &r.original_tags) {
                let ghost before = update_views(out@);
                out.push(PickerUpdate {
                    id: r.id.clone(),
                    title: r.title.clone(),
                    content: r.content.clone(),
                    tags: copy_strings(&r.tags),
                    status: r.status.clone(),
                });
                assert(update_views(out@) =~= before.push(update_of(rv[i as int])));
            }
            i += 1;
        }
        assert(rv.take(self.rules.len() as int) =~= rv);
        out
    }

    fn ticked_in_order(&self) -> (r: Vec<String>)
        ensures
            texts_of(r@) == ticked_ids(self@.rules, self@.checked),
    {
        let ghost rv = item_views(self.rules@);
        let mut out: Vec<String> = Vec::new();
        let mut i: usize = 0;
        while i < self.rules.len()
            invariant
                i <= self.rules.len(),
                rv == item_views(self.rules@),
                texts_of(out@) == ticked_ids(rv.take(i as int), texts_of(self.checked@)),
            decreases self.rules.len() - i,
        {
            assert(rv.take(i + 1).drop_last() =~= rv.take(i as int));
            assert(rv.take(i + 1).last() == rv[i as int]);
            if contains_text(&self.checked, self.rules[i].id.as_str()) {
                let ghost before = texts_of(out@);
                out.push(self.rules[i].id.clone());
                assert(texts_of(out@) =~= before.push(rv[i as int].id));
            }
            i += 1;
        }
        assert(rv.take(self.rules.len() as int) =~= rv);
        out
    }

    /// Confirms the checklist: answers the ticked ids in the order of the
    /// rules and the rules whose cells were edited.
    pub fn finish_with_selection(&self) -> (r: PickerResult)
        requires
            self.wf(),
        ensures
            texts_of(r.selected_ids@) == ticked_ids(self@.rules, self@.checked),
            update_views(r.updates@) == changed_updates(self@.rules),
    {
        let selected_ids = self.ticked_in_order();
        PickerResult { selected_ids, updates: self.collect_updates() }
    }

    /// Edits one cell of visible row `row` in place: the title or content
    /// (trimmed), the tags (split on commas without repeats) or the status
    /// (`deprecated` or `active`). The rule becomes the one being edited.
    /// A row that is not shown leaves everything as it was.
    pub fn edit_cell(&mut self, row: usize, cell: CellField, text: &str)
        requires
            old(self).wf(),
        ensures
            final(self).wf(),
            final(self)@ == cell_edited(old(self)@, row as int, cell, text@),
    {
        if row >= self.visible.len() {
            return;
        }
        proof {
            lemma_wf(*self);
        }
        let k = self.visible[row];
        let mut item = copy_item(&self.rules[k]);
        match cell {
            CellField::Title => {
                item.title = trim(text);
            },
            CellField::Content => {
                item.content = trim(text);
            },
            CellField::Tags => {
                item.tags = split_ui_tags(text);
            },
            CellField::Status => {
                item.status = normalize_ui_status(text);
            },
        }
        refresh_rule_text(&mut item);
        self.rules.set(k, item);
        self.editing = Some(k);
        assert(item_views(self.rules@) =~= old(self)@.rules.update(k as int, cell_value(old(self)@.rules[k as int], cell, text@)));
    }

    /// Confirms the list box: saves the editor (with the status text typed
    /// in it), then answers the ids of the marked rows (`rows[i]` for
    /// visible row `i`) and the edited rules; with no row marked and one
    /// rule shown, that rule is picked.
    pub fn finish_with_rows(&mut self, title: &str, content: &str, tags: &str, status: &str, rows: &Vec<bool>) -> (r: PickerResult)
        requires
            old(self).wf(),
        ensures
            final(self).wf(),
            final(self)@ == saved(old(self)@, title@, content@, tags@, status@),
            texts_of(r.selected_ids@) == row_pick(final(self)@.rules, final(self)@.visible, rows@),
            update_views(r.updates@) == changed_updates(final(self)@.rules),
    {
        self.save_editor_fields(title, content, tags, status);
        proof {
            lemma_wf(*self);
        }
        let ghost rv = item_views(self.rules@);
        let mut ids: Vec<String> = Vec::new();
        let mut i: usize = 0;
        while i < self.visible.len()
            invariant
                picker_wf(self@),
                forall|q: int| 0 <= q < self.visible@.len() ==> #[trigger] self.visible@[q] < self.rules@.len(),
                rv == item_views(self.rules@),
                i <= self.visible.len(),
                texts_of(ids@) == marked_ids(rv, self.visible@, rows@, i as int),
            decreases self.visible.len() - i,
        {
            if i < rows.len() && rows[i] {
                let ghost before = texts_of(ids@);
                let k = self.visible[i];
                ids.push(self.rules[k].id.clone());
                assert(texts_of(ids@) =~= before.push(rv[self.visible@[i as int] as int].id));
            }
            i += 1;
        }
        if ids.len() == 0 && self.visible.len() == 1 {
            let k = self.visible[0];
            ids.push(self.rules[k].id.clone());
            assert(texts_of(ids@) =~= seq![rv[self.visible@[0] as int].id]);
        }
        PickerResult { selected_ids: ids, updates: self.collect_updates() }
    }
}

/// What the picker prints for how its window ended.
pub fn picker_output(action: PickerAction) -> (r: PickerOutput)
    ensures
        match action {
            PickerAction::Pick(p) => texts_of(r.selected_ids@) == texts_of(p.selected_ids@) && update_views(r.updates@) == update_views(p.updates@) && !r.cancelled,
            PickerAction::Cancel => r.selected_ids@.len() == 0 && r.updates@.len() == 0 && r.cancelled,
        },
{
    match action {
        PickerAction::Pick(p) => PickerOutput { selected_ids: p.selected_ids, updates: p.updates, cancelled: false },
        PickerAction::Cancel => PickerOutput { selected_ids: Vec::new(), updates: Vec::new(), cancelled: true },
    }
}

} // verus!
