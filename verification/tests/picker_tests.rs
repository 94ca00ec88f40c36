use rule_system::picker::{db_rules_to_items, item_from_input, items_from_inputs, refresh_rule_text, RuleInput, RuleItem};
use rule_system::db::RuleStore;
use rule_system::window::{picker_output, ActionGuard, CellField, PickerAction, PickerResult, PickerState};

fn strings(v: &[&str]) -> Vec<String> {
    v.iter().map(|s| s.to_string()).collect()
}

fn input(id: &str, title: &str, content: &str, status: &str, tags: &[&str], selected: bool) -> RuleInput {
    RuleInput {
        id: id.to_string(),
        title: title.to_string(),
        content: content.to_string(),
        status: status.to_string(),
        tags: strings(tags),
        selected,
    }
}

fn items() -> Vec<RuleItem> {
    items_from_inputs(&vec![
        input("r1", "Alpha", "first rule", "active", &["x"], true),
        input("r2", "Beta", "second rule", "deprecated", &["y,z"], false),
        input("r3", "Gamma", "third", "active", &[], false),
    ])
}

#[test]
fn input_items_are_normalized() {
    let it = item_from_input(&input(" R9 ", " T ", " C ", " DEPRECATED ", &["a, b", "a"], false)).unwrap();
    assert_eq!((it.id.as_str(), it.title.as_str(), it.content.as_str(), it.status.as_str()), ("R9", "T", "C", "deprecated"));
    assert_eq!(it.tags, strings(&["a", "b"]));
    assert_eq!(it.original_tags, it.tags);
    assert_eq!(it.display, "R9 [deprecated] [a,b] T: C");
    assert_eq!(it.search_text, "r9 deprecated t c a,b");
    assert!(item_from_input(&input("", "T", "C", "", &[], false)).is_none());
    assert!(item_from_input(&input("x", "T", "  ", "", &[], false)).is_none());
    assert_eq!(items().len(), 3);
}

#[test]
fn refresh_rule_text_remakes_texts() {
    let mut it = items().remove(0);
    it.title = "Über".to_string();
    refresh_rule_text(&mut it);
    assert_eq!(it.display, "r1 [active] [x] Über: first rule");
    assert_eq!(it.search_text, "r1 active über first rule x");
}

#[test]
fn db_rules_become_items() {
    let mut store = RuleStore::new();
    let r = store.insert_rule("T", "C", "k").ok().unwrap();
    store.select_rules("s", &vec![r.id.clone()], false).ok().unwrap();
    let listed = store.list_rules(true, "", "", &Vec::new(), Some("s"));
    let it = db_rules_to_items(&listed);
    assert_eq!(it.len(), 1);
    assert!(it[0].selected);
    assert_eq!(it[0].display, format!("{} [active] [k] T: C", r.id));
}

#[test]
fn search_filters_without_losing_ticks() {
    let mut st = PickerState::new(items());
    assert_eq!(st.checked(), &strings(&["r1"]));
    st.refresh_visible("");
    assert_eq!(st.visible(), &vec![0, 1, 2]);
    st.refresh_visible("  RULE  ");
    assert_eq!(st.visible(), &vec![0, 1]);
    st.refresh_visible("second y");
    assert_eq!(st.visible(), &vec![1]);
    assert_eq!(st.checked(), &strings(&["r1"]));
    st.set_checked(0, true);
    let mut ids = st.checked().clone();
    ids.sort();
    assert_eq!(ids, strings(&["r1", "r2"]));
    st.set_checked(5, false);
    st.refresh_visible("");
    st.set_checked(0, false);
    assert_eq!(st.checked(), &strings(&["r2"]));
    st.refresh_visible("nothing-matches");
    assert!(st.visible().is_empty());
    assert_eq!(st.empty_list_message(), Some("没有匹配的项目规则。请调整搜索关键词。".to_string()));
    assert_eq!(PickerState::new(Vec::new()).listbox_empty_message(), Some("当前无 active 项目规则。请先用 rule-add --scope project 新增。".to_string()));
}

#[test]
fn editor_load_save_and_finish() {
    let mut st = PickerState::new(items());
    st.refresh_visible("");
    assert_eq!(st.current_visible_index(1), Some(1));
    assert_eq!(st.current_visible_index(-1), None);
    let first = st.select_first_visible();
    assert_eq!(first, Some(0));
    let fields = st.load_editor(Some(1)).unwrap();
    assert_eq!((fields.title.as_str(), fields.tags.as_str(), fields.status.as_str()), ("Beta", "y,z", "deprecated"));
    assert_eq!(st.editing(), Some(1));
    assert_eq!(st.status_label(), "已勾选 1 条 · 可见 3 / 总计 3 · 当前编辑：r2 · Beta");
    st.save_editor_fields(" Beta 2 ", "second rule", "y, z, y", "active");
    let result = st.finish_with_selection();
    assert_eq!(result.selected_ids, strings(&["r1"]));
    assert_eq!(result.updates.len(), 1);
    let u = &result.updates[0];
    assert_eq!((u.id.as_str(), u.title.as_str(), u.status.as_str()), ("r2", "Beta 2", "active"));
    assert_eq!(u.tags, strings(&["y", "z"]));
    assert_eq!(st.rules()[1].display, "r2 [active] [y,z] Beta 2: second rule");
    let empty = st.load_editor(None).unwrap();
    assert_eq!((empty.title.as_str(), empty.status.as_str()), ("", "active"));
    assert_eq!(st.status_label(), "已勾选 1 条 · 可见 3 / 总计 3 · 当前编辑：无");
}

#[test]
fn unchanged_editor_gives_no_update() {
    let mut st = PickerState::new(items());
    st.refresh_visible("");
    let f = st.load_editor(Some(0)).unwrap();
    st.save_editor_fields(&f.title, &f.content, &f.tags, &f.status);
    assert!(st.collect_updates().is_empty());
}

#[test]
fn restore_selection_follows_edited_rule() {
    let mut st = PickerState::new(items());
    st.refresh_visible("");
    st.load_editor(Some(2)).unwrap();
    st.refresh_visible("third");
    assert_eq!(st.restore_selection(), Some(0));
    st.refresh_visible("alpha");
    assert_eq!(st.restore_selection(), Some(0));
    st.refresh_visible("none at all");
    assert_eq!(st.restore_selection(), None);
    assert_eq!(st.editing(), None);
}

#[test]
fn list_rows_show_cells() {
    let mut st = PickerState::new(items());
    st.refresh_visible("");
    let row = st.row(1).unwrap();
    assert!(!row.checked);
    assert_eq!((row.id.as_str(), row.status.as_str(), row.tags.as_str(), row.title.as_str(), row.preview.as_str()), ("r2", "deprecated", "y,z", "Beta", "second rule"));
    assert!(st.row(0).unwrap().checked);
    assert!(st.row(3).is_none());
}

#[test]
fn listbox_finish_picks_single_visible() {
    let mut st = PickerState::new(items());
    st.refresh_visible("gamma");
    assert_eq!(st.current_listbox_index(-1), Some(0));
    let r = st.finish_with_rows("", "", "", "", &vec![false]);
    assert_eq!(r.selected_ids, strings(&["r3"]));
    let mut st2 = PickerState::new(items());
    st2.refresh_visible("");
    st2.load_editor(Some(0)).unwrap();
    let r2 = st2.finish_with_rows("Alpha", "first rule", "x", "nonsense", &vec![false, true, true]);
    assert_eq!(r2.selected_ids, strings(&["r2", "r3"]));
    assert!(r2.updates.is_empty());
}

#[test]
fn picker_output_for_actions() {
    let o = picker_output(PickerAction::Cancel);
    assert!(o.cancelled && o.selected_ids.is_empty());
    let p = picker_output(PickerAction::Pick(PickerResult { selected_ids: strings(&["a"]), updates: Vec::new() }));
    assert!(!p.cancelled);
    assert_eq!(p.selected_ids, strings(&["a"]));
}

#[test]
fn cells_are_edited_in_place() {
    let mut st = PickerState::new(items());
    st.refresh_visible("");
    st.edit_cell(1, CellField::Title, "  Beta 2 ");
    st.edit_cell(1, CellField::Tags, "y, z, y, w");
    st.edit_cell(1, CellField::Status, " Active ");
    st.edit_cell(2, CellField::Content, " third rule ");
    st.edit_cell(9, CellField::Title, "ignored");
    assert_eq!(st.editing(), Some(2));
    assert_eq!(st.rules()[1].display, "r2 [active] [y,z,w] Beta 2: second rule");
    assert_eq!(st.rules()[2].content, "third rule");
    let result = st.finish_with_selection();
    assert_eq!(result.selected_ids, strings(&["r1"]));
    assert_eq!(result.updates.len(), 2);
    assert_eq!((result.updates[0].id.as_str(), result.updates[0].status.as_str()), ("r2", "active"));
    assert_eq!(result.updates[0].tags, strings(&["y", "z", "w"]));
    assert_eq!(result.updates[1].id, "r3");
}

#[test]
fn one_answer_per_window() {
    let mut g = ActionGuard::new();
    let sent = g.send(PickerAction::Cancel);
    assert!(matches!(sent, Some(PickerAction::Cancel)));
    assert!(g.send(PickerAction::Cancel).is_none());
    assert!(g.on_destroy().is_none());
    let mut fresh = ActionGuard::new();
    assert!(matches!(fresh.on_destroy(), Some(PickerAction::Cancel)));
    assert!(fresh.on_destroy().is_none());
    assert!(fresh.send(PickerAction::Cancel).is_none());
}

#[test]
fn refreshed_texts_lower_ascii() {
    let mut it = items().remove(0);
    it.id = "R-1".to_string();
    it.status = "active".to_string();
    it.tags = strings(&["UI", "x"]);
    it.title = "Title".to_string();
    it.content = "Body".to_string();
    refresh_rule_text(&mut it);
    assert_eq!(it.display, "R-1 [active] [UI,x] Title: Body");
    assert_eq!(it.search_text, "r-1 active title body ui,x");
    assert_eq!(it.original_title, "Alpha");
}
