use rule_system::db::RuleStore;
use rule_system::legacy::{
    legacy_rules_from_payload, normalize_legacy_rule, yaml_get, yaml_i64, yaml_string, yaml_tags,
    LegacyRule, YamlEntry, YamlNode, YamlNumber,
};
use rule_system::payload::{project_summary, session_summary};
use rule_system::store::{Selection, StoredRule};

fn strings(v: &[&str]) -> Vec<String> {
    v.iter().map(|s| s.to_string()).collect()
}

fn is_rule_id(id: &str) -> bool {
    id.len() == 13 && id.starts_with("rule-") && id[5..].chars().all(|c| c.is_ascii_hexdigit() && !c.is_ascii_uppercase())
}

#[test]
fn insert_then_get_reads_back() {
    let mut store = RuleStore::new();
    let rule = store.insert_rule("  Title ", " Body ", "a b, c, a b").ok().unwrap();
    assert!(is_rule_id(&rule.id));
    assert_eq!(rule.title, "Title");
    assert_eq!(rule.content, "Body");
    assert_eq!(rule.status, "active");
    assert_eq!(rule.tags, strings(&["a-b", "c"]));
    assert_eq!(rule.picked_count, 0);
    assert_eq!(rule.created_at, rule.updated_at);
    let got = store.get_rule(&format!("  {}  ", rule.id)).ok().unwrap();
    assert_eq!((got.id, got.title, got.content, got.tags), (rule.id.clone(), rule.title.clone(), rule.content.clone(), rule.tags.clone()));
    assert_eq!(store.rules()[0].tags_json, "[\"a-b\",\"c\"]");
    assert_eq!(store.rules()[0].search_text, format!("{} active title body a-b c", rule.id));
}

#[test]
fn insert_requires_title_and_content() {
    let mut store = RuleStore::new();
    assert_eq!(store.insert_rule("  ", "C", "").err(), Some("title and content are required".to_string()));
    assert!(store.rules().is_empty());
}

#[test]
fn get_missing_rule() {
    let store = RuleStore::new();
    assert_eq!(store.get_rule(" nope ").err(), Some("rule not found: nope".to_string()));
}

#[test]
fn update_and_retire() {
    let mut store = RuleStore::new();
    let rule = store.insert_rule("T", "C", "x").ok().unwrap();
    let u = store.update_db_rule_at(&rule.id, " T2 ", "", None, "", "99").ok().unwrap();
    assert_eq!((u.title.as_str(), u.content.as_str(), u.status.as_str(), u.updated_at.as_str()), ("T2", "C", "active", "99"));
    assert_eq!(u.tags, strings(&["x"]));
    assert_eq!(store.update_db_rule(&rule.id, "", "", None, "bogus").err(), Some("status must be one of: active, deprecated".to_string()));
    assert_eq!(store.update_db_rule("missing", "", "", None, "").err(), Some("rule not found: missing".to_string()));
    let d = store.deprecate_or_delete_rule_at(&rule.id, false, "100").ok().unwrap();
    assert_eq!((d.status.as_str(), d.updated_at.as_str()), ("deprecated", "100"));
    assert_eq!(store.rules().len(), 1);
    let gone = store.deprecate_or_delete_rule(&rule.id, true).ok().unwrap();
    assert_eq!(gone.status, "deprecated");
    assert!(store.rules().is_empty());
    assert!(store.deprecate_or_delete_rule(&rule.id, true).is_err());
}

#[test]
fn select_list_unselect() {
    let mut store = RuleStore::new();
    let a = store.insert_rule("A", "ca", "").ok().unwrap();
    let b = store.insert_rule("B", "cb", "").ok().unwrap();
    let picked = store.select_rules_at("s1", &vec![a.id.clone(), b.id.clone()], false, "10").ok().unwrap();
    assert_eq!(picked.len(), 2);
    assert!(picked.iter().all(|r| r.selected == Some(true)));
    assert_eq!(store.get_rule(&a.id).ok().unwrap().picked_count, 1);
    assert_eq!(store.get_rule(&a.id).ok().unwrap().last_picked_at, "10");
    assert_eq!(store.get_selected_ids("s1").len(), 2);
    assert!(store.get_selected_ids("  ").is_empty());
    let again = store.select_rules_at("s1", &vec![a.id.clone()], true, "11").ok().unwrap();
    assert_eq!(again.len(), 1);
    assert_eq!(store.get_rule(&a.id).ok().unwrap().picked_count, 1);
    assert_eq!(store.select_rules("s1", &strings(&["nope"]), false).err(), Some("rule not found: nope".to_string()));
    let left = store.unselect_rules("s1", &vec![a.id.clone()]);
    assert!(left.is_empty());
    assert!(store.get_selected_ids("s1").is_empty());
}

#[test]
fn duplicate_pick_is_refused() {
    let mut store = RuleStore::new();
    let a = store.insert_rule("A", "ca", "").ok().unwrap();
    let r = store.select_rules_at("s", &vec![a.id.clone(), a.id.clone()], false, "1");
    assert_eq!(r.err(), Some("UNIQUE constraint failed: rule_selections.session_id, rule_selections.rule_id".to_string()));
}

#[test]
fn deprecated_rules_are_not_picked() {
    let mut store = RuleStore::new();
    let a = store.insert_rule("A", "ca", "").ok().unwrap();
    store.deprecate_or_delete_rule(&a.id, false).ok().unwrap();
    let r = store.select_rules("s", &vec![a.id.clone()], false).ok().unwrap();
    assert!(r.is_empty());
    assert!(store.get_selected_ids("s").is_empty());
}

#[test]
fn existing_selection_is_kept() {
    let mut store = RuleStore::new();
    let a = store.insert_rule("A", "ca", "").ok().unwrap();
    assert_eq!(store.select_existing_rule_for_session("s", &a.id), Ok(true));
    assert_eq!(store.select_existing_rule_for_session("s", &a.id), Ok(false));
    assert_eq!(store.get_rule(&a.id).ok().unwrap().picked_count, 1);
}

#[test]
fn hard_delete_drops_selections() {
    let mut store = RuleStore::new();
    let a = store.insert_rule("A", "ca", "").ok().unwrap();
    store.select_rules("s", &vec![a.id.clone()], false).ok().unwrap();
    store.deprecate_or_delete_rule(&a.id, true).ok().unwrap();
    assert!(store.selections().is_empty());
}

#[test]
fn list_rules_filters() {
    let mut store = RuleStore::new();
    let a = store.insert_rule("Alpha", "first", "red").ok().unwrap();
    let b = store.insert_rule("Beta", "second", "blue").ok().unwrap();
    store.deprecate_or_delete_rule(&b.id, false).ok().unwrap();
    assert_eq!(store.list_rules(false, "", "", &Vec::new(), None).len(), 1);
    assert_eq!(store.list_rules(true, "", "", &Vec::new(), None).len(), 2);
    assert_eq!(store.list_rules(true, " blue ", "", &Vec::new(), None)[0].id, b.id);
    assert_eq!(store.list_rules(true, "", " FIRST ", &Vec::new(), None)[0].id, a.id);
    assert_eq!(store.list_rules(true, "", "", &vec![b.id.clone()], None).len(), 1);
    let marked = store.list_rules(true, "", "", &Vec::new(), Some("s"));
    assert!(marked.iter().all(|r| r.selected == Some(false)));
    assert_eq!(store.find_duplicate_rule(" Alpha ", "first "), Some(a.id.clone()));
    assert_eq!(store.find_duplicate_rule("Alpha", "other"), None);
}

#[test]
fn from_rows_checks_constraints() {
    let row = |id: &str, status: &str| StoredRule {
        id: id.to_string(),
        title: "t".to_string(),
        status: status.to_string(),
        created_at: "1".to_string(),
        updated_at: "1".to_string(),
        picked_count: 0,
        last_picked_at: String::new(),
        content: "c".to_string(),
        tags_json: "[]".to_string(),
        search_text: String::new(),
    };
    let sel = |s: &str, r: &str| Selection { session_id: s.to_string(), rule_id: r.to_string(), selected_at: "2".to_string(), updated_at: "2".to_string() };
    let ok = RuleStore::from_rows(vec![row("b", "active"), row("a", "deprecated")], vec![sel("s", "a")]).ok().unwrap();
    assert_eq!(ok.rules()[0].id, "a");
    assert_eq!(ok.list_selected_rules("s", true).len(), 1);
    assert_eq!(ok.list_selected_rules("s", false).len(), 0);
    assert_eq!(RuleStore::from_rows(vec![row("a", "x")], Vec::new()).err(), Some("CHECK constraint failed: status IN ('active', 'deprecated')".to_string()));
    assert_eq!(RuleStore::from_rows(vec![row("a", "active"), row("a", "active")], Vec::new()).err(), Some("UNIQUE constraint failed: rules.id".to_string()));
    assert_eq!(RuleStore::from_rows(vec![row("a", "active")], vec![sel("s", "b")]).err(), Some("FOREIGN KEY constraint failed".to_string()));
}

#[test]
fn summaries() {
    let mut store = RuleStore::new();
    assert_eq!(session_summary(&Vec::new()), "当前会话选用规则 0 条");
    assert_eq!(project_summary(&Vec::new()), "项目规则库 active 规则 0 条");
    let a = store.insert_rule("甲", "x", "").ok().unwrap();
    let b = store.insert_rule("乙", "y", "").ok().unwrap();
    store.deprecate_or_delete_rule(&b.id, false).ok().unwrap();
    let all = store.list_rules(true, "", "", &Vec::new(), None);
    assert_eq!(session_summary(&all), "当前会话选用规则 2 条：甲、乙");
    assert_eq!(project_summary(&all), "项目规则库 active 规则 1 条：甲");
    assert_eq!(rule_system::payload::display_rules(&all), strings(&["x", "y"]));
    let _ = a;
}

fn text(s: &str) -> YamlNode {
    YamlNode::Text(s.to_string())
}

fn entry(k: &str, v: YamlNode) -> YamlEntry {
    YamlEntry { key: text(k), value: v }
}

fn legacy_mapping() -> YamlNode {
    YamlNode::Mapping(vec![
        entry("title", text("  Old rule ")),
        entry("content", text("Do things")),
        entry("status", text("DEPRECATED")),
        entry("tags", YamlNode::Sequence(vec![text("a,b"), YamlNode::Number(YamlNumber { text: "7".to_string(), as_i64: Some(7) }), YamlNode::Bool(true)])),
        entry("picked_count", text(" 12 ")),
        entry("id", YamlNode::Number(YamlNumber { text: "3".to_string(), as_i64: Some(3) })),
        entry("created_at", text("")),
    ])
}

#[test]
fn yaml_fields() {
    let m = legacy_mapping();
    assert!(yaml_get(&m, "title").is_some());
    assert!(yaml_get(&YamlNode::Tagged(Box::new(legacy_mapping())), "title").is_some());
    assert!(yaml_get(&text("x"), "title").is_none());
    assert_eq!(yaml_string(&m, "title"), "Old rule");
    assert_eq!(yaml_string(&m, "id"), "3");
    assert_eq!(yaml_string(&m, "missing"), "");
    assert_eq!(yaml_i64(&m, "picked_count"), 12);
    assert_eq!(yaml_i64(&YamlNode::Mapping(vec![entry("n", YamlNode::Number(YamlNumber { text: "-4".to_string(), as_i64: Some(-4) }))]), "n"), 0);
    assert_eq!(yaml_tags(&m), strings(&["a", "b", "7"]));
    assert_eq!(yaml_tags(&YamlNode::Mapping(vec![entry("tags", text("x y, z"))])), strings(&["x-y", "z"]));
}

#[test]
fn legacy_rule_normalized() {
    let l = normalize_legacy_rule(&legacy_mapping(), "/src/rules.yaml", Some("s1".to_string())).unwrap();
    assert_eq!((l.title.as_str(), l.content.as_str(), l.status.as_str()), ("Old rule", "Do things", "deprecated"));
    assert_eq!(l.picked_count, 12);
    assert_eq!(l.legacy_id, "3");
    assert_eq!(l.session_id, Some("s1".to_string()));
    assert!(normalize_legacy_rule(&text("x"), "/f", None).is_none());
    assert!(normalize_legacy_rule(&YamlNode::Mapping(vec![entry("title", text("t"))]), "/f", None).is_none());
    let unknown = YamlNode::Mapping(vec![entry("title", text("t")), entry("content", text("c")), entry("status", text("weird"))]);
    assert_eq!(normalize_legacy_rule(&unknown, "/f", None).unwrap().status, "active");
}

#[test]
fn legacy_payload_shapes() {
    let under = YamlNode::Mapping(vec![entry("rules", YamlNode::Sequence(vec![legacy_mapping(), text("skip")]))]);
    assert_eq!(legacy_rules_from_payload(&under, "/f", None).len(), 1);
    let top = YamlNode::Sequence(vec![legacy_mapping(), legacy_mapping()]);
    assert_eq!(legacy_rules_from_payload(&top, "/f", None).len(), 2);
    assert!(legacy_rules_from_payload(&text("x"), "/f", None).is_empty());
}

fn legacy(title: &str, session: Option<&str>) -> LegacyRule {
    LegacyRule {
        title: title.to_string(),
        content: "content".to_string(),
        status: "active".to_string(),
        tags: strings(&["t"]),
        created_at: "5".to_string(),
        updated_at: String::new(),
        picked_count: 3,
        last_picked_at: String::new(),
        legacy_id: "old".to_string(),
        source_file: "/src/rules.yaml".to_string(),
        session_id: session.map(|s| s.to_string()),
    }
}

#[test]
fn import_twice_adds_once() {
    let mut store = RuleStore::new();
    let l = legacy("Legacy", None);
    let (first, fresh) = store.insert_legacy_rule(&l).ok().unwrap();
    assert!(fresh);
    assert_eq!((first.created_at.as_str(), first.updated_at.as_str(), first.picked_count), ("5", "5", 3));
    let (second, fresh2) = store.insert_legacy_rule(&l).ok().unwrap();
    assert!(!fresh2);
    assert_eq!(second.id, first.id);
    assert_eq!(store.rules().len(), 1);
}

#[test]
fn import_bad_status_refused() {
    let mut store = RuleStore::new();
    let mut l = legacy("Legacy", None);
    l.status = "weird".to_string();
    assert_eq!(store.insert_legacy_rule(&l).err(), Some("CHECK constraint failed: status IN ('active', 'deprecated')".to_string()));
    let mut l2 = legacy("Now", None);
    l2.created_at = "  ".to_string();
    let (r, _) = store.insert_legacy_rule_at(&l2, "77").ok().unwrap();
    assert_eq!((r.created_at.as_str(), r.updated_at.as_str()), ("77", "77"));
}

#[test]
fn replacing_selection_drops_deprecated_rules() {
    let mut store = RuleStore::new();
    let a = store.insert_rule("A", "ca", "").ok().unwrap();
    let b = store.insert_rule("B", "cb", "").ok().unwrap();
    store.select_rules("s", &vec![a.id.clone(), b.id.clone()], false).ok().unwrap();
    store.deprecate_or_delete_rule(&a.id, false).ok().unwrap();
    let r = store.select_rules("s", &vec![a.id.clone(), b.id.clone()], true).ok().unwrap();
    assert_eq!(r.len(), 1);
    assert_eq!(r[0].id, b.id);
    assert_eq!(store.get_selected_ids("s"), vec![b.id.clone()]);
}

#[test]
fn second_identical_selection_changes_nothing() {
    let mut store = RuleStore::new();
    let a = store.insert_rule("A", "ca", "").ok().unwrap();
    let b = store.insert_rule("B", "cb", "").ok().unwrap();
    let ids = vec![a.id.clone(), b.id.clone()];
    store.select_rules("s", &ids, false).ok().unwrap();
    store.select_rules("s", &ids, false).ok().unwrap();
    let mut sel = store.get_selected_ids("s");
    sel.sort();
    let mut want = ids.clone();
    want.sort();
    assert_eq!(sel, want);
    assert_eq!(store.get_rule(&a.id).ok().unwrap().picked_count, 1);
    assert_eq!(store.get_rule(&b.id).ok().unwrap().picked_count, 1);
}

#[test]
fn inserted_tags_are_split() {
    let mut store = RuleStore::new();
    let r = store.insert_rule("T", "C", " a b , c,a, ").ok().unwrap();
    assert_eq!(r.tags, strings(&["a-b", "c", "a"]));
}

#[test]
fn first_free_candidate_skips_taken_ids() {
    let mut store = RuleStore::new();
    assert_eq!(store.first_free_candidate(&vec![0x1234]), Some("rule-00001234".to_string()));
    assert_eq!(store.first_free_candidate(&Vec::new()), None);
    let r = store.insert_rule("T", "C", "").ok().unwrap();
    let taken = u128::from_str_radix(&r.id[5..], 16).unwrap();
    assert_eq!(store.first_free_candidate(&vec![taken]), None);
    let next = format!("rule-{:08x}", (taken + 1) & 0xffff_ffff);
    assert_eq!(store.first_free_candidate(&vec![taken, taken]), Some(next));
}

#[test]
fn update_and_deprecate_report_tags() {
    let mut store = RuleStore::new();
    let rule = store.insert_rule("T", "C", "a, b").ok().unwrap();
    let u = store.update_db_rule_at(&rule.id, "", "", Some(strings(&["z", "y"])), "", "7").ok().unwrap();
    assert_eq!(u.tags, strings(&["z", "y"]));
    let d = store.deprecate_or_delete_rule_at(&format!(" {} ", rule.id), false, "8").ok().unwrap();
    assert_eq!(d.tags, strings(&["z", "y"]));
    assert_eq!(d.status, "deprecated");
}

#[test]
fn blank_query_lists_every_rule() {
    let mut store = RuleStore::new();
    store.insert_rule("Alpha", "first", "").ok().unwrap();
    store.insert_rule("Beta", "second", "").ok().unwrap();
    assert_eq!(store.list_rules(true, "", "   ", &Vec::new(), None).len(), 2);
    let hit = store.list_rules(true, "", " ALPHA ", &Vec::new(), None);
    assert_eq!(hit.len(), 1);
    assert_eq!(hit[0].title, "Alpha");
}

#[test]
fn legacy_rules_read_from_yaml_text() {
    let text = "rules:\n  - id: old-1\n    title: T\n    content: C\n    status: deprecated\n    tags: [a, 2]\n    picked_count: 4\n  - title: only title\n";
    let rules = rule_system::legacy::legacy_rules_from_text(text, "/p/rules.yaml", Some("s1".to_string())).ok().unwrap();
    assert_eq!(rules.len(), 1);
    let r = &rules[0];
    assert_eq!((r.title.as_str(), r.content.as_str(), r.status.as_str(), r.legacy_id.as_str()), ("T", "C", "deprecated", "old-1"));
    assert_eq!(r.tags, strings(&["a", "2"]));
    assert_eq!(r.picked_count, 4);
    assert_eq!((r.source_file.as_str(), r.session_id.as_deref()), ("/p/rules.yaml", Some("s1")));
    assert!(rule_system::legacy::legacy_rules_from_text("rules: [unclosed", "/p/x.yaml", None).is_err());
    let bare = rule_system::legacy::legacy_rules_from_text("- title: A\n  content: B\n", "/p/y.yaml", None).ok().unwrap();
    assert_eq!(bare.len(), 1);
}

#[test]
fn stored_tags_are_json_text() {
    let mut store = RuleStore::new();
    store.insert_rule_at("rule-00000001", "T", "C", &strings(&["a\"b", "c\\d", "e\tf", "\u{1}", "中"]), "active", "1", "1", 0, "");
    assert_eq!(store.rules()[0].tags_json, "[\"a\\\"b\",\"c\\\\d\",\"e\\tf\",\"\\u0001\",\"中\"]");
    store.insert_rule_at("rule-00000002", "U", "D", &Vec::new(), "active", "2", "2", 0, "");
    assert_eq!(store.rules()[1].tags_json, "[]");
}
