use rule_system::cli::Options;
use rule_system::commands::{
    add_scope_check, cli_add, cli_delete, cli_list, cli_project_delete, cli_project_list,
    cli_project_update, cli_update,
};
use rule_system::db::RuleStore;
use rule_system::legacy::LegacyRule;
use rule_system::picking::{cli_pick, finish_pick, PickStep};
use rule_system::scan::{cli_scan, drop_under_root, keep_outside};
use rule_system::window::{PickerAction, PickerResult, PickerUpdate};

fn strings(v: &[&str]) -> Vec<String> {
    v.iter().map(|s| s.to_string()).collect()
}

fn options(pairs: &[(&str, &str)]) -> Options {
    let mut o = Options::new();
    for (k, v) in pairs {
        o.insert(k.to_string(), v.to_string());
    }
    o
}

fn env() -> Vec<String> {
    strings(&["thread-1"])
}

#[test]
fn add_single_and_batch() {
    let mut store = RuleStore::new();
    let p = cli_add(&mut store, &options(&[("title", "One"), ("content", "first"), ("tags", "t")])).ok().unwrap();
    assert_eq!(p.action, "add");
    assert_eq!(p.message, "project rule added");
    assert_eq!(p.changed_rules.len(), 1);
    assert!(p.changed_rule.is_some());
    assert_eq!(p.rules.len(), 1);
    assert_eq!(p.active_rule_count, 1);
    assert_eq!(p.summary, "项目规则库 active 规则 1 条：One");
    let id = p.changed_rules[0].id.clone();
    assert_eq!(p.display_rules, vec![format!("{} [active] t One: first", id)]);
    let b = cli_add(&mut store, &options(&[("title", "A; B"), ("content", "ca;cb")])).ok().unwrap();
    assert_eq!(b.action, "add-batch");
    assert_eq!(b.changed_rules.len(), 2);
    assert!(b.changed_rule.is_none());
    assert_eq!(b.rules.len(), 3);
}

#[test]
fn add_refusals() {
    let mut store = RuleStore::new();
    let retired = "scope=session is retired in v0.3; use project-level rules and rule-check selection".to_string();
    assert_eq!(cli_add(&mut store, &options(&[("scope", "session"), ("title", "t"), ("content", "c")])).err(), Some(retired.clone()));
    assert_eq!(add_scope_check(&options(&[("scope", "session")])), Err(retired));
    assert!(add_scope_check(&options(&[("scope", "project")])).is_ok());
    assert_eq!(cli_add(&mut store, &options(&[("content", "c")])).err(), Some("--title is required".to_string()));
    assert_eq!(cli_add(&mut store, &options(&[("title", "t")])).err(), Some("--content is required".to_string()));
    assert_eq!(
        cli_add(&mut store, &options(&[("title", "a;b"), ("content", "c")])).err(),
        Some("batch add requires the same number of title/content segments when using English semicolon `;`".to_string())
    );
    assert!(store.rules().is_empty());
}

#[test]
fn pick_then_list_then_delete() {
    let mut store = RuleStore::new();
    cli_add(&mut store, &options(&[("title", "A;B"), ("content", "ca;cb"), ("tags", "x")])).ok().unwrap();
    let step = cli_pick(&mut store, &options(&[("tag", "x")]), &env(), false).ok().unwrap();
    let p = match step {
        PickStep::Done(p) => p,
        _ => panic!("expected a finished pick"),
    };
    assert_eq!(p.action, "pick");
    assert_eq!(p.session_id, "thread-1");
    assert_eq!(p.selected_count, 2);
    assert_eq!(p.message, "project rules selected for current session");
    let sp = p.session_payload.unwrap();
    assert!(sp.summary == "当前会话选用规则 2 条：A、B" || sp.summary == "当前会话选用规则 2 条：B、A");
    let mut titles = sp.rule_titles.clone();
    titles.sort();
    assert_eq!(titles, strings(&["A", "B"]));

    let listed = cli_list(&store, &options(&[]), &env());
    assert!(!listed.summary_only);
    assert_eq!(listed.payload.action, "list");
    let mut shown = listed.payload.display_rules.clone();
    shown.sort();
    assert_eq!(shown, strings(&["ca", "cb"]));
    let summary = cli_list(&store, &options(&[("summary", "true")]), &env());
    assert!(summary.summary_only);
    assert_eq!(summary.payload.action, "summary");

    let a_id = listed.payload.rules[0].id.clone();
    let d = cli_delete(&mut store, &options(&[("id", a_id.as_str())]), &env()).ok().unwrap();
    assert_eq!(d.action, "unselect");
    assert_eq!(d.changed_rules.len(), 1);
    assert_eq!(d.rules.len(), 1);
    assert_eq!(cli_delete(&mut store, &options(&[("id", "nope")]), &env()).err(), Some("selected rule not found in current session: nope".to_string()));
    let all = cli_delete(&mut store, &options(&[]), &env()).ok().unwrap();
    assert_eq!(all.action, "unselect-all");
    assert_eq!(all.changed_rules.len(), 1);
    assert!(all.rules.is_empty());
}

#[test]
fn pick_without_match() {
    let mut store = RuleStore::new();
    assert_eq!(cli_pick(&mut store, &options(&[]), &env(), false).err(), Some("no active project rules matched".to_string()));
}

#[test]
fn update_only_selected_rules() {
    let mut store = RuleStore::new();
    let p = cli_add(&mut store, &options(&[("title", "A"), ("content", "ca")])).ok().unwrap();
    let id = p.changed_rules[0].id.clone();
    assert_eq!(cli_update(&mut store, &options(&[("id", id.as_str()), ("title", "A2")]), &env()).err(), Some(format!("selected rule not found in current session: {}", id)));
    assert_eq!(cli_update(&mut store, &options(&[]), &env()).err(), Some("--id is required".to_string()));
    store.select_rules("thread-1", &vec![id.clone()], false).ok().unwrap();
    let u = cli_update(&mut store, &options(&[("id", id.as_str()), ("title", "A2")]), &env()).ok().unwrap();
    assert_eq!(u.action, "update");
    assert_eq!(u.changed_rule.unwrap().title, "A2");
    assert_eq!(u.message, "selected project rule updated");
}

#[test]
fn project_list_update_delete() {
    let mut store = RuleStore::new();
    let p = cli_add(&mut store, &options(&[("title", "Alpha;Beta"), ("content", "a;b")])).ok().unwrap();
    let id = p.changed_rules[0].id.clone();
    let l = cli_project_list(&store, &options(&[("query", "alp")]));
    assert_eq!(l.action, "list");
    assert_eq!(l.session_id, "");
    assert_eq!(l.rules.len(), 2);
    assert_eq!(l.selected_count, 1);
    assert_eq!(l.rules[0].selected, None);
    let ls = cli_project_list(&store, &options(&[("session-id", " my s ")]));
    assert_eq!(ls.session_id, "my-s");
    assert_eq!(ls.rules[0].selected, Some(false));
    let u = cli_project_update(&mut store, &options(&[("id", id.as_str()), ("tags", "q r, s"), ("status", "deprecated")])).ok().unwrap();
    let changed = u.changed_rule.unwrap();
    assert_eq!(changed.tags, strings(&["q-r", "s"]));
    assert_eq!(changed.status, "deprecated");
    assert_eq!(u.active_rule_count, 1);
    assert_eq!(cli_project_update(&mut store, &options(&[("id", "x"), ("status", "nope")])).err(), Some("rule not found: x".to_string()));
    let d = cli_project_delete(&mut store, &options(&[("id", id.as_str()), ("hard", "1")])).ok().unwrap();
    assert_eq!((d.action.as_str(), d.message.as_str()), ("delete-hard", "project rule hard deleted"));
    assert_eq!(d.rules.len(), 1);
    let d2 = cli_project_delete(&mut store, &options(&[("id", d.rules[0].id.as_str())])).ok().unwrap();
    assert_eq!((d2.action.as_str(), d2.message.as_str()), ("delete", "project rule deprecated"));
    assert_eq!(cli_project_delete(&mut store, &options(&[])).err(), Some("--id is required".to_string()));
}

#[test]
fn checklist_round_trip() {
    let mut store = RuleStore::new();
    let p = cli_add(&mut store, &options(&[("title", "A;B"), ("content", "ca;cb")])).ok().unwrap();
    let a = p.changed_rules[0].id.clone();
    let b = p.changed_rules[1].id.clone();
    let step = cli_pick(&mut store, &options(&[("ids", a.as_str()), ("query", "zz")]), &env(), true).ok().unwrap();
    let (session, visible, query) = match step {
        PickStep::Window { session_id, visible, query } => (session_id, visible, query),
        _ => panic!("expected the checklist"),
    };
    assert_eq!((session.as_str(), query.as_str()), ("thread-1", "zz"));
    assert_eq!(visible.len(), 1);
    let update = PickerUpdate { id: a.clone(), title: "A!".to_string(), content: "ca".to_string(), tags: strings(&["n"]), status: "active".to_string() };
    let action = PickerAction::Pick(PickerResult { selected_ids: vec![a.clone(), b.clone()], updates: vec![update] });
    let done = finish_pick(&mut store, &session, &visible, action).ok().unwrap();
    assert_eq!(done.action, "pick-ui");
    assert_eq!(done.changed_rules.len(), 1);
    assert_eq!(done.changed_rules[0].title, "A!");
    assert_eq!(done.selected_count, 1);
    assert_eq!(done.selected_rules[0].id, a);
    let outside = PickerUpdate { id: b.clone(), title: "x".to_string(), content: "y".to_string(), tags: Vec::new(), status: "active".to_string() };
    let bad = finish_pick(&mut store, &session, &visible, PickerAction::Pick(PickerResult { selected_ids: Vec::new(), updates: vec![outside] }));
    assert_eq!(bad.err(), Some(format!("rule picker returned update outside visible rule set: {}", b)));
    let cancel = finish_pick(&mut store, &session, &visible, PickerAction::Cancel).ok().unwrap();
    assert_eq!((cancel.action.as_str(), cancel.message.as_str()), ("pick-ui-cancel", "rule picker cancelled"));
    assert_eq!(cancel.selected_count, 0);
}

fn legacy(title: &str, session: Option<&str>, source: &str) -> LegacyRule {
    LegacyRule {
        title: title.to_string(),
        content: "content".to_string(),
        status: "active".to_string(),
        tags: Vec::new(),
        created_at: "5".to_string(),
        updated_at: "6".to_string(),
        picked_count: 0,
        last_picked_at: String::new(),
        legacy_id: "old".to_string(),
        source_file: source.to_string(),
        session_id: session.map(|s| s.to_string()),
    }
}

#[test]
fn scan_imports_and_restores() {
    let mut store = RuleStore::new();
    let rules = vec![
        legacy("P", None, "/p/.codex/project-rules/rules.yaml"),
        legacy("S", Some("old-s"), "/p/.codex/session-rules/old-s/rules.yaml"),
        legacy("P", Some("old-s"), "/p/.codex/session-rules/old-s/rules.yaml"),
    ];
    let p = cli_scan(&mut store, &rules).ok().unwrap();
    assert_eq!((p.scanned_count, p.imported_count, p.reused_count, p.restored_selection_count), (3, 2, 1, 2));
    assert_eq!(p.restored_sessions, strings(&["old-s"]));
    assert_eq!(p.project.action, "scan");
    assert_eq!(p.project.message, "legacy YAML rules scanned into SQLite");
    assert_eq!(store.get_selected_ids("old-s").len(), 2);
    let again = cli_scan(&mut store, &rules).ok().unwrap();
    assert_eq!((again.imported_count, again.reused_count, again.restored_selection_count), (0, 3, 0));
}

#[test]
fn scan_sources_outside_rules_root() {
    let rules = vec![
        legacy("A", None, "/p/.codex/project-rules/rules.yaml"),
        legacy("B", None, "/p/.codex-rules/old/rules.yaml"),
    ];
    let kept = keep_outside(&rules, &vec![false, true]);
    assert_eq!(kept.len(), 1);
    assert_eq!(kept[0].title, "A");
    let filtered = drop_under_root(&rules, "/p/.codex-rules");
    assert_eq!(filtered.len(), 1);
    assert_eq!(filtered[0].title, "A");
}

#[test]
fn checklist_opens_even_without_rules() {
    let mut store = RuleStore::new();
    match cli_pick(&mut store, &options(&[]), &env(), true).ok().unwrap() {
        PickStep::Window { visible, .. } => assert!(visible.is_empty()),
        _ => panic!("expected the checklist"),
    }
}

#[test]
fn chinese_semicolon_is_text() {
    let mut store = RuleStore::new();
    let p = cli_add(&mut store, &options(&[("title", "甲；乙"), ("content", "内容；更多")])).ok().unwrap();
    assert_eq!(p.action, "add");
    assert_eq!(p.changed_rules[0].title, "甲；乙");
    assert_eq!(rule_system::tags::split_batch("甲；乙"), vec!["甲；乙".to_string()]);
}

#[test]
fn add_needs_a_segment() {
    let mut store = RuleStore::new();
    assert_eq!(
        cli_add(&mut store, &options(&[("title", ";"), ("content", ";")])).err(),
        Some("title and content must each hold at least one non-empty segment".to_string())
    );
    assert!(store.rules().is_empty());
}

#[test]
fn update_needs_title_or_content() {
    let mut store = RuleStore::new();
    let p = cli_add(&mut store, &options(&[("title", "A"), ("content", "ca")])).ok().unwrap();
    let id = p.changed_rules[0].id.clone();
    store.select_rules("thread-1", &vec![id.clone()], false).ok().unwrap();
    let before = store.get_rule(&id).ok().unwrap().updated_at;
    assert_eq!(
        cli_update(&mut store, &options(&[("id", id.as_str()), ("title", "  ")]), &env()).err(),
        Some("--title or --content is required".to_string())
    );
    assert_eq!(store.get_rule(&id).ok().unwrap().updated_at, before);
}

#[test]
fn deprecated_legacy_rule_restores_nothing() {
    let mut store = RuleStore::new();
    let first = vec![legacy("P", None, "/p/.codex/project-rules/rules.yaml")];
    cli_scan(&mut store, &first).ok().unwrap();
    let mut old = legacy("P", Some("old-s"), "/p/.codex/session-rules/old-s/rules.yaml");
    old.status = "deprecated".to_string();
    let p = cli_scan(&mut store, &vec![old]).ok().unwrap();
    assert_eq!((p.reused_count, p.restored_selection_count), (1, 0));
    assert!(p.restored_sessions.is_empty());
    assert!(store.get_selected_ids("old-s").is_empty());
}

#[test]
fn rules_root_and_its_files_are_dropped() {
    let rules = vec![
        legacy("A", None, "proj/.codex-rules/rules.yaml"),
        legacy("B", None, "proj/.codex-rules"),
        legacy("C", None, "proj/.codex/project-rules/rules.yaml"),
        legacy("D", None, "proj/.codex-rules-old/rules.yaml"),
    ];
    let kept = drop_under_root(&rules, "proj/.codex-rules");
    assert_eq!(kept.len(), 2);
    assert_eq!((kept[0].title.as_str(), kept[1].title.as_str()), ("C", "D"));
}
