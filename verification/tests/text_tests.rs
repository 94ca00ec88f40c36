use rule_system::cli::{
    app_mode, flag, headless_output, is_truthy, opt, parse_command, parse_options, required,
    run_picker_protocol, split_picker_ids, AppMode, Args, Command, Options, PickerStart,
};
use rule_system::json::parse_tags_json;
use rule_system::layout::{
    check_layout, hiword, item_change, list_view_checked_state, loword, picker_layout, rgb,
    static_text_color, LabelKind,
};
use rule_system::numbers::parse_i64;
use rule_system::ops::rule_id_candidate;
use rule_system::query::search_text;
use rule_system::session::{detect_project_root, now_text, resolve_session_id, sanitize_segment};
use rule_system::status::{default_status, normalize_status, normalize_ui_status};
use rule_system::tags::{normalize_tags, split_batch, split_ids, split_tags, split_ui_tags};
use rule_system::window::{content_preview, PickerOutput};

fn strings(v: &[&str]) -> Vec<String> {
    v.iter().map(|s| s.to_string()).collect()
}

#[test]
fn split_ids_trims_and_drops_empty() {
    assert_eq!(split_ids(" a, b,,c , "), strings(&["a", "b", "c"]));
    assert_eq!(split_ids(""), Vec::<String>::new());
}

#[test]
fn split_tags_hyphenates_and_dedups() {
    assert_eq!(split_tags("foo  bar, baz ,foo bar,"), strings(&["foo-bar", "baz"]));
}

#[test]
fn split_ui_tags_keeps_first_occurrence() {
    assert_eq!(split_ui_tags("a, b, a ,, c"), strings(&["a", "b", "c"]));
}

#[test]
fn normalize_tags_flattens_commas() {
    assert_eq!(normalize_tags(strings(&["a,b", "b", " c ", ""])), strings(&["a", "b", "c"]));
}

#[test]
fn split_batch_cases() {
    assert_eq!(split_batch("a; b ;;c"), strings(&["a", "b", "c"]));
    assert_eq!(split_batch("  only one  "), strings(&["only one"]));
    assert_eq!(split_batch("   "), Vec::<String>::new());
}

#[test]
fn statuses() {
    assert_eq!(normalize_status("  Deprecated "), Ok("deprecated".to_string()));
    assert_eq!(normalize_status(""), Ok("active".to_string()));
    assert_eq!(normalize_status("gone"), Err("status must be one of: active, deprecated".to_string()));
    assert_eq!(normalize_ui_status(" DEPRECATED"), "deprecated");
    assert_eq!(normalize_ui_status("whatever"), "active");
    assert_eq!(default_status(), "active");
}

#[test]
fn sanitize_segment_cases() {
    assert_eq!(sanitize_segment("  my session//1 "), "my-session-1");
    assert_eq!(sanitize_segment("///"), "unknown-session");
    assert_eq!(sanitize_segment("a.b_c-d"), "a.b_c-d");
    let once = sanitize_segment("-x y-");
    assert_eq!(once, "x-y");
    assert_eq!(sanitize_segment(&once), once);
}

#[test]
fn resolve_session_id_order() {
    assert_eq!(resolve_session_id(" abc ", &strings(&["env"])), "abc");
    assert_eq!(resolve_session_id("", &strings(&["  ", "wt 1"])), "wt-1");
    let fallback = resolve_session_id("", &Vec::new());
    assert!(fallback.starts_with("session-"));
    assert!(fallback["session-".len()..].chars().all(|c| c.is_ascii_digit()));
}

#[test]
fn detect_project_root_cases() {
    let anc = strings(&["/a/b", "/a", "/"]);
    assert_eq!(detect_project_root("/a/b", &anc, &vec![false, true, true]), "/a");
    assert_eq!(detect_project_root("/a/b", &anc, &vec![false, false, false]), "/a/b");
}

#[test]
fn search_text_lowercases() {
    let tags = strings(&["X", "y"]);
    assert_eq!(search_text("R1", "Title", "Body", "active", &tags), "r1 active title body x y");
    assert_eq!(search_text("Ä", "", "", "", &Vec::new()), "ä    ");
}

#[test]
fn now_text_is_decimal() {
    let t = now_text();
    assert!(!t.is_empty());
    assert!(t.chars().all(|c| c.is_ascii_digit()));
}

#[test]
fn parse_tags_json_cases() {
    assert_eq!(parse_tags_json("[\"a\",\"b\"]"), strings(&["a", "b"]));
    assert_eq!(parse_tags_json("not json"), Vec::<String>::new());
}

#[test]
fn parse_i64_cases() {
    assert_eq!(parse_i64("42"), Some(42));
    assert_eq!(parse_i64("-7"), Some(-7));
    assert_eq!(parse_i64("+3"), Some(3));
    assert_eq!(parse_i64("9223372036854775808"), None);
    assert_eq!(parse_i64("1x"), None);
}

#[test]
fn rule_id_candidate_wraps() {
    assert_eq!(rule_id_candidate(0x1_0000_0005, 3), "rule-00000008");
    assert_eq!(rule_id_candidate(0xffff_ffff, 1), "rule-00000000");
    assert_eq!(rule_id_candidate(0xab, 0), "rule-000000ab");
}

#[test]
fn content_preview_cases() {
    assert_eq!(content_preview("a\n  b\tc "), "a b c");
    let long = "x".repeat(100);
    let p = content_preview(&long);
    assert_eq!(p.chars().count(), 81);
    assert!(p.ends_with('…'));
    assert_eq!(content_preview(&"y".repeat(80)), "y".repeat(80));
}

#[test]
fn words_and_colors() {
    assert_eq!(loword(0x1234_5678), 0x5678);
    assert_eq!(hiword(0x1234_5678), 0x1234);
    let v: u32 = 0xdead_beef;
    assert_eq!((hiword(v) as u32) * 0x10000 + loword(v) as u32, v);
    assert_eq!(rgb(1, 2, 3), 0x0003_0201);
    assert_eq!(static_text_color(LabelKind::Heading), rgb(18, 34, 58));
    assert_eq!(static_text_color(LabelKind::Hint), rgb(82, 91, 105));
    assert_eq!(static_text_color(LabelKind::Plain), rgb(48, 52, 58));
}

#[test]
fn list_view_state_bits() {
    assert!(list_view_checked_state(0x2000));
    assert!(!list_view_checked_state(0x1000));
    assert!(list_view_checked_state(0x2003));
    let c = item_change(0x8, 0x2000, 0x1000);
    assert!(c.checkbox);
    assert!(!c.focus);
    let f = item_change(0x8, 0x0003, 0x0000);
    assert!(!f.checkbox);
    assert!(f.focus);
    let n = item_change(0x0, 0x2003, 0x1000);
    assert!(!n.checkbox && !n.focus);
}

#[test]
fn check_layout_values() {
    let l = check_layout(1120, 720);
    assert_eq!((l.list.x, l.list.y, l.list.width, l.list.height), (18, 154, 1084, 500));
    assert_eq!((l.search.x, l.search.width), (18, 1084));
    assert_eq!((l.confirm_button.x, l.confirm_button.y, l.confirm_button.width, l.confirm_button.height), (932, 666, 170, 36));
    assert_eq!((l.cancel_button.x, l.cancel_button.y, l.cancel_button.height), (764, 666, 36));
    let small = check_layout(10, 10);
    assert_eq!((small.list.x, small.list.width), (18, 684));
    assert_eq!((small.confirm_button.x, small.confirm_button.y), (532, 466));
}

#[test]
fn picker_layout_values() {
    let l = picker_layout(800, 600);
    assert_eq!((l.list.x, l.list.y, l.list.width, l.list.height), (18, 92, 444, 440));
    assert_eq!((l.content_edit.x, l.content_edit.y, l.content_edit.width, l.content_edit.height), (480, 136, 302, 286));
    assert_eq!((l.cancel_button.x, l.confirm_button.x, l.confirm_button.y), (484, 642, 548));
}

#[test]
fn options_parse_and_read() {
    let o = parse_options(&strings(&["--title", "T", "--json", "--tags", "a", "--title", "U"])).unwrap();
    assert_eq!(opt(&o, "title"), "U");
    assert_eq!(opt(&o, "missing"), "");
    assert!(flag(&o, "json"));
    assert!(!flag(&o, "tags"));
    let listed = parse_options(&strings(&["--summary"])).unwrap();
    assert!(flag(&listed, "summary"));
    let o2 = parse_options(&strings(&["----all"])).unwrap();
    assert!(flag(&o2, "all"));
    assert_eq!(parse_options(&strings(&["x"])).err(), Some("unexpected argument: x".to_string()));
    assert_eq!(parse_options(&strings(&["--title"])).err(), Some("--title requires a value".to_string()));
    let mut o3 = Options::new();
    o3.insert("summary".to_string(), " YES ".to_string());
    assert!(flag(&o3, "summary"));
    assert_eq!(required(&o3, "id"), Err("--id is required".to_string()));
    assert_eq!(required(&o3, "summary"), Ok(" YES ".to_string()));
    assert!(is_truthy(" 1 "));
    assert!(!is_truthy("no"));
}

#[test]
fn command_lines() {
    assert!(parse_command(&Vec::new()).err() == Some("command is required".to_string()));
    assert!(parse_command(&strings(&["nope"])).err() == Some("unknown command: nope".to_string()));
    assert!(parse_command(&strings(&["nope", "bad"])).err() == Some("unexpected argument: bad".to_string()));
    let (c, o) = parse_command(&strings(&["project-list", "--all"])).ok().unwrap();
    assert!(c == Command::ProjectList);
    assert!(flag(&o, "all"));
    assert!(app_mode(&strings(&["--rules", "f"])) == AppMode::Picker);
    assert!(app_mode(&Vec::new()) == AppMode::Help);
    assert!(app_mode(&strings(&["-h"])) == AppMode::Help);
    assert!(app_mode(&strings(&["list"])) == AppMode::Cli);
    assert!(rule_system::cli::help_text().starts_with("Usage: rule-system <command> [options]\n\nCommands:\n  add"));
}

#[test]
fn picker_args() {
    let a = Args::parse(strings(&["--rules", "r.json", "--query", "q"])).ok().unwrap();
    assert_eq!((a.rules_file.as_str(), a.query.as_str()), ("r.json", "q"));
    assert_eq!(Args::parse(Vec::new()).err(), Some("--rules is required".to_string()));
    assert_eq!(Args::parse(strings(&["--rules"])).err(), Some("--rules requires a file path".to_string()));
    assert_eq!(Args::parse(strings(&["--rules", "f", "--query"])).err(), Some("--query requires a value".to_string()));
    assert_eq!(Args::parse(strings(&["-h"])).err(), Some("Usage: rule-system --rules <rules.json> [--query <text>]".to_string()));
    assert_eq!(Args::parse_for("rule-picker-win", &strings(&["--help"])).err(), Some("Usage: rule-picker-win --rules <rules.json> [--query <text>]".to_string()));
    assert_eq!(Args::parse(strings(&["--x"])).err(), Some("Unknown argument: --x".to_string()));
}

#[test]
fn headless_answers() {
    let c = headless_output(Some(" TRUE ".to_string()), Some("a".to_string()), None).unwrap();
    assert!(c.cancelled && c.selected_ids.is_empty());
    let p = headless_output(Some("0".to_string()), Some(" a, b ,".to_string()), None).unwrap();
    assert!(!p.cancelled);
    assert_eq!(p.selected_ids, strings(&["a", "b"]));
    assert!(p.updates.is_empty());
    assert!(headless_output(None, None, None).is_none());
    assert_eq!(split_picker_ids("x,,y"), strings(&["x", "y"]));
    match run_picker_protocol(strings(&["--rules", "f"]), Some(PickerOutput { selected_ids: Vec::new(), updates: Vec::new(), cancelled: true })) {
        Ok(PickerStart::Done(o)) => assert!(o.cancelled),
        _ => panic!("expected a headless answer"),
    }
    match run_picker_protocol(strings(&["--rules", "f", "--query", "k"]), None) {
        Ok(PickerStart::Open(a)) => assert_eq!((a.rules_file.as_str(), a.query.as_str()), ("f", "k")),
        _ => panic!("expected the window"),
    }
    assert!(run_picker_protocol(strings(&["--bad"]), None).is_err());
}

#[test]
fn split_tags_again_is_the_same() {
    let t = split_tags(" a  b ,c\tc, a  b ,,d");
    assert_eq!(t, strings(&["a-b", "c-c", "d"]));
    assert_eq!(split_tags(&t.join(",")), t);
    assert!(t.iter().all(|x| !x.is_empty() && !x.contains(',') && !x.chars().any(char::is_whitespace)));
}

#[test]
fn normalize_tags_again_is_the_same() {
    let n = normalize_tags(strings(&[" x , y", "y,z", ",", "x"]));
    assert_eq!(n, strings(&["x", "y", "z"]));
    assert_eq!(normalize_tags(n.clone()), n);
}

#[test]
fn session_without_allowed_characters_is_unknown() {
    assert_eq!(sanitize_segment("--"), "unknown-session");
    assert_eq!(sanitize_segment(" 会话 "), "unknown-session");
    assert_eq!(sanitize_segment(""), "unknown-session");
    let s = sanitize_segment("-a b-");
    assert_eq!(s, "a-b");
    assert_eq!(sanitize_segment(&s), s);
}
