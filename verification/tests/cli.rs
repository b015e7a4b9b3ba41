use ix::cli::{
    auto_provider, build_index, check_do_usage, diff_indexes, do_outcome, expand_do, flags_from,
    output_format_from, render_output, resolve_args, split_do, AutoProvider, OutputFormat,
};
use ix::error::IxError;
use ix::index::Index;
use ix::item::{assign_slots, Category, Item};
use ix::lines::line_items;

fn items3() -> Vec<Item> {
    vec![Item::new(1, "a.rs", "a.rs"), Item::new(2, "b c.rs", "b c.rs"), Item::new(3, "c.rs", "c.rs")]
}

fn strings(v: &[&str]) -> Vec<String> {
    v.iter().map(|s| s.to_string()).collect()
}

#[test]
fn output_format_precedence() {
    assert!(matches!(output_format_from(true, true, true, true, &Some("x".into())), OutputFormat::Null));
    assert!(matches!(output_format_from(false, true, true, false, &None), OutputFormat::Newline));
    assert!(matches!(output_format_from(false, false, true, true, &None), OutputFormat::Paste));
    assert!(matches!(output_format_from(false, false, false, true, &Some("x".into())), OutputFormat::Json));
    match output_format_from(false, false, false, false, &Some("{}\n".into())) {
        OutputFormat::Template(t) => assert_eq!(t, "{}\n"),
        _ => panic!("expected a template"),
    }
    assert!(matches!(output_format_from(false, false, false, false, &None), OutputFormat::Space));
}

#[test]
fn output_in_each_format() {
    let items = items3();
    assert_eq!(render_output(&items, &OutputFormat::Space).unwrap(), "a.rs b c.rs c.rs");
    assert_eq!(render_output(&items, &OutputFormat::Null).unwrap(), "a.rs\0b c.rs\0c.rs\0");
    assert_eq!(render_output(&items, &OutputFormat::Newline).unwrap(), "a.rs\nb c.rs\nc.rs");
    assert_eq!(
        render_output(&items, &OutputFormat::Paste).unwrap(),
        "\"a.rs\",\n\"b c.rs\",\n\"c.rs\""
    );
    assert_eq!(
        render_output(&items, &OutputFormat::Template("<{}>{}\n".into())).unwrap(),
        "<a.rs>a.rs\n<b c.rs>b c.rs\n<c.rs>c.rs\n"
    );
    assert!(render_output(&items, &OutputFormat::Json).is_none());
    assert_eq!(render_output(&[], &OutputFormat::Space).unwrap(), "");
}

#[test]
fn flags_keep_set_names_in_order() {
    let f = flags_from(&[("hidden", true), ("a", false), ("all", true), ("A", true)]);
    assert_eq!(f, vec!["hidden", "all", "A"]);
    assert!(flags_from(&[("x", false)]).is_empty());
}

#[test]
fn resolve_args_clones_named_items() {
    let index = Index::new("t", items3());
    let got = resolve_args(&strings(&["3", "1"]), &index).unwrap();
    let raws: Vec<&str> = got.iter().map(|i| i.raw.as_str()).collect();
    assert_eq!(raws, vec!["c.rs", "a.rs"]);
    let range = resolve_args(&strings(&["1-3"]), &index).unwrap();
    assert_eq!(range.len(), 3);
    match resolve_args(&strings(&["4"]), &index) {
        Err(IxError::SlotOutOfRange(4, 3)) => {}
        _ => panic!("expected slot 4 out of range"),
    }
    match resolve_args(&strings(&["x"]), &index) {
        Err(IxError::ParseError(_)) => {}
        _ => panic!("expected a parse error"),
    }
}

#[test]
fn do_is_split_at_first_do() {
    let (slots, cmd) = split_do(&strings(&["ix", "1-2", "do", "echo", "do", "{}"])).unwrap();
    assert_eq!(slots, vec!["1-2"]);
    assert_eq!(cmd, vec!["echo", "do", "{}"]);
    assert!(split_do(&strings(&["ix", "1", "2"])).is_none());
    assert!(split_do(&strings(&["do"])).is_none());
    let (s, c) = split_do(&strings(&["ix", "do"])).unwrap();
    assert!(s.is_empty() && c.is_empty());
}

#[test]
fn do_usage_needs_slots_and_command() {
    assert!(check_do_usage(&strings(&["1"]), &strings(&["echo"])).is_ok());
    match check_do_usage(&[], &strings(&["echo"])) {
        Err(IxError::Other(m)) => assert_eq!(m, "usage: ix <slots> do <command...>"),
        _ => panic!("expected usage error"),
    }
    assert!(check_do_usage(&strings(&["1"]), &[]).is_err());
}

#[test]
fn do_expands_braces_per_item() {
    let items = items3();
    let cmds = expand_do(&strings(&["echo", "FOUND:{}", "{}"]), &items[..2]);
    assert_eq!(cmds, vec!["echo FOUND:a.rs a.rs", "echo FOUND:b c.rs b c.rs"]);
}

#[test]
fn diff_reports_added_and_removed() {
    let prev = Index::new("t", vec![Item::new(1, "x.rs", "x label"), Item::new(2, "y.rs", "y label")]);
    let cur = Index::new(
        "t",
        vec![Item::new(1, "x.rs", "x"), Item::new(2, "z.rs", "z label"), Item::new(3, "z.rs", "z again")],
    );
    let ch = diff_indexes(&cur, &prev);
    assert_eq!(ch.removed, vec!["y label"]);
    assert_eq!(ch.added, vec!["z label"]);
    let same = diff_indexes(&prev, &prev);
    assert!(same.removed.is_empty() && same.added.is_empty());
}

#[test]
fn index_is_grouped_then_numbered() {
    let items = vec![
        Item::new(0, "a", "a").with_group("unstaged"),
        Item::new(0, "b", "b").with_group("staged"),
        Item::new(0, "c", "c").with_group("unstaged"),
    ];
    let index = build_index("git-status", items, None).unwrap();
    assert_eq!(index.provider, "git-status");
    let view: Vec<(usize, &str)> = index.items.iter().map(|i| (i.slot, i.raw.as_str())).collect();
    assert_eq!(view, vec![(1, "a"), (2, "c"), (3, "b")]);
}

#[test]
fn glob_filter_narrows_and_renumbers() {
    let items = vec![
        Item::new(0, "/p/a.rs", "a.rs"),
        Item::new(0, "/p/b.txt", "b.txt"),
        Item::new(0, "/p/c.rs", "c.rs"),
    ];
    let index = build_index("ls", items, Some("*.rs")).unwrap();
    let view: Vec<(usize, &str)> = index.items.iter().map(|i| (i.slot, i.label.as_str())).collect();
    assert_eq!(view, vec![(1, "a.rs"), (2, "c.rs")]);
}

#[test]
fn bad_glob_is_refused() {
    match build_index("ls", vec![Item::new(0, "a", "a")], Some("[")) {
        Err(IxError::Other(m)) => assert_eq!(m, "Invalid glob pattern: ["),
        _ => panic!("expected an invalid pattern"),
    }
}

#[test]
fn auto_detection_prefers_git() {
    assert_eq!(auto_provider(true), AutoProvider::GitStatus);
    assert_eq!(auto_provider(false), AutoProvider::Files);
}

#[test]
fn assign_slots_numbers_from_one() {
    let items = assign_slots(vec![Item::new(7, "a", "a"), Item::new(9, "b", "b").with_status("M", Category::Warning)]);
    assert_eq!(items[0].slot, 1);
    assert_eq!(items[1].slot, 2);
    assert_eq!(items[1].status.as_ref().unwrap().as_str(), "M");
}

#[test]
fn test_stdin_provider_auto_detect_and_negative_selection() {
    let lines: Vec<String> = "apple\nbanana\ncherry\ndate".lines().map(String::from).collect();
    let index = Index::new("stdin", line_items(&lines));
    let got = resolve_args(&strings(&["1-4", "^2", "^4"]), &index).unwrap();
    let out = render_output(&got, &OutputFormat::Space).unwrap();
    assert_eq!(out.trim(), "apple cherry");
}

#[test]
fn do_stops_at_first_failure() {
    assert_eq!(do_outcome(&[]), None);
    assert_eq!(do_outcome(&[true, true]), None);
    assert_eq!(do_outcome(&[true, false]), Some(1));
    assert_eq!(do_outcome(&[false, true, false]), Some(0));
}
