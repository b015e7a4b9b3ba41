use ix::display::{pad_status, render_index};
use ix::index::Index;
use ix::item::{Category, Item};
use ix::theme::StatusTheme;

fn plain(s: &str) -> String {
    // Strip ANSI escape sequences: ESC [ ... m
    let mut out = String::new();
    let mut chars = s.chars().peekable();
    while let Some(c) = chars.next() {
        if c == '\x1b' {
            for d in chars.by_ref() {
                if d == 'm' {
                    break;
                }
            }
        } else {
            out.push(c);
        }
    }
    out
}

#[test]
fn status_padded_to_seven() {
    assert_eq!(pad_status("M"), "M      ");
    assert_eq!(pad_status(""), "       ");
    assert_eq!(pad_status("running"), "running");
    assert_eq!(pad_status("sleeping"), "sleep  ");
    assert_eq!(pad_status("untracked"), "untra  ");
    for s in ["", "M", "running", "sleeping", "untracked"] {
        assert_eq!(pad_status(s).chars().count(), 7);
    }
}

#[test]
fn empty_index_shows_notice() {
    let out = render_index(&Index::new("x", vec![]), &StatusTheme::default());
    assert_eq!(out, "  \x1b[2m(nothing to show)\x1b[22m\n");
}

#[test]
fn index_lines_grouped_with_padded_slots() {
    let mut items = Vec::new();
    for n in 1..=10 {
        let it = Item::new(n, &format!("/p/f{n}"), &format!("f{n}"));
        let it = if n == 1 { it.with_status("M", Category::Warning).with_group("unstaged") } else { it.with_group("untracked") };
        items.push(it);
    }
    let out = render_index(&Index::new("git-status", items), &StatusTheme::default());
    let text = plain(&out);
    let lines: Vec<&str> = text.split('\n').collect();
    assert_eq!(lines[0], "");
    assert_eq!(lines[1], "  unstaged");
    assert_eq!(lines[2], "  [ 1] M        f1");
    assert_eq!(lines[3], "");
    assert_eq!(lines[4], "  untracked");
    assert_eq!(lines[5], "  [ 2]          f2");
    assert_eq!(lines[13], "  [10]          f10");
    assert!(out.contains("\x1b[1m[ 1]\x1b[22m"));
    assert!(out.contains("\x1b[3m\x1b[2munstaged\x1b[22m\x1b[23m"));
    assert!(out.ends_with("f10\n\n"));
}

#[test]
fn ungrouped_items_have_no_heading() {
    let out = render_index(&Index::new("x", vec![Item::new(1, "a", "a")]), &StatusTheme::default());
    assert_eq!(plain(&out), "  [1]          a\n\n");
}
