use ix::item::Category;
use ix::theme::{StatusTheme, TextAttr};

#[test]
fn defaults_colour_statuses_then_categories() {
    let t = StatusTheme::default();
    assert_eq!(t.color_for("M", Category::Unknown), Some(3));
    assert_eq!(t.color_for("??", Category::Positive), Some(8));
    assert_eq!(t.color_for("weird", Category::Negative), Some(1));
    assert_eq!(t.color_for("", Category::Positive), None);
    assert_eq!(t.dim, 8);
}

#[test]
fn config_overrides_and_aliases() {
    let (t, warnings) = StatusTheme::from_config(Some("M=33: added = 40 :dim=240::bogus:x=300"));
    assert_eq!(t.color_for("M", Category::Unknown), Some(33));
    assert_eq!(t.color_for("A", Category::Unknown), Some(40));
    assert_eq!(t.dim, 240);
    assert_eq!(
        warnings,
        vec![
            "ix: warning: invalid entry in IX_COLORS: 'bogus'".to_string(),
            "ix: warning: invalid color code in IX_COLORS for key 'x'".to_string(),
        ]
    );
    let (d, w) = StatusTheme::from_config(None);
    assert!(w.is_empty());
    assert_eq!(d.color_for("M", Category::Unknown), Some(3));
}

#[test]
fn apply_key_staged_alias() {
    let mut t = StatusTheme::default();
    t.apply_key("staged", 99);
    assert_eq!(t.color_for("*", Category::Positive), Some(99));
    t.apply_key("custom", 7);
    assert_eq!(t.color_for("custom", Category::Positive), Some(7));
}

#[test]
fn colourised_text() {
    let t = StatusTheme::default();
    let s = t.colorize("M", Category::Warning, "M      ").render();
    assert!(s == "\x1b[38;5;3mM      \x1b[0m" || s == "\x1b[mM      \x1b[0m");
    assert_eq!(t.colorize("", Category::Warning, "       ").render(), "       ");
}

#[test]
fn attributes_wrap_text() {
    assert_eq!(StatusTheme::bold("x").render(), "\x1b[1mx\x1b[22m");
    assert_eq!(StatusTheme::dimmed("x").render(), "\x1b[2mx\x1b[22m");
    assert_eq!(StatusTheme::italic("x").render(), "\x1b[3mx\x1b[23m");
    let a = ix::theme::Attributed { attr: TextAttr::NormalIntensity, text: "y" };
    assert_eq!(a.render(), "\x1b[22my\x1b[0m");
}

#[test]
fn colour_comes_from_status_and_text_is_kept() {
    let t = StatusTheme::default();
    let (on, s) = t.colorize("M", Category::Warning, "M      ").render_colored();
    if on {
        assert_eq!(s, "\x1b[38;5;3mM      \x1b[0m");
    } else {
        assert_eq!(s, "\x1b[mM      \x1b[0m");
    }
    let (on2, s2) = t.colorize("M", Category::Warning, "any text").render_colored();
    assert_eq!(on, on2);
    if on2 {
        assert_eq!(s2, "\x1b[38;5;3many text\x1b[0m");
    }
    let (_, plain) = t.colorize("", Category::Warning, "kept").render_colored();
    assert_eq!(plain, "kept");
}
