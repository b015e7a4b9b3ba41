use ix::index::Index;
use ix::item::{Category, Item};
use ix::picker::{key_action, App, KeyAction, Modifiers, PickerKey};

fn make_index() -> Index {
    let items = vec![
        Item::new(1, "/path/foo.rs", "foo.rs")
            .with_status("M", Category::Warning)
            .with_group("unstaged"),
        Item::new(2, "/path/bar.rs", "bar.rs")
            .with_status("??", Category::Neutral)
            .with_group("untracked"),
        Item::new(3, "/path/baz.rs", "baz.rs")
            .with_status("A", Category::Positive)
            .with_group("staged"),
    ];
    Index::new("git-status", items)
}

#[test]
fn test_app_initializes_with_all_items_visible() {
    let index = make_index();
    let app = App::new(&index);
    assert_eq!(app.items().len(), 3);
}

#[test]
fn test_app_move_down_and_up() {
    let index = make_index();
    let mut app = App::new(&index);

    assert_eq!(app.list_state.selected(), Some(0));

    app.move_down();
    assert_eq!(app.list_state.selected(), Some(1));

    app.move_down();
    assert_eq!(app.list_state.selected(), Some(2));

    app.move_down();
    assert_eq!(app.list_state.selected(), Some(2));

    app.move_up();
    assert_eq!(app.list_state.selected(), Some(1));

    app.move_up();
    assert_eq!(app.list_state.selected(), Some(0));

    app.move_up();
    assert_eq!(app.list_state.selected(), Some(0));
}

#[test]
fn test_app_toggle_selection() {
    let index = make_index();
    let mut app = App::new(&index);

    app.toggle_current();
    assert_eq!(app.selected, vec![0]);

    app.move_down();
    app.toggle_current();
    assert_eq!(app.selected, vec![0, 1]);

    app.move_up();
    app.toggle_current();
    assert_eq!(app.selected, vec![1]);
}

#[test]
fn test_app_confirm_returns_cursor_item_when_nothing_selected() {
    let index = make_index();
    let app = App::new(&index);

    let result = app.confirm();
    assert_eq!(result, vec!["/path/foo.rs"]);
}

#[test]
fn test_app_confirm_returns_toggled_items() {
    let index = make_index();
    let mut app = App::new(&index);

    app.toggle_current();
    app.move_down();
    app.move_down();
    app.toggle_current();

    let result = app.confirm();
    assert!(result.contains(&"/path/foo.rs".to_string()));
    assert!(result.contains(&"/path/baz.rs".to_string()));
    assert!(!result.contains(&"/path/bar.rs".to_string()));
}

#[test]
fn test_app_input_filters_by_slot_number() {
    let index = make_index();
    let mut app = App::new(&index);

    app.input.push('1');
    app.update_visible();
    assert_eq!(app.visible.len(), 1);

    let result = app.confirm();
    assert_eq!(result, vec!["/path/foo.rs"]);
}

#[test]
fn test_app_input_range_resolves_multiple() {
    let index = make_index();
    let mut app = App::new(&index);

    app.input = "1-3".to_string();
    app.update_visible();
    assert_eq!(app.visible.len(), 3);

    let result = app.confirm();
    assert_eq!(result, vec!["/path/foo.rs", "/path/bar.rs", "/path/baz.rs"]);
}

#[test]
fn test_app_input_comma_selection() {
    let index = make_index();
    let mut app = App::new(&index);

    app.input = "1,3".to_string();
    app.update_visible();
    assert_eq!(app.visible.len(), 2);

    let result = app.confirm();
    assert_eq!(result, vec!["/path/foo.rs", "/path/baz.rs"]);
}

#[test]
fn test_app_backspace_restores_visibility() {
    let index = make_index();
    let mut app = App::new(&index);

    app.input = "1".to_string();
    app.update_visible();
    assert_eq!(app.visible.len(), 1);

    app.input.pop();
    app.update_visible();
    assert_eq!(app.visible.len(), 3);
}

#[test]
fn test_app_invalid_input_clears_visible() {
    let index = make_index();
    let mut app = App::new(&index);

    app.input = "99".to_string();
    app.update_visible();
    assert!(app.visible.is_empty());
}

#[test]
fn test_app_empty_index() {
    let index = Index::new("empty", vec![]);
    let mut app = App::new(&index);

    assert_eq!(app.list_state.selected(), None);

    app.move_down();
    app.move_up();
    app.toggle_current();
    assert!(app.confirm().is_empty());
}

#[test]
fn toggling_twice_restores_the_selection() {
    let index = make_index();
    let mut app = App::new(&index);
    app.move_down();
    app.toggle_current();
    app.toggle_current();
    assert!(app.selected.is_empty());
}

#[test]
fn toggled_items_confirm_in_listing_order() {
    let index = make_index();
    let mut app = App::new(&index);
    app.move_down();
    app.move_down();
    app.toggle_current();
    app.move_up();
    app.move_up();
    app.toggle_current();
    assert_eq!(app.selected, vec![2, 0]);
    assert_eq!(app.confirm(), vec!["/path/foo.rs", "/path/baz.rs"]);
}

#[test]
fn keys_map_to_actions() {
    assert_eq!(key_action(PickerKey::Esc, Modifiers::Plain), KeyAction::Cancel);
    assert_eq!(key_action(PickerKey::Char('c'), Modifiers::Control), KeyAction::Cancel);
    assert_eq!(key_action(PickerKey::Char('c'), Modifiers::Plain), KeyAction::Type('c'));
    assert_eq!(key_action(PickerKey::Enter, Modifiers::Other), KeyAction::Confirm);
    assert_eq!(key_action(PickerKey::Char('k'), Modifiers::Plain), KeyAction::Up);
    assert_eq!(key_action(PickerKey::Char('k'), Modifiers::Other), KeyAction::Type('k'));
    assert_eq!(key_action(PickerKey::Down, Modifiers::Control), KeyAction::Down);
    assert_eq!(key_action(PickerKey::Char('j'), Modifiers::Plain), KeyAction::Down);
    assert_eq!(key_action(PickerKey::Char(' '), Modifiers::Control), KeyAction::Toggle);
    assert_eq!(key_action(PickerKey::Backspace, Modifiers::Plain), KeyAction::Erase);
    assert_eq!(key_action(PickerKey::Other, Modifiers::Plain), KeyAction::Nothing);
}

#[test]
fn typed_letters_filter_by_fuzzy_search() {
    let index = make_index();
    let mut app = App::new(&index);

    app.input = "bz".to_string();
    app.update_visible();
    assert_eq!(app.visible, vec![2]);
    assert!(app.resolved.is_none());
    assert_eq!(app.confirm(), vec!["/path/baz.rs"]);

    app.input = "BA RS".to_string();
    app.update_visible();
    assert_eq!(app.visible, vec![1, 2]);

    app.input = "fo.s".to_string();
    app.update_visible();
    assert_eq!(app.visible, vec![0]);

    app.input = "qq".to_string();
    app.update_visible();
    assert!(app.visible.is_empty());
}

#[test]
fn fuzzy_search_keeps_cursor_in_range() {
    let index = make_index();
    let mut app = App::new(&index);
    app.move_down();
    app.move_down();
    assert_eq!(app.list_state.selected(), Some(2));
    app.input = "foo".to_string();
    app.update_visible();
    assert_eq!(app.visible, vec![0]);
    assert_eq!(app.list_state.selected(), Some(0));
}

#[test]
fn row_text_parts() {
    let index = make_index();
    let mut app = App::new(&index);
    let row = app.row_text(0);
    assert!(!row.checked);
    assert_eq!(row.check, "  ");
    assert_eq!(row.slot, "[1]");
    assert_eq!(row.status, " M");
    assert_eq!(row.category, Category::Warning);
    assert_eq!(row.label, "  foo.rs");

    app.toggle_current();
    let row = app.row_text(0);
    assert!(row.checked);
    assert_eq!(row.check, "\u{25cf} ");

    let items: Vec<Item> = (1..=10).map(|n| Item::new(n, "r", "l")).collect();
    let wide = Index::new("t", items);
    let app = App::new(&wide);
    assert_eq!(app.row_text(0).slot, "[ 1]");
    assert_eq!(app.row_text(0).status, " ");
    assert_eq!(app.row_text(9).slot, "[10]");
}
