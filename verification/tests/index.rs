use ix::error::IxError;
use ix::index::{session_path, Index};
use ix::item::{Category, Item};
use ix::selection::Selection;

fn sample() -> Index {
    Index::new(
        "git-status",
        vec![
            Item::new(1, "/path/to/foo.rs", "foo.rs").with_status("M", Category::Warning),
            Item::new(2, "/path/to/bar.rs", "bar.rs").with_status("??", Category::Neutral),
            Item::new(12, "/path/to/baz.rs", "baz.rs"),
        ],
    )
}

#[test]
fn test_index_path_uses_session_id() {
    let path = Index::index_path("12345");
    assert!(std::path::Path::new(&path).ends_with("ix/sessions/12345/index.json"));
}

#[test]
fn prev_path_sits_beside_the_index() {
    let path = Index::prev_path("777");
    assert!(std::path::Path::new(&path).ends_with("ix/sessions/777/index.prev.json"));
}

#[test]
fn session_path_joins_under_the_cache_dir() {
    assert_eq!(
        session_path(Some("/home/u/.cache".to_string()), "42", "index.json"),
        "/home/u/.cache/ix/sessions/42/index.json"
    );
    assert_eq!(
        session_path(Some("/home/u/.cache/".to_string()), "42", "index.json"),
        "/home/u/.cache/ix/sessions/42/index.json"
    );
    assert_eq!(session_path(None, "1", "index.json"), "/tmp/ix/sessions/1/index.json");
}

#[test]
fn max_slot_width_counts_digits_of_largest_slot() {
    assert_eq!(sample().max_slot_width(), 2);
    assert_eq!(Index::new("x", vec![]).max_slot_width(), 1);
}

#[test]
fn slot_map_keys_items_by_slot() {
    let index = sample();
    let m = index.slot_map();
    assert_eq!(m.len(), 3);
    assert_eq!(m[&12].raw, "/path/to/baz.rs");
}

#[test]
fn resolve_through_index() {
    let index = sample();
    let sel = Selection::parse(&["2,1"]).unwrap();
    let got = index.resolve(&sel).unwrap();
    let raws: Vec<&str> = got.iter().map(|i| i.raw.as_str()).collect();
    assert_eq!(raws, vec!["/path/to/bar.rs", "/path/to/foo.rs"]);
}

#[test]
fn resolve_reports_missing_slot() {
    let index = sample();
    let sel = Selection::parse(&["1-3"]).unwrap();
    match index.resolve(&sel) {
        Err(IxError::SlotOutOfRange(n, total)) => {
            assert_eq!(n, 3);
            assert_eq!(total, 3);
        }
        _ => panic!("expected a missing slot"),
    }
}

fn fruit_index() -> Index {
    Index::new(
        "stdin",
        vec![
            Item::new(1, "apple", "apple"),
            Item::new(2, "banana", "banana"),
            Item::new(3, "cherry", "cherry"),
            Item::new(4, "date", "date"),
        ],
    )
}

#[test]
fn resolve_with_exclusions() {
    let index = fruit_index();
    let sel = Selection::parse(&["1-4", "^2", "^4"]).unwrap();
    let found = index.resolve(&sel).unwrap();
    let raws: Vec<&str> = found.iter().map(|i| i.raw.as_str()).collect();
    assert_eq!(raws, vec!["apple", "cherry"]);
}

#[test]
fn resolve_stops_at_first_missing_slot_of_a_huge_range() {
    let index = fruit_index();
    let sel = Selection::parse(&["1-99999999999"]).unwrap();
    assert!(matches!(index.resolve(&sel), Err(IxError::SlotOutOfRange(5, 4))));
}

#[test]
fn resolve_skips_excluded_part_of_a_range() {
    let index = fruit_index();
    let sel = Selection::parse(&["3-99999999999", "^5-99999999999"]).unwrap();
    let found = index.resolve(&sel).unwrap();
    let raws: Vec<&str> = found.iter().map(|i| i.raw.as_str()).collect();
    assert_eq!(raws, vec!["cherry", "date"]);
}

#[test]
fn resolve_only_exclusions_is_empty() {
    let index = fruit_index();
    let sel = Selection::parse(&["^2"]).unwrap();
    assert!(index.resolve(&sel).unwrap().is_empty());
}
