use ix::item::{Category, Item};

#[test]
fn with_meta_replaces_a_key() {
    let it = Item::new(1, "r", "l")
        .with_meta("pid", serde_json::Value::from(7))
        .with_meta("user", serde_json::Value::from("u"))
        .with_meta("pid", serde_json::Value::from(9));
    assert_eq!(it.meta.len(), 2);
    let pid = it.meta.iter().find(|(k, _)| k == "pid").unwrap();
    assert_eq!(pid.1, serde_json::Value::from(9));
}

#[test]
fn builders_set_fields() {
    let it = Item::new(4, "/a", "a").with_status("M", Category::Warning).with_group("unstaged");
    assert_eq!(it.slot, 4);
    assert_eq!(it.status.as_ref().unwrap().as_str(), "M");
    assert_eq!(it.status.as_ref().unwrap().category, Category::Warning);
    assert_eq!(it.group.as_deref(), Some("unstaged"));
    let copy = it.duplicate();
    assert_eq!(copy.raw, "/a");
    assert_eq!(copy.group, it.group);
}
