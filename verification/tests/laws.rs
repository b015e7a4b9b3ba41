use ix::cli::{build_index, diff_indexes, resolve_args};
use ix::env::env_items;
use ix::error::IxError;
use ix::grouping::reorder_by_group;
use ix::item::{Category, Item};
use ix::port::{port_items, SocketInfo};
use ix::text::{decimal_string, parse_usize};
use ix::theme::StatusTheme;

fn grouped(n: usize) -> Vec<Item> {
    (0..n)
        .map(|k| {
            let g = ["b", "a", "c"][k % 3];
            Item::new(0, &format!("raw{k}"), &format!("label{k}")).with_group(g)
        })
        .collect()
}

#[test]
fn slot_n_names_the_nth_item_in_display_order() {
    let items = grouped(7);
    let regrouped = reorder_by_group(items.clone());
    let index = build_index("t", items, None).unwrap();
    for n in 1..=7usize {
        let got = resolve_args(&[n.to_string()], &index).unwrap();
        assert_eq!(got.len(), 1);
        assert_eq!(got[0].slot, n);
        assert_eq!(got[0].raw, regrouped[n - 1].raw);
    }
    for bad in ["0", "8"] {
        match resolve_args(&[bad.to_string()], &index) {
            Err(IxError::SlotOutOfRange(m, 7)) => assert_eq!(m.to_string(), bad),
            _ => panic!("expected out of range"),
        }
    }
}

#[test]
fn regrouping_only_reorders() {
    let items = grouped(8);
    let out = reorder_by_group(items.clone());
    assert_eq!(out.len(), items.len());
    let mut a: Vec<String> = items.iter().map(|i| i.raw.clone()).collect();
    let mut b: Vec<String> = out.iter().map(|i| i.raw.clone()).collect();
    a.sort();
    b.sort();
    assert_eq!(a, b);
    let groups: Vec<&str> = out.iter().map(|i| i.group.as_deref().unwrap()).collect();
    assert_eq!(groups, vec!["b", "b", "b", "a", "a", "a", "c", "c"]);
}

#[test]
fn env_listing_is_sorted() {
    let pairs: Vec<(String, String)> =
        ["ZED", "alpha", "Beta", "A", "AB"].iter().map(|k| (k.to_string(), "v".to_string())).collect();
    let items = env_items(pairs);
    let keys: Vec<&str> = items.iter().map(|i| i.raw.as_str()).collect();
    let mut sorted = keys.clone();
    sorted.sort();
    assert_eq!(keys, sorted);
}

#[test]
fn a_port_and_protocol_is_listed_once() {
    let s = |p: u16| SocketInfo { port: p, tcp: true, listening: true, pids: vec![] };
    let items = port_items(vec![s(80), s(80), s(81), s(80)]);
    let raws: Vec<&str> = items.iter().map(|i| i.raw.as_str()).collect();
    assert_eq!(raws, vec!["80", "81"]);
}

#[test]
fn a_listing_has_no_changes_against_itself() {
    let index = build_index("t", grouped(5), None).unwrap();
    let ch = diff_indexes(&index, &index);
    assert!(ch.added.is_empty() && ch.removed.is_empty());
}

#[test]
fn decimal_forms_parse_back() {
    for n in [0u64, 7, 10, 99, 12345] {
        let d: Vec<char> = decimal_string(n).chars().collect();
        assert_eq!(parse_usize(&d), Some(n as usize));
    }
}

#[test]
fn a_configured_key_colours_its_status() {
    let mut t = StatusTheme::default();
    t.apply_key("deleted", 200);
    assert_eq!(t.color_for("D", Category::Positive), Some(200));
    t.apply_key("dim", 17);
    assert_eq!(t.dim, 17);
    assert_eq!(t.color_for("", Category::Positive), None);
}
