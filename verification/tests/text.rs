use ix::order::{chars_lt_exec, key_lt_exec, sort_entries, SortKey};
use ix::paths::{components_of, is_path_in_dir, paths_equal, relative_path};
use ix::text::{decimal_string, ellipsize, parse_usize, replace_all};

fn key(n: u64, a: &str, b: &str) -> SortKey {
    SortKey { num: n, first: a.chars().collect(), second: b.chars().collect() }
}

#[test]
fn chars_compare_like_strings() {
    let a: Vec<char> = "abc".chars().collect();
    let b: Vec<char> = "abd".chars().collect();
    let p: Vec<char> = "ab".chars().collect();
    assert!(chars_lt_exec(&a, &b));
    assert!(!chars_lt_exec(&b, &a));
    assert!(chars_lt_exec(&p, &a));
    assert!(!chars_lt_exec(&a, &a));
    assert!(key_lt_exec(&key(1, "z", ""), &key(2, "a", "")));
    assert!(key_lt_exec(&key(1, "a", "z"), &key(1, "b", "a")));
    assert!(key_lt_exec(&key(1, "a", "a"), &key(1, "a", "b")));
    assert!(!key_lt_exec(&key(1, "a", "b"), &key(1, "a", "b")));
}

#[test]
fn sort_is_stable_and_ordered() {
    let v = vec![(key(2, "", ""), 'a'), (key(1, "", ""), 'b'), (key(2, "", ""), 'c'), (key(0, "", ""), 'd')];
    let sorted = sort_entries(v);
    let order: Vec<char> = sorted.iter().map(|e| e.1).collect();
    assert_eq!(order, vec!['d', 'b', 'a', 'c']);
}

#[test]
fn path_components_and_prefixes() {
    let c = components_of("/a//b/./c/");
    let c: Vec<String> = c.iter().map(|p| p.iter().collect()).collect();
    assert_eq!(c, vec!["/", "a", "b", "c"]);
    let r: Vec<String> = components_of("./x").iter().map(|p| p.iter().collect()).collect();
    assert_eq!(r, vec![".", "x"]);
    assert!(is_path_in_dir("/repo/src", "/repo"));
    assert!(is_path_in_dir("/repo", "/repo/"));
    assert!(!is_path_in_dir("/repository", "/repo"));
    assert!(paths_equal("/w/", "/w"));
    assert!(!paths_equal("/w", "/w/x"));
    assert_eq!(relative_path("/w/sub/f", "/w"), "sub/f");
    assert_eq!(relative_path("/other/f", "/w"), "/other/f");
}

#[test]
fn decimal_round_trip_and_replace() {
    assert_eq!(decimal_string(0), "0");
    assert_eq!(decimal_string(8080), "8080");
    let d: Vec<char> = decimal_string(65535).chars().collect();
    assert_eq!(parse_usize(&d), Some(65535));
    assert_eq!(replace_all("a{}b{}", "{}", "X"), "aXbX");
    assert_eq!(replace_all("{{}", "{}", "X"), "{X");
    assert_eq!(ellipsize("short"), "short");
    assert_eq!(ellipsize(&"z".repeat(61)), format!("{}…", "z".repeat(59)));
}
