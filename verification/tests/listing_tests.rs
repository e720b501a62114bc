use dirlist::listing::{decide, hidden, list, listed, Action, Entry};
use std::collections::BTreeSet;

fn strings(items: &[&str]) -> Vec<String> {
    items.iter().map(|s| s.to_string()).collect()
}

fn as_set(items: &[String]) -> BTreeSet<String> {
    items.iter().cloned().collect()
}

#[test]
fn default_listing_leaves_hidden_names_out() {
    let names = strings(&["a.txt", ".hidden", "b.txt"]);
    assert_eq!(list(&names, false), strings(&["a.txt", "b.txt"]));
}

#[test]
fn full_listing_keeps_every_name() {
    let names = strings(&["a.txt", ".hidden", "b.txt"]);
    assert_eq!(list(&names, true), strings(&["a.txt", ".hidden", "b.txt"]));
}

#[test]
fn listing_of_an_empty_directory_is_empty() {
    assert_eq!(list(&Vec::new(), false), Vec::<String>::new());
    assert_eq!(list(&Vec::new(), true), Vec::<String>::new());
}

#[test]
fn listing_of_hidden_names_only() {
    let names = strings(&[".a", ".", "..", ".git"]);
    assert_eq!(list(&names, false), Vec::<String>::new());
    assert_eq!(list(&names, true), names);
}

#[test]
fn listing_keeps_the_order_given() {
    let names = strings(&["z", ".m", "a", "m", ".a", "b"]);
    assert_eq!(list(&names, false), strings(&["z", "a", "m", "b"]));
    assert_eq!(list(&names, true), names);
}

#[test]
fn listing_keeps_repeated_names() {
    let names = strings(&["x", "x", ".y", ".y"]);
    assert_eq!(list(&names, false), strings(&["x", "x"]));
    assert_eq!(list(&names, true), names);
}

#[test]
fn listing_is_exactly_the_names_without_leading_dot() {
    let names = strings(&["a", ".b", "c.d", "..e", "f.", "", " .g", "é", ".é"]);
    let out = list(&names, false);
    let expected: Vec<String> =
        names.iter().filter(|n| !n.starts_with('.')).cloned().collect();
    assert_eq!(out, expected);
    assert_eq!(out, strings(&["a", "c.d", "f.", "", " .g", "é"]));
}

#[test]
fn listing_twice_gives_the_same() {
    let names = strings(&["one", ".two", "three"]);
    assert_eq!(list(&names, false), list(&names, false));
    assert_eq!(list(&names, true), list(&names, true));
}

#[test]
fn listing_in_another_order_gives_the_same_set() {
    let first = strings(&["a.txt", ".hidden", "b.txt", "c"]);
    let second = strings(&["c", "b.txt", ".hidden", "a.txt"]);
    assert_eq!(as_set(&list(&first, false)), as_set(&list(&second, false)));
    assert_eq!(as_set(&list(&first, true)), as_set(&list(&second, true)));
    assert_eq!(as_set(&list(&first, false)), as_set(&strings(&["a.txt", "b.txt", "c"])));
    assert_eq!(as_set(&list(&first, true)), as_set(&first));
}

#[test]
fn hidden_means_a_leading_dot() {
    assert!(hidden("."));
    assert!(hidden(".."));
    assert!(hidden(".hidden"));
    assert!(hidden(".é"));
    assert!(!hidden(""));
    assert!(!hidden("a.txt"));
    assert!(!hidden("a."));
    assert!(!hidden(" .a"));
    assert!(!hidden("é."));
}

#[test]
fn listed_follows_the_flag() {
    assert!(listed("a", false));
    assert!(listed("a", true));
    assert!(!listed(".a", false));
    assert!(listed(".a", true));
    assert!(listed("", false));
    assert!(listed("", true));
}

#[test]
fn decide_prints_skips_or_reports() {
    assert_eq!(decide(&Entry::Named("a.txt".to_string()), false), Action::Print);
    assert_eq!(decide(&Entry::Named("a.txt".to_string()), true), Action::Print);
    assert_eq!(decide(&Entry::Named(".hidden".to_string()), false), Action::Skip);
    assert_eq!(decide(&Entry::Named(".hidden".to_string()), true), Action::Print);
    assert_eq!(decide(&Entry::Unreadable, false), Action::Report);
    assert_eq!(decide(&Entry::Unreadable, true), Action::Report);
}

#[test]
fn decide_agrees_with_list() {
    let names = strings(&["a", ".b", "c", ".d", ""]);
    for show_all in [false, true] {
        let printed: Vec<String> = names
            .iter()
            .filter(|n| decide(&Entry::Named(n.to_string()), show_all) == Action::Print)
            .cloned()
            .collect();
        assert_eq!(printed, list(&names, show_all));
    }
}
