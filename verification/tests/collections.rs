use baml_engine::map::BamlMap;
use baml_engine::order::{key_less_exec, sort_by_key};
use baml_engine::strings::{concat3, contains_string, dedup_strings, join_strings, opt_string_eq, string_eq};
use baml_engine::zip::float_eq_exec;

fn s(x: &str) -> String {
    x.to_string()
}

#[test]
fn insert_keeps_first_position_and_replaces_value() {
    let mut m: BamlMap<i32> = BamlMap::new();
    m.insert(s("b"), 1);
    m.insert(s("a"), 2);
    m.insert(s("b"), 3);
    assert_eq!(m.len(), 2);
    assert_eq!(m.entries, vec![(s("b"), 3), (s("a"), 2)]);
}

#[test]
fn from_pairs_later_duplicate_wins() {
    let m = BamlMap::from_pairs(vec![(s("x"), 1), (s("y"), 2), (s("x"), 3)]);
    assert_eq!(m.entries, vec![(s("x"), 3), (s("y"), 2)]);
    let empty: BamlMap<u8> = BamlMap::from_pairs(vec![]);
    assert_eq!(empty.len(), 0);
}

#[test]
fn sorting_entries_by_key() {
    let sorted = sort_by_key(vec![(s("pear"), 1), (s("apple"), 2), (s("b"), 3), (s("ap"), 4)]);
    assert_eq!(sorted, vec![(s("ap"), 4), (s("apple"), 2), (s("b"), 3), (s("pear"), 1)]);
    let empty: Vec<(String, u8)> = sort_by_key(vec![]);
    assert!(empty.is_empty());
}

#[test]
fn key_order_is_code_point_order() {
    assert!(key_less_exec(&s("a"), &s("b")));
    assert!(!key_less_exec(&s("b"), &s("a")));
    assert!(key_less_exec(&s("ab"), &s("abc")));
    assert!(!key_less_exec(&s("abc"), &s("abc")));
    assert!(key_less_exec(&s(""), &s("a")));
    assert!(key_less_exec(&s("Z"), &s("a")));
    assert!(key_less_exec(&s("z"), &s("é")));
    assert_eq!(key_less_exec(&s("é"), &s("ü")), s("é") < s("ü"));
}

#[test]
fn float_equality_by_bits() {
    assert!(float_eq_exec(1.0f64.to_bits(), 1.0f64.to_bits()));
    assert!(!float_eq_exec(1.0f64.to_bits(), 2.0f64.to_bits()));
    assert!(float_eq_exec(0.0f64.to_bits(), (-0.0f64).to_bits()));
    assert!(!float_eq_exec(f64::NAN.to_bits(), f64::NAN.to_bits()));
    assert!(float_eq_exec(f64::INFINITY.to_bits(), f64::INFINITY.to_bits()));
}

#[test]
fn string_helpers() {
    assert!(string_eq(&s("a"), &s("a")));
    assert!(!string_eq(&s("a"), &s("b")));
    assert!(opt_string_eq(&None, &None));
    assert!(!opt_string_eq(&Some(s("a")), &None));
    assert!(contains_string(&vec![s("a"), s("b")], &s("b")));
    assert!(!contains_string(&vec![s("a")], &s("c")));
    assert_eq!(dedup_strings(vec![s("a"), s("b"), s("a"), s("c"), s("b")]), vec![s("a"), s("b"), s("c")]);
    assert_eq!(join_strings(&vec![s("x"), s("y"), s("z")], " | "), "x | y | z");
    assert_eq!(join_strings(&vec![], ", "), "");
    assert_eq!(join_strings(&vec![s("one")], ", "), "one");
    assert_eq!(concat3("a", "-", "b"), "a-b");
}
