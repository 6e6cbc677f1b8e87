use observer::order::{insert_sorted, sorted_distinct_of, str_lt, toggle_sorted};

fn v(x: &[&str]) -> Vec<String> {
    x.iter().map(|s| s.to_string()).collect()
}

#[test]
fn string_order() {
    assert!(str_lt("a", "b"));
    assert!(str_lt("ab", "abc"));
    assert!(!str_lt("abc", "ab"));
    assert!(!str_lt("x", "x"));
    assert!(str_lt("Z", "a"));
}

#[test]
fn sorted_without_repeats() {
    assert_eq!(sorted_distinct_of(&v(&["tps", "mspt", "tps", "a"])), v(&["a", "mspt", "tps"]));
    let mut s = v(&["a", "c"]);
    insert_sorted(&mut s, "b".to_string());
    insert_sorted(&mut s, "c".to_string());
    assert_eq!(s, v(&["a", "b", "c"]));
}

#[test]
fn toggle_twice_gives_the_list_back() {
    let start = v(&["a", "c", "e"]);
    for x in ["a", "b", "e", "z"] {
        let mut s = start.clone();
        toggle_sorted(&mut s, x.to_string());
        assert_ne!(s, start);
        toggle_sorted(&mut s, x.to_string());
        assert_eq!(s, start);
    }
}
