use toml_table::order::{sort_keys, text_lt};

fn strings(v: &[&str]) -> Vec<String> {
    v.iter().map(|s| s.to_string()).collect()
}

#[test]
fn text_lt_compares_by_code_point() {
    assert!(text_lt("a", "b"));
    assert!(!text_lt("b", "a"));
    assert!(text_lt("B", "a"));
    assert!(text_lt("Z", "a"));
    assert!(text_lt("z", "é"));
    assert!(text_lt("é", "\u{1F600}"));
    assert!(text_lt("\u{FFFF}", "\u{10000}"));
    assert!(text_lt("ab", "ac"));
    assert!(!text_lt("ac", "ab"));
}

#[test]
fn text_lt_puts_a_prefix_first() {
    assert!(text_lt("", "a"));
    assert!(!text_lt("a", ""));
    assert!(text_lt("a", "ab"));
    assert!(!text_lt("ab", "a"));
    assert!(text_lt("ab", "b"));
}

#[test]
fn text_lt_is_strict() {
    assert!(!text_lt("", ""));
    assert!(!text_lt("same", "same"));
    assert!(!text_lt("é", "é"));
}

#[test]
fn text_lt_agrees_with_the_order_of_strings() {
    let texts = ["", "a", "A", "ab", "b", "é", "e", "\u{10000}", "\u{FFFF}", "-", "_", "0", "~"];
    for a in texts {
        for b in texts {
            assert_eq!(text_lt(a, b), a < b);
        }
    }
}

#[test]
fn sort_keys_orders_and_keeps_every_key() {
    let sorted = sort_keys(strings(&["pear", "apple", "fig", "apple", "", "Zed", "é"]));
    assert_eq!(sorted, strings(&["", "Zed", "apple", "apple", "fig", "pear", "é"]));
}

#[test]
fn sort_keys_of_nothing_and_of_one() {
    assert_eq!(sort_keys(Vec::new()), Vec::<String>::new());
    assert_eq!(sort_keys(strings(&["only"])), strings(&["only"]));
}

#[test]
fn sort_keys_agrees_with_the_sort_of_strings() {
    let input = strings(&["b", "a", "ab", "B", "é", "z", "_", "-", "0", "aa", "a", "ba"]);
    let mut expected = input.clone();
    expected.sort();
    assert_eq!(sort_keys(input), expected);
}
