use toml_table::{array, table, value, Decor, Item, KeyError, Table, Value};

fn keys(t: &Table) -> Vec<String> {
    t.iter().iter().map(|p| p.0.to_string()).collect()
}

fn filled(names: &[&str]) -> Table {
    let mut t = Table::new();
    for (i, name) in names.iter().enumerate() {
        *t.entry(name).unwrap() = value(i as i64);
    }
    t
}

#[test]
fn new_table_is_empty_with_default_decor() {
    let t = Table::new();
    assert_eq!(t.len(), 0);
    assert_eq!(t.values_len(), 0);
    assert!(t.is_empty());
    assert!(t.iter().is_empty());
    assert_eq!(t.decor().prefix(), "\n");
    assert_eq!(t.decor().suffix(), "");
    assert!(!t.is_implicit());
}

#[test]
fn default_table_has_no_decor() {
    let t = Table::default();
    assert!(t.is_empty());
    assert_eq!(t.decor().prefix(), "");
    assert_eq!(t.decor().suffix(), "");
    assert!(!t.is_implicit());
}

#[test]
fn with_decor_keeps_the_decor() {
    let t = Table::with_decor(Decor::new("# top\n", " # end"));
    assert_eq!(t.decor().prefix(), "# top\n");
    assert_eq!(t.decor().suffix(), " # end");
    assert!(t.iter().is_empty());
}

#[test]
fn untouched_key_is_neither_contained_nor_found() {
    let t = filled(&["a", "b"]);
    assert!(!t.contains_key("c"));
    assert!(t.get("c").is_none());
    assert!(!t.contains_value("c"));
    assert!(!t.contains_table("c"));
    assert!(!t.contains_array_of_tables("c"));
}

#[test]
fn probed_key_is_found_but_not_contained() {
    let mut t = Table::new();
    assert!(t.entry("k").unwrap().is_none());
    assert!(!t.contains_key("k"));
    assert!(matches!(t.get("k"), Some(Item::Absent)));
    assert_eq!(t.len(), 0);
    assert!(t.is_empty());
    assert_eq!(t.iter().len(), 1);
    assert_eq!(keys(&t), vec!["k"]);
}

#[test]
fn written_value_is_contained_as_value_only() {
    let mut t = Table::new();
    *t.entry("k").unwrap() = value(7i64);
    assert!(t.contains_key("k"));
    assert!(t.contains_value("k"));
    assert!(!t.contains_table("k"));
    assert!(!t.contains_array_of_tables("k"));
    assert_eq!(t.get("k").unwrap().as_integer(), Some(7));
}

#[test]
fn written_table_is_contained_as_table_only() {
    let mut t = Table::new();
    *t.entry("k").unwrap() = table();
    assert!(t.contains_key("k"));
    assert!(t.contains_table("k"));
    assert!(!t.contains_value("k"));
    assert!(!t.contains_array_of_tables("k"));
}

#[test]
fn written_array_of_tables_is_contained_as_such_only() {
    let mut t = Table::new();
    *t.entry("k").unwrap() = array();
    assert!(t.contains_key("k"));
    assert!(t.contains_array_of_tables("k"));
    assert!(!t.contains_value("k"));
    assert!(!t.contains_table("k"));
}

#[test]
fn probing_twice_adds_one_slot() {
    let mut t = filled(&["a"]);
    assert!(t.entry("b").unwrap().is_none());
    assert!(t.entry("b").unwrap().is_none());
    assert_eq!(t.iter().len(), 2);
    assert_eq!(t.len(), 1);
    *t.entry("b").unwrap() = value(true);
    assert_eq!(t.entry("b").unwrap().as_bool(), Some(true));
    assert_eq!(t.iter().len(), 2);
    assert_eq!(t.len(), 2);
}

#[test]
fn entry_of_existing_key_hands_out_what_is_there() {
    let mut t = filled(&["a", "b", "c"]);
    assert_eq!(t.entry("b").unwrap().as_integer(), Some(1));
    *t.entry("b").unwrap() = value(10i64);
    assert_eq!(keys(&t), vec!["a", "b", "c"]);
    assert_eq!(t.get("a").unwrap().as_integer(), Some(0));
    assert_eq!(t.get("b").unwrap().as_integer(), Some(10));
    assert_eq!(t.get("c").unwrap().as_integer(), Some(2));
}

#[test]
fn entry_refuses_what_is_no_key() {
    let mut t = filled(&["a"]);
    assert_eq!(t.entry("a\"'b").err(), Some(KeyError::InvalidKey));
    assert_eq!(t.entry("line\nbreak").err(), Some(KeyError::InvalidKey));
    assert_eq!(keys(&t), vec!["a"]);
    assert_eq!(t.len(), 1);
}

#[test]
fn entry_finds_the_slot_by_the_key_text() {
    let mut t = Table::new();
    *t.entry("\"a b\"").unwrap() = value(1i64);
    assert!(t.contains_key("a b"));
    assert!(!t.contains_key("\"a b\""));
    assert_eq!(t.entry("'a b'").unwrap().as_integer(), Some(1));
    assert_eq!(t.entry("a b").unwrap().as_integer(), Some(1));
    assert_eq!(t.iter().len(), 1);
}

#[test]
fn remove_returns_the_item_and_forgets_the_key() {
    let mut t = filled(&["a", "b", "c"]);
    let gone = t.remove("b");
    assert_eq!(gone.unwrap().as_integer(), Some(1));
    assert!(t.get("b").is_none());
    assert!(!t.contains_key("b"));
    assert_eq!(keys(&t), vec!["a", "c"]);
    assert_eq!(t.get("a").unwrap().as_integer(), Some(0));
    assert_eq!(t.get("c").unwrap().as_integer(), Some(2));
    assert_eq!(t.len(), 2);
}

#[test]
fn remove_of_missing_key_changes_nothing() {
    let mut t = filled(&["a", "b"]);
    assert!(t.remove("zz").is_none());
    assert_eq!(keys(&t), vec!["a", "b"]);
    assert_eq!(t.len(), 2);
}

#[test]
fn remove_takes_an_absent_slot_too() {
    let mut t = Table::new();
    t.entry("a").unwrap();
    assert!(matches!(t.remove("a"), Some(Item::Absent)));
    assert!(t.get("a").is_none());
    assert!(t.iter().is_empty());
}

#[test]
fn removed_key_comes_back_behind_the_others() {
    let mut t = filled(&["a", "b", "c"]);
    t.remove("a");
    *t.entry("a").unwrap() = value(9i64);
    assert_eq!(keys(&t), vec!["b", "c", "a"]);
}

#[test]
fn iter_yields_slots_in_insertion_order() {
    let t = filled(&["delta", "alpha", "charlie", "bravo"]);
    assert_eq!(keys(&t), vec!["delta", "alpha", "charlie", "bravo"]);
    let items: Vec<Option<i64>> = t.iter().iter().map(|p| p.1.as_integer()).collect();
    assert_eq!(items, vec![Some(0), Some(1), Some(2), Some(3)]);
}

#[test]
fn sort_values_orders_slots_by_key() {
    let mut t = filled(&["delta", "alpha", "charlie", "bravo"]);
    t.sort_values();
    assert_eq!(keys(&t), vec!["alpha", "bravo", "charlie", "delta"]);
    assert_eq!(t.get("alpha").unwrap().as_integer(), Some(1));
    assert_eq!(t.get("bravo").unwrap().as_integer(), Some(3));
    assert_eq!(t.get("charlie").unwrap().as_integer(), Some(2));
    assert_eq!(t.get("delta").unwrap().as_integer(), Some(0));
    assert_eq!(t.len(), 4);
}

#[test]
fn sort_values_orders_by_code_point() {
    let mut t = filled(&["b", "a", "B", "ab", "", "é", "z", "_", "-", "0"]);
    t.sort_values();
    assert_eq!(keys(&t), vec!["", "-", "0", "B", "_", "a", "ab", "b", "z", "é"]);
}

#[test]
fn sort_values_moves_every_kind_of_slot() {
    let mut t = Table::new();
    *t.entry("t").unwrap() = table();
    t.entry("p").unwrap();
    *t.entry("v").unwrap() = value(1i64);
    *t.entry("a").unwrap() = array();
    t.sort_values();
    assert_eq!(keys(&t), vec!["a", "p", "t", "v"]);
    assert!(t.contains_array_of_tables("a"));
    assert!(matches!(t.get("p"), Some(Item::Absent)));
    assert!(t.contains_table("t"));
    assert!(t.contains_value("v"));
    assert_eq!(t.len(), 3);
    assert_eq!(t.values_len(), 1);
}

#[test]
fn sort_values_leaves_nested_tables_as_they_are() {
    let mut inner = Table::new();
    *inner.entry("z").unwrap() = value(1i64);
    *inner.entry("y").unwrap() = value(2i64);
    *inner.entry("x").unwrap() = value(3i64);
    let mut t = Table::new();
    *t.entry("n").unwrap() = Item::Table(inner);
    *t.entry("m").unwrap() = value(0i64);
    t.sort_values();
    assert_eq!(keys(&t), vec!["m", "n"]);
    let nested = t.get("n").unwrap().as_table().unwrap();
    assert_eq!(keys(nested), vec!["z", "y", "x"]);
    assert_eq!(nested.get("y").unwrap().as_integer(), Some(2));
}

#[test]
fn sort_values_of_sorted_and_of_empty_table() {
    let mut t = filled(&["a", "b", "c"]);
    t.sort_values();
    assert_eq!(keys(&t), vec!["a", "b", "c"]);
    let mut e = Table::new();
    e.sort_values();
    assert!(e.iter().is_empty());
}

#[test]
fn len_counts_occupied_slots_and_values_len_counts_values() {
    let mut t = Table::new();
    t.entry("probe").unwrap();
    *t.entry("scalar").unwrap() = value(1i64);
    *t.entry("nested").unwrap() = table();
    assert_eq!(t.len(), 2);
    assert_eq!(t.values_len(), 1);
    assert!(!t.is_empty());
    assert_eq!(t.iter().len(), 3);
}

#[test]
fn or_insert_on_entries_builds_a_table() {
    let mut t = Table::new();
    assert!(t.entry("a").is_ok());
    *t.entry("a").unwrap() = value("text");
    t.entry("b").unwrap().or_insert(table());
    assert_eq!(t.len(), 2);
    assert!(t.contains_value("a"));
    assert!(t.contains_table("b"));
    let seen = t.iter();
    assert_eq!(seen.len(), 2);
    assert_eq!(seen[0].0, "a");
    assert!(matches!(seen[0].1, Item::Value(Value::String(_))));
    assert_eq!(seen[1].0, "b");
    assert!(matches!(seen[1].1, Item::Table(_)));
}

#[test]
fn implicit_flag_is_stored_and_hides_a_header_without_values() {
    let mut t = Table::new();
    *t.entry("child").unwrap() = table();
    assert!(!t.is_implicit());
    assert!(t.has_header());
    t.set_implicit(true);
    assert!(t.is_implicit());
    assert!(!t.has_header());
    assert_eq!(keys(&t), vec!["child"]);
    assert!(t.contains_table("child"));
    *t.entry("v").unwrap() = value(1i64);
    assert!(t.has_header());
    t.set_implicit(false);
    assert!(!t.is_implicit());
    assert!(t.has_header());
}

#[test]
fn new_slot_gets_the_key_as_it_was_written() {
    let mut t = Table::new();
    t.entry("plain").unwrap();
    t.entry("\"quoted key\"").unwrap();
    t.entry("two words").unwrap();
    assert_eq!(keys(&t), vec!["plain", "quoted key", "two words"]);
    let plain = t.key_repr("plain").unwrap();
    assert_eq!(plain.raw_value, "plain");
    assert_eq!(plain.decor.prefix(), "");
    assert_eq!(plain.decor.suffix(), " ");
    assert_eq!(t.key_repr("quoted key").unwrap().raw_value, "\"quoted key\"");
    assert_eq!(t.key_repr("two words").unwrap().raw_value, "\"two words\"");
    assert!(t.key_repr("other").is_none());
}

#[test]
fn entry_keeps_the_key_of_an_existing_slot() {
    let mut t = Table::new();
    t.entry("'k'").unwrap();
    *t.entry("\"k\"").unwrap() = value(1i64);
    assert_eq!(t.key_repr("k").unwrap().raw_value, "'k'");
    assert_eq!(t.iter().len(), 1);
}

#[test]
fn clone_is_a_table_of_its_own() {
    let mut t = filled(&["b", "a"]);
    let c = t.clone();
    t.remove("a");
    *t.entry("b").unwrap() = value(5i64);
    assert_eq!(keys(&c), vec!["b", "a"]);
    assert_eq!(c.get("b").unwrap().as_integer(), Some(0));
    assert_eq!(c.get("a").unwrap().as_integer(), Some(1));
    assert_eq!(c.decor().prefix(), "\n");
}

#[test]
fn nested_tables_are_reached_through_entries() {
    let mut root = Table::new();
    {
        let a = root.entry("a").unwrap().or_insert(table());
        let inner = a.as_table_mut().unwrap();
        *inner.entry("b").unwrap() = value(1i64);
        inner.set_implicit(true);
    }
    let a = root.get("a").unwrap().as_table().unwrap();
    assert!(a.is_implicit());
    assert_eq!(a.get("b").unwrap().as_integer(), Some(1));
    assert!(a.has_header());
}
