use toml_table::formatted::{decorated, key_repr};
use toml_table::value::InlinePair;
use toml_table::{Array, Decor, Float, InlineTable, Repr, Value};

#[test]
fn values_from_scalars_have_no_decor() {
    for v in [Value::from(1i64), Value::from(false), Value::from("s"), Value::from(Float { bits: 1 })]
    {
        assert_eq!(v.decor().prefix(), "");
        assert_eq!(v.decor().suffix(), "");
    }
}

#[test]
fn value_downcasts_match_the_kind() {
    let v = Value::from(42i64);
    assert_eq!(v.as_integer(), Some(42));
    assert!(v.is_integer());
    assert!(v.as_bool().is_none() && !v.is_bool());
    assert!(v.as_float().is_none() && !v.is_float());
    assert!(v.as_str().is_none() && !v.is_str());
    assert!(v.as_date_time().is_none() && !v.is_date_time());
    assert!(v.as_array().is_none() && !v.is_array());
    assert!(v.as_inline_table().is_none() && !v.is_inline_table());
    let s = Value::from(String::from("x"));
    assert_eq!(s.as_str(), Some("x"));
    assert!(s.as_integer().is_none());
    let f = Value::from(Float { bits: 0x4000_0000_0000_0000 });
    assert_eq!(f.as_float().unwrap().bits, 0x4000_0000_0000_0000);
}

#[test]
fn decorated_replaces_the_decor_only() {
    let v = decorated(Value::from(9i64), "  ", " # c");
    assert_eq!(v.as_integer(), Some(9));
    assert_eq!(v.decor().prefix(), "  ");
    assert_eq!(v.decor().suffix(), " # c");
    let again = decorated(v, "", "");
    assert_eq!(again.as_integer(), Some(9));
    assert_eq!(again.decor().prefix(), "");
    assert_eq!(again.decor().suffix(), "");
    let s = decorated(Value::from("text"), "\t", "\n");
    assert_eq!(s.as_str(), Some("text"));
    assert_eq!(s.decor().prefix(), "\t");
}

#[test]
fn key_repr_puts_a_space_behind_the_key() {
    let r = key_repr("\"a b\"");
    assert_eq!(r.raw_value, "\"a b\"");
    assert_eq!(r.decor.prefix(), "");
    assert_eq!(r.decor.suffix(), " ");
}

#[test]
fn repr_and_decor_keep_their_texts() {
    let r = Repr::new(Decor::new("<", ">"), "raw");
    assert_eq!(r.raw_value, "raw");
    assert_eq!(r.decor.prefix(), "<");
    assert_eq!(r.decor.suffix(), ">");
    let d = Decor::default();
    assert_eq!(d.prefix(), "");
    assert_eq!(d.suffix(), "");
}

#[test]
fn array_grows_by_push() {
    let mut a = Array::new();
    assert!(a.is_empty());
    assert_eq!(a.len(), 0);
    assert!(a.get(0).is_none());
    a.push(Value::from(1i64));
    a.push(Value::from("two"));
    assert_eq!(a.len(), 2);
    assert!(!a.is_empty());
    assert_eq!(a.get(0).unwrap().as_integer(), Some(1));
    assert_eq!(a.get(1).unwrap().as_str(), Some("two"));
    let c = a.clone();
    a.push(Value::from(true));
    assert_eq!(c.len(), 2);
    assert_eq!(c.get(1).unwrap().as_str(), Some("two"));
}

#[test]
fn inline_table_finds_the_first_pair_with_a_key() {
    let mut t = InlineTable::new();
    assert!(t.is_empty());
    assert!(t.get("a").is_none());
    t.items.push(InlinePair { key: String::from("a"), value: Value::from(1i64) });
    t.items.push(InlinePair { key: String::from("b"), value: Value::from(2i64) });
    t.items.push(InlinePair { key: String::from("a"), value: Value::from(3i64) });
    assert_eq!(t.len(), 3);
    assert!(!t.is_empty());
    assert_eq!(t.get("a").unwrap().as_integer(), Some(1));
    assert_eq!(t.get("b").unwrap().as_integer(), Some(2));
    assert!(t.get("ab").is_none());
    assert!(t.get("").is_none());
    let c = t.clone();
    assert_eq!(c.get("b").unwrap().as_integer(), Some(2));
}

#[test]
fn nested_values_downcast_in_place() {
    let mut v = Value::from(Array::new());
    v.as_array_mut().unwrap().push(Value::from(InlineTable::new()));
    assert!(v.as_inline_table_mut().is_none());
    let inner = v.as_array().unwrap().get(0).unwrap();
    assert!(inner.is_inline_table());
    let mut t = Value::from(InlineTable::new());
    assert!(t.as_array_mut().is_none());
    assert!(t.as_inline_table_mut().is_some());
}
