use toml_table::{
    array, table, value, Array, ArrayOfTables, Date, DateTime, Float, InlineTable, Item, Table,
    Time, Value,
};

fn date() -> DateTime {
    DateTime::LocalDate(Date { year: 1979, month: 5, day: 27 })
}

#[test]
fn or_insert_fills_an_absent_item() {
    let mut item = Item::Absent;
    let r = item.or_insert(value(3i64));
    assert_eq!(r.as_integer(), Some(3));
    assert_eq!(item.as_integer(), Some(3));
}

#[test]
fn or_insert_leaves_what_is_there() {
    let mut item = value(3i64);
    let r = item.or_insert(value(4i64));
    assert_eq!(r.as_integer(), Some(3));
    assert_eq!(item.as_integer(), Some(3));
    let mut t = table();
    t.or_insert(value(1i64));
    assert!(t.is_table());
}

#[test]
fn or_insert_hands_out_the_place() {
    let mut item = Item::Absent;
    *item.or_insert(table()) = value(false);
    assert_eq!(item.as_bool(), Some(false));
}

#[test]
fn default_item_is_absent() {
    let item = Item::default();
    assert!(item.is_none());
    assert!(!item.is_value());
    assert!(!item.is_table());
    assert!(!item.is_array_of_tables());
}

#[test]
fn each_item_is_of_one_kind() {
    let kinds = [Item::Absent, value(1i64), table(), array()];
    let seen: Vec<[bool; 4]> = kinds
        .iter()
        .map(|i| [i.is_none(), i.is_value(), i.is_table(), i.is_array_of_tables()])
        .collect();
    assert_eq!(
        seen,
        vec![
            [true, false, false, false],
            [false, true, false, false],
            [false, false, true, false],
            [false, false, false, true],
        ]
    );
}

#[test]
fn structural_downcasts_match_the_kind() {
    let v = value(1i64);
    assert!(v.as_value().is_some());
    assert!(v.as_table().is_none());
    assert!(v.as_array_of_tables().is_none());
    let t = table();
    assert!(t.as_value().is_none());
    assert!(t.as_table().is_some());
    assert!(t.as_array_of_tables().is_none());
    let a = array();
    assert!(a.as_value().is_none());
    assert!(a.as_table().is_none());
    assert!(a.as_array_of_tables().is_some());
    let n = Item::Absent;
    assert!(n.as_value().is_none());
    assert!(n.as_table().is_none());
    assert!(n.as_array_of_tables().is_none());
}

#[test]
fn mutable_downcasts_reach_what_is_held() {
    let mut t = table();
    assert!(t.as_value_mut().is_none());
    assert!(t.as_array_of_tables_mut().is_none());
    *t.as_table_mut().unwrap().entry("k").unwrap() = value(1i64);
    assert_eq!(t.as_table().unwrap().get("k").unwrap().as_integer(), Some(1));

    let mut a = array();
    assert!(a.as_table_mut().is_none());
    a.as_array_of_tables_mut().unwrap().append(Table::new());
    assert_eq!(a.as_array_of_tables().unwrap().len(), 1);

    let mut v = value(1i64);
    assert!(v.as_table_mut().is_none());
    *v.as_value_mut().unwrap() = Value::from(2i64);
    assert_eq!(v.as_integer(), Some(2));
}

#[test]
fn scalar_downcasts_go_through_the_value() {
    let i = value(-5i64);
    assert_eq!(i.as_integer(), Some(-5));
    assert!(i.is_integer());
    assert!(!i.is_float() && !i.is_bool() && !i.is_str() && !i.is_date_time());
    assert!(!i.is_array() && !i.is_inline_table());

    let f = value(Float { bits: 0x3ff8_0000_0000_0000 });
    assert_eq!(f.as_float(), Some(Float { bits: 0x3ff8_0000_0000_0000 }));
    assert!(f.is_float());
    assert!(f.as_integer().is_none());

    let b = value(true);
    assert_eq!(b.as_bool(), Some(true));
    assert!(b.is_bool());
    assert!(b.as_str().is_none());

    let s = value("hello");
    assert_eq!(s.as_str(), Some("hello"));
    assert!(s.is_str());
    assert!(s.as_bool().is_none());
    assert_eq!(value(String::from("owned")).as_str(), Some("owned"));

    let d = value(date());
    assert_eq!(d.as_date_time(), Some(&date()));
    assert!(d.is_date_time());
    assert!(d.as_array().is_none());

    let a = value(Array::new());
    assert!(a.as_array().unwrap().is_empty());
    assert!(a.is_array());
    assert!(a.as_inline_table().is_none());

    let t = value(InlineTable::new());
    assert!(t.as_inline_table().unwrap().is_empty());
    assert!(t.is_inline_table());
    assert!(t.as_date_time().is_none());
}

#[test]
fn a_table_is_no_array_and_no_inline_table() {
    for item in [table(), array(), Item::Absent] {
        assert!(item.as_integer().is_none() && !item.is_integer());
        assert!(item.as_float().is_none() && !item.is_float());
        assert!(item.as_bool().is_none() && !item.is_bool());
        assert!(item.as_str().is_none() && !item.is_str());
        assert!(item.as_date_time().is_none() && !item.is_date_time());
        assert!(item.as_array().is_none() && !item.is_array());
        assert!(item.as_inline_table().is_none() && !item.is_inline_table());
    }
    let mut t = table();
    assert!(t.as_array_mut().is_none());
    assert!(t.as_inline_table_mut().is_none());
    assert!(t.is_table());
}

#[test]
fn arrays_and_inline_tables_are_changed_in_place() {
    let mut a = value(Array::new());
    a.as_array_mut().unwrap().push(Value::from(1i64));
    a.as_array_mut().unwrap().push(Value::from(2i64));
    assert_eq!(a.as_array().unwrap().len(), 2);
    assert_eq!(a.as_array().unwrap().get(1).unwrap().as_integer(), Some(2));
    assert!(a.as_array().unwrap().get(2).is_none());
    assert!(a.as_inline_table_mut().is_none());

    let mut t = value(InlineTable::new());
    t.as_inline_table_mut().unwrap().decor = toml_table::Decor::new(" ", "");
    assert!(t.as_array_mut().is_none());
    assert_eq!(t.as_inline_table().unwrap().decor.prefix(), " ");
}

#[test]
fn value_puts_one_space_before_and_nothing_behind() {
    for item in [
        value(1i64),
        value(true),
        value("s"),
        value(Float { bits: 0 }),
        value(date()),
        value(Array::new()),
        value(InlineTable::new()),
    ] {
        let decor = item.as_value().unwrap().decor();
        assert_eq!(decor.prefix(), " ");
        assert_eq!(decor.suffix(), "");
    }
}

#[test]
fn value_keeps_what_an_array_holds() {
    let mut array = Array::new();
    array.push(Value::from("x"));
    array.decor = toml_table::Decor::new("\t", "\t");
    let item = value(array);
    let held = item.as_array().unwrap();
    assert_eq!(held.len(), 1);
    assert_eq!(held.get(0).unwrap().as_str(), Some("x"));
    assert_eq!(held.decor.prefix(), " ");
    assert_eq!(held.decor.suffix(), "");
}

#[test]
fn table_helper_makes_an_empty_table() {
    let item = table();
    let t = item.as_table().unwrap();
    assert!(t.is_empty());
    assert!(t.iter().is_empty());
    assert_eq!(t.decor().prefix(), "\n");
    assert_eq!(t.decor().suffix(), "");
    assert!(!t.is_implicit());
}

#[test]
fn array_helper_makes_an_empty_array_of_tables() {
    let item = array();
    let a = item.as_array_of_tables().unwrap();
    assert!(a.is_empty());
    assert_eq!(a.len(), 0);
    assert!(a.get(0).is_none());
}

#[test]
fn array_of_tables_keeps_its_tables_in_order() {
    let mut a = ArrayOfTables::new();
    let mut first = Table::new();
    *first.entry("n").unwrap() = value(1i64);
    a.append(first);
    a.append(Table::new());
    assert_eq!(a.len(), 2);
    assert!(!a.is_empty());
    assert_eq!(a.get(0).unwrap().get("n").unwrap().as_integer(), Some(1));
    assert!(a.get(1).unwrap().is_empty());
    assert!(a.get(2).is_none());
    let c = a.clone();
    assert_eq!(c.len(), 2);
    assert_eq!(c.get(0).unwrap().get("n").unwrap().as_integer(), Some(1));
}

#[test]
fn date_times_compare_by_their_parts() {
    let time = Time { hour: 7, minute: 32, second: 0, nanosecond: 0 };
    let day = Date { year: 1979, month: 5, day: 27 };
    let a = DateTime::OffsetDateTime { date: day, time, offset_minutes: -420 };
    let b = DateTime::LocalDateTime { date: day, time };
    assert_ne!(a, b);
    assert_eq!(value(a).as_date_time(), Some(&a));
    assert_eq!(value(DateTime::LocalTime(time)).as_date_time(), Some(&DateTime::LocalTime(time)));
}
