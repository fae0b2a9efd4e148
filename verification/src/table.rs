//! Tables and the items that their slots hold.

use vstd::prelude::*;
use crate::array_of_tables::ArrayOfTables;
use crate::decor::{Decor, DecorView, Repr};
use crate::formatted::{decorated, key_repr, key_repr_view};
use crate::key::{parse_key, Key, KeyError};
use crate::model::{
    after_entry, has_array_of_tables, has_item, has_table, has_value, header_shown, is_occupied, holds_value,
    item_at, occupied, position, probed, slot_keys, slots_of, values_count, with_item, without,
    SlotView,
};
use crate::order::{
    ascending, lemma_ascending_is_distinct, lemma_sorted_distinct, sort_keys, texts,
};
use crate::pairs::{find, keys_of, pairs_of, KeyValuePairs};
use crate::value::{Array, DateTime, Float, InlineTable, Value};

verus! {

/// What stands under a key.
#[derive(Clone, Debug)]
pub enum Item {
    /// Nothing: the key was asked for and nothing has been written under it.
    Absent,
    /// A value.
    Value(Value),
    /// A table.
    Table(Table),
    /// An array of tables.
    ArrayOfTables(ArrayOfTables),
}

/// A slot of a table: the key as it is written, and the item under it.
#[derive(Clone, Debug)]
pub struct TableKeyValue {
    pub key: Repr,
    pub value: Item,
}

/// A table: slots in the order of their insertion, no two under one key,
/// with the decor around the table's header.
#[derive(Debug)]
pub struct Table {
    items: KeyValuePairs,
    decor: Decor,
    implicit: bool,
}

/// The slots have the keys of the pairs, so a key is found at the same place in both.
proof fn lemma_same_keys(pairs: Seq<(Seq<char>, TableKeyValue)>, key: Seq<char>)
    ensures
        slot_keys(slots_of(pairs)) == keys_of(pairs),
        position(slots_of(pairs), key) == find(pairs, key),
        match find(pairs, key) {
            Some(i) => 0 <= i < pairs.len() && pairs[i].0 == key,
            None => forall|i: int| 0 <= i < pairs.len() ==> (#[trigger] pairs[i]).0 != key,
        },
{
    assert(slot_keys(slots_of(pairs)) =~= keys_of(pairs));
    keys_of(pairs).index_of_first_ensures(key);
    if find(pairs, key) is None {
        assert forall|i: int| 0 <= i < pairs.len() implies (#[trigger] pairs[i]).0 != key by {
            assert(keys_of(pairs)[i] == pairs[i].0);
        }
    }
}

/// Changing the slot under a key, or adding a slot under a new key, leaves no
/// two slots with the same key text.
proof fn lemma_entry_keeps_keys_distinct(pairs: Seq<(Seq<char>, TableKeyValue)>, key: Seq<char>)
    requires
        keys_of(pairs).no_duplicates(),
    ensures
        match find(pairs, key) {
            Some(i) => forall|kv: TableKeyValue|
                slot_keys(slots_of(#[trigger] pairs.update(i, (key, kv)))) == keys_of(pairs),
            None => forall|kv: TableKeyValue|
                slot_keys(slots_of(#[trigger] pairs.push((key, kv)))).no_duplicates(),
        },
{
    lemma_same_keys(pairs, key);
    match find(pairs, key) {
        Some(i) => {
            assert forall|kv: TableKeyValue|
                slot_keys(slots_of(#[trigger] pairs.update(i, (key, kv)))) == keys_of(
                    pairs,
                ) by {
                assert(slot_keys(slots_of(pairs.update(i, (key, kv)))) =~= keys_of(pairs));
            }
        },
        None => {
            assert forall|kv: TableKeyValue|
                slot_keys(slots_of(#[trigger] pairs.push((key, kv)))).no_duplicates() by {
                let after = slot_keys(slots_of(pairs.push((key, kv))));
                assert forall|a: int, b: int| 0 <= a < after.len() && 0 <= b < after.len() && a
                    != b implies after[a] != after[b] by {
                    if a < pairs.len() {
                        assert(after[a] == keys_of(pairs)[a]);
                        assert(after[a] == pairs[a].0);
                    }
                    if b < pairs.len() {
                        assert(after[b] == keys_of(pairs)[b]);
                        assert(after[b] == pairs[b].0);
                    }
                }
            }
        },
    }
}

/// Taking a slot out leaves no two slots with the same key text.
proof fn lemma_remove_keeps_keys_distinct(pairs: Seq<(Seq<char>, TableKeyValue)>, i: int)
    requires
        keys_of(pairs).no_duplicates(),
        0 <= i < pairs.len(),
    ensures
        slot_keys(slots_of(pairs.remove(i))).no_duplicates(),
        slots_of(pairs.remove(i)) == slots_of(pairs).remove(i),
{
    let after = slot_keys(slots_of(pairs.remove(i)));
    assert forall|a: int, b: int| 0 <= a < after.len() && 0 <= b < after.len() && a
        != b implies after[a] != after[b] by {
        let oa = if a < i { a } else { a + 1 };
        let ob = if b < i { b } else { b + 1 };
        assert(after[a] == keys_of(pairs)[oa]);
        assert(after[b] == keys_of(pairs)[ob]);
    }
    assert(slots_of(pairs.remove(i)) =~= slots_of(pairs).remove(i));
}

/// Moving a slot behind all others leaves no two slots with the same key text.
proof fn lemma_refresh_keeps_keys_distinct(pairs: Seq<(Seq<char>, TableKeyValue)>, i: int)
    requires
        keys_of(pairs).no_duplicates(),
        0 <= i < pairs.len(),
    ensures
        slot_keys(slots_of(pairs.remove(i).push(pairs[i]))).no_duplicates(),
        slots_of(pairs.remove(i).push(pairs[i])) == slots_of(pairs).remove(i).push(
            slots_of(pairs)[i],
        ),
{
    let after = slot_keys(slots_of(pairs.remove(i).push(pairs[i])));
    let last = pairs.len() - 1;
    assert forall|a: int, b: int| 0 <= a < after.len() && 0 <= b < after.len() && a
        != b implies after[a] != after[b] by {
        let oa = if a == last { i } else if a < i { a } else { a + 1 };
        let ob = if b == last { i } else if b < i { b } else { b + 1 };
        assert(after[a] == keys_of(pairs)[oa]);
        assert(after[b] == keys_of(pairs)[ob]);
    }
    assert(slots_of(pairs.remove(i).push(pairs[i])) =~= slots_of(pairs).remove(i).push(
        slots_of(pairs)[i],
    ));
}

/// Moving a slot behind all others keeps the slots that the table holds.
proof fn lemma_refresh_keeps_slots(s: Seq<SlotView>, i: int)
    requires
        0 <= i < s.len(),
    ensures
        s.remove(i).push(s[i]).to_multiset() == s.to_multiset(),
{
    broadcast use vstd::multiset::group_multiset_axioms;

    vstd::seq_lib::to_multiset_remove(s, i);
    vstd::seq_lib::to_multiset_build(s.remove(i), s[i]);
    vstd::seq_lib::to_multiset_contains(s, s[i]);
    assert(s.contains(s[i]));
    assert(s.to_multiset().remove(s[i]).insert(s[i]) =~= s.to_multiset());
}

impl TableKeyValue {
    /// A slot that holds `value` under a key written as `key`.
    pub fn new(key: Repr, value: Item) -> (r: TableKeyValue)
        ensures
            r.key == key,
            r.value == value,
    {
        TableKeyValue { key, value }
    }
}

impl View for Table {
    type V = Seq<SlotView>;

    closed spec fn view(&self) -> Seq<SlotView> {
        slots_of(pairs_of(self.items))
    }
}

impl Table {
    /// No two slots have the same key text.
    pub open spec fn wf(&self) -> bool {
        slot_keys(self@).no_duplicates()
    }

    #[verifier::type_invariant]
    closed spec fn inv(self) -> bool {
        self.wf()
    }

    /// The decor around the table's header.
    pub closed spec fn spec_decor(&self) -> Decor {
        self.decor
    }

    /// Whether the table is written only where it has a value of its own.
    pub closed spec fn spec_implicit(&self) -> bool {
        self.implicit
    }

    /// An empty table inside `decor`.
    pub fn with_decor(decor: Decor) -> (r: Table)
        ensures
            r@ == Seq::<SlotView>::empty(),
            r.spec_decor() == decor,
            !r.spec_implicit(),
    {
        let items = KeyValuePairs::new();
        assert(slots_of(pairs_of(items)) =~= Seq::<SlotView>::empty());
        Table { items, decor, implicit: false }
    }

    /// An empty table: a line break before its header and nothing behind it.
    pub fn new() -> (r: Table)
        ensures
            r@ == Seq::<SlotView>::empty(),
            r.spec_decor()@ == (DecorView { prefix: seq!['\n'], suffix: Seq::empty() }),
            !r.spec_implicit(),
    {
        proof {
            reveal_strlit("\n");
            reveal_strlit("");
            assert("\n"@ =~= seq!['\n']);
            assert(""@ =~= Seq::<char>::empty());
        }
        Table::with_decor(Decor::new("\n", ""))
    }

    /// The item under `key`, where the table has a slot for it; the item may be absent.
    pub fn get(&self, key: &str) -> (r: Option<&Item>)
        ensures
            match r {
                Some(item) => item_at(self@, key@) == Some(*item),
                None => item_at(self@, key@) is None,
            },
    {
        proof {
            lemma_same_keys(pairs_of(self.items), key@);
        }
        match self.items.get(key) {
            Some(kv) => Some(&kv.value),
            None => None,
        }
    }

    /// The key of the slot for `key` as it is written, where the table has
    /// such a slot.
    pub fn key_repr(&self, key: &str) -> (r: Option<&Repr>)
        ensures
            match r {
                Some(repr) => position(self@, key@) matches Some(i) && repr@ == self@[i].repr,
                None => position(self@, key@) is None,
            },
    {
        proof {
            lemma_same_keys(pairs_of(self.items), key@);
        }
        match self.items.get(key) {
            Some(kv) => Some(&kv.key),
            None => None,
        }
    }

    /// Whether the table has a slot for `key` that holds something.
    pub fn contains_key(&self, key: &str) -> (r: bool)
        ensures
            r == has_item(self@, key@),
    {
        if let Some(item) = self.get(key) {
            !item.is_none()
        } else {
            false
        }
    }

    /// Whether the table has a slot for `key` that holds a table.
    pub fn contains_table(&self, key: &str) -> (r: bool)
        ensures
            r == has_table(self@, key@),
    {
        if let Some(item) = self.get(key) {
            item.is_table()
        } else {
            false
        }
    }

    /// Whether the table has a slot for `key` that holds a value.
    pub fn contains_value(&self, key: &str) -> (r: bool)
        ensures
            r == has_value(self@, key@),
    {
        if let Some(item) = self.get(key) {
            item.is_value()
        } else {
            false
        }
    }

    /// Whether the table has a slot for `key` that holds an array of tables.
    pub fn contains_array_of_tables(&self, key: &str) -> (r: bool)
        ensures
            r == has_array_of_tables(self@, key@),
    {
        if let Some(item) = self.get(key) {
            item.is_array_of_tables()
        } else {
            false
        }
    }

    /// The item under `key`, to be read or written in place. Where the table
    /// has no slot for the key text of `key`, a slot that holds nothing is put
    /// behind all others first. A `key` that is no key is refused, and the
    /// table stays as it is.
    pub fn entry(&mut self, key: &str) -> (r: Result<&mut Item, KeyError>)
        ensures
            match r {
                Ok(item) => parse_key(key@) matches Some(parsed) && Some(*item) == item_at(
                    probed(old(self)@, parsed),
                    parsed.key,
                ) && final(self)@ == after_entry(old(self)@, parsed, *final(item)),
                Err(e) => parse_key(key@) is None && e == KeyError::InvalidKey && final(self)@
                    == old(self)@,
            },
            final(self).spec_decor() == old(self).spec_decor(),
            final(self).spec_implicit() == old(self).spec_implicit(),
    {
        match Key::parse(key) {
            Err(e) => Err(e),
            Ok(parsed) => {
                let name = parsed.get().to_owned();
                let slot = TableKeyValue::new(key_repr(parsed.raw()), Item::Absent);
                let ghost before = pairs_of(self.items);
                proof {
                    use_type_invariant(&*self);
                    lemma_same_keys(before, name@);
                    lemma_entry_keeps_keys_distinct(before, name@);
                }
                let kv = self.items.entry_or_insert(name, slot);
                let ghost after = *final(kv);
                let item = &mut kv.value;
                proof {
                    let written = *final(item);
                    let view = slots_of(before);
                    let probe = probed(view, parsed@);
                    match find(before, parsed@.key) {
                        Some(i) => {
                            assert(slots_of(before.update(i, (parsed@.key, after)))
                                =~= with_item(probe, parsed@.key, written));
                        },
                        None => {
                            assert(slot_keys(probe) =~= slot_keys(view).push(parsed@.key));
                            slot_keys(probe).index_of_first_ensures(parsed@.key);
                            assert(slot_keys(probe)[view.len() as int] == parsed@.key);
                            assert(position(probe, parsed@.key) == Some(view.len() as int)) by {
                                let at = position(probe, parsed@.key)->Some_0;
                                if at < view.len() {
                                    assert(slot_keys(probe)[at] == before[at].0);
                                }
                            }
                            assert(slots_of(before.push((parsed@.key, after))) =~= with_item(
                                probe,
                                parsed@.key,
                                written,
                            ));
                        },
                    }
                }
                Ok(item)
            },
        }
    }

    /// Takes the slot for `key` out of the table, key and item, and returns
    /// the item; the other slots keep their order. Without such a slot the
    /// table stays as it is.
    pub fn remove(&mut self, key: &str) -> (r: Option<Item>)
        ensures
            r == item_at(old(self)@, key@),
            final(self)@ == without(old(self)@, key@),
            final(self).spec_decor() == old(self).spec_decor(),
            final(self).spec_implicit() == old(self).spec_implicit(),
    {
        proof {
            use_type_invariant(&*self);
            let before = pairs_of(self.items);
            lemma_same_keys(before, key@);
            if let Some(i) = find(before, key@) {
                lemma_remove_keeps_keys_distinct(before, i);
            }
        }
        match self.items.remove(key) {
            Some(kv) => Some(kv.value),
            None => None,
        }
    }

    /// Puts the slots of this table in ascending order of their key texts.
    /// Each slot keeps its key and its item: tables and arrays of tables
    /// under a key are not looked into.
    pub fn sort_values(&mut self)
        ensures
            ascending(slot_keys(final(self)@)),
            final(self)@.to_multiset() == old(self)@.to_multiset(),
            final(self).spec_decor() == old(self).spec_decor(),
            final(self).spec_implicit() == old(self).spec_implicit(),
    {
        let names = self.key_texts();
        let sorted = sort_keys(names);
        let n = sorted.len();
        proof {
            use_type_invariant(&*self);
            lemma_sorted_distinct(slot_keys(self@), texts(sorted@));
            assert(self@.len() == slot_keys(self@).len());
        }
        let mut j: usize = 0;
        while j < n
            invariant
                j <= n,
                n == sorted@.len(),
                n == self@.len(),
                ascending(texts(sorted@)),
                forall|m: int| 0 <= m < n ==> slot_keys(self@).contains(#[trigger] texts(sorted@)[m]),
                forall|m: int| 0 <= m < j ==> (#[trigger] self@[n - j + m]).key == texts(sorted@)[m],
                self@.to_multiset() == old(self)@.to_multiset(),
                self.spec_decor() == old(self).spec_decor(),
                self.spec_implicit() == old(self).spec_implicit(),
            decreases n - j,
        {
            let ghost pairs = pairs_of(self.items);
            let ghost before = self@;
            let ghost key = texts(sorted@)[j as int];
            let ghost at = position(before, key);
            proof {
                use_type_invariant(&*self);
                lemma_same_keys(pairs, key);
                lemma_ascending_is_distinct(texts(sorted@));
                assert(slot_keys(before).contains(key));
                let i = at->Some_0;
                assert(before[i].key == key) by {
                    assert(slot_keys(before)[i] == before[i].key);
                }
                assert(i < n - j) by {
                    if i >= n - j {
                        let m = i - (n - j);
                        assert(before[n - j + m].key == texts(sorted@)[m]);
                    }
                }
                lemma_refresh_keeps_keys_distinct(pairs, i);
                lemma_refresh_keeps_slots(before, i);
            }
            self.items.refresh(sorted[j].as_str());
            proof {
                let i = at->Some_0;
                let after = self@;
                assert(after == before.remove(i).push(before[i]));
                assert forall|m: int| 0 <= m < n implies slot_keys(after).contains(
                    #[trigger] texts(sorted@)[m],
                ) by {
                    let text = texts(sorted@)[m];
                    assert(slot_keys(before).contains(text));
                    let w = choose|w: int|
                        0 <= w < slot_keys(before).len() && slot_keys(before)[w] == text;
                    let v = if w == i { n - 1 } else if w < i { w } else { w - 1 };
                    assert(slot_keys(after)[v] == text);
                }
                assert forall|m: int| 0 <= m < j + 1 implies (#[trigger] after[n - (j + 1)
                    + m]).key == texts(sorted@)[m] by {
                    if m < j {
                        assert(after[n - (j + 1) + m] == before[n - j + m]);
                    }
                }
            }
            j += 1;
        }
        proof {
            assert(slot_keys(self@) =~= texts(sorted@)) by {
                assert forall|m: int| 0 <= m < n implies slot_keys(self@)[m] == texts(
                    sorted@,
                )[m] by {
                    assert(self@[n - j + m].key == texts(sorted@)[m]);
                }
            }
        }
    }

    /// The key texts of the slots, in order.
    fn key_texts(&self) -> (r: Vec<String>)
        ensures
            texts(r@) == slot_keys(self@),
    {
        let pairs = self.items.iter();
        let mut names: Vec<String> = Vec::new();
        let mut i: usize = 0;
        while i < pairs.len()
            invariant
                i <= pairs@.len(),
                pairs@.len() == self@.len(),
                names@.len() == i,
                forall|j: int| 0 <= j < pairs@.len() ==> (#[trigger] pairs@[j]).0@ == self@[j].key,
                forall|j: int| 0 <= j < i ==> (#[trigger] names@[j])@ == self@[j].key,
            decreases pairs.len() - i,
        {
            names.push(pairs[i].0.to_owned());
            i += 1;
        }
        assert(texts(names@) =~= slot_keys(self@));
        names
    }

    /// Every slot, absent ones too, in order: its key text and its item.
    pub fn iter(&self) -> (r: Vec<(&str, &Item)>)
        ensures
            r@.len() == self@.len(),
            forall|i: int|
                0 <= i < r@.len() ==> (#[trigger] r@[i]).0@ == self@[i].key && *r@[i].1
                    == self@[i].item,
    {
        let pairs = self.items.iter();
        let mut out: Vec<(&str, &Item)> = Vec::new();
        let mut i: usize = 0;
        while i < pairs.len()
            invariant
                i <= pairs@.len(),
                pairs@.len() == self@.len(),
                out@.len() == i,
                forall|j: int|
                    0 <= j < pairs@.len() ==> (#[trigger] pairs@[j]).0@ == self@[j].key
                        && pairs@[j].1.value == self@[j].item,
                forall|j: int|
                    0 <= j < i ==> (#[trigger] out@[j]).0@ == self@[j].key && *out@[j].1
                        == self@[j].item,
            decreases pairs.len() - i,
        {
            let (key, kv) = pairs[i];
            out.push((key, &kv.value));
            i += 1;
        }
        out
    }

    /// The number of slots that hold something.
    pub fn len(&self) -> (r: usize)
        ensures
            r == occupied(self@),
    {
        let pairs = self.items.iter();
        let mut n: usize = 0;
        let mut i: usize = 0;
        assert(self@.take(0).filter(is_occupied()).len() == 0) by {
            self@.take(0).lemma_filter_len(is_occupied());
        }
        while i < pairs.len()
            invariant
                i <= pairs@.len(),
                pairs@.len() == self@.len(),
                forall|j: int|
                    0 <= j < pairs@.len() ==> (#[trigger] pairs@[j]).1.value == self@[j].item,
                n <= i,
                n == occupied(self@.take(i as int)),
            decreases pairs.len() - i,
        {
            proof {
                self@.lemma_take_succ_push(i as int);
                self@.take(i as int).lemma_filter_len_push(is_occupied(), self@[i as int]);
            }
            if !pairs[i].1.value.is_none() {
                n += 1;
            }
            i += 1;
        }
        proof {
            self@.lemma_take_len();
        }
        n
    }

    /// The number of slots that hold a value.
    pub fn values_len(&self) -> (r: usize)
        ensures
            r == values_count(self@),
    {
        let pairs = self.items.iter();
        let mut n: usize = 0;
        let mut i: usize = 0;
        assert(self@.take(0).filter(holds_value()).len() == 0) by {
            self@.take(0).lemma_filter_len(holds_value());
        }
        while i < pairs.len()
            invariant
                i <= pairs@.len(),
                pairs@.len() == self@.len(),
                forall|j: int|
                    0 <= j < pairs@.len() ==> (#[trigger] pairs@[j]).1.value == self@[j].item,
                n <= i,
                n == values_count(self@.take(i as int)),
            decreases pairs.len() - i,
        {
            proof {
                self@.lemma_take_succ_push(i as int);
                self@.take(i as int).lemma_filter_len_push(holds_value(), self@[i as int]);
            }
            if pairs[i].1.value.is_value() {
                n += 1;
            }
            i += 1;
        }
        proof {
            self@.lemma_take_len();
        }
        n
    }

    /// Whether no slot holds anything.
    pub fn is_empty(&self) -> (r: bool)
        ensures
            r == (occupied(self@) == 0),
    {
        self.len() == 0
    }

    /// Whether the table's header is written: it is left out where the table
    /// is implicit and no slot holds a value.
    pub fn has_header(&self) -> (r: bool)
        ensures
            r == header_shown(self@, self.spec_implicit()),
    {
        !(self.implicit && self.values_len() == 0)
    }

    /// The decor around the table's header.
    pub fn decor(&self) -> (r: &Decor)
        ensures
            *r == self.spec_decor(),
    {
        &self.decor
    }

    /// Whether the table is written only where it has a value of its own.
    pub fn is_implicit(&self) -> (r: bool)
        ensures
            r == self.spec_implicit(),
    {
        self.implicit
    }

    /// Sets whether the table is written only where it has a value of its own.
    pub fn set_implicit(&mut self, implicit: bool)
        ensures
            final(self).spec_implicit() == implicit,
            final(self)@ == old(self)@,
            final(self).spec_decor() == old(self).spec_decor(),
    {
        proof {
            use_type_invariant(&*self);
        }
        self.implicit = implicit;
    }
}

impl Item {
    /// Whether nothing is held.
    pub fn is_none(&self) -> (r: bool)
        ensures
            r == (self is Absent),
    {
        match self {
            Item::Absent => true,
            _ => false,
        }
    }

    /// The value, where this is one.
    pub fn as_value(&self) -> (r: Option<&Value>)
        ensures
            match r {
                Some(v) => *self == Item::Value(*v),
                None => !(self is Value),
            },
    {
        match self {
            Item::Value(v) => Some(v),
            _ => None,
        }
    }

    /// The table, where this is one.
    pub fn as_table(&self) -> (r: Option<&Table>)
        ensures
            match r {
                Some(t) => *self == Item::Table(*t),
                None => !(self is Table),
            },
    {
        match self {
            Item::Table(t) => Some(t),
            _ => None,
        }
    }

    /// The array of tables, where this is one.
    pub fn as_array_of_tables(&self) -> (r: Option<&ArrayOfTables>)
        ensures
            match r {
                Some(a) => *self == Item::ArrayOfTables(*a),
                None => !(self is ArrayOfTables),
            },
    {
        match self {
            Item::ArrayOfTables(a) => Some(a),
            _ => None,
        }
    }

    /// Whether this is a value.
    pub fn is_value(&self) -> (r: bool)
        ensures
            r == (self is Value),
    {
        self.as_value().is_some()
    }

    /// Whether this is a table.
    pub fn is_table(&self) -> (r: bool)
        ensures
            r == (self is Table),
    {
        self.as_table().is_some()
    }

    /// Whether this is an array of tables.
    pub fn is_array_of_tables(&self) -> (r: bool)
        ensures
            r == (self is ArrayOfTables),
    {
        self.as_array_of_tables().is_some()
    }
}

impl Item {
    /// Puts `item` here where nothing is held, and leaves what is held
    /// otherwise. Returns this place, to be read or written.
    pub fn or_insert(&mut self, item: Item) -> (r: &mut Item)
        ensures
            *r == (if *old(self) is Absent {
                item
            } else {
                *old(self)
            }),
            *final(self) == *final(r),
    {
        if self.is_none() {
            *self = item;
        }
        self
    }

    /// The value, to be changed in place, where this is one.
    pub fn as_value_mut(&mut self) -> (r: Option<&mut Value>)
        ensures
            match r {
                Some(v) => *old(self) == Item::Value(*v) && *final(self) == Item::Value(
                    *final(v),
                ),
                None => !(*old(self) is Value) && *final(self) == *old(self),
            },
    {
        match self {
            Item::Value(v) => Some(v),
            _ => None,
        }
    }

    /// The table, to be changed in place, where this is one.
    pub fn as_table_mut(&mut self) -> (r: Option<&mut Table>)
        ensures
            match r {
                Some(t) => *old(self) == Item::Table(*t) && *final(self) == Item::Table(
                    *final(t),
                ),
                None => !(*old(self) is Table) && *final(self) == *old(self),
            },
    {
        match self {
            Item::Table(t) => Some(t),
            _ => None,
        }
    }

    /// The array of tables, to be changed in place, where this is one.
    pub fn as_array_of_tables_mut(&mut self) -> (r: Option<&mut ArrayOfTables>)
        ensures
            match r {
                Some(a) => *old(self) == Item::ArrayOfTables(*a) && *final(self)
                    == Item::ArrayOfTables(*final(a)),
                None => !(*old(self) is ArrayOfTables) && *final(self) == *old(self),
            },
    {
        match self {
            Item::ArrayOfTables(a) => Some(a),
            _ => None,
        }
    }

    /// The integer, where this is a value that is one.
    pub fn as_integer(&self) -> (r: Option<i64>)
        ensures
            r == (match self {
                Item::Value(Value::Integer(f)) => Some(f.value),
                _ => None,
            }),
    {
        match self.as_value() {
            Some(v) => v.as_integer(),
            None => None,
        }
    }

    /// Whether this is a value that is an integer.
    pub fn is_integer(&self) -> (r: bool)
        ensures
            r == (self matches Item::Value(v) && v is Integer),
    {
        self.as_integer().is_some()
    }

    /// The floating-point number, where this is a value that is one.
    pub fn as_float(&self) -> (r: Option<Float>)
        ensures
            r == (match self {
                Item::Value(Value::Float(f)) => Some(f.value),
                _ => None,
            }),
    {
        match self.as_value() {
            Some(v) => v.as_float(),
            None => None,
        }
    }

    /// Whether this is a value that is a floating-point number.
    pub fn is_float(&self) -> (r: bool)
        ensures
            r == (self matches Item::Value(v) && v is Float),
    {
        self.as_float().is_some()
    }

    /// The boolean, where this is a value that is one.
    pub fn as_bool(&self) -> (r: Option<bool>)
        ensures
            r == (match self {
                Item::Value(Value::Boolean(f)) => Some(f.value),
                _ => None,
            }),
    {
        match self.as_value() {
            Some(v) => v.as_bool(),
            None => None,
        }
    }

    /// Whether this is a value that is a boolean.
    pub fn is_bool(&self) -> (r: bool)
        ensures
            r == (self matches Item::Value(v) && v is Boolean),
    {
        self.as_bool().is_some()
    }

    /// The text, where this is a value that is a string.
    pub fn as_str(&self) -> (r: Option<&str>)
        ensures
            match r {
                Some(s) => self matches Item::Value(Value::String(f)) && s@ == f.value@,
                None => !(self matches Item::Value(v) && v is String),
            },
    {
        match self.as_value() {
            Some(v) => v.as_str(),
            None => None,
        }
    }

    /// Whether this is a value that is a string.
    pub fn is_str(&self) -> (r: bool)
        ensures
            r == (self matches Item::Value(v) && v is String),
    {
        self.as_str().is_some()
    }

    /// The date-time, where this is a value that is one.
    pub fn as_date_time(&self) -> (r: Option<&DateTime>)
        ensures
            match r {
                Some(d) => self matches Item::Value(Value::DateTime(f)) && *d == f.value,
                None => !(self matches Item::Value(v) && v is DateTime),
            },
    {
        match self.as_value() {
            Some(v) => v.as_date_time(),
            None => None,
        }
    }

    /// Whether this is a value that is a date-time.
    pub fn is_date_time(&self) -> (r: bool)
        ensures
            r == (self matches Item::Value(v) && v is DateTime),
    {
        self.as_date_time().is_some()
    }

    /// The array, where this is a value that is one.
    pub fn as_array(&self) -> (r: Option<&Array>)
        ensures
            match r {
                Some(a) => *self == Item::Value(Value::Array(*a)),
                None => !(self matches Item::Value(v) && v is Array),
            },
    {
        match self.as_value() {
            Some(v) => v.as_array(),
            None => None,
        }
    }

    /// The array, to be changed in place, where this is a value that is one.
    pub fn as_array_mut(&mut self) -> (r: Option<&mut Array>)
        ensures
            match r {
                Some(a) => *old(self) == Item::Value(Value::Array(*a)) && *final(self)
                    == Item::Value(Value::Array(*final(a))),
                None => !(*old(self) matches Item::Value(v) && v is Array) && *final(self)
                    == *old(self),
            },
    {
        match self.as_value_mut() {
            Some(v) => v.as_array_mut(),
            None => None,
        }
    }

    /// Whether this is a value that is an array.
    pub fn is_array(&self) -> (r: bool)
        ensures
            r == (self matches Item::Value(v) && v is Array),
    {
        self.as_array().is_some()
    }

    /// The inline table, where this is a value that is one.
    pub fn as_inline_table(&self) -> (r: Option<&InlineTable>)
        ensures
            match r {
                Some(t) => *self == Item::Value(Value::InlineTable(*t)),
                None => !(self matches Item::Value(v) && v is InlineTable),
            },
    {
        match self.as_value() {
            Some(v) => v.as_inline_table(),
            None => None,
        }
    }

    /// The inline table, to be changed in place, where this is a value that is one.
    pub fn as_inline_table_mut(&mut self) -> (r: Option<&mut InlineTable>)
        ensures
            match r {
                Some(t) => *old(self) == Item::Value(Value::InlineTable(*t)) && *final(self)
                    == Item::Value(Value::InlineTable(*final(t))),
                None => !(*old(self) matches Item::Value(v) && v is InlineTable) && *final(self)
                    == *old(self),
            },
    {
        match self.as_value_mut() {
            Some(v) => v.as_inline_table_mut(),
            None => None,
        }
    }

    /// Whether this is a value that is an inline table.
    pub fn is_inline_table(&self) -> (r: bool)
        ensures
            r == (self matches Item::Value(v) && v is InlineTable),
    {
        self.as_inline_table().is_some()
    }
}

impl Default for Item {
    /// An item that holds nothing.
    fn default() -> (r: Item)
        ensures
            r is Absent,
    {
        Item::Absent
    }
}

impl Default for Table {
    /// An empty table with no decor.
    fn default() -> (r: Table)
        ensures
            r@ == Seq::<SlotView>::empty(),
            r.spec_decor()@ == (DecorView { prefix: Seq::empty(), suffix: Seq::empty() }),
            !r.spec_implicit(),
    {
        Table::with_decor(Decor::default())
    }
}

/// The item that holds what `v` converts into, with one space before it and
/// nothing behind it.
pub fn value<V: Into<Value>>(v: V) -> (r: Item)
    ensures
        r matches Item::Value(held) && held.spec_decor()@ == (DecorView {
            prefix: seq![' '],
            suffix: Seq::empty(),
        }) && exists|converted: Value|
            call_ensures(V::into, (v,), converted) && held == converted.with_decor(
                held.spec_decor(),
            ),
{
    proof {
        reveal_strlit(" ");
        reveal_strlit("");
        assert(" "@ =~= seq![' ']);
        assert(""@ =~= Seq::<char>::empty());
    }
    Item::Value(decorated(v.into(), " ", ""))
}

/// The item that holds an empty table.
pub fn table() -> (r: Item)
    ensures
        r matches Item::Table(t) && t@ == Seq::<SlotView>::empty() && t.spec_decor()@
            == (DecorView { prefix: seq!['\n'], suffix: Seq::empty() }) && !t.spec_implicit(),
{
    Item::Table(Table::new())
}

/// The item that holds an empty array of tables.
pub fn array() -> (r: Item)
    ensures
        r matches Item::ArrayOfTables(a) && a.values@.len() == 0,
{
    Item::ArrayOfTables(ArrayOfTables::new())
}

impl Clone for Table {
    /// A table with the same keys in the same order, each with a clone of
    /// what it holds.
    fn clone(&self) -> (r: Table)
        ensures
            slot_keys(r@) == slot_keys(self@),
            r.spec_decor() == self.spec_decor(),
            r.spec_implicit() == self.spec_implicit(),
    {
        let items = self.items.duplicate();
        proof {
            use_type_invariant(self);
            assert(slot_keys(slots_of(pairs_of(items))) =~= keys_of(pairs_of(items)));
            assert(slot_keys(self@) =~= keys_of(pairs_of(self.items)));
        }
        Table { items, decor: self.decor.clone(), implicit: self.implicit }
    }
}

} // verus!
