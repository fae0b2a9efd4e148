//! The slots of a table as the contracts speak of them, and what the
//! operations of a table do to them.

use vstd::prelude::*;
use crate::decor::ReprView;
use crate::formatted::key_repr_view;
use crate::key::KeyView;
use crate::table::{Item, TableKeyValue};

verus! {

/// A slot as the contracts speak of it.
pub struct SlotView {
    /// The key text, by which the slot is found.
    pub key: Seq<char>,
    /// The key as it is written.
    pub repr: ReprView,
    /// What the slot holds.
    pub item: Item,
}

/// The slot that a pair of the storage stands for.
pub open spec fn slot_view(p: (Seq<char>, TableKeyValue)) -> SlotView {
    SlotView { key: p.0, repr: p.1.key@, item: p.1.value }
}

/// The slots that the pairs of the storage stand for.
pub open spec fn slots_of(pairs: Seq<(Seq<char>, TableKeyValue)>) -> Seq<SlotView> {
    pairs.map_values(|p: (Seq<char>, TableKeyValue)| slot_view(p))
}

/// The key texts of `s`, in order.
pub open spec fn slot_keys(s: Seq<SlotView>) -> Seq<Seq<char>> {
    s.map_values(|v: SlotView| v.key)
}

/// The index in `s` of the slot with key text `key`.
pub open spec fn position(s: Seq<SlotView>, key: Seq<char>) -> Option<int> {
    slot_keys(s).index_of_first(key)
}

/// The item of the slot of `s` with key text `key`.
pub open spec fn item_at(s: Seq<SlotView>, key: Seq<char>) -> Option<Item> {
    match position(s, key) {
        Some(i) => Some(s[i].item),
        None => None,
    }
}

/// Whether `s` has a slot with key text `key` that holds something.
pub open spec fn has_item(s: Seq<SlotView>, key: Seq<char>) -> bool {
    item_at(s, key) matches Some(item) && !(item is Absent)
}

/// Whether `s` has a slot with key text `key` that holds a value.
pub open spec fn has_value(s: Seq<SlotView>, key: Seq<char>) -> bool {
    item_at(s, key) matches Some(item) && item is Value
}

/// Whether `s` has a slot with key text `key` that holds a table.
pub open spec fn has_table(s: Seq<SlotView>, key: Seq<char>) -> bool {
    item_at(s, key) matches Some(item) && item is Table
}

/// Whether `s` has a slot with key text `key` that holds an array of tables.
pub open spec fn has_array_of_tables(s: Seq<SlotView>, key: Seq<char>) -> bool {
    item_at(s, key) matches Some(item) && item is ArrayOfTables
}

/// Whether the header of a table with slots `s` is written: it is left out
/// where the table is implicit and no slot holds a value.
pub open spec fn header_shown(s: Seq<SlotView>, implicit: bool) -> bool {
    !(implicit && values_count(s) == 0)
}

/// `s` after the key `key` was asked for: where `s` has no slot for its key
/// text, a slot that holds nothing stands behind all others.
pub open spec fn probed(s: Seq<SlotView>, key: KeyView) -> Seq<SlotView> {
    if position(s, key.key) is Some {
        s
    } else {
        s.push(SlotView { key: key.key, repr: key_repr_view(key.raw), item: Item::Absent })
    }
}

/// `s` with `item` in the slot with key text `key`.
pub open spec fn with_item(s: Seq<SlotView>, key: Seq<char>, item: Item) -> Seq<SlotView> {
    match position(s, key) {
        Some(i) => s.update(i, SlotView { key: s[i].key, repr: s[i].repr, item }),
        None => s,
    }
}

/// The item that is handed out for a key that reads as `key`: what its key
/// text holds in `s`, and an absent item where it has no slot there.
pub open spec fn entry_item(s: Seq<SlotView>, key: KeyView) -> Item {
    item_at(probed(s, key), key.key)->Some_0
}

/// `s` after the key `key` was asked for and `written` was left in the place
/// that was handed out.
pub open spec fn after_entry(s: Seq<SlotView>, key: KeyView, written: Item) -> Seq<SlotView> {
    with_item(probed(s, key), key.key, written)
}

/// `s` without the slot with key text `key`.
pub open spec fn without(s: Seq<SlotView>, key: Seq<char>) -> Seq<SlotView> {
    match position(s, key) {
        Some(i) => s.remove(i),
        None => s,
    }
}

/// Whether a slot holds something.
pub open spec fn is_occupied() -> spec_fn(SlotView) -> bool {
    |v: SlotView| !(v.item is Absent)
}

/// Whether a slot holds a value.
pub open spec fn holds_value() -> spec_fn(SlotView) -> bool {
    |v: SlotView| v.item is Value
}

/// The number of slots of `s` that hold something.
pub open spec fn occupied(s: Seq<SlotView>) -> nat {
    s.filter(is_occupied()).len()
}

/// The number of slots of `s` that hold a value.
pub open spec fn values_count(s: Seq<SlotView>) -> nat {
    s.filter(holds_value()).len()
}

/// What [`position`] finds: the first slot with the key text, and none where
/// no slot has it.
pub proof fn lemma_position(s: Seq<SlotView>, key: Seq<char>)
    ensures
        match position(s, key) {
            Some(i) => 0 <= i < s.len() && s[i].key == key && forall|j: int|
                0 <= j < i ==> (#[trigger] s[j]).key != key,
            None => forall|j: int| 0 <= j < s.len() ==> (#[trigger] s[j]).key != key,
        },
{
    let keys = slot_keys(s);
    keys.index_of_first_ensures(key);
    match position(s, key) {
        Some(i) => {
            assert(keys[i] == s[i].key);
            assert forall|j: int| 0 <= j < i implies (#[trigger] s[j]).key != key by {
                assert(keys[j] == s[j].key);
            }
        },
        None => {
            assert forall|j: int| 0 <= j < s.len() implies (#[trigger] s[j]).key != key by {
                assert(keys[j] == s[j].key);
            }
        },
    }
}

/// Where no two slots have the same key text, a slot is found by its own.
pub proof fn lemma_position_of_slot(s: Seq<SlotView>, i: int)
    requires
        slot_keys(s).no_duplicates(),
        0 <= i < s.len(),
    ensures
        position(s, s[i].key) == Some(i),
{
    lemma_position(s, s[i].key);
    let found = position(s, s[i].key);
    assert(found is Some);
    let at = found->Some_0;
    assert(slot_keys(s)[at] == s[at].key);
    assert(slot_keys(s)[i] == s[i].key);
}

} // verus!
