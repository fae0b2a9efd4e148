//! What holds of every table, whatever is done to it.
//!
//! The laws speak of the slots of a table and of the functions by which the
//! contracts of [`Table`] say what its methods return and change.

use vstd::prelude::*;
use crate::formatted::key_repr_view;
use crate::key::{parse_key, KeyView};
use crate::order::ascending;
use crate::model::{
    after_entry, entry_item, has_array_of_tables, has_item, has_table, has_value, header_shown,
    holds_value, is_occupied, item_at, lemma_position, lemma_position_of_slot, occupied, position,
    probed, slot_keys, values_count, with_item, without, SlotView,
};
use crate::table::{Item, Table};

verus! {

/// Whether two items are of the same kind.
pub open spec fn same_kind(a: Item, b: Item) -> bool {
    (a is Absent <==> b is Absent) && (a is Value <==> b is Value) && (a is Table <==> b is Table)
        && (a is ArrayOfTables <==> b is ArrayOfTables)
}

/// After a key was asked for, the table has a slot for its key text, and no
/// two slots have the same key text.
pub proof fn lemma_probed(s: Seq<SlotView>, key: KeyView)
    requires
        slot_keys(s).no_duplicates(),
    ensures
        slot_keys(probed(s, key)).no_duplicates(),
        position(probed(s, key), key.key) is Some,
        position(s, key.key) is None ==> position(probed(s, key), key.key) == Some(
            s.len() as int,
        ),
        forall|other: Seq<char>|
            other != key.key ==> position(probed(s, key), other) == position(s, other),
{
    let after = probed(s, key);
    lemma_position(s, key.key);
    if position(s, key.key) is None {
        assert forall|a: int, b: int| 0 <= a < after.len() && 0 <= b < after.len() && a
            != b implies slot_keys(after)[a] != slot_keys(after)[b] by {
            if a < s.len() {
                assert(slot_keys(after)[a] == s[a].key);
                assert(slot_keys(s)[a] == s[a].key);
            }
            if b < s.len() {
                assert(slot_keys(after)[b] == s[b].key);
                assert(slot_keys(s)[b] == s[b].key);
            }
        }
        lemma_position_of_slot(after, s.len() as int);
        assert forall|other: Seq<char>| other != key.key implies position(after, other)
            == position(s, other) by {
            lemma_position(s, other);
            lemma_position(after, other);
            match position(s, other) {
                Some(i) => {
                    assert(after[i] == s[i]);
                    lemma_position_of_slot(after, i);
                },
                None => {
                    if let Some(j) = position(after, other) {
                        if j < s.len() {
                            assert(after[j] == s[j]);
                        }
                    }
                },
            }
        }
    }
}

/// Writing an item under a key text changes what that key text holds, and
/// nothing else: the places of the slots, and what the other key texts hold,
/// stay.
pub proof fn lemma_with_item(s: Seq<SlotView>, key: Seq<char>, item: Item)
    requires
        slot_keys(s).no_duplicates(),
    ensures
        slot_keys(with_item(s, key, item)) == slot_keys(s),
        forall|other: Seq<char>| position(with_item(s, key, item), other) == position(s, other),
        position(s, key) is Some ==> item_at(with_item(s, key, item), key) == Some(item),
        forall|other: Seq<char>|
            other != key ==> item_at(with_item(s, key, item), other) == item_at(s, other),
{
    let after = with_item(s, key, item);
    lemma_position(s, key);
    assert(slot_keys(after) =~= slot_keys(s));
    assert forall|other: Seq<char>| other != key implies item_at(after, other) == item_at(
        s,
        other,
    ) by {
        lemma_position(s, other);
    }
}

/// A key that was never asked for holds nothing, not even an absent item.
pub proof fn law_untouched_key(t: Table, key: Seq<char>)
    requires
        !slot_keys(t@).contains(key),
    ensures
        !has_item(t@, key),
        item_at(t@, key) is None,
{
    slot_keys(t@).index_of_first_ensures(key);
}

/// After a key was asked for and nothing was written, the table has a slot
/// under its text `key`, and that slot holds nothing. This is so where the
/// table held nothing under `key` before, and `key` is its own key text or
/// the table had a slot under it already.
pub proof fn law_probe_holds_nothing(t: Table, key: Seq<char>)
    requires
        t.wf(),
        parse_key(key) is Some,
        !has_item(t@, key),
        parse_key(key)->Some_0.key == key || item_at(t@, key) is Some,
    ensures
        after_entry(t@, parse_key(key)->Some_0, entry_item(t@, parse_key(key)->Some_0)) == probed(
            t@,
            parse_key(key)->Some_0,
        ),
        item_at(probed(t@, parse_key(key)->Some_0), key) == Some(Item::Absent),
        !has_item(probed(t@, parse_key(key)->Some_0), key),
{
    let parsed = parse_key(key)->Some_0;
    let after = probed(t@, parsed);
    lemma_probed(t@, parsed);
    lemma_position(t@, key);
    lemma_position(after, parsed.key);
    assert(after_entry(t@, parsed, entry_item(t@, parsed)) =~= after);
}

/// After an item that is not absent was written into the place that `entry`
/// returned for `key`, the table contains `key`, and holds under it an item
/// of the kind that was written. This is so where `key` is its own key text,
/// or the table held an item of that kind under `key` already.
pub proof fn law_written_item_is_contained(t: Table, key: Seq<char>, written: Item)
    requires
        t.wf(),
        parse_key(key) is Some,
        !(written is Absent),
        parse_key(key)->Some_0.key == key || (item_at(t@, key) matches Some(held) && same_kind(
            held,
            written,
        )),
    ensures
        has_item(after_entry(t@, parse_key(key)->Some_0, written), key),
        has_value(after_entry(t@, parse_key(key)->Some_0, written), key) == (written is Value),
        has_table(after_entry(t@, parse_key(key)->Some_0, written), key) == (written is Table),
        has_array_of_tables(after_entry(t@, parse_key(key)->Some_0, written), key) == (
        written is ArrayOfTables),
{
    let parsed = parse_key(key)->Some_0;
    lemma_probed(t@, parsed);
    lemma_with_item(probed(t@, parsed), parsed.key, written);
    if parsed.key != key {
        lemma_position(t@, key);
        lemma_position(probed(t@, parsed), key);
        let i = position(t@, key)->Some_0;
        assert(probed(t@, parsed)[i] == t@[i]);
    }
}

/// A key that is asked for first gets the place behind all other slots, with
/// what was written; a key that has a slot keeps its place, and so do all
/// others.
pub proof fn law_entry_keeps_order(t: Table, key: Seq<char>, written: Item)
    requires
        t.wf(),
        parse_key(key) is Some,
    ensures
        position(t@, parse_key(key)->Some_0.key) is None ==> after_entry(
            t@,
            parse_key(key)->Some_0,
            written,
        ) == t@.push(
            SlotView {
                key: parse_key(key)->Some_0.key,
                repr: key_repr_view(parse_key(key)->Some_0.raw),
                item: written,
            },
        ),
        position(t@, parse_key(key)->Some_0.key) is Some ==> slot_keys(
            after_entry(t@, parse_key(key)->Some_0, written),
        ) == slot_keys(t@),
        slot_keys(after_entry(t@, parse_key(key)->Some_0, written)).no_duplicates(),
{
    let parsed = parse_key(key)->Some_0;
    lemma_probed(t@, parsed);
    lemma_with_item(probed(t@, parsed), parsed.key, written);
    if position(t@, parsed.key) is None {
        assert(after_entry(t@, parsed, written) =~= t@.push(
            SlotView { key: parsed.key, repr: key_repr_view(parsed.raw), item: written },
        ));
    }
}

/// Asking for a key twice, with nothing written in between, is asking for it
/// once: the second call finds the slot of the first, adds none, and the
/// number of slots that hold something is what it was.
pub proof fn law_probe_twice(t: Table, key: Seq<char>)
    requires
        t.wf(),
        parse_key(key) is Some,
    ensures
        probed(probed(t@, parse_key(key)->Some_0), parse_key(key)->Some_0) == probed(
            t@,
            parse_key(key)->Some_0,
        ),
        entry_item(probed(t@, parse_key(key)->Some_0), parse_key(key)->Some_0) == entry_item(
            t@,
            parse_key(key)->Some_0,
        ),
        slot_keys(probed(t@, parse_key(key)->Some_0)).no_duplicates(),
        occupied(probed(t@, parse_key(key)->Some_0)) == occupied(t@),
{
    let parsed = parse_key(key)->Some_0;
    lemma_probed(t@, parsed);
    if position(t@, parsed.key) is None {
        let fresh = probed(t@, parsed)[t@.len() as int];
        t@.lemma_filter_len_push(is_occupied(), fresh);
    }
}

/// After the slot under `key` was taken out, the table has no slot under
/// `key`, the other key texts hold what they held, and no two slots have the
/// same key text. Where there was no such slot, the table is as it was.
pub proof fn law_remove(t: Table, key: Seq<char>)
    requires
        t.wf(),
    ensures
        item_at(without(t@, key), key) is None,
        item_at(t@, key) is None ==> without(t@, key) == t@,
        forall|other: Seq<char>|
            other != key ==> item_at(without(t@, key), other) == item_at(t@, other),
        slot_keys(without(t@, key)).no_duplicates(),
{
    let s = t@;
    let after = without(s, key);
    lemma_position(s, key);
    match position(s, key) {
        Some(i) => {
            assert forall|j: int| 0 <= j < after.len() implies (#[trigger] after[j]).key
                != key && slot_keys(after)[j] == slot_keys(s)[if j < i {
                j
            } else {
                j + 1
            }] by {
                let o = if j < i { j } else { j + 1 };
                assert(after[j] == s[o]);
                assert(slot_keys(s)[o] == s[o].key);
                assert(slot_keys(s)[i] == s[i].key);
            }
            lemma_position(after, key);
            assert forall|other: Seq<char>| other != key implies item_at(after, other)
                == item_at(s, other) by {
                lemma_position(s, other);
                lemma_position(after, other);
                match position(s, other) {
                    Some(a) => {
                        let b = if a < i { a } else { a - 1 };
                        assert(after[b] == s[a]);
                        lemma_position_of_slot(after, b);
                    },
                    None => {
                        if let Some(b) = position(after, other) {
                            let a = if b < i { b } else { b + 1 };
                            assert(after[b] == s[a]);
                        }
                    },
                }
            }
        },
        None => {},
    }
}

/// Slots in another order are the same slots: where `after` holds the slots
/// of the table, each once, every key text holds in `after` the item that it
/// holds in the table, tables and arrays of tables with all that is in them.
pub proof fn law_reordering_keeps_items(t: Table, after: Seq<SlotView>, key: Seq<char>)
    requires
        t.wf(),
        after.to_multiset() == t@.to_multiset(),
    ensures
        item_at(after, key) == item_at(t@, key),
        after.len() == t@.len(),
{
    let s = t@;
    vstd::seq_lib::to_multiset_len(s);
    vstd::seq_lib::to_multiset_len(after);
    lemma_position(s, key);
    lemma_position(after, key);
    match position(after, key) {
        Some(b) => {
            assert(after.contains(after[b]));
            vstd::seq_lib::to_multiset_contains(after, after[b]);
            vstd::seq_lib::to_multiset_contains(s, after[b]);
            let a = choose|a: int| 0 <= a < s.len() && s[a] == after[b];
            lemma_position_of_slot(s, a);
        },
        None => {
            if let Some(a) = position(s, key) {
                assert(s.contains(s[a]));
                vstd::seq_lib::to_multiset_contains(s, s[a]);
                vstd::seq_lib::to_multiset_contains(after, s[a]);
                let b = choose|b: int| 0 <= b < after.len() && after[b] == s[a];
                assert(after[b].key == key);
            }
        },
    }
}

/// Slots in ascending order of their key texts have no two equal key texts.
pub proof fn law_sorted_keys_are_unique(s: Seq<SlotView>)
    requires
        ascending(slot_keys(s)),
    ensures
        slot_keys(s).no_duplicates(),
{
    crate::order::lemma_ascending_is_distinct(slot_keys(s));
}

/// A slot that holds a value holds something, so no table has more values
/// than occupied slots, nor more occupied slots than slots.
pub proof fn law_counts(t: Table)
    ensures
        values_count(t@) <= occupied(t@) <= t@.len(),
{
    lemma_counts(t@);
}

/// The same, of any sequence of slots.
pub proof fn lemma_counts(s: Seq<SlotView>)
    ensures
        values_count(s) <= occupied(s) <= s.len(),
    decreases s.len(),
{
    if s.len() == 0 {
        s.lemma_filter_len(is_occupied());
        s.lemma_filter_len(holds_value());
    } else {
        lemma_counts(s.drop_last());
        assert(s.drop_last().push(s.last()) =~= s);
        s.drop_last().lemma_filter_len_push(is_occupied(), s.last());
        s.drop_last().lemma_filter_len_push(holds_value(), s.last());
    }
}

/// An implicit table without a value of its own has no header, whatever else
/// its slots hold; a table that is not implicit always has one.
pub proof fn law_implicit_header(t: Table)
    ensures
        t.spec_implicit() && values_count(t@) == 0 ==> !header_shown(t@, t.spec_implicit()),
        !t.spec_implicit() ==> header_shown(t@, t.spec_implicit()),
{
}

} // verus!
