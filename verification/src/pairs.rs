//! The ordered storage of a table: a `LinkedHashMap` from key text to slot.
//!
//! Verus does not look inside the map. What it holds is named by
//! [`pairs_of`], and each function here states, over that name, what the
//! method of the map that it calls does. The functions that change the map
//! also state that the call does not unwind: with strings for keys, no
//! method called here panics.

use vstd::prelude::*;
use linked_hash_map::LinkedHashMap;
use crate::table::TableKeyValue;

verus! {

/// The slots of a table, by key text, in the order in which they were inserted.
#[derive(Debug)]
#[verifier::external_body]
pub struct KeyValuePairs {
    map: LinkedHashMap<String, TableKeyValue>,
}

/// The pairs of key text and slot that the map holds, in iteration order.
pub uninterp spec fn pairs_of(p: KeyValuePairs) -> Seq<(Seq<char>, TableKeyValue)>;

/// The key texts of `s`, in order.
pub open spec fn keys_of(s: Seq<(Seq<char>, TableKeyValue)>) -> Seq<Seq<char>> {
    s.map_values(|p: (Seq<char>, TableKeyValue)| p.0)
}

/// The index in `s` of the pair with key text `key`.
pub open spec fn find(s: Seq<(Seq<char>, TableKeyValue)>, key: Seq<char>) -> Option<int> {
    keys_of(s).index_of_first(key)
}

impl KeyValuePairs {
    /// `LinkedHashMap::new`: a map that holds nothing.
    #[verifier::external_body]
    pub(crate) fn new() -> (r: KeyValuePairs)
        ensures
            pairs_of(r) == Seq::<(Seq<char>, TableKeyValue)>::empty(),
    {
        KeyValuePairs { map: LinkedHashMap::new() }
    }

    /// `LinkedHashMap::get`: the slot under `key`, where the map has one.
    #[verifier::external_body]
    pub(crate) fn get(&self, key: &str) -> (r: Option<&TableKeyValue>)
        ensures
            match find(pairs_of(*self), key@) {
                Some(i) => r == Some(&pairs_of(*self)[i].1),
                None => r is None,
            },
    {
        self.map.get(key)
    }

    /// `LinkedHashMap::entry` followed by `Entry::or_insert`: the slot under
    /// `key`. Where the map has none, `slot` is put under `key` behind all
    /// other pairs. The pairs that were there keep their places.
    #[verifier::external_body]
    pub(crate) fn entry_or_insert(&mut self, key: String, slot: TableKeyValue) -> (r:
        &mut TableKeyValue)
        ensures
            match find(pairs_of(*old(self)), key@) {
                Some(i) => *r == pairs_of(*old(self))[i].1 && pairs_of(*final(self)) == pairs_of(
                    *old(self),
                ).update(i, (key@, *final(r))),
                None => *r == slot && pairs_of(*final(self)) == pairs_of(*old(self)).push(
                    (key@, *final(r)),
                ),
            },
        no_unwind
    {
        self.map.entry(key).or_insert(slot)
    }

    /// `LinkedHashMap::remove`: takes the pair under `key` out of the map and
    /// returns its slot. The other pairs keep their order.
    #[verifier::external_body]
    pub(crate) fn remove(&mut self, key: &str) -> (r: Option<TableKeyValue>)
        ensures
            match find(pairs_of(*old(self)), key@) {
                Some(i) => r == Some(pairs_of(*old(self))[i].1) && pairs_of(*final(self))
                    == pairs_of(*old(self)).remove(i),
                None => r is None && pairs_of(*final(self)) == pairs_of(*old(self)),
            },
        no_unwind
    {
        self.map.remove(key)
    }

    /// `LinkedHashMap::get_refresh`: moves the pair under `key` behind all
    /// other pairs. Without such a pair nothing changes.
    #[verifier::external_body]
    pub(crate) fn refresh(&mut self, key: &str)
        ensures
            match find(pairs_of(*old(self)), key@) {
                Some(i) => pairs_of(*final(self)) == pairs_of(*old(self)).remove(i).push(
                    pairs_of(*old(self))[i],
                ),
                None => pairs_of(*final(self)) == pairs_of(*old(self)),
            },
        no_unwind
    {
        self.map.get_refresh(key);
    }

    /// `LinkedHashMap::iter`: the pairs in order, each key as a string slice.
    #[verifier::external_body]
    pub(crate) fn iter(&self) -> (r: Vec<(&str, &TableKeyValue)>)
        ensures
            r@.len() == pairs_of(*self).len(),
            forall|i: int|
                0 <= i < r@.len() ==> (#[trigger] r@[i]).0@ == pairs_of(*self)[i].0 && *r@[i].1
                    == pairs_of(*self)[i].1,
    {
        self.map.iter().map(|(k, v)| (k.as_str(), v)).collect()
    }

    /// `LinkedHashMap::clone`: a map with the same keys in the same order,
    /// each with a clone of its slot.
    #[verifier::external_body]
    pub(crate) fn duplicate(&self) -> (r: KeyValuePairs)
        ensures
            keys_of(pairs_of(r)) == keys_of(pairs_of(*self)),
    {
        KeyValuePairs { map: self.map.clone() }
    }
}

} // verus!
