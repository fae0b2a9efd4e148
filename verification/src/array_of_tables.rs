//! Arrays of tables: the tables that share one key.

use vstd::prelude::*;
use crate::model::slot_keys;
use crate::table::Table;

verus! {

/// A sequence of tables under one key.
#[derive(Debug)]
pub struct ArrayOfTables {
    pub values: Vec<Table>,
}

impl Clone for ArrayOfTables {
    /// As many tables, each with the keys of the table in its place, in the
    /// same order.
    fn clone(&self) -> (r: ArrayOfTables)
        ensures
            r.values@.len() == self.values@.len(),
            forall|i: int|
                0 <= i < r.values@.len() ==> slot_keys((#[trigger] r.values@[i])@) == slot_keys(
                    self.values@[i]@,
                ),
    {
        let mut values: Vec<Table> = Vec::new();
        let mut i: usize = 0;
        while i < self.values.len()
            invariant
                i <= self.values@.len(),
                values@.len() == i,
                forall|j: int|
                    0 <= j < i ==> slot_keys((#[trigger] values@[j])@) == slot_keys(
                        self.values@[j]@,
                    ),
            decreases self.values@.len() - i,
        {
            values.push(self.values[i].clone());
            i += 1;
        }
        ArrayOfTables { values }
    }
}

impl ArrayOfTables {
    /// An array of no tables.
    pub fn new() -> (r: ArrayOfTables)
        ensures
            r.values@.len() == 0,
    {
        ArrayOfTables { values: Vec::new() }
    }

    /// The number of tables.
    pub fn len(&self) -> (r: usize)
        ensures
            r == self.values@.len(),
    {
        self.values.len()
    }

    /// Whether there is no table.
    pub fn is_empty(&self) -> (r: bool)
        ensures
            r == (self.values@.len() == 0),
    {
        self.values.len() == 0
    }

    /// The table at `index`, where there is one.
    pub fn get(&self, index: usize) -> (r: Option<&Table>)
        ensures
            match r {
                Some(t) => index < self.values@.len() && *t == self.values@[index as int],
                None => index >= self.values@.len(),
            },
    {
        if index < self.values.len() {
            Some(&self.values[index])
        } else {
            None
        }
    }

    /// Appends `table`.
    pub fn append(&mut self, table: Table)
        ensures
            final(self).values@ == old(self).values@.push(table),
    {
        self.values.push(table);
    }
}

} // verus!
