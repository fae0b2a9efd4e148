//! A format-preserving, mutable model of the tables of a TOML document.
//!
//! A [`Table`] is an ordered, duplicate-free mapping from key text to a
//! key/value slot; an [`Item`] is what a slot holds. Every function here
//! carries a contract that Verus proves.

pub mod array_of_tables;
pub mod decor;
pub mod formatted;
pub mod key;
pub mod laws;
pub mod model;
pub mod order;
pub mod pairs;
pub mod table;
pub mod value;

pub use crate::array_of_tables::ArrayOfTables;
pub use crate::decor::{Decor, Repr};
pub use crate::key::{Key, KeyError};
pub use crate::table::{array, table, value, Item, Table, TableKeyValue};
pub use crate::value::{Array, Date, DateTime, Float, Formatted, InlineTable, Time, Value};
