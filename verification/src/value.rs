//! Values: what stands to the right of a key, other than a table.

use vstd::prelude::*;
use vstd::std_specs::convert::FromSpecImpl;
use crate::decor::{Decor, DecorView};
use crate::order::{key_lt, lemma_key_lt_irreflexive, lemma_key_lt_total, text_lt};

verus! {

/// A floating-point number, held as the bits of its IEEE 754 binary64 form.
#[derive(Clone, Copy, Debug, PartialEq, Eq)]
pub struct Float {
    pub bits: u64,
}

/// A calendar date.
#[derive(Clone, Copy, Debug, PartialEq, Eq)]
pub struct Date {
    pub year: u16,
    pub month: u8,
    pub day: u8,
}

/// A time of day.
#[derive(Clone, Copy, Debug, PartialEq, Eq)]
pub struct Time {
    pub hour: u8,
    pub minute: u8,
    pub second: u8,
    pub nanosecond: u32,
}

/// A date, a time, or both, with or without an offset from UTC.
#[derive(Clone, Copy, Debug, PartialEq, Eq)]
pub enum DateTime {
    /// A date and a time, `offset_minutes` east of UTC.
    OffsetDateTime { date: Date, time: Time, offset_minutes: i16 },
    /// A date and a time in no stated zone.
    LocalDateTime { date: Date, time: Time },
    /// A date alone.
    LocalDate(Date),
    /// A time alone.
    LocalTime(Time),
}

/// A scalar with the decor around it.
#[derive(Clone, Debug)]
pub struct Formatted<T> {
    pub value: T,
    pub decor: Decor,
}

/// A sequence of values between square brackets.
#[derive(Debug)]
pub struct Array {
    pub values: Vec<Value>,
    pub decor: Decor,
}

/// A key of an inline table with its value.
#[derive(Debug)]
pub struct InlinePair {
    pub key: String,
    pub value: Value,
}

/// A table written on one line, between braces.
#[derive(Debug)]
pub struct InlineTable {
    pub items: Vec<InlinePair>,
    pub decor: Decor,
}

/// A value: a scalar, an array or an inline table.
#[derive(Debug)]
pub enum Value {
    Integer(Formatted<i64>),
    String(Formatted<String>),
    Float(Formatted<Float>),
    DateTime(Formatted<DateTime>),
    Boolean(Formatted<bool>),
    Array(Array),
    InlineTable(InlineTable),
}

/// A decor with no text on either side.
pub open spec fn no_decor() -> DecorView {
    DecorView { prefix: Seq::empty(), suffix: Seq::empty() }
}

/// Whether two values are alike: equal scalars, or arrays of values that are
/// alike one by one, or inline tables with the same keys, in the same order,
/// and values that are alike one by one; in each case inside the same decor.
pub open spec fn alike(a: Value, b: Value) -> bool
    decreases a,
{
    match a {
        Value::Array(x) => b matches Value::Array(y) && x.decor == y.decor && x.values@.len()
            == y.values@.len() && forall|i: int|
            0 <= i < x.values@.len() ==> alike(#[trigger] x.values@[i], y.values@[i]),
        Value::InlineTable(x) => b matches Value::InlineTable(y) && x.decor == y.decor
            && x.items@.len() == y.items@.len() && forall|i: int|
            0 <= i < x.items@.len() ==> (#[trigger] x.items@[i]).key == y.items@[i].key && alike(
                x.items@[i].value,
                y.items@[i].value,
            ),
        _ => a == b,
    }
}

/// Whether the values of `a` and of `b` are alike one by one.
pub open spec fn values_alike(a: Seq<Value>, b: Seq<Value>) -> bool {
    a.len() == b.len() && forall|i: int| 0 <= i < a.len() ==> alike(#[trigger] a[i], b[i])
}

/// Whether the pairs of `a` and of `b` have the same keys and values that are
/// alike, one by one.
pub open spec fn pairs_alike(a: Seq<InlinePair>, b: Seq<InlinePair>) -> bool {
    a.len() == b.len() && forall|i: int|
        0 <= i < a.len() ==> (#[trigger] a[i]).key == b[i].key && alike(a[i].value, b[i].value)
}

/// A value like `value`.
fn clone_value(value: &Value) -> (r: Value)
    ensures
        alike(*value, r),
    decreases value,
{
    match value {
        Value::Integer(f) => Value::Integer(Formatted { value: f.value, decor: f.decor.clone() }),
        Value::String(f) => Value::String(
            Formatted { value: f.value.clone(), decor: f.decor.clone() },
        ),
        Value::Float(f) => Value::Float(Formatted { value: f.value, decor: f.decor.clone() }),
        Value::DateTime(f) => Value::DateTime(
            Formatted { value: f.value, decor: f.decor.clone() },
        ),
        Value::Boolean(f) => Value::Boolean(Formatted { value: f.value, decor: f.decor.clone() }),
        Value::Array(a) => {
            proof {
                assert(decreases_to!(*value => value->Array_0));
                assert(decreases_to!(a => a.values));
            }
            Value::Array(Array { values: clone_values(&a.values), decor: a.decor.clone() })
        },
        Value::InlineTable(t) => {
            proof {
                assert(decreases_to!(*value => value->InlineTable_0));
                assert(decreases_to!(t => t.items));
            }
            Value::InlineTable(
                InlineTable { items: clone_pairs(&t.items), decor: t.decor.clone() },
            )
        },
    }
}

/// Values like those of `values`, in the same order.
fn clone_values(values: &Vec<Value>) -> (r: Vec<Value>)
    ensures
        values_alike(values@, r@),
    decreases values,
{
    let mut out: Vec<Value> = Vec::new();
    let mut i: usize = 0;
    while i < values.len()
        invariant
            i <= values@.len(),
            out@.len() == i,
            forall|j: int| 0 <= j < i ==> alike(#[trigger] values@[j], out@[j]),
        decreases values@.len() - i,
    {
        proof {
            vstd::std_specs::vec::axiom_vec_index_decreases(*values, i as int);
        }
        out.push(clone_value(&values[i]));
        i += 1;
    }
    out
}

/// Pairs like those of `items`, in the same order.
fn clone_pairs(items: &Vec<InlinePair>) -> (r: Vec<InlinePair>)
    ensures
        pairs_alike(items@, r@),
    decreases items,
{
    let mut out: Vec<InlinePair> = Vec::new();
    let mut i: usize = 0;
    while i < items.len()
        invariant
            i <= items@.len(),
            out@.len() == i,
            forall|j: int|
                0 <= j < i ==> (#[trigger] items@[j]).key == out@[j].key && alike(
                    items@[j].value,
                    out@[j].value,
                ),
        decreases items@.len() - i,
    {
        proof {
            vstd::std_specs::vec::axiom_vec_index_decreases(*items, i as int);
            assert(decreases_to!(items[i as int] => items[i as int].value));
        }
        let pair = &items[i];
        out.push(InlinePair { key: pair.key.clone(), value: clone_value(&pair.value) });
        i += 1;
    }
    out
}

impl Clone for Value {
    /// A value like this one.
    fn clone(&self) -> (r: Value)
        ensures
            alike(*self, r),
    {
        clone_value(self)
    }
}

impl Clone for Array {
    /// An array of values like those of this one, inside the same decor.
    fn clone(&self) -> (r: Array)
        ensures
            values_alike(self.values@, r.values@),
            r.decor == self.decor,
    {
        Array { values: clone_values(&self.values), decor: self.decor.clone() }
    }
}

impl Clone for InlineTable {
    /// An inline table of pairs like those of this one, inside the same decor.
    fn clone(&self) -> (r: InlineTable)
        ensures
            pairs_alike(self.items@, r.items@),
            r.decor == self.decor,
    {
        InlineTable { items: clone_pairs(&self.items), decor: self.decor.clone() }
    }
}

impl Clone for InlinePair {
    /// A pair with the same key and a value like that of this one.
    fn clone(&self) -> (r: InlinePair)
        ensures
            r.key == self.key,
            alike(self.value, r.value),
    {
        InlinePair { key: self.key.clone(), value: clone_value(&self.value) }
    }
}

impl Array {
    /// An array with no values and no decor.
    pub fn new() -> (r: Array)
        ensures
            r.values@.len() == 0,
            r.decor@ == no_decor(),
    {
        Array { values: Vec::new(), decor: Decor::default() }
    }

    /// The number of values.
    pub fn len(&self) -> (r: usize)
        ensures
            r == self.values@.len(),
    {
        self.values.len()
    }

    /// Whether there is no value.
    pub fn is_empty(&self) -> (r: bool)
        ensures
            r == (self.values@.len() == 0),
    {
        self.values.len() == 0
    }

    /// The value at `index`, where there is one.
    pub fn get(&self, index: usize) -> (r: Option<&Value>)
        ensures
            match r {
                Some(v) => index < self.values@.len() && *v == self.values@[index as int],
                None => index >= self.values@.len(),
            },
    {
        if index < self.values.len() {
            Some(&self.values[index])
        } else {
            None
        }
    }

    /// Appends `value`.
    pub fn push(&mut self, value: Value)
        ensures
            final(self).values@ == old(self).values@.push(value),
            final(self).decor == old(self).decor,
    {
        self.values.push(value);
    }
}

/// The index of the first pair of `items` whose key text is `key`.
pub open spec fn first_with_key(items: Seq<InlinePair>, key: Seq<char>) -> Option<int> {
    if exists|i: int| 0 <= i < items.len() && (#[trigger] items[i]).key@ == key {
        Some(
            choose|i: int|
                0 <= i < items.len() && (#[trigger] items[i]).key@ == key && forall|j: int|
                    0 <= j < i ==> (#[trigger] items[j]).key@ != key,
        )
    } else {
        None
    }
}

impl InlineTable {
    /// An inline table with no pairs and no decor.
    pub fn new() -> (r: InlineTable)
        ensures
            r.items@.len() == 0,
            r.decor@ == no_decor(),
    {
        InlineTable { items: Vec::new(), decor: Decor::default() }
    }

    /// The number of pairs.
    pub fn len(&self) -> (r: usize)
        ensures
            r == self.items@.len(),
    {
        self.items.len()
    }

    /// Whether there is no pair.
    pub fn is_empty(&self) -> (r: bool)
        ensures
            r == (self.items@.len() == 0),
    {
        self.items.len() == 0
    }

    /// The value of the first pair whose key is `key`.
    pub fn get(&self, key: &str) -> (r: Option<&Value>)
        ensures
            match r {
                Some(v) => first_with_key(self.items@, key@) matches Some(i) && *v
                    == self.items@[i].value,
                None => first_with_key(self.items@, key@) is None,
            },
    {
        let mut i: usize = 0;
        while i < self.items.len()
            invariant
                i <= self.items@.len(),
                forall|j: int| 0 <= j < i ==> (#[trigger] self.items@[j]).key@ != key@,
            decreases self.items.len() - i,
        {
            let name = self.items[i].key.as_str();
            if !text_lt(name, key) && !text_lt(key, name) {
                proof {
                    lemma_key_lt_total(name@, key@);
                    let at = i as int;
                    assert(0 <= at < self.items@.len() && self.items@[at].key@ == key@
                        && forall|j: int| 0 <= j < at ==> (#[trigger] self.items@[j]).key@ != key@);
                    let found = first_with_key(self.items@, key@)->Some_0;
                    assert(found == at) by {
                        if found < at {
                            assert(self.items@[found].key@ != key@);
                        } else if at < found {
                            assert(self.items@[at].key@ != key@);
                        }
                    }
                }
                return Some(&self.items[i].value);
            }
            proof {
                if name@ == key@ {
                    lemma_key_lt_irreflexive(key@);
                }
            }
            i += 1;
        }
        None
    }
}

impl Value {
    /// The decor around this value.
    pub open spec fn spec_decor(&self) -> Decor {
        match self {
            Value::Integer(f) => f.decor,
            Value::String(f) => f.decor,
            Value::Float(f) => f.decor,
            Value::DateTime(f) => f.decor,
            Value::Boolean(f) => f.decor,
            Value::Array(a) => a.decor,
            Value::InlineTable(t) => t.decor,
        }
    }

    /// This value inside another decor.
    pub open spec fn with_decor(self, decor: Decor) -> Value {
        match self {
            Value::Integer(f) => Value::Integer(Formatted { value: f.value, decor }),
            Value::String(f) => Value::String(Formatted { value: f.value, decor }),
            Value::Float(f) => Value::Float(Formatted { value: f.value, decor }),
            Value::DateTime(f) => Value::DateTime(Formatted { value: f.value, decor }),
            Value::Boolean(f) => Value::Boolean(Formatted { value: f.value, decor }),
            Value::Array(a) => Value::Array(Array { values: a.values, decor }),
            Value::InlineTable(t) => Value::InlineTable(InlineTable { items: t.items, decor }),
        }
    }

    /// The decor around this value.
    pub fn decor(&self) -> (r: &Decor)
        ensures
            *r == self.spec_decor(),
    {
        match self {
            Value::Integer(f) => &f.decor,
            Value::String(f) => &f.decor,
            Value::Float(f) => &f.decor,
            Value::DateTime(f) => &f.decor,
            Value::Boolean(f) => &f.decor,
            Value::Array(a) => &a.decor,
            Value::InlineTable(t) => &t.decor,
        }
    }

    /// The integer, where this is one.
    pub fn as_integer(&self) -> (r: Option<i64>)
        ensures
            r == (match self {
                Value::Integer(f) => Some(f.value),
                _ => None,
            }),
    {
        match self {
            Value::Integer(f) => Some(f.value),
            _ => None,
        }
    }

    /// Whether this is an integer.
    pub fn is_integer(&self) -> (r: bool)
        ensures
            r == (self is Integer),
    {
        self.as_integer().is_some()
    }

    /// The floating-point number, where this is one.
    pub fn as_float(&self) -> (r: Option<Float>)
        ensures
            r == (match self {
                Value::Float(f) => Some(f.value),
                _ => None,
            }),
    {
        match self {
            Value::Float(f) => Some(f.value),
            _ => None,
        }
    }

    /// Whether this is a floating-point number.
    pub fn is_float(&self) -> (r: bool)
        ensures
            r == (self is Float),
    {
        self.as_float().is_some()
    }

    /// The boolean, where this is one.
    pub fn as_bool(&self) -> (r: Option<bool>)
        ensures
            r == (match self {
                Value::Boolean(f) => Some(f.value),
                _ => None,
            }),
    {
        match self {
            Value::Boolean(f) => Some(f.value),
            _ => None,
        }
    }

    /// Whether this is a boolean.
    pub fn is_bool(&self) -> (r: bool)
        ensures
            r == (self is Boolean),
    {
        self.as_bool().is_some()
    }

    /// The text, where this is a string.
    pub fn as_str(&self) -> (r: Option<&str>)
        ensures
            match r {
                Some(s) => self matches Value::String(f) && s@ == f.value@,
                None => !(self is String),
            },
    {
        match self {
            Value::String(f) => Some(f.value.as_str()),
            _ => None,
        }
    }

    /// Whether this is a string.
    pub fn is_str(&self) -> (r: bool)
        ensures
            r == (self is String),
    {
        self.as_str().is_some()
    }

    /// The date-time, where this is one.
    pub fn as_date_time(&self) -> (r: Option<&DateTime>)
        ensures
            match r {
                Some(d) => self matches Value::DateTime(f) && *d == f.value,
                None => !(self is DateTime),
            },
    {
        match self {
            Value::DateTime(f) => Some(&f.value),
            _ => None,
        }
    }

    /// Whether this is a date-time.
    pub fn is_date_time(&self) -> (r: bool)
        ensures
            r == (self is DateTime),
    {
        self.as_date_time().is_some()
    }

    /// The array, where this is one.
    pub fn as_array(&self) -> (r: Option<&Array>)
        ensures
            match r {
                Some(a) => *self == Value::Array(*a),
                None => !(self is Array),
            },
    {
        match self {
            Value::Array(a) => Some(a),
            _ => None,
        }
    }

    /// The array, to be changed in place, where this is one.
    pub fn as_array_mut(&mut self) -> (r: Option<&mut Array>)
        ensures
            match r {
                Some(a) => *old(self) == Value::Array(*a) && *final(self) == Value::Array(
                    *final(a),
                ),
                None => !(*old(self) is Array) && *final(self) == *old(self),
            },
    {
        match self {
            Value::Array(a) => Some(a),
            _ => None,
        }
    }

    /// Whether this is an array.
    pub fn is_array(&self) -> (r: bool)
        ensures
            r == (self is Array),
    {
        self.as_array().is_some()
    }

    /// The inline table, where this is one.
    pub fn as_inline_table(&self) -> (r: Option<&InlineTable>)
        ensures
            match r {
                Some(t) => *self == Value::InlineTable(*t),
                None => !(self is InlineTable),
            },
    {
        match self {
            Value::InlineTable(t) => Some(t),
            _ => None,
        }
    }

    /// The inline table, to be changed in place, where this is one.
    pub fn as_inline_table_mut(&mut self) -> (r: Option<&mut InlineTable>)
        ensures
            match r {
                Some(t) => *old(self) == Value::InlineTable(*t) && *final(self)
                    == Value::InlineTable(*final(t)),
                None => !(*old(self) is InlineTable) && *final(self) == *old(self),
            },
    {
        match self {
            Value::InlineTable(t) => Some(t),
            _ => None,
        }
    }

    /// Whether this is an inline table.
    pub fn is_inline_table(&self) -> (r: bool)
        ensures
            r == (self is InlineTable),
    {
        self.as_inline_table().is_some()
    }
}

impl From<i64> for Value {
    /// An integer with no decor.
    fn from(v: i64) -> (r: Value)
        ensures
            r matches Value::Integer(f) && f.value == v && f.decor@ == no_decor(),
    {
        Value::Integer(Formatted { value: v, decor: Decor::default() })
    }
}

impl FromSpecImpl<i64> for Value {
    open spec fn obeys_from_spec() -> bool {
        false
    }

    open spec fn from_spec(v: i64) -> Value {
        arbitrary()
    }
}

impl From<bool> for Value {
    /// A boolean with no decor.
    fn from(v: bool) -> (r: Value)
        ensures
            r matches Value::Boolean(f) && f.value == v && f.decor@ == no_decor(),
    {
        Value::Boolean(Formatted { value: v, decor: Decor::default() })
    }
}

impl FromSpecImpl<bool> for Value {
    open spec fn obeys_from_spec() -> bool {
        false
    }

    open spec fn from_spec(v: bool) -> Value {
        arbitrary()
    }
}

impl From<Float> for Value {
    /// A floating-point number with no decor.
    fn from(v: Float) -> (r: Value)
        ensures
            r matches Value::Float(f) && f.value == v && f.decor@ == no_decor(),
    {
        Value::Float(Formatted { value: v, decor: Decor::default() })
    }
}

impl FromSpecImpl<Float> for Value {
    open spec fn obeys_from_spec() -> bool {
        false
    }

    open spec fn from_spec(v: Float) -> Value {
        arbitrary()
    }
}

impl From<DateTime> for Value {
    /// A date-time with no decor.
    fn from(v: DateTime) -> (r: Value)
        ensures
            r matches Value::DateTime(f) && f.value == v && f.decor@ == no_decor(),
    {
        Value::DateTime(Formatted { value: v, decor: Decor::default() })
    }
}

impl FromSpecImpl<DateTime> for Value {
    open spec fn obeys_from_spec() -> bool {
        false
    }

    open spec fn from_spec(v: DateTime) -> Value {
        arbitrary()
    }
}

impl From<String> for Value {
    /// A string with no decor.
    fn from(v: String) -> (r: Value)
        ensures
            r matches Value::String(f) && f.value == v && f.decor@ == no_decor(),
    {
        Value::String(Formatted { value: v, decor: Decor::default() })
    }
}

impl FromSpecImpl<String> for Value {
    open spec fn obeys_from_spec() -> bool {
        false
    }

    open spec fn from_spec(v: String) -> Value {
        arbitrary()
    }
}

impl<'a> From<&'a str> for Value {
    /// A string with no decor.
    fn from(v: &'a str) -> (r: Value)
        ensures
            r matches Value::String(f) && f.value@ == v@ && f.decor@ == no_decor(),
    {
        Value::String(Formatted { value: v.to_owned(), decor: Decor::default() })
    }
}

impl<'a> FromSpecImpl<&'a str> for Value {
    open spec fn obeys_from_spec() -> bool {
        false
    }

    open spec fn from_spec(v: &'a str) -> Value {
        arbitrary()
    }
}

impl From<Array> for Value {
    /// The array as a value.
    fn from(v: Array) -> (r: Value) {
        Value::Array(v)
    }
}

impl FromSpecImpl<Array> for Value {
    open spec fn obeys_from_spec() -> bool {
        true
    }

    open spec fn from_spec(v: Array) -> Value {
        Value::Array(v)
    }
}

impl From<InlineTable> for Value {
    /// The inline table as a value.
    fn from(v: InlineTable) -> (r: Value) {
        Value::InlineTable(v)
    }
}

impl FromSpecImpl<InlineTable> for Value {
    open spec fn obeys_from_spec() -> bool {
        true
    }

    open spec fn from_spec(v: InlineTable) -> Value {
        Value::InlineTable(v)
    }
}

} // verus!
