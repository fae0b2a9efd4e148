//! The decor that freshly made keys and values get.

use vstd::prelude::*;
use crate::decor::{Decor, DecorView, Repr, ReprView};
use crate::value::{Array, Formatted, InlineTable, Value};

verus! {

/// What stands for a key that was written as `raw`: no text before it, one
/// space behind it.
pub open spec fn key_repr_view(raw: Seq<char>) -> ReprView {
    ReprView { decor: DecorView { prefix: Seq::empty(), suffix: seq![' '] }, raw_value: raw }
}

/// The representation of a new key written as `raw`.
pub fn key_repr(raw: &str) -> (r: Repr)
    ensures
        r@ == key_repr_view(raw@),
{
    proof {
        reveal_strlit("");
        reveal_strlit(" ");
        assert(""@ =~= Seq::<char>::empty());
        assert(" "@ =~= seq![' ']);
    }
    Repr::new(Decor::new("", " "), raw)
}

/// `value` between `prefix` and `suffix`: its decor is replaced, and nothing else.
pub fn decorated(value: Value, prefix: &str, suffix: &str) -> (r: Value)
    ensures
        r.spec_decor()@ == (DecorView { prefix: prefix@, suffix: suffix@ }),
        r == value.with_decor(r.spec_decor()),
{
    let decor = Decor::new(prefix, suffix);
    match value {
        Value::Integer(f) => Value::Integer(Formatted { value: f.value, decor }),
        Value::String(f) => Value::String(Formatted { value: f.value, decor }),
        Value::Float(f) => Value::Float(Formatted { value: f.value, decor }),
        Value::DateTime(f) => Value::DateTime(Formatted { value: f.value, decor }),
        Value::Boolean(f) => Value::Boolean(Formatted { value: f.value, decor }),
        Value::Array(a) => Value::Array(Array { values: a.values, decor }),
        Value::InlineTable(t) => Value::InlineTable(InlineTable { items: t.items, decor }),
    }
}

} // verus!
