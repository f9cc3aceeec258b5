//! When two values are equal: as what they hold is, and floating-point numbers as numbers are.

use vstd::prelude::*;
use crate::ber::float::{equal32, equal64, same32, same64};
use crate::ber::{same_octets, same_text, Cursor, Tlv};
use crate::proto::data::{lemma_model_members, models, DataModel, DataView, Value, ValueModel};

verus! {

/// Whether two values are equal. Arrays and structures are equal member by member.
pub open spec fn equal_values(a: ValueModel, b: ValueModel) -> bool
    decreases a,
{
    match (a, b) {
        (ValueModel::Array(x), ValueModel::Array(y)) => x.len() == y.len() && forall|i: int|
            0 <= i < x.len() ==> equal_values(#[trigger] x[i], y[i]),
        (ValueModel::Structure(x), ValueModel::Structure(y)) => x.len() == y.len() && forall|i: int|
            0 <= i < x.len() ==> equal_values(#[trigger] x[i], y[i]),
        (ValueModel::Float32(x), ValueModel::Float32(y)) => equal32(x, y),
        (ValueModel::Float64(x), ValueModel::Float64(y)) => equal64(x, y),
        _ => a == b,
    }
}

/// Whether two borrowed values are equal. Members are compared as octets.
pub open spec fn equal_data(a: DataModel, b: DataModel) -> bool {
    match (a, b) {
        (DataModel::Float32(x), DataModel::Float32(y)) => equal32(x, y),
        (DataModel::Float64(x), DataModel::Float64(y)) => equal64(x, y),
        _ => a == b,
    }
}

fn same_values(a: &Vec<Value>, b: &Vec<Value>) -> (r: bool)
    ensures
        r == (a@.len() == b@.len() && forall|i: int|
            0 <= i < a@.len() ==> equal_values(#[trigger] models(a@)[i], models(b@)[i])),
    decreases a, 1nat,
{
    if a.len() != b.len() {
        return false;
    }
    let mut i: usize = 0;
    while i < a.len()
        invariant
            i <= a.len(),
            a.len() == b.len(),
            forall|j: int| 0 <= j < i ==> equal_values(#[trigger] models(a@)[j], models(b@)[j]),
        decreases a.len() - i,
    {
        if !same_value(&a[i], &b[i]) {
            assert(!equal_values(models(a@)[i as int], models(b@)[i as int]));
            return false;
        }
        i += 1;
    }
    true
}

/// Whether two values are equal.
pub fn same_value(a: &Value, b: &Value) -> (r: bool)
    ensures
        r == equal_values(a@, b@),
    decreases a, 0nat,
{
    match (a, b) {
        (Value::Array(x), Value::Array(y)) => {
            proof {
                lemma_model_members(*x);
                lemma_model_members(*y);
            }
            same_values(x, y)
        },
        (Value::Structure(x), Value::Structure(y)) => {
            proof {
                lemma_model_members(*x);
                lemma_model_members(*y);
            }
            same_values(x, y)
        },
        (Value::Boolean(x), Value::Boolean(y)) => *x == *y,
        (
            Value::BitString { unused: u, bytes: x },
            Value::BitString { unused: v, bytes: y },
        ) => *u == *v && same_octets(x, y),
        (Value::Integer(x), Value::Integer(y)) => *x == *y,
        (Value::Unsigned(x), Value::Unsigned(y)) => *x == *y,
        (Value::Float32(x), Value::Float32(y)) => same32(*x, *y),
        (Value::Float64(x), Value::Float64(y)) => same64(*x, *y),
        (Value::OctetString(x), Value::OctetString(y)) => same_octets(x, y),
        (Value::VisibleString(x), Value::VisibleString(y)) => same_text(x, y),
        (Value::MmsString(x), Value::MmsString(y)) => same_text(x, y),
        (Value::UtcTime(x), Value::UtcTime(y)) => *x == *y,
        (Value::BinaryTime(x), Value::BinaryTime(y)) => same_octets(x, y),
        (
            Value::Other { tag: t, constructed: c, bytes: x },
            Value::Other { tag: u, constructed: d, bytes: y },
        ) => *t == *u && *c == *d && same_octets(x, y),
        _ => false,
    }
}

fn same_cursor(a: &Cursor<'_>, b: &Cursor<'_>) -> (r: bool)
    ensures
        r == (a@ == b@),
{
    a.offset == b.offset && same_octets(a.rest, b.rest)
}

fn same_tlv(a: &Tlv<'_>, b: &Tlv<'_>) -> (r: bool)
    ensures
        r == (a@ == b@),
{
    a.tag == b.tag && a.offset == b.offset && a.value_offset == b.value_offset && same_octets(
        a.value,
        b.value,
    )
}

/// Whether two borrowed values are equal.
pub fn same_data(a: &DataView<'_>, b: &DataView<'_>) -> (r: bool)
    ensures
        r == equal_data(a@, b@),
{
    match (a, b) {
        (DataView::Array(x), DataView::Array(y)) => same_cursor(x, y),
        (DataView::Structure(x), DataView::Structure(y)) => same_cursor(x, y),
        (DataView::Boolean(x), DataView::Boolean(y)) => *x == *y,
        (
            DataView::BitString { unused: u, bytes: x },
            DataView::BitString { unused: v, bytes: y },
        ) => *u == *v && same_octets(x, y),
        (DataView::Integer(x), DataView::Integer(y)) => *x == *y,
        (DataView::Unsigned(x), DataView::Unsigned(y)) => *x == *y,
        (DataView::Float32(x), DataView::Float32(y)) => same32(*x, *y),
        (DataView::Float64(x), DataView::Float64(y)) => same64(*x, *y),
        (DataView::OctetString(x), DataView::OctetString(y)) => same_octets(x, y),
        (DataView::VisibleString(x), DataView::VisibleString(y)) => same_text(x, y),
        (DataView::MmsString(x), DataView::MmsString(y)) => same_text(x, y),
        (DataView::UtcTime(x), DataView::UtcTime(y)) => *x == *y,
        (DataView::BinaryTime(x), DataView::BinaryTime(y)) => same_octets(x, y),
        (DataView::Other(x), DataView::Other(y)) => same_tlv(x, y),
        _ => false,
    }
}

impl PartialEq for Value {
    fn eq(&self, other: &Value) -> (r: bool) {
        same_value(self, other)
    }
}

impl vstd::std_specs::cmp::PartialEqSpecImpl for Value {
    open spec fn obeys_eq_spec() -> bool {
        true
    }

    open spec fn eq_spec(&self, other: &Value) -> bool {
        equal_values(self@, other@)
    }
}

impl<'a> PartialEq for DataView<'a> {
    fn eq(&self, other: &DataView<'a>) -> (r: bool) {
        same_data(self, other)
    }
}

impl<'a> vstd::std_specs::cmp::PartialEqSpecImpl for DataView<'a> {
    open spec fn obeys_eq_spec() -> bool {
        true
    }

    open spec fn eq_spec(&self, other: &DataView<'a>) -> bool {
        equal_data(self@, other@)
    }
}

} // verus!
