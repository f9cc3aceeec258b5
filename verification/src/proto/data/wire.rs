//! The octets of a value, and what each of them is read as.

use vstd::prelude::*;
use vstd::utf8::*;
use crate::ber::{
    be_nat, bits_ok, float_octets, octets_of, sint, sint_octets, utc_octets, Class, CursorModel,
    Float, TlvModel,
};
use crate::ber::wire::{element, group_wire};
use crate::common::{
    opt_flds_from, opt_flds_octets, reason_code_from, reason_code_octets, trg_ops_from,
    trg_ops_octets, Error, Limits, OptFlds, ReasonCode, TrgOps,
};
use crate::proto::data::{
    bits_dbpos, bits_quality, collected, data_of, dbpos_code, dbpos_of, opt_flds_value, owned,
    reason_code_value, scalar_of, trg_ops_value, value_bytes, value_opt_flds, value_reason_code,
    value_trg_ops, values_bytes, values_from, DataModel, Dbpos, Scalar, ValueModel,
};
use crate::proto::data::equality::{equal_data, equal_values};

verus! {

/// The leading octet of each kind of value: A1 an array, A2 a structure, 83 a boolean, 84 a bit
/// string, 85 an integer, 86 an unsigned one, 87 a floating-point number, 89 octets, 8A text, 8C a
/// binary time, 90 text in UTF-8, and 91 a time.
pub proof fn lemma_value_octets(
    m: Seq<ValueModel>,
    b: bool,
    unused: u8,
    bytes: Seq<u8>,
    i: i64,
    u: u64,
    s: Seq<char>,
    t: crate::common::UtcTime,
)
    ensures
        value_bytes(ValueModel::Array(m)) == element(0xA1, values_bytes(m)),
        value_bytes(ValueModel::Structure(m)) == element(0xA2, values_bytes(m)),
        value_bytes(ValueModel::Boolean(b)) == element(
            0x83,
            if b {
                seq![0xFFu8]
            } else {
                seq![0u8]
            },
        ),
        value_bytes(ValueModel::BitString { unused, bytes }) == element(0x84, seq![unused] + bytes),
        value_bytes(ValueModel::Integer(i)) == element(0x85, sint_octets(i as int)),
        value_bytes(ValueModel::Unsigned(u)) == element(0x86, sint_octets(u as int)),
        value_bytes(ValueModel::Float32((u % 0x1_0000_0000) as u32)) == element(
            0x87,
            float_octets(Float::Single((u % 0x1_0000_0000) as u32)),
        ),
        value_bytes(ValueModel::Float64(u)) == element(0x87, float_octets(Float::Double(u))),
        value_bytes(ValueModel::OctetString(bytes)) == element(0x89, bytes),
        value_bytes(ValueModel::VisibleString(s)) == element(0x8A, octets_of(s)),
        value_bytes(ValueModel::BinaryTime(bytes)) == element(0x8C, bytes),
        value_bytes(ValueModel::MmsString(s)) == element(0x90, encode_utf8(s)),
        value_bytes(ValueModel::UtcTime(t)) == element(0x91, utc_octets(t)),
{
    broadcast use group_wire;

}

/// Values stand back to back, in their order.
pub proof fn lemma_values_in_order(m: Seq<ValueModel>, v: ValueModel)
    ensures
        values_bytes(Seq::empty()) == Seq::<u8>::empty(),
        values_bytes(seq![v] + m) == value_bytes(v) + values_bytes(m),
{
    lemma_shifted(m, v, 0);
}

proof fn lemma_shifted(m: Seq<ValueModel>, v: ValueModel, i: nat)
    requires
        i <= m.len(),
    ensures
        values_from(seq![v] + m, i + 1) == values_from(m, i),
    decreases m.len() - i,
{
    if i < m.len() {
        lemma_shifted(m, v, i + 1);
    }
}

/// What an element is read as, by its context number and whether it has elements inside. What has
/// another number is kept as it is, and an element of another class is refused.
pub proof fn lemma_element_kinds(t: TlvModel)
    requires
        t.tag.class == Class::Context,
    ensures
        t.tag.constructed && t.tag.number == 1 ==> data_of(t) == Ok::<DataModel, Error>(
            DataModel::Array(t.children()),
        ),
        t.tag.constructed && t.tag.number == 2 ==> data_of(t) == Ok::<DataModel, Error>(
            DataModel::Structure(t.children()),
        ),
        t.tag.constructed && t.tag.number > 2 ==> data_of(t) == Ok::<DataModel, Error>(
            DataModel::Other(t),
        ),
        !t.tag.constructed ==> {
            &&& t.tag.number == 3 && t.value.len() == 1 ==> data_of(t) == Ok::<DataModel, Error>(
                DataModel::Boolean(t.value[0] != 0),
            )
            &&& t.tag.number == 4 && t.value.len() >= 1 && bits_ok(t.value[0], t.value.skip(1))
                ==> data_of(t) == Ok::<DataModel, Error>(
                DataModel::BitString { unused: t.value[0], bytes: t.value.skip(1) },
            )
            &&& t.tag.number == 5 && 1 <= t.value.len() <= 8 ==> data_of(t) == Ok::<
                DataModel,
                Error,
            >(DataModel::Integer(sint(t.value) as i64))
            &&& t.tag.number == 6 && 1 <= t.value.len() <= 8 && be_nat(t.value) <= u64::MAX
                ==> data_of(t) == Ok::<DataModel, Error>(
                DataModel::Unsigned(be_nat(t.value) as u64),
            )
            &&& t.tag.number == 7 && t.value.len() == 5 && t.value[0] == 8 ==> data_of(t) == Ok::<
                DataModel,
                Error,
            >(DataModel::Float32(be_nat(t.value.skip(1)) as u32))
            &&& t.tag.number == 7 && t.value.len() == 9 && t.value[0] == 11 ==> data_of(t) == Ok::<
                DataModel,
                Error,
            >(DataModel::Float64(be_nat(t.value.skip(1)) as u64))
            &&& t.tag.number == 9 ==> data_of(t) == Ok::<DataModel, Error>(
                DataModel::OctetString(t.value),
            )
            &&& t.tag.number == 10 ==> (data_of(t) matches Ok(d) ==> d is VisibleString)
            &&& t.tag.number == 12 ==> data_of(t) == Ok::<DataModel, Error>(
                DataModel::BinaryTime(t.value),
            )
            &&& t.tag.number == 16 && valid_utf8(t.value) ==> data_of(t) == Ok::<DataModel, Error>(
                DataModel::MmsString(decode_utf8(t.value)),
            )
            &&& t.tag.number == 17 && t.value.len() == 8 ==> (data_of(t) matches Ok(
                DataModel::UtcTime(x),
            ) && x.raw == be_nat(t.value) as u64)
            &&& t.tag.number == 0 || t.tag.number == 1 || t.tag.number == 2 || t.tag.number == 8
                || t.tag.number == 11 || 13 <= t.tag.number <= 15 || t.tag.number > 17 ==> data_of(
                t,
            ) == Ok::<DataModel, Error>(DataModel::Other(t))
        },
{
}

/// An element that is not of the context class is no value.
pub proof fn lemma_other_class(t: TlvModel)
    requires
        t.tag.class != Class::Context,
    ensures
        data_of(t) is Err,
{
}

/// A value nested deeper than the limit, or a primitive longer than it, is refused, and so is a list
/// with more members than allowed. Within the limits a primitive is owned as it is.
pub proof fn lemma_limits_hold(
    d: DataModel,
    limits: Limits,
    depth: usize,
    c: CursorModel,
    acc: Seq<ValueModel>,
)
    ensures
        depth > limits.max_depth ==> owned(d, limits, depth) == Err::<ValueModel, Error>(
            Error::LimitExceeded { limit: "max_depth", value: depth },
        ),
        depth <= limits.max_depth ==> {
            &&& d matches DataModel::Boolean(b) ==> owned(d, limits, depth) == Ok::<
                ValueModel,
                Error,
            >(ValueModel::Boolean(b))
            &&& d matches DataModel::Integer(i) ==> owned(d, limits, depth) == Ok::<
                ValueModel,
                Error,
            >(ValueModel::Integer(i))
            &&& d matches DataModel::Unsigned(u) ==> owned(d, limits, depth) == Ok::<
                ValueModel,
                Error,
            >(ValueModel::Unsigned(u))
            &&& d matches DataModel::Float32(f) ==> owned(d, limits, depth) == Ok::<
                ValueModel,
                Error,
            >(ValueModel::Float32(f))
            &&& d matches DataModel::Float64(f) ==> owned(d, limits, depth) == Ok::<
                ValueModel,
                Error,
            >(ValueModel::Float64(f))
            &&& d matches DataModel::UtcTime(t) ==> owned(d, limits, depth) == Ok::<
                ValueModel,
                Error,
            >(ValueModel::UtcTime(t))
            &&& d matches DataModel::OctetString(b) ==> owned(d, limits, depth) == if b.len()
                <= limits.max_primitive_len {
                Ok::<ValueModel, Error>(ValueModel::OctetString(b))
            } else {
                Err(Error::LimitExceeded { limit: "max_primitive_len", value: b.len() as usize })
            }
            &&& d matches DataModel::BitString { unused, bytes } ==> (owned(
                d,
                limits,
                depth,
            ) is Ok <==> bytes.len() <= limits.max_primitive_len)
            &&& d matches DataModel::VisibleString(s) ==> (owned(d, limits, depth) is Ok
                <==> encode_utf8(s).len() <= limits.max_primitive_len)
        },
        c.bytes.len() > 0 && acc.len() >= limits.max_dataset_members ==> collected(
            c,
            limits,
            depth,
            acc,
        ) is Err,
        c.bytes.len() == 0 ==> collected(c, limits, depth, acc) == Ok::<Seq<ValueModel>, Error>(
            acc,
        ),
{
}

/// What a typed accessor sees: a value of its own type and nothing else. Text is text in either
/// encoding.
pub proof fn lemma_accessors(v: ValueModel)
    ensures
        v matches ValueModel::Boolean(b) <==> scalar_of(v) is Boolean,
        v matches ValueModel::Boolean(b) ==> scalar_of(v) == Scalar::Boolean(b),
        v matches ValueModel::Integer(i) <==> scalar_of(v) is Integer,
        v matches ValueModel::Integer(i) ==> scalar_of(v) == Scalar::Integer(i),
        v matches ValueModel::Unsigned(u) <==> scalar_of(v) is Unsigned,
        v matches ValueModel::Unsigned(u) ==> scalar_of(v) == Scalar::Unsigned(u),
        v matches ValueModel::Float32(f) ==> scalar_of(v) == Scalar::Floating(Float::Single(f)),
        v matches ValueModel::Float64(f) ==> scalar_of(v) == Scalar::Floating(Float::Double(f)),
        v is Float32 || v is Float64 <==> scalar_of(v) is Floating,
        v matches ValueModel::VisibleString(s) ==> scalar_of(v) == Scalar::Text(s),
        v matches ValueModel::MmsString(s) ==> scalar_of(v) == Scalar::Text(s),
        v is VisibleString || v is MmsString <==> scalar_of(v) is Text,
        v matches ValueModel::UtcTime(t) ==> scalar_of(v) == Scalar::Time(t),
        v is UtcTime <==> scalar_of(v) is Time,
{
}

/// A position is two bits: 00 in transit, 01 off, 10 on and 11 bad. The two are the top bits of one
/// octet, and no bit string of another width is a position.
pub proof fn lemma_positions(b: u8, unused: u8, bytes: Seq<u8>)
    ensures
        dbpos_of(0) == Dbpos::Intermediate && dbpos_code(Dbpos::Intermediate) == 0,
        dbpos_of(1) == Dbpos::Off && dbpos_code(Dbpos::Off) == 1,
        dbpos_of(2) == Dbpos::On && dbpos_code(Dbpos::On) == 2,
        dbpos_of(3) == Dbpos::BadState && dbpos_code(Dbpos::BadState) == 3,
        dbpos_of(b) == dbpos_of((b % 4) as u8),
        bits_dbpos(Scalar::Bits { unused: 6, bytes: seq![b] }) == Some(
            if b < 0x40 {
                Dbpos::Intermediate
            } else if b < 0x80 {
                Dbpos::Off
            } else if b < 0xC0 {
                Dbpos::On
            } else {
                Dbpos::BadState
            },
        ),
        unused != 6 || bytes.len() != 1 ==> bits_dbpos(Scalar::Bits { unused, bytes }) is None,
        bytes.len() < 2 ==> bits_quality(Scalar::Bits { unused, bytes }) is None,
        bytes.len() >= 2 ==> (bits_quality(Scalar::Bits { unused, bytes }) matches Some(q) && q.bits
            == bytes[0] * 256 + bytes[1] - bytes[1] % 4),
{
}

/// Two values are equal when they are of one kind and hold the same, member by member. A
/// floating-point number equals one of the same bits unless it is no number, which equals nothing,
/// and the two zeros equal each other. Nothing else equals anything of another kind.
pub proof fn lemma_equality(a: ValueModel, b: ValueModel)
    ensures
        match (a, b) {
            (ValueModel::Array(x), ValueModel::Array(y)) => equal_values(a, b) <==> x.len()
                == y.len() && forall|i: int|
                0 <= i < x.len() ==> equal_values(#[trigger] x[i], y[i]),
            (ValueModel::Structure(x), ValueModel::Structure(y)) => equal_values(a, b) <==> x.len()
                == y.len() && forall|i: int|
                0 <= i < x.len() ==> equal_values(#[trigger] x[i], y[i]),
            (ValueModel::Float32(x), ValueModel::Float32(y)) => {
                &&& 0x7F80_0000 < x < 0x8000_0000 || x > 0xFF80_0000 ==> !equal_values(a, b)
                &&& 0x7F80_0000 < y < 0x8000_0000 || y > 0xFF80_0000 ==> !equal_values(a, b)
                &&& (x <= 0x7F80_0000 || 0x8000_0000 <= x <= 0xFF80_0000) ==> (equal_values(a, b)
                    <==> x == y || (x == 0 && y == 0x8000_0000) || (x == 0x8000_0000 && y == 0))
            },
            (ValueModel::Float64(x), ValueModel::Float64(y)) => {
                &&& 0x7FF0_0000_0000_0000 < x < 0x8000_0000_0000_0000 || x
                    > 0xFFF0_0000_0000_0000 ==> !equal_values(a, b)
                &&& 0x7FF0_0000_0000_0000 < y < 0x8000_0000_0000_0000 || y
                    > 0xFFF0_0000_0000_0000 ==> !equal_values(a, b)
                &&& (x <= 0x7FF0_0000_0000_0000 || 0x8000_0000_0000_0000 <= x
                    <= 0xFFF0_0000_0000_0000) ==> (equal_values(a, b) <==> x == y || (x == 0 && y
                    == 0x8000_0000_0000_0000) || (x == 0x8000_0000_0000_0000 && y == 0))
            },
            _ => equal_values(a, b) <==> a == b,
        },
{
}

/// Borrowed values are equal on the same terms, but for their members, which are compared as the
/// octets they stand in.
pub proof fn lemma_borrowed_equality(a: DataModel, b: DataModel)
    ensures
        match (a, b) {
            (DataModel::Float32(x), DataModel::Float32(y)) => equal_data(a, b) <==> equal_values(
                ValueModel::Float32(x),
                ValueModel::Float32(y),
            ),
            (DataModel::Float64(x), DataModel::Float64(y)) => equal_data(a, b) <==> equal_values(
                ValueModel::Float64(x),
                ValueModel::Float64(y),
            ),
            _ => equal_data(a, b) <==> a == b,
        },
{
}

/// The options of a control block as values: what triggers it is a bit string with two bits unused,
/// what it carries one with six, and why an entry is there one with one.
pub proof fn lemma_option_values(t: TrgOps, o: OptFlds, r: ReasonCode)
    ensures
        trg_ops_value(t) == (ValueModel::BitString { unused: 2, bytes: trg_ops_octets(t) }),
        opt_flds_value(o) == (ValueModel::BitString { unused: 6, bytes: opt_flds_octets(o) }),
        reason_code_value(r) == (ValueModel::BitString { unused: 1, bytes: reason_code_octets(r) }),
{
}

/// A bit string of any length is read as options, by its bits; no other value is.
pub proof fn lemma_option_values_read(v: ValueModel)
    ensures
        match v {
            ValueModel::BitString { bytes, .. } => {
                &&& value_trg_ops(v) == Some(trg_ops_from(bytes))
                &&& value_opt_flds(v) == Some(opt_flds_from(bytes))
                &&& value_reason_code(v) == Some(reason_code_from(bytes))
            },
            _ => value_trg_ops(v) is None && value_opt_flds(v) is None && value_reason_code(
                v,
            ) is None,
        },
{
}

} // verus!
