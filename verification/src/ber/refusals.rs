//! What a decoder takes and what it refuses, with the reason and the place.

use vstd::prelude::*;
use crate::ber::{
    be_nat, read_base128, read_element, read_len, read_tag, sint, CursorModel, Float, Tag, TlvModel,
};
use crate::common::{DecodeReason, Error, UtcTime};

verus! {

/// Whether a result is this refusal.
pub open spec fn refused<T>(r: Result<T, Error>, reason: DecodeReason, offset: usize) -> bool {
    r == Err::<T, Error>(Error::Decode { reason, offset })
}

/// A length below 128 is its own octet. Above, the first octet counts those that follow, up to eight;
/// they need not be the fewest. The octet 80, which leaves the length open, is refused, and so are
/// more than eight.
pub proof fn lemma_length_read(lead: u8, rest: Seq<u8>)
    ensures
        ({
            let r = read_len(seq![lead] + rest);
            let k = lead - 0x80;
            &&& lead < 0x80 ==> r == Ok::<(nat, Seq<u8>), DecodeReason>((lead as nat, rest))
            &&& lead == 0x80 || lead > 0x88 ==> r == Err::<(nat, Seq<u8>), DecodeReason>(
                DecodeReason::BadLength,
            )
            &&& 0x80 < lead <= 0x88 && rest.len() < k ==> r == Err::<(nat, Seq<u8>), DecodeReason>(
                DecodeReason::Truncated,
            )
            &&& 0x80 < lead <= 0x88 && rest.len() >= k ==> r == Ok::<(nat, Seq<u8>), DecodeReason>(
                (be_nat(rest.take(k)), rest.skip(k)),
            )
        }),
        read_len(Seq::empty()) == Err::<(nat, Seq<u8>), DecodeReason>(DecodeReason::Truncated),
{
    let s = seq![lead] + rest;
    let k = lead - 0x80;
    assert(s.skip(1) =~= rest);
    if 0x80 < lead <= 0x88 && rest.len() >= k {
        assert(s.subrange(1, 1 + k) =~= rest.take(k));
        assert(s.skip(1 + k) =~= rest.skip(k));
    }
}

/// A number of 31 or more stands in the octets behind the first, seven bits in each, with the top bit
/// of all but the last set. One that takes more than 32 bits is refused.
pub proof fn lemma_long_number_read(lead: u8, a: u8, b: u8, c: u8, d: u8, e: u8, rest: Seq<u8>)
    requires
        lead % 32 == 31,
    ensures
        read_tag(seq![lead]) == Err::<(Tag, Seq<u8>), DecodeReason>(DecodeReason::Truncated),
        read_tag(Seq::empty()) == Err::<(Tag, Seq<u8>), DecodeReason>(DecodeReason::Truncated),
        a < 0x80 ==> (read_tag(seq![lead, a] + rest) matches Ok((t, after)) && t.number == a && after
            == rest && t.constructed == (lead / 32 % 2 == 1)),
        a >= 0x80 && b < 0x80 ==> (read_tag(seq![lead, a, b] + rest) matches Ok((t, after))
            && t.number == (a - 0x80) * 128 + b && after == rest),
        a >= 0x90 && b >= 0x80 && c >= 0x80 && d >= 0x80 ==> read_tag(
            seq![lead, a, b, c, d, e] + rest,
        ) == Err::<(Tag, Seq<u8>), DecodeReason>(DecodeReason::BadTag),
{
    let none = Seq::<u8>::empty();
    assert(seq![lead].skip(1) =~= none);
    assert((seq![lead, a] + rest).skip(1) =~= seq![a] + rest);
    lemma_digit(a, rest, 0);
    assert((seq![lead, a, b] + rest).skip(1) =~= seq![a] + (seq![b] + rest));
    lemma_digit(a, seq![b] + rest, 0);
    lemma_digit(b, rest, (a % 128) as nat);
    let r4 = seq![e] + rest;
    let r3 = seq![d] + r4;
    let r2 = seq![c] + r3;
    let r1 = seq![b] + r2;
    assert((seq![lead, a, b, c, d, e] + rest).skip(1) =~= seq![a] + r1);
    let n0 = (a % 128) as nat;
    let n1 = n0 * 128 + (b % 128) as nat;
    let n2 = n1 * 128 + (c % 128) as nat;
    let n3 = n2 * 128 + (d % 128) as nat;
    lemma_digit(a, r1, 0);
    lemma_digit(b, r2, n0);
    lemma_digit(c, r3, n1);
    lemma_digit(d, r4, n2);
    lemma_digit(e, rest, n3);
}

proof fn lemma_digit(x: u8, rest: Seq<u8>, acc: nat)
    ensures
        read_base128(seq![x] + rest, acc) == {
            let next = acc * 128 + (x % 128) as nat;
            if next > 0xFFFF_FFFF {
                Err::<(u32, Seq<u8>), DecodeReason>(DecodeReason::BadTag)
            } else if x < 128 {
                Ok((next as u32, rest))
            } else {
                read_base128(rest, next)
            }
        },
{
    assert((seq![x] + rest).skip(1) =~= rest);
}

/// An element whose contents are not all there is refused.
pub proof fn lemma_contents_missing(lead: u8, n: u8, contents: Seq<u8>)
    requires
        lead % 32 != 31,
        n < 0x80,
    ensures
        contents.len() < n ==> read_element(seq![lead, n] + contents) == Err::<
            (Tag, Seq<u8>, Seq<u8>),
            DecodeReason,
        >(DecodeReason::Truncated),
        contents.len() >= n ==> (read_element(seq![lead, n] + contents) matches Ok((t, v, after))
            && v == contents.take(n as int) && after == contents.skip(n as int) && t.number == lead
            % 32),
{
    reveal(read_element);
    let s = seq![lead, n] + contents;
    assert(s.skip(1) =~= seq![n] + contents);
    assert((seq![n] + contents).skip(1) =~= contents);
}

/// A cursor that is empty lacks a required element. One that does not decode, or that has another tag
/// than the one asked for, is refused where it stands. An optional element may be absent, or another.
/// What is left at the end is refused.
pub proof fn lemma_cursor_refusals(c: CursorModel, tag: Tag)
    ensures
        c.bytes.len() == 0 ==> {
            &&& refused(c.first(), DecodeReason::MissingField, c.offset)
            &&& refused(c.tagged(tag), DecodeReason::MissingField, c.offset)
            &&& c.optional(tag) == Ok::<Option<TlvModel>, Error>(None)
            &&& c.finish() is Ok
        },
        c.bytes.len() > 0 ==> refused(c.finish(), DecodeReason::TrailingBytes, c.offset),
        c.bytes.len() > 0 ==> (read_element(c.bytes) matches Err(reason) ==> refused(
            c.first(),
            reason,
            c.offset,
        ) && refused(c.optional(tag), reason, c.offset)),
        c.first() matches Ok(t) ==> {
            &&& t.tag == tag ==> c.tagged(tag) == Ok::<TlvModel, Error>(t) && c.optional(tag)
                == Ok::<Option<TlvModel>, Error>(Some(t)) && c.skip_optional(tag) == c.rest()
            &&& t.tag != tag ==> refused(c.tagged(tag), DecodeReason::UnexpectedTag, c.offset)
                && c.optional(tag) == Ok::<Option<TlvModel>, Error>(None) && c.skip_optional(tag)
                == c
        },
{
}

/// What the contents of an element are read as, and where and why they are refused.
pub proof fn lemma_contents_refused(t: TlvModel)
    ensures
        t.value.len() != 1 ==> refused(t.boolean(), DecodeReason::BadLength, t.value_offset),
        1 <= t.value.len() <= 8 ==> t.integer() == Ok::<i64, Error>(sint(t.value) as i64),
        t.value.len() == 0 || t.value.len() > 8 ==> refused(
            t.integer(),
            DecodeReason::BadLength,
            t.value_offset,
        ),
        t.integer() matches Ok(v) ==> {
            &&& -0x8000_0000 <= v < 0x8000_0000 ==> t.integer32() == Ok::<i32, Error>(v as i32)
            &&& v < -0x8000_0000 || v >= 0x8000_0000 ==> refused(
                t.integer32(),
                DecodeReason::BadValue,
                t.value_offset,
            )
        },
        1 <= t.value.len() <= 9 && be_nat(t.value) < 0x1_0000_0000_0000_0000 ==> t.unsigned64()
            == Ok::<u64, Error>(be_nat(t.value) as u64),
        1 <= t.value.len() <= 9 && be_nat(t.value) >= 0x1_0000_0000_0000_0000 ==> refused(
            t.unsigned64(),
            DecodeReason::BadValue,
            t.value_offset,
        ),
        t.value.len() == 0 || t.value.len() > 9 ==> refused(
            t.unsigned64(),
            DecodeReason::BadLength,
            t.value_offset,
        ),
        t.unsigned64() matches Ok(v) ==> {
            &&& v <= 0xFFFF_FFFF ==> t.unsigned32() == Ok::<u32, Error>(v as u32)
            &&& v > 0xFFFF_FFFF ==> refused(
                t.unsigned32(),
                DecodeReason::BadValue,
                t.value_offset,
            )
        },
        t.value.len() == 5 && t.value[0] == 8 ==> t.float() == Ok::<Float, Error>(
            Float::Single(be_nat(t.value.skip(1)) as u32),
        ),
        t.value.len() == 9 && t.value[0] == 11 ==> t.float() == Ok::<Float, Error>(
            Float::Double(be_nat(t.value.skip(1)) as u64),
        ),
        !(t.value.len() == 5 && t.value[0] == 8) && !(t.value.len() == 9 && t.value[0] == 11)
            ==> refused(t.float(), DecodeReason::BadValue, t.value_offset),
        t.value.len() == 8 ==> t.utc() == Ok::<UtcTime, Error>(
            UtcTime { raw: be_nat(t.value) as u64 },
        ),
        t.value.len() != 8 ==> refused(t.utc(), DecodeReason::BadLength, t.value_offset),
        t.visible() is Ok <==> forall|i: int| 0 <= i < t.value.len() ==> #[trigger] t.value[i] < 0x80,
        t.visible() matches Ok(s) ==> s.len() == t.value.len() && forall|i: int|
            0 <= i < s.len() ==> #[trigger] s[i] as int == t.value[i],
        t.visible() is Err ==> refused(t.visible(), DecodeReason::BadValue, t.value_offset),
{
}

} // verus!
