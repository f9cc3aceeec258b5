//! The octets of an element, spelled out.

use vstd::prelude::*;
use crate::ber::{
    app_cons, be_fixed, be_nat, be_octets, bit_octets, bool_octets, ctx, ctx_cons, float_octets,
    len_octets, read_element, read_tag, sint, sint_octets, tag_octets, tlv, univ, Class,
    CursorModel, Float, Tag, TlvModel,
};
use crate::common::Error;

verus! {

/// The octets of a length: itself below 128, and above that how many octets it takes, then those,
/// the most significant first.
pub open spec fn length(n: nat) -> Seq<u8> {
    if n < 0x80 {
        seq![n as u8]
    } else if n < 0x100 {
        seq![0x81u8, n as u8]
    } else if n < 0x1_0000 {
        seq![0x82u8, (n / 0x100) as u8, (n % 0x100) as u8]
    } else if n < 0x100_0000 {
        seq![0x83u8, (n / 0x1_0000) as u8, (n / 0x100 % 0x100) as u8, (n % 0x100) as u8]
    } else {
        len_octets(n)
    }
}

/// An element that starts with this octet.
#[verifier::opaque]
pub open spec fn element(lead: u8, contents: Seq<u8>) -> Seq<u8> {
    seq![lead] + length(contents.len()) + contents
}

/// An element that starts with these two octets.
#[verifier::opaque]
pub open spec fn long_element(lead: u8, number: u8, contents: Seq<u8>) -> Seq<u8> {
    seq![lead, number] + length(contents.len()) + contents
}

/// A length is written as it is spelled out.
pub proof fn lemma_length(n: nat)
    ensures
        len_octets(n) == length(n),
{
    if 0x80 <= n < 0x100_0000 {
        reveal_with_fuel(be_octets, 4);
        assert(len_octets(n) =~= length(n));
    }
}

/// An element begins with its tag, then comes the length of its contents, and then those.
pub proof fn lemma_element(tag: Tag, contents: Seq<u8>)
    ensures
        tag.number < 31 && tag.class == Class::Universal ==> tlv(tag, contents) == element(
            (tag.number + if tag.constructed { 0x20int } else { 0 }) as u8,
            contents,
        ),
        tag.number < 31 && tag.class == Class::Application ==> tlv(tag, contents) == element(
            (0x40 + tag.number + if tag.constructed { 0x20int } else { 0 }) as u8,
            contents,
        ),
        tag.number < 31 && tag.class == Class::Context ==> tlv(tag, contents) == element(
            (0x80 + tag.number + if tag.constructed { 0x20int } else { 0 }) as u8,
            contents,
        ),
        tag.number < 31 && tag.class == Class::Private ==> tlv(tag, contents) == element(
            (0xC0 + tag.number + if tag.constructed { 0x20int } else { 0 }) as u8,
            contents,
        ),
        31 <= tag.number < 128 && tag.class == Class::Context ==> tlv(tag, contents)
            == long_element(
            if tag.constructed {
                0xBFu8
            } else {
                0x9Fu8
            },
            tag.number as u8,
            contents,
        ),
{
    reveal(tlv);
    reveal(element);
    reveal(long_element);
    lemma_length(contents.len());
    let lead = tag_octets(tag)[0];
    if tag.number < 31 {
        assert(tlv(tag, contents) =~= element(lead, contents));
    } else if tag.number < 128 {
        assert(tlv(tag, contents) =~= long_element(lead, tag.number as u8, contents));
    }
}

/// `[n]`, primitive.
pub broadcast proof fn lemma_context(n: u32, contents: Seq<u8>)
    requires
        n < 31,
    ensures
        #[trigger] tlv(ctx(n), contents) == element((0x80 + n) as u8, contents),
{
    lemma_element(ctx(n), contents);
}

/// `[n]`, constructed.
pub broadcast proof fn lemma_context_constructed(n: u32, contents: Seq<u8>)
    requires
        n < 31,
    ensures
        #[trigger] tlv(ctx_cons(n), contents) == element((0xA0 + n) as u8, contents),
{
    lemma_element(ctx_cons(n), contents);
}

/// `[n]`, primitive, where the number takes an octet of its own.
pub broadcast proof fn lemma_context_long(n: u32, contents: Seq<u8>)
    requires
        31 <= n < 128,
    ensures
        #[trigger] tlv(ctx(n), contents) == long_element(0x9F, n as u8, contents),
{
    lemma_element(ctx(n), contents);
}

/// `[n]`, constructed, where the number takes an octet of its own.
pub broadcast proof fn lemma_context_constructed_long(n: u32, contents: Seq<u8>)
    requires
        31 <= n < 128,
    ensures
        #[trigger] tlv(ctx_cons(n), contents) == long_element(0xBF, n as u8, contents),
{
    lemma_element(ctx_cons(n), contents);
}

/// `[APPLICATION n]`, constructed.
pub broadcast proof fn lemma_application(n: u32, contents: Seq<u8>)
    requires
        n < 31,
    ensures
        #[trigger] tlv(app_cons(n), contents) == element((0x60 + n) as u8, contents),
{
    lemma_element(app_cons(n), contents);
}

/// `[UNIVERSAL n]`.
pub broadcast proof fn lemma_universal(n: u32, constructed: bool, contents: Seq<u8>)
    requires
        n < 31,
    ensures
        #[trigger] tlv(univ(n, constructed), contents) == element(
            (n + if constructed { 0x20int } else { 0 }) as u8,
            contents,
        ),
{
    lemma_element(univ(n, constructed), contents);
}

/// Every element with a single-octet tag, in place of its tag and contents.
pub broadcast group group_wire {
    lemma_context,
    lemma_context_constructed,
    lemma_context_long,
    lemma_context_constructed_long,
    lemma_application,
    lemma_universal,
}

/// What an identifier octet names: its two top bits the class, the next one whether elements are
/// inside, and the rest the number.
pub proof fn lemma_identifier_read(lead: u8, rest: Seq<u8>)
    requires
        lead % 32 != 31,
    ensures
        read_tag(seq![lead] + rest) matches Ok((tag, after)) && after == rest && tag.number == lead
            % 32 && tag.constructed == (lead / 32 % 2 == 1) && tag.class == if lead / 64 == 0 {
            Class::Universal
        } else if lead / 64 == 1 {
            Class::Application
        } else if lead / 64 == 2 {
            Class::Context
        } else {
            Class::Private
        },
{
    assert((seq![lead] + rest).skip(1) =~= rest);
}

/// An element reads back from its octets, with what stands behind it.
pub proof fn lemma_element_read(lead: u8, contents: Seq<u8>, rest: Seq<u8>)
    requires
        lead % 32 != 31,
        contents.len() < 0x100_0000,
    ensures
        read_element(element(lead, contents) + rest) matches Ok((tag, value, after)) && value
            == contents && after == rest && tag.number == lead % 32 && tag.constructed == (lead / 32
            % 2 == 1) && (tag.class == Class::Context <==> lead / 64 == 2) && (tag.class
            == Class::Universal <==> lead / 64 == 0) && (tag.class == Class::Application <==> lead
            / 64 == 1),
{
    let tag = Tag {
        class: if lead < 64 {
            Class::Universal
        } else if lead < 128 {
            Class::Application
        } else if lead < 192 {
            Class::Context
        } else {
            Class::Private
        },
        constructed: lead % 64 >= 32,
        number: (lead % 32) as u32,
    };
    lemma_element(tag, contents);
    crate::ber::laws::lemma_read_element(tag, contents, rest);
    assert((tag.number + if tag.constructed { 0x20int } else { 0 }) + if tag.class
        == Class::Universal {
        0int
    } else if tag.class == Class::Application {
        0x40
    } else if tag.class == Class::Context {
        0x80
    } else {
        0xC0
    } == lead);
}

/// A number is written in the fewest octets of two's complement, the most significant first.
pub proof fn lemma_number(v: int)
    ensures
        -0x80 <= v < 0 ==> sint_octets(v) == seq![(v + 0x100) as u8],
        0 <= v < 0x80 ==> sint_octets(v) == seq![v as u8],
        0x80 <= v < 0x8000 ==> sint_octets(v) == seq![(v / 0x100) as u8, (v % 0x100) as u8],
        0x8000 <= v < 0x80_0000 ==> sint_octets(v) == seq![
            (v / 0x1_0000) as u8,
            (v / 0x100 % 0x100) as u8,
            (v % 0x100) as u8,
        ],
        0x80_0000 <= v < 0x8000_0000 ==> sint_octets(v) == seq![
            (v / 0x100_0000) as u8,
            (v / 0x1_0000 % 0x100) as u8,
            (v / 0x100 % 0x100) as u8,
            (v % 0x100) as u8,
        ],
        sint(sint_octets(v)) == v,
{
    crate::ber::laws::lemma_sint(v);
    reveal_with_fuel(sint_octets, 5);
    if -0x80 <= v < 0 {
        assert(sint_octets(v) =~= seq![(v + 0x100) as u8]);
    } else if 0x80 <= v < 0x8000 {
        assert(sint_octets(v) =~= seq![(v / 0x100) as u8, (v % 0x100) as u8]);
    } else if 0x8000 <= v < 0x80_0000 {
        assert(sint_octets(v) =~= seq![
            (v / 0x1_0000) as u8,
            (v / 0x100 % 0x100) as u8,
            (v % 0x100) as u8,
        ]);
    } else if 0x80_0000 <= v < 0x8000_0000 {
        assert(sint_octets(v) =~= seq![
            (v / 0x100_0000) as u8,
            (v / 0x1_0000 % 0x100) as u8,
            (v / 0x100 % 0x100) as u8,
            (v % 0x100) as u8,
        ]);
    }
}

/// What octets spell: the sign is the top bit of the first, and each further octet is worth 256
/// times less than the one before.
pub proof fn lemma_number_read(a: u8, b: u8, c: u8, d: u8)
    ensures
        sint(seq![a]) == if a < 0x80 {
            a as int
        } else {
            a - 0x100
        },
        sint(seq![a, b]) == (if a < 0x80 {
            a as int
        } else {
            a - 0x100
        }) * 0x100 + b,
        sint(seq![a, b, c, d]) == (if a < 0x80 {
            a as int
        } else {
            a - 0x100
        }) * 0x100_0000 + b * 0x1_0000 + c * 0x100 + d,
        be_nat(seq![a]) == a,
        be_nat(seq![a, b]) == a * 0x100 + b,
        be_nat(seq![a, b, c, d]) == a * 0x100_0000 + b * 0x1_0000 + c * 0x100 + d,
{
    reveal_with_fuel(sint, 5);
    reveal_with_fuel(be_nat, 5);
    assert(seq![a, b].drop_last() =~= seq![a]);
    assert(seq![a, b, c, d].drop_last() =~= seq![a, b, c]);
    assert(seq![a, b, c].drop_last() =~= seq![a, b]);
    assert(seq![a].drop_last() =~= Seq::<u8>::empty());
}

/// Three leaves: a flag is one octet, a bit string starts with how many bits its last octet leaves
/// unused, and a floating-point number with the width of its exponent.
pub proof fn lemma_leaves(v: bool, unused: u8, bits: Seq<u8>, single: u32, double: u64)
    ensures
        bool_octets(v).len() == 1 && (bool_octets(v)[0] == 0 <==> !v),
        bit_octets(unused, bits) == seq![unused] + bits,
        float_octets(Float::Single(single)) == seq![
            8u8,
            (single / 0x100_0000) as u8,
            (single / 0x1_0000 % 0x100) as u8,
            (single / 0x100 % 0x100) as u8,
            (single % 0x100) as u8,
        ],
        float_octets(Float::Double(double)).len() == 9,
        float_octets(Float::Double(double))[0] == 11,
{
    reveal_with_fuel(be_fixed, 10);
    crate::ber::laws::lemma_be_fixed(double as nat, 8);
    assert(float_octets(Float::Single(single)) =~= seq![
        8u8,
        (single / 0x100_0000) as u8,
        (single / 0x1_0000 % 0x100) as u8,
        (single / 0x100 % 0x100) as u8,
        (single % 0x100) as u8,
    ]);
}

/// The numbers that elements hold, read from literal contents.
pub proof fn lemma_values_read(t: TlvModel)
    ensures
        t.value.len() == 1 ==> t.boolean() == Ok::<bool, Error>(t.value[0] != 0),
        t.value.len() != 1 ==> t.boolean() is Err,
        t.value.len() == 0 || t.value.len() > 8 ==> t.integer() is Err,
        t.value.len() == 0 || t.value.len() > 9 ==> t.unsigned64() is Err,
        t.value.len() == 8 <==> t.utc() is Ok,
        t.value.len() == 5 && t.value[0] == 8 ==> (t.float() matches Ok(Float::Single(_))),
        t.value.len() == 9 && t.value[0] == 11 ==> (t.float() matches Ok(Float::Double(_))),
        t.value.len() != 5 && t.value.len() != 9 ==> t.float() is Err,
        t.bits() matches Ok((unused, bytes)) ==> unused <= 7 && t.value == seq![unused] + bytes,
        t.bits() is Err <==> t.value.len() == 0 || t.value[0] > 7 || (t.value.len() == 1
            && t.value[0] != 0),
{
    if t.value.len() > 0 {
        assert(t.value =~= seq![t.value[0]] + t.value.skip(1));
    }
}

/// A cursor gives the first element and stands behind it, and says where each of them is.
pub proof fn lemma_walk(c: CursorModel, lead: u8, contents: Seq<u8>, rest: Seq<u8>)
    requires
        lead % 32 != 31,
        contents.len() < 0x80,
        c.bytes == element(lead, contents) + rest,
        c.offset + c.bytes.len() <= usize::MAX,
    ensures
        c.first() matches Ok(t) && t.value == contents && t.offset == c.offset && t.value_offset
            == c.offset + 2 && t.tag.number == lead % 32 && t.tag.constructed == (lead / 32 % 2
            == 1),
        c.rest().bytes == rest,
        c.rest().offset == c.offset + 2 + contents.len(),
{
    reveal(element);
    lemma_element_read(lead, contents, rest);
}

} // verus!
