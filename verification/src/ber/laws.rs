//! What the encoder writes, the decoder reads back.

use vstd::prelude::*;
use vstd::utf8::*;
use crate::common::{sat_add, DecodeReason, Error};
use crate::ber::{
    ascii, base128, be_fixed, be_nat, be_octets, bit_octets, bits_ok, bool_octets, flag_bytes,
    len_octets, marked_digits, octets_of, opt_bits_bytes, opt_bits_fault, opt_integer_bytes,
    opt_text_bytes, opt_text_fault, opt_unsigned_bytes, pow256, read_base128, read_element,
    read_len, read_tag, sint, sint_octets, tag_octets, text_fault, text_of, tlv, CursorModel, Tag,
    TlvModel,
};

verus! {

/// The first powers of 256.
pub proof fn lemma_pow256()
    ensures
        pow256(1) == 256,
        pow256(2) == 0x1_0000,
        pow256(4) == 0x1_0000_0000,
        pow256(8) == 0x1_0000_0000_0000_0000,
        pow256(9) == 0x100_0000_0000_0000_0000,
{
    reveal_with_fuel(pow256, 10);
}

/// Octets spell a number below the next power of 256.
pub proof fn lemma_be_nat_bound(s: Seq<u8>)
    ensures
        be_nat(s) < pow256(s.len()),
    decreases s.len(),
{
    if s.len() > 0 {
        lemma_be_nat_bound(s.drop_last());
    }
}

/// The shortest octets of a number spell it.
pub proof fn lemma_be_octets(n: nat)
    ensures
        be_nat(be_octets(n)) == n,
        be_octets(n).len() >= 1,
    decreases n,
{
    if n < 256 {
        assert(be_octets(n).drop_last() =~= Seq::empty());
        reveal_with_fuel(be_nat, 2);
    } else {
        lemma_be_octets(n / 256);
        assert(be_octets(n).drop_last() =~= be_octets(n / 256));
    }
}

/// A number below a power of 256 takes no more octets than that.
pub proof fn lemma_be_octets_len(n: nat, k: nat)
    requires
        k >= 1,
        n < pow256(k),
    ensures
        be_octets(n).len() <= k,
    decreases k,
{
    if n >= 256 {
        if k == 1 {
            lemma_pow256();
        } else {
            assert(n / 256 < pow256((k - 1) as nat));
            lemma_be_octets_len(n / 256, (k - 1) as nat);
        }
    }
}

/// Fixed-width octets of a number that fits spell it.
pub proof fn lemma_be_fixed(n: nat, k: nat)
    ensures
        be_fixed(n, k).len() == k,
        n < pow256(k) ==> be_nat(be_fixed(n, k)) == n,
    decreases k,
{
    if k > 0 {
        lemma_be_fixed(n / 256, (k - 1) as nat);
        assert(be_fixed(n, k).drop_last() =~= be_fixed(n / 256, (k - 1) as nat));
    }
}

proof fn lemma_marked_digits(n: nat, r: Seq<u8>)
    requires
        n <= u32::MAX,
    ensures
        read_base128(marked_digits(n) + r, 0) == read_base128(r, n),
    decreases n,
{
    let m = marked_digits(n) + r;
    if n < 128 {
        assert(m.skip(1) =~= r);
    } else {
        let d = (n % 128 + 128) as u8;
        lemma_marked_digits(n / 128, seq![d] + r);
        assert(m =~= marked_digits(n / 128) + (seq![d] + r));
        let t = seq![d] + r;
        assert(t.skip(1) =~= r);
    }
}

/// A base-128 number reads back, whatever follows it.
pub proof fn lemma_base128(n: nat, r: Seq<u8>)
    requires
        n <= u32::MAX,
    ensures
        read_base128(base128(n) + r, 0) == Ok::<(u32, Seq<u8>), DecodeReason>((n as u32, r)),
{
    let m = base128(n) + r;
    if n < 128 {
        assert(m.skip(1) =~= r);
    } else {
        let d = (n % 128) as u8;
        let t = seq![d] + r;
        lemma_marked_digits(n / 128, t);
        assert(m =~= marked_digits(n / 128) + t);
        assert(t.skip(1) =~= r);
    }
}

/// A tag reads back, whatever follows it.
pub proof fn lemma_read_tag(t: Tag, r: Seq<u8>)
    ensures
        read_tag(tag_octets(t) + r) == Ok::<(Tag, Seq<u8>), DecodeReason>((t, r)),
        tag_octets(t).len() >= 1,
{
    let s = tag_octets(t) + r;
    if t.number < 31 {
        assert(s.skip(1) =~= r);
    } else {
        lemma_base128(t.number as nat, r);
        assert(s.skip(1) =~= base128(t.number as nat) + r);
    }
}

/// A length reads back, whatever follows it.
pub proof fn lemma_read_len(n: nat, r: Seq<u8>)
    requires
        n <= u64::MAX,
    ensures
        read_len(len_octets(n) + r) == Ok::<(nat, Seq<u8>), DecodeReason>((n, r)),
        len_octets(n).len() >= 1,
{
    let s = len_octets(n) + r;
    if n < 128 {
        assert(s.skip(1) =~= r);
    } else {
        lemma_pow256();
        lemma_be_octets(n);
        lemma_be_octets_len(n, 8);
        let k = be_octets(n).len();
        assert(s.subrange(1, 1 + k as int) =~= be_octets(n));
        assert(s.skip(1 + k as int) =~= r);
    }
}

/// An element reads back, whatever follows it.
pub proof fn lemma_read_element(tag: Tag, v: Seq<u8>, r: Seq<u8>)
    requires
        v.len() <= u64::MAX,
    ensures
        read_element(tlv(tag, v) + r) == Ok::<(Tag, Seq<u8>, Seq<u8>), DecodeReason>((tag, v, r)),
{
    reveal(tlv);
    reveal(read_element);
    let body = v + r;
    let after = len_octets(v.len()) + body;
    lemma_read_tag(tag, after);
    lemma_read_len(v.len(), body);
    assert(tlv(tag, v) + r =~= tag_octets(tag) + after);
    assert(body.take(v.len() as int) =~= v);
    assert(body.skip(v.len() as int) =~= r);
}

/// An element is longer than its contents.
pub broadcast proof fn lemma_tlv_len(tag: Tag, v: Seq<u8>)
    ensures
        (#[trigger] tlv(tag, v)).len() >= v.len() + 2,
{
    reveal(tlv);
    lemma_read_tag(tag, Seq::empty());
    if v.len() >= 128 {
        lemma_be_octets(v.len());
    }
}

proof fn lemma_read_base128_len(s: Seq<u8>, acc: nat)
    ensures
        read_base128(s, acc) matches Ok((_, r)) ==> r.len() < s.len(),
    decreases s.len(),
{
    if s.len() > 0 && s[0] >= 128 {
        lemma_read_base128_len(s.skip(1), acc * 128 + (s[0] % 128) as nat);
    }
}

/// A base-128 number takes at least one octet.
pub proof fn lemma_base128_shrinks(s: Seq<u8>)
    ensures
        read_base128(s, 0) matches Ok((_, r)) ==> r.len() < s.len(),
{
    lemma_read_base128_len(s, 0);
}

/// An element takes at least two octets besides its contents.
pub proof fn lemma_element_len(s: Seq<u8>)
    ensures
        read_element(s) matches Ok((_, v, r)) ==> v.len() + r.len() + 2 <= s.len(),
{
    reveal(read_element);
    if s.len() > 0 {
        lemma_read_base128_len(s.skip(1), 0);
    }
}

/// Reading an element makes a cursor shorter, and what is inside is shorter still.
pub proof fn lemma_progress(c: CursorModel)
    ensures
        c.first() matches Ok(t) ==> t.value.len() < c.bytes.len() && c.rest().bytes.len()
            < c.bytes.len(),
{
    lemma_element_len(c.bytes);
}

/// An element with short contents is short.
pub proof fn lemma_small(tag: Tag, v: Seq<u8>)
    requires
        v.len() <= 127,
    ensures
        tlv(tag, v).len() <= v.len() + 8,
{
    reveal(tlv);
    reveal_with_fuel(marked_digits, 5);
}

/// The element a cursor over `tlv(tag, v) + r` finds first.
pub open spec fn element_at(tag: Tag, v: Seq<u8>, offset: usize) -> TlvModel {
    TlvModel {
        tag,
        value: v,
        offset,
        value_offset: sat_add(offset, (tlv(tag, v).len() - v.len()) as nat),
    }
}

/// Where a cursor over `tlv(tag, v) + r` goes on.
pub open spec fn cursor_after(tag: Tag, v: Seq<u8>, r: Seq<u8>, offset: usize) -> CursorModel {
    CursorModel { bytes: r, offset: sat_add(offset, tlv(tag, v).len()) }
}

/// A cursor reads an encoded element and goes on behind it.
pub proof fn lemma_first(tag: Tag, v: Seq<u8>, r: Seq<u8>, offset: usize)
    requires
        v.len() <= u64::MAX,
    ensures
        (CursorModel { bytes: tlv(tag, v) + r, offset }).first() == Ok::<TlvModel, Error>(
            element_at(tag, v, offset),
        ),
        (CursorModel { bytes: tlv(tag, v) + r, offset }).rest() == cursor_after(tag, v, r, offset),
{
    lemma_read_element(tag, v, r);
    lemma_tlv_len(tag, v);
}

/// A cursor over one encoded element reads it and is then empty.
pub proof fn lemma_only(tag: Tag, v: Seq<u8>, offset: usize)
    requires
        v.len() <= u64::MAX,
    ensures
        (CursorModel { bytes: tlv(tag, v), offset }).first() == Ok::<TlvModel, Error>(
            element_at(tag, v, offset),
        ),
        (CursorModel { bytes: tlv(tag, v), offset }).rest() == cursor_after(
            tag,
            v,
            Seq::empty(),
            offset,
        ),
{
    lemma_first(tag, v, Seq::empty(), offset);
    assert(tlv(tag, v) + Seq::empty() =~= tlv(tag, v));
}

/// An integer reads back.
pub proof fn lemma_sint(v: int)
    ensures
        sint(sint_octets(v)) == v,
        sint_octets(v).len() >= 1,
    decreases (if v >= 0 { v } else { -(v + 1) }),
{
    if !(-128 <= v < 128) {
        lemma_sint(v / 256);
        assert(sint_octets(v).drop_last() =~= sint_octets(v / 256));
    }
}

proof fn lemma_sint_octets_len(v: int, k: nat)
    requires
        k >= 1,
        -128 * pow256((k - 1) as nat) <= v < 128 * pow256((k - 1) as nat),
    ensures
        sint_octets(v).len() <= k,
    decreases k,
{
    if !(-128 <= v < 128) {
        if k > 1 {
            let p = pow256((k - 2) as nat);
            assert(pow256((k - 1) as nat) == 256 * p);
            assert(-128 * p <= v / 256 < 128 * p);
            lemma_sint_octets_len(v / 256, (k - 1) as nat);
        }
    }
}

proof fn lemma_sint_bound(s: Seq<u8>)
    requires
        s.len() >= 1,
    ensures
        -128 * pow256((s.len() - 1) as nat) <= sint(s) < 128 * pow256((s.len() - 1) as nat),
    decreases s.len(),
{
    if s.len() > 1 {
        lemma_sint_bound(s.drop_last());
        let p = pow256((s.len() - 2) as nat);
        assert(pow256((s.len() - 1) as nat) == 256 * p);
    }
}

/// Up to eight octets spell a 64-bit integer.
pub proof fn lemma_sint_i64(s: Seq<u8>)
    requires
        s.len() <= 8,
    ensures
        i64::MIN <= sint(s) <= i64::MAX,
{
    if s.len() >= 1 {
        lemma_sint_bound(s);
        reveal_with_fuel(pow256, 9);
    }
}

/// A 64-bit integer takes up to eight octets.
pub proof fn lemma_sint_octets_i64(v: i64)
    ensures
        1 <= sint_octets(v as int).len() <= 8,
{
    lemma_sint(v as int);
    reveal_with_fuel(pow256, 9);
    lemma_sint_octets_len(v as int, 8);
}

/// An unsigned number, written as a non-negative integer, reads back.
pub proof fn lemma_unsigned(v: nat)
    ensures
        be_nat(sint_octets(v as int)) == v,
    decreases v,
{
    let s = sint_octets(v as int);
    if v < 128 {
        assert(s.drop_last() =~= Seq::empty());
        reveal_with_fuel(be_nat, 2);
    } else {
        lemma_unsigned(v / 256);
        assert(s.drop_last() =~= sint_octets(v as int / 256));
    }
}

/// An unsigned 64-bit number takes up to nine octets.
pub proof fn lemma_unsigned_len(v: u64)
    ensures
        1 <= sint_octets(v as int).len() <= 9,
{
    lemma_sint(v as int);
    reveal_with_fuel(pow256, 9);
    lemma_sint_octets_len(v as int, 9);
}

/// ASCII text reads back.
pub broadcast proof fn lemma_ascii_text(s: Seq<char>)
    requires
        #[trigger] is_ascii_chars(s),
    ensures
        ascii(octets_of(s)),
        text_of(octets_of(s)) == s,
{
    assert(text_of(octets_of(s)) =~= s);
}

/// ASCII octets are valid UTF-8, and mean the same there.
pub proof fn lemma_ascii_utf8(b: Seq<u8>)
    requires
        ascii(b),
    ensures
        valid_utf8(b),
        decode_utf8(b) == text_of(b),
        is_ascii_chars(text_of(b)),
{
    let c = text_of(b);
    is_ascii_chars_encode_utf8(c);
    assert(encode_utf8(c) =~= b);
    encode_utf8_valid_utf8(c);
    encode_utf8_decode_utf8(c);
}

/// A signed element reads back as the integer it was written for.
pub proof fn lemma_integer_field(tag: Tag, v: i64, offset: usize)
    ensures
        element_at(tag, sint_octets(v as int), offset).integer() == Ok::<i64, Error>(v),
        sint_octets(v as int).len() <= 8,
{
    lemma_sint(v as int);
    lemma_sint_octets_i64(v);
}

/// An unsigned element reads back as the number it was written for.
pub proof fn lemma_unsigned_field(tag: Tag, v: u64, offset: usize)
    ensures
        element_at(tag, sint_octets(v as int), offset).unsigned64() == Ok::<u64, Error>(v),
        v <= u32::MAX ==> element_at(
            tag,
            sint_octets(v as int),
            offset,
        ).unsigned32() == Ok::<u32, Error>(v as u32),
        sint_octets(v as int).len() <= 9,
{
    lemma_unsigned(v as nat);
    lemma_unsigned_len(v);
}

// ---- fields of a sequence --------------------------------------------------------------

/// Whether octets are empty or start with an element of another tag.
pub open spec fn lacks(r: Seq<u8>, tag: Tag) -> bool {
    r.len() == 0 || (read_element(r) matches Ok((t, _, _)) && t != tag)
}

/// An element of another tag comes first.
pub proof fn lemma_lacks(other: Tag, v: Seq<u8>, r: Seq<u8>, tag: Tag)
    requires
        other != tag,
        v.len() <= u64::MAX,
    ensures
        lacks(tlv(other, v) + r, tag),
{
    lemma_read_element(other, v, r);
}

/// A cursor that lacks a tag finds nothing under it and stays.
pub proof fn lemma_absent(r: Seq<u8>, tag: Tag, offset: usize)
    requires
        lacks(r, tag),
    ensures
        (CursorModel { bytes: r, offset }).optional(tag) == Ok::<Option<TlvModel>, Error>(None),
        (CursorModel { bytes: r, offset }).skip_optional(tag) == (CursorModel { bytes: r, offset }),
{
}

/// An optional element that is there is found.
pub proof fn lemma_present(tag: Tag, v: Seq<u8>, r: Seq<u8>, offset: usize)
    requires
        v.len() <= u64::MAX,
    ensures
        (CursorModel { bytes: tlv(tag, v) + r, offset }).optional(tag) == Ok::<
            Option<TlvModel>,
            Error,
        >(Some(element_at(tag, v, offset))),
        (CursorModel { bytes: tlv(tag, v) + r, offset }).skip_optional(tag) == cursor_after(
            tag,
            v,
            r,
            offset,
        ),
{
    lemma_first(tag, v, r, offset);
    lemma_tlv_len(tag, v);
}

/// An optional integer reads back.
pub proof fn lemma_opt_integer(tag: Tag, v: Option<i64>, r: Seq<u8>, offset: usize)
    requires
        v is None ==> lacks(r, tag),
    ensures
        ({
            let c = CursorModel { bytes: opt_integer_bytes(tag, v) + r, offset };
            c.opt_integer(tag) == Ok::<Option<i64>, Error>(v) && c.skip_optional(tag).bytes == r
        }),
{
    match v {
        Some(x) => {
            lemma_integer_field(tag, x, offset);
            lemma_present(tag, sint_octets(x as int), r, offset);
        },
        None => {
            assert(opt_integer_bytes(tag, v) + r =~= r);
            lemma_absent(r, tag, offset);
        },
    }
}

/// An optional unsigned number reads back.
pub proof fn lemma_opt_unsigned(tag: Tag, v: Option<u32>, r: Seq<u8>, offset: usize)
    requires
        v is None ==> lacks(r, tag),
    ensures
        ({
            let c = CursorModel { bytes: opt_unsigned_bytes(tag, v) + r, offset };
            c.opt_unsigned32(tag) == Ok::<Option<u32>, Error>(v) && c.skip_optional(tag).bytes == r
        }),
{
    match v {
        Some(x) => {
            lemma_unsigned_field(tag, x as u64, offset);
            lemma_present(tag, sint_octets(x as int), r, offset);
        },
        None => {
            assert(opt_unsigned_bytes(tag, v) + r =~= r);
            lemma_absent(r, tag, offset);
        },
    }
}

/// Optional text reads back.
pub proof fn lemma_opt_text(tag: Tag, v: Option<Seq<char>>, r: Seq<u8>, offset: usize)
    requires
        opt_text_fault(v) is None,
        opt_text_bytes(tag, v).len() <= u64::MAX,
        v is None ==> lacks(r, tag),
    ensures
        ({
            let c = CursorModel { bytes: opt_text_bytes(tag, v) + r, offset };
            c.opt_visible(tag) == Ok::<Option<Seq<char>>, Error>(v) && c.skip_optional(tag).bytes
                == r
        }),
{
    match v {
        Some(x) => {
            lemma_ascii_text(x);
            lemma_tlv_len(tag, octets_of(x));
            lemma_present(tag, octets_of(x), r, offset);
        },
        None => {
            assert(opt_text_bytes(tag, v) + r =~= r);
            lemma_absent(r, tag, offset);
        },
    }
}

/// A bit string reads back.
pub proof fn lemma_bits_field(tag: Tag, unused: u8, bytes: Seq<u8>, offset: usize)
    requires
        bits_ok(unused, bytes),
    ensures
        element_at(tag, bit_octets(unused, bytes), offset).bits() == Ok::<(u8, Seq<u8>), Error>(
            (unused, bytes),
        ),
{
    assert(bit_octets(unused, bytes).skip(1) =~= bytes);
}

/// An optional bit string reads back.
pub proof fn lemma_opt_bits(tag: Tag, v: Option<(u8, Seq<u8>)>, r: Seq<u8>, offset: usize)
    requires
        opt_bits_fault(v) is None,
        opt_bits_bytes(tag, v).len() <= u64::MAX,
        v is None ==> lacks(r, tag),
    ensures
        ({
            let c = CursorModel { bytes: opt_bits_bytes(tag, v) + r, offset };
            c.opt_bits(tag) == Ok::<Option<(u8, Seq<u8>)>, Error>(v) && c.skip_optional(tag).bytes
                == r
        }),
{
    match v {
        Some((unused, bytes)) => {
            lemma_bits_field(tag, unused, bytes, offset);
            lemma_tlv_len(tag, bit_octets(unused, bytes));
            lemma_present(tag, bit_octets(unused, bytes), r, offset);
        },
        None => {
            assert(opt_bits_bytes(tag, v) + r =~= r);
            lemma_absent(r, tag, offset);
        },
    }
}

/// A boolean with a default reads back.
pub proof fn lemma_flag(tag: Tag, v: bool, default: bool, r: Seq<u8>, offset: usize)
    requires
        v == default ==> lacks(r, tag),
    ensures
        ({
            let c = CursorModel { bytes: flag_bytes(tag, v, default) + r, offset };
            c.flag(tag, default) == Ok::<bool, Error>(v) && c.skip_optional(tag).bytes == r
        }),
{
    if v == default {
        assert(flag_bytes(tag, v, default) + r =~= r);
        lemma_absent(r, tag, offset);
    } else {
        lemma_present(tag, bool_octets(v), r, offset);
    }
}

/// A required integer reads back.
pub proof fn lemma_integer(tag: Tag, v: i64, r: Seq<u8>, offset: usize)
    ensures
        ({
            let c = CursorModel { bytes: tlv(tag, sint_octets(v as int)) + r, offset };
            c.integer(tag) == Ok::<i64, Error>(v) && c.tagged(tag) is Ok && c.rest().bytes == r
        }),
{
    lemma_integer_field(tag, v, offset);
    lemma_first(tag, sint_octets(v as int), r, offset);
}

/// A required unsigned number reads back.
pub proof fn lemma_unsigned32(tag: Tag, v: u32, r: Seq<u8>, offset: usize)
    ensures
        ({
            let c = CursorModel { bytes: tlv(tag, sint_octets(v as int)) + r, offset };
            c.unsigned32(tag) == Ok::<u32, Error>(v) && c.tagged(tag) is Ok && c.rest().bytes == r
        }),
{
    lemma_unsigned_field(tag, v as u64, offset);
    lemma_first(tag, sint_octets(v as int), r, offset);
}

/// Required text reads back.
pub proof fn lemma_visible(tag: Tag, v: Seq<char>, r: Seq<u8>, offset: usize)
    requires
        is_ascii_chars(v),
        v.len() <= u64::MAX,
    ensures
        ({
            let c = CursorModel { bytes: tlv(tag, octets_of(v)) + r, offset };
            c.visible(tag) == Ok::<Seq<char>, Error>(v) && c.tagged(tag) is Ok && c.rest().bytes
                == r
        }),
{
    lemma_ascii_text(v);
    lemma_first(tag, octets_of(v), r, offset);
}

/// A required bit string reads back.
pub proof fn lemma_bits(tag: Tag, unused: u8, bytes: Seq<u8>, r: Seq<u8>, offset: usize)
    requires
        bits_ok(unused, bytes),
        bytes.len() < u64::MAX,
    ensures
        ({
            let c = CursorModel { bytes: tlv(tag, bit_octets(unused, bytes)) + r, offset };
            c.bits(tag) == Ok::<(u8, Seq<u8>), Error>((unused, bytes)) && c.tagged(tag) is Ok
                && c.rest().bytes == r
        }),
{
    lemma_bits_field(tag, unused, bytes, offset);
    lemma_first(tag, bit_octets(unused, bytes), r, offset);
}

/// An element inside another reads back.
pub proof fn lemma_wrapped(tag: Tag, inner: Tag, v: Seq<u8>, r: Seq<u8>, offset: usize)
    requires
        tlv(inner, v).len() <= u64::MAX,
    ensures
        ({
            let c = CursorModel { bytes: tlv(tag, tlv(inner, v)) + r, offset };
            let at = element_at(tag, tlv(inner, v), offset).value_offset;
            c.wrapped(tag) == Ok::<TlvModel, Error>(element_at(inner, v, at)) && c.tagged(tag)
                == Ok::<TlvModel, Error>(element_at(tag, tlv(inner, v), offset))
                && c.rest().bytes == r
        }),
{
    lemma_tlv_len(inner, v);
    lemma_first(tag, tlv(inner, v), r, offset);
    lemma_only(inner, v, element_at(tag, tlv(inner, v), offset).value_offset);
}

/// Text that was decoded has an encoding.
pub proof fn lemma_visible_decoded(t: TlvModel)
    ensures
        t.visible() matches Ok(s) ==> text_fault(s) is None,
{
    if ascii(t.value) {
        lemma_ascii_utf8(t.value);
    }
}

/// Optional text that was decoded has an encoding.
pub proof fn lemma_opt_visible_decoded(c: CursorModel, tag: Tag)
    ensures
        c.opt_visible(tag) matches Ok(s) ==> opt_text_fault(s) is None,
{
    if let Ok(Some(t)) = c.optional(tag) {
        lemma_visible_decoded(t);
    }
}

/// Required text that was decoded has an encoding.
pub proof fn lemma_required_decoded(c: CursorModel, tag: Tag)
    ensures
        c.visible(tag) matches Ok(s) ==> text_fault(s) is None,
{
    if let Ok(t) = c.tagged(tag) {
        lemma_visible_decoded(t);
    }
}

/// An element with a short tag takes two octets more than its contents, and as many more as its
/// length takes where that is above 127.
pub proof fn lemma_tlv_at_most(tag: Tag, v: Seq<u8>, k: nat)
    requires
        tag.number < 31,
        1 <= k,
        v.len() < pow256(k),
    ensures
        tlv(tag, v).len() <= v.len() + 2 + k,
        v.len() < 128 ==> tlv(tag, v).len() == v.len() + 2,
{
    reveal(tlv);
    lemma_be_octets_len(v.len(), k);
}

/// A 32-bit counter takes at most five octets.
pub proof fn lemma_counter_len(v: u32)
    ensures
        1 <= sint_octets(v as int).len() <= 5,
{
    lemma_pow256();
    lemma_sint(v as int);
    lemma_sint_octets_len(v as int, 5);
}

} // verus!
