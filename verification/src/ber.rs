//! The Basic Encoding Rules of ASN.1, as far as IEC 61850 uses them.
//!
//! [`Cursor`] walks encoded elements without copying, [`Tlv`] reads the contents of one, and
//! [`Encoder`] writes them. Lengths are definite; the decoder accepts a length written in more
//! octets than it needs, and the encoder always writes the shortest form.

pub mod float;
pub mod laws;
pub mod list;
pub mod refusals;
pub mod wire;

use vstd::prelude::*;
use vstd::slice::*;
use vstd::utf8::*;
use crate::common::{agrees, agrees_opt, sat_add, DecodeReason, Error, UtcTime};

verus! {

broadcast use group_utf8_lib;

/// The four tag classes.
#[derive(Clone, Copy, Debug, PartialEq, Eq, Structural)]
pub enum Class {
    /// ASN.1's own types.
    Universal,
    /// Types an application defines.
    Application,
    /// Types that mean something only where they stand.
    Context,
    /// Types of a private agreement.
    Private,
}

/// The identifier of an element.
#[derive(Clone, Copy, Debug, PartialEq, Eq, Structural)]
pub struct Tag {
    /// The class.
    pub class: Class,
    /// Whether the contents are elements themselves.
    pub constructed: bool,
    /// The number within the class.
    pub number: u32,
}

/// `[n]`, primitive.
pub open spec fn ctx(n: u32) -> Tag {
    Tag { class: Class::Context, constructed: false, number: n }
}

/// `[n]`, constructed.
pub open spec fn ctx_cons(n: u32) -> Tag {
    Tag { class: Class::Context, constructed: true, number: n }
}

/// `[UNIVERSAL n]`.
pub open spec fn univ(n: u32, constructed: bool) -> Tag {
    Tag { class: Class::Universal, constructed, number: n }
}

/// `[APPLICATION n]`, constructed.
pub open spec fn app_cons(n: u32) -> Tag {
    Tag { class: Class::Application, constructed: true, number: n }
}

/// BOOLEAN.
pub const UNIVERSAL_BOOLEAN: u32 = 1;
/// INTEGER.
pub const UNIVERSAL_INTEGER: u32 = 2;
/// OBJECT IDENTIFIER.
pub const UNIVERSAL_OID: u32 = 6;
/// SEQUENCE and SEQUENCE OF.
pub const UNIVERSAL_SEQUENCE: u32 = 16;
/// GraphicString.
pub const UNIVERSAL_GRAPHIC_STRING: u32 = 25;
/// VisibleString.
pub const UNIVERSAL_VISIBLE_STRING: u32 = 26;

impl Tag {
    /// `[n]`, primitive.
    pub fn context(number: u32) -> (r: Tag)
        ensures
            r == ctx(number),
    {
        Tag { class: Class::Context, constructed: false, number }
    }

    /// `[n]`, constructed.
    pub fn context_constructed(number: u32) -> (r: Tag)
        ensures
            r == ctx_cons(number),
    {
        Tag { class: Class::Context, constructed: true, number }
    }

    /// `[APPLICATION n]`, constructed.
    pub fn application_constructed(number: u32) -> (r: Tag)
        ensures
            r == app_cons(number),
    {
        Tag { class: Class::Application, constructed: true, number }
    }

    /// `[UNIVERSAL n]`.
    pub fn universal(number: u32, constructed: bool) -> (r: Tag)
        ensures
            r == univ(number, constructed),
    {
        Tag { class: Class::Universal, constructed, number }
    }
}

// ---- identifier octets -----------------------------------------------------------------

/// The class an identifier octet names.
pub open spec fn class_of(b: u8) -> Class {
    if b < 64 {
        Class::Universal
    } else if b < 128 {
        Class::Application
    } else if b < 192 {
        Class::Context
    } else {
        Class::Private
    }
}

/// The class bits of an identifier octet.
pub open spec fn class_bits(c: Class) -> nat {
    match c {
        Class::Universal => 0,
        Class::Application => 64,
        Class::Context => 128,
        Class::Private => 192,
    }
}

/// The base-128 digits of `n`, most significant first, each marked as having more after it.
pub open spec fn marked_digits(n: nat) -> Seq<u8>
    decreases n,
{
    if n < 128 {
        seq![(n + 128) as u8]
    } else {
        marked_digits(n / 128).push((n % 128 + 128) as u8)
    }
}

/// `n` in base 128: every octet but the last carries the continuation bit.
pub open spec fn base128(n: nat) -> Seq<u8> {
    if n < 128 {
        seq![n as u8]
    } else {
        marked_digits(n / 128).push((n % 128) as u8)
    }
}

/// The identifier octets of a tag.
pub open spec fn tag_octets(t: Tag) -> Seq<u8> {
    let lead = class_bits(t.class) + if t.constructed { 32nat } else { 0nat };
    if t.number < 31 {
        seq![(lead + t.number) as u8]
    } else {
        seq![(lead + 31) as u8] + base128(t.number as nat)
    }
}

/// A base-128 number continuing from `acc`, and the octets after it.
pub open spec fn read_base128(s: Seq<u8>, acc: nat) -> Result<(u32, Seq<u8>), DecodeReason>
    decreases s.len(),
{
    if s.len() == 0 {
        Err(DecodeReason::Truncated)
    } else {
        let next = acc * 128 + (s[0] % 128) as nat;
        if next > u32::MAX {
            Err(DecodeReason::BadTag)
        } else if s[0] < 128 {
            Ok((next as u32, s.skip(1)))
        } else {
            read_base128(s.skip(1), next)
        }
    }
}

/// A tag, and the octets after it.
pub open spec fn read_tag(s: Seq<u8>) -> Result<(Tag, Seq<u8>), DecodeReason> {
    if s.len() == 0 {
        Err(DecodeReason::Truncated)
    } else {
        let class = class_of(s[0]);
        let constructed = s[0] % 64 >= 32;
        let low = s[0] % 32;
        if low != 31 {
            Ok((Tag { class, constructed, number: low as u32 }, s.skip(1)))
        } else {
            match read_base128(s.skip(1), 0) {
                Ok((number, rest)) => Ok((Tag { class, constructed, number }, rest)),
                Err(e) => Err(e),
            }
        }
    }
}

// ---- length octets ---------------------------------------------------------------------

/// The number big-endian octets spell.
pub open spec fn be_nat(s: Seq<u8>) -> nat
    decreases s.len(),
{
    if s.len() == 0 {
        0
    } else {
        be_nat(s.drop_last()) * 256 + s.last() as nat
    }
}

/// `n` in the fewest big-endian octets, at least one.
pub open spec fn be_octets(n: nat) -> Seq<u8>
    decreases n,
{
    if n < 256 {
        seq![n as u8]
    } else {
        be_octets(n / 256).push((n % 256) as u8)
    }
}

/// The low `k` big-endian octets of `n`.
pub open spec fn be_fixed(n: nat, k: nat) -> Seq<u8>
    decreases k,
{
    if k == 0 {
        Seq::empty()
    } else {
        be_fixed(n / 256, (k - 1) as nat).push((n % 256) as u8)
    }
}

/// 256 to the power `k`.
pub open spec fn pow256(k: nat) -> nat
    decreases k,
{
    if k == 0 {
        1
    } else {
        256 * pow256((k - 1) as nat)
    }
}

/// The length octets for contents of `n` octets.
pub open spec fn len_octets(n: nat) -> Seq<u8> {
    if n < 128 {
        seq![n as u8]
    } else {
        seq![(128 + be_octets(n).len()) as u8] + be_octets(n)
    }
}

/// A length, and the octets after it. The long form takes one to eight octets.
pub open spec fn read_len(s: Seq<u8>) -> Result<(nat, Seq<u8>), DecodeReason> {
    if s.len() == 0 {
        Err(DecodeReason::Truncated)
    } else if s[0] < 128 {
        Ok((s[0] as nat, s.skip(1)))
    } else if s[0] == 128 || s[0] > 136 {
        Err(DecodeReason::BadLength)
    } else {
        let k = (s[0] - 128) as nat;
        if s.len() < 1 + k {
            Err(DecodeReason::Truncated)
        } else {
            Ok((be_nat(s.subrange(1, 1 + k as int)), s.skip(1 + k as int)))
        }
    }
}

// ---- elements --------------------------------------------------------------------------

/// One encoded element.
#[verifier::opaque]
pub open spec fn tlv(tag: Tag, value: Seq<u8>) -> Seq<u8> {
    tag_octets(tag) + (len_octets(value.len()) + value)
}

/// The first element of `s`: its tag, its contents, and the octets after it.
#[verifier::opaque]
pub open spec fn read_element(s: Seq<u8>) -> Result<(Tag, Seq<u8>, Seq<u8>), DecodeReason> {
    match read_tag(s) {
        Err(e) => Err(e),
        Ok((tag, after_tag)) => match read_len(after_tag) {
            Err(e) => Err(e),
            Ok((len, body)) => if len > body.len() {
                Err(DecodeReason::Truncated)
            } else {
                Ok((tag, body.take(len as int), body.skip(len as int)))
            },
        },
    }
}

/// What a [`Tlv`] stands for.
pub struct TlvModel {
    pub tag: Tag,
    pub value: Seq<u8>,
    pub offset: usize,
    pub value_offset: usize,
}

/// What a [`Cursor`] stands for: the octets it has not walked yet, and where they start.
pub struct CursorModel {
    pub bytes: Seq<u8>,
    pub offset: usize,
}

/// Octets that end too early.
pub open spec fn truncated<T>(offset: nat) -> Result<T, Error> {
    Err(Error::Decode { reason: DecodeReason::Truncated, offset: offset as usize })
}

/// A decode error.
pub open spec fn bad<T>(reason: DecodeReason, offset: usize) -> Result<T, Error> {
    Err(Error::Decode { reason, offset })
}

impl CursorModel {
    /// The next element, which has to be there.
    pub open spec fn first(self) -> Result<TlvModel, Error> {
        if self.bytes.len() == 0 {
            bad(DecodeReason::MissingField, self.offset)
        } else {
            match read_element(self.bytes) {
                Err(reason) => bad(reason, self.offset),
                Ok((tag, value, after)) => Ok(
                    TlvModel {
                        tag,
                        value,
                        offset: self.offset,
                        value_offset: sat_add(
                            self.offset,
                            (self.bytes.len() - after.len() - value.len()) as nat,
                        ),
                    },
                ),
            }
        }
    }

    /// The cursor behind the next element.
    pub open spec fn rest(self) -> CursorModel {
        match read_element(self.bytes) {
            Err(_) => self,
            Ok((_, _, after)) => CursorModel {
                bytes: after,
                offset: sat_add(self.offset, (self.bytes.len() - after.len()) as nat),
            },
        }
    }

    /// The next element, which has to carry `tag`.
    pub open spec fn tagged(self, tag: Tag) -> Result<TlvModel, Error> {
        match self.first() {
            Err(e) => Err(e),
            Ok(t) => if t.tag == tag {
                Ok(t)
            } else {
                bad(DecodeReason::UnexpectedTag, t.offset)
            },
        }
    }

    /// The next element if it is there and carries `tag`.
    pub open spec fn optional(self, tag: Tag) -> Result<Option<TlvModel>, Error> {
        if self.bytes.len() == 0 {
            Ok(None)
        } else {
            match self.first() {
                Err(e) => Err(e),
                Ok(t) => if t.tag == tag {
                    Ok(Some(t))
                } else {
                    Ok(None)
                },
            }
        }
    }

    /// An integer under `tag`.
    pub open spec fn integer(self, tag: Tag) -> Result<i64, Error> {
        match self.tagged(tag) {
            Err(e) => Err(e),
            Ok(t) => t.integer(),
        }
    }

    /// An unsigned 32-bit number under `tag`.
    pub open spec fn unsigned32(self, tag: Tag) -> Result<u32, Error> {
        match self.tagged(tag) {
            Err(e) => Err(e),
            Ok(t) => t.unsigned32(),
        }
    }

    /// Text under `tag`.
    pub open spec fn visible(self, tag: Tag) -> Result<Seq<char>, Error> {
        match self.tagged(tag) {
            Err(e) => Err(e),
            Ok(t) => t.visible(),
        }
    }

    /// A bit string under `tag`.
    pub open spec fn bits(self, tag: Tag) -> Result<(u8, Seq<u8>), Error> {
        match self.tagged(tag) {
            Err(e) => Err(e),
            Ok(t) => t.bits(),
        }
    }

    /// The first element inside the one under `tag`.
    pub open spec fn wrapped(self, tag: Tag) -> Result<TlvModel, Error> {
        match self.tagged(tag) {
            Err(e) => Err(e),
            Ok(t) => t.children().first(),
        }
    }

    /// A boolean under `tag`, or `default` where there is none.
    pub open spec fn flag(self, tag: Tag, default: bool) -> Result<bool, Error> {
        match self.optional(tag) {
            Err(e) => Err(e),
            Ok(None) => Ok(default),
            Ok(Some(t)) => t.boolean(),
        }
    }

    /// An integer under `tag`, if it is there.
    pub open spec fn opt_integer(self, tag: Tag) -> Result<Option<i64>, Error> {
        match self.optional(tag) {
            Err(e) => Err(e),
            Ok(None) => Ok(None),
            Ok(Some(t)) => match t.integer() {
                Ok(v) => Ok(Some(v)),
                Err(e) => Err(e),
            },
        }
    }

    /// An unsigned 32-bit number under `tag`, if it is there.
    pub open spec fn opt_unsigned32(self, tag: Tag) -> Result<Option<u32>, Error> {
        match self.optional(tag) {
            Err(e) => Err(e),
            Ok(None) => Ok(None),
            Ok(Some(t)) => match t.unsigned32() {
                Ok(v) => Ok(Some(v)),
                Err(e) => Err(e),
            },
        }
    }

    /// Text under `tag`, if it is there.
    pub open spec fn opt_visible(self, tag: Tag) -> Result<Option<Seq<char>>, Error> {
        match self.optional(tag) {
            Err(e) => Err(e),
            Ok(None) => Ok(None),
            Ok(Some(t)) => match t.visible() {
                Ok(v) => Ok(Some(v)),
                Err(e) => Err(e),
            },
        }
    }

    /// A bit string under `tag`, if it is there.
    pub open spec fn opt_bits(self, tag: Tag) -> Result<Option<(u8, Seq<u8>)>, Error> {
        match self.optional(tag) {
            Err(e) => Err(e),
            Ok(None) => Ok(None),
            Ok(Some(t)) => match t.bits() {
                Ok(v) => Ok(Some(v)),
                Err(e) => Err(e),
            },
        }
    }

    /// Nothing may be left.
    pub open spec fn finish(self) -> Result<(), Error> {
        if self.bytes.len() == 0 {
            Ok(())
        } else {
            bad(DecodeReason::TrailingBytes, self.offset)
        }
    }

    /// The cursor behind the next element if that carries `tag`, else this one.
    pub open spec fn skip_optional(self, tag: Tag) -> CursorModel {
        match self.optional(tag) {
            Ok(Some(_)) => self.rest(),
            _ => self,
        }
    }
}

/// The integer two's-complement octets spell.
pub open spec fn sint(s: Seq<u8>) -> int
    decreases s.len(),
{
    if s.len() == 0 {
        0
    } else if s.len() == 1 {
        if s[0] < 128 {
            s[0] as int
        } else {
            s[0] - 256
        }
    } else {
        sint(s.drop_last()) * 256 + s.last()
    }
}

/// `v` in the fewest two's-complement octets.
pub open spec fn sint_octets(v: int) -> Seq<u8>
    decreases (if v >= 0 { v } else { -(v + 1) }),
{
    if -128 <= v < 128 {
        seq![(v % 256) as u8]
    } else {
        sint_octets(v / 256).push((v % 256) as u8)
    }
}

/// Whether every octet is an ASCII character.
pub open spec fn ascii(s: Seq<u8>) -> bool {
    forall|i: int| 0 <= i < s.len() ==> s[i] < 128
}

/// ASCII octets as characters.
pub open spec fn text_of(s: Seq<u8>) -> Seq<char> {
    Seq::new(s.len(), |i: int| s[i] as char)
}

/// ASCII characters as octets.
pub open spec fn octets_of(s: Seq<char>) -> Seq<u8> {
    Seq::new(s.len(), |i: int| s[i] as u8)
}

/// Whether bit-string contents may leave `unused` bits of their last octet unused.
pub open spec fn bits_ok(unused: u8, bytes: Seq<u8>) -> bool {
    unused <= 7 && (bytes.len() == 0 ==> unused == 0)
}

/// An IEEE 754 number, as its bits.
#[derive(Clone, Copy, Debug)]
pub enum Float {
    /// Single precision.
    Single(u32),
    /// Double precision.
    Double(u64),
}

impl TlvModel {
    /// The elements inside.
    pub open spec fn children(self) -> CursorModel {
        CursorModel { bytes: self.value, offset: self.value_offset }
    }

    /// This element, if it carries `tag`.
    pub open spec fn expect(self, tag: Tag) -> Result<TlvModel, Error> {
        if self.tag == tag {
            Ok(self)
        } else {
            bad(DecodeReason::UnexpectedTag, self.offset)
        }
    }

    /// How many octets the element occupies, with its tag and length.
    pub open spec fn total_len(self) -> usize {
        sat_add(
            if self.value_offset >= self.offset {
                (self.value_offset - self.offset) as usize
            } else {
                0
            },
            self.value.len(),
        )
    }

    /// A boolean is one octet; anything but zero is true.
    pub open spec fn boolean(self) -> Result<bool, Error> {
        if self.value.len() == 1 {
            Ok(self.value[0] != 0)
        } else {
            bad(DecodeReason::BadLength, self.value_offset)
        }
    }

    /// An integer of one to eight octets.
    pub open spec fn integer(self) -> Result<i64, Error> {
        if 1 <= self.value.len() <= 8 {
            Ok(sint(self.value) as i64)
        } else {
            bad(DecodeReason::BadLength, self.value_offset)
        }
    }

    /// An integer that fits 32 bits.
    pub open spec fn integer32(self) -> Result<i32, Error> {
        match self.integer() {
            Err(e) => Err(e),
            Ok(v) => if i32::MIN <= v <= i32::MAX {
                Ok(v as i32)
            } else {
                bad(DecodeReason::BadValue, self.value_offset)
            },
        }
    }

    /// An unsigned number of one to eight octets, or of nine that start with zero. The first
    /// octet's top bit is part of the number, whether or not a zero octet precedes it.
    pub open spec fn unsigned64(self) -> Result<u64, Error> {
        if self.value.len() == 0 || self.value.len() > 9 {
            bad(DecodeReason::BadLength, self.value_offset)
        } else if be_nat(self.value) <= u64::MAX {
            Ok(be_nat(self.value) as u64)
        } else {
            bad(DecodeReason::BadValue, self.value_offset)
        }
    }

    /// An unsigned number that fits 32 bits.
    pub open spec fn unsigned32(self) -> Result<u32, Error> {
        match self.unsigned64() {
            Err(e) => Err(e),
            Ok(v) => if v <= u32::MAX {
                Ok(v as u32)
            } else {
                bad(DecodeReason::BadValue, self.value_offset)
            },
        }
    }

    /// A bit string: the number of unused bits, and the octets.
    pub open spec fn bits(self) -> Result<(u8, Seq<u8>), Error> {
        if self.value.len() == 0 {
            bad(DecodeReason::BadLength, self.value_offset)
        } else if bits_ok(self.value[0], self.value.skip(1)) {
            Ok((self.value[0], self.value.skip(1)))
        } else {
            bad(DecodeReason::BadValue, self.value_offset)
        }
    }

    /// A floating-point number: the exponent width, then the IEEE 754 octets.
    pub open spec fn float(self) -> Result<Float, Error> {
        if self.value.len() == 5 && self.value[0] == 8 {
            Ok(Float::Single(be_nat(self.value.skip(1)) as u32))
        } else if self.value.len() == 9 && self.value[0] == 11 {
            Ok(Float::Double(be_nat(self.value.skip(1)) as u64))
        } else {
            bad(DecodeReason::BadValue, self.value_offset)
        }
    }

    /// A `VisibleString`.
    pub open spec fn visible(self) -> Result<Seq<char>, Error> {
        if ascii(self.value) {
            Ok(text_of(self.value))
        } else {
            bad(DecodeReason::BadValue, self.value_offset)
        }
    }

    /// The IEC 61850 `Timestamp` is eight octets.
    pub open spec fn utc(self) -> Result<UtcTime, Error> {
        if self.value.len() == 8 {
            Ok(UtcTime { raw: be_nat(self.value) as u64 })
        } else {
            bad(DecodeReason::BadLength, self.value_offset)
        }
    }

    /// A UTF-8 string.
    pub open spec fn utf8(self) -> Result<Seq<char>, Error> {
        if valid_utf8(self.value) {
            Ok(decode_utf8(self.value))
        } else {
            bad(DecodeReason::BadValue, self.value_offset)
        }
    }
}

// ---- decoding --------------------------------------------------------------------------

/// One element: its tag, its contents, and where it stands in the buffer being decoded.
#[derive(Clone, Copy, Debug, PartialEq, Eq)]
pub struct Tlv<'a> {
    /// The tag.
    pub tag: Tag,
    /// The contents octets.
    pub value: &'a [u8],
    /// Offset of the identifier octets.
    pub offset: usize,
    /// Offset of the contents octets.
    pub value_offset: usize,
}

impl<'a> View for Tlv<'a> {
    type V = TlvModel;

    open spec fn view(&self) -> TlvModel {
        TlvModel {
            tag: self.tag,
            value: self.value@,
            offset: self.offset,
            value_offset: self.value_offset,
        }
    }
}

/// Walks encoded elements, borrowing them.
#[derive(Clone, Copy, Debug, PartialEq, Eq)]
pub struct Cursor<'a> {
    /// The octets not walked yet.
    pub rest: &'a [u8],
    /// Where they start in the buffer being decoded.
    pub offset: usize,
}

impl<'a> View for Cursor<'a> {
    type V = CursorModel;

    open spec fn view(&self) -> CursorModel {
        CursorModel { bytes: self.rest@, offset: self.offset }
    }
}

/// `core::str::from_utf8`: octets are a string exactly when they are valid UTF-8, and then
/// the string's own octets are these.
#[verifier::external_body]
fn str_from_utf8(bytes: &[u8]) -> (r: Option<&str>)
    ensures
        r is Some <==> valid_utf8(bytes@),
        r matches Some(s) ==> encode_utf8(s@) == bytes@,
{
    core::str::from_utf8(bytes).ok()
}

/// The string that UTF-8 octets spell.
pub fn utf8_text(bytes: &[u8]) -> (r: Option<&str>)
    ensures
        match r {
            Some(s) => valid_utf8(bytes@) && s@ == decode_utf8(bytes@),
            None => !valid_utf8(bytes@),
        },
{
    let r = str_from_utf8(bytes);
    proof {
        if let Some(s) = r {
            encode_utf8_decode_utf8(s@);
        }
    }
    r
}

/// Whether every octet is an ASCII character.
pub fn is_ascii_octets(bytes: &[u8]) -> (r: bool)
    ensures
        r == ascii(bytes@),
{
    let mut i: usize = 0;
    while i < bytes.len()
        invariant
            i <= bytes.len(),
            forall|j: int| 0 <= j < i ==> bytes@[j] < 128,
        decreases bytes.len() - i,
    {
        if bytes[i] >= 128 {
            return false;
        }
        i += 1;
    }
    true
}

/// Whether two strings are the same.
pub fn same_text(a: &str, b: &str) -> (r: bool)
    ensures
        r == (a@ == b@),
{
    proof {
        encode_utf8_decode_utf8(a@);
        encode_utf8_decode_utf8(b@);
    }
    same_octets(a.as_bytes(), b.as_bytes())
}

/// Whether two strings of octets are the same.
pub fn same_octets(a: &[u8], b: &[u8]) -> (r: bool)
    ensures
        r == (a@ == b@),
{
    if a.len() != b.len() {
        return false;
    }
    let mut i: usize = 0;
    while i < a.len()
        invariant
            i <= a.len(),
            a.len() == b.len(),
            forall|j: int| 0 <= j < i ==> a@[j] == b@[j],
        decreases a.len() - i,
    {
        if a[i] != b[i] {
            return false;
        }
        i += 1;
    }
    assert(a@ =~= b@);
    true
}

/// The number that up to nine big-endian octets spell.
fn number_of(bytes: &[u8]) -> (r: u128)
    requires
        bytes.len() <= 9,
    ensures
        r == be_nat(bytes@),
{
    let mut acc: u128 = 0;
    let mut i: usize = 0;
    while i < bytes.len()
        invariant
            i <= bytes.len() <= 9,
            acc == be_nat(bytes@.take(i as int)),
        decreases bytes.len() - i,
    {
        proof {
            let t = bytes@.take(i + 1);
            assert(t.drop_last() =~= bytes@.take(i as int));
            laws::lemma_be_nat_bound(bytes@.take(i as int));
            reveal_with_fuel(pow256, 10);
        }
        acc = acc * 256 + bytes[i] as u128;
        i += 1;
    }
    assert(bytes@.take(i as int) =~= bytes@);
    acc
}

/// The number that up to eight big-endian octets spell.
pub fn be_u64(bytes: &[u8]) -> (r: u64)
    requires
        bytes.len() <= 8,
    ensures
        r == be_nat(bytes@),
{
    proof {
        laws::lemma_be_nat_bound(bytes@);
        reveal_with_fuel(pow256, 9);
    }
    number_of(bytes) as u64
}

fn integer_of(bytes: &[u8]) -> (r: i64)
    requires
        1 <= bytes.len() <= 8,
    ensures
        r == sint(bytes@),
{
    let mut acc: i64 = if bytes[0] < 128 {
        bytes[0] as i64
    } else {
        bytes[0] as i64 - 256
    };
    let mut i: usize = 1;
    while i < bytes.len()
        invariant
            1 <= i <= bytes.len() <= 8,
            acc == sint(bytes@.take(i as int)),
        decreases bytes.len() - i,
    {
        proof {
            let t = bytes@.take(i + 1);
            assert(t.drop_last() =~= bytes@.take(i as int));
            laws::lemma_sint_i64(t);
        }
        acc = acc * 256 + bytes[i] as i64;
        i += 1;
    }
    assert(bytes@.take(i as int) =~= bytes@);
    acc
}

fn base128_at(buf: &[u8], start: usize) -> (r: Result<(u32, usize), DecodeReason>)
    requires
        start <= buf.len(),
    ensures
        match r {
            Ok((n, i)) => i <= buf.len() && read_base128(buf@.skip(start as int), 0) == Ok::<
                (u32, Seq<u8>),
                DecodeReason,
            >((n, buf@.skip(i as int))),
            Err(e) => read_base128(buf@.skip(start as int), 0) == Err::<
                (u32, Seq<u8>),
                DecodeReason,
            >(e),
        },
{
    let mut acc: u32 = 0;
    let mut i: usize = start;
    while i < buf.len()
        invariant
            start <= i <= buf.len(),
            read_base128(buf@.skip(start as int), 0) == read_base128(
                buf@.skip(i as int),
                acc as nat,
            ),
        decreases buf.len() - i,
    {
        assert(buf@.skip(i as int).skip(1) =~= buf@.skip(i + 1));
        let next: u64 = acc as u64 * 128 + (buf[i] % 128) as u64;
        if next > u32::MAX as u64 {
            return Err(DecodeReason::BadTag);
        }
        if buf[i] < 128 {
            return Ok((next as u32, i + 1));
        }
        acc = next as u32;
        i += 1;
    }
    Err(DecodeReason::Truncated)
}

/// A base-128 number at the front of `buf`, and what follows it.
pub fn take_base128(buf: &[u8]) -> (r: Option<(u32, &[u8])>)
    ensures
        match r {
            Some((v, rest)) => read_base128(buf@, 0) == Ok::<(u32, Seq<u8>), DecodeReason>(
                (v, rest@),
            ),
            None => read_base128(buf@, 0) is Err,
        },
{
    assert(buf@.skip(0) =~= buf@);
    match base128_at(buf, 0) {
        Ok((v, i)) => {
            let rest = slice_subrange(buf, i, buf.len());
            assert(rest@ =~= buf@.skip(i as int));
            Some((v, rest))
        },
        Err(_) => None,
    }
}

fn tag_at(buf: &[u8]) -> (r: Result<(Tag, usize), DecodeReason>)
    ensures
        match r {
            Ok((t, i)) => i <= buf.len() && read_tag(buf@) == Ok::<(Tag, Seq<u8>), DecodeReason>(
                (t, buf@.skip(i as int)),
            ),
            Err(e) => read_tag(buf@) == Err::<(Tag, Seq<u8>), DecodeReason>(e),
        },
{
    if buf.len() == 0 {
        return Err(DecodeReason::Truncated);
    }
    let b: u8 = buf[0];
    let class = if b < 64 {
        Class::Universal
    } else if b < 128 {
        Class::Application
    } else if b < 192 {
        Class::Context
    } else {
        Class::Private
    };
    let constructed = b % 64 >= 32;
    let low: u8 = b % 32;
    if low != 31 {
        return Ok((Tag { class, constructed, number: low as u32 }, 1));
    }
    match base128_at(buf, 1) {
        Ok((number, i)) => Ok((Tag { class, constructed, number }, i)),
        Err(e) => Err(e),
    }
}

fn len_at(buf: &[u8], at: usize) -> (r: Result<(u64, usize), DecodeReason>)
    requires
        at <= buf.len(),
    ensures
        match r {
            Ok((n, i)) => at <= i <= buf.len() && read_len(buf@.skip(at as int)) == Ok::<
                (nat, Seq<u8>),
                DecodeReason,
            >((n as nat, buf@.skip(i as int))),
            Err(e) => read_len(buf@.skip(at as int)) == Err::<(nat, Seq<u8>), DecodeReason>(e),
        },
{
    if at == buf.len() {
        return Err(DecodeReason::Truncated);
    }
    let b: u8 = buf[at];
    if b < 128 {
        assert(buf@.skip(at as int).skip(1) =~= buf@.skip(at + 1));
        return Ok((b as u64, at + 1));
    }
    if b == 128 || b > 136 {
        return Err(DecodeReason::BadLength);
    }
    let k: usize = (b - 128) as usize;
    if buf.len() - at < 1 + k {
        return Err(DecodeReason::Truncated);
    }
    let n: u64 = be_u64(slice_subrange(buf, at + 1, at + 1 + k));
    assert(buf@.skip(at as int).subrange(1, 1 + k) =~= buf@.subrange(at + 1, at + 1 + k));
    assert(buf@.skip(at as int).skip(1 + k) =~= buf@.skip(at + 1 + k));
    Ok((n, at + 1 + k))
}

/// The tag of the first element, where its contents start and where they end.
fn element_of(buf: &[u8]) -> (r: Result<(Tag, usize, usize), DecodeReason>)
    ensures
        match r {
            Ok((t, i, j)) => i <= j <= buf.len() && read_element(buf@) == Ok::<
                (Tag, Seq<u8>, Seq<u8>),
                DecodeReason,
            >((t, buf@.subrange(i as int, j as int), buf@.skip(j as int))),
            Err(e) => read_element(buf@) == Err::<(Tag, Seq<u8>, Seq<u8>), DecodeReason>(e),
        },
{
    reveal(read_element);
    let (tag, at) = match tag_at(buf) {
        Ok(x) => x,
        Err(e) => return Err(e),
    };
    let (len, start) = match len_at(buf, at) {
        Ok(x) => x,
        Err(e) => return Err(e),
    };
    if len > (buf.len() - start) as u64 {
        return Err(DecodeReason::Truncated);
    }
    let end: usize = start + len as usize;
    assert(buf@.skip(start as int).take(len as int) =~= buf@.subrange(start as int, end as int));
    assert(buf@.skip(start as int).skip(len as int) =~= buf@.skip(end as int));
    Ok((tag, start, end))
}

impl<'a> Cursor<'a> {
    /// A cursor over a whole buffer.
    pub fn new(bytes: &'a [u8]) -> (r: Cursor<'a>)
        ensures
            r@ == (CursorModel { bytes: bytes@, offset: 0 }),
    {
        Cursor { rest: bytes, offset: 0 }
    }

    /// Whether nothing is left.
    pub fn is_empty(&self) -> (r: bool)
        ensures
            r == (self@.bytes.len() == 0),
    {
        self.rest.len() == 0
    }

    /// The next element, which has to be there. An element that does not decode leaves the
    /// cursor where it was.
    pub fn next_required(&mut self) -> (r: Result<Tlv<'a>, Error>)
        ensures
            agrees(r, old(self)@.first()),
            final(self)@ == if r is Ok { old(self)@.rest() } else { old(self)@ },
    {
        if self.rest.len() == 0 {
            return Err(Error::Decode { reason: DecodeReason::MissingField, offset: self.offset });
        }
        match element_of(self.rest) {
            Err(reason) => Err(Error::Decode { reason, offset: self.offset }),
            Ok((tag, start, end)) => {
                let t = Tlv {
                    tag,
                    value: slice_subrange(self.rest, start, end),
                    offset: self.offset,
                    value_offset: self.offset.saturating_add(start),
                };
                self.offset = self.offset.saturating_add(end);
                self.rest = slice_subrange(self.rest, end, self.rest.len());
                proof {
                    assert(old(self)@.bytes.subrange(end as int, old(self)@.bytes.len() as int)
                        =~= old(self)@.bytes.skip(end as int));
                }
                Ok(t)
            },
        }
    }

    /// The next element, or nothing at the end.
    pub fn next(&mut self) -> (r: Option<Result<Tlv<'a>, Error>>)
        ensures
            match r {
                None => old(self)@.bytes.len() == 0 && final(self)@ == old(self)@,
                Some(x) => old(self)@.bytes.len() > 0 && agrees(x, old(self)@.first())
                    && final(self)@ == if x is Ok { old(self)@.rest() } else { old(self)@ },
            },
    {
        if self.rest.len() == 0 {
            None
        } else {
            Some(self.next_required())
        }
    }

    /// The next element, which has to carry `tag`.
    pub fn next_tag(&mut self, tag: Tag) -> (r: Result<Tlv<'a>, Error>)
        ensures
            agrees(r, old(self)@.tagged(tag)),
            final(self)@ == if r is Ok { old(self)@.rest() } else { old(self)@ },
    {
        let mut c = *self;
        let t = c.next_required()?;
        if t.tag == tag {
            *self = c;
            Ok(t)
        } else {
            Err(Error::Decode { reason: DecodeReason::UnexpectedTag, offset: t.offset })
        }
    }

    /// The next element if it is there and carries `tag`; otherwise the cursor stays.
    pub fn next_if_tag(&mut self, tag: Tag) -> (r: Result<Option<Tlv<'a>>, Error>)
        ensures
            match r {
                Ok(Some(t)) => old(self)@.optional(tag) == Ok::<Option<TlvModel>, Error>(Some(t@)),
                Ok(None) => old(self)@.optional(tag) == Ok::<Option<TlvModel>, Error>(None),
                Err(e) => old(self)@.optional(tag) == Err::<Option<TlvModel>, Error>(e),
            },
            final(self)@ == old(self)@.skip_optional(tag),
    {
        if self.rest.len() == 0 {
            return Ok(None);
        }
        let mut c = *self;
        let t = c.next_required()?;
        if t.tag == tag {
            *self = c;
            Ok(Some(t))
        } else {
            Ok(None)
        }
    }

    /// A boolean under `tag`, or `default` where there is none.
    pub fn next_flag(&mut self, tag: Tag, default: bool) -> (r: Result<bool, Error>)
        ensures
            agrees(r, old(self)@.flag(tag, default)),
            final(self)@ == old(self)@.skip_optional(tag),
    {
        match self.next_if_tag(tag)? {
            Some(t) => t.boolean(),
            None => Ok(default),
        }
    }

    /// An integer under `tag`, if it is there.
    pub fn next_opt_integer(&mut self, tag: Tag) -> (r: Result<Option<i64>, Error>)
        ensures
            agrees_opt(r, old(self)@.opt_integer(tag)),
            final(self)@ == old(self)@.skip_optional(tag),
    {
        match self.next_if_tag(tag)? {
            Some(t) => Ok(Some(t.integer_i64()?)),
            None => Ok(None),
        }
    }

    /// An unsigned 32-bit number under `tag`, if it is there.
    pub fn next_opt_unsigned32(&mut self, tag: Tag) -> (r: Result<Option<u32>, Error>)
        ensures
            agrees_opt(r, old(self)@.opt_unsigned32(tag)),
            final(self)@ == old(self)@.skip_optional(tag),
    {
        match self.next_if_tag(tag)? {
            Some(t) => Ok(Some(t.unsigned_lenient_u32()?)),
            None => Ok(None),
        }
    }

    /// Text under `tag`, if it is there.
    pub fn next_opt_visible(&mut self, tag: Tag) -> (r: Result<Option<&'a str>, Error>)
        ensures
            agrees_opt(r, old(self)@.opt_visible(tag)),
            final(self)@ == old(self)@.skip_optional(tag),
    {
        match self.next_if_tag(tag)? {
            Some(t) => Ok(Some(t.visible_string()?)),
            None => Ok(None),
        }
    }

    /// A bit string under `tag`, if it is there.
    pub fn next_opt_bits(&mut self, tag: Tag) -> (r: Result<Option<(u8, &'a [u8])>, Error>)
        ensures
            agrees_opt(r, old(self)@.opt_bits(tag)),
            final(self)@ == old(self)@.skip_optional(tag),
    {
        match self.next_if_tag(tag)? {
            Some(t) => Ok(Some(t.bit_string()?)),
            None => Ok(None),
        }
    }

    /// Nothing may be left.
    pub fn finish(&self) -> (r: Result<(), Error>)
        ensures
            agrees(r, self@.finish()),
    {
        if self.rest.len() == 0 {
            Ok(())
        } else {
            Err(Error::Decode { reason: DecodeReason::TrailingBytes, offset: self.offset })
        }
    }
}

impl<'a> Tlv<'a> {
    /// How many octets the element occupies, with its tag and length.
    pub fn total_len(&self) -> (r: usize)
        ensures
            r == self@.total_len(),
    {
        self.value_offset.saturating_sub(self.offset).saturating_add(self.value.len())
    }

    /// The elements inside.
    pub fn children(&self) -> (r: Cursor<'a>)
        ensures
            r@ == self@.children(),
    {
        Cursor { rest: self.value, offset: self.value_offset }
    }

    /// This element, if it carries `tag`.
    pub fn expect(self, tag: Tag) -> (r: Result<Tlv<'a>, Error>)
        ensures
            agrees(r, self@.expect(tag)),
    {
        if self.tag == tag {
            Ok(self)
        } else {
            Err(Error::Decode { reason: DecodeReason::UnexpectedTag, offset: self.offset })
        }
    }

    fn bad_length(&self) -> (r: Error)
        ensures
            r == (Error::Decode { reason: DecodeReason::BadLength, offset: self.value_offset }),
    {
        Error::Decode { reason: DecodeReason::BadLength, offset: self.value_offset }
    }

    fn bad_value(&self) -> (r: Error)
        ensures
            r == (Error::Decode { reason: DecodeReason::BadValue, offset: self.value_offset }),
    {
        Error::Decode { reason: DecodeReason::BadValue, offset: self.value_offset }
    }

    /// BOOLEAN.
    pub fn boolean(&self) -> (r: Result<bool, Error>)
        ensures
            agrees(r, self@.boolean()),
    {
        if self.value.len() == 1 {
            Ok(self.value[0] != 0)
        } else {
            Err(self.bad_length())
        }
    }

    /// INTEGER, up to 64 bits.
    pub fn integer_i64(&self) -> (r: Result<i64, Error>)
        ensures
            agrees(r, self@.integer()),
    {
        if self.value.len() == 0 || self.value.len() > 8 {
            return Err(self.bad_length());
        }
        Ok(integer_of(self.value))
    }

    /// INTEGER, up to 32 bits.
    pub fn integer_i32(&self) -> (r: Result<i32, Error>)
        ensures
            agrees(r, self@.integer32()),
    {
        let v: i64 = self.integer_i64()?;
        if v < i32::MIN as i64 || v > i32::MAX as i64 {
            return Err(self.bad_value());
        }
        Ok(v as i32)
    }

    /// An unsigned INTEGER up to 64 bits, whether or not its leading zero octet is there.
    pub fn unsigned_lenient_u64(&self) -> (r: Result<u64, Error>)
        ensures
            agrees(r, self@.unsigned64()),
    {
        if self.value.len() == 0 || self.value.len() > 9 {
            return Err(self.bad_length());
        }
        let n: u128 = number_of(self.value);
        if n > u64::MAX as u128 {
            return Err(self.bad_value());
        }
        Ok(n as u64)
    }

    /// An unsigned INTEGER up to 32 bits, whether or not its leading zero octet is there.
    pub fn unsigned_lenient_u32(&self) -> (r: Result<u32, Error>)
        ensures
            agrees(r, self@.unsigned32()),
    {
        let v: u64 = self.unsigned_lenient_u64()?;
        if v > u32::MAX as u64 {
            return Err(self.bad_value());
        }
        Ok(v as u32)
    }

    /// BIT STRING: the number of unused bits, and the octets.
    pub fn bit_string(&self) -> (r: Result<(u8, &'a [u8]), Error>)
        ensures
            agrees(r, self@.bits()),
    {
        if self.value.len() == 0 {
            return Err(self.bad_length());
        }
        let unused: u8 = self.value[0];
        let bytes = slice_subrange(self.value, 1, self.value.len());
        assert(bytes@ =~= self.value@.skip(1));
        if unused > 7 || (bytes.len() == 0 && unused != 0) {
            return Err(self.bad_value());
        }
        Ok((unused, bytes))
    }

    /// An MMS floating-point number.
    pub fn floating_point(&self) -> (r: Result<Float, Error>)
        ensures
            match r {
                Ok(f) => self@.float() == Ok::<Float, Error>(f),
                Err(e) => self@.float() == Err::<Float, Error>(e),
            },
    {
        let v = self.value;
        if v.len() == 5 && v[0] == 8 {
            let bits = slice_subrange(v, 1, 5);
            assert(bits@ =~= v@.skip(1));
            proof {
                laws::lemma_be_nat_bound(bits@);
                laws::lemma_pow256();
            }
            Ok(Float::Single(be_u64(bits) as u32))
        } else if v.len() == 9 && v[0] == 11 {
            let bits = slice_subrange(v, 1, 9);
            assert(bits@ =~= v@.skip(1));
            Ok(Float::Double(be_u64(bits)))
        } else {
            Err(self.bad_value())
        }
    }

    /// VisibleString.
    pub fn visible_string(&self) -> (r: Result<&'a str, Error>)
        ensures
            agrees(r, self@.visible()),
    {
        if !is_ascii_octets(self.value) {
            return Err(self.bad_value());
        }
        proof {
            laws::lemma_ascii_utf8(self.value@);
        }
        match utf8_text(self.value) {
            Some(s) => Ok(s),
            None => Err(self.bad_value()),
        }
    }

    /// A UTF-8 string.
    pub fn utf8_string(&self) -> (r: Result<&'a str, Error>)
        ensures
            agrees(r, self@.utf8()),
    {
        match utf8_text(self.value) {
            Some(s) => Ok(s),
            None => Err(self.bad_value()),
        }
    }

    /// The IEC 61850 `Timestamp`.
    pub fn utc_time(&self) -> (r: Result<UtcTime, Error>)
        ensures
            match r {
                Ok(t) => self@.utc() == Ok::<UtcTime, Error>(t),
                Err(e) => self@.utc() == Err::<UtcTime, Error>(e),
            },
    {
        if self.value.len() == 8 {
            Ok(UtcTime { raw: be_u64(self.value) })
        } else {
            Err(self.bad_length())
        }
    }
}

// ---- encoding --------------------------------------------------------------------------

/// Collects encoded elements.
#[derive(Clone, Debug)]
pub struct Encoder {
    /// What has been written.
    pub buf: Vec<u8>,
}

impl View for Encoder {
    type V = Seq<u8>;

    open spec fn view(&self) -> Seq<u8> {
        self.buf@
    }
}

/// The error for text that is not ASCII.
pub open spec fn not_ascii() -> Error {
    Error::Encode("a VisibleString is ASCII")
}

/// The error for a bit string with too many unused bits.
pub open spec fn bad_bits() -> Error {
    Error::Encode("a bit string leaves at most seven bits of its last octet unused")
}

/// The contents of a bit string.
pub open spec fn bit_octets(unused: u8, bytes: Seq<u8>) -> Seq<u8> {
    seq![unused] + bytes
}

/// A writer either appended `bytes` or refused with `fault` and left the output alone.
pub open spec fn wrote(
    r: Result<(), Error>,
    before: Seq<u8>,
    after: Seq<u8>,
    fault: Option<Error>,
    bytes: Seq<u8>,
) -> bool {
    match fault {
        None => r is Ok && after == before + bytes,
        Some(e) => r == Err::<(), Error>(e) && after == before,
    }
}

/// A writer either appended `bytes`, or refused with `fault` after it had appended `left`.
pub open spec fn wrote_or_left(
    r: Result<(), Error>,
    before: Seq<u8>,
    after: Seq<u8>,
    fault: Option<Error>,
    bytes: Seq<u8>,
    left: Seq<u8>,
) -> bool {
    match fault {
        None => r is Ok && after == before + bytes,
        Some(e) => r == Err::<(), Error>(e) && after == before + left,
    }
}

/// The first of two faults.
pub open spec fn first_fault(a: Option<Error>, b: Option<Error>) -> Option<Error> {
    if a is Some {
        a
    } else {
        b
    }
}

/// What is wrong with text for a `VisibleString`.
pub open spec fn text_fault(s: Seq<char>) -> Option<Error> {
    if is_ascii_chars(s) {
        None
    } else {
        Some(not_ascii())
    }
}

/// What is wrong with the parts of a bit string.
pub open spec fn bits_fault(unused: u8, bytes: Seq<u8>) -> Option<Error> {
    if bits_ok(unused, bytes) {
        None
    } else {
        Some(bad_bits())
    }
}

fn push_marked_digits(out: &mut Vec<u8>, n: u32)
    ensures
        final(out)@ == old(out)@ + marked_digits(n as nat),
    decreases n,
{
    if n < 128 {
        out.push((n + 128) as u8);
    } else {
        push_marked_digits(out, n / 128);
        out.push((n % 128 + 128) as u8);
    }
    assert(out@ =~= old(out)@ + marked_digits(n as nat));
}

/// Append the shortest base-128 spelling of `n`.
pub fn push_base128(out: &mut Vec<u8>, n: u32)
    ensures
        final(out)@ == old(out)@ + base128(n as nat),
{
    if n < 128 {
        out.push(n as u8);
    } else {
        push_marked_digits(out, n / 128);
        out.push((n % 128) as u8);
    }
    assert(out@ =~= old(out)@ + base128(n as nat));
}

fn push_tag(out: &mut Vec<u8>, t: Tag)
    ensures
        final(out)@ == old(out)@ + tag_octets(t),
{
    let class: u8 = match t.class {
        Class::Universal => 0,
        Class::Application => 64,
        Class::Context => 128,
        Class::Private => 192,
    };
    let lead: u8 = class + if t.constructed { 32 } else { 0 };
    if t.number < 31 {
        out.push(lead + t.number as u8);
    } else {
        out.push(lead + 31);
        push_base128(out, t.number);
    }
    assert(out@ =~= old(out)@ + tag_octets(t));
}

fn push_be(out: &mut Vec<u8>, n: u64)
    ensures
        final(out)@ == old(out)@ + be_octets(n as nat),
    decreases n,
{
    if n < 256 {
        out.push(n as u8);
    } else {
        push_be(out, n / 256);
        out.push((n % 256) as u8);
    }
    assert(out@ =~= old(out)@ + be_octets(n as nat));
}

/// Append the low `k` big-endian octets of `n`.
pub fn push_fixed(out: &mut Vec<u8>, n: u64, k: u8)
    ensures
        final(out)@ == old(out)@ + be_fixed(n as nat, k as nat),
    decreases k,
{
    if k > 0 {
        push_fixed(out, n / 256, k - 1);
        out.push((n % 256) as u8);
    }
    assert(out@ =~= old(out)@ + be_fixed(n as nat, k as nat));
}

/// How many octets [`push_be`] appends.
fn be_count(n: u64) -> (r: u8)
    ensures
        r == be_octets(n as nat).len(),
        1 <= r <= 8,
    decreases n,
{
    proof {
        laws::lemma_pow256();
        laws::lemma_be_octets_len(n as nat, 8);
        if n >= 256 {
            laws::lemma_be_octets_len(n as nat / 256, 7);
        }
    }
    if n < 256 {
        1
    } else {
        be_count(n / 256) + 1
    }
}

fn push_len(out: &mut Vec<u8>, n: u64)
    ensures
        final(out)@ == old(out)@ + len_octets(n as nat),
{
    if n < 128 {
        out.push(n as u8);
    } else {
        out.push(128 + be_count(n));
        push_be(out, n);
    }
    assert(out@ =~= old(out)@ + len_octets(n as nat));
}

fn push_signed(out: &mut Vec<u8>, v: i64)
    ensures
        final(out)@ == old(out)@ + sint_octets(v as int),
    decreases (if v >= 0 { v as int } else { -(v + 1) }),
{
    if v >= 0 {
        if v < 128 {
            out.push(v as u8);
        } else {
            push_signed(out, v / 256);
            out.push((v % 256) as u8);
        }
    } else {
        let w: i64 = -(v + 1);
        let q: i64 = w / 256;
        let r: i64 = w % 256;
        assert(v as int / 256 == -q - 1 && v as int % 256 == 255 - r);
        if v >= -128 {
            out.push((255 - r) as u8);
        } else {
            push_signed(out, -q - 1);
            out.push((255 - r) as u8);
        }
    }
    assert(out@ =~= old(out)@ + sint_octets(v as int));
}

fn push_unsigned(out: &mut Vec<u8>, v: u64)
    ensures
        final(out)@ == old(out)@ + sint_octets(v as int),
    decreases v,
{
    if v < 128 {
        out.push(v as u8);
    } else {
        push_unsigned(out, v / 256);
        out.push((v % 256) as u8);
    }
    assert(out@ =~= old(out)@ + sint_octets(v as int));
}

/// Append octets.
pub fn push_all(out: &mut Vec<u8>, bytes: &[u8])
    ensures
        final(out)@ == old(out)@ + bytes@,
{
    let mut i: usize = 0;
    while i < bytes.len()
        invariant
            i <= bytes.len(),
            out@ == old(out)@ + bytes@.take(i as int),
        decreases bytes.len() - i,
    {
        out.push(bytes[i]);
        assert(bytes@.take(i + 1) =~= bytes@.take(i as int).push(bytes@[i as int]));
        i += 1;
        assert(out@ =~= old(out)@ + bytes@.take(i as int));
    }
    assert(bytes@.take(i as int) =~= bytes@);
}

/// Reverse the octets from index `from` up to `to` in place.
fn reverse(v: &mut Vec<u8>, from: usize, to: usize)
    requires
        from <= to <= old(v)@.len(),
    ensures
        final(v)@.len() == old(v)@.len(),
        forall|k: int|
            0 <= k < old(v)@.len() ==> #[trigger] final(v)@[k] == if from <= k < to {
                old(v)@[from + to - 1 - k]
            } else {
                old(v)@[k]
            },
{
    let mut i: usize = from;
    let mut j: usize = to;
    while i < j && i < j - 1
        invariant
            from <= i <= j <= to <= v@.len(),
            i - from == to - j,
            v@.len() == old(v)@.len(),
            forall|k: int|
                0 <= k < v@.len() ==> #[trigger] v@[k] == if from <= k < i || j <= k < to {
                    old(v)@[from + to - 1 - k]
                } else {
                    old(v)@[k]
                },
        decreases j - i,
    {
        let a: u8 = v[i];
        let b: u8 = v[j - 1];
        v.set(i, b);
        v.set(j - 1, a);
        i += 1;
        j -= 1;
    }
}

impl Encoder {
    /// An empty encoder.
    pub fn new() -> (r: Encoder)
        ensures
            r@ == Seq::<u8>::empty(),
    {
        Encoder { buf: Vec::new() }
    }

    /// An empty encoder with room for `n` octets.
    pub fn with_capacity(n: usize) -> (r: Encoder)
        ensures
            r@ == Seq::<u8>::empty(),
    {
        Encoder { buf: Vec::with_capacity(n) }
    }

    /// What has been written.
    pub fn as_bytes(&self) -> (r: &[u8])
        ensures
            r@ == self@,
    {
        self.buf.as_slice()
    }

    /// What has been written, as a buffer of its own.
    pub fn into_vec(self) -> (r: Vec<u8>)
        ensures
            r@ == self@,
    {
        self.buf
    }

    /// How much has been written.
    pub fn len(&self) -> (r: usize)
        ensures
            r == self@.len(),
    {
        self.buf.len()
    }

    /// Start over.
    pub fn clear(&mut self)
        ensures
            final(self)@ == Seq::<u8>::empty(),
    {
        self.buf.clear();
    }

    /// Octets that are encoded already.
    pub fn raw(&mut self, bytes: &[u8])
        ensures
            final(self)@ == old(self)@ + bytes@,
    {
        push_all(&mut self.buf, bytes);
    }

    /// An element with these contents.
    pub fn primitive(&mut self, tag: Tag, value: &[u8])
        ensures
            final(self)@ == old(self)@ + tlv(tag, value@),
    {
        reveal(tlv);
        push_tag(&mut self.buf, tag);
        push_len(&mut self.buf, value.len() as u64);
        push_all(&mut self.buf, value);
        assert(self@ =~= old(self)@ + tlv(tag, value@));
    }

    /// Take back everything from index `start` on.
    pub fn truncate(&mut self, start: usize)
        ensures
            final(self)@ == if start <= old(self)@.len() {
                old(self)@.take(start as int)
            } else {
                old(self)@
            },
    {
        self.buf.truncate(start);
        assert(start <= old(self)@.len() ==> self@ =~= old(self)@.take(start as int));
    }

    /// Make room for `n` more octets.
    pub fn reserve(&mut self, n: usize)
        ensures
            final(self)@ == old(self)@,
    {
        self.buf.reserve(n);
    }

    /// Put everything from index `start` on into an element, without another buffer: its header
    /// goes behind the contents, and then the two change places.
    pub fn enclose(&mut self, start: usize, tag: Tag)
        requires
            start <= old(self)@.len(),
        ensures
            final(self)@ == old(self)@.take(start as int) + tlv(tag, old(self)@.skip(start as int)),
    {
        reveal(tlv);
        let middle: usize = self.buf.len();
        push_tag(&mut self.buf, tag);
        push_len(&mut self.buf, (middle - start) as u64);
        let end: usize = self.buf.len();
        let ghost header = tag_octets(tag) + len_octets((middle - start) as nat);
        let ghost contents = old(self)@.skip(start as int);
        assert(self@ =~= old(self)@ + header);
        let ghost before = self@;
        reverse(&mut self.buf, start, middle);
        reverse(&mut self.buf, middle, end);
        reverse(&mut self.buf, start, end);
        proof {
            let want = old(self)@.take(start as int) + tlv(tag, contents);
            let n = header.len();
            assert(tlv(tag, contents) =~= header + contents);
            assert forall|k: int| 0 <= k < end implies #[trigger] self@[k] == want[k] by {
                if start <= k < start + n {
                    assert(want[k] == header[k - start]);
                    assert(before[middle + (k - start)] == header[k - start]);
                } else if k >= start + n {
                    assert(want[k] == contents[k - start - n]);
                }
            }
            assert(self@ =~= want);
        }
    }

    /// An element without contents.
    pub fn null(&mut self, tag: Tag)
        ensures
            final(self)@ == old(self)@ + tlv(tag, Seq::<u8>::empty()),
    {
        let none: [u8; 0] = [];
        assert(none@ =~= Seq::<u8>::empty());
        self.primitive(tag, &none);
    }

    /// An element around the elements of `body`.
    pub fn constructed(&mut self, tag: Tag, body: &Encoder)
        ensures
            final(self)@ == old(self)@ + tlv(tag, body@),
    {
        self.primitive(tag, body.as_bytes());
    }

    /// BOOLEAN.
    pub fn boolean(&mut self, tag: Tag, v: bool)
        ensures
            final(self)@ == old(self)@ + tlv(tag, bool_octets(v)),
    {
        let b: [u8; 1] = [if v { 0xFF } else { 0x00 }];
        assert(b@ =~= bool_octets(v));
        self.primitive(tag, &b);
    }

    /// INTEGER.
    pub fn integer(&mut self, tag: Tag, v: i64)
        ensures
            final(self)@ == old(self)@ + tlv(tag, sint_octets(v as int)),
    {
        let start: usize = self.buf.len();
        push_signed(&mut self.buf, v);
        assert(self@.take(start as int) =~= old(self)@);
        assert(self@.skip(start as int) =~= sint_octets(v as int));
        self.enclose(start, tag);
    }

    /// An unsigned INTEGER, with a leading zero octet where the top bit is set.
    pub fn unsigned(&mut self, tag: Tag, v: u64)
        ensures
            final(self)@ == old(self)@ + tlv(tag, sint_octets(v as int)),
    {
        let start: usize = self.buf.len();
        push_unsigned(&mut self.buf, v);
        assert(self@.take(start as int) =~= old(self)@);
        assert(self@.skip(start as int) =~= sint_octets(v as int));
        self.enclose(start, tag);
    }

    /// BIT STRING.
    pub fn bit_string(&mut self, tag: Tag, unused: u8, bytes: &[u8]) -> (r: Result<(), Error>)
        ensures
            wrote(
                r,
                old(self)@,
                final(self)@,
                bits_fault(unused, bytes@),
                tlv(tag, bit_octets(unused, bytes@)),
            ),
    {
        if unused > 7 || (bytes.len() == 0 && unused != 0) {
            return Err(
                Error::Encode("a bit string leaves at most seven bits of its last octet unused"),
            );
        }
        let start: usize = self.buf.len();
        self.buf.push(unused);
        push_all(&mut self.buf, bytes);
        assert(self@.take(start as int) =~= old(self)@);
        assert(self@.skip(start as int) =~= bit_octets(unused, bytes@));
        self.enclose(start, tag);
        Ok(())
    }

    /// VisibleString.
    pub fn visible_string(&mut self, tag: Tag, s: &str) -> (r: Result<(), Error>)
        ensures
            wrote(r, old(self)@, final(self)@, text_fault(s@), tlv(tag, octets_of(s@))),
    {
        if !s.is_ascii() {
            return Err(Error::Encode("a VisibleString is ASCII"));
        }
        proof {
            is_ascii_chars_encode_utf8(s@);
            assert(encode_utf8(s@) =~= octets_of(s@));
        }
        self.primitive(tag, s.as_bytes());
        Ok(())
    }

    /// A UTF-8 string.
    pub fn utf8_string(&mut self, tag: Tag, s: &str)
        ensures
            final(self)@ == old(self)@ + tlv(tag, encode_utf8(s@)),
    {
        self.primitive(tag, s.as_bytes());
    }

    /// INTEGER, where there is one.
    pub fn opt_integer(&mut self, tag: Tag, v: Option<i64>)
        ensures
            final(self)@ == old(self)@ + opt_integer_bytes(tag, v),
    {
        match v {
            Some(v) => self.integer(tag, v),
            None => {
                assert(self@ =~= old(self)@ + opt_integer_bytes(tag, v));
            },
        }
    }

    /// An unsigned INTEGER, where there is one.
    pub fn opt_unsigned(&mut self, tag: Tag, v: Option<u32>)
        ensures
            final(self)@ == old(self)@ + opt_unsigned_bytes(tag, v),
    {
        match v {
            Some(v) => self.unsigned(tag, v as u64),
            None => {
                assert(self@ =~= old(self)@ + opt_unsigned_bytes(tag, v));
            },
        }
    }

    /// VisibleString, where there is one.
    pub fn opt_visible_string(&mut self, tag: Tag, s: Option<&str>) -> (r: Result<(), Error>)
        ensures
            wrote(
                r,
                old(self)@,
                final(self)@,
                opt_text_fault(opt_view(s)),
                opt_text_bytes(tag, opt_view(s)),
            ),
    {
        match s {
            Some(s) => self.visible_string(tag, s),
            None => {
                assert(self@ =~= old(self)@ + opt_text_bytes(tag, opt_view(s)));
                Ok(())
            },
        }
    }

    /// BIT STRING, where there is one.
    pub fn opt_bit_string(&mut self, tag: Tag, v: Option<(u8, &[u8])>) -> (r: Result<(), Error>)
        ensures
            wrote(
                r,
                old(self)@,
                final(self)@,
                opt_bits_fault(opt_view(v)),
                opt_bits_bytes(tag, opt_view(v)),
            ),
    {
        match v {
            Some((unused, bytes)) => self.bit_string(tag, unused, bytes),
            None => {
                assert(self@ =~= old(self)@ + opt_bits_bytes(tag, opt_view(v)));
                Ok(())
            },
        }
    }

    /// An element with these contents, where there are any.
    pub fn opt_primitive(&mut self, tag: Tag, v: Option<&[u8]>)
        ensures
            final(self)@ == old(self)@ + opt_bytes(tag, opt_view(v)),
    {
        match v {
            Some(v) => self.primitive(tag, v),
            None => {
                assert(self@ =~= old(self)@ + opt_bytes(tag, opt_view(v)));
            },
        }
    }

    /// BOOLEAN, unless it is the default.
    pub fn flag(&mut self, tag: Tag, v: bool, default: bool)
        ensures
            final(self)@ == old(self)@ + flag_bytes(tag, v, default),
    {
        if v != default {
            self.boolean(tag, v);
        } else {
            assert(self@ =~= old(self)@ + flag_bytes(tag, v, default));
        }
    }

    /// The IEC 61850 `Timestamp`.
    pub fn utc_time(&mut self, tag: Tag, t: UtcTime)
        ensures
            final(self)@ == old(self)@ + tlv(tag, utc_octets(t)),
    {
        let start: usize = self.buf.len();
        push_fixed(&mut self.buf, t.raw, 8);
        assert(self@.take(start as int) =~= old(self)@);
        assert(self@.skip(start as int) =~= utc_octets(t));
        self.enclose(start, tag);
    }

    /// A single-precision floating-point number, from its IEEE 754 bits.
    pub fn float32(&mut self, tag: Tag, bits: u32)
        ensures
            final(self)@ == old(self)@ + tlv(tag, float_octets(Float::Single(bits))),
    {
        let start: usize = self.buf.len();
        self.buf.push(8);
        push_fixed(&mut self.buf, bits as u64, 4);
        assert(self@.take(start as int) =~= old(self)@);
        assert(self@.skip(start as int) =~= float_octets(Float::Single(bits)));
        self.enclose(start, tag);
    }

    /// A double-precision floating-point number, from its IEEE 754 bits.
    pub fn float64(&mut self, tag: Tag, bits: u64)
        ensures
            final(self)@ == old(self)@ + tlv(tag, float_octets(Float::Double(bits))),
    {
        let start: usize = self.buf.len();
        self.buf.push(11);
        push_fixed(&mut self.buf, bits, 8);
        assert(self@.take(start as int) =~= old(self)@);
        assert(self@.skip(start as int) =~= float_octets(Float::Double(bits)));
        self.enclose(start, tag);
    }
}

/// The contents of a boolean.
pub open spec fn bool_octets(v: bool) -> Seq<u8> {
    seq![if v { 0xFFu8 } else { 0u8 }]
}

/// An integer under `tag`, where there is one.
pub open spec fn opt_integer_bytes(tag: Tag, v: Option<i64>) -> Seq<u8> {
    match v {
        Some(v) => tlv(tag, sint_octets(v as int)),
        None => Seq::empty(),
    }
}

/// An unsigned number under `tag`, where there is one.
pub open spec fn opt_unsigned_bytes(tag: Tag, v: Option<u32>) -> Seq<u8> {
    match v {
        Some(v) => tlv(tag, sint_octets(v as int)),
        None => Seq::empty(),
    }
}

/// Text under `tag`, where there is some.
pub open spec fn opt_text_bytes(tag: Tag, v: Option<Seq<char>>) -> Seq<u8> {
    match v {
        Some(v) => tlv(tag, octets_of(v)),
        None => Seq::empty(),
    }
}

/// What is wrong with optional text.
pub open spec fn opt_text_fault(v: Option<Seq<char>>) -> Option<Error> {
    match v {
        Some(v) => text_fault(v),
        None => None,
    }
}

/// A bit string under `tag`, where there is one.
pub open spec fn opt_bits_bytes(tag: Tag, v: Option<(u8, Seq<u8>)>) -> Seq<u8> {
    match v {
        Some((unused, bytes)) => tlv(tag, bit_octets(unused, bytes)),
        None => Seq::empty(),
    }
}

/// What is wrong with an optional bit string.
pub open spec fn opt_bits_fault(v: Option<(u8, Seq<u8>)>) -> Option<Error> {
    match v {
        Some((unused, bytes)) => bits_fault(unused, bytes),
        None => None,
    }
}

/// An element with these contents, where there are any.
pub open spec fn opt_bytes(tag: Tag, v: Option<Seq<u8>>) -> Seq<u8> {
    match v {
        Some(v) => tlv(tag, v),
        None => Seq::empty(),
    }
}

/// A boolean under `tag`, unless it is the default.
pub open spec fn flag_bytes(tag: Tag, v: bool, default: bool) -> Seq<u8> {
    if v == default {
        Seq::empty()
    } else {
        tlv(tag, bool_octets(v))
    }
}

/// The view of an optional value.
pub open spec fn opt_view<T: View>(v: Option<T>) -> Option<T::V> {
    match v {
        Some(x) => Some(x@),
        None => None,
    }
}

/// A string as a slice, where there is one.
pub fn opt_str(s: &Option<String>) -> (r: Option<&str>)
    ensures
        opt_view(r) == opt_view(*s),
{
    match s {
        Some(s) => Some(s.as_str()),
        None => None,
    }
}

/// A copy of a string, where there is one.
pub fn duplicate_text(s: &Option<String>) -> (r: Option<String>)
    ensures
        opt_view(r) == opt_view(*s),
{
    match s {
        Some(s) => Some(s.clone()),
        None => None,
    }
}

/// A 16-bit number in two octets.
pub open spec fn two_octets(n: u16) -> Seq<u8> {
    seq![(n / 256) as u8, (n % 256) as u8]
}

/// The eight octets of a timestamp.
pub open spec fn utc_octets(t: UtcTime) -> Seq<u8> {
    be_fixed(t.raw as nat, 8)
}

/// The contents of a floating-point number.
pub open spec fn float_octets(f: Float) -> Seq<u8> {
    match f {
        Float::Single(b) => seq![8u8] + be_fixed(b as nat, 4),
        Float::Double(b) => seq![11u8] + be_fixed(b as nat, 8),
    }
}

} // verus!
