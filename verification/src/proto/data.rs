//! The ISO 9506 `Data` type: borrowed views for decoding, an owned [`Value`] for building,
//! and the encoder.
//!
//! Both forms implement [`Typed`], which reads an element as the type it claims to be and
//! returns `None` rather than converting. The choices that a data set never holds keep their
//! tag and octets in [`Value::Other`], so they encode as they arrived. A floating-point number
//! is held as its IEEE 754 bits.

pub mod equality;
pub mod tag;
pub mod wire;

use vstd::prelude::*;
use vstd::slice::*;
use vstd::utf8::*;
use crate::ber::laws;
use crate::ber::{
    bad, bit_octets, bits_fault, bool_octets, ctx, ctx_cons, first_fault, float_octets, octets_of,
    sint_octets, text_fault, tlv, utc_octets, wrote, Class, Cursor, CursorModel, Encoder, Float,
    Tag, Tlv, TlvModel,
};
use crate::common::{
    agrees, opt_flds_from, opt_flds_octets, quality_octets, quality_of_octets, reason_code_from,
    reason_code_octets, sat_add, trg_ops_from, trg_ops_octets, DecodeReason, Error, Limits, OptFlds,
    Quality, ReasonCode, TrgOps, UtcTime,
};

verus! {

/// The position of a double-point status, as the two-bit code the wire carries.
#[derive(Clone, Copy, Debug, Default, PartialEq, Eq, Hash, Structural)]
pub enum Dbpos {
    /// 0: in transit.
    #[default]
    Intermediate,
    /// 1: open.
    Off,
    /// 2: closed.
    On,
    /// 3: faulty.
    BadState,
}

/// The position a two-bit code names.
pub open spec fn dbpos_of(code: u8) -> Dbpos {
    if code % 4 == 0 {
        Dbpos::Intermediate
    } else if code % 4 == 1 {
        Dbpos::Off
    } else if code % 4 == 2 {
        Dbpos::On
    } else {
        Dbpos::BadState
    }
}

/// The two-bit code of a position.
pub open spec fn dbpos_code(p: Dbpos) -> u8 {
    match p {
        Dbpos::Intermediate => 0,
        Dbpos::Off => 1,
        Dbpos::On => 2,
        Dbpos::BadState => 3,
    }
}

impl Dbpos {
    /// From the two-bit code; higher bits are ignored.
    pub fn from_code(code: u8) -> (r: Dbpos)
        ensures
            r == dbpos_of(code),
    {
        match code % 4 {
            0 => Dbpos::Intermediate,
            1 => Dbpos::Off,
            2 => Dbpos::On,
            _ => Dbpos::BadState,
        }
    }

    /// The two-bit code.
    pub fn to_code(self) -> (r: u8)
        ensures
            r == dbpos_code(self),
    {
        match self {
            Dbpos::Intermediate => 0,
            Dbpos::Off => 1,
            Dbpos::On => 2,
            Dbpos::BadState => 3,
        }
    }

    /// True only for [`Dbpos::On`].
    pub fn is_on(self) -> (r: bool)
        ensures
            r == (self == Dbpos::On),
    {
        matches!(self, Dbpos::On)
    }
}

/// Every position survives its code.
pub proof fn lemma_dbpos_round_trip(p: Dbpos)
    ensures
        dbpos_of(dbpos_code(p)) == p,
{
}

/// What a typed accessor can see of an element.
pub enum Scalar {
    Boolean(bool),
    Integer(i64),
    Unsigned(u64),
    Floating(Float),
    Text(Seq<char>),
    Time(UtcTime),
    Bits { unused: u8, bytes: Seq<u8> },
    /// An array, a structure, or octets without a type of their own.
    Opaque,
}

/// A bit string as a quality: nothing shorter than two octets is one.
pub open spec fn bits_quality(s: Scalar) -> Option<Quality> {
    match s {
        Scalar::Bits { unused, bytes } => if bytes.len() >= 2 {
            Some(quality_of_octets(bytes))
        } else {
            None
        },
        _ => None,
    }
}

/// A bit string as a position: exactly two bits in one octet.
pub open spec fn bits_dbpos(s: Scalar) -> Option<Dbpos> {
    match s {
        Scalar::Bits { unused, bytes } => if unused == 6 && bytes.len() == 1 {
            Some(dbpos_of((bytes[0] / 64) as u8))
        } else {
            None
        },
        _ => None,
    }
}

/// Reading a decoded value as the type it is engineered to be, without converting.
pub trait Typed {
    /// The element, as far as an accessor can see it.
    spec fn scalar(&self) -> Scalar;

    /// `boolean [3]`.
    fn as_bool(&self) -> (r: Option<bool>)
        ensures
            r == (match self.scalar() {
                Scalar::Boolean(b) => Some(b),
                _ => None,
            }),
    ;

    /// `integer [5]`.
    fn as_i64(&self) -> (r: Option<i64>)
        ensures
            r == (match self.scalar() {
                Scalar::Integer(i) => Some(i),
                _ => None,
            }),
    ;

    /// `unsigned [6]`.
    fn as_u64(&self) -> (r: Option<u64>)
        ensures
            r == (match self.scalar() {
                Scalar::Unsigned(u) => Some(u),
                _ => None,
            }),
    ;

    /// `floating-point [7]`, as its IEEE 754 bits.
    fn as_float(&self) -> (r: Option<Float>)
        ensures
            r == (match self.scalar() {
                Scalar::Floating(f) => Some(f),
                _ => None,
            }),
    ;

    /// `visible-string [10]` or `mms-string [16]`.
    fn as_str(&self) -> (r: Option<&str>)
        ensures
            match r {
                Some(s) => self.scalar() == Scalar::Text(s@),
                None => !(self.scalar() is Text),
            },
    ;

    /// `utc-time [17]`.
    fn as_utc_time(&self) -> (r: Option<UtcTime>)
        ensures
            r == (match self.scalar() {
                Scalar::Time(t) => Some(t),
                _ => None,
            }),
    ;

    /// A `bit-string [4]` read as a `Quality`.
    fn as_quality(&self) -> (r: Option<Quality>)
        ensures
            r == bits_quality(self.scalar()),
    ;

    /// A `bit-string [4]` of two bits read as a [`Dbpos`].
    fn as_dbpos(&self) -> (r: Option<Dbpos>)
        ensures
            r == bits_dbpos(self.scalar()),
    ;
}

fn quality_from(bytes: &[u8]) -> (r: Option<Quality>)
    ensures
        r == bits_quality(Scalar::Bits { unused: 0, bytes: bytes@ }),
{
    if bytes.len() >= 2 {
        Some(Quality::from_octets(bytes))
    } else {
        None
    }
}

fn dbpos_from(unused: u8, bytes: &[u8]) -> (r: Option<Dbpos>)
    ensures
        r == bits_dbpos(Scalar::Bits { unused, bytes: bytes@ }),
{
    if unused == 6 && bytes.len() == 1 {
        Some(Dbpos::from_code(bytes[0] / 64))
    } else {
        None
    }
}

// ---- borrowed views --------------------------------------------------------------------

/// A borrowed view of one `Data` element.
#[derive(Clone, Copy, Debug)]
pub enum DataView<'a> {
    /// `array [1]`: the members.
    Array(Cursor<'a>),
    /// `structure [2]`: the members.
    Structure(Cursor<'a>),
    /// `boolean [3]`.
    Boolean(bool),
    /// `bit-string [4]`.
    BitString {
        /// Unused bits in the last octet.
        unused: u8,
        /// The contents.
        bytes: &'a [u8],
    },
    /// `integer [5]`.
    Integer(i64),
    /// `unsigned [6]`.
    Unsigned(u64),
    /// `floating-point [7]`, single precision, as IEEE 754 bits.
    Float32(u32),
    /// `floating-point [7]`, double precision, as IEEE 754 bits.
    Float64(u64),
    /// `octet-string [9]`.
    OctetString(&'a [u8]),
    /// `visible-string [10]`.
    VisibleString(&'a str),
    /// `mms-string [16]`.
    MmsString(&'a str),
    /// `utc-time [17]`.
    UtcTime(UtcTime),
    /// `binary-time [12]`, raw.
    BinaryTime(&'a [u8]),
    /// Any other choice, raw.
    Other(Tlv<'a>),
}

/// What a [`DataView`] stands for.
pub enum DataModel {
    Array(CursorModel),
    Structure(CursorModel),
    Boolean(bool),
    BitString { unused: u8, bytes: Seq<u8> },
    Integer(i64),
    Unsigned(u64),
    Float32(u32),
    Float64(u64),
    OctetString(Seq<u8>),
    VisibleString(Seq<char>),
    MmsString(Seq<char>),
    UtcTime(UtcTime),
    BinaryTime(Seq<u8>),
    Other(TlvModel),
}

impl<'a> View for DataView<'a> {
    type V = DataModel;

    open spec fn view(&self) -> DataModel {
        match *self {
            DataView::Array(c) => DataModel::Array(c@),
            DataView::Structure(c) => DataModel::Structure(c@),
            DataView::Boolean(b) => DataModel::Boolean(b),
            DataView::BitString { unused, bytes } => DataModel::BitString { unused, bytes: bytes@ },
            DataView::Integer(i) => DataModel::Integer(i),
            DataView::Unsigned(u) => DataModel::Unsigned(u),
            DataView::Float32(f) => DataModel::Float32(f),
            DataView::Float64(f) => DataModel::Float64(f),
            DataView::OctetString(b) => DataModel::OctetString(b@),
            DataView::VisibleString(s) => DataModel::VisibleString(s@),
            DataView::MmsString(s) => DataModel::MmsString(s@),
            DataView::UtcTime(t) => DataModel::UtcTime(t),
            DataView::BinaryTime(b) => DataModel::BinaryTime(b@),
            DataView::Other(t) => DataModel::Other(t@),
        }
    }
}

/// The `Data` choice an element is, by its context tag number and form.
pub open spec fn data_of(t: TlvModel) -> Result<DataModel, Error> {
    if t.tag.class != Class::Context {
        bad(DecodeReason::UnexpectedTag, t.offset)
    } else {
        match (t.tag.number, t.tag.constructed) {
            (1, true) => Ok(DataModel::Array(t.children())),
            (2, true) => Ok(DataModel::Structure(t.children())),
            (3, false) => match t.boolean() {
                Ok(b) => Ok(DataModel::Boolean(b)),
                Err(e) => Err(e),
            },
            (4, false) => match t.bits() {
                Ok((unused, bytes)) => Ok(DataModel::BitString { unused, bytes }),
                Err(e) => Err(e),
            },
            (5, false) => match t.integer() {
                Ok(i) => Ok(DataModel::Integer(i)),
                Err(e) => Err(e),
            },
            (6, false) => match t.unsigned64() {
                Ok(u) => Ok(DataModel::Unsigned(u)),
                Err(e) => Err(e),
            },
            (7, false) => match t.float() {
                Ok(Float::Single(f)) => Ok(DataModel::Float32(f)),
                Ok(Float::Double(f)) => Ok(DataModel::Float64(f)),
                Err(e) => Err(e),
            },
            (9, false) => Ok(DataModel::OctetString(t.value)),
            (10, false) => match t.visible() {
                Ok(s) => Ok(DataModel::VisibleString(s)),
                Err(e) => Err(e),
            },
            (12, false) => Ok(DataModel::BinaryTime(t.value)),
            (16, false) => match t.utf8() {
                Ok(s) => Ok(DataModel::MmsString(s)),
                Err(e) => Err(e),
            },
            (17, false) => match t.utc() {
                Ok(t) => Ok(DataModel::UtcTime(t)),
                Err(e) => Err(e),
            },
            _ => Ok(DataModel::Other(t)),
        }
    }
}

impl<'a> DataView<'a> {
    /// Decode one element.
    pub fn from_tlv(t: Tlv<'a>) -> (r: Result<DataView<'a>, Error>)
        ensures
            agrees(r, data_of(t@)),
    {
        if t.tag.class != Class::Context {
            return Err(Error::decode(DecodeReason::UnexpectedTag, t.offset));
        }
        Ok(
            match (t.tag.number, t.tag.constructed) {
                (1, true) => DataView::Array(t.children()),
                (2, true) => DataView::Structure(t.children()),
                (3, false) => DataView::Boolean(t.boolean()?),
                (4, false) => {
                    let (unused, bytes) = t.bit_string()?;
                    DataView::BitString { unused, bytes }
                },
                (5, false) => DataView::Integer(t.integer_i64()?),
                (6, false) => DataView::Unsigned(t.unsigned_lenient_u64()?),
                (7, false) => match t.floating_point()? {
                    Float::Single(f) => DataView::Float32(f),
                    Float::Double(f) => DataView::Float64(f),
                },
                (9, false) => DataView::OctetString(t.value),
                (10, false) => DataView::VisibleString(t.visible_string()?),
                (12, false) => DataView::BinaryTime(t.value),
                (16, false) => DataView::MmsString(t.utf8_string()?),
                (17, false) => DataView::UtcTime(t.utc_time()?),
                _ => DataView::Other(t),
            },
        )
    }

    /// The members of an `array [1]` or `structure [2]`.
    pub fn members(&self) -> (r: Option<Cursor<'a>>)
        ensures
            match r {
                Some(c) => self@ == DataModel::Array(c@) || self@ == DataModel::Structure(c@),
                None => !(self@ is Array) && !(self@ is Structure),
            },
    {
        match self {
            DataView::Array(c) => Some(*c),
            DataView::Structure(c) => Some(*c),
            _ => None,
        }
    }
}

impl<'a> Typed for DataView<'a> {
    open spec fn scalar(&self) -> Scalar {
        match self@ {
            DataModel::Boolean(b) => Scalar::Boolean(b),
            DataModel::BitString { unused, bytes } => Scalar::Bits { unused, bytes },
            DataModel::Integer(i) => Scalar::Integer(i),
            DataModel::Unsigned(u) => Scalar::Unsigned(u),
            DataModel::Float32(f) => Scalar::Floating(Float::Single(f)),
            DataModel::Float64(f) => Scalar::Floating(Float::Double(f)),
            DataModel::VisibleString(s) => Scalar::Text(s),
            DataModel::MmsString(s) => Scalar::Text(s),
            DataModel::UtcTime(t) => Scalar::Time(t),
            _ => Scalar::Opaque,
        }
    }

    fn as_bool(&self) -> (r: Option<bool>) {
        match self {
            DataView::Boolean(b) => Some(*b),
            _ => None,
        }
    }

    fn as_i64(&self) -> (r: Option<i64>) {
        match self {
            DataView::Integer(i) => Some(*i),
            _ => None,
        }
    }

    fn as_u64(&self) -> (r: Option<u64>) {
        match self {
            DataView::Unsigned(u) => Some(*u),
            _ => None,
        }
    }

    fn as_float(&self) -> (r: Option<Float>) {
        match self {
            DataView::Float32(f) => Some(Float::Single(*f)),
            DataView::Float64(f) => Some(Float::Double(*f)),
            _ => None,
        }
    }

    fn as_str(&self) -> (r: Option<&str>) {
        match self {
            DataView::VisibleString(s) => Some(*s),
            DataView::MmsString(s) => Some(*s),
            _ => None,
        }
    }

    fn as_utc_time(&self) -> (r: Option<UtcTime>) {
        match self {
            DataView::UtcTime(t) => Some(*t),
            _ => None,
        }
    }

    fn as_quality(&self) -> (r: Option<Quality>) {
        match self {
            DataView::BitString { bytes, .. } => quality_from(bytes),
            _ => None,
        }
    }

    fn as_dbpos(&self) -> (r: Option<Dbpos>) {
        match self {
            DataView::BitString { unused, bytes } => dbpos_from(*unused, bytes),
            _ => None,
        }
    }
}

// ---- owned values ----------------------------------------------------------------------

/// An owned `Data` value.
#[derive(Debug)]
pub enum Value {
    /// `array [1]`.
    Array(Vec<Value>),
    /// `structure [2]`.
    Structure(Vec<Value>),
    /// `boolean [3]`.
    Boolean(bool),
    /// `bit-string [4]`.
    BitString {
        /// Unused bits in the last octet.
        unused: u8,
        /// Contents.
        bytes: Vec<u8>,
    },
    /// `integer [5]`.
    Integer(i64),
    /// `unsigned [6]`.
    Unsigned(u64),
    /// `floating-point [7]`, single precision, as IEEE 754 bits.
    Float32(u32),
    /// `floating-point [7]`, double precision, as IEEE 754 bits.
    Float64(u64),
    /// `octet-string [9]`.
    OctetString(Vec<u8>),
    /// `visible-string [10]`.
    VisibleString(String),
    /// `mms-string [16]`.
    MmsString(String),
    /// `utc-time [17]`.
    UtcTime(UtcTime),
    /// `binary-time [12]`.
    BinaryTime(Vec<u8>),
    /// Anything else, raw, with what it takes to encode it as it arrived.
    Other {
        /// The context tag number.
        tag: u32,
        /// Whether the element was constructed.
        constructed: bool,
        /// The raw contents.
        bytes: Vec<u8>,
    },
}

/// What a [`Value`] stands for.
pub enum ValueModel {
    Array(Seq<ValueModel>),
    Structure(Seq<ValueModel>),
    Boolean(bool),
    BitString { unused: u8, bytes: Seq<u8> },
    Integer(i64),
    Unsigned(u64),
    Float32(u32),
    Float64(u64),
    OctetString(Seq<u8>),
    VisibleString(Seq<char>),
    MmsString(Seq<char>),
    UtcTime(UtcTime),
    BinaryTime(Seq<u8>),
    Other { tag: u32, constructed: bool, bytes: Seq<u8> },
}

/// The model of a value.
pub open spec fn model(v: Value) -> ValueModel
    decreases v,
{
    match v {
        Value::Array(m) => ValueModel::Array(
            Seq::new(
                m@.len(),
                |i: int|
                    if 0 <= i < m@.len() {
                        model(m@[i])
                    } else {
                        arbitrary()
                    },
            ),
        ),
        Value::Structure(m) => ValueModel::Structure(
            Seq::new(
                m@.len(),
                |i: int|
                    if 0 <= i < m@.len() {
                        model(m@[i])
                    } else {
                        arbitrary()
                    },
            ),
        ),
        Value::Boolean(b) => ValueModel::Boolean(b),
        Value::BitString { unused, bytes } => ValueModel::BitString { unused, bytes: bytes@ },
        Value::Integer(i) => ValueModel::Integer(i),
        Value::Unsigned(u) => ValueModel::Unsigned(u),
        Value::Float32(f) => ValueModel::Float32(f),
        Value::Float64(f) => ValueModel::Float64(f),
        Value::OctetString(b) => ValueModel::OctetString(b@),
        Value::VisibleString(s) => ValueModel::VisibleString(s@),
        Value::MmsString(s) => ValueModel::MmsString(s@),
        Value::UtcTime(t) => ValueModel::UtcTime(t),
        Value::BinaryTime(b) => ValueModel::BinaryTime(b@),
        Value::Other { tag, constructed, bytes } => ValueModel::Other {
            tag,
            constructed,
            bytes: bytes@,
        },
    }
}

impl View for Value {
    type V = ValueModel;

    open spec fn view(&self) -> ValueModel {
        model(*self)
    }
}

/// The models of a list of values.
pub open spec fn models(s: Seq<Value>) -> Seq<ValueModel> {
    Seq::new(s.len(), |i: int| s[i]@)
}

/// An array and a structure stand for what their members stand for.
pub proof fn lemma_model_members(m: Vec<Value>)
    ensures
        model(Value::Array(m)) == ValueModel::Array(models(m@)),
        model(Value::Structure(m)) == ValueModel::Structure(models(m@)),
{
    assert(model(Value::Array(m))->Array_0 =~= models(m@));
    assert(model(Value::Structure(m))->Structure_0 =~= models(m@));
}

/// The members of an array or a structure.
pub open spec fn members_of(v: ValueModel) -> Option<Seq<ValueModel>> {
    match v {
        ValueModel::Array(m) => Some(m),
        ValueModel::Structure(m) => Some(m),
        _ => None,
    }
}

/// What a typed accessor can see of a value.
pub open spec fn scalar_of(v: ValueModel) -> Scalar {
    match v {
        ValueModel::Boolean(b) => Scalar::Boolean(b),
        ValueModel::BitString { unused, bytes } => Scalar::Bits { unused, bytes },
        ValueModel::Integer(i) => Scalar::Integer(i),
        ValueModel::Unsigned(u) => Scalar::Unsigned(u),
        ValueModel::Float32(f) => Scalar::Floating(Float::Single(f)),
        ValueModel::Float64(f) => Scalar::Floating(Float::Double(f)),
        ValueModel::VisibleString(s) => Scalar::Text(s),
        ValueModel::MmsString(s) => Scalar::Text(s),
        ValueModel::UtcTime(t) => Scalar::Time(t),
        _ => Scalar::Opaque,
    }
}

// ---- from views to values --------------------------------------------------------------

/// How many octets a view holds members in.
pub open spec fn inner_len(d: DataModel) -> nat {
    match d {
        DataModel::Array(c) => c.bytes.len(),
        DataModel::Structure(c) => c.bytes.len(),
        _ => 0,
    }
}

/// `v`, if `len` octets are within the limit for one primitive.
pub open spec fn sized(len: nat, limits: Limits, v: ValueModel) -> Result<ValueModel, Error> {
    if len > limits.max_primitive_len {
        Err(Error::LimitExceeded { limit: "max_primitive_len", value: len as usize })
    } else {
        Ok(v)
    }
}

/// The value a view owns at this depth, within the limits.
pub open spec fn owned(d: DataModel, limits: Limits, depth: usize) -> Result<ValueModel, Error>
    decreases inner_len(d), 1nat,
{
    if depth > limits.max_depth {
        Err(Error::LimitExceeded { limit: "max_depth", value: depth })
    } else {
        match d {
            DataModel::Array(c) => match collected(c, limits, sat_add(depth, 1), Seq::empty()) {
                Ok(m) => Ok(ValueModel::Array(m)),
                Err(e) => Err(e),
            },
            DataModel::Structure(c) => match collected(c, limits, sat_add(depth, 1), Seq::empty()) {
                Ok(m) => Ok(ValueModel::Structure(m)),
                Err(e) => Err(e),
            },
            DataModel::Boolean(b) => Ok(ValueModel::Boolean(b)),
            DataModel::BitString { unused, bytes } => sized(
                bytes.len(),
                limits,
                ValueModel::BitString { unused, bytes },
            ),
            DataModel::Integer(i) => Ok(ValueModel::Integer(i)),
            DataModel::Unsigned(u) => Ok(ValueModel::Unsigned(u)),
            DataModel::Float32(f) => Ok(ValueModel::Float32(f)),
            DataModel::Float64(f) => Ok(ValueModel::Float64(f)),
            DataModel::OctetString(b) => sized(b.len(), limits, ValueModel::OctetString(b)),
            DataModel::VisibleString(s) => sized(
                encode_utf8(s).len(),
                limits,
                ValueModel::VisibleString(s),
            ),
            DataModel::MmsString(s) => sized(
                encode_utf8(s).len(),
                limits,
                ValueModel::MmsString(s),
            ),
            DataModel::UtcTime(t) => Ok(ValueModel::UtcTime(t)),
            DataModel::BinaryTime(b) => sized(b.len(), limits, ValueModel::BinaryTime(b)),
            DataModel::Other(t) => sized(
                t.value.len(),
                limits,
                ValueModel::Other {
                    tag: t.tag.number,
                    constructed: t.tag.constructed,
                    bytes: t.value,
                },
            ),
        }
    }
}

/// The values a cursor still holds, after `acc`. The number of members is checked before each
/// is decoded.
pub open spec fn collected(
    c: CursorModel,
    limits: Limits,
    depth: usize,
    acc: Seq<ValueModel>,
) -> Result<Seq<ValueModel>, Error>
    decreases c.bytes.len(), 0nat,
    via collected_shrinks
{
    if c.bytes.len() == 0 {
        Ok(acc)
    } else if acc.len() >= limits.max_dataset_members {
        Err(Error::LimitExceeded { limit: "max_dataset_members", value: sat_add(1, acc.len()) })
    } else {
        match c.first() {
            Err(e) => Err(e),
            Ok(t) => match data_of(t) {
                Err(e) => Err(e),
                Ok(d) => match owned(d, limits, depth) {
                    Err(e) => Err(e),
                    Ok(v) => collected(c.rest(), limits, depth, acc.push(v)),
                },
            },
        }
    }
}

#[via_fn]
proof fn collected_shrinks(c: CursorModel, limits: Limits, depth: usize, acc: Seq<ValueModel>) {
    laws::lemma_progress(c);
}

fn check_len(len: usize, limits: &Limits) -> (r: Result<(), Error>)
    ensures
        match r {
            Ok(_) => len <= limits.max_primitive_len,
            Err(e) => len > limits.max_primitive_len && e == (Error::LimitExceeded {
                limit: "max_primitive_len",
                value: len,
            }),
        },
{
    if len > limits.max_primitive_len {
        Err(Error::LimitExceeded { limit: "max_primitive_len", value: len })
    } else {
        Ok(())
    }
}

impl<'a> DataView<'a> {
    /// Deep-copy into an owned [`Value`], enforcing `limits`.
    pub fn to_owned(&self, limits: &Limits) -> (r: Result<Value, Error>)
        ensures
            agrees(r, owned(self@, *limits, 0)),
    {
        self.to_owned_depth(limits, 0)
    }

    fn to_owned_depth(&self, limits: &Limits, depth: usize) -> (r: Result<Value, Error>)
        ensures
            agrees(r, owned(self@, *limits, depth)),
        decreases inner_len(self@), 1nat,
    {
        if depth > limits.max_depth {
            return Err(Error::LimitExceeded { limit: "max_depth", value: depth });
        }
        Ok(
            match self {
                DataView::Array(c) => {
                    let m = collect_depth(*c, limits, depth.saturating_add(1))?;
                    proof {
                        lemma_model_members(m);
                    }
                    Value::Array(m)
                },
                DataView::Structure(c) => {
                    let m = collect_depth(*c, limits, depth.saturating_add(1))?;
                    proof {
                        lemma_model_members(m);
                    }
                    Value::Structure(m)
                },
                DataView::Boolean(b) => Value::Boolean(*b),
                DataView::BitString { unused, bytes } => {
                    check_len(bytes.len(), limits)?;
                    Value::BitString { unused: *unused, bytes: slice_to_vec(bytes) }
                },
                DataView::Integer(i) => Value::Integer(*i),
                DataView::Unsigned(u) => Value::Unsigned(*u),
                DataView::Float32(f) => Value::Float32(*f),
                DataView::Float64(f) => Value::Float64(*f),
                DataView::OctetString(b) => {
                    check_len(b.len(), limits)?;
                    Value::OctetString(slice_to_vec(b))
                },
                DataView::VisibleString(s) => {
                    check_len(s.as_bytes().len(), limits)?;
                    Value::VisibleString((*s).to_owned())
                },
                DataView::MmsString(s) => {
                    check_len(s.as_bytes().len(), limits)?;
                    Value::MmsString((*s).to_owned())
                },
                DataView::UtcTime(t) => Value::UtcTime(*t),
                DataView::BinaryTime(b) => {
                    check_len(b.len(), limits)?;
                    Value::BinaryTime(slice_to_vec(b))
                },
                DataView::Other(t) => {
                    check_len(t.value.len(), limits)?;
                    Value::Other {
                        tag: t.tag.number,
                        constructed: t.tag.constructed,
                        bytes: slice_to_vec(t.value),
                    }
                },
            },
        )
    }
}

/// A decoded list agrees with its model.
pub open spec fn agrees_values(
    r: Result<Vec<Value>, Error>,
    s: Result<Seq<ValueModel>, Error>,
) -> bool {
    match r {
        Ok(v) => s == Ok::<Seq<ValueModel>, Error>(models(v@)),
        Err(e) => s == Err::<Seq<ValueModel>, Error>(e),
    }
}

/// Decode a cursor's elements into owned values, enforcing `limits`.
pub fn collect(c: Cursor<'_>, limits: &Limits) -> (r: Result<Vec<Value>, Error>)
    ensures
        agrees_values(r, collected(c@, *limits, 0, Seq::empty())),
{
    collect_depth(c, limits, 0)
}

fn collect_depth(c: Cursor<'_>, limits: &Limits, depth: usize) -> (r: Result<Vec<Value>, Error>)
    ensures
        agrees_values(r, collected(c@, *limits, depth, Seq::empty())),
    decreases c@.bytes.len(), 0nat,
{
    let mut out: Vec<Value> = Vec::new();
    let mut cur = c;
    assert(models(out@) =~= Seq::empty());
    while !cur.is_empty()
        invariant
            cur@.bytes.len() <= c@.bytes.len(),
            collected(c@, *limits, depth, Seq::empty()) == collected(
                cur@,
                *limits,
                depth,
                models(out@),
            ),
        decreases cur@.bytes.len(),
    {
        if out.len() >= limits.max_dataset_members {
            return Err(
                Error::LimitExceeded {
                    limit: "max_dataset_members",
                    value: out.len().saturating_add(1),
                },
            );
        }
        proof {
            laws::lemma_progress(cur@);
        }
        let t = cur.next_required()?;
        let d = DataView::from_tlv(t)?;
        let v = d.to_owned_depth(limits, depth)?;
        let ghost before = models(out@);
        out.push(v);
        assert(models(out@) =~= before.push(v@));
    }
    Ok(out)
}

/// Decode a sequence of `Data` elements into owned values.
pub fn decode_all(bytes: &[u8], limits: &Limits) -> (r: Result<Vec<Value>, Error>)
    ensures
        agrees_values(
            r,
            collected(CursorModel { bytes: bytes@, offset: 0 }, *limits, 0, Seq::empty()),
        ),
{
    collect(Cursor::new(bytes), limits)
}

// ---- encoding --------------------------------------------------------------------------

/// The tag a value is encoded under.
pub open spec fn value_tag(v: ValueModel) -> Tag {
    match v {
        ValueModel::Array(_) => ctx_cons(1),
        ValueModel::Structure(_) => ctx_cons(2),
        ValueModel::Boolean(_) => ctx(3),
        ValueModel::BitString { .. } => ctx(4),
        ValueModel::Integer(_) => ctx(5),
        ValueModel::Unsigned(_) => ctx(6),
        ValueModel::Float32(_) => ctx(7),
        ValueModel::Float64(_) => ctx(7),
        ValueModel::OctetString(_) => ctx(9),
        ValueModel::VisibleString(_) => ctx(10),
        ValueModel::BinaryTime(_) => ctx(12),
        ValueModel::MmsString(_) => ctx(16),
        ValueModel::UtcTime(_) => ctx(17),
        ValueModel::Other { tag, constructed, .. } => Tag {
            class: Class::Context,
            constructed,
            number: tag,
        },
    }
}

/// The contents octets of a value.
pub open spec fn value_contents(v: ValueModel) -> Seq<u8>
    decreases v, 0nat,
{
    match v {
        ValueModel::Array(m) => values_from(m, 0),
        ValueModel::Structure(m) => values_from(m, 0),
        ValueModel::Boolean(b) => bool_octets(b),
        ValueModel::BitString { unused, bytes } => bit_octets(unused, bytes),
        ValueModel::Integer(i) => sint_octets(i as int),
        ValueModel::Unsigned(u) => sint_octets(u as int),
        ValueModel::Float32(f) => float_octets(Float::Single(f)),
        ValueModel::Float64(f) => float_octets(Float::Double(f)),
        ValueModel::OctetString(b) => b,
        ValueModel::VisibleString(s) => octets_of(s),
        ValueModel::MmsString(s) => encode_utf8(s),
        ValueModel::UtcTime(t) => utc_octets(t),
        ValueModel::BinaryTime(b) => b,
        ValueModel::Other { bytes, .. } => bytes,
    }
}

/// The encoding of the values from index `i` on, back to back.
pub open spec fn values_from(s: Seq<ValueModel>, i: nat) -> Seq<u8>
    decreases s, s.len() - i,
{
    if i < s.len() {
        tlv(value_tag(s[i as int]), value_contents(s[i as int])) + values_from(s, i + 1)
    } else {
        Seq::empty()
    }
}

/// The encoding of one value.
pub open spec fn value_bytes(v: ValueModel) -> Seq<u8> {
    tlv(value_tag(v), value_contents(v))
}

/// The encoding of a list of values, back to back.
pub open spec fn values_bytes(s: Seq<ValueModel>) -> Seq<u8> {
    values_from(s, 0)
}

/// Why a value has no encoding: text that is not ASCII, or a bit string with too many unused
/// bits, whichever comes first.
pub open spec fn value_fault(v: ValueModel) -> Option<Error>
    decreases v, 0nat,
{
    match v {
        ValueModel::Array(m) => values_fault_from(m, 0),
        ValueModel::Structure(m) => values_fault_from(m, 0),
        ValueModel::BitString { unused, bytes } => bits_fault(unused, bytes),
        ValueModel::VisibleString(s) => text_fault(s),
        _ => None,
    }
}

/// The first fault of the values from index `i` on.
pub open spec fn values_fault_from(s: Seq<ValueModel>, i: nat) -> Option<Error>
    decreases s, s.len() - i,
{
    if i < s.len() {
        first_fault(value_fault(s[i as int]), values_fault_from(s, i + 1))
    } else {
        None
    }
}

/// The first fault of a list of values.
pub open spec fn values_fault(s: Seq<ValueModel>) -> Option<Error> {
    values_fault_from(s, 0)
}

fn encode_members(m: &[Value], e: &mut Encoder) -> (r: Result<(), Error>)
    ensures
        wrote(r, old(e)@, final(e)@, values_fault(models(m@)), values_bytes(models(m@))),
    decreases m@, m@.len() + 1,
{
    let ghost all = models(m@);
    let start: usize = e.len();
    let mut i: usize = 0;
    while i < m.len()
        invariant
            i <= m.len(),
            all == models(m@),
            start == old(e)@.len() <= e@.len(),
            e@.take(start as int) == old(e)@,
            e@ + values_from(all, i as nat) == old(e)@ + values_bytes(all),
            values_fault(all) == values_fault_from(all, i as nat),
        decreases m.len() - i,
    {
        let ghost before = e@;
        assert(all[i as int] == m@[i as int]@);
        if let Err(f) = m[i].encode(e) {
            e.truncate(start);
            return Err(f);
        }
        proof {
            let rest = values_from(all, (i + 1) as nat);
            assert(e@ + rest =~= before + (value_bytes(all[i as int]) + rest));
            assert(e@.take(start as int) =~= before.take(start as int));
        }
        i += 1;
    }
    assert(e@ + values_from(all, i as nat) =~= e@);
    Ok(())
}

impl Value {
    /// A copy of this value.
    pub fn duplicate(&self) -> (r: Value)
        ensures
            r@ == self@,
        decreases self,
    {
        match self {
            Value::Array(m) => {
                let c = duplicate_all(m);
                proof {
                    lemma_model_members(c);
                    lemma_model_members(*m);
                }
                Value::Array(c)
            },
            Value::Structure(m) => {
                let c = duplicate_all(m);
                proof {
                    lemma_model_members(c);
                    lemma_model_members(*m);
                }
                Value::Structure(c)
            },
            Value::Boolean(b) => Value::Boolean(*b),
            Value::BitString { unused, bytes } => Value::BitString {
                unused: *unused,
                bytes: slice_to_vec(bytes),
            },
            Value::Integer(i) => Value::Integer(*i),
            Value::Unsigned(u) => Value::Unsigned(*u),
            Value::Float32(f) => Value::Float32(*f),
            Value::Float64(f) => Value::Float64(*f),
            Value::OctetString(b) => Value::OctetString(slice_to_vec(b)),
            Value::VisibleString(s) => Value::VisibleString(s.clone()),
            Value::MmsString(s) => Value::MmsString(s.clone()),
            Value::UtcTime(t) => Value::UtcTime(*t),
            Value::BinaryTime(b) => Value::BinaryTime(slice_to_vec(b)),
            Value::Other { tag, constructed, bytes } => Value::Other {
                tag: *tag,
                constructed: *constructed,
                bytes: slice_to_vec(bytes),
            },
        }
    }

    /// A `Quality` as the 13-bit bit string.
    pub fn quality(q: Quality) -> (r: Value)
        ensures
            r@ == (ValueModel::BitString { unused: 3, bytes: quality_octets(q) }),
    {
        let octets = q.to_octets();
        Value::BitString { unused: 3, bytes: slice_to_vec(&octets) }
    }

    /// A `Dbpos` as the two-bit bit string.
    pub fn dbpos(pos: Dbpos) -> (r: Value)
        ensures
            r@ == (ValueModel::BitString { unused: 6, bytes: seq![(dbpos_code(pos) * 64) as u8] }),
    {
        let mut bytes: Vec<u8> = Vec::new();
        bytes.push(pos.to_code() * 64);
        assert(bytes@ =~= seq![(dbpos_code(pos) * 64) as u8]);
        Value::BitString { unused: 6, bytes }
    }

    /// The members of an `array [1]` or `structure [2]`.
    pub fn members(&self) -> (r: Option<&[Value]>)
        ensures
            members_of(self@) == (match r {
                Some(m) => Some(models(m@)),
                None => None,
            }),
    {
        match self {
            Value::Array(m) => {
                proof {
                    lemma_model_members(*m);
                }
                Some(m.as_slice())
            },
            Value::Structure(m) => {
                proof {
                    lemma_model_members(*m);
                }
                Some(m.as_slice())
            },
            _ => None,
        }
    }

    /// The `i`-th member of an array or structure.
    pub fn member(&self, i: usize) -> (r: Option<&Value>)
        ensures
            match members_of(self@) {
                Some(m) => match r {
                    Some(v) => i < m.len() && v@ == m[i as int],
                    None => i >= m.len(),
                },
                None => r is None,
            },
    {
        match self.members() {
            Some(m) => if i < m.len() {
                assert(models(m@)[i as int] == m@[i as int]@);
                Some(&m[i])
            } else {
                None
            },
            None => None,
        }
    }

    /// Encode this value, with its context tag, into `e`.
    pub fn encode(&self, e: &mut Encoder) -> (r: Result<(), Error>)
        ensures
            wrote(r, old(e)@, final(e)@, value_fault(self@), value_bytes(self@)),
        decreases self, 0nat,
    {
        match self {
            Value::Array(m) => {
                let start: usize = e.len();
                proof {
                    lemma_model_members(*m);
                }
                encode_members(m, e)?;
                assert(e@.take(start as int) =~= old(e)@);
                assert(e@.skip(start as int) =~= value_contents(self@));
                e.enclose(start, Tag::context_constructed(tag::ARRAY));
            },
            Value::Structure(m) => {
                let start: usize = e.len();
                proof {
                    lemma_model_members(*m);
                }
                encode_members(m, e)?;
                assert(e@.take(start as int) =~= old(e)@);
                assert(e@.skip(start as int) =~= value_contents(self@));
                e.enclose(start, Tag::context_constructed(tag::STRUCTURE));
            },
            Value::Boolean(b) => e.boolean(Tag::context(tag::BOOLEAN), *b),
            Value::BitString { unused, bytes } => e.bit_string(
                Tag::context(tag::BIT_STRING),
                *unused,
                bytes,
            )?,
            Value::Integer(i) => e.integer(Tag::context(tag::INTEGER), *i),
            Value::Unsigned(u) => e.unsigned(Tag::context(tag::UNSIGNED), *u),
            Value::Float32(f) => e.float32(Tag::context(tag::FLOATING_POINT), *f),
            Value::Float64(f) => e.float64(Tag::context(tag::FLOATING_POINT), *f),
            Value::OctetString(b) => e.primitive(Tag::context(tag::OCTET_STRING), b),
            Value::VisibleString(s) => e.visible_string(Tag::context(tag::VISIBLE_STRING), s)?,
            Value::MmsString(s) => e.utf8_string(Tag::context(tag::MMS_STRING), s),
            Value::UtcTime(t) => e.utc_time(Tag::context(tag::UTC_TIME), *t),
            Value::BinaryTime(b) => e.primitive(Tag::context(tag::BINARY_TIME), b),
            Value::Other { tag: n, constructed, bytes } => {
                let t = Tag { class: Class::Context, constructed: *constructed, number: *n };
                e.primitive(t, bytes);
            },
        }
        Ok(())
    }

    /// Encode a list of values back to back.
    pub fn encode_all(values: &[Value]) -> (r: Result<Vec<u8>, Error>)
        ensures
            match values_fault(models(values@)) {
                None => r matches Ok(b) && b@ == values_bytes(models(values@)),
                Some(f) => r == Err::<Vec<u8>, Error>(f),
            },
    {
        let mut e = Encoder::new();
        encode_members(values, &mut e)?;
        assert(e@ =~= values_bytes(models(values@)));
        Ok(e.into_vec())
    }
}

/// Copies of a list of values.
pub fn duplicate_all(m: &Vec<Value>) -> (r: Vec<Value>)
    ensures
        models(r@) == models(m@),
    decreases m,
{
    let mut out: Vec<Value> = Vec::new();
    let mut i: usize = 0;
    while i < m.len()
        invariant
            i <= m.len(),
            out@.len() == i,
            forall|j: int| 0 <= j < i ==> out@[j]@ == m@[j]@,
        decreases m.len() - i,
    {
        let v = m[i].duplicate();
        out.push(v);
        i += 1;
    }
    assert(models(out@) =~= models(m@));
    out
}

impl Clone for Value {
    fn clone(&self) -> (r: Value)
        ensures
            r@ == self@,
    {
        self.duplicate()
    }
}

impl Typed for Value {
    open spec fn scalar(&self) -> Scalar {
        scalar_of(self@)
    }

    fn as_bool(&self) -> (r: Option<bool>) {
        match self {
            Value::Boolean(b) => Some(*b),
            _ => None,
        }
    }

    fn as_i64(&self) -> (r: Option<i64>) {
        match self {
            Value::Integer(i) => Some(*i),
            _ => None,
        }
    }

    fn as_u64(&self) -> (r: Option<u64>) {
        match self {
            Value::Unsigned(u) => Some(*u),
            _ => None,
        }
    }

    fn as_float(&self) -> (r: Option<Float>) {
        match self {
            Value::Float32(f) => Some(Float::Single(*f)),
            Value::Float64(f) => Some(Float::Double(*f)),
            _ => None,
        }
    }

    fn as_str(&self) -> (r: Option<&str>) {
        match self {
            Value::VisibleString(s) => Some(s.as_str()),
            Value::MmsString(s) => Some(s.as_str()),
            _ => None,
        }
    }

    fn as_utc_time(&self) -> (r: Option<UtcTime>) {
        match self {
            Value::UtcTime(t) => Some(*t),
            _ => None,
        }
    }

    fn as_quality(&self) -> (r: Option<Quality>) {
        match self {
            Value::BitString { bytes, .. } => quality_from(bytes),
            _ => None,
        }
    }

    fn as_dbpos(&self) -> (r: Option<Dbpos>) {
        match self {
            Value::BitString { unused, bytes } => dbpos_from(*unused, bytes),
            _ => None,
        }
    }
}

// ---- packed options ---------------------------------------------------------------------

/// A [`OptFlds`] as the bit string a control block is written with.
pub open spec fn opt_flds_value(o: OptFlds) -> ValueModel {
    ValueModel::BitString { unused: 6, bytes: opt_flds_octets(o) }
}

/// The [`OptFlds`] of a value, which has to be a bit string.
pub open spec fn value_opt_flds(v: ValueModel) -> Option<OptFlds> {
    match v {
        ValueModel::BitString { bytes, .. } => Some(opt_flds_from(bytes)),
        _ => None,
    }
}

impl OptFlds {
    /// The bit string as a [`Value`].
    pub fn to_value(self) -> (r: Value)
        ensures
            r@ == opt_flds_value(self),
    {
        let (unused, bytes) = self.to_bit_string();
        Value::BitString { unused, bytes }
    }

    /// Read from a decoded [`Value`], which has to be a bit string.
    pub fn from_value(v: &Value) -> (r: Option<OptFlds>)
        ensures
            r == value_opt_flds(v@),
    {
        match v {
            Value::BitString { bytes, .. } => Some(OptFlds::from_bit_string(bytes)),
            _ => None,
        }
    }
}

/// A [`TrgOps`] as the bit string a control block is written with.
pub open spec fn trg_ops_value(o: TrgOps) -> ValueModel {
    ValueModel::BitString { unused: 2, bytes: trg_ops_octets(o) }
}

/// The [`TrgOps`] of a value, which has to be a bit string.
pub open spec fn value_trg_ops(v: ValueModel) -> Option<TrgOps> {
    match v {
        ValueModel::BitString { bytes, .. } => Some(trg_ops_from(bytes)),
        _ => None,
    }
}

impl TrgOps {
    /// The bit string as a [`Value`].
    pub fn to_value(self) -> (r: Value)
        ensures
            r@ == trg_ops_value(self),
    {
        let (unused, bytes) = self.to_bit_string();
        Value::BitString { unused, bytes }
    }

    /// Read from a decoded [`Value`], which has to be a bit string.
    pub fn from_value(v: &Value) -> (r: Option<TrgOps>)
        ensures
            r == value_trg_ops(v@),
    {
        match v {
            Value::BitString { bytes, .. } => Some(TrgOps::from_bit_string(bytes)),
            _ => None,
        }
    }
}

/// A [`ReasonCode`] as the bit string a control block is written with.
pub open spec fn reason_code_value(o: ReasonCode) -> ValueModel {
    ValueModel::BitString { unused: 1, bytes: reason_code_octets(o) }
}

/// The [`ReasonCode`] of a value, which has to be a bit string.
pub open spec fn value_reason_code(v: ValueModel) -> Option<ReasonCode> {
    match v {
        ValueModel::BitString { bytes, .. } => Some(reason_code_from(bytes)),
        _ => None,
    }
}

impl ReasonCode {
    /// The bit string as a [`Value`].
    pub fn to_value(self) -> (r: Value)
        ensures
            r@ == reason_code_value(self),
    {
        let (unused, bytes) = self.to_bit_string();
        Value::BitString { unused, bytes }
    }

    /// Read from a decoded [`Value`], which has to be a bit string.
    pub fn from_value(v: &Value) -> (r: Option<ReasonCode>)
        ensures
            r == value_reason_code(v@),
    {
        match v {
            Value::BitString { bytes, .. } => Some(ReasonCode::from_bit_string(bytes)),
            _ => None,
        }
    }
}

// ---- laws ------------------------------------------------------------------------------

/// Whether a decoder with these limits takes a value at this depth, and takes it for the same
/// choice: [`Value::Other`] holds only what has no variant of its own.
pub open spec fn fits(v: ValueModel, limits: Limits, depth: usize) -> bool
    decreases v,
{
    depth <= limits.max_depth && match v {
        ValueModel::Array(m) => m.len() <= limits.max_dataset_members && forall|i: int|
            0 <= i < m.len() ==> fits(#[trigger] m[i], limits, sat_add(depth, 1)),
        ValueModel::Structure(m) => m.len() <= limits.max_dataset_members && forall|i: int|
            0 <= i < m.len() ==> fits(#[trigger] m[i], limits, sat_add(depth, 1)),
        ValueModel::BitString { bytes, .. } => bytes.len() <= limits.max_primitive_len,
        ValueModel::OctetString(b) => b.len() <= limits.max_primitive_len,
        ValueModel::VisibleString(s) => s.len() <= limits.max_primitive_len,
        ValueModel::MmsString(s) => encode_utf8(s).len() <= limits.max_primitive_len,
        ValueModel::BinaryTime(b) => b.len() <= limits.max_primitive_len,
        ValueModel::Other { tag, constructed, bytes } => bytes.len() <= limits.max_primitive_len
            && !(constructed && 1 <= tag <= 2) && !(!constructed && (3 <= tag <= 7 || tag == 9
            || tag == 10 || tag == 12 || tag == 16 || tag == 17)),
        _ => true,
    }
}

/// A value that has an encoding and stays within the limits reads back as it was.
pub proof fn lemma_value_round_trip(v: ValueModel, limits: Limits, depth: usize, offset: usize)
    requires
        value_fault(v) is None,
        fits(v, limits, depth),
        value_bytes(v).len() <= u64::MAX,
    ensures
        data_of(laws::element_at(value_tag(v), value_contents(v), offset)) matches Ok(d) && owned(
            d,
            limits,
            depth,
        ) == Ok::<ValueModel, Error>(v),
    decreases v, 0nat,
{
    let t = laws::element_at(value_tag(v), value_contents(v), offset);
    laws::lemma_tlv_len(value_tag(v), value_contents(v));
    match v {
        ValueModel::Array(m) => {
            lemma_values_round_trip(m, 0, limits, sat_add(depth, 1), t.value_offset, Seq::empty());
            assert(Seq::<ValueModel>::empty() + m.skip(0) =~= m);
        },
        ValueModel::Structure(m) => {
            lemma_values_round_trip(m, 0, limits, sat_add(depth, 1), t.value_offset, Seq::empty());
            assert(Seq::<ValueModel>::empty() + m.skip(0) =~= m);
        },
        ValueModel::BitString { unused, bytes } => {
            assert(t.value.skip(1) =~= bytes);
        },
        ValueModel::Integer(i) => {
            laws::lemma_integer_field(ctx(5), i, offset);
        },
        ValueModel::Unsigned(u) => {
            laws::lemma_unsigned_field(ctx(6), u, offset);
        },
        ValueModel::Float32(f) => {
            laws::lemma_be_fixed(f as nat, 4);
            laws::lemma_pow256();
            assert(t.value.skip(1) =~= crate::ber::be_fixed(f as nat, 4));
        },
        ValueModel::Float64(f) => {
            laws::lemma_be_fixed(f as nat, 8);
            laws::lemma_pow256();
            assert(t.value.skip(1) =~= crate::ber::be_fixed(f as nat, 8));
        },
        ValueModel::VisibleString(s) => {
            laws::lemma_ascii_text(s);
            is_ascii_chars_encode_utf8(s);
        },
        ValueModel::MmsString(s) => {
            encode_utf8_valid_utf8(s);
            encode_utf8_decode_utf8(s);
        },
        ValueModel::UtcTime(u) => {
            laws::lemma_be_fixed(u.raw as nat, 8);
            laws::lemma_pow256();
        },
        _ => {},
    }
}

/// The values from index `i` on read back in order behind `acc`.
pub proof fn lemma_values_round_trip(
    s: Seq<ValueModel>,
    i: nat,
    limits: Limits,
    depth: usize,
    offset: usize,
    acc: Seq<ValueModel>,
)
    requires
        i <= s.len(),
        values_fault_from(s, i) is None,
        acc.len() + s.len() - i <= limits.max_dataset_members,
        forall|j: int| i <= j < s.len() ==> fits(#[trigger] s[j], limits, depth),
        values_from(s, i).len() <= u64::MAX,
    ensures
        collected(
            CursorModel { bytes: values_from(s, i), offset },
            limits,
            depth,
            acc,
        ) == Ok::<Seq<ValueModel>, Error>(acc + s.skip(i as int)),
    decreases s, s.len() - i,
{
    if i < s.len() {
        let v = s[i as int];
        let rest = values_from(s, i + 1);
        laws::lemma_tlv_len(value_tag(v), value_contents(v));
        lemma_value_round_trip(v, limits, depth, offset);
        laws::lemma_first(value_tag(v), value_contents(v), rest, offset);
        let next = laws::cursor_after(value_tag(v), value_contents(v), rest, offset);
        lemma_values_round_trip(s, i + 1, limits, depth, next.offset, acc.push(v));
        assert(acc.push(v) + s.skip(i + 1int) =~= acc + s.skip(i as int));
    } else {
        assert(acc + s.skip(i as int) =~= acc);
    }
}

/// A list of values survives [`Value::encode_all`] and [`decode_all`] unchanged.
pub proof fn lemma_encode_decode_all(s: Seq<ValueModel>, limits: Limits)
    requires
        values_fault(s) is None,
        s.len() <= limits.max_dataset_members,
        forall|j: int| 0 <= j < s.len() ==> fits(#[trigger] s[j], limits, 0),
        values_bytes(s).len() <= u64::MAX,
    ensures
        collected(
            CursorModel { bytes: values_bytes(s), offset: 0 },
            limits,
            0,
            Seq::empty(),
        ) == Ok::<Seq<ValueModel>, Error>(s),
{
    lemma_values_round_trip(s, 0, limits, 0, 0, Seq::empty());
    assert(Seq::<ValueModel>::empty() + s.skip(0) =~= s);
}

proof fn lemma_values_faultless(s: Seq<ValueModel>, i: nat)
    requires
        forall|j: int| 0 <= j < s.len() ==> value_fault(#[trigger] s[j]) is None,
    ensures
        values_fault_from(s, i) is None,
    decreases s.len() - i,
{
    if i < s.len() {
        assert(value_fault(s[i as int]) is None);
        lemma_values_faultless(s, i + 1);
    }
}

/// A value that was decoded has an encoding, and neither nests nor grows past the limits it was
/// decoded within.
pub proof fn lemma_value_decoded(t: TlvModel, limits: Limits, depth: usize)
    ensures
        data_of(t) matches Ok(d) ==> (owned(d, limits, depth) matches Ok(v) ==> value_fault(
            v,
        ) is None && fits(v, limits, depth)),
    decreases t.value.len(), 1nat,
{
    if let Ok(d) = data_of(t) {
        if depth <= limits.max_depth {
            match d {
                DataModel::Array(c) => lemma_values_decoded(
                    c,
                    limits,
                    sat_add(depth, 1),
                    Seq::empty(),
                ),
                DataModel::Structure(c) => lemma_values_decoded(
                    c,
                    limits,
                    sat_add(depth, 1),
                    Seq::empty(),
                ),
                DataModel::VisibleString(s) => {
                    laws::lemma_visible_decoded(t);
                    is_ascii_chars_encode_utf8(s);
                },
                _ => {},
            }
        }
    }
}

/// Values that were decoded have encodings, and neither nest nor grow past the limits they were
/// decoded within.
pub proof fn lemma_values_decoded(
    c: CursorModel,
    limits: Limits,
    depth: usize,
    acc: Seq<ValueModel>,
)
    requires
        acc.len() <= limits.max_dataset_members,
        forall|j: int|
            0 <= j < acc.len() ==> value_fault(#[trigger] acc[j]) is None && fits(
                acc[j],
                limits,
                depth,
            ),
    ensures
        collected(c, limits, depth, acc) matches Ok(m) ==> {
            &&& values_fault(m) is None
            &&& m.len() <= limits.max_dataset_members
            &&& forall|j: int| 0 <= j < m.len() ==> fits(#[trigger] m[j], limits, depth)
        },
    decreases c.bytes.len(), 0nat,
{
    if c.bytes.len() == 0 {
        lemma_values_faultless(acc, 0);
    } else if acc.len() < limits.max_dataset_members {
        laws::lemma_progress(c);
        if let Ok(t) = c.first() {
            lemma_value_decoded(t, limits, depth);
            if let Ok(d) = data_of(t) {
                if let Ok(v) = owned(d, limits, depth) {
                    lemma_values_decoded(c.rest(), limits, depth, acc.push(v));
                }
            }
        }
    }
}

/// Encoding values is a fixed point: whatever decodes has an encoding, which decodes to the same.
pub proof fn lemma_values_fixed_point(b: Seq<u8>, limits: Limits)
    ensures
        collected(CursorModel { bytes: b, offset: 0 }, limits, 0, Seq::empty()) matches Ok(s) ==> {
            &&& values_fault(s) is None
            &&& values_bytes(s).len() <= u64::MAX ==> collected(
                CursorModel { bytes: values_bytes(s), offset: 0 },
                limits,
                0,
                Seq::empty(),
            ) == Ok::<Seq<ValueModel>, Error>(s)
        },
{
    let c = CursorModel { bytes: b, offset: 0 };
    lemma_values_decoded(c, limits, 0, Seq::empty());
    if let Ok(s) = collected(c, limits, 0, Seq::empty()) {
        if values_bytes(s).len() <= u64::MAX {
            lemma_encode_decode_all(s, limits);
        }
    }
}

/// How many arrays and structures enclose the deepest value inside a value.
pub open spec fn nesting(v: ValueModel) -> nat
    decreases v, 0nat,
{
    match v {
        ValueModel::Array(m) => nesting_from(m, 0),
        ValueModel::Structure(m) => nesting_from(m, 0),
        _ => 0,
    }
}

/// How many of them enclose the deepest value inside the members from index `i` on.
pub open spec fn nesting_from(s: Seq<ValueModel>, i: nat) -> nat
    decreases s, s.len() - i,
{
    if i < s.len() {
        let here = 1 + nesting(s[i as int]);
        let later = nesting_from(s, i + 1);
        if here >= later {
            here
        } else {
            later
        }
    } else {
        0
    }
}

/// Whether a decoder with these limits takes a value, as far as that does not depend on how deep
/// it nests.
pub open spec fn fits_flat(v: ValueModel, limits: Limits) -> bool
    decreases v,
{
    match v {
        ValueModel::Array(m) => m.len() <= limits.max_dataset_members && forall|i: int|
            0 <= i < m.len() ==> fits_flat(#[trigger] m[i], limits),
        ValueModel::Structure(m) => m.len() <= limits.max_dataset_members && forall|i: int|
            0 <= i < m.len() ==> fits_flat(#[trigger] m[i], limits),
        _ => fits(v, limits, 0),
    }
}

/// The refusal of what nests too deep.
pub open spec fn too_deep<T>(limits: Limits) -> Result<T, Error> {
    Err(Error::LimitExceeded { limit: "max_depth", value: (limits.max_depth + 1) as usize })
}

proof fn lemma_nesting_within(s: Seq<ValueModel>, i: nat, j: int)
    requires
        i <= j < s.len(),
    ensures
        1 + nesting(s[j]) <= nesting_from(s, i),
    decreases s.len() - i,
{
    if i < j {
        lemma_nesting_within(s, i + 1, j);
    }
}

/// A value that nests within the limits fits them.
proof fn lemma_nesting_fits(v: ValueModel, limits: Limits, depth: usize)
    requires
        fits_flat(v, limits),
        depth + nesting(v) <= limits.max_depth,
    ensures
        fits(v, limits, depth),
    decreases v,
{
    let m = match v {
        ValueModel::Array(m) => m,
        ValueModel::Structure(m) => m,
        _ => Seq::empty(),
    };
    assert forall|i: int| 0 <= i < m.len() implies fits(
        #[trigger] m[i],
        limits,
        sat_add(depth, 1),
    ) by {
        lemma_nesting_within(m, 0, i);
        lemma_nesting_fits(m[i], limits, sat_add(depth, 1));
    }
}

proof fn lemma_value_refused(v: ValueModel, limits: Limits, depth: usize, offset: usize)
    requires
        value_fault(v) is None,
        fits_flat(v, limits),
        value_bytes(v).len() <= u64::MAX,
        depth <= limits.max_depth + 1,
        limits.max_depth < usize::MAX,
        depth + nesting(v) > limits.max_depth,
    ensures
        data_of(laws::element_at(value_tag(v), value_contents(v), offset)) matches Ok(d) && owned(
            d,
            limits,
            depth,
        ) == too_deep::<ValueModel>(limits),
    decreases v, 0nat,
{
    laws::lemma_tlv_len(value_tag(v), value_contents(v));
    let at = laws::element_at(value_tag(v), value_contents(v), offset).value_offset;
    match v {
        ValueModel::Array(m) => {
            if depth <= limits.max_depth {
                lemma_values_refused(m, 0, limits, depth, at, Seq::empty());
            }
        },
        ValueModel::Structure(m) => {
            if depth <= limits.max_depth {
                lemma_values_refused(m, 0, limits, depth, at, Seq::empty());
            }
        },
        _ => lemma_value_round_trip(v, limits, 0, offset),
    }
}

proof fn lemma_values_refused(
    s: Seq<ValueModel>,
    i: nat,
    limits: Limits,
    depth: usize,
    offset: usize,
    acc: Seq<ValueModel>,
)
    requires
        i <= s.len(),
        values_fault_from(s, i) is None,
        acc.len() + s.len() - i <= limits.max_dataset_members,
        forall|j: int| i <= j < s.len() ==> fits_flat(#[trigger] s[j], limits),
        values_from(s, i).len() <= u64::MAX,
        depth <= limits.max_depth < usize::MAX,
        depth + nesting_from(s, i) > limits.max_depth,
    ensures
        collected(
            CursorModel { bytes: values_from(s, i), offset },
            limits,
            sat_add(depth, 1),
            acc,
        ) == too_deep::<Seq<ValueModel>>(limits),
    decreases s, s.len() - i,
{
    let v = s[i as int];
    let rest = values_from(s, i + 1);
    let below = sat_add(depth, 1);
    laws::lemma_tlv_len(value_tag(v), value_contents(v));
    laws::lemma_first(value_tag(v), value_contents(v), rest, offset);
    if below + nesting(v) > limits.max_depth {
        lemma_value_refused(v, limits, below, offset);
    } else {
        lemma_nesting_fits(v, limits, below);
        lemma_value_round_trip(v, limits, below, offset);
        let next = laws::cursor_after(value_tag(v), value_contents(v), rest, offset);
        lemma_values_refused(s, i + 1, limits, depth, next.offset, acc.push(v));
    }
}

/// A value that has an encoding reads back as it was if it nests no deeper than the limits allow,
/// and is refused for its depth if it nests deeper.
pub proof fn lemma_value_limit(v: ValueModel, limits: Limits, offset: usize)
    requires
        value_fault(v) is None,
        fits_flat(v, limits),
        value_bytes(v).len() <= u64::MAX,
        nesting(v) <= limits.max_depth || limits.max_depth < usize::MAX,
    ensures
        data_of(laws::element_at(value_tag(v), value_contents(v), offset)) matches Ok(d) && owned(
            d,
            limits,
            0,
        ) == if nesting(v) <= limits.max_depth {
            Ok::<ValueModel, Error>(v)
        } else {
            too_deep(limits)
        },
{
    if nesting(v) <= limits.max_depth {
        lemma_nesting_fits(v, limits, 0);
        lemma_value_round_trip(v, limits, 0, offset);
    } else {
        lemma_value_refused(v, limits, 0, offset);
    }
}

} // verus!
