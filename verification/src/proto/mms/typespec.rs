//! `TypeSpecification`: the shape of a variable, which `GetVariableAccessAttributes` answers
//! with.
//!
//! A negative `bit-string`, `octet-string`, `visible-string` or `mMSString` length means "at
//! most that many"; the sign is kept. The two widths of a `floating-point` are written as
//! universal INTEGERs and read in that form or as `[0]` and `[1]`.

use vstd::prelude::*;
use vstd::string::*;
use vstd::utf8::*;
use crate::ber::{duplicate_text, laws, opt_str, opt_view};
use crate::ber::list::views;
use crate::ber::{
    bad, bool_octets, ctx, ctx_cons, first_fault, flag_bytes, opt_text_bytes, opt_text_fault,
    sint_octets, tlv, univ, wrote, Class, Cursor, CursorModel, Encoder, Tag, Tlv, TlvModel,
    UNIVERSAL_INTEGER, UNIVERSAL_SEQUENCE,
};
use crate::common::{agrees, sat_add, DecodeReason, Error, Limits};
use crate::proto::data::{tag, too_deep};
use crate::proto::mms::names::{
    lemma_name_decoded, lemma_name_round_trip, name_bytes, name_contents, name_fault, name_of,
    name_tag, ObjectName, ObjectNameModel,
};

verus! {

/// One component of a structure type.
#[derive(Debug, PartialEq, Eq)]
pub struct Component {
    /// `componentName`, when the server named it.
    pub name: Option<String>,
    /// The component's own type.
    pub type_spec: TypeSpec,
}

/// The type of an MMS variable.
#[derive(Debug, PartialEq, Eq)]
pub enum TypeSpec {
    /// `typeName [0]`: a named type defined elsewhere in the VMD.
    Named {
        /// The domain, when the name is domain-specific.
        domain: Option<String>,
        /// The name.
        item: String,
    },
    /// `array [1]`.
    Array {
        /// `packed`.
        packed: bool,
        /// How many elements.
        elements: u32,
        /// What each element is.
        element_type: Box<TypeSpec>,
    },
    /// `structure [2]`.
    Structure {
        /// `packed`.
        packed: bool,
        /// The components, in the order of their values.
        components: Vec<Component>,
    },
    /// `boolean [3]`.
    Boolean,
    /// `bit-string [4]`, with its length in bits.
    BitString(i32),
    /// `integer [5]`, with its width in bits.
    Integer(u8),
    /// `unsigned [6]`, with its width in bits.
    Unsigned(u8),
    /// `floating-point [7]`.
    FloatingPoint {
        /// Total format width in bits.
        format_width: u8,
        /// Exponent width in bits.
        exponent_width: u8,
    },
    /// `octet-string [9]`, with its length.
    OctetString(i32),
    /// `visible-string [10]`, with its length.
    VisibleString(i32),
    /// `generalized-time [11]`.
    GeneralizedTime,
    /// `binary-time [12]`: true for the six-octet form with a date.
    BinaryTime(bool),
    /// `bcd [13]`, with its number of digits.
    Bcd(u8),
    /// `mMSString [16]`, with its length.
    MmsString(i32),
    /// `utc-time [17]`.
    UtcTime,
    /// Any other choice, as its tag number.
    Other(u32),
}

/// What a [`Component`] stands for.
pub struct ComponentModel {
    pub name: Option<Seq<char>>,
    pub type_spec: TypeSpecModel,
}

/// What a [`TypeSpec`] stands for.
pub enum TypeSpecModel {
    Named { domain: Option<Seq<char>>, item: Seq<char> },
    Array { packed: bool, elements: u32, element_type: Box<TypeSpecModel> },
    Structure { packed: bool, components: Seq<ComponentModel> },
    Boolean,
    BitString(i32),
    Integer(u8),
    Unsigned(u8),
    FloatingPoint { format_width: u8, exponent_width: u8 },
    OctetString(i32),
    VisibleString(i32),
    GeneralizedTime,
    BinaryTime(bool),
    Bcd(u8),
    MmsString(i32),
    UtcTime,
    Other(u32),
}

/// The model of a type.
pub open spec fn type_model(t: TypeSpec) -> TypeSpecModel
    decreases t,
{
    match t {
        TypeSpec::Named { domain, item } => TypeSpecModel::Named {
            domain: opt_view(domain),
            item: item@,
        },
        TypeSpec::Array { packed, elements, element_type } => TypeSpecModel::Array {
            packed,
            elements,
            element_type: Box::new(type_model(*element_type)),
        },
        TypeSpec::Structure { packed, components } => TypeSpecModel::Structure {
            packed,
            components: Seq::new(
                components@.len(),
                |i: int|
                    if 0 <= i < components@.len() {
                        ComponentModel {
                            name: opt_view(components@[i].name),
                            type_spec: type_model(components@[i].type_spec),
                        }
                    } else {
                        arbitrary()
                    },
            ),
        },
        TypeSpec::Boolean => TypeSpecModel::Boolean,
        TypeSpec::BitString(n) => TypeSpecModel::BitString(n),
        TypeSpec::Integer(w) => TypeSpecModel::Integer(w),
        TypeSpec::Unsigned(w) => TypeSpecModel::Unsigned(w),
        TypeSpec::FloatingPoint { format_width, exponent_width } => TypeSpecModel::FloatingPoint {
            format_width,
            exponent_width,
        },
        TypeSpec::OctetString(n) => TypeSpecModel::OctetString(n),
        TypeSpec::VisibleString(n) => TypeSpecModel::VisibleString(n),
        TypeSpec::GeneralizedTime => TypeSpecModel::GeneralizedTime,
        TypeSpec::BinaryTime(d) => TypeSpecModel::BinaryTime(d),
        TypeSpec::Bcd(n) => TypeSpecModel::Bcd(n),
        TypeSpec::MmsString(n) => TypeSpecModel::MmsString(n),
        TypeSpec::UtcTime => TypeSpecModel::UtcTime,
        TypeSpec::Other(n) => TypeSpecModel::Other(n),
    }
}

impl View for TypeSpec {
    type V = TypeSpecModel;

    open spec fn view(&self) -> TypeSpecModel {
        type_model(*self)
    }
}

impl View for Component {
    type V = ComponentModel;

    open spec fn view(&self) -> ComponentModel {
        ComponentModel { name: opt_view(self.name), type_spec: self.type_spec@ }
    }
}

proof fn lemma_structure_model(packed: bool, components: Vec<Component>)
    ensures
        type_model(TypeSpec::Structure { packed, components }) == (TypeSpecModel::Structure {
            packed,
            components: views(components@),
        }),
{
    assert(type_model(TypeSpec::Structure { packed, components })->Structure_components =~= views(
        components@,
    ));
}

// ---- decoding --------------------------------------------------------------------------

/// A width: an unsigned number that fits one octet.
pub open spec fn width_of(t: TlvModel) -> Result<u8, Error> {
    match t.unsigned32() {
        Err(e) => Err(e),
        Ok(v) => if v <= 255 {
            Ok(v as u8)
        } else {
            bad(DecodeReason::BadValue, t.value_offset)
        },
    }
}

/// The next width of a floating-point type: a universal INTEGER, or `[n]`.
pub open spec fn next_width_of(c: CursorModel, n: u32) -> Result<TlvModel, Error> {
    match c.first() {
        Err(e) => Err(e),
        Ok(t) => if t.tag == univ(2, false) || t.tag == ctx(n) {
            Ok(t)
        } else {
            bad(DecodeReason::UnexpectedTag, t.offset)
        },
    }
}

/// The type an element holds at this depth, within the limits.
pub open spec fn type_of(t: TlvModel, limits: Limits, depth: usize) -> Result<TypeSpecModel, Error>
    decreases t.value.len(), 1nat,
    via type_shrinks
{
    let c = t.children();
    if depth > limits.max_depth {
        Err(Error::LimitExceeded { limit: "max_depth", value: depth })
    } else if t.tag.class != Class::Context {
        bad(DecodeReason::UnexpectedTag, t.offset)
    } else {
        match t.tag.number {
            0 => match c.first() {
                Err(e) => Err(e),
                Ok(n) => match name_of(n) {
                    Err(e) => Err(e),
                    Ok(ObjectNameModel::DomainSpecific { domain, item }) => Ok(
                        TypeSpecModel::Named { domain: Some(domain), item },
                    ),
                    Ok(ObjectNameModel::VmdSpecific(item)) => Ok(
                        TypeSpecModel::Named { domain: None, item },
                    ),
                    Ok(ObjectNameModel::AaSpecific(item)) => Ok(
                        TypeSpecModel::Named { domain: None, item },
                    ),
                },
            },
            1 => match c.flag(ctx(0), false) {
                Err(e) => Err(e),
                Ok(packed) => {
                    let c = c.skip_optional(ctx(0));
                    match c.unsigned32(ctx(1)) {
                        Err(e) => Err(e),
                        Ok(elements) => match c.rest().wrapped(ctx_cons(2)) {
                            Err(e) => Err(e),
                            Ok(inner) => match type_of(inner, limits, sat_add(depth, 1)) {
                                Err(e) => Err(e),
                                Ok(m) => Ok(
                                    TypeSpecModel::Array {
                                        packed,
                                        elements,
                                        element_type: Box::new(m),
                                    },
                                ),
                            },
                        },
                    }
                },
            },
            2 => match c.flag(ctx(0), false) {
                Err(e) => Err(e),
                Ok(packed) => match c.skip_optional(ctx(0)).tagged(ctx_cons(1)) {
                    Err(e) => Err(e),
                    Ok(list) => match components_of(list.children(), limits, depth, Seq::empty()) {
                        Err(e) => Err(e),
                        Ok(components) => Ok(TypeSpecModel::Structure { packed, components }),
                    },
                },
            },
            3 => Ok(TypeSpecModel::Boolean),
            4 => match t.integer32() {
                Ok(n) => Ok(TypeSpecModel::BitString(n)),
                Err(e) => Err(e),
            },
            5 => match width_of(t) {
                Ok(w) => Ok(TypeSpecModel::Integer(w)),
                Err(e) => Err(e),
            },
            6 => match width_of(t) {
                Ok(w) => Ok(TypeSpecModel::Unsigned(w)),
                Err(e) => Err(e),
            },
            7 => match next_width_of(c, 0) {
                Err(e) => Err(e),
                Ok(f) => match width_of(f) {
                    Err(e) => Err(e),
                    Ok(format_width) => match next_width_of(c.rest(), 1) {
                        Err(e) => Err(e),
                        Ok(x) => match width_of(x) {
                            Err(e) => Err(e),
                            Ok(exponent_width) => Ok(
                                TypeSpecModel::FloatingPoint { format_width, exponent_width },
                            ),
                        },
                    },
                },
            },
            9 => match t.integer32() {
                Ok(n) => Ok(TypeSpecModel::OctetString(n)),
                Err(e) => Err(e),
            },
            10 => match t.integer32() {
                Ok(n) => Ok(TypeSpecModel::VisibleString(n)),
                Err(e) => Err(e),
            },
            11 => Ok(TypeSpecModel::GeneralizedTime),
            12 => match t.boolean() {
                Ok(d) => Ok(TypeSpecModel::BinaryTime(d)),
                Err(e) => Err(e),
            },
            13 => match width_of(t) {
                Ok(n) => Ok(TypeSpecModel::Bcd(n)),
                Err(e) => Err(e),
            },
            16 => match t.integer32() {
                Ok(n) => Ok(TypeSpecModel::MmsString(n)),
                Err(e) => Err(e),
            },
            17 => Ok(TypeSpecModel::UtcTime),
            n => Ok(TypeSpecModel::Other(n)),
        }
    }
}

/// The components a cursor still holds, after `acc`.
pub open spec fn components_of(
    c: CursorModel,
    limits: Limits,
    depth: usize,
    acc: Seq<ComponentModel>,
) -> Result<Seq<ComponentModel>, Error>
    decreases c.bytes.len(), 0nat,
    via components_shrink
{
    if c.bytes.len() == 0 {
        Ok(acc)
    } else if acc.len() >= limits.max_dataset_members {
        Err(Error::LimitExceeded { limit: "max_dataset_members", value: sat_add(1, acc.len()) })
    } else {
        match c.tagged(univ(16, true)) {
            Err(e) => Err(e),
            Ok(item) => {
                let m = item.children();
                match m.opt_visible(ctx(0)) {
                    Err(e) => Err(e),
                    Ok(name) => match m.skip_optional(ctx(0)).wrapped(ctx_cons(1)) {
                        Err(e) => Err(e),
                        Ok(inner) => match type_of(inner, limits, sat_add(depth, 1)) {
                            Err(e) => Err(e),
                            Ok(type_spec) => components_of(
                                c.rest(),
                                limits,
                                depth,
                                acc.push(ComponentModel { name, type_spec }),
                            ),
                        },
                    },
                }
            },
        }
    }
}

proof fn lemma_wrapped_shrinks(c: CursorModel, tag: Tag)
    ensures
        c.wrapped(tag) matches Ok(t) ==> t.value.len() < c.bytes.len(),
{
    laws::lemma_progress(c);
    if let Ok(t) = c.tagged(tag) {
        laws::lemma_progress(t.children());
    }
}

#[via_fn]
proof fn type_shrinks(t: TlvModel, limits: Limits, depth: usize) {
    let c = t.children();
    laws::lemma_progress(c);
    let c1 = c.skip_optional(ctx(0));
    laws::lemma_progress(c1);
    lemma_wrapped_shrinks(c1.rest(), ctx_cons(2));
}

#[via_fn]
proof fn components_shrink(c: CursorModel, limits: Limits, depth: usize, acc: Seq<ComponentModel>) {
    laws::lemma_progress(c);
    if let Ok(item) = c.tagged(univ(16, true)) {
        let m = item.children();
        laws::lemma_progress(m);
        lemma_wrapped_shrinks(m.skip_optional(ctx(0)), ctx_cons(1));
    }
}

fn width(t: &Tlv<'_>) -> (r: Result<u8, Error>)
    ensures
        agrees(r, width_of(t@)),
{
    let v: u32 = t.unsigned_lenient_u32()?;
    if v <= 255 {
        Ok(v as u8)
    } else {
        Err(Error::decode(DecodeReason::BadValue, t.value_offset))
    }
}

fn next_width<'a>(c: &mut Cursor<'a>, n: u32) -> (r: Result<Tlv<'a>, Error>)
    ensures
        agrees(r, next_width_of(old(c)@, n)),
        r is Ok ==> final(c)@ == old(c)@.rest(),
{
    let t = c.next_required()?;
    if t.tag == Tag::universal(UNIVERSAL_INTEGER, false) || t.tag == Tag::context(n) {
        Ok(t)
    } else {
        Err(Error::decode(DecodeReason::UnexpectedTag, t.offset))
    }
}

/// A decoded list of components agrees with its model.
pub open spec fn agrees_components(
    r: Result<Vec<Component>, Error>,
    s: Result<Seq<ComponentModel>, Error>,
) -> bool {
    match r {
        Ok(v) => s == Ok::<Seq<ComponentModel>, Error>(views(v@)),
        Err(e) => s == Err::<Seq<ComponentModel>, Error>(e),
    }
}

impl TypeSpec {
    /// Decode one `TypeSpecification`.
    pub fn parse(t: &Tlv<'_>, limits: &Limits) -> (r: Result<TypeSpec, Error>)
        ensures
            agrees(r, type_of(t@, *limits, 0)),
    {
        TypeSpec::parse_depth(t, limits, 0)
    }

    fn parse_depth(t: &Tlv<'_>, limits: &Limits, depth: usize) -> (r: Result<TypeSpec, Error>)
        ensures
            agrees(r, type_of(t@, *limits, depth)),
        decreases t@.value.len(), 1nat,
    {
        if depth > limits.max_depth {
            return Err(Error::LimitExceeded { limit: "max_depth", value: depth });
        }
        if t.tag.class != Class::Context {
            return Err(Error::decode(DecodeReason::UnexpectedTag, t.offset));
        }
        let mut c = t.children();
        proof {
            let c1 = c@.skip_optional(ctx(0));
            laws::lemma_progress(c@);
            laws::lemma_progress(c1);
            lemma_wrapped_shrinks(c1.rest(), ctx_cons(2));
        }
        match t.tag.number {
            0 => {
                let n = c.next_required()?;
                match ObjectName::parse(&n)? {
                    ObjectName::DomainSpecific { domain, item } => Ok(
                        TypeSpec::Named { domain: Some(domain.to_owned()), item: item.to_owned() },
                    ),
                    ObjectName::VmdSpecific(n) => Ok(
                        TypeSpec::Named { domain: None, item: n.to_owned() },
                    ),
                    ObjectName::AaSpecific(n) => Ok(
                        TypeSpec::Named { domain: None, item: n.to_owned() },
                    ),
                }
            },
            1 => {
                let packed = c.next_flag(Tag::context(0), false)?;
                let elements: u32 = c.next_tag(Tag::context(1))?.unsigned_lenient_u32()?;
                let inner = c.next_tag(Tag::context_constructed(2))?.children().next_required()?;
                let m = TypeSpec::parse_depth(&inner, limits, depth.saturating_add(1))?;
                Ok(TypeSpec::Array { packed, elements, element_type: Box::new(m) })
            },
            2 => {
                let packed = c.next_flag(Tag::context(0), false)?;
                let list = c.next_tag(Tag::context_constructed(1))?;
                let components = TypeSpec::parse_components(list.children(), limits, depth)?;
                proof {
                    lemma_structure_model(packed, components);
                }
                Ok(TypeSpec::Structure { packed, components })
            },
            3 => Ok(TypeSpec::Boolean),
            4 => Ok(TypeSpec::BitString(t.integer_i32()?)),
            5 => Ok(TypeSpec::Integer(width(t)?)),
            6 => Ok(TypeSpec::Unsigned(width(t)?)),
            7 => {
                let f = next_width(&mut c, 0)?;
                let format_width: u8 = width(&f)?;
                let x = next_width(&mut c, 1)?;
                let exponent_width: u8 = width(&x)?;
                Ok(TypeSpec::FloatingPoint { format_width, exponent_width })
            },
            9 => Ok(TypeSpec::OctetString(t.integer_i32()?)),
            10 => Ok(TypeSpec::VisibleString(t.integer_i32()?)),
            11 => Ok(TypeSpec::GeneralizedTime),
            12 => Ok(TypeSpec::BinaryTime(t.boolean()?)),
            13 => Ok(TypeSpec::Bcd(width(t)?)),
            16 => Ok(TypeSpec::MmsString(t.integer_i32()?)),
            17 => Ok(TypeSpec::UtcTime),
            n => Ok(TypeSpec::Other(n)),
        }
    }

    fn parse_components(c: Cursor<'_>, limits: &Limits, depth: usize) -> (r: Result<
        Vec<Component>,
        Error,
    >)
        ensures
            agrees_components(r, components_of(c@, *limits, depth, Seq::empty())),
        decreases c@.bytes.len(), 0nat,
    {
        let mut out: Vec<Component> = Vec::new();
        let mut cur = c;
        assert(views(out@) =~= Seq::<ComponentModel>::empty());
        while !cur.is_empty()
            invariant
                cur@.bytes.len() <= c@.bytes.len(),
                components_of(c@, *limits, depth, Seq::empty()) == components_of(
                    cur@,
                    *limits,
                    depth,
                    views(out@),
                ),
            decreases cur@.bytes.len(),
        {
            if out.len() >= limits.max_dataset_members {
                return Err(
                    Error::LimitExceeded {
                        limit: "max_dataset_members",
                        value: out.len().saturating_add(1),
                    },
                );
            }
            proof {
                laws::lemma_progress(cur@);
            }
            let item = cur.next_tag(Tag::universal(UNIVERSAL_SEQUENCE, true))?;
            let mut m = item.children();
            proof {
                laws::lemma_progress(m@);
                lemma_wrapped_shrinks(m@.skip_optional(ctx(0)), ctx_cons(1));
            }
            let name = m.next_opt_visible(Tag::context(0))?;
            let inner = m.next_tag(Tag::context_constructed(1))?.children().next_required()?;
            let type_spec = TypeSpec::parse_depth(&inner, limits, depth.saturating_add(1))?;
            let name: Option<String> = match name {
                Some(n) => Some(n.to_owned()),
                None => None,
            };
            let ghost before = views(out@);
            let component = Component { name, type_spec };
            out.push(component);
            assert(views(out@) =~= before.push(component@));
        }
        Ok(out)
    }
}

// ---- encoding --------------------------------------------------------------------------

/// The object name of a named type.
pub open spec fn named_type(domain: Option<Seq<char>>, item: Seq<char>) -> ObjectNameModel {
    match domain {
        Some(domain) => ObjectNameModel::DomainSpecific { domain, item },
        None => ObjectNameModel::VmdSpecific(item),
    }
}

/// The tag a type is encoded under.
pub open spec fn type_tag(m: TypeSpecModel) -> Tag {
    match m {
        TypeSpecModel::Named { .. } => ctx_cons(0),
        TypeSpecModel::Array { .. } => ctx_cons(1),
        TypeSpecModel::Structure { .. } => ctx_cons(2),
        TypeSpecModel::Boolean => ctx(3),
        TypeSpecModel::BitString(_) => ctx(4),
        TypeSpecModel::Integer(_) => ctx(5),
        TypeSpecModel::Unsigned(_) => ctx(6),
        TypeSpecModel::FloatingPoint { .. } => ctx_cons(7),
        TypeSpecModel::OctetString(_) => ctx(9),
        TypeSpecModel::VisibleString(_) => ctx(10),
        TypeSpecModel::GeneralizedTime => ctx(11),
        TypeSpecModel::BinaryTime(_) => ctx(12),
        TypeSpecModel::Bcd(_) => ctx(13),
        TypeSpecModel::MmsString(_) => ctx(16),
        TypeSpecModel::UtcTime => ctx(17),
        TypeSpecModel::Other(n) => ctx(n),
    }
}

/// The contents octets of a type.
pub open spec fn type_contents(m: TypeSpecModel) -> Seq<u8>
    decreases m, 0nat,
{
    match m {
        TypeSpecModel::Named { domain, item } => name_bytes(named_type(domain, item)),
        TypeSpecModel::Array { packed, elements, element_type } => flag_bytes(ctx(0), packed, false)
            + (tlv(ctx(1), sint_octets(elements as int)) + tlv(
            ctx_cons(2),
            tlv(type_tag(*element_type), type_contents(*element_type)),
        )),
        TypeSpecModel::Structure { packed, components } => flag_bytes(ctx(0), packed, false) + tlv(
            ctx_cons(1),
            components_from(components, 0),
        ),
        TypeSpecModel::Boolean => Seq::empty(),
        TypeSpecModel::BitString(n) => sint_octets(n as int),
        TypeSpecModel::Integer(w) => sint_octets(w as int),
        TypeSpecModel::Unsigned(w) => sint_octets(w as int),
        TypeSpecModel::FloatingPoint { format_width, exponent_width } => tlv(
            univ(2, false),
            sint_octets(format_width as int),
        ) + tlv(univ(2, false), sint_octets(exponent_width as int)),
        TypeSpecModel::OctetString(n) => sint_octets(n as int),
        TypeSpecModel::VisibleString(n) => sint_octets(n as int),
        TypeSpecModel::GeneralizedTime => Seq::empty(),
        TypeSpecModel::BinaryTime(d) => bool_octets(d),
        TypeSpecModel::Bcd(n) => sint_octets(n as int),
        TypeSpecModel::MmsString(n) => sint_octets(n as int),
        TypeSpecModel::UtcTime => Seq::empty(),
        TypeSpecModel::Other(_) => Seq::empty(),
    }
}

/// The encoding of the components from index `i` on.
pub open spec fn components_from(s: Seq<ComponentModel>, i: nat) -> Seq<u8>
    decreases s, s.len() - i,
{
    if i < s.len() {
        tlv(
            univ(16, true),
            opt_text_bytes(ctx(0), s[i as int].name) + tlv(
                ctx_cons(1),
                tlv(type_tag(s[i as int].type_spec), type_contents(s[i as int].type_spec)),
            ),
        ) + components_from(s, i + 1)
    } else {
        Seq::empty()
    }
}

/// The encoding of a type.
pub open spec fn type_bytes(m: TypeSpecModel) -> Seq<u8> {
    tlv(type_tag(m), type_contents(m))
}

/// Why a type has no encoding: a name that is not ASCII.
pub open spec fn type_fault(m: TypeSpecModel) -> Option<Error>
    decreases m, 0nat,
{
    match m {
        TypeSpecModel::Named { domain, item } => name_fault(named_type(domain, item)),
        TypeSpecModel::Array { element_type, .. } => type_fault(*element_type),
        TypeSpecModel::Structure { components, .. } => components_fault_from(components, 0),
        _ => None,
    }
}

/// The first fault of the components from index `i` on.
pub open spec fn components_fault_from(s: Seq<ComponentModel>, i: nat) -> Option<Error>
    decreases s, s.len() - i,
{
    if i < s.len() {
        first_fault(
            opt_text_fault(s[i as int].name),
            first_fault(type_fault(s[i as int].type_spec), components_fault_from(s, i + 1)),
        )
    } else {
        None
    }
}

impl TypeSpec {
    /// Encode this type specification into `e`.
    pub fn write(&self, e: &mut Encoder) -> (r: Result<(), Error>)
        ensures
            wrote(r, old(e)@, final(e)@, type_fault(self@), type_bytes(self@)),
        decreases self, 0nat,
    {
        match self {
            TypeSpec::Named { domain, item } => {
                let mut body = Encoder::new();
                let name = match domain {
                    Some(d) => ObjectName::DomainSpecific {
                        domain: d.as_str(),
                        item: item.as_str(),
                    },
                    None => ObjectName::VmdSpecific(item.as_str()),
                };
                name.write(&mut body)?;
                assert(body@ =~= type_contents(self@));
                e.constructed(Tag::context_constructed(0), &body);
            },
            TypeSpec::Array { packed, elements, element_type } => {
                let mut inner = Encoder::new();
                element_type.write(&mut inner)?;
                assert(inner@ =~= type_bytes(element_type@));
                let mut body = Encoder::new();
                body.flag(Tag::context(0), *packed, false);
                body.unsigned(Tag::context(1), *elements as u64);
                body.constructed(Tag::context_constructed(2), &inner);
                assert(body@ =~= type_contents(self@));
                e.constructed(Tag::context_constructed(1), &body);
            },
            TypeSpec::Structure { packed, components } => {
                proof {
                    lemma_structure_model(*packed, *components);
                }
                let list = TypeSpec::write_components(components)?;
                let mut body = Encoder::new();
                body.flag(Tag::context(0), *packed, false);
                body.constructed(Tag::context_constructed(1), &list);
                assert(body@ =~= type_contents(self@));
                e.constructed(Tag::context_constructed(2), &body);
            },
            TypeSpec::Boolean => e.null(Tag::context(tag::BOOLEAN)),
            TypeSpec::BitString(n) => e.integer(Tag::context(tag::BIT_STRING), *n as i64),
            TypeSpec::Integer(w) => e.unsigned(Tag::context(tag::INTEGER), *w as u64),
            TypeSpec::Unsigned(w) => e.unsigned(Tag::context(tag::UNSIGNED), *w as u64),
            TypeSpec::FloatingPoint { format_width, exponent_width } => {
                let mut body = Encoder::new();
                body.unsigned(Tag::universal(UNIVERSAL_INTEGER, false), *format_width as u64);
                body.unsigned(Tag::universal(UNIVERSAL_INTEGER, false), *exponent_width as u64);
                assert(body@ =~= type_contents(self@));
                e.constructed(Tag::context_constructed(tag::FLOATING_POINT), &body);
            },
            TypeSpec::OctetString(n) => e.integer(Tag::context(tag::OCTET_STRING), *n as i64),
            TypeSpec::VisibleString(n) => e.integer(Tag::context(tag::VISIBLE_STRING), *n as i64),
            TypeSpec::GeneralizedTime => e.null(Tag::context(tag::GENERALIZED_TIME)),
            TypeSpec::BinaryTime(dated) => e.boolean(Tag::context(tag::BINARY_TIME), *dated),
            TypeSpec::Bcd(n) => e.unsigned(Tag::context(tag::BCD), *n as u64),
            TypeSpec::MmsString(n) => e.integer(Tag::context(tag::MMS_STRING), *n as i64),
            TypeSpec::UtcTime => e.null(Tag::context(tag::UTC_TIME)),
            TypeSpec::Other(n) => e.null(Tag::context(*n)),
        }
        Ok(())
    }

    fn write_components(components: &Vec<Component>) -> (r: Result<Encoder, Error>)
        ensures
            match components_fault_from(views(components@), 0) {
                None => r matches Ok(e) && e@ == components_from(views(components@), 0),
                Some(f) => r == Err::<Encoder, Error>(f),
            },
        decreases components, 0nat,
    {
        let mut e = Encoder::new();
        let ghost all = views(components@);
        let mut i: usize = 0;
        while i < components.len()
            invariant
                i <= components.len(),
                all == views(components@),
                e@ + components_from(all, i as nat) == components_from(all, 0),
                components_fault_from(all, 0) == components_fault_from(all, i as nat),
            decreases components.len() - i,
        {
            let ghost before = e@;
            assert(all[i as int] == components@[i as int]@);
            assert(decreases_to!(*components => components@[i as int].type_spec)) by {
                assert(decreases_to!(*components => components@[i as int]));
            }
            let mut item = Encoder::new();
            item.opt_visible_string(Tag::context(0), opt_str(&components[i].name))?;
            let mut inner = Encoder::new();
            components[i].type_spec.write(&mut inner)?;
            assert(inner@ =~= type_bytes(all[i as int].type_spec));
            item.constructed(Tag::context_constructed(1), &inner);
            let ghost contents = opt_text_bytes(ctx(0), all[i as int].name) + tlv(
                ctx_cons(1),
                type_bytes(all[i as int].type_spec),
            );
            assert(item@ =~= contents);
            e.constructed(Tag::universal(UNIVERSAL_SEQUENCE, true), &item);
            proof {
                let rest = components_from(all, (i + 1) as nat);
                assert(e@ + rest =~= before + (tlv(univ(16, true), contents) + rest));
            }
            i += 1;
        }
        assert(e@ + components_from(all, i as nat) =~= e@);
        Ok(e)
    }

    /// The component with this name, for a structure.
    pub fn component(&self, name: &str) -> (r: Option<&TypeSpec>)
        ensures
            match (self@, r) {
                (TypeSpecModel::Structure { components, .. }, Some(t)) => find_component(
                    components,
                    name@,
                    0,
                ) == Some(t@),
                (TypeSpecModel::Structure { components, .. }, None) => find_component(
                    components,
                    name@,
                    0,
                ) is None,
                (_, r) => r is None,
            },
    {
        match self {
            TypeSpec::Structure { packed, components } => {
                proof {
                    lemma_structure_model(*packed, *components);
                }
                let want = name.to_owned();
                let mut i: usize = 0;
                while i < components.len()
                    invariant
                        i <= components.len(),
                        want@ == name@,
                        self@ == (TypeSpecModel::Structure {
                            packed: *packed,
                            components: views(components@),
                        }),
                        find_component(views(components@), name@, 0) == find_component(
                            views(components@),
                            name@,
                            i as nat,
                        ),
                    decreases components.len() - i,
                {
                    if let Some(n) = &components[i].name {
                        if *n == want {
                            return Some(&components[i].type_spec);
                        }
                    }
                    i += 1;
                }
                None
            },
            _ => None,
        }
    }

    /// The component names of a structure, in order.
    pub fn component_names(&self) -> (r: Vec<&str>)
        ensures
            views(r@) == (match self@ {
                TypeSpecModel::Structure { components, .. } => names_from(components, 0),
                _ => Seq::empty(),
            }),
    {
        let mut out: Vec<&str> = Vec::new();
        assert(views(out@) =~= Seq::<Seq<char>>::empty());
        match self {
            TypeSpec::Structure { packed, components } => {
                proof {
                    lemma_structure_model(*packed, *components);
                }
                let mut i: usize = 0;
                let ghost all = views(components@);
                assert(views(out@) + names_from(all, 0) =~= names_from(all, 0));
                while i < components.len()
                    invariant
                        i <= components.len(),
                        all == views(components@),
                        views(out@) + names_from(all, i as nat) == names_from(all, 0),
                    decreases components.len() - i,
                {
                    let ghost before = views(out@);
                    if let Some(n) = &components[i].name {
                        let s = n.as_str();
                        out.push(s);
                        assert(views(out@) =~= before.push(s@));
                        proof {
                            let rest = names_from(all, (i + 1) as nat);
                            assert(before.push(s@) + rest =~= before + (seq![s@] + rest));
                        }
                    }
                    i += 1;
                }
                assert(views(out@) + names_from(all, i as nat) =~= views(out@));
                out
            },
            _ => out,
        }
    }
}

/// Copies of a list of components.
pub fn duplicate_components(components: &Vec<Component>) -> (r: Vec<Component>)
    ensures
        views(r@) == views(components@),
    decreases components,
{
    let mut out: Vec<Component> = Vec::new();
    let mut i: usize = 0;
    while i < components.len()
        invariant
            i <= components.len(),
            out@.len() == i,
            forall|j: int| 0 <= j < i ==> out@[j]@ == components@[j]@,
        decreases components.len() - i,
    {
        let c = components[i].duplicate();
        out.push(c);
        i += 1;
    }
    assert(views(out@) =~= views(components@));
    out
}

impl Component {
    /// A copy of this component.
    pub fn duplicate(&self) -> (r: Component)
        ensures
            r@ == self@,
        decreases self,
    {
        Component { name: duplicate_text(&self.name), type_spec: self.type_spec.duplicate() }
    }
}

impl TypeSpec {
    /// A copy of this type.
    pub fn duplicate(&self) -> (r: TypeSpec)
        ensures
            r@ == self@,
        decreases self,
    {
        match self {
            TypeSpec::Named { domain, item } => TypeSpec::Named {
                domain: duplicate_text(domain),
                item: item.clone(),
            },
            TypeSpec::Array { packed, elements, element_type } => TypeSpec::Array {
                packed: *packed,
                elements: *elements,
                element_type: Box::new(element_type.duplicate()),
            },
            TypeSpec::Structure { packed, components } => {
                let out = duplicate_components(components);
                proof {
                    lemma_structure_model(*packed, out);
                    lemma_structure_model(*packed, *components);
                }
                TypeSpec::Structure { packed: *packed, components: out }
            },
            TypeSpec::Boolean => TypeSpec::Boolean,
            TypeSpec::BitString(n) => TypeSpec::BitString(*n),
            TypeSpec::Integer(w) => TypeSpec::Integer(*w),
            TypeSpec::Unsigned(w) => TypeSpec::Unsigned(*w),
            TypeSpec::FloatingPoint { format_width, exponent_width } => TypeSpec::FloatingPoint {
                format_width: *format_width,
                exponent_width: *exponent_width,
            },
            TypeSpec::OctetString(n) => TypeSpec::OctetString(*n),
            TypeSpec::VisibleString(n) => TypeSpec::VisibleString(*n),
            TypeSpec::GeneralizedTime => TypeSpec::GeneralizedTime,
            TypeSpec::BinaryTime(d) => TypeSpec::BinaryTime(*d),
            TypeSpec::Bcd(n) => TypeSpec::Bcd(*n),
            TypeSpec::MmsString(n) => TypeSpec::MmsString(*n),
            TypeSpec::UtcTime => TypeSpec::UtcTime,
            TypeSpec::Other(n) => TypeSpec::Other(*n),
        }
    }
}

impl Clone for TypeSpec {
    fn clone(&self) -> (r: TypeSpec)
        ensures
            r@ == self@,
    {
        self.duplicate()
    }
}

impl Clone for Component {
    fn clone(&self) -> (r: Component)
        ensures
            r@ == self@,
    {
        self.duplicate()
    }
}

/// The first component from index `i` on with this name.
pub open spec fn find_component(s: Seq<ComponentModel>, name: Seq<char>, i: nat) -> Option<
    TypeSpecModel,
>
    decreases s.len() - i,
{
    if i < s.len() {
        if s[i as int].name == Some(name) {
            Some(s[i as int].type_spec)
        } else {
            find_component(s, name, i + 1)
        }
    } else {
        None
    }
}

/// The names of the components from index `i` on that have one.
pub open spec fn names_from(s: Seq<ComponentModel>, i: nat) -> Seq<Seq<char>>
    decreases s.len() - i,
{
    if i < s.len() {
        match s[i as int].name {
            Some(n) => seq![n] + names_from(s, i + 1),
            None => names_from(s, i + 1),
        }
    } else {
        Seq::empty()
    }
}

// ---- laws ------------------------------------------------------------------------------

/// Whether a decoder with these limits takes a type at this depth.
pub open spec fn type_fits(m: TypeSpecModel, limits: Limits, depth: usize) -> bool
    decreases m,
{
    depth <= limits.max_depth && match m {
        TypeSpecModel::Array { element_type, .. } => type_fits(
            *element_type,
            limits,
            sat_add(depth, 1),
        ),
        TypeSpecModel::Structure { components, .. } => components.len()
            <= limits.max_dataset_members && forall|i: int|
            0 <= i < components.len() ==> type_fits(
                (#[trigger] components[i]).type_spec,
                limits,
                sat_add(depth, 1),
            ),
        TypeSpecModel::Other(n) => n == 8 || n == 14 || n == 15 || n > 17,
        _ => true,
    }
}

/// A type that has an encoding and stays within the limits reads back as it was.
pub proof fn lemma_type_round_trip(m: TypeSpecModel, limits: Limits, depth: usize, offset: usize)
    requires
        type_fault(m) is None,
        type_fits(m, limits, depth),
        type_bytes(m).len() <= u64::MAX,
    ensures
        type_of(laws::element_at(type_tag(m), type_contents(m), offset), limits, depth) == Ok::<
            TypeSpecModel,
            Error,
        >(m),
    decreases m, 0nat,
{
    broadcast use laws::lemma_tlv_len;

    let t = laws::element_at(type_tag(m), type_contents(m), offset);
    let c = t.children();
    match m {
        TypeSpecModel::Named { domain, item } => {
            let n = named_type(domain, item);
            laws::lemma_only(name_tag(n), name_contents(n), c.offset);
            lemma_name_round_trip(n, c.offset);
        },
        TypeSpecModel::Array { packed, elements, element_type } => {
            let inner = *element_type;
            let last = tlv(ctx_cons(2), type_bytes(inner));
            let rest = tlv(ctx(1), sint_octets(elements as int)) + last;
            laws::lemma_unsigned_field(ctx(1), elements as u64, 0);
            laws::lemma_lacks(ctx(1), sint_octets(elements as int), last, ctx(0));
            laws::lemma_flag(ctx(0), packed, false, rest, c.offset);
            let c1 = c.skip_optional(ctx(0));
            laws::lemma_unsigned32(ctx(1), elements, last, c1.offset);
            let c2 = c1.rest();
            assert(last + Seq::empty() =~= last);
            laws::lemma_wrapped(
                ctx_cons(2),
                type_tag(inner),
                type_contents(inner),
                Seq::empty(),
                c2.offset,
            );
            let at = laws::element_at(ctx_cons(2), type_bytes(inner), c2.offset).value_offset;
            lemma_type_round_trip(inner, limits, sat_add(depth, 1), at);
        },
        TypeSpecModel::Structure { packed, components } => {
            let list = components_from(components, 0);
            let rest = tlv(ctx_cons(1), list);
            assert(rest + Seq::empty() =~= rest);
            laws::lemma_lacks(ctx_cons(1), list, Seq::empty(), ctx(0));
            laws::lemma_flag(ctx(0), packed, false, rest, c.offset);
            let c1 = c.skip_optional(ctx(0));
            laws::lemma_only(ctx_cons(1), list, c1.offset);
            let at = laws::element_at(ctx_cons(1), list, c1.offset).value_offset;
            lemma_components_round_trip(components, 0, limits, depth, at, Seq::empty());
            assert(Seq::<ComponentModel>::empty() + components.skip(0) =~= components);
        },
        TypeSpecModel::BitString(n) => laws::lemma_integer_field(ctx(4), n as i64, offset),
        TypeSpecModel::Integer(w) => laws::lemma_unsigned_field(ctx(5), w as u64, offset),
        TypeSpecModel::Unsigned(w) => laws::lemma_unsigned_field(ctx(6), w as u64, offset),
        TypeSpecModel::FloatingPoint { format_width, exponent_width } => {
            let f = sint_octets(format_width as int);
            let x = sint_octets(exponent_width as int);
            let it = univ(2, false);
            laws::lemma_unsigned_field(it, format_width as u64, c.offset);
            laws::lemma_first(it, f, tlv(it, x), c.offset);
            let c1 = c.rest();
            laws::lemma_unsigned_field(it, exponent_width as u64, c1.offset);
            laws::lemma_only(it, x, c1.offset);
        },
        TypeSpecModel::OctetString(n) => laws::lemma_integer_field(ctx(9), n as i64, offset),
        TypeSpecModel::VisibleString(n) => laws::lemma_integer_field(ctx(10), n as i64, offset),
        TypeSpecModel::Bcd(n) => laws::lemma_unsigned_field(ctx(13), n as u64, offset),
        TypeSpecModel::MmsString(n) => laws::lemma_integer_field(ctx(16), n as i64, offset),
        _ => {},
    }
}

proof fn lemma_components_round_trip(
    s: Seq<ComponentModel>,
    i: nat,
    limits: Limits,
    depth: usize,
    offset: usize,
    acc: Seq<ComponentModel>,
)
    requires
        i <= s.len(),
        components_fault_from(s, i) is None,
        acc.len() + s.len() - i <= limits.max_dataset_members,
        forall|j: int|
            i <= j < s.len() ==> type_fits(
                (#[trigger] s[j]).type_spec,
                limits,
                sat_add(depth, 1),
            ),
        components_from(s, i).len() <= u64::MAX,
    ensures
        components_of(
            CursorModel { bytes: components_from(s, i), offset },
            limits,
            depth,
            acc,
        ) == Ok::<Seq<ComponentModel>, Error>(acc + s.skip(i as int)),
    decreases s, s.len() - i,
{
    broadcast use laws::lemma_tlv_len;

    if i < s.len() {
        let v = s[i as int];
        let inner = type_bytes(v.type_spec);
        let typed = tlv(ctx_cons(1), inner);
        let item = opt_text_bytes(ctx(0), v.name) + typed;
        let rest = components_from(s, i + 1);
        laws::lemma_first(univ(16, true), item, rest, offset);
        let m = laws::element_at(univ(16, true), item, offset).children();
        assert(typed + Seq::empty() =~= typed);
        laws::lemma_lacks(ctx_cons(1), inner, Seq::empty(), ctx(0));
        laws::lemma_opt_text(ctx(0), v.name, typed, m.offset);
        let m1 = m.skip_optional(ctx(0));
        laws::lemma_wrapped(
            ctx_cons(1),
            type_tag(v.type_spec),
            type_contents(v.type_spec),
            Seq::empty(),
            m1.offset,
        );
        let at = laws::element_at(ctx_cons(1), inner, m1.offset).value_offset;
        lemma_type_round_trip(v.type_spec, limits, sat_add(depth, 1), at);
        let next = laws::cursor_after(univ(16, true), item, rest, offset);
        lemma_components_round_trip(s, i + 1, limits, depth, next.offset, acc.push(v));
        assert(acc.push(v) + s.skip(i + 1int) =~= acc + s.skip(i as int));
    } else {
        assert(acc + s.skip(i as int) =~= acc);
    }
}

proof fn lemma_components_faultless(s: Seq<ComponentModel>, i: nat)
    requires
        forall|j: int|
            0 <= j < s.len() ==> opt_text_fault((#[trigger] s[j]).name) is None && type_fault(
                s[j].type_spec,
            ) is None,
    ensures
        components_fault_from(s, i) is None,
    decreases s.len() - i,
{
    if i < s.len() {
        assert(opt_text_fault(s[i as int].name) is None);
        lemma_components_faultless(s, i + 1);
    }
}

/// A type that was decoded has an encoding, and reads back.
pub proof fn lemma_type_decoded(t: TlvModel, limits: Limits, depth: usize)
    ensures
        type_of(t, limits, depth) matches Ok(m) ==> type_fault(m) is None && type_fits(
            m,
            limits,
            depth,
        ),
    decreases t.value.len(), 1nat,
{
    if depth <= limits.max_depth && t.tag.class == Class::Context {
        let c = t.children();
        laws::lemma_progress(c);
        let c1 = c.skip_optional(ctx(0));
        laws::lemma_progress(c1);
        if t.tag.number == 0 {
            if let Ok(n) = c.first() {
                lemma_name_decoded(n);
            }
        } else if t.tag.number == 1 {
            if c.flag(ctx(0), false) is Ok && c1.unsigned32(ctx(1)) is Ok {
                lemma_wrapped_shrinks(c1.rest(), ctx_cons(2));
                if let Ok(inner) = c1.rest().wrapped(ctx_cons(2)) {
                    lemma_type_decoded(inner, limits, sat_add(depth, 1));
                }
            }
        } else if t.tag.number == 2 {
            if let Ok(list) = c1.tagged(ctx_cons(1)) {
                lemma_components_decoded(list.children(), limits, depth, Seq::empty());
            }
        }
    }
}

proof fn lemma_components_decoded(
    c: CursorModel,
    limits: Limits,
    depth: usize,
    acc: Seq<ComponentModel>,
)
    requires
        acc.len() <= limits.max_dataset_members,
        forall|j: int|
            0 <= j < acc.len() ==> opt_text_fault((#[trigger] acc[j]).name) is None && type_fault(
                acc[j].type_spec,
            ) is None && type_fits(acc[j].type_spec, limits, sat_add(depth, 1)),
    ensures
        components_of(c, limits, depth, acc) matches Ok(s) ==> {
            &&& components_fault_from(s, 0) is None
            &&& s.len() <= limits.max_dataset_members
            &&& forall|j: int|
                0 <= j < s.len() ==> type_fits(
                    (#[trigger] s[j]).type_spec,
                    limits,
                    sat_add(depth, 1),
                )
        },
    decreases c.bytes.len(), 0nat,
{
    if c.bytes.len() == 0 {
        lemma_components_faultless(acc, 0);
    } else if acc.len() < limits.max_dataset_members {
        laws::lemma_progress(c);
        if let Ok(item) = c.tagged(univ(16, true)) {
            let m = item.children();
            laws::lemma_progress(m);
            laws::lemma_opt_visible_decoded(m, ctx(0));
            lemma_wrapped_shrinks(m.skip_optional(ctx(0)), ctx_cons(1));
            if let Ok(name) = m.opt_visible(ctx(0)) {
                if let Ok(inner) = m.skip_optional(ctx(0)).wrapped(ctx_cons(1)) {
                    lemma_type_decoded(inner, limits, sat_add(depth, 1));
                    if let Ok(type_spec) = type_of(inner, limits, sat_add(depth, 1)) {
                        lemma_components_decoded(
                            c.rest(),
                            limits,
                            depth,
                            acc.push(ComponentModel { name, type_spec }),
                        );
                    }
                }
            }
        }
    }
}

/// How many arrays and structures enclose the deepest type inside a type.
pub open spec fn nesting(m: TypeSpecModel) -> nat
    decreases m, 0nat,
{
    match m {
        TypeSpecModel::Array { element_type, .. } => 1 + nesting(*element_type),
        TypeSpecModel::Structure { components, .. } => nesting_from(components, 0),
        _ => 0,
    }
}

/// How many of them enclose the deepest type inside the components from index `i` on.
pub open spec fn nesting_from(s: Seq<ComponentModel>, i: nat) -> nat
    decreases s, s.len() - i,
{
    if i < s.len() {
        let here = 1 + nesting(s[i as int].type_spec);
        let later = nesting_from(s, i + 1);
        if here >= later {
            here
        } else {
            later
        }
    } else {
        0
    }
}

/// Whether every structure inside a type has few enough components, and every kept type no
/// variant of its own.
pub open spec fn modelled(m: TypeSpecModel, limits: Limits) -> bool
    decreases m,
{
    match m {
        TypeSpecModel::Array { element_type, .. } => modelled(*element_type, limits),
        TypeSpecModel::Structure { components, .. } => components.len()
            <= limits.max_dataset_members && forall|i: int|
            0 <= i < components.len() ==> modelled((#[trigger] components[i]).type_spec, limits),
        TypeSpecModel::Other(n) => n == 8 || n == 14 || n == 15 || n > 17,
        _ => true,
    }
}

proof fn lemma_nesting_within(s: Seq<ComponentModel>, i: nat, j: int)
    requires
        i <= j < s.len(),
    ensures
        1 + nesting(s[j].type_spec) <= nesting_from(s, i),
    decreases s.len() - i,
{
    if i < j {
        lemma_nesting_within(s, i + 1, j);
    }
}

/// A type that nests within the limits fits them.
proof fn lemma_nesting_fits(m: TypeSpecModel, limits: Limits, depth: usize)
    requires
        modelled(m, limits),
        depth + nesting(m) <= limits.max_depth,
    ensures
        type_fits(m, limits, depth),
    decreases m,
{
    match m {
        TypeSpecModel::Array { element_type, .. } => lemma_nesting_fits(
            *element_type,
            limits,
            sat_add(depth, 1),
        ),
        TypeSpecModel::Structure { components, .. } => {
            assert forall|i: int| 0 <= i < components.len() implies type_fits(
                (#[trigger] components[i]).type_spec,
                limits,
                sat_add(depth, 1),
            ) by {
                lemma_nesting_within(components, 0, i);
                lemma_nesting_fits(components[i].type_spec, limits, sat_add(depth, 1));
            }
        },
        _ => {},
    }
}

proof fn lemma_type_refused(m: TypeSpecModel, limits: Limits, depth: usize, offset: usize)
    requires
        type_fault(m) is None,
        modelled(m, limits),
        type_bytes(m).len() <= u64::MAX,
        depth <= limits.max_depth + 1,
        limits.max_depth < usize::MAX,
        depth + nesting(m) > limits.max_depth,
    ensures
        type_of(laws::element_at(type_tag(m), type_contents(m), offset), limits, depth)
            == too_deep::<TypeSpecModel>(limits),
    decreases m, 0nat,
{
    broadcast use laws::lemma_tlv_len;

    let t = laws::element_at(type_tag(m), type_contents(m), offset);
    let c = t.children();
    if depth <= limits.max_depth {
        match m {
            TypeSpecModel::Array { packed, elements, element_type } => {
                let inner = *element_type;
                let last = tlv(ctx_cons(2), type_bytes(inner));
                let rest = tlv(ctx(1), sint_octets(elements as int)) + last;
                laws::lemma_unsigned_field(ctx(1), elements as u64, 0);
                laws::lemma_lacks(ctx(1), sint_octets(elements as int), last, ctx(0));
                laws::lemma_flag(ctx(0), packed, false, rest, c.offset);
                let c1 = c.skip_optional(ctx(0));
                laws::lemma_unsigned32(ctx(1), elements, last, c1.offset);
                let c2 = c1.rest();
                assert(last + Seq::empty() =~= last);
                laws::lemma_wrapped(
                    ctx_cons(2),
                    type_tag(inner),
                    type_contents(inner),
                    Seq::empty(),
                    c2.offset,
                );
                let at = laws::element_at(ctx_cons(2), type_bytes(inner), c2.offset).value_offset;
                lemma_type_refused(inner, limits, sat_add(depth, 1), at);
            },
            TypeSpecModel::Structure { packed, components } => {
                let list = components_from(components, 0);
                let rest = tlv(ctx_cons(1), list);
                assert(rest + Seq::empty() =~= rest);
                laws::lemma_lacks(ctx_cons(1), list, Seq::empty(), ctx(0));
                laws::lemma_flag(ctx(0), packed, false, rest, c.offset);
                let c1 = c.skip_optional(ctx(0));
                laws::lemma_only(ctx_cons(1), list, c1.offset);
                let at = laws::element_at(ctx_cons(1), list, c1.offset).value_offset;
                lemma_components_refused(components, 0, limits, depth, at, Seq::empty());
            },
            _ => {},
        }
    }
}

proof fn lemma_components_refused(
    s: Seq<ComponentModel>,
    i: nat,
    limits: Limits,
    depth: usize,
    offset: usize,
    acc: Seq<ComponentModel>,
)
    requires
        i <= s.len(),
        components_fault_from(s, i) is None,
        acc.len() + s.len() - i <= limits.max_dataset_members,
        forall|j: int| i <= j < s.len() ==> modelled((#[trigger] s[j]).type_spec, limits),
        components_from(s, i).len() <= u64::MAX,
        depth <= limits.max_depth < usize::MAX,
        depth + nesting_from(s, i) > limits.max_depth,
    ensures
        components_of(
            CursorModel { bytes: components_from(s, i), offset },
            limits,
            depth,
            acc,
        ) == too_deep::<Seq<ComponentModel>>(limits),
    decreases s, s.len() - i,
{
    broadcast use laws::lemma_tlv_len;

    let v = s[i as int];
    let inner = type_bytes(v.type_spec);
    let typed = tlv(ctx_cons(1), inner);
    let item = opt_text_bytes(ctx(0), v.name) + typed;
    let rest = components_from(s, i + 1);
    laws::lemma_first(univ(16, true), item, rest, offset);
    let m = laws::element_at(univ(16, true), item, offset).children();
    assert(typed + Seq::empty() =~= typed);
    laws::lemma_lacks(ctx_cons(1), inner, Seq::empty(), ctx(0));
    laws::lemma_opt_text(ctx(0), v.name, typed, m.offset);
    let m1 = m.skip_optional(ctx(0));
    laws::lemma_wrapped(
        ctx_cons(1),
        type_tag(v.type_spec),
        type_contents(v.type_spec),
        Seq::empty(),
        m1.offset,
    );
    let at = laws::element_at(ctx_cons(1), inner, m1.offset).value_offset;
    let below = sat_add(depth, 1);
    if below + nesting(v.type_spec) > limits.max_depth {
        lemma_type_refused(v.type_spec, limits, below, at);
    } else {
        lemma_nesting_fits(v.type_spec, limits, below);
        lemma_type_round_trip(v.type_spec, limits, below, at);
        let next = laws::cursor_after(univ(16, true), item, rest, offset);
        lemma_components_refused(s, i + 1, limits, depth, next.offset, acc.push(v));
    }
}

/// A type that has an encoding reads back as it was if it nests no deeper than the limits allow,
/// and is refused for its depth if it nests deeper.
pub proof fn lemma_type_limit(m: TypeSpecModel, limits: Limits, offset: usize)
    requires
        type_fault(m) is None,
        modelled(m, limits),
        type_bytes(m).len() <= u64::MAX,
        nesting(m) <= limits.max_depth || limits.max_depth < usize::MAX,
    ensures
        type_of(laws::element_at(type_tag(m), type_contents(m), offset), limits, 0) == if nesting(m)
            <= limits.max_depth {
            Ok::<TypeSpecModel, Error>(m)
        } else {
            too_deep(limits)
        },
{
    if nesting(m) <= limits.max_depth {
        lemma_nesting_fits(m, limits, 0);
        lemma_type_round_trip(m, limits, 0, offset);
    } else {
        lemma_type_refused(m, limits, 0, offset);
    }
}

} // verus!
