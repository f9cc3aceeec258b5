//! Object names and the scopes they are looked up in.

use vstd::prelude::*;
use vstd::utf8::*;
use crate::ber::laws;
use crate::ber::list::Element;
use crate::ber::{
    bad, ctx, ctx_cons, first_fault, octets_of, text_fault, tlv, univ, wrote, Class, Encoder, Tag,
    Tlv, TlvModel, UNIVERSAL_VISIBLE_STRING,
};
use crate::common::{agrees, DecodeReason, Error, Limits};

verus! {

/// `Identifier ::= VisibleString`.
pub open spec fn identifier_tag() -> Tag {
    univ(26, false)
}

/// The tag of an `Identifier`.
pub fn tag_identifier() -> (r: Tag)
    ensures
        r == identifier_tag(),
{
    Tag::universal(UNIVERSAL_VISIBLE_STRING, false)
}

/// `ObjectName ::= CHOICE { vmd-specific [0], domain-specific [1], aa-specific [2] }`.
#[derive(Clone, Copy, Debug, PartialEq, Eq)]
pub enum ObjectName<'a> {
    /// A name in the VMD's own scope.
    VmdSpecific(&'a str),
    /// A name in a domain: the logical device and the object below it.
    DomainSpecific {
        /// The domain, which is the logical device name.
        domain: &'a str,
        /// The item, which is `LN$FC$DO$DA`.
        item: &'a str,
    },
    /// A name private to this association.
    AaSpecific(&'a str),
}

/// What an [`ObjectName`] stands for.
pub enum ObjectNameModel {
    VmdSpecific(Seq<char>),
    DomainSpecific { domain: Seq<char>, item: Seq<char> },
    AaSpecific(Seq<char>),
}

impl<'a> View for ObjectName<'a> {
    type V = ObjectNameModel;

    open spec fn view(&self) -> ObjectNameModel {
        match *self {
            ObjectName::VmdSpecific(s) => ObjectNameModel::VmdSpecific(s@),
            ObjectName::DomainSpecific { domain, item } => ObjectNameModel::DomainSpecific {
                domain: domain@,
                item: item@,
            },
            ObjectName::AaSpecific(s) => ObjectNameModel::AaSpecific(s@),
        }
    }
}

/// The name an element holds.
pub open spec fn name_of(t: TlvModel) -> Result<ObjectNameModel, Error> {
    if t.tag.class != Class::Context {
        bad(DecodeReason::UnexpectedTag, t.offset)
    } else if t.tag.number == 0 {
        match t.visible() {
            Ok(s) => Ok(ObjectNameModel::VmdSpecific(s)),
            Err(e) => Err(e),
        }
    } else if t.tag.number == 1 {
        let c = t.children();
        match c.tagged(identifier_tag()) {
            Err(e) => Err(e),
            Ok(d) => match d.visible() {
                Err(e) => Err(e),
                Ok(domain) => match c.rest().tagged(identifier_tag()) {
                    Err(e) => Err(e),
                    Ok(i) => match i.visible() {
                        Err(e) => Err(e),
                        Ok(item) => Ok(ObjectNameModel::DomainSpecific { domain, item }),
                    },
                },
            },
        }
    } else if t.tag.number == 2 {
        match t.visible() {
            Ok(s) => Ok(ObjectNameModel::AaSpecific(s)),
            Err(e) => Err(e),
        }
    } else {
        bad(DecodeReason::UnexpectedTag, t.offset)
    }
}

/// The tag a name is encoded under.
pub open spec fn name_tag(n: ObjectNameModel) -> Tag {
    match n {
        ObjectNameModel::VmdSpecific(_) => ctx(0),
        ObjectNameModel::DomainSpecific { .. } => ctx_cons(1),
        ObjectNameModel::AaSpecific(_) => ctx(2),
    }
}

/// The contents octets of a name.
pub open spec fn name_contents(n: ObjectNameModel) -> Seq<u8> {
    match n {
        ObjectNameModel::VmdSpecific(s) => octets_of(s),
        ObjectNameModel::DomainSpecific { domain, item } => tlv(identifier_tag(), octets_of(domain))
            + tlv(identifier_tag(), octets_of(item)),
        ObjectNameModel::AaSpecific(s) => octets_of(s),
    }
}

/// The encoding of a name.
pub open spec fn name_bytes(n: ObjectNameModel) -> Seq<u8> {
    tlv(name_tag(n), name_contents(n))
}

/// Why a name has no encoding.
pub open spec fn name_fault(n: ObjectNameModel) -> Option<Error> {
    match n {
        ObjectNameModel::VmdSpecific(s) => text_fault(s),
        ObjectNameModel::DomainSpecific { domain, item } => first_fault(
            text_fault(domain),
            text_fault(item),
        ),
        ObjectNameModel::AaSpecific(s) => text_fault(s),
    }
}

impl<'a> ObjectName<'a> {
    /// Decode one `ObjectName`.
    pub fn parse(t: &Tlv<'a>) -> (r: Result<ObjectName<'a>, Error>)
        ensures
            agrees(r, name_of(t@)),
    {
        if t.tag.class != Class::Context {
            return Err(Error::decode(DecodeReason::UnexpectedTag, t.offset));
        }
        match t.tag.number {
            0 => Ok(ObjectName::VmdSpecific(t.visible_string()?)),
            1 => {
                let mut c = t.children();
                let domain = c.next_tag(tag_identifier())?.visible_string()?;
                let item = c.next_tag(tag_identifier())?.visible_string()?;
                Ok(ObjectName::DomainSpecific { domain, item })
            },
            2 => Ok(ObjectName::AaSpecific(t.visible_string()?)),
            _ => Err(Error::decode(DecodeReason::UnexpectedTag, t.offset)),
        }
    }

    /// Encode this name into `e`.
    pub fn write(&self, e: &mut Encoder) -> (r: Result<(), Error>)
        ensures
            wrote(r, old(e)@, final(e)@, name_fault(self@), name_bytes(self@)),
    {
        match self {
            ObjectName::VmdSpecific(s) => e.visible_string(Tag::context(0), s),
            ObjectName::DomainSpecific { domain, item } => {
                let mut body = Encoder::new();
                body.visible_string(tag_identifier(), domain)?;
                body.visible_string(tag_identifier(), item)?;
                assert(body@ =~= name_contents(self@));
                e.constructed(Tag::context_constructed(1), &body);
                Ok(())
            },
            ObjectName::AaSpecific(s) => e.visible_string(Tag::context(2), s),
        }
    }
}

/// A name that has an encoding reads back as it was.
pub proof fn lemma_name_round_trip(n: ObjectNameModel, offset: usize)
    requires
        name_fault(n) is None,
        name_contents(n).len() <= u64::MAX,
    ensures
        name_of(laws::element_at(name_tag(n), name_contents(n), offset)) == Ok::<
            ObjectNameModel,
            Error,
        >(n),
{
    broadcast use laws::lemma_tlv_len;

    match n {
        ObjectNameModel::VmdSpecific(s) => {
            laws::lemma_ascii_text(s);
        },
        ObjectNameModel::DomainSpecific { domain, item } => {
            let at = laws::element_at(name_tag(n), name_contents(n), offset).value_offset;
            let d = octets_of(domain);
            let i = octets_of(item);
            laws::lemma_ascii_text(domain);
            laws::lemma_ascii_text(item);
            laws::lemma_first(identifier_tag(), d, tlv(identifier_tag(), i), at);
            let next = laws::cursor_after(identifier_tag(), d, tlv(identifier_tag(), i), at);
            laws::lemma_only(identifier_tag(), i, next.offset);
        },
        ObjectNameModel::AaSpecific(s) => {
            laws::lemma_ascii_text(s);
        },
    }
}

/// A name that was decoded has an encoding.
pub proof fn lemma_name_decoded(t: TlvModel)
    ensures
        name_of(t) matches Ok(n) ==> name_fault(n) is None,
{
    laws::lemma_visible_decoded(t);
    let c = t.children();
    if let Ok(d) = c.tagged(identifier_tag()) {
        laws::lemma_visible_decoded(d);
    }
    if let Ok(i) = c.rest().tagged(identifier_tag()) {
        laws::lemma_visible_decoded(i);
    }
}

impl<'a> Element<'a> for ObjectName<'a> {
    open spec fn read(t: TlvModel, limits: Limits) -> Result<ObjectNameModel, Error> {
        name_of(t)
    }

    open spec fn fault(m: ObjectNameModel) -> Option<Error> {
        name_fault(m)
    }

    open spec fn tag_of(m: ObjectNameModel) -> Tag {
        name_tag(m)
    }

    open spec fn contents_of(m: ObjectNameModel) -> Seq<u8> {
        name_contents(m)
    }

    open spec fn fits(m: ObjectNameModel, limits: Limits) -> bool {
        true
    }

    open spec fn same(a: ObjectNameModel, b: ObjectNameModel) -> bool {
        a == b
    }

    fn read_element(t: &Tlv<'a>, limits: &Limits) -> (r: Result<Self, Error>) {
        ObjectName::parse(t)
    }

    fn write_element(&self, e: &mut Encoder) -> (r: Result<(), Error>) {
        self.write(e)
    }

    proof fn round_trip(m: ObjectNameModel, limits: Limits, offset: usize) {
        lemma_name_round_trip(m, offset);
    }

    proof fn decoded(t: TlvModel, limits: Limits) {
        lemma_name_decoded(t);
    }

    proof fn same_octets(a: ObjectNameModel, b: ObjectNameModel) {
    }
}

/// One name of a name list, or one capability: a universal `VisibleString`.
impl<'a> Element<'a> for &'a str {
    open spec fn read(t: TlvModel, limits: Limits) -> Result<Seq<char>, Error> {
        match t.expect(identifier_tag()) {
            Ok(t) => t.visible(),
            Err(e) => Err(e),
        }
    }

    open spec fn fault(m: Seq<char>) -> Option<Error> {
        text_fault(m)
    }

    open spec fn tag_of(m: Seq<char>) -> Tag {
        identifier_tag()
    }

    open spec fn contents_of(m: Seq<char>) -> Seq<u8> {
        octets_of(m)
    }

    open spec fn fits(m: Seq<char>, limits: Limits) -> bool {
        true
    }

    open spec fn same(a: Seq<char>, b: Seq<char>) -> bool {
        a == b
    }

    fn read_element(t: &Tlv<'a>, limits: &Limits) -> (r: Result<Self, Error>) {
        let t = (*t).expect(tag_identifier())?;
        t.visible_string()
    }

    fn write_element(&self, e: &mut Encoder) -> (r: Result<(), Error>) {
        e.visible_string(tag_identifier(), *self)
    }

    proof fn round_trip(m: Seq<char>, limits: Limits, offset: usize) {
        laws::lemma_ascii_text(m);
    }

    proof fn decoded(t: TlvModel, limits: Limits) {
        laws::lemma_visible_decoded(t);
    }

    proof fn same_octets(a: Seq<char>, b: Seq<char>) {
    }
}

/// Where `GetNameList` should look.
#[derive(Clone, Copy, Debug, PartialEq, Eq)]
pub enum ObjectScope<'a> {
    /// `vmdSpecific [0]`: the whole server.
    VmdSpecific,
    /// `domainSpecific [1]`: inside one domain.
    DomainSpecific(&'a str),
    /// `aaSpecific [2]`: objects private to this association.
    AaSpecific,
    /// Any other scope, kept whole so that it encodes as it arrived.
    Other(Tlv<'a>),
}

/// What an [`ObjectScope`] stands for.
pub enum ObjectScopeModel {
    VmdSpecific,
    DomainSpecific(Seq<char>),
    AaSpecific,
    Other(TlvModel),
}

impl<'a> View for ObjectScope<'a> {
    type V = ObjectScopeModel;

    open spec fn view(&self) -> ObjectScopeModel {
        match *self {
            ObjectScope::VmdSpecific => ObjectScopeModel::VmdSpecific,
            ObjectScope::DomainSpecific(s) => ObjectScopeModel::DomainSpecific(s@),
            ObjectScope::AaSpecific => ObjectScopeModel::AaSpecific,
            ObjectScope::Other(t) => ObjectScopeModel::Other(t@),
        }
    }
}

/// The scope an element holds.
pub open spec fn scope_of(t: TlvModel) -> Result<ObjectScopeModel, Error> {
    if t.tag.class != Class::Context {
        bad(DecodeReason::UnexpectedTag, t.offset)
    } else if t.tag.number == 0 {
        Ok(ObjectScopeModel::VmdSpecific)
    } else if t.tag.number == 1 {
        match t.visible() {
            Ok(s) => Ok(ObjectScopeModel::DomainSpecific(s)),
            Err(e) => Err(e),
        }
    } else if t.tag.number == 2 {
        Ok(ObjectScopeModel::AaSpecific)
    } else {
        Ok(ObjectScopeModel::Other(t))
    }
}

/// The tag a scope is encoded under.
pub open spec fn scope_tag(s: ObjectScopeModel) -> Tag {
    match s {
        ObjectScopeModel::VmdSpecific => ctx(0),
        ObjectScopeModel::DomainSpecific(_) => ctx(1),
        ObjectScopeModel::AaSpecific => ctx(2),
        ObjectScopeModel::Other(t) => t.tag,
    }
}

/// The contents octets of a scope.
pub open spec fn scope_contents(s: ObjectScopeModel) -> Seq<u8> {
    match s {
        ObjectScopeModel::DomainSpecific(d) => octets_of(d),
        ObjectScopeModel::Other(t) => t.value,
        _ => Seq::empty(),
    }
}

/// The encoding of a scope.
pub open spec fn scope_bytes(s: ObjectScopeModel) -> Seq<u8> {
    tlv(scope_tag(s), scope_contents(s))
}

/// Why a scope has no encoding.
pub open spec fn scope_fault(s: ObjectScopeModel) -> Option<Error> {
    match s {
        ObjectScopeModel::DomainSpecific(d) => text_fault(d),
        _ => None,
    }
}

/// Whether two elements differ at most in where they stood.
pub open spec fn same_element(a: TlvModel, b: TlvModel) -> bool {
    a.tag == b.tag && a.value == b.value
}

/// Whether two scopes differ at most in where a kept element stood.
pub open spec fn same_scope(a: ObjectScopeModel, b: ObjectScopeModel) -> bool {
    match (a, b) {
        (ObjectScopeModel::Other(x), ObjectScopeModel::Other(y)) => same_element(x, y),
        _ => a == b,
    }
}

/// Whether a kept scope is one that has no variant of its own.
pub open spec fn scope_fits(s: ObjectScopeModel) -> bool {
    s matches ObjectScopeModel::Other(t) ==> t.tag.class == Class::Context && t.tag.number > 2
}

impl<'a> ObjectScope<'a> {
    /// Decode one `ObjectScope`.
    pub fn parse(t: Tlv<'a>) -> (r: Result<ObjectScope<'a>, Error>)
        ensures
            agrees(r, scope_of(t@)),
    {
        if t.tag.class != Class::Context {
            return Err(Error::decode(DecodeReason::UnexpectedTag, t.offset));
        }
        match t.tag.number {
            0 => Ok(ObjectScope::VmdSpecific),
            1 => Ok(ObjectScope::DomainSpecific(t.visible_string()?)),
            2 => Ok(ObjectScope::AaSpecific),
            _ => Ok(ObjectScope::Other(t)),
        }
    }

    /// Encode this scope into `e`.
    pub fn write(&self, e: &mut Encoder) -> (r: Result<(), Error>)
        ensures
            wrote(r, old(e)@, final(e)@, scope_fault(self@), scope_bytes(self@)),
    {
        match self {
            ObjectScope::VmdSpecific => e.null(Tag::context(0)),
            ObjectScope::DomainSpecific(d) => e.visible_string(Tag::context(1), d)?,
            ObjectScope::AaSpecific => e.null(Tag::context(2)),
            ObjectScope::Other(t) => e.primitive(t.tag, t.value),
        }
        Ok(())
    }
}

/// A scope that has an encoding reads back as it was.
pub proof fn lemma_scope_round_trip(s: ObjectScopeModel, offset: usize)
    requires
        scope_fault(s) is None,
        scope_fits(s),
    ensures
        scope_of(laws::element_at(scope_tag(s), scope_contents(s), offset)) matches Ok(x)
            && same_scope(x, s),
{
    if let ObjectScopeModel::DomainSpecific(d) = s {
        laws::lemma_ascii_text(d);
    }
}

/// A scope that was decoded has an encoding, and reads back.
pub proof fn lemma_scope_decoded(t: TlvModel)
    ensures
        scope_of(t) matches Ok(s) ==> scope_fault(s) is None && scope_fits(s),
{
    laws::lemma_visible_decoded(t);
}

} // verus!
