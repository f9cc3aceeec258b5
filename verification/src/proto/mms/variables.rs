//! Which variables a service is about, and what came of accessing them.

use vstd::prelude::*;
use crate::ber::laws;
use crate::ber::list::{
    agrees_list, lemma_list_decoded, lemma_list_round_trip, lemma_same_octets, list_bytes,
    list_fault, list_fits, listed, read_list, same_list, views, write_list, Bound, Element,
};
use crate::ber::{
    bad, ctx, ctx_cons, first_fault, sint_octets, tlv, univ, wrote, Class, Encoder, Tag, Tlv,
    TlvModel, UNIVERSAL_SEQUENCE,
};
use crate::common::{agrees, default_limits, DecodeReason, Error, Limits, SelectorModel};
use crate::proto::data::{data_of, DataModel, DataView};
use crate::proto::mms::alternate::{
    lemma_path_bounded, lemma_path_decoded, lemma_path_round_trip, next_alternate, path_bytes,
    steps_bytes, steps_fault, steps_of, Path, MAX_DEPTH,
};
use crate::proto::mms::names::{
    lemma_name_decoded, lemma_name_round_trip, name_bytes, name_contents, name_fault, name_of,
    name_tag, same_element, ObjectName, ObjectNameModel,
};

verus! {

/// `VariableSpecification`, with the item's `alternateAccess [5]`.
#[derive(Debug, PartialEq, Eq)]
pub enum VariableSpecification<'a> {
    /// `name [0]`: the whole named variable.
    Name(ObjectName<'a>),
    /// `name [0]` and one part of that variable.
    Element {
        /// The named variable the selection is relative to.
        name: ObjectName<'a>,
        /// Which part of it.
        access: Path<'a>,
    },
    /// Any other form, kept whole.
    Other(Tlv<'a>),
}

/// What a [`VariableSpecification`] stands for.
pub enum VariableSpecificationModel {
    Name(ObjectNameModel),
    Element { name: ObjectNameModel, access: Seq<SelectorModel> },
    Other(TlvModel),
}

impl<'a> View for VariableSpecification<'a> {
    type V = VariableSpecificationModel;

    open spec fn view(&self) -> VariableSpecificationModel {
        match *self {
            VariableSpecification::Name(n) => VariableSpecificationModel::Name(n@),
            VariableSpecification::Element {
                name,
                access,
            } => VariableSpecificationModel::Element { name: name@, access: access@ },
            VariableSpecification::Other(t) => VariableSpecificationModel::Other(t@),
        }
    }
}

/// The specification an item of a variable list holds.
pub open spec fn specification_of(t: TlvModel) -> Result<VariableSpecificationModel, Error> {
    match t.expect(univ(16, true)) {
        Err(e) => Err(e),
        Ok(t) => {
            let c = t.children();
            match c.first() {
                Err(e) => Err(e),
                Ok(spec) => if spec.tag == ctx_cons(0) {
                    match spec.children().first() {
                        Err(e) => Err(e),
                        Ok(n) => match name_of(n) {
                            Err(e) => Err(e),
                            Ok(name) => match c.rest().optional(ctx_cons(5)) {
                                Err(e) => Err(e),
                                Ok(None) => Ok(VariableSpecificationModel::Name(name)),
                                Ok(Some(a)) => match steps_of(a, 0) {
                                    Err(e) => Err(e),
                                    Ok(access) => Ok(
                                        VariableSpecificationModel::Element { name, access },
                                    ),
                                },
                            },
                        },
                    }
                } else {
                    Ok(VariableSpecificationModel::Other(spec))
                },
            }
        },
    }
}

/// The contents of an item of a variable list.
pub open spec fn specification_contents(s: VariableSpecificationModel) -> Seq<u8> {
    match s {
        VariableSpecificationModel::Name(n) => tlv(ctx_cons(0), name_bytes(n)),
        VariableSpecificationModel::Element { name, access } => tlv(ctx_cons(0), name_bytes(name))
            + path_bytes(access),
        VariableSpecificationModel::Other(t) => tlv(t.tag, t.value),
    }
}

/// Why a specification has no encoding.
pub open spec fn specification_fault(s: VariableSpecificationModel) -> Option<Error> {
    match s {
        VariableSpecificationModel::Name(n) => name_fault(n),
        VariableSpecificationModel::Element { name, access } => first_fault(
            name_fault(name),
            steps_fault(access),
        ),
        VariableSpecificationModel::Other(_) => None,
    }
}

impl<'a> VariableSpecification<'a> {
    /// The named variable, whichever form this is.
    pub fn name(&self) -> (r: Option<&ObjectName<'a>>)
        ensures
            match self@ {
                VariableSpecificationModel::Name(n) => r matches Some(x) && x@ == n,
                VariableSpecificationModel::Element { name, .. } => r matches Some(x) && x@ == name,
                VariableSpecificationModel::Other(_) => r is None,
            },
    {
        match self {
            VariableSpecification::Name(n) => Some(n),
            VariableSpecification::Element { name, .. } => Some(name),
            VariableSpecification::Other(_) => None,
        }
    }

    /// The part of it that is selected, if any.
    pub fn access(&self) -> (r: Option<&Path<'a>>)
        ensures
            match self@ {
                VariableSpecificationModel::Element { access, .. } => r matches Some(x) && x@
                    == access,
                _ => r is None,
            },
    {
        match self {
            VariableSpecification::Element { access, .. } => Some(access),
            _ => None,
        }
    }

    /// A specification for `name`, with `access` when it selects something.
    pub fn of(name: ObjectName<'a>, access: Path<'a>) -> (r: VariableSpecification<'a>)
        ensures
            r@ == if access@.len() == 0 {
                VariableSpecificationModel::Name(name@)
            } else {
                VariableSpecificationModel::Element { name: name@, access: access@ }
            },
    {
        if access.is_empty() {
            VariableSpecification::Name(name)
        } else {
            VariableSpecification::Element { name, access }
        }
    }

    /// A copy of this specification.
    pub fn duplicate(&self) -> (r: VariableSpecification<'a>)
        ensures
            r@ == self@,
    {
        match self {
            VariableSpecification::Name(n) => VariableSpecification::Name(*n),
            VariableSpecification::Element { name, access } => VariableSpecification::Element {
                name: *name,
                access: access.duplicate(),
            },
            VariableSpecification::Other(t) => VariableSpecification::Other(*t),
        }
    }
}

impl<'a> Clone for VariableSpecification<'a> {
    fn clone(&self) -> (r: VariableSpecification<'a>)
        ensures
            r@ == self@,
    {
        self.duplicate()
    }
}

impl<'a> Element<'a> for VariableSpecification<'a> {
    open spec fn read(t: TlvModel, limits: Limits) -> Result<VariableSpecificationModel, Error> {
        specification_of(t)
    }

    open spec fn fault(m: VariableSpecificationModel) -> Option<Error> {
        specification_fault(m)
    }

    open spec fn tag_of(m: VariableSpecificationModel) -> Tag {
        univ(16, true)
    }

    open spec fn contents_of(m: VariableSpecificationModel) -> Seq<u8> {
        specification_contents(m)
    }

    open spec fn fits(m: VariableSpecificationModel, limits: Limits) -> bool {
        match m {
            VariableSpecificationModel::Name(_) => true,
            VariableSpecificationModel::Element { access, .. } => 1 <= access.len() <= MAX_DEPTH,
            VariableSpecificationModel::Other(t) => t.tag != ctx_cons(0),
        }
    }

    open spec fn same(a: VariableSpecificationModel, b: VariableSpecificationModel) -> bool {
        match (a, b) {
            (
                VariableSpecificationModel::Other(x),
                VariableSpecificationModel::Other(y),
            ) => same_element(x, y),
            _ => a == b,
        }
    }

    fn read_element(t: &Tlv<'a>, limits: &Limits) -> (r: Result<Self, Error>) {
        let item = (*t).expect(Tag::universal(UNIVERSAL_SEQUENCE, true))?;
        let mut c = item.children();
        let spec = c.next_required()?;
        if spec.tag == Tag::context_constructed(0) {
            let name = ObjectName::parse(&spec.children().next_required()?)?;
            match next_alternate(&mut c)? {
                Some(access) => Ok(VariableSpecification::Element { name, access }),
                None => Ok(VariableSpecification::Name(name)),
            }
        } else {
            Ok(VariableSpecification::Other(spec))
        }
    }

    fn write_element(&self, e: &mut Encoder) -> (r: Result<(), Error>) {
        let mut item = Encoder::new();
        match self {
            VariableSpecification::Name(n) => {
                let mut inner = Encoder::new();
                n.write(&mut inner)?;
                assert(inner@ =~= name_bytes(n@));
                item.constructed(Tag::context_constructed(0), &inner);
            },
            VariableSpecification::Element { name, access } => {
                let mut inner = Encoder::new();
                name.write(&mut inner)?;
                assert(inner@ =~= name_bytes(name@));
                item.constructed(Tag::context_constructed(0), &inner);
                access.write(&mut item)?;
            },
            VariableSpecification::Other(t) => item.primitive(t.tag, t.value),
        }
        assert(item@ =~= specification_contents(self@));
        e.constructed(Tag::universal(UNIVERSAL_SEQUENCE, true), &item);
        Ok(())
    }

    proof fn round_trip(m: VariableSpecificationModel, limits: Limits, offset: usize) {
        broadcast use laws::lemma_tlv_len;

        let at = laws::element_at(univ(16, true), specification_contents(m), offset).value_offset;
        match m {
            VariableSpecificationModel::Name(n) => {
                laws::lemma_only(ctx_cons(0), name_bytes(n), at);
                let inner = laws::element_at(ctx_cons(0), name_bytes(n), at);
                laws::lemma_only(name_tag(n), name_contents(n), inner.value_offset);
                lemma_name_round_trip(n, inner.value_offset);
            },
            VariableSpecificationModel::Element { name, access } => {
                let alternate = path_bytes(access);
                laws::lemma_first(ctx_cons(0), name_bytes(name), alternate, at);
                let inner = laws::element_at(ctx_cons(0), name_bytes(name), at);
                laws::lemma_only(name_tag(name), name_contents(name), inner.value_offset);
                lemma_name_round_trip(name, inner.value_offset);
                let next = laws::cursor_after(ctx_cons(0), name_bytes(name), alternate, at);
                laws::lemma_only(ctx_cons(5), steps_bytes(access), next.offset);
                lemma_path_round_trip(access, ctx_cons(5), 0, next.offset);
            },
            VariableSpecificationModel::Other(t) => {
                laws::lemma_only(t.tag, t.value, at);
            },
        }
    }

    proof fn decoded(t: TlvModel, limits: Limits) {
        if let Ok(item) = t.expect(univ(16, true)) {
            let c = item.children();
            if let Ok(spec) = c.first() {
                if let Ok(n) = spec.children().first() {
                    lemma_name_decoded(n);
                }
                if let Ok(Some(a)) = c.rest().optional(ctx_cons(5)) {
                    lemma_path_decoded(a, 0);
                    lemma_path_bounded(a, 0);
                }
            }
        }
    }

    proof fn same_octets(a: VariableSpecificationModel, b: VariableSpecificationModel) {
    }
}

/// The bound on the members of a data set.
pub open spec fn members_bound(limits: Limits) -> Option<Bound> {
    Some(Bound { limit: "max_dataset_members", max: limits.max_dataset_members })
}

/// The bound on the entries of a listing.
pub open spec fn items_bound(limits: Limits) -> Option<Bound> {
    Some(Bound { limit: "max_list_items", max: limits.max_list_items })
}

/// The bound on the members of a data set.
pub fn bound_members(limits: &Limits) -> (r: Option<Bound>)
    ensures
        r == members_bound(*limits),
{
    Some(Bound { limit: "max_dataset_members", max: limits.max_dataset_members })
}

/// The bound on the entries of a listing.
pub fn bound_items(limits: &Limits) -> (r: Option<Bound>)
    ensures
        r == items_bound(*limits),
{
    Some(Bound { limit: "max_list_items", max: limits.max_list_items })
}

/// The members of a variable list.
pub open spec fn variable_list_of(
    t: TlvModel,
    limits: Limits,
) -> Result<Seq<VariableSpecificationModel>, Error> {
    listed::<VariableSpecification<'static>>(
        t.children(),
        limits,
        members_bound(limits),
        Seq::empty(),
    )
}

/// Decode a `SEQUENCE OF SEQUENCE { variableSpecification, alternateAccess [5] OPTIONAL }`,
/// the shape a read's variables and a data set's members share.
pub fn parse_variable_list<'a>(
    t: &Tlv<'a>,
    limits: &Limits,
) -> (r: Result<Vec<VariableSpecification<'a>>, Error>)
    ensures
        agrees_list(r, variable_list_of(t@, *limits)),
{
    read_list::<VariableSpecification<'a>>(t.children(), limits, bound_members(limits))
}

/// `VariableAccessSpecification ::= CHOICE { listOfVariable [0], variableListName [1] }`.
#[derive(Debug, PartialEq, Eq)]
pub enum VariableAccess<'a> {
    /// A list of variables, named one by one.
    ListOfVariable(Vec<VariableSpecification<'a>>),
    /// A named variable list: a data set.
    VariableListName(ObjectName<'a>),
}

/// What a [`VariableAccess`] stands for.
pub enum VariableAccessModel {
    ListOfVariable(Seq<VariableSpecificationModel>),
    VariableListName(ObjectNameModel),
}

impl<'a> View for VariableAccess<'a> {
    type V = VariableAccessModel;

    open spec fn view(&self) -> VariableAccessModel {
        match *self {
            VariableAccess::ListOfVariable(v) => VariableAccessModel::ListOfVariable(views(v@)),
            VariableAccess::VariableListName(n) => VariableAccessModel::VariableListName(n@),
        }
    }
}

/// The access specification an element holds. A list of variables is held to the default
/// limits, whatever the caller's are.
pub open spec fn access_of(t: TlvModel) -> Result<VariableAccessModel, Error> {
    if t.tag.class == Class::Context && t.tag.number == 0 {
        match variable_list_of(t, default_limits()) {
            Ok(v) => Ok(VariableAccessModel::ListOfVariable(v)),
            Err(e) => Err(e),
        }
    } else if t.tag.class == Class::Context && t.tag.number == 1 {
        match t.children().first() {
            Err(e) => Err(e),
            Ok(n) => match name_of(n) {
                Err(e) => Err(e),
                Ok(name) => Ok(VariableAccessModel::VariableListName(name)),
            },
        }
    } else {
        bad(DecodeReason::UnexpectedTag, t.offset)
    }
}

/// The tag an access specification is encoded under.
pub open spec fn access_tag(a: VariableAccessModel) -> Tag {
    match a {
        VariableAccessModel::ListOfVariable(_) => ctx_cons(0),
        VariableAccessModel::VariableListName(_) => ctx_cons(1),
    }
}

/// The contents octets of an access specification.
pub open spec fn access_contents(a: VariableAccessModel) -> Seq<u8> {
    match a {
        VariableAccessModel::ListOfVariable(v) => list_bytes::<VariableSpecification<'static>>(v),
        VariableAccessModel::VariableListName(n) => name_bytes(n),
    }
}

/// The encoding of an access specification.
pub open spec fn access_bytes(a: VariableAccessModel) -> Seq<u8> {
    tlv(access_tag(a), access_contents(a))
}

/// Why an access specification has no encoding.
pub open spec fn access_fault(a: VariableAccessModel) -> Option<Error> {
    match a {
        VariableAccessModel::ListOfVariable(v) => list_fault::<VariableSpecification<'static>>(v),
        VariableAccessModel::VariableListName(n) => name_fault(n),
    }
}

/// Whether a decoder takes an access specification.
pub open spec fn access_fits(a: VariableAccessModel) -> bool {
    a matches VariableAccessModel::ListOfVariable(v) ==> list_fits::<
        VariableSpecification<'static>,
    >(v, default_limits(), members_bound(default_limits()))
}

/// Whether two access specifications differ at most in where kept elements stood.
pub open spec fn same_access(a: VariableAccessModel, b: VariableAccessModel) -> bool {
    match (a, b) {
        (
            VariableAccessModel::ListOfVariable(x),
            VariableAccessModel::ListOfVariable(y),
        ) => same_list::<VariableSpecification<'static>>(x, y),
        _ => a == b,
    }
}

impl<'a> VariableAccess<'a> {
    /// Decode one `VariableAccessSpecification`.
    pub fn parse(t: &Tlv<'a>) -> (r: Result<VariableAccess<'a>, Error>)
        ensures
            agrees(r, access_of(t@)),
    {
        if t.tag.class == Class::Context && t.tag.number == 0 {
            let limits: Limits = Default::default();
            Ok(VariableAccess::ListOfVariable(parse_variable_list(t, &limits)?))
        } else if t.tag.class == Class::Context && t.tag.number == 1 {
            let n = t.children().next_required()?;
            Ok(VariableAccess::VariableListName(ObjectName::parse(&n)?))
        } else {
            Err(Error::decode(DecodeReason::UnexpectedTag, t.offset))
        }
    }

    /// Encode this access specification into `e`.
    pub fn write(&self, e: &mut Encoder) -> (r: Result<(), Error>)
        ensures
            wrote(r, old(e)@, final(e)@, access_fault(self@), access_bytes(self@)),
    {
        match self {
            VariableAccess::ListOfVariable(items) => {
                let body = write_list(items.as_slice())?;
                e.constructed(Tag::context_constructed(0), &body);
            },
            VariableAccess::VariableListName(n) => {
                let mut body = Encoder::new();
                n.write(&mut body)?;
                assert(body@ =~= name_bytes(n@));
                e.constructed(Tag::context_constructed(1), &body);
            },
        }
        Ok(())
    }

    /// A copy of this access specification.
    pub fn duplicate(&self) -> (r: VariableAccess<'a>)
        ensures
            r@ == self@,
    {
        match self {
            VariableAccess::ListOfVariable(v) => VariableAccess::ListOfVariable(
                duplicate_specifications(v),
            ),
            VariableAccess::VariableListName(n) => VariableAccess::VariableListName(*n),
        }
    }
}

/// A copy of a variable list.
pub fn duplicate_specifications<'a>(v: &Vec<VariableSpecification<'a>>) -> (r: Vec<
    VariableSpecification<'a>,
>)
    ensures
        views(r@) == views(v@),
{
    let mut out: Vec<VariableSpecification<'a>> = Vec::new();
    let mut i: usize = 0;
    while i < v.len()
        invariant
            i <= v.len(),
            out@.len() == i,
            forall|j: int| 0 <= j < i ==> out@[j]@ == v@[j]@,
        decreases v.len() - i,
    {
        let s = v[i].duplicate();
        out.push(s);
        i += 1;
    }
    assert(views(out@) =~= views(v@));
    out
}

impl<'a> Clone for VariableAccess<'a> {
    fn clone(&self) -> (r: VariableAccess<'a>)
        ensures
            r@ == self@,
    {
        self.duplicate()
    }
}

/// An access specification that has an encoding reads back as it was.
pub proof fn lemma_access_round_trip(a: VariableAccessModel, offset: usize)
    requires
        access_fault(a) is None,
        access_fits(a),
        access_contents(a).len() <= u64::MAX,
    ensures
        access_of(laws::element_at(access_tag(a), access_contents(a), offset)) matches Ok(x)
            && same_access(x, a),
{
    broadcast use laws::lemma_tlv_len;

    let at = laws::element_at(access_tag(a), access_contents(a), offset).value_offset;
    match a {
        VariableAccessModel::ListOfVariable(v) => {
            lemma_list_round_trip::<VariableSpecification<'static>>(
                v,
                default_limits(),
                members_bound(default_limits()),
                at,
            );
        },
        VariableAccessModel::VariableListName(n) => {
            laws::lemma_only(name_tag(n), name_contents(n), at);
            lemma_name_round_trip(n, at);
        },
    }
}

// ---- results ---------------------------------------------------------------------------

/// `AccessResult ::= CHOICE { failure [0] IMPLICIT DataAccessError, success Data }`.
///
/// The success case keeps the encoded element, so that a decoded PDU encodes as it arrived;
/// [`AccessResult::value`] decodes it on demand.
#[derive(Clone, Copy, Debug, PartialEq, Eq)]
pub enum AccessResult<'a> {
    /// The server could not deliver the value; the code is a `DataAccessError`.
    Failure(i64),
    /// The value, as its encoded element.
    Success(Tlv<'a>),
}

/// What an [`AccessResult`] stands for.
pub enum AccessResultModel {
    Failure(i64),
    Success(TlvModel),
}

impl<'a> View for AccessResult<'a> {
    type V = AccessResultModel;

    open spec fn view(&self) -> AccessResultModel {
        match *self {
            AccessResult::Failure(c) => AccessResultModel::Failure(c),
            AccessResult::Success(t) => AccessResultModel::Success(t@),
        }
    }
}

/// The result an element holds. A value that would not decode is refused here already.
pub open spec fn access_result_of(t: TlvModel) -> Result<AccessResultModel, Error> {
    if t.tag == ctx(0) {
        match t.integer() {
            Ok(c) => Ok(AccessResultModel::Failure(c)),
            Err(e) => Err(e),
        }
    } else {
        match data_of(t) {
            Ok(_) => Ok(AccessResultModel::Success(t)),
            Err(e) => Err(e),
        }
    }
}

impl<'a> AccessResult<'a> {
    /// The value, if the access succeeded.
    pub fn value(&self) -> (r: Option<DataView<'a>>)
        ensures
            match self@ {
                AccessResultModel::Failure(_) => r is None,
                AccessResultModel::Success(t) => match r {
                    Some(d) => data_of(t) == Ok::<DataModel, Error>(d@),
                    None => data_of(t) is Err,
                },
            },
    {
        match self {
            AccessResult::Success(t) => match DataView::from_tlv(*t) {
                Ok(d) => Some(d),
                Err(_) => None,
            },
            AccessResult::Failure(_) => None,
        }
    }
}

impl<'a> Element<'a> for AccessResult<'a> {
    open spec fn read(t: TlvModel, limits: Limits) -> Result<AccessResultModel, Error> {
        access_result_of(t)
    }

    open spec fn fault(m: AccessResultModel) -> Option<Error> {
        None
    }

    open spec fn tag_of(m: AccessResultModel) -> Tag {
        match m {
            AccessResultModel::Failure(_) => ctx(0),
            AccessResultModel::Success(t) => t.tag,
        }
    }

    open spec fn contents_of(m: AccessResultModel) -> Seq<u8> {
        match m {
            AccessResultModel::Failure(c) => sint_octets(c as int),
            AccessResultModel::Success(t) => t.value,
        }
    }

    open spec fn fits(m: AccessResultModel, limits: Limits) -> bool {
        m matches AccessResultModel::Success(t) ==> t.tag != ctx(0) && data_of(t) is Ok
    }

    open spec fn same(a: AccessResultModel, b: AccessResultModel) -> bool {
        match (a, b) {
            (AccessResultModel::Success(x), AccessResultModel::Success(y)) => same_element(x, y),
            _ => a == b,
        }
    }

    fn read_element(t: &Tlv<'a>, limits: &Limits) -> (r: Result<Self, Error>) {
        if t.tag == Tag::context(0) {
            return Ok(AccessResult::Failure(t.integer_i64()?));
        }
        DataView::from_tlv(*t)?;
        Ok(AccessResult::Success(*t))
    }

    fn write_element(&self, e: &mut Encoder) -> (r: Result<(), Error>) {
        match self {
            AccessResult::Failure(code) => e.integer(Tag::context(0), *code),
            AccessResult::Success(t) => e.primitive(t.tag, t.value),
        }
        Ok(())
    }

    proof fn round_trip(m: AccessResultModel, limits: Limits, offset: usize) {
        if let AccessResultModel::Failure(c) = m {
            laws::lemma_integer_field(ctx(0), c, offset);
        }
    }

    proof fn decoded(t: TlvModel, limits: Limits) {
    }

    proof fn same_octets(a: AccessResultModel, b: AccessResultModel) {
    }
}

/// A `Data` value kept as its encoded element.
impl<'a> Element<'a> for Tlv<'a> {
    open spec fn read(t: TlvModel, limits: Limits) -> Result<TlvModel, Error> {
        match data_of(t) {
            Ok(_) => Ok(t),
            Err(e) => Err(e),
        }
    }

    open spec fn fault(m: TlvModel) -> Option<Error> {
        None
    }

    open spec fn tag_of(m: TlvModel) -> Tag {
        m.tag
    }

    open spec fn contents_of(m: TlvModel) -> Seq<u8> {
        m.value
    }

    open spec fn fits(m: TlvModel, limits: Limits) -> bool {
        data_of(m) is Ok
    }

    open spec fn same(a: TlvModel, b: TlvModel) -> bool {
        same_element(a, b)
    }

    fn read_element(t: &Tlv<'a>, limits: &Limits) -> (r: Result<Self, Error>) {
        DataView::from_tlv(*t)?;
        Ok(*t)
    }

    fn write_element(&self, e: &mut Encoder) -> (r: Result<(), Error>) {
        e.primitive(self.tag, self.value);
        Ok(())
    }

    proof fn round_trip(m: TlvModel, limits: Limits, offset: usize) {
    }

    proof fn decoded(t: TlvModel, limits: Limits) {
    }

    proof fn same_octets(a: TlvModel, b: TlvModel) {
    }
}

/// One result of a `Write`: `CHOICE { failure [0], success [1] IMPLICIT NULL }`.
#[derive(Clone, Copy, Debug, PartialEq, Eq, Structural)]
pub enum WriteResult {
    /// The write failed with this `DataAccessError`.
    Failure(i64),
    /// The write succeeded.
    Success,
}

impl View for WriteResult {
    type V = WriteResult;

    open spec fn view(&self) -> WriteResult {
        *self
    }
}

impl<'a> Element<'a> for WriteResult {
    open spec fn read(t: TlvModel, limits: Limits) -> Result<WriteResult, Error> {
        if t.tag.number == 0 {
            match t.integer() {
                Ok(c) => Ok(WriteResult::Failure(c)),
                Err(e) => Err(e),
            }
        } else {
            Ok(WriteResult::Success)
        }
    }

    open spec fn fault(m: WriteResult) -> Option<Error> {
        None
    }

    open spec fn tag_of(m: WriteResult) -> Tag {
        match m {
            WriteResult::Failure(_) => ctx(0),
            WriteResult::Success => ctx(1),
        }
    }

    open spec fn contents_of(m: WriteResult) -> Seq<u8> {
        match m {
            WriteResult::Failure(c) => sint_octets(c as int),
            WriteResult::Success => Seq::empty(),
        }
    }

    open spec fn fits(m: WriteResult, limits: Limits) -> bool {
        true
    }

    open spec fn same(a: WriteResult, b: WriteResult) -> bool {
        a == b
    }

    fn read_element(t: &Tlv<'a>, limits: &Limits) -> (r: Result<Self, Error>) {
        if t.tag.number == 0 {
            Ok(WriteResult::Failure(t.integer_i64()?))
        } else {
            Ok(WriteResult::Success)
        }
    }

    fn write_element(&self, e: &mut Encoder) -> (r: Result<(), Error>) {
        match self {
            WriteResult::Failure(code) => e.integer(Tag::context(0), *code),
            WriteResult::Success => e.null(Tag::context(1)),
        }
        Ok(())
    }

    proof fn round_trip(m: WriteResult, limits: Limits, offset: usize) {
        if let WriteResult::Failure(c) = m {
            laws::lemma_integer_field(ctx(0), c, offset);
        }
    }

    proof fn decoded(t: TlvModel, limits: Limits) {
    }

    proof fn same_octets(a: WriteResult, b: WriteResult) {
    }
}

/// An access specification that was decoded has an encoding, and reads back.
pub proof fn lemma_access_decoded(t: TlvModel)
    ensures
        access_of(t) matches Ok(a) ==> access_fault(a) is None && access_fits(a),
{
    lemma_list_decoded::<VariableSpecification<'static>>(
        t.children(),
        default_limits(),
        members_bound(default_limits()),
    );
    if let Ok(n) = t.children().first() {
        lemma_name_decoded(n);
    }
}

/// Access specifications that differ only in where elements stood have one encoding.
pub proof fn lemma_same_access_octets(a: VariableAccessModel, b: VariableAccessModel)
    requires
        same_access(a, b),
    ensures
        access_bytes(a) == access_bytes(b),
{
    match (a, b) {
        (VariableAccessModel::ListOfVariable(x), VariableAccessModel::ListOfVariable(y)) => {
            lemma_same_octets::<VariableSpecification<'static>>(x, y)
        },
        _ => {},
    }
}

} // verus!
