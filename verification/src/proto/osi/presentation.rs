//! The OSI presentation protocol (ISO 8823), normal mode: the negotiation of the context
//! list, and the label of every later PDU with its context.

use vstd::prelude::*;
use crate::ber::laws;
use crate::ber::list::{
    agrees_list, extend_list, lemma_faultless, lemma_list_decoded, lemma_list_round_trip,
    list_bytes, list_fault, list_fault_from, listed, read_list, views, write_list, Element,
};
use crate::ber::{
    app_cons, bad, bit_octets, bits_fault, ctx, ctx_cons, first_fault, opt_bits_fault, opt_bytes,
    opt_view, same_octets, sint_octets, tlv, univ, wrote, Class, Cursor, CursorModel, Encoder, Tag,
    Tlv, TlvModel, UNIVERSAL_INTEGER, UNIVERSAL_OID, UNIVERSAL_SEQUENCE,
};
use crate::common::{agrees, default_limits, DecodeReason, Error, Limits};
use crate::proto::osi::acse::{bits_contents, version_1, version_bits};
use crate::proto::osi::oid::{acse_syntax, ber_syntax, mms_syntax, Oid};

verus! {

/// Normal mode.
pub const MODE_NORMAL: i64 = 1;
/// A context was accepted.
pub const RESULT_ACCEPTANCE: i64 = 0;
/// A context was rejected by the user.
pub const RESULT_USER_REJECTION: i64 = 1;
/// A context was rejected by the provider.
pub const RESULT_PROVIDER_REJECTION: i64 = 2;

/// One entry of the context definition list of a CP.
#[derive(Clone, Copy, Debug, PartialEq, Eq)]
pub struct ContextDefinition<'a> {
    /// The identifier later PDUs are labelled with.
    pub id: u16,
    /// What the context carries.
    pub abstract_syntax: Oid<'a>,
    /// How it is encoded.
    pub transfer_syntax: Oid<'a>,
}

/// One entry of the result list of a CPA.
#[derive(Clone, Copy, Debug, PartialEq, Eq)]
pub struct ContextResult<'a> {
    /// [`RESULT_ACCEPTANCE`] or a rejection.
    pub result: i64,
    /// The transfer syntax that was selected.
    pub transfer_syntax: Option<Oid<'a>>,
}

/// The presentation data values of one PDV list.
#[derive(Clone, Copy, Debug, PartialEq, Eq)]
pub enum PdvValues<'a> {
    /// `single-ASN1-type`: one encoded value.
    SingleAsn1Type(&'a [u8]),
    /// `octet-aligned`.
    OctetAligned(&'a [u8]),
    /// `arbitrary`: a bit string.
    Arbitrary {
        /// Unused bits in the last octet.
        unused: u8,
        /// The contents.
        bytes: &'a [u8],
    },
}

/// One PDV list: a context and the values encoded in it.
#[derive(Clone, Copy, Debug, PartialEq, Eq)]
pub struct Pdv<'a> {
    /// The context.
    pub context_id: u16,
    /// The values.
    pub values: PdvValues<'a>,
}

/// The parameters of a CP, CPA or CPR.
#[derive(Clone, Debug, PartialEq, Eq)]
pub struct Cp<'a> {
    /// `protocol-version`, as its bit-string contents.
    pub protocol_version: Option<(u8, &'a [u8])>,
    /// Calling selector (CP only).
    pub calling_psel: Option<&'a [u8]>,
    /// Called selector (CP only).
    pub called_psel: Option<&'a [u8]>,
    /// Responding selector (CPA only).
    pub responding_psel: Option<&'a [u8]>,
    /// The contexts proposed (CP only).
    pub contexts: Vec<ContextDefinition<'a>>,
    /// The results (CPA only), in the order of the proposed list.
    pub results: Vec<ContextResult<'a>>,
    /// `presentation-requirements`, as its bit-string contents.
    pub requirements: Option<(u8, &'a [u8])>,
    /// `provider-reason` (CPR only).
    pub provider_reason: Option<i64>,
    /// The user data.
    pub user_data: Vec<Pdv<'a>>,
}

/// A presentation PDU.
#[derive(Clone, Debug, PartialEq, Eq)]
pub enum Ppdu<'a> {
    /// CP: the connect PDU.
    Connect(Cp<'a>),
    /// CPA: the accept PDU.
    Accept(Cp<'a>),
    /// CPR: the reject PDU.
    Reject(Cp<'a>),
    /// Any PDU after the handshake.
    UserData(Vec<Pdv<'a>>),
}

/// What a [`ContextDefinition`] stands for.
pub struct ContextDefinitionModel {
    pub id: u16,
    pub abstract_syntax: Seq<u8>,
    pub transfer_syntax: Seq<u8>,
}

impl<'a> View for ContextDefinition<'a> {
    type V = ContextDefinitionModel;

    open spec fn view(&self) -> ContextDefinitionModel {
        ContextDefinitionModel {
            id: self.id,
            abstract_syntax: self.abstract_syntax@,
            transfer_syntax: self.transfer_syntax@,
        }
    }
}

/// What a [`ContextResult`] stands for.
pub struct ContextResultModel {
    pub result: i64,
    pub transfer_syntax: Option<Seq<u8>>,
}

impl<'a> View for ContextResult<'a> {
    type V = ContextResultModel;

    open spec fn view(&self) -> ContextResultModel {
        ContextResultModel {
            result: self.result,
            transfer_syntax: opt_view(self.transfer_syntax),
        }
    }
}

/// What [`PdvValues`] stand for.
pub enum PdvValuesModel {
    SingleAsn1Type(Seq<u8>),
    OctetAligned(Seq<u8>),
    Arbitrary { unused: u8, bytes: Seq<u8> },
}

impl<'a> View for PdvValues<'a> {
    type V = PdvValuesModel;

    open spec fn view(&self) -> PdvValuesModel {
        match *self {
            PdvValues::SingleAsn1Type(v) => PdvValuesModel::SingleAsn1Type(v@),
            PdvValues::OctetAligned(v) => PdvValuesModel::OctetAligned(v@),
            PdvValues::Arbitrary { unused, bytes } => PdvValuesModel::Arbitrary {
                unused,
                bytes: bytes@,
            },
        }
    }
}

/// What a [`Pdv`] stands for.
pub struct PdvModel {
    pub context_id: u16,
    pub values: PdvValuesModel,
}

impl<'a> View for Pdv<'a> {
    type V = PdvModel;

    open spec fn view(&self) -> PdvModel {
        PdvModel { context_id: self.context_id, values: self.values@ }
    }
}

/// What a [`Cp`] stands for.
pub struct CpModel {
    pub protocol_version: Option<(u8, Seq<u8>)>,
    pub calling_psel: Option<Seq<u8>>,
    pub called_psel: Option<Seq<u8>>,
    pub responding_psel: Option<Seq<u8>>,
    pub contexts: Seq<ContextDefinitionModel>,
    pub results: Seq<ContextResultModel>,
    pub requirements: Option<(u8, Seq<u8>)>,
    pub provider_reason: Option<i64>,
    pub user_data: Seq<PdvModel>,
}

impl<'a> View for Cp<'a> {
    type V = CpModel;

    open spec fn view(&self) -> CpModel {
        CpModel {
            protocol_version: opt_view(self.protocol_version),
            calling_psel: opt_view(self.calling_psel),
            called_psel: opt_view(self.called_psel),
            responding_psel: opt_view(self.responding_psel),
            contexts: views(self.contexts@),
            results: views(self.results@),
            requirements: opt_view(self.requirements),
            provider_reason: self.provider_reason,
            user_data: views(self.user_data@),
        }
    }
}

/// What a [`Ppdu`] stands for.
pub enum PpduModel {
    Connect(CpModel),
    Accept(CpModel),
    Reject(CpModel),
    UserData(Seq<PdvModel>),
}

impl<'a> View for Ppdu<'a> {
    type V = PpduModel;

    open spec fn view(&self) -> PpduModel {
        match *self {
            Ppdu::Connect(cp) => PpduModel::Connect(cp@),
            Ppdu::Accept(cp) => PpduModel::Accept(cp@),
            Ppdu::Reject(cp) => PpduModel::Reject(cp@),
            Ppdu::UserData(p) => PpduModel::UserData(views(p@)),
        }
    }
}

/// No parameter at all.
pub open spec fn no_parameters() -> CpModel {
    CpModel {
        protocol_version: None,
        calling_psel: None,
        called_psel: None,
        responding_psel: None,
        contexts: Seq::empty(),
        results: Seq::empty(),
        requirements: None,
        provider_reason: None,
        user_data: Seq::empty(),
    }
}

impl<'a> Default for Cp<'a> {
    fn default() -> (r: Cp<'a>)
        ensures
            r@ == no_parameters(),
    {
        let r: Cp<'a> = Cp {
            protocol_version: None,
            calling_psel: None,
            called_psel: None,
            responding_psel: None,
            contexts: Vec::new(),
            results: Vec::new(),
            requirements: None,
            provider_reason: None,
            user_data: Vec::new(),
        };
        assert(views(r.contexts@) =~= Seq::<ContextDefinitionModel>::empty());
        assert(views(r.results@) =~= Seq::<ContextResultModel>::empty());
        assert(views(r.user_data@) =~= Seq::<PdvModel>::empty());
        r
    }
}

impl<'a> PdvValues<'a> {
    /// The encoded value of a `single-ASN1-type`.
    pub fn single(&self) -> (r: Option<&'a [u8]>)
        ensures
            opt_view(r) == single_of(self@),
    {
        match self {
            PdvValues::SingleAsn1Type(v) => Some(*v),
            _ => None,
        }
    }
}

/// The encoded value of a `single-ASN1-type`.
pub open spec fn single_of(m: PdvValuesModel) -> Option<Seq<u8>> {
    match m {
        PdvValuesModel::SingleAsn1Type(v) => Some(v),
        _ => None,
    }
}

/// One encoded value in a context.
pub open spec fn single_pdv(context_id: u16, value: Seq<u8>) -> PdvModel {
    PdvModel { context_id, values: PdvValuesModel::SingleAsn1Type(value) }
}

impl<'a> Pdv<'a> {
    /// One encoded value in a context.
    pub fn single(context_id: u16, value: &'a [u8]) -> (r: Pdv<'a>)
        ensures
            r@ == single_pdv(context_id, value@),
    {
        Pdv { context_id, values: PdvValues::SingleAsn1Type(value) }
    }
}

/// The identifier of the first context from index `i` on that carries an abstract syntax.
pub open spec fn context_from(s: Seq<ContextDefinitionModel>, oid: Seq<u8>, i: nat) -> Option<u16>
    decreases s.len() - i,
{
    if i >= s.len() {
        None
    } else if s[i as int].abstract_syntax == oid {
        Some(s[i as int].id)
    } else {
        context_from(s, oid, i + 1)
    }
}

/// The CP of this profile.
pub open spec fn connect_parameters(
    calling: Seq<u8>,
    called: Seq<u8>,
    acse: u16,
    mms: u16,
    aarq: Seq<u8>,
) -> CpModel {
    CpModel {
        protocol_version: Some(version_1()),
        calling_psel: Some(calling),
        called_psel: Some(called),
        contexts: seq![
            ContextDefinitionModel {
                id: acse,
                abstract_syntax: acse_syntax(),
                transfer_syntax: ber_syntax(),
            },
            ContextDefinitionModel {
                id: mms,
                abstract_syntax: mms_syntax(),
                transfer_syntax: ber_syntax(),
            },
        ],
        requirements: Some((6, seq![0u8])),
        user_data: seq![single_pdv(acse, aarq)],
        ..no_parameters()
    }
}

impl<'a> Cp<'a> {
    /// The CP of this profile: version 1, the two selectors, ACSE and MMS in BER, and the AARQ
    /// as user data.
    pub fn connect(
        calling_psel: &'a [u8],
        called_psel: &'a [u8],
        acse_context: u16,
        mms_context: u16,
        aarq: &'a [u8],
    ) -> (r: Cp<'a>)
        ensures
            r@ == connect_parameters(
                calling_psel@,
                called_psel@,
                acse_context,
                mms_context,
                aarq@,
            ),
    {
        let acse = ContextDefinition {
            id: acse_context,
            abstract_syntax: Oid::acse_abstract_syntax(),
            transfer_syntax: Oid::ber(),
        };
        let mms = ContextDefinition {
            id: mms_context,
            abstract_syntax: Oid::mms_abstract_syntax(),
            transfer_syntax: Oid::ber(),
        };
        let none: (u8, &'static [u8]) = (6, &[0x00]);
        let mut r: Cp<'a> = Default::default();
        r.protocol_version = Some(version_bits());
        r.calling_psel = Some(calling_psel);
        r.called_psel = Some(called_psel);
        r.contexts = vec![acse, mms];
        r.requirements = Some(none);
        r.user_data = vec![Pdv::single(acse_context, aarq)];
        assert(views(r.contexts@) =~= seq![acse@, mms@]);
        assert(none.1@ =~= seq![0u8]);
        assert(views(r.user_data@) =~= seq![single_pdv(acse_context, aarq@)]);
        r
    }

    /// The identifier of the first context that carries an abstract syntax.
    pub fn context_for(&self, abstract_syntax: Oid<'_>) -> (r: Option<u16>)
        ensures
            r == context_from(self@.contexts, abstract_syntax@, 0),
    {
        let mut i: usize = 0;
        while i < self.contexts.len()
            invariant
                i <= self.contexts.len(),
                context_from(self@.contexts, abstract_syntax@, 0) == context_from(
                    self@.contexts,
                    abstract_syntax@,
                    i as nat,
                ),
            decreases self.contexts.len() - i,
        {
            let c = self.contexts[i];
            assert(self@.contexts[i as int] == c@);
            if same_octets(c.abstract_syntax.0, abstract_syntax.0) {
                return Some(c.id);
            }
            i += 1;
        }
        None
    }

    /// Whether there are results and every context was accepted.
    pub fn all_accepted(&self) -> (r: bool)
        ensures
            r == (self@.results.len() > 0 && forall|i: int|
                0 <= i < self@.results.len() ==> (#[trigger] self@.results[i]).result
                    == RESULT_ACCEPTANCE),
    {
        let mut i: usize = 0;
        while i < self.results.len()
            invariant
                i <= self.results.len(),
                forall|j: int|
                    0 <= j < i ==> (#[trigger] self@.results[j]).result == RESULT_ACCEPTANCE,
            decreases self.results.len() - i,
        {
            assert(self@.results[i as int] == self.results@[i as int]@);
            if self.results[i].result != RESULT_ACCEPTANCE {
                return false;
            }
            i += 1;
        }
        self.results.len() > 0
    }
}

// ---- elements of the lists -------------------------------------------------------------

/// What an OBJECT IDENTIFIER holds.
pub open spec fn oid_of(t: TlvModel) -> Result<Seq<u8>, Error> {
    if t.tag == univ(6, false) {
        Ok(t.value)
    } else {
        bad(DecodeReason::UnexpectedTag, t.offset)
    }
}

fn read_oid<'a>(t: &Tlv<'a>) -> (r: Result<Oid<'a>, Error>)
    ensures
        agrees(r, oid_of(t@)),
{
    if t.tag == Tag::universal(UNIVERSAL_OID, false) {
        Ok(Oid(t.value))
    } else {
        Err(Error::decode(DecodeReason::UnexpectedTag, t.offset))
    }
}

/// The syntaxes of a context definition.
pub open spec fn syntaxes_of(c: CursorModel, id: u16) -> Result<ContextDefinitionModel, Error> {
    match c.first() {
        Err(e) => Err(e),
        Ok(a) => match oid_of(a) {
            Err(e) => Err(e),
            Ok(abstract_syntax) => match c.rest().tagged(univ(16, true)) {
                Err(e) => Err(e),
                Ok(list) => match list.children().first() {
                    Err(e) => Err(e),
                    Ok(t) => match oid_of(t) {
                        Err(e) => Err(e),
                        Ok(transfer_syntax) => Ok(
                            ContextDefinitionModel { id, abstract_syntax, transfer_syntax },
                        ),
                    },
                },
            },
        },
    }
}

/// A context definition. An identifier that is out of range is reported at `at`.
pub open spec fn context_of(t: TlvModel, at: usize) -> Result<ContextDefinitionModel, Error> {
    match t.expect(univ(16, true)) {
        Err(e) => Err(e),
        Ok(t) => match t.children().integer(univ(2, false)) {
            Err(e) => Err(e),
            Ok(id) => if 0 <= id <= u16::MAX {
                syntaxes_of(t.children().rest(), id as u16)
            } else {
                bad(DecodeReason::BadValue, at)
            },
        },
    }
}

fn read_context<'a>(t: &Tlv<'a>, at: usize) -> (r: Result<ContextDefinition<'a>, Error>)
    ensures
        agrees(r, context_of(t@, at)),
{
    let t = (*t).expect(Tag::universal(UNIVERSAL_SEQUENCE, true))?;
    let mut c = t.children();
    let id = c.next_tag(Tag::universal(UNIVERSAL_INTEGER, false))?.integer_i64()?;
    if id < 0 || id > 0xFFFF {
        return Err(Error::decode(DecodeReason::BadValue, at));
    }
    let abstract_syntax = read_oid(&c.next_required()?)?;
    let list = c.next_tag(Tag::universal(UNIVERSAL_SEQUENCE, true))?;
    let transfer_syntax = read_oid(&list.children().next_required()?)?;
    Ok(ContextDefinition { id: id as u16, abstract_syntax, transfer_syntax })
}

impl<'a> Element<'a> for ContextDefinition<'a> {
    open spec fn read(t: TlvModel, limits: Limits) -> Result<ContextDefinitionModel, Error> {
        context_of(t, t.offset)
    }

    open spec fn fault(m: ContextDefinitionModel) -> Option<Error> {
        None
    }

    open spec fn tag_of(m: ContextDefinitionModel) -> Tag {
        univ(16, true)
    }

    open spec fn contents_of(m: ContextDefinitionModel) -> Seq<u8> {
        tlv(univ(2, false), sint_octets(m.id as int)) + (tlv(univ(6, false), m.abstract_syntax)
            + tlv(univ(16, true), tlv(univ(6, false), m.transfer_syntax)))
    }

    open spec fn fits(m: ContextDefinitionModel, limits: Limits) -> bool {
        true
    }

    open spec fn same(a: ContextDefinitionModel, b: ContextDefinitionModel) -> bool {
        a == b
    }

    fn read_element(t: &Tlv<'a>, limits: &Limits) -> (r: Result<Self, Error>) {
        read_context(t, t.offset)
    }

    fn write_element(&self, e: &mut Encoder) -> (r: Result<(), Error>) {
        let mut list = Encoder::new();
        list.primitive(Tag::universal(UNIVERSAL_OID, false), self.transfer_syntax.0);
        assert(list@ =~= tlv(univ(6, false), self@.transfer_syntax));
        let mut body = Encoder::new();
        body.integer(Tag::universal(UNIVERSAL_INTEGER, false), self.id as i64);
        body.primitive(Tag::universal(UNIVERSAL_OID, false), self.abstract_syntax.0);
        body.constructed(Tag::universal(UNIVERSAL_SEQUENCE, true), &list);
        assert(body@ =~= Self::contents_of(self@));
        e.constructed(Tag::universal(UNIVERSAL_SEQUENCE, true), &body);
        Ok(())
    }

    proof fn round_trip(m: ContextDefinitionModel, limits: Limits, offset: usize) {
        broadcast use laws::lemma_tlv_len;

        let c = laws::element_at(univ(16, true), Self::contents_of(m), offset).children();
        let inner = tlv(univ(6, false), m.transfer_syntax);
        let last = tlv(univ(16, true), inner);
        let rest = tlv(univ(6, false), m.abstract_syntax) + last;
        laws::lemma_integer(univ(2, false), m.id as i64, rest, c.offset);
        let c1 = c.rest();
        laws::lemma_first(univ(6, false), m.abstract_syntax, last, c1.offset);
        let c2 = c1.rest();
        laws::lemma_only(univ(16, true), inner, c2.offset);
        let at = laws::element_at(univ(16, true), inner, c2.offset).value_offset;
        laws::lemma_only(univ(6, false), m.transfer_syntax, at);
    }

    proof fn decoded(t: TlvModel, limits: Limits) {
    }

    proof fn same_octets(a: ContextDefinitionModel, b: ContextDefinitionModel) {
    }
}

/// The context definitions a cursor still holds, after `acc`.
pub open spec fn contexts_in(
    c: CursorModel,
    at: usize,
    acc: Seq<ContextDefinitionModel>,
) -> Result<Seq<ContextDefinitionModel>, Error>
    decreases c.bytes.len(),
    via contexts_in_shrinks
{
    if c.bytes.len() == 0 {
        Ok(acc)
    } else {
        match c.first() {
            Err(e) => Err(e),
            Ok(t) => match context_of(t, at) {
                Err(e) => Err(e),
                Ok(v) => contexts_in(c.rest(), at, acc.push(v)),
            },
        }
    }
}

#[via_fn]
proof fn contexts_in_shrinks(c: CursorModel, at: usize, acc: Seq<ContextDefinitionModel>) {
    laws::lemma_progress(c);
}

fn read_contexts<'a>(p: &Tlv<'a>, list: Vec<ContextDefinition<'a>>) -> (r: Result<
    Vec<ContextDefinition<'a>>,
    Error,
>)
    ensures
        agrees_list(r, contexts_in(p@.children(), p@.offset, views(list@))),
{
    let mut out = list;
    let mut c = p.children();
    while !c.is_empty()
        invariant
            contexts_in(p@.children(), p@.offset, views(list@)) == contexts_in(
                c@,
                p@.offset,
                views(out@),
            ),
        decreases c@.bytes.len(),
    {
        proof {
            laws::lemma_progress(c@);
        }
        let t = c.next_required()?;
        let v = read_context(&t, p.offset)?;
        let ghost before = views(out@);
        out.push(v);
        assert(views(out@) =~= before.push(v@));
    }
    Ok(out)
}

proof fn lemma_contexts_in(c: CursorModel, at: usize, acc: Seq<ContextDefinitionModel>)
    ensures
        listed::<ContextDefinition<'static>>(c, default_limits(), None, acc) matches Ok(x)
            ==> contexts_in(c, at, acc) == Ok::<Seq<ContextDefinitionModel>, Error>(x),
    decreases c.bytes.len(),
{
    if c.bytes.len() > 0 {
        laws::lemma_progress(c);
        if let Ok(t) = c.first() {
            if let Ok(v) = context_of(t, t.offset) {
                lemma_contexts_in(c.rest(), at, acc.push(v));
            }
        }
    }
}

impl<'a> Element<'a> for ContextResult<'a> {
    open spec fn read(t: TlvModel, limits: Limits) -> Result<ContextResultModel, Error> {
        match t.expect(univ(16, true)) {
            Err(e) => Err(e),
            Ok(t) => match t.children().integer(ctx(0)) {
                Err(e) => Err(e),
                Ok(result) => match t.children().rest().optional(ctx(1)) {
                    Err(e) => Err(e),
                    Ok(o) => Ok(
                        ContextResultModel {
                            result,
                            transfer_syntax: match o {
                                Some(o) => Some(o.value),
                                None => None,
                            },
                        },
                    ),
                },
            },
        }
    }

    open spec fn fault(m: ContextResultModel) -> Option<Error> {
        None
    }

    open spec fn tag_of(m: ContextResultModel) -> Tag {
        univ(16, true)
    }

    open spec fn contents_of(m: ContextResultModel) -> Seq<u8> {
        tlv(ctx(0), sint_octets(m.result as int)) + opt_bytes(ctx(1), m.transfer_syntax)
    }

    open spec fn fits(m: ContextResultModel, limits: Limits) -> bool {
        true
    }

    open spec fn same(a: ContextResultModel, b: ContextResultModel) -> bool {
        a == b
    }

    fn read_element(t: &Tlv<'a>, limits: &Limits) -> (r: Result<Self, Error>) {
        let t = (*t).expect(Tag::universal(UNIVERSAL_SEQUENCE, true))?;
        let mut c = t.children();
        let result = c.next_tag(Tag::context(0))?.integer_i64()?;
        let transfer_syntax = match c.next_if_tag(Tag::context(1))? {
            Some(o) => Some(Oid(o.value)),
            None => None,
        };
        Ok(ContextResult { result, transfer_syntax })
    }

    fn write_element(&self, e: &mut Encoder) -> (r: Result<(), Error>) {
        let mut body = Encoder::new();
        body.integer(Tag::context(0), self.result);
        if let Some(t) = self.transfer_syntax {
            body.primitive(Tag::context(1), t.0);
        }
        assert(body@ =~= Self::contents_of(self@));
        e.constructed(Tag::universal(UNIVERSAL_SEQUENCE, true), &body);
        Ok(())
    }

    proof fn round_trip(m: ContextResultModel, limits: Limits, offset: usize) {
        broadcast use laws::lemma_tlv_len;

        let c = laws::element_at(univ(16, true), Self::contents_of(m), offset).children();
        laws::lemma_integer(ctx(0), m.result, opt_bytes(ctx(1), m.transfer_syntax), c.offset);
        if let Some(o) = m.transfer_syntax {
            laws::lemma_only(ctx(1), o, c.rest().offset);
        }
    }

    proof fn decoded(t: TlvModel, limits: Limits) {
    }

    proof fn same_octets(a: ContextResultModel, b: ContextResultModel) {
    }
}

/// The values of a PDV list.
pub open spec fn values_of(v: TlvModel) -> Result<PdvValuesModel, Error> {
    if v.tag == ctx_cons(0) {
        Ok(PdvValuesModel::SingleAsn1Type(v.value))
    } else if v.tag == ctx(1) {
        Ok(PdvValuesModel::OctetAligned(v.value))
    } else if v.tag == ctx(2) {
        match v.bits() {
            Err(e) => Err(e),
            Ok((unused, bytes)) => Ok(PdvValuesModel::Arbitrary { unused, bytes }),
        }
    } else {
        bad(DecodeReason::UnexpectedTag, v.offset)
    }
}

/// What follows the transfer syntax of a PDV list.
pub open spec fn labelled(c: CursorModel) -> Result<PdvModel, Error> {
    match c.tagged(univ(2, false)) {
        Err(e) => Err(e),
        Ok(n) => match n.integer() {
            Err(e) => Err(e),
            Ok(id) => if !(0 <= id <= u16::MAX) {
                bad(DecodeReason::BadValue, n.value_offset)
            } else {
                match c.rest().first() {
                    Err(e) => Err(e),
                    Ok(v) => match values_of(v) {
                        Err(e) => Err(e),
                        Ok(values) => Ok(PdvModel { context_id: id as u16, values }),
                    },
                }
            },
        },
    }
}

/// The tag and the contents octets of PDV values.
pub open spec fn values_field(m: PdvValuesModel) -> (Tag, Seq<u8>) {
    match m {
        PdvValuesModel::SingleAsn1Type(v) => (ctx_cons(0), v),
        PdvValuesModel::OctetAligned(v) => (ctx(1), v),
        PdvValuesModel::Arbitrary { unused, bytes } => (ctx(2), bit_octets(unused, bytes)),
    }
}

impl<'a> Element<'a> for Pdv<'a> {
    open spec fn read(t: TlvModel, limits: Limits) -> Result<PdvModel, Error> {
        match t.expect(univ(16, true)) {
            Err(e) => Err(e),
            Ok(t) => match t.children().first() {
                Err(e) => Err(e),
                Ok(n) => if n.tag == univ(6, false) {
                    labelled(t.children().rest())
                } else {
                    labelled(t.children())
                },
            },
        }
    }

    open spec fn fault(m: PdvModel) -> Option<Error> {
        match m.values {
            PdvValuesModel::Arbitrary { unused, bytes } => bits_fault(unused, bytes),
            _ => None,
        }
    }

    open spec fn tag_of(m: PdvModel) -> Tag {
        univ(16, true)
    }

    open spec fn contents_of(m: PdvModel) -> Seq<u8> {
        tlv(univ(2, false), sint_octets(m.context_id as int)) + tlv(
            values_field(m.values).0,
            values_field(m.values).1,
        )
    }

    open spec fn fits(m: PdvModel, limits: Limits) -> bool {
        true
    }

    open spec fn same(a: PdvModel, b: PdvModel) -> bool {
        a == b
    }

    fn read_element(t: &Tlv<'a>, limits: &Limits) -> (r: Result<Self, Error>) {
        let t = (*t).expect(Tag::universal(UNIVERSAL_SEQUENCE, true))?;
        let mut c = t.children();
        let mut next = c.next_required()?;
        if next.tag == Tag::universal(UNIVERSAL_OID, false) {
            next = c.next_required()?;
        }
        let id = next.expect(Tag::universal(UNIVERSAL_INTEGER, false))?.integer_i64()?;
        if id < 0 || id > 0xFFFF {
            return Err(Error::decode(DecodeReason::BadValue, next.value_offset));
        }
        let v = c.next_required()?;
        let values = if v.tag == Tag::context_constructed(0) {
            PdvValues::SingleAsn1Type(v.value)
        } else if v.tag == Tag::context(1) {
            PdvValues::OctetAligned(v.value)
        } else if v.tag == Tag::context(2) {
            let (unused, bytes) = v.bit_string()?;
            PdvValues::Arbitrary { unused, bytes }
        } else {
            return Err(Error::decode(DecodeReason::UnexpectedTag, v.offset));
        };
        Ok(Pdv { context_id: id as u16, values })
    }

    fn write_element(&self, e: &mut Encoder) -> (r: Result<(), Error>) {
        let mut body = Encoder::new();
        body.integer(Tag::universal(UNIVERSAL_INTEGER, false), self.context_id as i64);
        match self.values {
            PdvValues::SingleAsn1Type(v) => body.primitive(Tag::context_constructed(0), v),
            PdvValues::OctetAligned(v) => body.primitive(Tag::context(1), v),
            PdvValues::Arbitrary { unused, bytes } => {
                body.bit_string(Tag::context(2), unused, bytes)?;
            },
        }
        assert(body@ =~= Self::contents_of(self@));
        e.constructed(Tag::universal(UNIVERSAL_SEQUENCE, true), &body);
        Ok(())
    }

    proof fn round_trip(m: PdvModel, limits: Limits, offset: usize) {
        broadcast use laws::lemma_tlv_len;

        let c = laws::element_at(univ(16, true), Self::contents_of(m), offset).children();
        let (tag, v) = values_field(m.values);
        laws::lemma_integer(univ(2, false), m.context_id as i64, tlv(tag, v), c.offset);
        laws::lemma_only(tag, v, c.rest().offset);
        if let PdvValuesModel::Arbitrary { unused, bytes } = m.values {
            laws::lemma_bits_field(tag, unused, bytes, c.rest().offset);
        }
    }

    proof fn decoded(t: TlvModel, limits: Limits) {
    }

    proof fn same_octets(a: PdvModel, b: PdvModel) {
    }
}

// ---- decoding --------------------------------------------------------------------------

/// The parameters after one more is read, and whether only a responder sends it. Unknown ones
/// are skipped.
pub open spec fn with_parameter(p: TlvModel, cp: CpModel) -> Result<(CpModel, bool), Error> {
    let n = p.tag.number;
    if !p.tag.constructed && n == 0 {
        match p.bits() {
            Err(e) => Err(e),
            Ok(b) => Ok((CpModel { protocol_version: Some(b), ..cp }, false)),
        }
    } else if !p.tag.constructed && n == 1 {
        Ok((CpModel { calling_psel: Some(p.value), ..cp }, false))
    } else if !p.tag.constructed && n == 2 {
        Ok((CpModel { called_psel: Some(p.value), ..cp }, false))
    } else if !p.tag.constructed && n == 3 {
        Ok((CpModel { responding_psel: Some(p.value), ..cp }, true))
    } else if p.tag.constructed && n == 4 {
        match contexts_in(p.children(), p.offset, cp.contexts) {
            Err(e) => Err(e),
            Ok(contexts) => Ok((CpModel { contexts, ..cp }, false)),
        }
    } else if p.tag.constructed && n == 5 {
        match listed::<ContextResult<'static>>(p.children(), default_limits(), None, cp.results) {
            Err(e) => Err(e),
            Ok(results) => Ok((CpModel { results, ..cp }, true)),
        }
    } else if !p.tag.constructed && n == 8 {
        match p.bits() {
            Err(e) => Err(e),
            Ok(b) => Ok((CpModel { requirements: Some(b), ..cp }, false)),
        }
    } else if !p.tag.constructed && n == 10 {
        match p.integer() {
            Err(e) => Err(e),
            Ok(v) => Ok((CpModel { provider_reason: Some(v), ..cp }, false)),
        }
    } else if p.tag.class == Class::Application && n == 1 {
        match pdvs_of(p) {
            Err(e) => Err(e),
            Ok(user_data) => Ok((CpModel { user_data, ..cp }, false)),
        }
    } else {
        Ok((cp, false))
    }
}

/// The PDV lists of user data.
pub open spec fn pdvs_of(t: TlvModel) -> Result<Seq<PdvModel>, Error> {
    listed::<Pdv<'static>>(t.children(), default_limits(), None, Seq::empty())
}

/// The parameters after all that a cursor still holds are read, and whether one of them is
/// only a responder's.
pub open spec fn with_parameters(c: CursorModel, cp: CpModel, responder: bool) -> Result<
    (CpModel, bool),
    Error,
>
    decreases c.bytes.len(),
    via with_parameters_shrink
{
    if c.bytes.len() == 0 {
        Ok((cp, responder))
    } else {
        match c.first() {
            Err(e) => Err(e),
            Ok(p) => match with_parameter(p, cp) {
                Err(e) => Err(e),
                Ok((next, own)) => with_parameters(c.rest(), next, responder || own),
            },
        }
    }
}

#[via_fn]
proof fn with_parameters_shrink(c: CursorModel, cp: CpModel, responder: bool) {
    laws::lemma_progress(c);
}

/// What has been read of a CP or CPA.
pub struct Handshake {
    pub mode: i64,
    pub cp: CpModel,
    pub responder: bool,
}

/// What is known after one more element of a CP or CPA.
pub open spec fn with_handshake_field(f: TlvModel, h: Handshake) -> Result<Handshake, Error> {
    if f.tag.constructed && f.tag.number == 0 {
        match f.children().integer(ctx(0)) {
            Err(e) => Err(e),
            Ok(mode) => Ok(Handshake { mode, ..h }),
        }
    } else if f.tag.constructed && f.tag.number == 2 {
        match with_parameters(f.children(), h.cp, h.responder) {
            Err(e) => Err(e),
            Ok((cp, responder)) => Ok(Handshake { cp, responder, ..h }),
        }
    } else {
        Ok(h)
    }
}

/// What is known after all elements that a cursor still holds.
pub open spec fn with_handshake(c: CursorModel, h: Handshake) -> Result<Handshake, Error>
    decreases c.bytes.len(),
    via with_handshake_shrinks
{
    if c.bytes.len() == 0 {
        Ok(h)
    } else {
        match c.first() {
            Err(e) => Err(e),
            Ok(f) => match with_handshake_field(f, h) {
                Err(e) => Err(e),
                Ok(next) => with_handshake(c.rest(), next),
            },
        }
    }
}

#[via_fn]
proof fn with_handshake_shrinks(c: CursorModel, h: Handshake) {
    laws::lemma_progress(c);
}

/// Nothing is known yet.
pub open spec fn no_handshake() -> Handshake {
    Handshake { mode: 0, cp: no_parameters(), responder: false }
}

/// The PDU that octets start with, during the handshake or after it.
#[verifier::opaque]
pub open spec fn ppdu_of(b: Seq<u8>, handshake: bool) -> Result<PpduModel, Error> {
    match (CursorModel { bytes: b, offset: 0 }).first() {
        Err(e) => Err(e),
        Ok(top) => if !handshake {
            match top.expect(app_cons(1)) {
                Err(e) => Err(e),
                Ok(t) => match pdvs_of(t) {
                    Err(e) => Err(e),
                    Ok(p) => Ok(PpduModel::UserData(p)),
                },
            }
        } else if top.tag == univ(16, true) {
            match with_parameters(top.children(), no_parameters(), false) {
                Err(e) => Err(e),
                Ok((cp, _)) => Ok(PpduModel::Reject(cp)),
            }
        } else {
            match top.expect(univ(17, true)) {
                Err(e) => Err(e),
                Ok(t) => match with_handshake(t.children(), no_handshake()) {
                    Err(e) => Err(e),
                    Ok(h) => if h.mode != MODE_NORMAL {
                        bad(DecodeReason::BadValue, top.value_offset)
                    } else if h.responder {
                        Ok(PpduModel::Accept(h.cp))
                    } else {
                        Ok(PpduModel::Connect(h.cp))
                    },
                },
            }
        },
    }
}

fn read_pdvs<'a>(t: &Tlv<'a>) -> (r: Result<Vec<Pdv<'a>>, Error>)
    ensures
        agrees_list(r, pdvs_of(t@)),
{
    read_list(t.children(), &Limits::default(), None)
}

fn read_parameter<'a>(p: &Tlv<'a>, cp: Cp<'a>) -> (r: Result<(Cp<'a>, bool), Error>)
    ensures
        match r {
            Ok(x) => with_parameter(p@, cp@) == Ok::<(CpModel, bool), Error>((x.0@, x.1)),
            Err(e) => with_parameter(p@, cp@) == Err::<(CpModel, bool), Error>(e),
        },
{
    let mut cp = cp;
    let mut own = false;
    if p.tag.constructed {
        if p.tag.number == 4 {
            cp = Cp { contexts: read_contexts(p, cp.contexts)?, ..cp };
        } else if p.tag.number == 5 {
            cp = Cp {
                results: extend_list(p.children(), &Limits::default(), None, cp.results)?,
                ..cp
            };
            own = true;
        } else if p.tag.class == Class::Application && p.tag.number == 1 {
            cp.user_data = read_pdvs(p)?;
        }
    } else {
        match p.tag.number {
            0 => {
                cp.protocol_version = Some(p.bit_string()?);
            },
            1 => {
                cp.calling_psel = Some(p.value);
            },
            2 => {
                cp.called_psel = Some(p.value);
            },
            3 => {
                cp.responding_psel = Some(p.value);
                own = true;
            },
            8 => {
                cp.requirements = Some(p.bit_string()?);
            },
            10 => {
                cp.provider_reason = Some(p.integer_i64()?);
            },
            _ => {},
        }
    }
    Ok((cp, own))
}

fn read_parameters<'a>(field: &Tlv<'a>, cp: Cp<'a>, responder: bool) -> (r: Result<
    (Cp<'a>, bool),
    Error,
>)
    ensures
        ({
            let s = with_parameters(field@.children(), cp@, responder);
            match r {
                Ok(x) => s == Ok::<(CpModel, bool), Error>((x.0@, x.1)),
                Err(e) => s == Err::<(CpModel, bool), Error>(e),
            }
        }),
{
    let mut out = cp;
    let mut seen = responder;
    let mut c = field.children();
    while !c.is_empty()
        invariant
            with_parameters(field@.children(), cp@, responder) == with_parameters(c@, out@, seen),
        decreases c@.bytes.len(),
    {
        proof {
            laws::lemma_progress(c@);
        }
        let p = c.next_required()?;
        let (next, own) = read_parameter(&p, out)?;
        out = next;
        seen = seen || own;
    }
    Ok((out, seen))
}

// ---- encoding --------------------------------------------------------------------------

/// The contents of the context definition list, unless it is empty.
pub open spec fn contexts_contents(s: Seq<ContextDefinitionModel>) -> Option<Seq<u8>> {
    if s.len() == 0 {
        None
    } else {
        Some(list_bytes::<ContextDefinition<'static>>(s))
    }
}

/// The contents of the result list, unless it is empty.
pub open spec fn results_contents(s: Seq<ContextResultModel>) -> Option<Seq<u8>> {
    if s.len() == 0 {
        None
    } else {
        Some(list_bytes::<ContextResult<'static>>(s))
    }
}

/// The contents of the user data, unless there is none.
pub open spec fn pdvs_contents(s: Seq<PdvModel>) -> Option<Seq<u8>> {
    if s.len() == 0 {
        None
    } else {
        Some(list_bytes::<Pdv<'static>>(s))
    }
}

/// The contents of an optional integer.
pub open spec fn integer_contents(v: Option<i64>) -> Option<Seq<u8>> {
    match v {
        Some(v) => Some(sint_octets(v as int)),
        None => None,
    }
}

/// The parameters from the context definitions on.
pub open spec fn lists_contents(cp: CpModel) -> Seq<u8> {
    opt_bytes(ctx_cons(4), contexts_contents(cp.contexts)) + (opt_bytes(
        ctx_cons(5),
        results_contents(cp.results),
    ) + (opt_bytes(ctx(8), bits_contents(cp.requirements)) + (opt_bytes(
        ctx(10),
        integer_contents(cp.provider_reason),
    ) + opt_bytes(app_cons(1), pdvs_contents(cp.user_data)))))
}

/// The normal-mode parameters, in the order of the tags and the user data last.
pub open spec fn parameters_contents(cp: CpModel) -> Seq<u8> {
    opt_bytes(ctx(0), bits_contents(cp.protocol_version)) + (opt_bytes(ctx(1), cp.calling_psel) + (
    opt_bytes(ctx(2), cp.called_psel) + (opt_bytes(ctx(3), cp.responding_psel) + lists_contents(
        cp,
    ))))
}

/// Why the last parameters have no encoding.
pub open spec fn lists_fault(cp: CpModel) -> Option<Error> {
    first_fault(opt_bits_fault(cp.requirements), list_fault::<Pdv<'static>>(cp.user_data))
}

/// Why normal-mode parameters have no encoding.
pub open spec fn parameters_fault(cp: CpModel) -> Option<Error> {
    first_fault(opt_bits_fault(cp.protocol_version), lists_fault(cp))
}

/// The mode selector.
pub open spec fn mode_bytes() -> Seq<u8> {
    tlv(ctx_cons(0), tlv(ctx(0), sint_octets(MODE_NORMAL as int)))
}

/// The octets of a PDU.
pub open spec fn ppdu_bytes(m: PpduModel) -> Seq<u8> {
    match m {
        PpduModel::UserData(p) => tlv(app_cons(1), list_bytes::<Pdv<'static>>(p)),
        PpduModel::Reject(cp) => tlv(univ(16, true), parameters_contents(cp)),
        PpduModel::Connect(cp) => tlv(
            univ(17, true),
            mode_bytes() + tlv(ctx_cons(2), parameters_contents(cp)),
        ),
        PpduModel::Accept(cp) => tlv(
            univ(17, true),
            mode_bytes() + tlv(ctx_cons(2), parameters_contents(cp)),
        ),
    }
}

/// Why a PDU has no encoding.
pub open spec fn ppdu_fault(m: PpduModel) -> Option<Error> {
    match m {
        PpduModel::UserData(p) => list_fault::<Pdv<'static>>(p),
        PpduModel::Reject(cp) => parameters_fault(cp),
        PpduModel::Connect(cp) => parameters_fault(cp),
        PpduModel::Accept(cp) => parameters_fault(cp),
    }
}

fn write_pdvs(pdvs: &[Pdv<'_>], e: &mut Encoder) -> (r: Result<(), Error>)
    ensures
        wrote(
            r,
            old(e)@,
            final(e)@,
            list_fault::<Pdv<'static>>(views(pdvs@)),
            tlv(app_cons(1), list_bytes::<Pdv<'static>>(views(pdvs@))),
        ),
{
    let body = write_list(pdvs)?;
    e.constructed(Tag::application_constructed(1), &body);
    Ok(())
}

proof fn lemma_no_context_fault(s: Seq<ContextDefinitionModel>, i: nat)
    ensures
        list_fault_from::<ContextDefinition<'static>>(s, i) is None,
    decreases s.len() - i,
{
    if i < s.len() {
        lemma_no_context_fault(s, i + 1);
    }
}

proof fn lemma_no_result_fault(s: Seq<ContextResultModel>, i: nat)
    ensures
        list_fault_from::<ContextResult<'static>>(s, i) is None,
    decreases s.len() - i,
{
    if i < s.len() {
        lemma_no_result_fault(s, i + 1);
    }
}

fn write_lists(cp: &Cp<'_>, e: &mut Encoder) -> (r: Result<(), Error>)
    ensures
        match lists_fault(cp@) {
            None => r is Ok && final(e)@ == old(e)@ + lists_contents(cp@),
            Some(f) => r == Err::<(), Error>(f),
        },
{
    proof {
        lemma_no_context_fault(cp@.contexts, 0);
        lemma_no_result_fault(cp@.results, 0);
    }
    if cp.contexts.len() > 0 {
        let body = write_list(cp.contexts.as_slice())?;
        e.constructed(Tag::context_constructed(4), &body);
    }
    let ghost p4 = opt_bytes(ctx_cons(4), contexts_contents(cp@.contexts));
    assert(e@ =~= old(e)@ + p4);
    if cp.results.len() > 0 {
        let body = write_list(cp.results.as_slice())?;
        e.constructed(Tag::context_constructed(5), &body);
    }
    let ghost p5 = opt_bytes(ctx_cons(5), results_contents(cp@.results));
    assert(e@ =~= old(e)@ + p4 + p5);
    e.opt_bit_string(Tag::context(8), cp.requirements)?;
    let ghost p8 = opt_bytes(ctx(8), bits_contents(cp@.requirements));
    assert(e@ =~= old(e)@ + p4 + p5 + p8);
    e.opt_integer(Tag::context(10), cp.provider_reason);
    let ghost p10 = opt_bytes(ctx(10), integer_contents(cp@.provider_reason));
    assert(e@ =~= old(e)@ + p4 + p5 + p8 + p10);
    if cp.user_data.len() > 0 {
        write_pdvs(cp.user_data.as_slice(), e)?;
    }
    assert(e@ =~= old(e)@ + lists_contents(cp@));
    Ok(())
}

fn write_parameters(cp: &Cp<'_>) -> (r: Result<Encoder, Error>)
    ensures
        match parameters_fault(cp@) {
            None => r matches Ok(e) && e@ == parameters_contents(cp@),
            Some(f) => r == Err::<Encoder, Error>(f),
        },
{
    let mut e = Encoder::new();
    e.opt_bit_string(Tag::context(0), cp.protocol_version)?;
    let ghost p0 = opt_bytes(ctx(0), bits_contents(cp@.protocol_version));
    assert(e@ =~= p0);
    e.opt_primitive(Tag::context(1), cp.calling_psel);
    e.opt_primitive(Tag::context(2), cp.called_psel);
    e.opt_primitive(Tag::context(3), cp.responding_psel);
    write_lists(cp, &mut e)?;
    assert(e@ =~= parameters_contents(cp@));
    Ok(e)
}

impl<'a> Ppdu<'a> {
    /// Decode a PDU. During the handshake it is a CP, CPA or CPR; after it, user data.
    pub fn parse(buf: &'a [u8], handshake: bool) -> (r: Result<Ppdu<'a>, Error>)
        ensures
            agrees(r, ppdu_of(buf@, handshake)),
    {
        reveal(ppdu_of);
        let top = Cursor::new(buf).next_required()?;
        if !handshake {
            let t = top.expect(Tag::application_constructed(1))?;
            return Ok(Ppdu::UserData(read_pdvs(&t)?));
        }
        if top.tag == Tag::universal(UNIVERSAL_SEQUENCE, true) {
            let (cp, _) = read_parameters(&top, Default::default(), false)?;
            return Ok(Ppdu::Reject(cp));
        }
        let mut cp: Cp<'a> = Default::default();
        let mut mode: i64 = 0;
        let mut responder = false;
        let mut c = top.expect(Tag::universal(17, true))?.children();
        let ghost all = c@;
        while !c.is_empty()
            invariant
                with_handshake(all, no_handshake()) == with_handshake(
                    c@,
                    Handshake { mode, cp: cp@, responder },
                ),
                top@.expect(univ(17, true)) == Ok::<TlvModel, Error>(top@),
                all == top@.children(),
                handshake,
                top@.tag != univ(16, true),
                (CursorModel { bytes: buf@, offset: 0 }).first() == Ok::<TlvModel, Error>(top@),
            decreases c@.bytes.len(),
        {
            proof {
                reveal(ppdu_of);
                laws::lemma_progress(c@);
            }
            let f = c.next_required()?;
            if f.tag.constructed && f.tag.number == 0 {
                mode = f.children().next_tag(Tag::context(0))?.integer_i64()?;
            } else if f.tag.constructed && f.tag.number == 2 {
                let (next, seen) = read_parameters(&f, cp, responder)?;
                cp = next;
                responder = seen;
            }
        }
        if mode != MODE_NORMAL {
            return Err(Error::decode(DecodeReason::BadValue, top.value_offset));
        }
        if responder {
            Ok(Ppdu::Accept(cp))
        } else {
            Ok(Ppdu::Connect(cp))
        }
    }

    /// Encode into `out`.
    pub fn write(&self, out: &mut Encoder) -> (r: Result<(), Error>)
        ensures
            wrote(r, old(out)@, final(out)@, ppdu_fault(self@), ppdu_bytes(self@)),
    {
        match self {
            Ppdu::UserData(pdvs) => write_pdvs(pdvs.as_slice(), out),
            Ppdu::Reject(cp) => {
                let body = write_parameters(cp)?;
                out.constructed(Tag::universal(UNIVERSAL_SEQUENCE, true), &body);
                Ok(())
            },
            Ppdu::Connect(cp) | Ppdu::Accept(cp) => {
                let body = write_parameters(cp)?;
                let mut value = Encoder::new();
                value.integer(Tag::context(0), MODE_NORMAL);
                assert(value@ =~= tlv(ctx(0), sint_octets(MODE_NORMAL as int)));
                let mut set = Encoder::new();
                set.constructed(Tag::context_constructed(0), &value);
                set.constructed(Tag::context_constructed(2), &body);
                assert(set@ =~= mode_bytes() + tlv(ctx_cons(2), parameters_contents(cp@)));
                out.constructed(Tag::universal(17, true), &set);
                Ok(())
            },
        }
    }

    /// Encode into a new buffer.
    pub fn to_vec(&self) -> (r: Result<Vec<u8>, Error>)
        ensures
            match ppdu_fault(self@) {
                None => r matches Ok(b) && b@ == ppdu_bytes(self@),
                Some(f) => r == Err::<Vec<u8>, Error>(f),
            },
    {
        let mut e = Encoder::new();
        self.write(&mut e)?;
        assert(e@ =~= ppdu_bytes(self@));
        Ok(e.into_vec())
    }
}

// ---- laws ------------------------------------------------------------------------------

/// An optional parameter that reads as expected takes the parameters from `a` to `b`.
proof fn lemma_step(
    tag: Tag,
    v: Option<Seq<u8>>,
    rest: Seq<u8>,
    offset: usize,
    a: CpModel,
    b: CpModel,
    before: bool,
    own: bool,
) -> (next: usize)
    requires
        match v {
            Some(x) => x.len() <= u64::MAX && with_parameter(laws::element_at(tag, x, offset), a)
                == Ok::<(CpModel, bool), Error>((b, own)),
            None => a == b && !own,
        },
    ensures
        with_parameters(CursorModel { bytes: opt_bytes(tag, v) + rest, offset }, a, before)
            == with_parameters(CursorModel { bytes: rest, offset: next }, b, before || own),
{
    match v {
        Some(x) => {
            laws::lemma_first(tag, x, rest, offset);
            laws::lemma_tlv_len(tag, x);
            laws::cursor_after(tag, x, rest, offset).offset
        },
        None => {
            assert(opt_bytes(tag, v) + rest =~= rest);
            offset
        },
    }
}

proof fn lemma_contexts_round_trip(s: Seq<ContextDefinitionModel>, at: usize, offset: usize)
    requires
        list_bytes::<ContextDefinition<'static>>(s).len() <= u64::MAX,
    ensures
        contexts_in(
            CursorModel { bytes: list_bytes::<ContextDefinition<'static>>(s), offset },
            at,
            Seq::empty(),
        ) == Ok::<Seq<ContextDefinitionModel>, Error>(s),
{
    lemma_no_context_fault(s, 0);
    lemma_list_round_trip::<ContextDefinition<'static>>(s, default_limits(), None, offset);
    let c = CursorModel { bytes: list_bytes::<ContextDefinition<'static>>(s), offset };
    lemma_contexts_in(c, at, Seq::empty());
    let x = listed::<ContextDefinition<'static>>(c, default_limits(), None, Seq::empty())->Ok_0;
    assert(x =~= s);
}

proof fn lemma_results_round_trip(s: Seq<ContextResultModel>, offset: usize)
    requires
        list_bytes::<ContextResult<'static>>(s).len() <= u64::MAX,
    ensures
        listed::<ContextResult<'static>>(
            CursorModel { bytes: list_bytes::<ContextResult<'static>>(s), offset },
            default_limits(),
            None,
            Seq::empty(),
        ) == Ok::<Seq<ContextResultModel>, Error>(s),
{
    lemma_no_result_fault(s, 0);
    lemma_list_round_trip::<ContextResult<'static>>(s, default_limits(), None, offset);
    let c = CursorModel { bytes: list_bytes::<ContextResult<'static>>(s), offset };
    let x = listed::<ContextResult<'static>>(c, default_limits(), None, Seq::empty())->Ok_0;
    assert(x =~= s);
}

proof fn lemma_pdvs_round_trip(s: Seq<PdvModel>, offset: usize)
    requires
        list_fault::<Pdv<'static>>(s) is None,
        list_bytes::<Pdv<'static>>(s).len() <= u64::MAX,
    ensures
        listed::<Pdv<'static>>(
            CursorModel { bytes: list_bytes::<Pdv<'static>>(s), offset },
            default_limits(),
            None,
            Seq::empty(),
        ) == Ok::<Seq<PdvModel>, Error>(s),
{
    lemma_list_round_trip::<Pdv<'static>>(s, default_limits(), None, offset);
    let c = CursorModel { bytes: list_bytes::<Pdv<'static>>(s), offset };
    let x = listed::<Pdv<'static>>(c, default_limits(), None, Seq::empty())->Ok_0;
    assert(x =~= s);
}

/// Whether the parameters hold one that only a responder sends.
pub open spec fn responds(cp: CpModel) -> bool {
    cp.responding_psel is Some || cp.results.len() > 0
}

proof fn lemma_lists_round_trip(cp: CpModel, start: CpModel, before: bool, offset: usize)
    requires
        lists_fault(cp) is None,
        lists_contents(cp).len() <= u64::MAX,
        start == (CpModel {
            contexts: Seq::empty(),
            results: Seq::empty(),
            requirements: None,
            provider_reason: None,
            user_data: Seq::empty(),
            ..cp
        }),
    ensures
        with_parameters(CursorModel { bytes: lists_contents(cp), offset }, start, before) == Ok::<
            (CpModel, bool),
            Error,
        >((cp, before || cp.results.len() > 0)),
{
    broadcast use laws::lemma_tlv_len;

    let p4 = opt_bytes(app_cons(1), pdvs_contents(cp.user_data));
    let p3 = opt_bytes(ctx(10), integer_contents(cp.provider_reason)) + p4;
    let p2 = opt_bytes(ctx(8), bits_contents(cp.requirements)) + p3;
    let p1 = opt_bytes(ctx_cons(5), results_contents(cp.results)) + p2;
    let s1 = CpModel { contexts: cp.contexts, ..start };
    if cp.contexts.len() > 0 {
        let v = list_bytes::<ContextDefinition<'static>>(cp.contexts);
        let t = laws::element_at(ctx_cons(4), v, offset);
        lemma_contexts_round_trip(cp.contexts, t.offset, t.value_offset);
    } else {
        assert(cp.contexts =~= start.contexts);
    }
    let o1 = lemma_step(
        ctx_cons(4),
        contexts_contents(cp.contexts),
        p1,
        offset,
        start,
        s1,
        before,
        false,
    );
    let s2 = CpModel { results: cp.results, ..s1 };
    let own = cp.results.len() > 0;
    if own {
        let v = list_bytes::<ContextResult<'static>>(cp.results);
        lemma_results_round_trip(
            cp.results,
            laws::element_at(ctx_cons(5), v, o1).value_offset,
        );
    } else {
        assert(cp.results =~= s1.results);
    }
    let o2 = lemma_step(ctx_cons(5), results_contents(cp.results), p2, o1, s1, s2, before, own);
    let now = before || own;
    let s3 = CpModel { requirements: cp.requirements, ..s2 };
    if let Some((unused, bytes)) = cp.requirements {
        laws::lemma_bits_field(ctx(8), unused, bytes, o2);
    }
    let o3 = lemma_step(ctx(8), bits_contents(cp.requirements), p3, o2, s2, s3, now, false);
    let s4 = CpModel { provider_reason: cp.provider_reason, ..s3 };
    if let Some(v) = cp.provider_reason {
        laws::lemma_integer_field(ctx(10), v, o3);
    }
    let o4 = lemma_step(ctx(10), integer_contents(cp.provider_reason), p4, o3, s3, s4, now, false);
    if cp.user_data.len() > 0 {
        let v = list_bytes::<Pdv<'static>>(cp.user_data);
        lemma_pdvs_round_trip(cp.user_data, laws::element_at(app_cons(1), v, o4).value_offset);
    } else {
        assert(cp.user_data =~= s4.user_data);
    }
    let none = Seq::<u8>::empty();
    assert(p4 + none =~= p4);
    let o5 = lemma_step(app_cons(1), pdvs_contents(cp.user_data), none, o4, s4, cp, now, false);
}

proof fn lemma_parameters_round_trip(cp: CpModel, offset: usize)
    requires
        parameters_fault(cp) is None,
        parameters_contents(cp).len() <= u64::MAX,
    ensures
        with_parameters(
            CursorModel { bytes: parameters_contents(cp), offset },
            no_parameters(),
            false,
        ) == Ok::<(CpModel, bool), Error>((cp, responds(cp))),
{
    broadcast use laws::lemma_tlv_len;

    let p4 = lists_contents(cp);
    let p3 = opt_bytes(ctx(3), cp.responding_psel) + p4;
    let p2 = opt_bytes(ctx(2), cp.called_psel) + p3;
    let p1 = opt_bytes(ctx(1), cp.calling_psel) + p2;
    let s0 = no_parameters();
    let s1 = CpModel { protocol_version: cp.protocol_version, ..s0 };
    if let Some((unused, bytes)) = cp.protocol_version {
        laws::lemma_bits_field(ctx(0), unused, bytes, offset);
    }
    let o1 = lemma_step(
        ctx(0),
        bits_contents(cp.protocol_version),
        p1,
        offset,
        s0,
        s1,
        false,
        false,
    );
    let s2 = CpModel { calling_psel: cp.calling_psel, ..s1 };
    let o2 = lemma_step(ctx(1), cp.calling_psel, p2, o1, s1, s2, false, false);
    let s3 = CpModel { called_psel: cp.called_psel, ..s2 };
    let o3 = lemma_step(ctx(2), cp.called_psel, p3, o2, s2, s3, false, false);
    let s4 = CpModel { responding_psel: cp.responding_psel, ..s3 };
    let own = cp.responding_psel is Some;
    let o4 = lemma_step(ctx(3), cp.responding_psel, p4, o3, s3, s4, false, own);
    lemma_lists_round_trip(cp, s4, own, o4);
}

proof fn lemma_handshake_round_trip(cp: CpModel, offset: usize)
    requires
        parameters_fault(cp) is None,
        parameters_contents(cp).len() <= u64::MAX,
    ensures
        with_handshake(
            CursorModel {
                bytes: mode_bytes() + tlv(ctx_cons(2), parameters_contents(cp)),
                offset,
            },
            no_handshake(),
        ) == Ok::<Handshake, Error>(Handshake { mode: MODE_NORMAL, cp, responder: responds(cp) }),
{
    broadcast use laws::lemma_tlv_len;

    let one = sint_octets(MODE_NORMAL as int);
    let sel = tlv(ctx(0), one);
    let v = parameters_contents(cp);
    let last = tlv(ctx_cons(2), v);
    laws::lemma_integer_field(ctx(0), MODE_NORMAL, offset);
    laws::lemma_small(ctx(0), one);
    laws::lemma_first(ctx_cons(0), sel, last, offset);
    let t = laws::element_at(ctx_cons(0), sel, offset);
    laws::lemma_integer(ctx(0), MODE_NORMAL, Seq::empty(), t.value_offset);
    assert(sel + Seq::<u8>::empty() =~= sel);
    let c = CursorModel { bytes: mode_bytes() + last, offset };
    let c1 = c.rest();
    laws::lemma_only(ctx_cons(2), v, c1.offset);
    let t1 = laws::element_at(ctx_cons(2), v, c1.offset);
    lemma_parameters_round_trip(cp, t1.value_offset);
    let h1 = Handshake { mode: MODE_NORMAL, ..no_handshake() };
    let h2 = Handshake { mode: MODE_NORMAL, cp, responder: responds(cp) };
    assert(with_handshake_field(t, no_handshake()) == Ok::<Handshake, Error>(h1));
    assert(with_handshake(c, no_handshake()) == with_handshake(c1, h1));
    assert(with_handshake_field(t1, h1) == Ok::<Handshake, Error>(h2));
    assert(with_handshake(c1, h1) == with_handshake(c1.rest(), h2));
}

/// Whether a PDU arrives during the handshake.
pub open spec fn in_handshake(m: PpduModel) -> bool {
    !(m is UserData)
}

/// A CP holds nothing that only a responder sends, and a CPA something.
pub open spec fn ppdu_fits(m: PpduModel) -> bool {
    match m {
        PpduModel::Connect(cp) => !responds(cp),
        PpduModel::Accept(cp) => responds(cp),
        _ => true,
    }
}

/// A PDU that has an encoding reads back as it was.
pub proof fn lemma_ppdu_round_trip(m: PpduModel)
    requires
        ppdu_fault(m) is None,
        ppdu_fits(m),
        ppdu_bytes(m).len() <= u64::MAX,
    ensures
        ppdu_of(ppdu_bytes(m), in_handshake(m)) == Ok::<PpduModel, Error>(m),
{
    reveal(ppdu_of);
    broadcast use laws::lemma_tlv_len;

    match m {
        PpduModel::UserData(p) => {
            let v = list_bytes::<Pdv<'static>>(p);
            laws::lemma_only(app_cons(1), v, 0);
            lemma_pdvs_round_trip(p, laws::element_at(app_cons(1), v, 0).value_offset);
        },
        PpduModel::Reject(cp) => {
            let v = parameters_contents(cp);
            laws::lemma_only(univ(16, true), v, 0);
            lemma_parameters_round_trip(cp, laws::element_at(univ(16, true), v, 0).value_offset);
        },
        PpduModel::Connect(cp) => {
            let v = mode_bytes() + tlv(ctx_cons(2), parameters_contents(cp));
            laws::lemma_only(univ(17, true), v, 0);
            lemma_handshake_round_trip(cp, laws::element_at(univ(17, true), v, 0).value_offset);
        },
        PpduModel::Accept(cp) => {
            let v = mode_bytes() + tlv(ctx_cons(2), parameters_contents(cp));
            laws::lemma_only(univ(17, true), v, 0);
            lemma_handshake_round_trip(cp, laws::element_at(univ(17, true), v, 0).value_offset);
        },
    }
}

proof fn lemma_parameters_decoded(c: CursorModel, cp: CpModel, responder: bool)
    requires
        parameters_fault(cp) is None,
        responds(cp) ==> responder,
    ensures
        with_parameters(c, cp, responder) matches Ok((x, own)) ==> parameters_fault(x) is None && (
        responds(x) ==> own),
    decreases c.bytes.len(),
{
    if c.bytes.len() > 0 {
        laws::lemma_progress(c);
        if let Ok(p) = c.first() {
            lemma_list_decoded::<Pdv<'static>>(p.children(), default_limits(), None);
            if let Ok((next, own)) = with_parameter(p, cp) {
                lemma_parameters_decoded(c.rest(), next, responder || own);
            }
        }
    }
}

proof fn lemma_handshake_decoded(c: CursorModel, h: Handshake)
    requires
        parameters_fault(h.cp) is None,
        responds(h.cp) ==> h.responder,
    ensures
        with_handshake(c, h) matches Ok(x) ==> parameters_fault(x.cp) is None && (responds(x.cp)
            ==> x.responder),
    decreases c.bytes.len(),
{
    if c.bytes.len() > 0 {
        laws::lemma_progress(c);
        if let Ok(f) = c.first() {
            lemma_parameters_decoded(f.children(), h.cp, h.responder);
            if let Ok(next) = with_handshake_field(f, h) {
                lemma_handshake_decoded(c.rest(), next);
            }
        }
    }
}

/// Encoding is a fixed point: whatever decodes has an encoding, which decodes to the same. A CPA
/// that a list of no results alone tells from a CP is the exception, for the list is not written.
pub proof fn lemma_ppdu_fixed_point(b: Seq<u8>, handshake: bool)
    ensures
        ppdu_of(b, handshake) matches Ok(m) ==> {
            &&& ppdu_fault(m) is None
            &&& in_handshake(m) == handshake
            &&& m matches PpduModel::Connect(cp) ==> !responds(cp)
            &&& ppdu_bytes(m).len() <= u64::MAX && (m matches PpduModel::Accept(cp) ==> responds(
                cp,
            )) ==> ppdu_of(ppdu_bytes(m), handshake) == Ok::<PpduModel, Error>(m)
        },
{
    if let Ok(top) = (CursorModel { bytes: b, offset: 0 }).first() {
        lemma_faultless::<Pdv<'static>>(Seq::empty(), 0);
        lemma_list_decoded::<Pdv<'static>>(top.children(), default_limits(), None);
        lemma_parameters_decoded(top.children(), no_parameters(), false);
        lemma_handshake_decoded(top.children(), no_handshake());
        if let Ok(m) = ppdu_of(b, handshake) {
            assert(ppdu_fault(m) is None && in_handshake(m) == handshake && (
            m matches PpduModel::Connect(cp) ==> !responds(cp))) by {
                reveal(ppdu_of);
            }
            if ppdu_bytes(m).len() <= u64::MAX && ppdu_fits(m) {
                lemma_ppdu_round_trip(m);
            }
        }
    }
    reveal(ppdu_of);
}

} // verus!
