//! The MMS PDUs.

use vstd::prelude::*;
use crate::ber::laws;
use crate::ber::list::{
    lemma_list_decoded, lemma_list_round_trip, lemma_same_octets, list_bytes, list_fits, same_list,
    views, write_list,
};
use crate::ber::{
    bad, ctx, ctx_cons, opt_unsigned_bytes, sint_octets, tlv, univ, wrote, Class, Cursor,
    CursorModel, Encoder, Tag, Tlv, TlvModel, UNIVERSAL_INTEGER, UNIVERSAL_SEQUENCE,
};
use crate::common::{agrees, DecodeReason, Error, Limits};
use crate::proto::mms::initiate::{
    initiate_contents, initiate_fault, initiate_of, lemma_initiate_decoded,
    lemma_initiate_round_trip, Initiate, InitiateModel,
};
use crate::proto::mms::names::same_element;
use crate::proto::mms::reject::{
    invoke_id_in, invoke_id_of, lemma_reject_decodes_twice, lemma_reject_round_trip, reason_fits,
    reject_contents, reject_fault, reject_of, Reject,
};
use crate::proto::mms::request::{
    lemma_request_decoded, lemma_request_round_trip, lemma_same_request_octets, request_bytes,
    request_contents, request_fault, request_fits, request_of, request_tag, same_request,
    ConfirmedRequest, ConfirmedRequestModel,
};
use crate::proto::mms::response::{
    access_results_of, lemma_no_fault_in_results, lemma_response_decoded, lemma_response_round_trip,
    lemma_same_response_octets, parse_access_results, response_bytes, response_contents,
    response_fault, response_fits, response_of, response_tag, same_response, ConfirmedResponse,
    ConfirmedResponseModel,
};
use crate::proto::mms::variables::{
    access_bytes, access_contents, access_fault, access_fits, access_of, access_tag,
    lemma_access_decoded, lemma_access_round_trip, lemma_same_access_octets, members_bound,
    same_access, AccessResult, AccessResultModel, VariableAccess, VariableAccessModel,
};

verus! {

/// An unconfirmed service.
#[derive(Clone, Debug, PartialEq)]
pub enum Unconfirmed<'a> {
    /// `informationReport [0]`: how a report is delivered.
    InformationReport {
        /// The data set, or the variables, the report is about.
        access: VariableAccess<'a>,
        /// One result per member.
        results: Vec<AccessResult<'a>>,
    },
    /// Anything else, kept whole.
    Other(Tlv<'a>),
}

/// What an [`Unconfirmed`] service stands for.
pub enum UnconfirmedModel {
    InformationReport { access: VariableAccessModel, results: Seq<AccessResultModel> },
    Other(TlvModel),
}

impl<'a> View for Unconfirmed<'a> {
    type V = UnconfirmedModel;

    open spec fn view(&self) -> UnconfirmedModel {
        match *self {
            Unconfirmed::InformationReport {
                access,
                results,
            } => UnconfirmedModel::InformationReport { access: access@, results: views(results@) },
            Unconfirmed::Other(t) => UnconfirmedModel::Other(t@),
        }
    }
}

/// An MMS PDU.
#[derive(Clone, Debug, PartialEq)]
pub enum Mms<'a> {
    /// `confirmed-RequestPDU [0]`.
    ConfirmedRequest {
        /// The invoke identifier the response will carry.
        invoke_id: i64,
        /// The service.
        service: ConfirmedRequest<'a>,
    },
    /// `confirmed-ResponsePDU [1]`.
    ConfirmedResponse {
        /// The request this answers.
        invoke_id: i64,
        /// The service.
        service: ConfirmedResponse<'a>,
    },
    /// `confirmed-ErrorPDU [2]`.
    ConfirmedError {
        /// The request this answers.
        invoke_id: i64,
        /// `modifierPosition`, when the server says which modifier failed.
        modifier_position: Option<u32>,
        /// The `ServiceError`, kept encoded.
        error: Tlv<'a>,
    },
    /// `unconfirmed-PDU [3]`.
    Unconfirmed(Unconfirmed<'a>),
    /// `rejectPDU [4]`.
    Reject(Reject),
    /// `cancel-RequestPDU [5]`: withdraw the named request.
    CancelRequest(i64),
    /// `cancel-ResponsePDU [6]`: the named request was withdrawn.
    CancelResponse(i64),
    /// `cancel-ErrorPDU [7]`: it was not.
    CancelError {
        /// The request that could not be withdrawn.
        invoke_id: i64,
        /// The `ServiceError`, kept encoded.
        error: Tlv<'a>,
    },
    /// `initiate-RequestPDU [8]`.
    InitiateRequest(Initiate<'a>),
    /// `initiate-ResponsePDU [9]`.
    InitiateResponse(Initiate<'a>),
    /// `initiate-ErrorPDU [10]`, kept encoded.
    InitiateError(Tlv<'a>),
    /// `conclude-RequestPDU [11]`.
    ConcludeRequest,
    /// `conclude-ResponsePDU [12]`.
    ConcludeResponse,
    /// `conclude-ErrorPDU [13]`, kept encoded.
    ConcludeError(Tlv<'a>),
    /// Any other PDU, kept whole.
    Other(Tlv<'a>),
}

/// What an [`Mms`] PDU stands for.
pub enum MmsModel {
    ConfirmedRequest { invoke_id: i64, service: ConfirmedRequestModel },
    ConfirmedResponse { invoke_id: i64, service: ConfirmedResponseModel },
    ConfirmedError { invoke_id: i64, modifier_position: Option<u32>, error: TlvModel },
    Unconfirmed(UnconfirmedModel),
    Reject(Reject),
    CancelRequest(i64),
    CancelResponse(i64),
    CancelError { invoke_id: i64, error: TlvModel },
    InitiateRequest(InitiateModel),
    InitiateResponse(InitiateModel),
    InitiateError(TlvModel),
    ConcludeRequest,
    ConcludeResponse,
    ConcludeError(TlvModel),
    Other(TlvModel),
}

impl<'a> View for Mms<'a> {
    type V = MmsModel;

    open spec fn view(&self) -> MmsModel {
        match *self {
            Mms::ConfirmedRequest { invoke_id, service } => MmsModel::ConfirmedRequest {
                invoke_id,
                service: service@,
            },
            Mms::ConfirmedResponse { invoke_id, service } => MmsModel::ConfirmedResponse {
                invoke_id,
                service: service@,
            },
            Mms::ConfirmedError { invoke_id, modifier_position, error } => {
                MmsModel::ConfirmedError { invoke_id, modifier_position, error: error@ }
            },
            Mms::Unconfirmed(u) => MmsModel::Unconfirmed(u@),
            Mms::Reject(r) => MmsModel::Reject(r),
            Mms::CancelRequest(id) => MmsModel::CancelRequest(id),
            Mms::CancelResponse(id) => MmsModel::CancelResponse(id),
            Mms::CancelError { invoke_id, error } => MmsModel::CancelError {
                invoke_id,
                error: error@,
            },
            Mms::InitiateRequest(i) => MmsModel::InitiateRequest(i@),
            Mms::InitiateResponse(i) => MmsModel::InitiateResponse(i@),
            Mms::InitiateError(t) => MmsModel::InitiateError(t@),
            Mms::ConcludeRequest => MmsModel::ConcludeRequest,
            Mms::ConcludeResponse => MmsModel::ConcludeResponse,
            Mms::ConcludeError(t) => MmsModel::ConcludeError(t@),
            Mms::Other(t) => MmsModel::Other(t@),
        }
    }
}

// ---- decoding --------------------------------------------------------------------------

/// The invoke identifier under `tag`.
pub open spec fn invoke_id_at(c: CursorModel, tag: Tag) -> Result<i64, Error> {
    match c.tagged(tag) {
        Err(e) => Err(e),
        Ok(t) => invoke_id_in(t),
    }
}

/// The service of a confirmed request. A list of modifiers before it is skipped.
pub open spec fn service_at(c: CursorModel) -> Result<TlvModel, Error> {
    match c.first() {
        Err(e) => Err(e),
        Ok(t) => if t.tag == univ(16, true) {
            c.rest().first()
        } else {
            Ok(t)
        },
    }
}

/// A `confirmed-RequestPDU`.
pub open spec fn confirmed_request_of(top: TlvModel, limits: Limits) -> Result<MmsModel, Error> {
    let c = top.children();
    match invoke_id_at(c, univ(2, false)) {
        Err(e) => Err(e),
        Ok(invoke_id) => match service_at(c.rest()) {
            Err(e) => Err(e),
            Ok(s) => match request_of(s, limits) {
                Err(e) => Err(e),
                Ok(service) => Ok(MmsModel::ConfirmedRequest { invoke_id, service }),
            },
        },
    }
}

/// A `confirmed-ResponsePDU`.
pub open spec fn confirmed_response_of(top: TlvModel, limits: Limits) -> Result<MmsModel, Error> {
    let c = top.children();
    match invoke_id_at(c, univ(2, false)) {
        Err(e) => Err(e),
        Ok(invoke_id) => match c.rest().first() {
            Err(e) => Err(e),
            Ok(s) => match response_of(s, limits) {
                Err(e) => Err(e),
                Ok(service) => Ok(MmsModel::ConfirmedResponse { invoke_id, service }),
            },
        },
    }
}

/// A `confirmed-ErrorPDU`. The optional `modifierPosition [1]` is recognised by its tag.
pub open spec fn confirmed_error_of(top: TlvModel) -> Result<MmsModel, Error> {
    let c = top.children();
    match invoke_id_at(c, ctx(0)) {
        Err(e) => Err(e),
        Ok(invoke_id) => match c.rest().opt_unsigned32(ctx(1)) {
            Err(e) => Err(e),
            Ok(modifier_position) => match c.rest().skip_optional(ctx(1)).first() {
                Err(e) => Err(e),
                Ok(error) => Ok(
                    MmsModel::ConfirmedError { invoke_id, modifier_position, error },
                ),
            },
        },
    }
}

/// An `unconfirmed-PDU`.
pub open spec fn unconfirmed_of(top: TlvModel, limits: Limits) -> Result<MmsModel, Error> {
    match top.children().first() {
        Err(e) => Err(e),
        Ok(service) => if service.tag == ctx_cons(0) {
            let c = service.children();
            match c.first() {
                Err(e) => Err(e),
                Ok(a) => match access_of(a) {
                    Err(e) => Err(e),
                    Ok(access) => match c.rest().tagged(ctx_cons(0)) {
                        Err(e) => Err(e),
                        Ok(list) => match access_results_of(list, limits) {
                            Err(e) => Err(e),
                            Ok(results) => Ok(
                                MmsModel::Unconfirmed(
                                    UnconfirmedModel::InformationReport { access, results },
                                ),
                            ),
                        },
                    },
                },
            }
        } else {
            Ok(MmsModel::Unconfirmed(UnconfirmedModel::Other(service)))
        },
    }
}

/// A `cancel-ErrorPDU`.
pub open spec fn cancel_error_of(top: TlvModel) -> Result<MmsModel, Error> {
    let c = top.children();
    match invoke_id_at(c, ctx(0)) {
        Err(e) => Err(e),
        Ok(invoke_id) => match c.rest().first() {
            Err(e) => Err(e),
            Ok(error) => Ok(MmsModel::CancelError { invoke_id, error }),
        },
    }
}

/// The PDU an element is, by its context tag number.
#[verifier::opaque]
pub open spec fn pdu_of(top: TlvModel, limits: Limits) -> Result<MmsModel, Error> {
    if top.tag.class != Class::Context {
        bad(DecodeReason::UnexpectedTag, top.offset)
    } else {
        match top.tag.number {
            0 => confirmed_request_of(top, limits),
            1 => confirmed_response_of(top, limits),
            2 => confirmed_error_of(top),
            3 => unconfirmed_of(top, limits),
            4 => match reject_of(top) {
                Err(e) => Err(e),
                Ok(r) => Ok(MmsModel::Reject(r)),
            },
            5 => match invoke_id_in(top) {
                Err(e) => Err(e),
                Ok(id) => Ok(MmsModel::CancelRequest(id)),
            },
            6 => match invoke_id_in(top) {
                Err(e) => Err(e),
                Ok(id) => Ok(MmsModel::CancelResponse(id)),
            },
            7 => cancel_error_of(top),
            8 => match initiate_of(top) {
                Err(e) => Err(e),
                Ok(i) => Ok(MmsModel::InitiateRequest(i)),
            },
            9 => match initiate_of(top) {
                Err(e) => Err(e),
                Ok(i) => Ok(MmsModel::InitiateResponse(i)),
            },
            10 => Ok(MmsModel::InitiateError(top)),
            11 => Ok(MmsModel::ConcludeRequest),
            12 => Ok(MmsModel::ConcludeResponse),
            13 => Ok(MmsModel::ConcludeError(top)),
            _ => Ok(MmsModel::Other(top)),
        }
    }
}

/// The PDU that octets start with.
pub open spec fn mms_of(bytes: Seq<u8>, limits: Limits) -> Result<MmsModel, Error> {
    match (CursorModel { bytes, offset: 0 }).first() {
        Err(e) => Err(e),
        Ok(top) => pdu_of(top, limits),
    }
}

/// The invoke identifier that octets name, whether or not the rest of the PDU decodes.
pub open spec fn peek_of(bytes: Seq<u8>) -> Option<i64> {
    match (CursorModel { bytes, offset: 0 }).first() {
        Err(_) => None,
        Ok(top) => if top.tag.class != Class::Context || !(top.tag.number <= 2 || top.tag.number
            == 5) {
            None
        } else {
            match top.children().first() {
                Err(_) => None,
                Ok(first) => if first.tag != univ(2, false) && first.tag != ctx(0) {
                    None
                } else {
                    match first.integer() {
                        Ok(id) => Some(id),
                        Err(_) => None,
                    }
                },
            }
        },
    }
}

fn parse_confirmed_request<'a>(top: &Tlv<'a>, limits: &Limits) -> (r: Result<Mms<'a>, Error>)
    ensures
        agrees(r, confirmed_request_of(top@, *limits)),
{
    let mut c = top.children();
    let id = c.next_tag(Tag::universal(UNIVERSAL_INTEGER, false))?;
    let invoke_id: i64 = invoke_id_of(&id)?;
    let mut next = c.next_required()?;
    if next.tag == Tag::universal(UNIVERSAL_SEQUENCE, true) {
        next = c.next_required()?;
    }
    let service = ConfirmedRequest::parse(next, limits)?;
    Ok(Mms::ConfirmedRequest { invoke_id, service })
}

fn parse_confirmed_response<'a>(top: &Tlv<'a>, limits: &Limits) -> (r: Result<Mms<'a>, Error>)
    ensures
        agrees(r, confirmed_response_of(top@, *limits)),
{
    let mut c = top.children();
    let id = c.next_tag(Tag::universal(UNIVERSAL_INTEGER, false))?;
    let invoke_id: i64 = invoke_id_of(&id)?;
    let s = c.next_required()?;
    let service = ConfirmedResponse::parse(s, limits)?;
    Ok(Mms::ConfirmedResponse { invoke_id, service })
}

fn parse_confirmed_error<'a>(top: &Tlv<'a>) -> (r: Result<Mms<'a>, Error>)
    ensures
        agrees(r, confirmed_error_of(top@)),
{
    let mut c = top.children();
    let id = c.next_tag(Tag::context(0))?;
    let invoke_id: i64 = invoke_id_of(&id)?;
    let modifier_position = c.next_opt_unsigned32(Tag::context(1))?;
    let error = c.next_required()?;
    Ok(Mms::ConfirmedError { invoke_id, modifier_position, error })
}

fn parse_unconfirmed<'a>(top: &Tlv<'a>, limits: &Limits) -> (r: Result<Mms<'a>, Error>)
    ensures
        agrees(r, unconfirmed_of(top@, *limits)),
{
    let service = top.children().next_required()?;
    if service.tag == Tag::context_constructed(0) {
        let mut c = service.children();
        let a = c.next_required()?;
        let access = VariableAccess::parse(&a)?;
        let list = c.next_tag(Tag::context_constructed(0))?;
        let results = parse_access_results(&list, limits)?;
        Ok(Mms::Unconfirmed(Unconfirmed::InformationReport { access, results }))
    } else {
        Ok(Mms::Unconfirmed(Unconfirmed::Other(service)))
    }
}

fn parse_cancel_error<'a>(top: &Tlv<'a>) -> (r: Result<Mms<'a>, Error>)
    ensures
        agrees(r, cancel_error_of(top@)),
{
    let mut c = top.children();
    let id = c.next_tag(Tag::context(0))?;
    let invoke_id: i64 = invoke_id_of(&id)?;
    let error = c.next_required()?;
    Ok(Mms::CancelError { invoke_id, error })
}

// ---- encoding --------------------------------------------------------------------------

/// The number a cancellation names: an identifier below zero is written as zero.
pub open spec fn cancelled(id: i64) -> int {
    if id < 0 {
        0
    } else {
        id as int
    }
}

/// The contents octets of an unconfirmed service.
pub open spec fn unconfirmed_contents(u: UnconfirmedModel) -> Seq<u8> {
    match u {
        UnconfirmedModel::InformationReport { access, results } => tlv(
            ctx_cons(0),
            access_bytes(access) + tlv(
                ctx_cons(0),
                list_bytes::<AccessResult<'static>>(results),
            ),
        ),
        UnconfirmedModel::Other(t) => tlv(t.tag, t.value),
    }
}

/// The tag a PDU is encoded under.
pub open spec fn pdu_tag(m: MmsModel) -> Tag {
    match m {
        MmsModel::ConfirmedRequest { .. } => ctx_cons(0),
        MmsModel::ConfirmedResponse { .. } => ctx_cons(1),
        MmsModel::ConfirmedError { .. } => ctx_cons(2),
        MmsModel::Unconfirmed(_) => ctx_cons(3),
        MmsModel::Reject(_) => ctx_cons(4),
        MmsModel::CancelRequest(_) => ctx(5),
        MmsModel::CancelResponse(_) => ctx(6),
        MmsModel::CancelError { .. } => ctx_cons(7),
        MmsModel::InitiateRequest(_) => ctx_cons(8),
        MmsModel::InitiateResponse(_) => ctx_cons(9),
        MmsModel::InitiateError(t) => t.tag,
        MmsModel::ConcludeRequest => ctx(11),
        MmsModel::ConcludeResponse => ctx(12),
        MmsModel::ConcludeError(t) => t.tag,
        MmsModel::Other(t) => t.tag,
    }
}

/// The contents octets of a PDU.
pub open spec fn pdu_contents(m: MmsModel) -> Seq<u8> {
    match m {
        MmsModel::ConfirmedRequest { invoke_id, service } => tlv(
            univ(2, false),
            sint_octets(invoke_id as int),
        ) + request_bytes(service),
        MmsModel::ConfirmedResponse { invoke_id, service } => tlv(
            univ(2, false),
            sint_octets(invoke_id as int),
        ) + response_bytes(service),
        MmsModel::ConfirmedError { invoke_id, modifier_position, error } => tlv(
            ctx(0),
            sint_octets(invoke_id as int),
        ) + (opt_unsigned_bytes(ctx(1), modifier_position) + tlv(error.tag, error.value)),
        MmsModel::Unconfirmed(u) => unconfirmed_contents(u),
        MmsModel::Reject(r) => reject_contents(r),
        MmsModel::CancelRequest(id) => sint_octets(cancelled(id)),
        MmsModel::CancelResponse(id) => sint_octets(cancelled(id)),
        MmsModel::CancelError { invoke_id, error } => tlv(
            ctx(0),
            sint_octets(cancelled(invoke_id)),
        ) + tlv(error.tag, error.value),
        MmsModel::InitiateRequest(i) => initiate_contents(i),
        MmsModel::InitiateResponse(i) => initiate_contents(i),
        MmsModel::InitiateError(t) => t.value,
        MmsModel::ConcludeRequest => Seq::empty(),
        MmsModel::ConcludeResponse => Seq::empty(),
        MmsModel::ConcludeError(t) => t.value,
        MmsModel::Other(t) => t.value,
    }
}

/// The encoding of a PDU.
pub open spec fn pdu_bytes(m: MmsModel) -> Seq<u8> {
    tlv(pdu_tag(m), pdu_contents(m))
}

/// Why a PDU has no encoding.
pub open spec fn pdu_fault(m: MmsModel) -> Option<Error> {
    match m {
        MmsModel::ConfirmedRequest { service, .. } => request_fault(service),
        MmsModel::ConfirmedResponse { service, .. } => response_fault(service),
        MmsModel::Unconfirmed(UnconfirmedModel::InformationReport { access, .. }) => access_fault(
            access,
        ),
        MmsModel::Reject(r) => reject_fault(r),
        MmsModel::InitiateRequest(i) => initiate_fault(i),
        MmsModel::InitiateResponse(i) => initiate_fault(i),
        _ => None,
    }
}

/// Encode a whole `confirmed-RequestPDU` into `out`.
pub fn write_request(invoke_id: i64, service: &ConfirmedRequest<'_>, out: &mut Encoder) -> (r:
    Result<(), Error>)
    ensures
        ({
            let m = MmsModel::ConfirmedRequest { invoke_id, service: service@ };
            wrote(r, old(out)@, final(out)@, pdu_fault(m), pdu_bytes(m))
        }),
{
    let mut body = Encoder::new();
    body.integer(Tag::universal(UNIVERSAL_INTEGER, false), invoke_id);
    service.write(&mut body)?;
    assert(body@ =~= tlv(univ(2, false), sint_octets(invoke_id as int)) + request_bytes(service@));
    out.constructed(Tag::context_constructed(0), &body);
    Ok(())
}

/// Encode a whole `confirmed-ResponsePDU` into `out`.
pub fn write_response(invoke_id: i64, service: &ConfirmedResponse<'_>, out: &mut Encoder) -> (r:
    Result<(), Error>)
    ensures
        ({
            let m = MmsModel::ConfirmedResponse { invoke_id, service: service@ };
            wrote(r, old(out)@, final(out)@, pdu_fault(m), pdu_bytes(m))
        }),
{
    let mut body = Encoder::new();
    body.integer(Tag::universal(UNIVERSAL_INTEGER, false), invoke_id);
    service.write(&mut body)?;
    assert(body@ =~= tlv(univ(2, false), sint_octets(invoke_id as int)) + response_bytes(service@));
    out.constructed(Tag::context_constructed(1), &body);
    Ok(())
}

fn body_unconfirmed(u: &Unconfirmed<'_>) -> (r: Result<Encoder, Error>)
    ensures
        match pdu_fault(MmsModel::Unconfirmed(u@)) {
            None => r matches Ok(e) && e@ == unconfirmed_contents(u@),
            Some(f) => r == Err::<Encoder, Error>(f),
        },
{
    let mut body = Encoder::new();
    match u {
        Unconfirmed::InformationReport { access, results } => {
            let mut inner = Encoder::new();
            access.write(&mut inner)?;
            proof {
                lemma_no_fault_in_results(views(results@), 0);
            }
            let list = write_list(results.as_slice())?;
            inner.constructed(Tag::context_constructed(0), &list);
            assert(inner@ =~= access_bytes(access@) + tlv(ctx_cons(0), list@));
            body.constructed(Tag::context_constructed(0), &inner);
        },
        Unconfirmed::Other(t) => body.primitive(t.tag, t.value),
    }
    assert(body@ =~= unconfirmed_contents(u@));
    Ok(body)
}

fn cancelled_number(id: i64) -> (r: u64)
    ensures
        r == cancelled(id),
{
    if id < 0 {
        0
    } else {
        id as u64
    }
}

impl<'a> Mms<'a> {
    /// The invoke identifier of a confirmed PDU, read without decoding its service.
    ///
    /// A response that does not decode still answers the request it names, so the failure can
    /// be attributed at once.
    pub fn peek_invoke_id(buf: &[u8]) -> (r: Option<i64>)
        ensures
            r == peek_of(buf@),
    {
        let top = match Cursor::new(buf).next_required() {
            Ok(top) => top,
            Err(_) => return None,
        };
        if top.tag.class != Class::Context || !(top.tag.number <= 2 || top.tag.number == 5) {
            return None;
        }
        let first = match top.children().next_required() {
            Ok(first) => first,
            Err(_) => return None,
        };
        if first.tag != Tag::universal(UNIVERSAL_INTEGER, false) && first.tag != Tag::context(0) {
            return None;
        }
        match first.integer_i64() {
            Ok(id) => Some(id),
            Err(_) => None,
        }
    }

    /// Decode an MMS PDU, enforcing `limits` on the lists inside it.
    pub fn parse(buf: &'a [u8], limits: &Limits) -> (r: Result<Mms<'a>, Error>)
        ensures
            agrees(r, mms_of(buf@, *limits)),
    {
        reveal(pdu_of);
        let top = Cursor::new(buf).next_required()?;
        if top.tag.class != Class::Context {
            return Err(Error::decode(DecodeReason::UnexpectedTag, top.offset));
        }
        match top.tag.number {
            0 => parse_confirmed_request(&top, limits),
            1 => parse_confirmed_response(&top, limits),
            2 => parse_confirmed_error(&top),
            3 => parse_unconfirmed(&top, limits),
            4 => Ok(Mms::Reject(Reject::parse(&top)?)),
            5 => Ok(Mms::CancelRequest(invoke_id_of(&top)?)),
            6 => Ok(Mms::CancelResponse(invoke_id_of(&top)?)),
            7 => parse_cancel_error(&top),
            8 => Ok(Mms::InitiateRequest(Initiate::parse(&top)?)),
            9 => Ok(Mms::InitiateResponse(Initiate::parse(&top)?)),
            10 => Ok(Mms::InitiateError(top)),
            11 => Ok(Mms::ConcludeRequest),
            12 => Ok(Mms::ConcludeResponse),
            13 => Ok(Mms::ConcludeError(top)),
            _ => Ok(Mms::Other(top)),
        }
    }

    /// Encode into `out`.
    pub fn write(&self, out: &mut Encoder) -> (r: Result<(), Error>)
        ensures
            wrote(r, old(out)@, final(out)@, pdu_fault(self@), pdu_bytes(self@)),
    {
        match self {
            Mms::ConfirmedRequest { invoke_id, service } => write_request(
                *invoke_id,
                service,
                out,
            )?,
            Mms::ConfirmedResponse { invoke_id, service } => write_response(
                *invoke_id,
                service,
                out,
            )?,
            Mms::ConfirmedError { invoke_id, modifier_position, error } => {
                let mut body = Encoder::new();
                body.integer(Tag::context(0), *invoke_id);
                body.opt_unsigned(Tag::context(1), *modifier_position);
                body.primitive(error.tag, error.value);
                assert(body@ =~= pdu_contents(self@));
                out.constructed(Tag::context_constructed(2), &body);
            },
            Mms::Unconfirmed(service) => {
                let body = body_unconfirmed(service)?;
                out.constructed(Tag::context_constructed(3), &body);
            },
            Mms::CancelRequest(id) => out.unsigned(Tag::context(5), cancelled_number(*id)),
            Mms::CancelResponse(id) => out.unsigned(Tag::context(6), cancelled_number(*id)),
            Mms::CancelError { invoke_id, error } => {
                let mut body = Encoder::new();
                body.unsigned(Tag::context(0), cancelled_number(*invoke_id));
                body.primitive(error.tag, error.value);
                assert(body@ =~= pdu_contents(self@));
                out.constructed(Tag::context_constructed(7), &body);
            },
            Mms::InitiateRequest(i) => i.write(Tag::context_constructed(8), out)?,
            Mms::InitiateResponse(i) => i.write(Tag::context_constructed(9), out)?,
            Mms::ConcludeRequest => out.null(Tag::context(11)),
            Mms::ConcludeResponse => out.null(Tag::context(12)),
            Mms::Reject(r) => r.write(out)?,
            Mms::InitiateError(t) => out.primitive(t.tag, t.value),
            Mms::ConcludeError(t) => out.primitive(t.tag, t.value),
            Mms::Other(t) => out.primitive(t.tag, t.value),
        }
        Ok(())
    }

    /// Encode into a new buffer.
    pub fn to_vec(&self) -> (r: Result<Vec<u8>, Error>)
        ensures
            match pdu_fault(self@) {
                None => r matches Ok(b) && b@ == pdu_bytes(self@),
                Some(f) => r == Err::<Vec<u8>, Error>(f),
            },
    {
        let mut e = Encoder::new();
        self.write(&mut e)?;
        assert(e@ =~= pdu_bytes(self@));
        Ok(e.into_vec())
    }

    /// The invoke identifier, for the PDUs that carry one. A cancellation and a reject carry
    /// that of the request they name.
    pub fn invoke_id(&self) -> (r: Option<i64>)
        ensures
            r == invoke_id(self@),
    {
        match self {
            Mms::ConfirmedRequest { invoke_id, .. } => Some(*invoke_id),
            Mms::ConfirmedResponse { invoke_id, .. } => Some(*invoke_id),
            Mms::ConfirmedError { invoke_id, .. } => Some(*invoke_id),
            Mms::CancelRequest(id) => Some(*id),
            Mms::CancelResponse(id) => Some(*id),
            Mms::CancelError { invoke_id, .. } => Some(*invoke_id),
            Mms::Reject(r) => r.original_invoke_id,
            _ => None,
        }
    }
}

/// The invoke identifier a PDU carries or names.
pub open spec fn invoke_id(m: MmsModel) -> Option<i64> {
    match m {
        MmsModel::ConfirmedRequest { invoke_id, .. } => Some(invoke_id),
        MmsModel::ConfirmedResponse { invoke_id, .. } => Some(invoke_id),
        MmsModel::ConfirmedError { invoke_id, .. } => Some(invoke_id),
        MmsModel::CancelRequest(id) => Some(id),
        MmsModel::CancelResponse(id) => Some(id),
        MmsModel::CancelError { invoke_id, .. } => Some(invoke_id),
        MmsModel::Reject(r) => r.original_invoke_id,
        _ => None,
    }
}

// ---- laws ------------------------------------------------------------------------------

/// Whether a decoder with these limits takes a PDU for the same one.
pub open spec fn pdu_fits(m: MmsModel, limits: Limits) -> bool {
    &&& invoke_id(m) matches Some(id) ==> 0 <= id <= u32::MAX
    &&& match m {
        MmsModel::ConfirmedRequest { service, .. } => request_fits(service, limits),
        MmsModel::ConfirmedResponse { service, .. } => response_fits(service, limits),
        MmsModel::ConfirmedError { modifier_position, error, .. } => modifier_position is None
            ==> error.tag != ctx(1),
        MmsModel::Unconfirmed(UnconfirmedModel::InformationReport { access, results }) => {
            access_fits(access) && list_fits::<AccessResult<'static>>(
                results,
                limits,
                members_bound(limits),
            )
        },
        MmsModel::Unconfirmed(UnconfirmedModel::Other(t)) => t.tag != ctx_cons(0),
        MmsModel::Reject(r) => reason_fits(r.reason),
        MmsModel::InitiateError(t) => t.tag.class == Class::Context && t.tag.number == 10,
        MmsModel::ConcludeError(t) => t.tag.class == Class::Context && t.tag.number == 13,
        MmsModel::Other(t) => t.tag.class == Class::Context && t.tag.number > 13,
        _ => true,
    }
}

/// Whether two PDUs differ at most in where kept elements stood.
pub open spec fn same_pdu(a: MmsModel, b: MmsModel) -> bool {
    match (a, b) {
        (
            MmsModel::ConfirmedRequest { invoke_id: i1, service: s1 },
            MmsModel::ConfirmedRequest { invoke_id: i2, service: s2 },
        ) => i1 == i2 && same_request(s1, s2),
        (
            MmsModel::ConfirmedResponse { invoke_id: i1, service: s1 },
            MmsModel::ConfirmedResponse { invoke_id: i2, service: s2 },
        ) => i1 == i2 && same_response(s1, s2),
        (
            MmsModel::ConfirmedError { invoke_id: i1, modifier_position: m1, error: e1 },
            MmsModel::ConfirmedError { invoke_id: i2, modifier_position: m2, error: e2 },
        ) => i1 == i2 && m1 == m2 && same_element(e1, e2),
        (
            MmsModel::Unconfirmed(UnconfirmedModel::InformationReport { access: a1, results: r1 }),
            MmsModel::Unconfirmed(UnconfirmedModel::InformationReport { access: a2, results: r2 }),
        ) => same_access(a1, a2) && same_list::<AccessResult<'static>>(r1, r2),
        (
            MmsModel::Unconfirmed(UnconfirmedModel::Other(x)),
            MmsModel::Unconfirmed(UnconfirmedModel::Other(y)),
        ) => same_element(x, y),
        (
            MmsModel::CancelError { invoke_id: i1, error: e1 },
            MmsModel::CancelError { invoke_id: i2, error: e2 },
        ) => i1 == i2 && same_element(e1, e2),
        (MmsModel::InitiateError(x), MmsModel::InitiateError(y)) => same_element(x, y),
        (MmsModel::ConcludeError(x), MmsModel::ConcludeError(y)) => same_element(x, y),
        (MmsModel::Other(x), MmsModel::Other(y)) => same_element(x, y),
        _ => a == b,
    }
}

proof fn lemma_invoke_id(tag: Tag, id: i64, r: Seq<u8>, offset: usize)
    requires
        0 <= id <= u32::MAX,
    ensures
        ({
            let c = CursorModel { bytes: tlv(tag, sint_octets(id as int)) + r, offset };
            invoke_id_at(c, tag) == Ok::<i64, Error>(id) && c.tagged(tag) is Ok && c.rest().bytes
                == r
        }),
{
    laws::lemma_integer_field(tag, id, offset);
    laws::lemma_first(tag, sint_octets(id as int), r, offset);
}

proof fn lemma_report_round_trip(u: UnconfirmedModel, limits: Limits, offset: usize)
    requires
        pdu_fault(MmsModel::Unconfirmed(u)) is None,
        pdu_fits(MmsModel::Unconfirmed(u), limits),
        unconfirmed_contents(u).len() <= u64::MAX,
    ensures
        unconfirmed_of(
            laws::element_at(ctx_cons(3), unconfirmed_contents(u), offset),
            limits,
        ) matches Ok(x) && same_pdu(x, MmsModel::Unconfirmed(u)),
{
    broadcast use laws::lemma_tlv_len;

    let c = laws::element_at(ctx_cons(3), unconfirmed_contents(u), offset).children();
    match u {
        UnconfirmedModel::InformationReport { access, results } => {
            let list = list_bytes::<AccessResult<'static>>(results);
            let last = tlv(ctx_cons(0), list);
            let inner = access_bytes(access) + last;
            laws::lemma_only(ctx_cons(0), inner, c.offset);
            let d = laws::element_at(ctx_cons(0), inner, c.offset).children();
            laws::lemma_first(access_tag(access), access_contents(access), last, d.offset);
            lemma_access_round_trip(access, d.offset);
            laws::lemma_only(ctx_cons(0), list, d.rest().offset);
            lemma_no_fault_in_results(results, 0);
            lemma_list_round_trip::<AccessResult<'static>>(
                results,
                limits,
                members_bound(limits),
                laws::element_at(ctx_cons(0), list, d.rest().offset).value_offset,
            );
        },
        UnconfirmedModel::Other(t) => laws::lemma_only(t.tag, t.value, c.offset),
    }
}

/// A PDU that has an encoding and stays within the limits survives [`Mms::to_vec`] and
/// [`Mms::parse`]: nothing changes but where the elements it keeps stood.
pub proof fn lemma_mms_round_trip(m: MmsModel, limits: Limits)
    requires
        pdu_fault(m) is None,
        pdu_fits(m, limits),
        pdu_bytes(m).len() <= u64::MAX,
    ensures
        mms_of(pdu_bytes(m), limits) matches Ok(x) && same_pdu(x, m),
{
    reveal(pdu_of);
    broadcast use laws::lemma_tlv_len;

    laws::lemma_only(pdu_tag(m), pdu_contents(m), 0);
    let top = laws::element_at(pdu_tag(m), pdu_contents(m), 0);
    let c = top.children();
    match m {
        MmsModel::ConfirmedRequest { invoke_id, service } => {
            let s = request_bytes(service);
            lemma_invoke_id(univ(2, false), invoke_id, s, c.offset);
            let c1 = c.rest();
            laws::lemma_only(request_tag(service), request_contents(service), c1.offset);
            lemma_request_round_trip(service, limits, c1.offset);
        },
        MmsModel::ConfirmedResponse { invoke_id, service } => {
            let s = response_bytes(service);
            lemma_invoke_id(univ(2, false), invoke_id, s, c.offset);
            let c1 = c.rest();
            laws::lemma_only(response_tag(service), response_contents(service), c1.offset);
            lemma_response_round_trip(service, limits, c1.offset);
        },
        MmsModel::ConfirmedError { invoke_id, modifier_position, error } => {
            let last = tlv(error.tag, error.value);
            let rest = opt_unsigned_bytes(ctx(1), modifier_position) + last;
            lemma_invoke_id(ctx(0), invoke_id, rest, c.offset);
            let c1 = c.rest();
            assert(last + Seq::empty() =~= last);
            if modifier_position is None {
                laws::lemma_lacks(error.tag, error.value, Seq::empty(), ctx(1));
            }
            laws::lemma_opt_unsigned(ctx(1), modifier_position, last, c1.offset);
            let c2 = c1.skip_optional(ctx(1));
            laws::lemma_only(error.tag, error.value, c2.offset);
        },
        MmsModel::Unconfirmed(u) => lemma_report_round_trip(u, limits, 0),
        MmsModel::Reject(r) => lemma_reject_round_trip(r, ctx_cons(4), 0),
        MmsModel::CancelRequest(id) => laws::lemma_integer_field(ctx(5), id, 0),
        MmsModel::CancelResponse(id) => laws::lemma_integer_field(ctx(6), id, 0),
        MmsModel::CancelError { invoke_id, error } => {
            let last = tlv(error.tag, error.value);
            lemma_invoke_id(ctx(0), invoke_id, last, c.offset);
            laws::lemma_only(error.tag, error.value, c.rest().offset);
        },
        MmsModel::InitiateRequest(i) => lemma_initiate_round_trip(i, ctx_cons(8), 0),
        MmsModel::InitiateResponse(i) => lemma_initiate_round_trip(i, ctx_cons(9), 0),
        _ => {},
    }
}

/// Every confirmed PDU that decodes names the identifier that a peek at its octets finds, and
/// an identifier that decodes is an `Unsigned32`.
pub proof fn lemma_peek_agrees(bytes: Seq<u8>, limits: Limits)
    ensures
        mms_of(bytes, limits) matches Ok(m) ==> {
            &&& m is ConfirmedRequest || m is ConfirmedResponse || m is ConfirmedError
                ==> peek_of(bytes) == invoke_id(m)
            &&& invoke_id(m) matches Some(id) ==> 0 <= id <= u32::MAX
        },
{
    reveal(pdu_of);
}

proof fn lemma_unconfirmed_decoded(top: TlvModel, limits: Limits)
    ensures
        unconfirmed_of(top, limits) matches Ok(m) ==> pdu_fault(m) is None && pdu_fits(m, limits),
{
    if let Ok(service) = top.children().first() {
        let c = service.children();
        if let Ok(a) = c.first() {
            lemma_access_decoded(a);
        }
        if let Ok(list) = c.rest().tagged(ctx_cons(0)) {
            lemma_list_decoded::<AccessResult<'static>>(
                list.children(),
                limits,
                members_bound(limits),
            );
        }
    }
}

/// PDUs that differ only in where elements stood have one encoding.
pub proof fn lemma_same_pdu_octets(a: MmsModel, b: MmsModel)
    requires
        same_pdu(a, b),
    ensures
        pdu_bytes(a) == pdu_bytes(b),
{
    match (a, b) {
        (
            MmsModel::ConfirmedRequest { service: s, .. },
            MmsModel::ConfirmedRequest { service: t, .. },
        ) => lemma_same_request_octets(s, t),
        (
            MmsModel::ConfirmedResponse { service: s, .. },
            MmsModel::ConfirmedResponse { service: t, .. },
        ) => lemma_same_response_octets(s, t),
        (
            MmsModel::Unconfirmed(UnconfirmedModel::InformationReport { access: x, results: v }),
            MmsModel::Unconfirmed(UnconfirmedModel::InformationReport { access: y, results: w }),
        ) => {
            lemma_same_access_octets(x, y);
            lemma_same_octets::<AccessResult<'static>>(v, w);
        },
        _ => {},
    }
}

/// Encoding is a fixed point: whatever decodes can be encoded again, decodes to the same, with
/// nothing changed but where the elements it keeps stood, and encodes to the same octets. No list
/// inside it is longer than the limits allow.
pub proof fn lemma_mms_fixed_point(bytes: Seq<u8>, limits: Limits)
    ensures
        mms_of(bytes, limits) matches Ok(m) ==> {
            &&& pdu_fault(m) is None
            &&& pdu_fits(m, limits)
            &&& pdu_bytes(m).len() <= u64::MAX ==> (mms_of(pdu_bytes(m), limits) matches Ok(x)
                && same_pdu(x, m) && pdu_bytes(x) == pdu_bytes(m))
        },
{
    reveal(pdu_of);
    lemma_peek_agrees(bytes, limits);
    if let Ok(top) = (CursorModel { bytes, offset: 0 }).first() {
        let c = top.children();
        if top.tag.number == 0 {
            if let Ok(s) = service_at(c.rest()) {
                lemma_request_decoded(s, limits);
            }
        } else if top.tag.number == 1 {
            if let Ok(s) = c.rest().first() {
                lemma_response_decoded(s, limits);
            }
        } else if top.tag.number == 3 {
            lemma_unconfirmed_decoded(top, limits);
        } else if top.tag.number == 4 {
            lemma_reject_decodes_twice(top, ctx_cons(4), 0);
        }
        lemma_initiate_decoded(top);
        if let Ok(m) = pdu_of(top, limits) {
            assert(pdu_fault(m) is None);
            assert(pdu_fits(m, limits));
            if pdu_bytes(m).len() <= u64::MAX {
                lemma_mms_round_trip(m, limits);
                lemma_same_pdu_octets(mms_of(pdu_bytes(m), limits)->Ok_0, m);
            }
        }
    }
}

} // verus!
