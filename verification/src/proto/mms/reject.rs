//! The MMS `reject-PDU`: what a peer says of a PDU it cannot make sense of at all.
//!
//! A confirmed error answers a service that was recognised and failed; a reject answers a PDU
//! that was malformed, named a service the peer does not implement, carried an invoke
//! identifier it cannot use, or exceeded what was negotiated. It also answers the outstanding
//! request that its `originalInvokeID` names.

use vstd::prelude::*;
use vstd::string::*;
use crate::ber::laws;
use crate::ber::{
    bad, ctx, ctx_cons, sint_octets, tlv, wrote, Class, CursorModel, Encoder, Tag, Tlv, TlvModel,
};
use crate::common::{
    agrees, decimal, push_decimal, push_signed_decimal, push_text, signed_decimal, DecodeReason,
    Error,
};

verus! {

/// Which PDU the peer was rejecting, and why.
///
/// The reason codes are one table per PDU type, and the same number means different things in
/// different tables, so the pair is kept together.
#[derive(Clone, Copy, Debug, PartialEq, Eq, Structural)]
pub enum RejectReason {
    /// `confirmed-requestPDU [1]`.
    ConfirmedRequest(i64),
    /// `confirmed-responsePDU [2]`.
    ConfirmedResponse(i64),
    /// `confirmed-errorPDU [3]`.
    ConfirmedError(i64),
    /// `unconfirmedPDU [4]`.
    Unconfirmed(i64),
    /// `pdu-error [5]`.
    PduError(i64),
    /// `cancel-requestPDU [6]`.
    CancelRequest(i64),
    /// `cancel-responsePDU [7]`.
    CancelResponse(i64),
    /// `cancel-errorPDU [8]`.
    CancelError(i64),
    /// `conclude-requestPDU [9]`.
    ConcludeRequest(i64),
    /// `conclude-responsePDU [10]`.
    ConcludeResponse(i64),
    /// `conclude-errorPDU [11]`.
    ConcludeError(i64),
    /// Any other tag.
    Other {
        /// The context tag number.
        tag: u32,
        /// The value.
        code: i64,
    },
}

/// `confirmed-requestPDU`: the service is not one this peer implements.
pub const UNRECOGNIZED_SERVICE: i64 = 1;
/// `confirmed-requestPDU`: the invoke identifier is already outstanding.
pub const INVALID_INVOKE_ID: i64 = 3;
/// `confirmed-requestPDU`: the argument did not decode as the service requires.
pub const INVALID_ARGUMENT: i64 = 4;
/// `confirmed-requestPDU`: more requests are outstanding than were negotiated.
pub const MAX_SERV_OUTSTANDING_EXCEEDED: i64 = 6;
/// `pdu-error`: the tag is not a PDU type this peer knows.
pub const UNKNOWN_PDU_TYPE: i64 = 0;
/// `pdu-error`: the octets are not a PDU.
pub const INVALID_PDU: i64 = 1;

/// The context tag a reason travels under, and its code.
pub open spec fn reason_parts(r: RejectReason) -> (u32, i64) {
    match r {
        RejectReason::ConfirmedRequest(c) => (1, c),
        RejectReason::ConfirmedResponse(c) => (2, c),
        RejectReason::ConfirmedError(c) => (3, c),
        RejectReason::Unconfirmed(c) => (4, c),
        RejectReason::PduError(c) => (5, c),
        RejectReason::CancelRequest(c) => (6, c),
        RejectReason::CancelResponse(c) => (7, c),
        RejectReason::CancelError(c) => (8, c),
        RejectReason::ConcludeRequest(c) => (9, c),
        RejectReason::ConcludeResponse(c) => (10, c),
        RejectReason::ConcludeError(c) => (11, c),
        RejectReason::Other { tag, code } => (tag, code),
    }
}

/// The reason a tag and a code name.
pub open spec fn reason_from(tag: u32, code: i64) -> RejectReason {
    match tag {
        1 => RejectReason::ConfirmedRequest(code),
        2 => RejectReason::ConfirmedResponse(code),
        3 => RejectReason::ConfirmedError(code),
        4 => RejectReason::Unconfirmed(code),
        5 => RejectReason::PduError(code),
        6 => RejectReason::CancelRequest(code),
        7 => RejectReason::CancelResponse(code),
        8 => RejectReason::CancelError(code),
        9 => RejectReason::ConcludeRequest(code),
        10 => RejectReason::ConcludeResponse(code),
        11 => RejectReason::ConcludeError(code),
        tag => RejectReason::Other { tag, code },
    }
}

/// Whether a reason is one the wire can carry: `[0]` is the invoke identifier, and the tags of
/// the tables have variants of their own.
pub open spec fn reason_fits(r: RejectReason) -> bool {
    r matches RejectReason::Other { tag, .. } ==> tag > 11
}

/// A reason survives its parts.
pub proof fn lemma_reason_round_trip(r: RejectReason)
    requires
        reason_fits(r),
    ensures
        reason_from(reason_parts(r).0, reason_parts(r).1) == r,
{
}

/// What the table of a reason is called.
pub open spec fn reason_kind(r: RejectReason) -> Seq<char> {
    match r {
        RejectReason::ConfirmedRequest(_) => "confirmed-request"@,
        RejectReason::ConfirmedResponse(_) => "confirmed-response"@,
        RejectReason::ConfirmedError(_) => "confirmed-error"@,
        RejectReason::Unconfirmed(_) => "unconfirmed"@,
        RejectReason::PduError(_) => "pdu-error"@,
        RejectReason::CancelRequest(_) => "cancel"@,
        RejectReason::CancelResponse(_) => "cancel"@,
        RejectReason::CancelError(_) => "cancel-error"@,
        RejectReason::ConcludeRequest(_) => "conclude-request"@,
        RejectReason::ConcludeResponse(_) => "conclude-response"@,
        RejectReason::ConcludeError(_) => "conclude-error"@,
        RejectReason::Other { .. } => "reject"@,
    }
}

/// The name of a code in its own table; no characters where the table has none.
pub open spec fn reason_word(r: RejectReason) -> Seq<char> {
    match r {
        RejectReason::ConfirmedRequest(0) => "other"@,
        RejectReason::ConfirmedRequest(1) => "unrecognized-service"@,
        RejectReason::ConfirmedRequest(2) => "unrecognized-modifier"@,
        RejectReason::ConfirmedRequest(3) => "invalid-invokeID"@,
        RejectReason::ConfirmedRequest(4) => "invalid-argument"@,
        RejectReason::ConfirmedRequest(5) => "invalid-modifier"@,
        RejectReason::ConfirmedRequest(6) => "max-serv-outstanding-exceeded"@,
        RejectReason::ConfirmedRequest(8) => "max-recursion-exceeded"@,
        RejectReason::ConfirmedRequest(9) => "value-out-of-range"@,
        RejectReason::ConfirmedResponse(0) => "other"@,
        RejectReason::ConfirmedResponse(1) => "unrecognized-service"@,
        RejectReason::ConfirmedResponse(2) => "invalid-invokeID"@,
        RejectReason::ConfirmedResponse(3) => "invalid-result"@,
        RejectReason::ConfirmedResponse(5) => "max-recursion-exceeded"@,
        RejectReason::ConfirmedResponse(6) => "value-out-of-range"@,
        RejectReason::ConfirmedError(0) => "other"@,
        RejectReason::ConfirmedError(1) => "unrecognized-service"@,
        RejectReason::ConfirmedError(2) => "invalid-invokeID"@,
        RejectReason::ConfirmedError(3) => "invalid-serviceError"@,
        RejectReason::ConfirmedError(4) => "value-out-of-range"@,
        RejectReason::Unconfirmed(0) => "other"@,
        RejectReason::Unconfirmed(1) => "unrecognized-service"@,
        RejectReason::Unconfirmed(2) => "invalid-argument"@,
        RejectReason::Unconfirmed(3) => "max-recursion-exceeded"@,
        RejectReason::Unconfirmed(4) => "value-out-of-range"@,
        RejectReason::PduError(0) => "unknown-pdu-type"@,
        RejectReason::PduError(1) => "invalid-pdu"@,
        RejectReason::PduError(2) => "illegal-acse-mapping"@,
        RejectReason::CancelRequest(0) => "other"@,
        RejectReason::CancelRequest(1) => "invalid-invokeID"@,
        RejectReason::CancelResponse(0) => "other"@,
        RejectReason::CancelResponse(1) => "invalid-invokeID"@,
        RejectReason::CancelError(0) => "other"@,
        RejectReason::CancelError(1) => "invalid-invokeID"@,
        RejectReason::CancelError(2) => "invalid-serviceError"@,
        RejectReason::CancelError(3) => "value-out-of-range"@,
        RejectReason::ConcludeRequest(0) => "other"@,
        RejectReason::ConcludeRequest(1) => "invalid-argument"@,
        RejectReason::ConcludeResponse(0) => "other"@,
        RejectReason::ConcludeResponse(1) => "invalid-result"@,
        RejectReason::ConcludeError(0) => "other"@,
        RejectReason::ConcludeError(1) => "invalid-serviceError"@,
        RejectReason::ConcludeError(2) => "value-out-of-range"@,
        _ => ""@,
    }
}

/// How a reason is shown: its table and the name of its code, or the number where the table
/// has no name for it.
pub open spec fn reason_text(r: RejectReason) -> Seq<char> {
    match r {
        RejectReason::Other { tag, code } => "reject("@ + decimal(tag as nat) + "): "@
            + signed_decimal(code as int),
        _ => reason_kind(r) + ": "@ + if reason_word(r).len() == 0 {
            signed_decimal(reason_parts(r).1 as int)
        } else {
            reason_word(r)
        },
    }
}

impl RejectReason {
    /// The context tag this reason travels under, and its code.
    pub fn parts(self) -> (r: (u32, i64))
        ensures
            r == reason_parts(self),
    {
        match self {
            RejectReason::ConfirmedRequest(c) => (1, c),
            RejectReason::ConfirmedResponse(c) => (2, c),
            RejectReason::ConfirmedError(c) => (3, c),
            RejectReason::Unconfirmed(c) => (4, c),
            RejectReason::PduError(c) => (5, c),
            RejectReason::CancelRequest(c) => (6, c),
            RejectReason::CancelResponse(c) => (7, c),
            RejectReason::CancelError(c) => (8, c),
            RejectReason::ConcludeRequest(c) => (9, c),
            RejectReason::ConcludeResponse(c) => (10, c),
            RejectReason::ConcludeError(c) => (11, c),
            RejectReason::Other { tag, code } => (tag, code),
        }
    }

    /// From the tag and code on the wire.
    pub fn from_parts(tag: u32, code: i64) -> (r: RejectReason)
        ensures
            r == reason_from(tag, code),
    {
        match tag {
            1 => RejectReason::ConfirmedRequest(code),
            2 => RejectReason::ConfirmedResponse(code),
            3 => RejectReason::ConfirmedError(code),
            4 => RejectReason::Unconfirmed(code),
            5 => RejectReason::PduError(code),
            6 => RejectReason::CancelRequest(code),
            7 => RejectReason::CancelResponse(code),
            8 => RejectReason::CancelError(code),
            9 => RejectReason::ConcludeRequest(code),
            10 => RejectReason::ConcludeResponse(code),
            11 => RejectReason::ConcludeError(code),
            tag => RejectReason::Other { tag, code },
        }
    }

    fn kind(self) -> (r: &'static str)
        ensures
            r@ == reason_kind(self),
    {
        match self {
            RejectReason::ConfirmedRequest(_) => "confirmed-request",
            RejectReason::ConfirmedResponse(_) => "confirmed-response",
            RejectReason::ConfirmedError(_) => "confirmed-error",
            RejectReason::Unconfirmed(_) => "unconfirmed",
            RejectReason::PduError(_) => "pdu-error",
            RejectReason::CancelRequest(_) => "cancel",
            RejectReason::CancelResponse(_) => "cancel",
            RejectReason::CancelError(_) => "cancel-error",
            RejectReason::ConcludeRequest(_) => "conclude-request",
            RejectReason::ConcludeResponse(_) => "conclude-response",
            RejectReason::ConcludeError(_) => "conclude-error",
            RejectReason::Other { .. } => "reject",
        }
    }

    fn word(self) -> (r: &'static str)
        ensures
            r@ == reason_word(self),
    {
        match self {
            RejectReason::ConfirmedRequest(0) => "other",
            RejectReason::ConfirmedRequest(1) => "unrecognized-service",
            RejectReason::ConfirmedRequest(2) => "unrecognized-modifier",
            RejectReason::ConfirmedRequest(3) => "invalid-invokeID",
            RejectReason::ConfirmedRequest(4) => "invalid-argument",
            RejectReason::ConfirmedRequest(5) => "invalid-modifier",
            RejectReason::ConfirmedRequest(6) => "max-serv-outstanding-exceeded",
            RejectReason::ConfirmedRequest(8) => "max-recursion-exceeded",
            RejectReason::ConfirmedRequest(9) => "value-out-of-range",
            RejectReason::ConfirmedResponse(0) => "other",
            RejectReason::ConfirmedResponse(1) => "unrecognized-service",
            RejectReason::ConfirmedResponse(2) => "invalid-invokeID",
            RejectReason::ConfirmedResponse(3) => "invalid-result",
            RejectReason::ConfirmedResponse(5) => "max-recursion-exceeded",
            RejectReason::ConfirmedResponse(6) => "value-out-of-range",
            RejectReason::ConfirmedError(0) => "other",
            RejectReason::ConfirmedError(1) => "unrecognized-service",
            RejectReason::ConfirmedError(2) => "invalid-invokeID",
            RejectReason::ConfirmedError(3) => "invalid-serviceError",
            RejectReason::ConfirmedError(4) => "value-out-of-range",
            RejectReason::Unconfirmed(0) => "other",
            RejectReason::Unconfirmed(1) => "unrecognized-service",
            RejectReason::Unconfirmed(2) => "invalid-argument",
            RejectReason::Unconfirmed(3) => "max-recursion-exceeded",
            RejectReason::Unconfirmed(4) => "value-out-of-range",
            RejectReason::PduError(0) => "unknown-pdu-type",
            RejectReason::PduError(1) => "invalid-pdu",
            RejectReason::PduError(2) => "illegal-acse-mapping",
            RejectReason::CancelRequest(0) => "other",
            RejectReason::CancelRequest(1) => "invalid-invokeID",
            RejectReason::CancelResponse(0) => "other",
            RejectReason::CancelResponse(1) => "invalid-invokeID",
            RejectReason::CancelError(0) => "other",
            RejectReason::CancelError(1) => "invalid-invokeID",
            RejectReason::CancelError(2) => "invalid-serviceError",
            RejectReason::CancelError(3) => "value-out-of-range",
            RejectReason::ConcludeRequest(0) => "other",
            RejectReason::ConcludeRequest(1) => "invalid-argument",
            RejectReason::ConcludeResponse(0) => "other",
            RejectReason::ConcludeResponse(1) => "invalid-result",
            RejectReason::ConcludeError(0) => "other",
            RejectReason::ConcludeError(1) => "invalid-serviceError",
            RejectReason::ConcludeError(2) => "value-out-of-range",
            _ => "",
        }
    }

    /// The reason as text: its table and the name of its code there.
    pub fn to_text(&self) -> (r: String)
        ensures
            r@ == reason_text(*self),
    {
        let mut out = String::new();
        match *self {
            RejectReason::Other { tag, code } => {
                push_text(&mut out, "reject(");
                push_decimal(&mut out, tag as u64);
                push_text(&mut out, "): ");
                push_signed_decimal(&mut out, code);
            },
            _ => {
                push_text(&mut out, self.kind());
                push_text(&mut out, ": ");
                let word = self.word();
                if word.is_empty() {
                    let (_, code) = self.parts();
                    push_signed_decimal(&mut out, code);
                } else {
                    push_text(&mut out, word);
                }
            },
        }
        assert(out@ =~= reason_text(*self));
        out
    }
}

/// A decoded `reject-PDU`.
#[derive(Clone, Copy, Debug, PartialEq, Eq, Structural)]
pub struct Reject {
    /// The request being rejected, when the peer names one.
    pub original_invoke_id: Option<i64>,
    /// Why.
    pub reason: RejectReason,
}

impl View for Reject {
    type V = Reject;

    open spec fn view(&self) -> Reject {
        *self
    }
}

/// The invoke identifier an element holds: an `Unsigned32`.
pub open spec fn invoke_id_in(t: TlvModel) -> Result<i64, Error> {
    match t.integer() {
        Err(e) => Err(e),
        Ok(v) => if 0 <= v <= u32::MAX {
            Ok(v)
        } else {
            bad(DecodeReason::BadValue, t.value_offset)
        },
    }
}

/// The invoke identifier an element holds: an `Unsigned32`, or no identifier a peer could have
/// issued.
pub fn invoke_id_of(t: &Tlv<'_>) -> (r: Result<i64, Error>)
    ensures
        agrees(r, invoke_id_in(t@)),
{
    let v: i64 = t.integer_i64()?;
    if 0 <= v && v <= 0xFFFF_FFFF {
        Ok(v)
    } else {
        Err(Error::decode(DecodeReason::BadValue, t.value_offset))
    }
}

/// The reason at a cursor: the last element, a primitive context tag other than `[0]`.
pub open spec fn reason_at(c: CursorModel) -> Result<RejectReason, Error> {
    match c.first() {
        Err(e) => Err(e),
        Ok(t) => if t.tag.class != Class::Context || t.tag.constructed || t.tag.number == 0 {
            bad(DecodeReason::UnexpectedTag, t.offset)
        } else {
            match c.rest().finish() {
                Err(e) => Err(e),
                Ok(_) => match t.integer() {
                    Err(e) => Err(e),
                    Ok(code) => Ok(reason_from(t.tag.number, code)),
                },
            }
        },
    }
}

/// The reject an element holds.
pub open spec fn reject_of(t: TlvModel) -> Result<Reject, Error> {
    let c = t.children();
    match c.optional(ctx(0)) {
        Err(e) => Err(e),
        Ok(None) => match reason_at(c) {
            Err(e) => Err(e),
            Ok(reason) => Ok(Reject { original_invoke_id: None, reason }),
        },
        Ok(Some(id)) => match invoke_id_in(id) {
            Err(e) => Err(e),
            Ok(id) => match reason_at(c.rest()) {
                Err(e) => Err(e),
                Ok(reason) => Ok(Reject { original_invoke_id: Some(id), reason }),
            },
        },
    }
}

/// The contents octets of a reject.
pub open spec fn reject_contents(r: Reject) -> Seq<u8> {
    (match r.original_invoke_id {
        Some(id) => tlv(ctx(0), sint_octets(id as int)),
        None => Seq::empty(),
    }) + tlv(ctx(reason_parts(r.reason).0), sint_octets(reason_parts(r.reason).1 as int))
}

/// Why a reject has no encoding.
pub open spec fn reject_fault(r: Reject) -> Option<Error> {
    match r.original_invoke_id {
        Some(id) => if 0 <= id <= u32::MAX {
            None
        } else {
            Some(Error::Encode("originalInvokeID is Unsigned32"))
        },
        None => None,
    }
}

impl Reject {
    /// A reject of the confirmed request `invoke_id`.
    pub fn confirmed_request(invoke_id: i64, code: i64) -> (r: Reject)
        ensures
            r == (Reject {
                original_invoke_id: Some(invoke_id),
                reason: RejectReason::ConfirmedRequest(code),
            }),
    {
        Reject {
            original_invoke_id: Some(invoke_id),
            reason: RejectReason::ConfirmedRequest(code),
        }
    }

    /// A reject of a PDU that could not be read as one at all.
    pub fn pdu_error(code: i64) -> (r: Reject)
        ensures
            r == (Reject { original_invoke_id: None, reason: RejectReason::PduError(code) }),
    {
        Reject { original_invoke_id: None, reason: RejectReason::PduError(code) }
    }

    /// Decode the contents of a `rejectPDU [4]`.
    pub fn parse(t: &Tlv<'_>) -> (r: Result<Reject, Error>)
        ensures
            agrees(r, reject_of(t@)),
    {
        let mut c = t.children();
        let original_invoke_id: Option<i64> = match c.next_if_tag(Tag::context(0))? {
            Some(id) => Some(invoke_id_of(&id)?),
            None => None,
        };
        let reason = c.next_required()?;
        if reason.tag.class != Class::Context || reason.tag.constructed || reason.tag.number == 0 {
            return Err(Error::decode(DecodeReason::UnexpectedTag, reason.offset));
        }
        c.finish()?;
        let code: i64 = reason.integer_i64()?;
        Ok(
            Reject {
                original_invoke_id,
                reason: RejectReason::from_parts(reason.tag.number, code),
            },
        )
    }

    /// Encode as a whole `rejectPDU [4]`.
    pub fn to_vec(&self) -> (r: Result<Vec<u8>, Error>)
        ensures
            match reject_fault(*self) {
                None => r matches Ok(b) && b@ == tlv(ctx_cons(4), reject_contents(*self)),
                Some(f) => r == Err::<Vec<u8>, Error>(f),
            },
    {
        let mut e = Encoder::new();
        self.write(&mut e)?;
        assert(e@ =~= tlv(ctx_cons(4), reject_contents(*self)));
        Ok(e.into_vec())
    }

    /// Encode into `out` as a whole `rejectPDU [4]`.
    pub fn write(&self, out: &mut Encoder) -> (r: Result<(), Error>)
        ensures
            wrote(
                r,
                old(out)@,
                final(out)@,
                reject_fault(*self),
                tlv(ctx_cons(4), reject_contents(*self)),
            ),
    {
        let (tag, code) = self.reason.parts();
        let mut body = Encoder::new();
        if let Some(id) = self.original_invoke_id {
            if id < 0 || id > 0xFFFF_FFFF {
                return Err(Error::Encode("originalInvokeID is Unsigned32"));
            }
            body.unsigned(Tag::context(0), id as u64);
        }
        body.integer(Tag::context(tag), code);
        assert(body@ =~= reject_contents(*self));
        out.constructed(Tag::context_constructed(4), &body);
        Ok(())
    }

    /// The three numbers [`Error::Rejected`] carries.
    pub fn to_error_parts(&self) -> (r: (Option<i64>, u32, i64))
        ensures
            r == (self.original_invoke_id, reason_parts(self.reason).0, reason_parts(
                self.reason,
            ).1),
    {
        let (tag, code) = self.reason.parts();
        (self.original_invoke_id, tag, code)
    }

    /// The reject as text.
    pub fn to_text(&self) -> (r: String)
        ensures
            r@ == reject_text(*self),
            r@ == (match self.original_invoke_id {
                Some(id) => "reject of invoke "@ + signed_decimal(id as int) + ": "@ + reason_text(
                    self.reason,
                ),
                None => "reject: "@ + reason_text(self.reason),
            }),
    {
        let mut out = String::new();
        let ghost want = match self.original_invoke_id {
            Some(id) => "reject of invoke "@ + signed_decimal(id as int) + ": "@ + reason_text(
                self.reason,
            ),
            None => "reject: "@ + reason_text(self.reason),
        };
        match self.original_invoke_id {
            Some(id) => {
                push_text(&mut out, "reject of invoke ");
                push_signed_decimal(&mut out, id);
                push_text(&mut out, ": ");
            },
            None => push_text(&mut out, "reject: "),
        }
        let reason = self.reason.to_text();
        push_text(&mut out, reason.as_str());
        assert(out@ =~= want);
        out
    }
}

/// How a reject is shown: the request it names, if it names one, and its reason.
pub open spec fn reject_text(r: Reject) -> Seq<char> {
    match r.original_invoke_id {
        Some(id) => "reject of invoke "@ + signed_decimal(id as int) + ": "@ + reason_text(r.reason),
        None => "reject: "@ + reason_text(r.reason),
    }
}

/// A reject that has an encoding reads back as it was.
pub proof fn lemma_reject_round_trip(r: Reject, tag: Tag, offset: usize)
    requires
        reject_fault(r) is None,
        reason_fits(r.reason),
    ensures
        reject_of(laws::element_at(tag, reject_contents(r), offset)) == Ok::<Reject, Error>(r),
{
    let c = laws::element_at(tag, reject_contents(r), offset).children();
    let (n, code) = reason_parts(r.reason);
    let v = sint_octets(code as int);
    let last = tlv(ctx(n), v);
    laws::lemma_integer_field(ctx(n), code, 0);
    assert(last + Seq::empty() =~= last);
    match r.original_invoke_id {
        Some(id) => {
            laws::lemma_integer_field(ctx(0), id, c.offset);
            laws::lemma_present(ctx(0), sint_octets(id as int), last, c.offset);
            laws::lemma_first(ctx(0), sint_octets(id as int), last, c.offset);
            laws::lemma_only(ctx(n), v, c.rest().offset);
            laws::lemma_integer_field(ctx(n), code, c.rest().offset);
        },
        None => {
            assert(reject_contents(r) =~= last);
            laws::lemma_lacks(ctx(n), v, Seq::empty(), ctx(0));
            laws::lemma_absent(last, ctx(0), c.offset);
            laws::lemma_only(ctx(n), v, c.offset);
            laws::lemma_integer_field(ctx(n), code, c.offset);
        },
    }
}

/// No reject that decodes names a request outside `Unsigned32`, and each can be encoded again
/// to a PDU that decodes to the same.
pub proof fn lemma_reject_decodes_twice(t: TlvModel, tag: Tag, offset: usize)
    ensures
        reject_of(t) matches Ok(r) ==> reject_fault(r) is None && reject_of(
            laws::element_at(tag, reject_contents(r), offset),
        ) == Ok::<Reject, Error>(r),
{
    if let Ok(r) = reject_of(t) {
        lemma_reject_round_trip(r, tag, offset);
    }
}

} // verus!
