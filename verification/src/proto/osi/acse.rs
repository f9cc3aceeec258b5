//! ACSE (ISO 8650): opening, releasing and aborting an association.

use vstd::prelude::*;
use crate::ber::laws;
use crate::ber::{
    app_cons, bad, bit_octets, ctx, ctx_cons, first_fault, opt_bits_bytes, opt_bits_fault,
    opt_bytes, opt_integer_bytes, opt_view, sint_octets, tlv, univ, wrote, Class, Cursor,
    CursorModel, Encoder, Tag, Tlv, TlvModel, UNIVERSAL_INTEGER, UNIVERSAL_OID,
};
use crate::common::{agrees, DecodeReason, Error};
use crate::proto::osi::oid::{ber_syntax, mms_context_name, Oid};

verus! {

/// The association was accepted.
pub const RESULT_ACCEPTED: i64 = 0;
/// The association was rejected for good.
pub const RESULT_REJECTED_PERMANENT: i64 = 1;
/// The association was rejected for now.
pub const RESULT_REJECTED_TRANSIENT: i64 = 2;

/// `AARQ-apdu [APPLICATION 0]`.
pub fn tag_aarq() -> (r: Tag)
    ensures
        r == app_cons(0),
{
    Tag::application_constructed(0)
}

/// `AARE-apdu [APPLICATION 1]`.
pub fn tag_aare() -> (r: Tag)
    ensures
        r == app_cons(1),
{
    Tag::application_constructed(1)
}

/// `RLRQ-apdu [APPLICATION 2]`.
pub fn tag_rlrq() -> (r: Tag)
    ensures
        r == app_cons(2),
{
    Tag::application_constructed(2)
}

/// `RLRE-apdu [APPLICATION 3]`.
pub fn tag_rlre() -> (r: Tag)
    ensures
        r == app_cons(3),
{
    Tag::application_constructed(3)
}

/// `ABRT-apdu [APPLICATION 4]`.
pub fn tag_abrt() -> (r: Tag)
    ensures
        r == app_cons(4),
{
    Tag::application_constructed(4)
}

/// An ACSE APDU.
#[derive(Clone, Debug, PartialEq, Eq)]
pub enum Apdu<'a> {
    /// AARQ.
    Associate(Associate<'a>),
    /// AARE.
    AssociateResponse(Associate<'a>),
    /// RLRQ, with its reason.
    Release(Option<i64>),
    /// RLRE, with its reason.
    ReleaseResponse(Option<i64>),
    /// ABRT, with its source.
    Abort(Option<i64>),
}

/// The fields of an AARQ or AARE. The titles and qualifiers are kept encoded.
#[derive(Clone, Copy, Debug, PartialEq, Eq)]
pub struct Associate<'a> {
    /// `protocol-version`, as its bit-string contents.
    pub protocol_version: Option<(u8, &'a [u8])>,
    /// `application-context-name`.
    pub context_name: Option<Oid<'a>>,
    /// `result` (AARE only).
    pub result: Option<i64>,
    /// `result-source-diagnostic` (AARE only).
    pub result_diagnostic: Option<&'a [u8]>,
    /// `called-AP-title` (AARQ only).
    pub called_ap_title: Option<&'a [u8]>,
    /// `called-AE-qualifier` (AARQ only).
    pub called_ae_qualifier: Option<&'a [u8]>,
    /// `responding-AP-title` (AARE only).
    pub responding_ap_title: Option<&'a [u8]>,
    /// `responding-AE-qualifier` (AARE only).
    pub responding_ae_qualifier: Option<&'a [u8]>,
    /// `calling-AP-title`.
    pub calling_ap_title: Option<&'a [u8]>,
    /// `calling-AE-qualifier`.
    pub calling_ae_qualifier: Option<&'a [u8]>,
    /// `sender-acse-requirements`, as its bit-string contents.
    pub sender_requirements: Option<(u8, &'a [u8])>,
    /// `mechanism-name`.
    pub mechanism_name: Option<Oid<'a>>,
    /// `calling-authentication-value`, encoded.
    pub authentication_value: Option<&'a [u8]>,
    /// `user-information`: the MMS PDU.
    pub user_information: Option<UserInformation<'a>>,
}

/// The `EXTERNAL` that carries the MMS PDU.
#[derive(Clone, Copy, Debug, PartialEq, Eq)]
pub struct UserInformation<'a> {
    /// `direct-reference`: the transfer syntax.
    pub direct_reference: Option<Oid<'a>>,
    /// `indirect-reference`: the presentation context.
    pub indirect_reference: Option<i64>,
    /// The encoded PDU.
    pub value: &'a [u8],
}

/// What [`UserInformation`] stands for.
pub struct UserInformationModel {
    pub direct_reference: Option<Seq<u8>>,
    pub indirect_reference: Option<i64>,
    pub value: Seq<u8>,
}

impl<'a> View for UserInformation<'a> {
    type V = UserInformationModel;

    open spec fn view(&self) -> UserInformationModel {
        UserInformationModel {
            direct_reference: opt_view(self.direct_reference),
            indirect_reference: self.indirect_reference,
            value: self.value@,
        }
    }
}

/// What an [`Associate`] stands for.
pub struct AssociateModel {
    pub protocol_version: Option<(u8, Seq<u8>)>,
    pub context_name: Option<Seq<u8>>,
    pub result: Option<i64>,
    pub result_diagnostic: Option<Seq<u8>>,
    pub called_ap_title: Option<Seq<u8>>,
    pub called_ae_qualifier: Option<Seq<u8>>,
    pub responding_ap_title: Option<Seq<u8>>,
    pub responding_ae_qualifier: Option<Seq<u8>>,
    pub calling_ap_title: Option<Seq<u8>>,
    pub calling_ae_qualifier: Option<Seq<u8>>,
    pub sender_requirements: Option<(u8, Seq<u8>)>,
    pub mechanism_name: Option<Seq<u8>>,
    pub authentication_value: Option<Seq<u8>>,
    pub user_information: Option<UserInformationModel>,
}

impl<'a> View for Associate<'a> {
    type V = AssociateModel;

    open spec fn view(&self) -> AssociateModel {
        AssociateModel {
            protocol_version: opt_view(self.protocol_version),
            context_name: opt_view(self.context_name),
            result: self.result,
            result_diagnostic: opt_view(self.result_diagnostic),
            called_ap_title: opt_view(self.called_ap_title),
            called_ae_qualifier: opt_view(self.called_ae_qualifier),
            responding_ap_title: opt_view(self.responding_ap_title),
            responding_ae_qualifier: opt_view(self.responding_ae_qualifier),
            calling_ap_title: opt_view(self.calling_ap_title),
            calling_ae_qualifier: opt_view(self.calling_ae_qualifier),
            sender_requirements: opt_view(self.sender_requirements),
            mechanism_name: opt_view(self.mechanism_name),
            authentication_value: opt_view(self.authentication_value),
            user_information: opt_view(self.user_information),
        }
    }
}

/// No field at all.
pub open spec fn no_fields() -> AssociateModel {
    AssociateModel {
        protocol_version: None,
        context_name: None,
        result: None,
        result_diagnostic: None,
        called_ap_title: None,
        called_ae_qualifier: None,
        responding_ap_title: None,
        responding_ae_qualifier: None,
        calling_ap_title: None,
        calling_ae_qualifier: None,
        sender_requirements: None,
        mechanism_name: None,
        authentication_value: None,
        user_information: None,
    }
}

impl<'a> Default for Associate<'a> {
    fn default() -> (r: Associate<'a>)
        ensures
            r@ == no_fields(),
    {
        Associate {
            protocol_version: None,
            context_name: None,
            result: None,
            result_diagnostic: None,
            called_ap_title: None,
            called_ae_qualifier: None,
            responding_ap_title: None,
            responding_ae_qualifier: None,
            calling_ap_title: None,
            calling_ae_qualifier: None,
            sender_requirements: None,
            mechanism_name: None,
            authentication_value: None,
            user_information: None,
        }
    }
}

/// What an [`Apdu`] stands for.
pub enum ApduModel {
    Associate(AssociateModel),
    AssociateResponse(AssociateModel),
    Release(Option<i64>),
    ReleaseResponse(Option<i64>),
    Abort(Option<i64>),
}

impl<'a> View for Apdu<'a> {
    type V = ApduModel;

    open spec fn view(&self) -> ApduModel {
        match *self {
            Apdu::Associate(a) => ApduModel::Associate(a@),
            Apdu::AssociateResponse(a) => ApduModel::AssociateResponse(a@),
            Apdu::Release(v) => ApduModel::Release(v),
            Apdu::ReleaseResponse(v) => ApduModel::ReleaseResponse(v),
            Apdu::Abort(v) => ApduModel::Abort(v),
        }
    }
}

/// Version 1, as a bit string.
pub open spec fn version_1() -> (u8, Seq<u8>) {
    (7, seq![0x80u8])
}

/// Version 1, as a bit string.
pub fn version_bits() -> (r: (u8, &'static [u8]))
    ensures
        r@ == version_1(),
{
    let r: (u8, &'static [u8]) = (7, &[0x80]);
    assert(r.1@ =~= seq![0x80u8]);
    r
}

impl<'a> Associate<'a> {
    /// The AARQ of this profile: version 1, the MMS application context, and the initiate PDU
    /// in the MMS presentation context.
    pub fn request(
        called_ap_title: Option<&'a [u8]>,
        calling_ap_title: Option<&'a [u8]>,
        mms_context: i64,
        initiate: &'a [u8],
    ) -> (r: Associate<'a>)
        ensures
            r@ == (AssociateModel {
                protocol_version: Some(version_1()),
                context_name: Some(mms_context_name()),
                called_ap_title: opt_view(called_ap_title),
                calling_ap_title: opt_view(calling_ap_title),
                user_information: Some(
                    UserInformationModel {
                        direct_reference: Some(ber_syntax()),
                        indirect_reference: Some(mms_context),
                        value: initiate@,
                    },
                ),
                ..no_fields()
            }),
    {
        let mut r: Associate<'a> = Default::default();
        r.protocol_version = Some(version_bits());
        r.context_name = Some(Oid::mms_application_context());
        r.called_ap_title = called_ap_title;
        r.calling_ap_title = calling_ap_title;
        r.user_information = Some(
            UserInformation {
                direct_reference: Some(Oid::ber()),
                indirect_reference: Some(mms_context),
                value: initiate,
            },
        );
        r
    }

    /// Whether the responder accepted.
    pub fn accepted(&self) -> (r: bool)
        ensures
            r == (self@.result == Some(RESULT_ACCEPTED)),
    {
        match self.result {
            Some(r) => r == RESULT_ACCEPTED,
            None => false,
        }
    }

    /// The MMS PDU, if one is carried.
    pub fn mms_pdu(&self) -> (r: Option<&'a [u8]>)
        ensures
            opt_view(r) == (match self@.user_information {
                Some(u) => Some(u.value),
                None => None,
            }),
    {
        match self.user_information {
            Some(u) => Some(u.value),
            None => None,
        }
    }
}

// ---- decoding --------------------------------------------------------------------------

/// The encoding of an `EXTERNAL`, with the references that came before it.
pub open spec fn encoding_of(t: TlvModel, direct: Option<Seq<u8>>, indirect: Option<i64>) -> Result<
    UserInformationModel,
    Error,
> {
    if t.tag.class == Class::Context && t.tag.number <= 1 {
        Ok(
            UserInformationModel {
                direct_reference: direct,
                indirect_reference: indirect,
                value: t.value,
            },
        )
    } else {
        bad(DecodeReason::UnexpectedTag, t.offset)
    }
}

/// What follows the direct reference of an `EXTERNAL`.
pub open spec fn indirect_of(c: CursorModel, direct: Option<Seq<u8>>) -> Result<
    UserInformationModel,
    Error,
> {
    match c.first() {
        Err(e) => Err(e),
        Ok(t) => if t.tag == univ(2, false) {
            match t.integer() {
                Err(e) => Err(e),
                Ok(i) => match c.rest().first() {
                    Err(e) => Err(e),
                    Ok(v) => encoding_of(v, direct, Some(i)),
                },
            }
        } else {
            encoding_of(t, direct, None)
        },
    }
}

/// What an `EXTERNAL` holds.
pub open spec fn external_of(t: TlvModel) -> Result<UserInformationModel, Error> {
    match t.expect(univ(8, true)) {
        Err(e) => Err(e),
        Ok(t) => {
            let c = t.children();
            match c.first() {
                Err(e) => Err(e),
                Ok(d) => if d.tag == univ(6, false) {
                    indirect_of(c.rest(), Some(d.value))
                } else {
                    indirect_of(c, None)
                },
            }
        },
    }
}

/// The fields after one more is read. Unknown ones are skipped.
pub open spec fn with_field(f: TlvModel, request: bool, a: AssociateModel) -> Result<
    AssociateModel,
    Error,
> {
    let n = f.tag.number;
    if f.tag.class != Class::Context {
        Ok(a)
    } else if n == 0 {
        match f.bits() {
            Err(e) => Err(e),
            Ok(b) => Ok(AssociateModel { protocol_version: Some(b), ..a }),
        }
    } else if n == 1 {
        match f.children().first() {
            Err(e) => Err(e),
            Ok(o) => Ok(AssociateModel { context_name: Some(o.value), ..a }),
        }
    } else if n == 2 && request {
        Ok(AssociateModel { called_ap_title: Some(f.value), ..a })
    } else if n == 2 {
        match f.children().first() {
            Err(e) => Err(e),
            Ok(r) => match r.integer() {
                Err(e) => Err(e),
                Ok(v) => Ok(AssociateModel { result: Some(v), ..a }),
            },
        }
    } else if n == 3 && request {
        Ok(AssociateModel { called_ae_qualifier: Some(f.value), ..a })
    } else if n == 3 {
        Ok(AssociateModel { result_diagnostic: Some(f.value), ..a })
    } else if n == 4 && !request {
        Ok(AssociateModel { responding_ap_title: Some(f.value), ..a })
    } else if n == 5 && !request {
        Ok(AssociateModel { responding_ae_qualifier: Some(f.value), ..a })
    } else if n == 6 {
        Ok(AssociateModel { calling_ap_title: Some(f.value), ..a })
    } else if n == 7 {
        Ok(AssociateModel { calling_ae_qualifier: Some(f.value), ..a })
    } else if n == requirements_tag(request) {
        match f.bits() {
            Err(e) => Err(e),
            Ok(b) => Ok(AssociateModel { sender_requirements: Some(b), ..a }),
        }
    } else if n == mechanism_tag(request) {
        Ok(AssociateModel { mechanism_name: Some(f.value), ..a })
    } else if n == authentication_tag(request) {
        Ok(AssociateModel { authentication_value: Some(f.value), ..a })
    } else if n == 30 {
        match f.children().first() {
            Err(e) => Err(e),
            Ok(t) => match external_of(t) {
                Err(e) => Err(e),
                Ok(u) => Ok(AssociateModel { user_information: Some(u), ..a }),
            },
        }
    } else {
        Ok(a)
    }
}

/// The requirements stand under another tag in an AARQ than in an AARE.
pub open spec fn requirements_tag(request: bool) -> u32 {
    if request {
        10
    } else {
        8
    }
}

/// So does the mechanism name.
pub open spec fn mechanism_tag(request: bool) -> u32 {
    if request {
        11
    } else {
        9
    }
}

/// So does the authentication value.
pub open spec fn authentication_tag(request: bool) -> u32 {
    if request {
        12
    } else {
        10
    }
}

/// The fields after all that a cursor still holds are read.
pub open spec fn with_fields(c: CursorModel, request: bool, a: AssociateModel) -> Result<
    AssociateModel,
    Error,
>
    decreases c.bytes.len(),
    via with_fields_shrink
{
    if c.bytes.len() == 0 {
        Ok(a)
    } else {
        match c.first() {
            Err(e) => Err(e),
            Ok(f) => match with_field(f, request, a) {
                Err(e) => Err(e),
                Ok(next) => with_fields(c.rest(), request, next),
            },
        }
    }
}

#[via_fn]
proof fn with_fields_shrink(c: CursorModel, request: bool, a: AssociateModel) {
    laws::lemma_progress(c);
}

/// The last reason among the elements a cursor still holds, or `acc`.
pub open spec fn reason_in(c: CursorModel, acc: Option<i64>) -> Result<Option<i64>, Error>
    decreases c.bytes.len(),
    via reason_in_shrinks
{
    if c.bytes.len() == 0 {
        Ok(acc)
    } else {
        match c.first() {
            Err(e) => Err(e),
            Ok(f) => if f.tag.class == Class::Context && f.tag.number == 0 {
                match f.integer() {
                    Err(e) => Err(e),
                    Ok(v) => reason_in(c.rest(), Some(v)),
                }
            } else {
                reason_in(c.rest(), acc)
            },
        }
    }
}

#[via_fn]
proof fn reason_in_shrinks(c: CursorModel, acc: Option<i64>) {
    laws::lemma_progress(c);
}

/// The APDU that octets start with.
#[verifier::opaque]
pub open spec fn apdu_of(b: Seq<u8>) -> Result<ApduModel, Error> {
    match (CursorModel { bytes: b, offset: 0 }).first() {
        Err(e) => Err(e),
        Ok(top) => if top.tag.class != Class::Application || top.tag.number > 4 {
            bad(DecodeReason::UnexpectedTag, top.offset)
        } else if top.tag.number == 0 {
            match with_fields(top.children(), true, no_fields()) {
                Err(e) => Err(e),
                Ok(a) => Ok(ApduModel::Associate(a)),
            }
        } else if top.tag.number == 1 {
            match with_fields(top.children(), false, no_fields()) {
                Err(e) => Err(e),
                Ok(a) => Ok(ApduModel::AssociateResponse(a)),
            }
        } else {
            match reason_in(top.children(), None) {
                Err(e) => Err(e),
                Ok(v) => Ok(
                    if top.tag.number == 2 {
                        ApduModel::Release(v)
                    } else if top.tag.number == 3 {
                        ApduModel::ReleaseResponse(v)
                    } else {
                        ApduModel::Abort(v)
                    },
                ),
            }
        },
    }
}

fn parse_external<'a>(t: &Tlv<'a>) -> (r: Result<UserInformation<'a>, Error>)
    ensures
        agrees(r, external_of(t@)),
{
    let t = (*t).expect(Tag::universal(8, true))?;
    let mut c = t.children();
    let mut direct_reference: Option<Oid<'a>> = None;
    let mut indirect_reference: Option<i64> = None;
    let mut next = c.next_required()?;
    if next.tag == Tag::universal(UNIVERSAL_OID, false) {
        direct_reference = Some(Oid(next.value));
        next = c.next_required()?;
    }
    if next.tag == Tag::universal(UNIVERSAL_INTEGER, false) {
        indirect_reference = Some(next.integer_i64()?);
        next = c.next_required()?;
    }
    if next.tag.class == Class::Context && next.tag.number <= 1 {
        Ok(UserInformation { direct_reference, indirect_reference, value: next.value })
    } else {
        Err(Error::decode(DecodeReason::UnexpectedTag, next.offset))
    }
}

fn read_field<'a>(f: &Tlv<'a>, request: bool, a: Associate<'a>) -> (r: Result<Associate<'a>, Error>)
    ensures
        agrees(r, with_field(f@, request, a@)),
{
    let mut a = a;
    if f.tag.class != Class::Context {
        return Ok(a);
    }
    match f.tag.number {
        0 => {
            a.protocol_version = Some(f.bit_string()?);
        },
        1 => {
            let o = f.children().next_required()?;
            a.context_name = Some(Oid(o.value));
        },
        2 => {
            if request {
                a.called_ap_title = Some(f.value);
            } else {
                let r = f.children().next_required()?;
                a.result = Some(r.integer_i64()?);
            }
        },
        3 => {
            if request {
                a.called_ae_qualifier = Some(f.value);
            } else {
                a.result_diagnostic = Some(f.value);
            }
        },
        4 => {
            if !request {
                a.responding_ap_title = Some(f.value);
            }
        },
        5 => {
            if !request {
                a.responding_ae_qualifier = Some(f.value);
            }
        },
        6 => {
            a.calling_ap_title = Some(f.value);
        },
        7 => {
            a.calling_ae_qualifier = Some(f.value);
        },
        8 => {
            if !request {
                a.sender_requirements = Some(f.bit_string()?);
            }
        },
        9 => {
            if !request {
                a.mechanism_name = Some(Oid(f.value));
            }
        },
        10 => {
            if request {
                a.sender_requirements = Some(f.bit_string()?);
            } else {
                a.authentication_value = Some(f.value);
            }
        },
        11 => {
            if request {
                a.mechanism_name = Some(Oid(f.value));
            }
        },
        12 => {
            if request {
                a.authentication_value = Some(f.value);
            }
        },
        30 => {
            let t = f.children().next_required()?;
            a.user_information = Some(parse_external(&t)?);
        },
        _ => {},
    }
    Ok(a)
}

fn read_fields<'a>(top: &Tlv<'a>, request: bool) -> (r: Result<Associate<'a>, Error>)
    ensures
        agrees(r, with_fields(top@.children(), request, no_fields())),
{
    let mut a: Associate<'a> = Default::default();
    let mut c = top.children();
    while !c.is_empty()
        invariant
            with_fields(top@.children(), request, no_fields()) == with_fields(c@, request, a@),
        decreases c@.bytes.len(),
    {
        proof {
            laws::lemma_progress(c@);
        }
        let f = c.next_required()?;
        a = read_field(&f, request, a)?;
    }
    Ok(a)
}

fn read_reason(top: &Tlv<'_>) -> (r: Result<Option<i64>, Error>)
    ensures
        r == reason_in(top@.children(), None),
{
    let mut v: Option<i64> = None;
    let mut c = top.children();
    while !c.is_empty()
        invariant
            reason_in(top@.children(), None) == reason_in(c@, v),
        decreases c@.bytes.len(),
    {
        proof {
            laws::lemma_progress(c@);
        }
        let f = c.next_required()?;
        if f.tag.class == Class::Context && f.tag.number == 0 {
            v = Some(f.integer_i64()?);
        }
    }
    Ok(v)
}

// ---- encoding --------------------------------------------------------------------------

/// The application context name.
pub open spec fn context_name_contents(o: Option<Seq<u8>>) -> Option<Seq<u8>> {
    match o {
        Some(o) => Some(tlv(univ(6, false), o)),
        None => None,
    }
}

/// The result.
pub open spec fn result_contents(v: Option<i64>) -> Option<Seq<u8>> {
    match v {
        Some(v) => Some(tlv(univ(2, false), sint_octets(v as int))),
        None => None,
    }
}

/// The contents of an `EXTERNAL`.
pub open spec fn external_contents(u: UserInformationModel) -> Seq<u8> {
    opt_bytes(univ(6, false), u.direct_reference) + (opt_integer_bytes(
        univ(2, false),
        u.indirect_reference,
    ) + tlv(ctx_cons(0), u.value))
}

/// The user information.
pub open spec fn user_information_contents(u: Option<UserInformationModel>) -> Option<Seq<u8>> {
    match u {
        Some(u) => Some(tlv(univ(8, true), external_contents(u))),
        None => None,
    }
}

/// A bit string as contents octets.
pub open spec fn bits_contents(v: Option<(u8, Seq<u8>)>) -> Option<Seq<u8>> {
    match v {
        Some((unused, bytes)) => Some(bit_octets(unused, bytes)),
        None => None,
    }
}

/// The last fields: requirements, mechanism, authentication value and user information.
pub open spec fn tail_contents(a: AssociateModel, request: bool) -> Seq<u8> {
    opt_bytes(ctx_cons(6), a.calling_ap_title) + (opt_bytes(ctx_cons(7), a.calling_ae_qualifier) + (
    opt_bytes(ctx(requirements_tag(request)), bits_contents(a.sender_requirements)) + (opt_bytes(
        ctx(mechanism_tag(request)),
        a.mechanism_name,
    ) + (opt_bytes(ctx_cons(authentication_tag(request)), a.authentication_value) + opt_bytes(
        ctx_cons(30),
        user_information_contents(a.user_information),
    )))))
}

/// The fields that an AARQ or an AARE has for itself, and the last ones.
pub open spec fn middle_contents(a: AssociateModel, request: bool) -> Seq<u8> {
    if request {
        opt_bytes(ctx_cons(2), a.called_ap_title) + (opt_bytes(ctx_cons(3), a.called_ae_qualifier)
            + tail_contents(a, request))
    } else {
        opt_bytes(ctx_cons(2), result_contents(a.result)) + (opt_bytes(
            ctx_cons(3),
            a.result_diagnostic,
        ) + (opt_bytes(ctx_cons(4), a.responding_ap_title) + (opt_bytes(
            ctx_cons(5),
            a.responding_ae_qualifier,
        ) + tail_contents(a, request))))
    }
}

/// The contents of an AARQ or AARE, in the order of the tags.
pub open spec fn associate_contents(a: AssociateModel, request: bool) -> Seq<u8> {
    opt_bytes(ctx(0), bits_contents(a.protocol_version)) + (opt_bytes(
        ctx_cons(1),
        context_name_contents(a.context_name),
    ) + middle_contents(a, request))
}

/// Why an AARQ or AARE has no encoding.
pub open spec fn associate_fault(a: AssociateModel) -> Option<Error> {
    first_fault(opt_bits_fault(a.protocol_version), opt_bits_fault(a.sender_requirements))
}

/// The octets of an APDU.
pub open spec fn apdu_bytes(m: ApduModel) -> Seq<u8> {
    match m {
        ApduModel::Associate(a) => tlv(app_cons(0), associate_contents(a, true)),
        ApduModel::AssociateResponse(a) => tlv(app_cons(1), associate_contents(a, false)),
        ApduModel::Release(v) => tlv(app_cons(2), opt_integer_bytes(ctx(0), v)),
        ApduModel::ReleaseResponse(v) => tlv(app_cons(3), opt_integer_bytes(ctx(0), v)),
        ApduModel::Abort(v) => tlv(app_cons(4), opt_integer_bytes(ctx(0), v)),
    }
}

/// Why an APDU has no encoding.
pub open spec fn apdu_fault(m: ApduModel) -> Option<Error> {
    match m {
        ApduModel::Associate(a) => associate_fault(a),
        ApduModel::AssociateResponse(a) => associate_fault(a),
        _ => None,
    }
}

fn write_bits(e: &mut Encoder, tag: Tag, v: Option<(u8, &[u8])>) -> (r: Result<(), Error>)
    ensures
        match opt_bits_fault(opt_view(v)) {
            None => r is Ok && final(e)@ == old(e)@ + opt_bytes(tag, bits_contents(opt_view(v))),
            Some(f) => r == Err::<(), Error>(f),
        },
{
    e.opt_bit_string(tag, v)?;
    assert(opt_bytes(tag, bits_contents(opt_view(v))) == opt_bits_bytes(tag, opt_view(v)));
    Ok(())
}

fn opt_octets<'a>(o: Option<Oid<'a>>) -> (r: Option<&'a [u8]>)
    ensures
        opt_view(r) == opt_view(o),
{
    match o {
        Some(o) => Some(o.0),
        None => None,
    }
}

fn write_user_information(e: &mut Encoder, u: Option<UserInformation<'_>>)
    ensures
        final(e)@ == old(e)@ + opt_bytes(ctx_cons(30), user_information_contents(opt_view(u))),
{
    match u {
        Some(u) => {
            let mut external = Encoder::new();
            external.opt_primitive(
                Tag::universal(UNIVERSAL_OID, false),
                opt_octets(u.direct_reference),
            );
            external.opt_integer(Tag::universal(UNIVERSAL_INTEGER, false), u.indirect_reference);
            external.primitive(Tag::context_constructed(0), u.value);
            assert(external@ =~= external_contents(u@));
            let mut inner = Encoder::new();
            inner.constructed(Tag::universal(8, true), &external);
            assert(inner@ =~= tlv(univ(8, true), external_contents(u@)));
            e.constructed(Tag::context_constructed(30), &inner);
        },
        None => {
            assert(e@ =~= old(e)@ + opt_bytes(
                ctx_cons(30),
                user_information_contents(opt_view(u)),
            ));
        },
    }
}

fn write_tail(e: &mut Encoder, a: &Associate<'_>, request: bool) -> (r: Result<(), Error>)
    ensures
        match opt_bits_fault(a@.sender_requirements) {
            None => r is Ok && final(e)@ == old(e)@ + tail_contents(a@, request),
            Some(f) => r == Err::<(), Error>(f),
        },
{
    e.opt_primitive(Tag::context_constructed(6), a.calling_ap_title);
    e.opt_primitive(Tag::context_constructed(7), a.calling_ae_qualifier);
    let (req, mech, auth): (u32, u32, u32) = if request {
        (10, 11, 12)
    } else {
        (8, 9, 10)
    };
    write_bits(e, Tag::context(req), a.sender_requirements)?;
    e.opt_primitive(Tag::context(mech), opt_octets(a.mechanism_name));
    e.opt_primitive(Tag::context_constructed(auth), a.authentication_value);
    write_user_information(e, a.user_information);
    assert(e@ =~= old(e)@ + tail_contents(a@, request));
    Ok(())
}

fn write_result(e: &mut Encoder, v: Option<i64>)
    ensures
        final(e)@ == old(e)@ + opt_bytes(ctx_cons(2), result_contents(v)),
{
    match v {
        Some(x) => {
            let mut inner = Encoder::new();
            inner.integer(Tag::universal(UNIVERSAL_INTEGER, false), x);
            assert(inner@ =~= tlv(univ(2, false), sint_octets(x as int)));
            e.constructed(Tag::context_constructed(2), &inner);
        },
        None => {
            assert(e@ =~= old(e)@ + opt_bytes(ctx_cons(2), result_contents(v)));
        },
    }
}

fn write_context_name(e: &mut Encoder, o: Option<Oid<'_>>)
    ensures
        final(e)@ == old(e)@ + opt_bytes(ctx_cons(1), context_name_contents(opt_view(o))),
{
    match o {
        Some(x) => {
            let mut inner = Encoder::new();
            inner.primitive(Tag::universal(UNIVERSAL_OID, false), x.0);
            assert(inner@ =~= tlv(univ(6, false), x@));
            e.constructed(Tag::context_constructed(1), &inner);
        },
        None => {
            assert(e@ =~= old(e)@ + opt_bytes(ctx_cons(1), context_name_contents(opt_view(o))));
        },
    }
}

fn write_middle(e: &mut Encoder, a: &Associate<'_>, request: bool) -> (r: Result<(), Error>)
    ensures
        match opt_bits_fault(a@.sender_requirements) {
            None => r is Ok && final(e)@ == old(e)@ + middle_contents(a@, request),
            Some(f) => r == Err::<(), Error>(f),
        },
{
    if request {
        e.opt_primitive(Tag::context_constructed(2), a.called_ap_title);
        e.opt_primitive(Tag::context_constructed(3), a.called_ae_qualifier);
    } else {
        write_result(e, a.result);
        e.opt_primitive(Tag::context_constructed(3), a.result_diagnostic);
        e.opt_primitive(Tag::context_constructed(4), a.responding_ap_title);
        e.opt_primitive(Tag::context_constructed(5), a.responding_ae_qualifier);
    }
    write_tail(e, a, request)?;
    assert(e@ =~= old(e)@ + middle_contents(a@, request));
    Ok(())
}

fn write_associate(a: &Associate<'_>, request: bool) -> (r: Result<Encoder, Error>)
    ensures
        match associate_fault(a@) {
            None => r matches Ok(e) && e@ == associate_contents(a@, request),
            Some(f) => r == Err::<Encoder, Error>(f),
        },
{
    let mut e = Encoder::new();
    write_bits(&mut e, Tag::context(0), a.protocol_version)?;
    write_context_name(&mut e, a.context_name);
    write_middle(&mut e, a, request)?;
    assert(e@ =~= associate_contents(a@, request));
    Ok(e)
}

impl<'a> Apdu<'a> {
    /// Decode an ACSE APDU.
    pub fn parse(buf: &'a [u8]) -> (r: Result<Apdu<'a>, Error>)
        ensures
            agrees(r, apdu_of(buf@)),
    {
        reveal(apdu_of);
        let top = Cursor::new(buf).next_required()?;
        if top.tag.class != Class::Application || top.tag.number > 4 {
            return Err(Error::decode(DecodeReason::UnexpectedTag, top.offset));
        }
        match top.tag.number {
            0 => Ok(Apdu::Associate(read_fields(&top, true)?)),
            1 => Ok(Apdu::AssociateResponse(read_fields(&top, false)?)),
            2 => Ok(Apdu::Release(read_reason(&top)?)),
            3 => Ok(Apdu::ReleaseResponse(read_reason(&top)?)),
            _ => Ok(Apdu::Abort(read_reason(&top)?)),
        }
    }

    /// Encode into `out`.
    pub fn write(&self, out: &mut Encoder) -> (r: Result<(), Error>)
        ensures
            wrote(r, old(out)@, final(out)@, apdu_fault(self@), apdu_bytes(self@)),
    {
        match self {
            Apdu::Associate(a) => {
                let body = write_associate(a, true)?;
                out.constructed(tag_aarq(), &body);
            },
            Apdu::AssociateResponse(a) => {
                let body = write_associate(a, false)?;
                out.constructed(tag_aare(), &body);
            },
            Apdu::Release(v) => {
                let mut body = Encoder::new();
                body.opt_integer(Tag::context(0), *v);
                assert(body@ =~= opt_integer_bytes(ctx(0), *v));
                out.constructed(tag_rlrq(), &body);
            },
            Apdu::ReleaseResponse(v) => {
                let mut body = Encoder::new();
                body.opt_integer(Tag::context(0), *v);
                assert(body@ =~= opt_integer_bytes(ctx(0), *v));
                out.constructed(tag_rlre(), &body);
            },
            Apdu::Abort(v) => {
                let mut body = Encoder::new();
                body.opt_integer(Tag::context(0), *v);
                assert(body@ =~= opt_integer_bytes(ctx(0), *v));
                out.constructed(tag_abrt(), &body);
            },
        }
        Ok(())
    }

    /// Encode into a new buffer.
    pub fn to_vec(&self) -> (r: Result<Vec<u8>, Error>)
        ensures
            match apdu_fault(self@) {
                None => r matches Ok(b) && b@ == apdu_bytes(self@),
                Some(f) => r == Err::<Vec<u8>, Error>(f),
            },
    {
        let mut e = Encoder::new();
        self.write(&mut e)?;
        assert(e@ =~= apdu_bytes(self@));
        Ok(e.into_vec())
    }
}

// ---- laws ------------------------------------------------------------------------------

/// An `EXTERNAL` reads back as it was.
proof fn lemma_external_round_trip(u: UserInformationModel, offset: usize)
    requires
        external_contents(u).len() <= u64::MAX,
    ensures
        external_of(laws::element_at(univ(8, true), external_contents(u), offset)) == Ok::<
            UserInformationModel,
            Error,
        >(u),
{
    broadcast use laws::lemma_tlv_len;

    let c = laws::element_at(univ(8, true), external_contents(u), offset).children();
    let last = tlv(ctx_cons(0), u.value);
    let rest = opt_integer_bytes(univ(2, false), u.indirect_reference) + last;
    let c1 = match u.direct_reference {
        Some(d) => {
            laws::lemma_first(univ(6, false), d, rest, c.offset);
            c.rest()
        },
        None => {
            assert(external_contents(u) =~= rest);
            c
        },
    };
    assert(c1.bytes == rest);
    match u.indirect_reference {
        Some(i) => {
            let v = sint_octets(i as int);
            laws::lemma_integer_field(univ(2, false), i, c1.offset);
            laws::lemma_first(univ(2, false), v, last, c1.offset);
            laws::lemma_only(ctx_cons(0), u.value, c1.rest().offset);
        },
        None => {
            assert(rest =~= last);
            laws::lemma_only(ctx_cons(0), u.value, c1.offset);
        },
    }
}

/// An optional field that reads as expected takes the fields from `a` to `b`.
proof fn lemma_step(
    tag: Tag,
    v: Option<Seq<u8>>,
    rest: Seq<u8>,
    offset: usize,
    request: bool,
    a: AssociateModel,
    b: AssociateModel,
) -> (next: usize)
    requires
        match v {
            Some(x) => x.len() <= u64::MAX && with_field(
                laws::element_at(tag, x, offset),
                request,
                a,
            ) == Ok::<AssociateModel, Error>(b),
            None => a == b,
        },
    ensures
        with_fields(CursorModel { bytes: opt_bytes(tag, v) + rest, offset }, request, a)
            == with_fields(CursorModel { bytes: rest, offset: next }, request, b),
{
    match v {
        Some(x) => {
            laws::lemma_first(tag, x, rest, offset);
            laws::lemma_tlv_len(tag, x);
            laws::cursor_after(tag, x, rest, offset).offset
        },
        None => {
            assert(opt_bytes(tag, v) + rest =~= rest);
            offset
        },
    }
}

proof fn lemma_tail_round_trip(
    a: AssociateModel,
    request: bool,
    start: AssociateModel,
    offset: usize,
)
    requires
        opt_bits_fault(a.sender_requirements) is None,
        tail_contents(a, request).len() <= u64::MAX,
        start == (AssociateModel {
            calling_ap_title: None,
            calling_ae_qualifier: None,
            sender_requirements: None,
            mechanism_name: None,
            authentication_value: None,
            user_information: None,
            ..a
        }),
    ensures
        with_fields(CursorModel { bytes: tail_contents(a, request), offset }, request, start)
            == Ok::<AssociateModel, Error>(a),
{
    broadcast use laws::lemma_tlv_len;

    let p5 = opt_bytes(ctx_cons(30), user_information_contents(a.user_information));
    let p4 = opt_bytes(ctx_cons(authentication_tag(request)), a.authentication_value) + p5;
    let p3 = opt_bytes(ctx(mechanism_tag(request)), a.mechanism_name) + p4;
    let p2 = opt_bytes(ctx(requirements_tag(request)), bits_contents(a.sender_requirements)) + p3;
    let p1 = opt_bytes(ctx_cons(7), a.calling_ae_qualifier) + p2;
    let s1 = AssociateModel { calling_ap_title: a.calling_ap_title, ..start };
    let o1 = lemma_step(ctx_cons(6), a.calling_ap_title, p1, offset, request, start, s1);
    let s2 = AssociateModel { calling_ae_qualifier: a.calling_ae_qualifier, ..s1 };
    let o2 = lemma_step(ctx_cons(7), a.calling_ae_qualifier, p2, o1, request, s1, s2);
    let s3 = AssociateModel { sender_requirements: a.sender_requirements, ..s2 };
    if let Some((unused, bytes)) = a.sender_requirements {
        laws::lemma_bits_field(ctx(requirements_tag(request)), unused, bytes, o2);
    }
    let o3 = lemma_step(
        ctx(requirements_tag(request)),
        bits_contents(a.sender_requirements),
        p3,
        o2,
        request,
        s2,
        s3,
    );
    let s4 = AssociateModel { mechanism_name: a.mechanism_name, ..s3 };
    let o4 = lemma_step(ctx(mechanism_tag(request)), a.mechanism_name, p4, o3, request, s3, s4);
    let s5 = AssociateModel { authentication_value: a.authentication_value, ..s4 };
    let o5 = lemma_step(
        ctx_cons(authentication_tag(request)),
        a.authentication_value,
        p5,
        o4,
        request,
        s4,
        s5,
    );
    if let Some(u) = a.user_information {
        let inner = tlv(univ(8, true), external_contents(u));
        let at = laws::element_at(ctx_cons(30), inner, o5).value_offset;
        laws::lemma_only(univ(8, true), external_contents(u), at);
        lemma_external_round_trip(u, at);
    }
    let none = Seq::<u8>::empty();
    assert(p5 + none =~= p5);
    let o6 = lemma_step(
        ctx_cons(30),
        user_information_contents(a.user_information),
        none,
        o5,
        request,
        s5,
        a,
    );
}

/// The fields up to and with the responder's own.
pub open spec fn front_of(a: AssociateModel) -> AssociateModel {
    AssociateModel {
        calling_ap_title: None,
        calling_ae_qualifier: None,
        sender_requirements: None,
        mechanism_name: None,
        authentication_value: None,
        user_information: None,
        ..a
    }
}

/// Whether an AARQ or AARE holds only fields that it can carry.
pub open spec fn associate_fits(a: AssociateModel, request: bool) -> bool {
    if request {
        a.result is None && a.result_diagnostic is None && a.responding_ap_title is None
            && a.responding_ae_qualifier is None
    } else {
        a.called_ap_title is None && a.called_ae_qualifier is None
    }
}

proof fn lemma_associate_round_trip(a: AssociateModel, request: bool, offset: usize)
    requires
        associate_fault(a) is None,
        associate_fits(a, request),
        associate_contents(a, request).len() <= u64::MAX,
    ensures
        with_fields(
            CursorModel { bytes: associate_contents(a, request), offset },
            request,
            no_fields(),
        ) == Ok::<AssociateModel, Error>(a),
{
    broadcast use laws::lemma_tlv_len;

    let tail = tail_contents(a, request);
    let mid = middle_contents(a, request);
    let p1 = opt_bytes(ctx_cons(1), context_name_contents(a.context_name)) + mid;
    let s0 = no_fields();
    let s1 = AssociateModel { protocol_version: a.protocol_version, ..s0 };
    if let Some((unused, bytes)) = a.protocol_version {
        laws::lemma_bits_field(ctx(0), unused, bytes, offset);
    }
    let o1 = lemma_step(ctx(0), bits_contents(a.protocol_version), p1, offset, request, s0, s1);
    let s2 = AssociateModel { context_name: a.context_name, ..s1 };
    if let Some(o) = a.context_name {
        laws::lemma_only(
            univ(6, false),
            o,
            laws::element_at(ctx_cons(1), tlv(univ(6, false), o), o1).value_offset,
        );
    }
    let o2 = lemma_step(
        ctx_cons(1),
        context_name_contents(a.context_name),
        mid,
        o1,
        request,
        s1,
        s2,
    );
    if request {
        let r3 = opt_bytes(ctx_cons(3), a.called_ae_qualifier) + tail;
        let s3 = AssociateModel { called_ap_title: a.called_ap_title, ..s2 };
        let o3 = lemma_step(ctx_cons(2), a.called_ap_title, r3, o2, request, s2, s3);
        let s4 = AssociateModel { called_ae_qualifier: a.called_ae_qualifier, ..s3 };
        let o4 = lemma_step(ctx_cons(3), a.called_ae_qualifier, tail, o3, request, s3, s4);
        assert(s4 == front_of(a));
        lemma_tail_round_trip(a, request, s4, o4);
    } else {
        let r5 = opt_bytes(ctx_cons(5), a.responding_ae_qualifier) + tail;
        let r4 = opt_bytes(ctx_cons(4), a.responding_ap_title) + r5;
        let r3 = opt_bytes(ctx_cons(3), a.result_diagnostic) + r4;
        let s3 = AssociateModel { result: a.result, ..s2 };
        if let Some(v) = a.result {
            let at = laws::element_at(
                ctx_cons(2),
                tlv(univ(2, false), sint_octets(v as int)),
                o2,
            ).value_offset;
            laws::lemma_integer_field(univ(2, false), v, at);
            laws::lemma_only(univ(2, false), sint_octets(v as int), at);
        }
        let o3 = lemma_step(ctx_cons(2), result_contents(a.result), r3, o2, request, s2, s3);
        let s4 = AssociateModel { result_diagnostic: a.result_diagnostic, ..s3 };
        let o4 = lemma_step(ctx_cons(3), a.result_diagnostic, r4, o3, request, s3, s4);
        let s5 = AssociateModel { responding_ap_title: a.responding_ap_title, ..s4 };
        let o5 = lemma_step(ctx_cons(4), a.responding_ap_title, r5, o4, request, s4, s5);
        let s6 = AssociateModel { responding_ae_qualifier: a.responding_ae_qualifier, ..s5 };
        let o6 = lemma_step(ctx_cons(5), a.responding_ae_qualifier, tail, o5, request, s5, s6);
        assert(s6 == front_of(a));
        lemma_tail_round_trip(a, request, s6, o6);
    }
}

proof fn lemma_reason_round_trip(v: Option<i64>, offset: usize)
    ensures
        reason_in(CursorModel { bytes: opt_integer_bytes(ctx(0), v), offset }, None) == Ok::<
            Option<i64>,
            Error,
        >(v),
        opt_integer_bytes(ctx(0), v).len() <= 32,
{
    if let Some(x) = v {
        let s = sint_octets(x as int);
        laws::lemma_integer_field(ctx(0), x, offset);
        laws::lemma_only(ctx(0), s, offset);
        laws::lemma_tlv_len(ctx(0), s);
        laws::lemma_small(ctx(0), s);
        reveal_with_fuel(reason_in, 2);
    }
}

/// Whether an APDU holds only fields that it can carry.
pub open spec fn apdu_fits(m: ApduModel) -> bool {
    match m {
        ApduModel::Associate(a) => associate_fits(a, true),
        ApduModel::AssociateResponse(a) => associate_fits(a, false),
        _ => true,
    }
}

/// An APDU that has an encoding reads back as it was.
pub proof fn lemma_apdu_round_trip(m: ApduModel)
    requires
        apdu_fault(m) is None,
        apdu_fits(m),
        apdu_bytes(m).len() <= u64::MAX,
    ensures
        apdu_of(apdu_bytes(m)) == Ok::<ApduModel, Error>(m),
{
    reveal(apdu_of);
    broadcast use laws::lemma_tlv_len;

    match m {
        ApduModel::Associate(a) => {
            let v = associate_contents(a, true);
            laws::lemma_only(app_cons(0), v, 0);
            lemma_associate_round_trip(a, true, laws::element_at(app_cons(0), v, 0).value_offset);
        },
        ApduModel::AssociateResponse(a) => {
            let v = associate_contents(a, false);
            laws::lemma_only(app_cons(1), v, 0);
            lemma_associate_round_trip(a, false, laws::element_at(app_cons(1), v, 0).value_offset);
        },
        ApduModel::Release(x) => {
            let v = opt_integer_bytes(ctx(0), x);
            lemma_reason_round_trip(x, laws::element_at(app_cons(2), v, 0).value_offset);
            laws::lemma_only(app_cons(2), v, 0);
        },
        ApduModel::ReleaseResponse(x) => {
            let v = opt_integer_bytes(ctx(0), x);
            lemma_reason_round_trip(x, laws::element_at(app_cons(3), v, 0).value_offset);
            laws::lemma_only(app_cons(3), v, 0);
        },
        ApduModel::Abort(x) => {
            let v = opt_integer_bytes(ctx(0), x);
            lemma_reason_round_trip(x, laws::element_at(app_cons(4), v, 0).value_offset);
            laws::lemma_only(app_cons(4), v, 0);
        },
    }
}

proof fn lemma_fields_decoded(c: CursorModel, request: bool, a: AssociateModel)
    requires
        associate_fault(a) is None,
        associate_fits(a, request),
    ensures
        with_fields(c, request, a) matches Ok(x) ==> associate_fault(x) is None && associate_fits(
            x,
            request,
        ),
    decreases c.bytes.len(),
{
    if c.bytes.len() > 0 {
        laws::lemma_progress(c);
        if let Ok(f) = c.first() {
            if let Ok(next) = with_field(f, request, a) {
                lemma_fields_decoded(c.rest(), request, next);
            }
        }
    }
}

/// Encoding is a fixed point: whatever decodes has an encoding, which decodes to the same.
pub proof fn lemma_apdu_fixed_point(b: Seq<u8>)
    ensures
        apdu_of(b) matches Ok(m) ==> {
            &&& apdu_fault(m) is None
            &&& apdu_bytes(m).len() <= u64::MAX ==> apdu_of(apdu_bytes(m)) == Ok::<
                ApduModel,
                Error,
            >(m)
        },
{
    if let Ok(top) = (CursorModel { bytes: b, offset: 0 }).first() {
        lemma_fields_decoded(top.children(), true, no_fields());
        lemma_fields_decoded(top.children(), false, no_fields());
        if let Ok(m) = apdu_of(b) {
            assert(apdu_fault(m) is None && apdu_fits(m)) by {
                reveal(apdu_of);
            }
            if apdu_bytes(m).len() <= u64::MAX {
                lemma_apdu_round_trip(m);
            }
        }
    }
    reveal(apdu_of);
}

} // verus!
