//! What the upper layers take from a peer: fields in any order, unknown ones passed over.

use vstd::prelude::*;
use crate::ber::{Class, TlvModel};
use crate::common::Error;
use crate::proto::osi::acse::{with_field, AssociateModel};
use crate::proto::osi::cotp::{self, connect_of, params_of};
use crate::proto::osi::oid::{arcs_from, encodable, oid_octets};
use crate::proto::osi::presentation::{with_parameter, CpModel};
use crate::proto::osi::session::{
    connect_in, last_param, reason_in, user_data_in, ConnectModel, ParamModel,
};

verus! {

/// A parameter of a connection request is read by its code: C0 is the size, C1 the calling selector,
/// C2 the called one. Any other is passed over, and what is cut short is refused.
pub proof fn lemma_transport_parameter(
    code: u8,
    value: Seq<u8>,
    rest: Seq<u8>,
    acc: cotp::ConnectModel,
)
    requires
        value.len() <= 255,
    ensures
        ({
            let b = seq![code, value.len() as u8] + value + rest;
            let r = params_of(b, acc);
            &&& code == 0xC0 && value.len() > 0 ==> r == params_of(
                rest,
                cotp::ConnectModel { tpdu_size_exp: Some(value[0]), ..acc },
            )
            &&& code == 0xC0 && value.len() == 0 ==> r == params_of(
                rest,
                cotp::ConnectModel { tpdu_size_exp: None, ..acc },
            )
            &&& code == 0xC1 ==> r == params_of(
                rest,
                cotp::ConnectModel { src_tsel: Some(value), ..acc },
            )
            &&& code == 0xC2 ==> r == params_of(
                rest,
                cotp::ConnectModel { dst_tsel: Some(value), ..acc },
            )
            &&& code != 0xC0 && code != 0xC1 && code != 0xC2 ==> r == params_of(rest, acc)
        }),
        params_of(Seq::empty(), acc) == Ok::<cotp::ConnectModel, Error>(acc),
        params_of(seq![code], acc) is Err,
        value.len() > 0 ==> params_of(seq![code, value.len() as u8] + value.drop_last(), acc) is Err,
{
    let n = value.len() as int;
    let b = seq![code, value.len() as u8] + value + rest;
    assert(b.subrange(2, 2 + n) =~= value);
    assert(b.skip(2 + n) =~= rest);
}

/// A connection request names its destination first and its source second, then its class; one that is
/// shorter than that is refused.
pub proof fn lemma_connection_read(body: Seq<u8>)
    ensures
        body.len() < 5 ==> connect_of(body) is Err,
        body.len() == 5 ==> (connect_of(body) matches Ok(c) && c.dst_ref == body[0] * 256 + body[1]
            && c.src_ref == body[2] * 256 + body[3] && c.class_options == body[4]
            && c.tpdu_size_exp is None && c.src_tsel is None && c.dst_tsel is None),
{
    if body.len() == 5 {
        assert(body.skip(5) =~= Seq::<u8>::empty());
    }
}

/// Of parameters with one code the last counts, and there is none where none has the code.
pub proof fn lemma_last_counts(p: Seq<ParamModel>, x: ParamModel, code: u8)
    ensures
        last_param(Seq::empty(), code) is None,
        x.code == code ==> last_param(p.push(x), code) == Some(x.value),
        x.code != code ==> last_param(p.push(x), code) == last_param(p, code),
        user_data_in(Seq::empty()).len() == 0,
        x.code == 193 || x.code == 194 ==> user_data_in(p.push(x)) == x.value,
        x.code != 193 && x.code != 194 ==> user_data_in(p.push(x)) == user_data_in(p),
{
    assert(p.push(x).drop_last() =~= p);
}

/// A session is read by the codes of its parameters: 19 the options, 22 the version, 20 the
/// requirements, 51 the calling selector and 52 the called one. What is not there is zero or absent.
pub proof fn lemma_session_read(p: Seq<ParamModel>)
    ensures
        ({
            let c = connect_in(p);
            &&& c.calling_ssel == last_param(p, 51)
            &&& c.called_ssel == last_param(p, 52)
            &&& c.user_data == user_data_in(p)
            &&& last_param(p, 19) matches Some(v) ==> v.len() > 0 ==> c.protocol_options == v[0]
            &&& last_param(p, 19) is None ==> c.protocol_options == 0
            &&& last_param(p, 22) matches Some(v) ==> v.len() > 0 ==> c.version == v[0]
            &&& last_param(p, 22) matches Some(v) ==> v.len() == 0 ==> c.version == 2
            &&& last_param(p, 22) is None ==> c.version == 0
            &&& last_param(p, 20) matches Some(v) ==> v.len() >= 2 ==> c.requirements == v[0] * 256
                + v[1]
            &&& last_param(p, 20) is None ==> c.requirements == 0
            &&& last_param(p, 50) matches Some(v) ==> v.len() > 0 ==> reason_in(p) == Some(v[0])
            &&& last_param(p, 50) is None ==> reason_in(p) is None
        }),
{
}

/// Whether a field was taken as it is, and nothing else changed.
pub open spec fn took(r: Result<AssociateModel, Error>, want: AssociateModel) -> bool {
    r == Ok::<AssociateModel, Error>(want)
}

/// A field of an association is read by its number. In a request 2 and 3 name the called end; in an
/// answer they are the result and its diagnostic, and 4 and 5 name the end that answers. 6 and 7 name
/// the calling end. The mechanism and the password are 11 and 12 in a request, and 9 and 10 in an
/// answer. What is of another class, or has no such number, is passed over.
pub proof fn lemma_association_field(f: TlvModel, a: AssociateModel)
    ensures
        ({
            let n = f.tag.number;
            let v = Some(f.value);
            let q = with_field(f, true, a);
            let r = with_field(f, false, a);
            &&& f.tag.class != Class::Context ==> took(q, a) && took(r, a)
            &&& f.tag.class == Class::Context ==> {
                &&& n == 0 ==> (f.bits() matches Ok(b) ==> took(
                    q,
                    AssociateModel { protocol_version: Some(b), ..a },
                ) && took(r, AssociateModel { protocol_version: Some(b), ..a }))
                &&& n == 1 ==> (f.children().first() matches Ok(o) ==> took(
                    q,
                    AssociateModel { context_name: Some(o.value), ..a },
                ) && took(r, AssociateModel { context_name: Some(o.value), ..a }))
                &&& n == 2 ==> took(q, AssociateModel { called_ap_title: v, ..a })
                &&& n == 2 ==> (f.children().first() matches Ok(o) ==> (o.integer() matches Ok(i)
                    ==> took(r, AssociateModel { result: Some(i), ..a })))
                &&& n == 3 ==> took(q, AssociateModel { called_ae_qualifier: v, ..a })
                &&& n == 3 ==> took(r, AssociateModel { result_diagnostic: v, ..a })
                &&& n == 4 ==> took(q, a) && took(r, AssociateModel { responding_ap_title: v, ..a })
                &&& n == 5 ==> took(q, a) && took(
                    r,
                    AssociateModel { responding_ae_qualifier: v, ..a },
                )
                &&& n == 6 ==> took(q, AssociateModel { calling_ap_title: v, ..a }) && took(
                    r,
                    AssociateModel { calling_ap_title: v, ..a },
                )
                &&& n == 7 ==> took(q, AssociateModel { calling_ae_qualifier: v, ..a }) && took(
                    r,
                    AssociateModel { calling_ae_qualifier: v, ..a },
                )
                &&& n == 8 ==> took(q, a) && (f.bits() matches Ok(b) ==> took(
                    r,
                    AssociateModel { sender_requirements: Some(b), ..a },
                ))
                &&& n == 9 ==> took(q, a) && took(r, AssociateModel { mechanism_name: v, ..a })
                &&& n == 10 ==> took(r, AssociateModel { authentication_value: v, ..a }) && (
                f.bits() matches Ok(b) ==> took(
                    q,
                    AssociateModel { sender_requirements: Some(b), ..a },
                ))
                &&& n == 11 ==> took(q, AssociateModel { mechanism_name: v, ..a }) && took(r, a)
                &&& n == 12 ==> took(q, AssociateModel { authentication_value: v, ..a }) && took(
                    r,
                    a,
                )
                &&& n > 12 && n != 30 ==> took(q, a) && took(r, a)
            }
        }),
{
}

/// A parameter of a presentation is read by its number. What has no such number is passed over; a
/// responding selector, and the results of the contexts, mark an answer.
pub proof fn lemma_presentation_parameter(p: TlvModel, cp: CpModel)
    ensures
        ({
            let n = p.tag.number;
            let r = with_parameter(p, cp);
            let v = Some(p.value);
            &&& !p.tag.constructed ==> {
                &&& n == 0 ==> (p.bits() matches Ok(b) ==> r == Ok::<(CpModel, bool), Error>(
                    (CpModel { protocol_version: Some(b), ..cp }, false),
                ))
                &&& n == 1 && p.tag.class == Class::Context ==> r == Ok::<(CpModel, bool), Error>(
                    (CpModel { calling_psel: v, ..cp }, false),
                )
                &&& n == 2 ==> r == Ok::<(CpModel, bool), Error>(
                    (CpModel { called_psel: v, ..cp }, false),
                )
                &&& n == 3 ==> r == Ok::<(CpModel, bool), Error>(
                    (CpModel { responding_psel: v, ..cp }, true),
                )
                &&& n == 8 ==> (p.bits() matches Ok(b) ==> r == Ok::<(CpModel, bool), Error>(
                    (CpModel { requirements: Some(b), ..cp }, false),
                ))
                &&& n == 10 ==> (p.integer() matches Ok(i) ==> r == Ok::<(CpModel, bool), Error>(
                    (CpModel { provider_reason: Some(i), ..cp }, false),
                ))
                &&& 4 <= n <= 7 || n == 9 || n > 10 ==> r == Ok::<(CpModel, bool), Error>(
                    (cp, false),
                )
            }
            &&& p.tag.constructed && n == 5 ==> (r matches Ok((_, answer)) ==> answer)
            &&& p.tag.constructed && n == 4 ==> (r matches Ok((_, answer)) ==> !answer)
            &&& p.tag.constructed && n > 5 ==> r == Ok::<(CpModel, bool), Error>((cp, false))
        }),
{
}

/// Arcs have an encoding when there are two at least: a second below 40 under a first of 0 or 1, or any
/// that the two together still fit 32 bits under a first of 2. The first two share one number.
pub proof fn lemma_arcs_writable(arcs: Seq<u32>)
    ensures
        arcs.len() < 2 ==> !encodable(arcs),
        arcs.len() >= 2 ==> {
            &&& arcs[0] <= 1 ==> (encodable(arcs) <==> arcs[1] <= 39)
            &&& arcs[0] == 2 ==> (encodable(arcs) <==> arcs[1] <= 4_294_967_215)
            &&& arcs[0] > 2 ==> !encodable(arcs)
        },
        arcs.len() == 2 && encodable(arcs) && arcs[0] * 40 + arcs[1] < 128 ==> oid_octets(arcs)
            == seq![(arcs[0] * 40 + arcs[1]) as u8],
{
    if arcs.len() == 2 && encodable(arcs) && arcs[0] * 40 + arcs[1] < 128 {
        assert(arcs_from(arcs, 2) =~= Seq::<u8>::empty());
        assert(oid_octets(arcs) =~= seq![(arcs[0] * 40 + arcs[1]) as u8]);
    }
}

} // verus!
