//! The messages an association sends, through all of its layers.

use vstd::prelude::*;
use crate::ber::laws;
use crate::ber::list::{list_bytes, list_fault, list_fault_from, list_from, views};
use crate::ber::{
    app_cons, ctx, ctx_cons, opt_integer_bytes, opt_view, sint_octets, tlv, univ, Encoder, Tag,
};
use crate::common::Error;
use crate::proto::mms::association::machine::{
    accept_spdu, acceptances, answer, associate_request, associate_response, connect_spdu,
    parameter_cbb, release_spdu, services_supported, smaller, user_data,
};
use crate::proto::mms::association::types::{AssociationConfig, ACSE_CONTEXT, MMS_CONTEXT};
use crate::proto::mms::initiate::Initiate;
use crate::proto::mms::pdu::Mms;
use crate::proto::osi::acse::{
    apdu_bytes, version_bits, Apdu, ApduModel, Associate, UserInformation, RESULT_ACCEPTED,
};
use crate::proto::osi::oid::Oid;
use crate::proto::osi::presentation::{single_pdv, ContextResult, Cp, Pdv, Ppdu, RESULT_ACCEPTANCE};
use crate::proto::osi::session::{self, spdu_bytes, spdu_fault, Spdu, SpduModel};

verus! {

/// `parameterCBB`: `str1`, `str2`, `vnam`, `valt` and `vlis`.
pub fn parameter_cbb_bits() -> (r: (u8, &'static [u8]))
    ensures
        r@ == parameter_cbb(),
{
    let r: (u8, &'static [u8]) = (5, &[0xF1, 0x00]);
    assert(r.1@ =~= parameter_cbb().1);
    r
}

/// `servicesSupported`: exactly the services that an association can issue or answer.
pub fn services_supported_bits() -> (r: (u8, &'static [u8]))
    ensures
        r@ == services_supported(),
{
    let r: (u8, &'static [u8]) = (
        4,
        &[0x6E, 0x1C, 0x00, 0x00, 0x00, 0x00, 0x00, 0x00, 0x40, 0xED, 0x20],
    );
    assert(r.1@ =~= services_supported().1);
    r
}

/// One value in one PDV list always has an encoding.
pub proof fn lemma_single(context: u16, value: Seq<u8>)
    ensures
        list_fault::<Pdv<'static>>(seq![single_pdv(context, value)]) is None,
{
    let s = seq![single_pdv(context, value)];
    assert(list_fault_from::<Pdv<'static>>(s, 1) is None);
    assert(s[0] == single_pdv(context, value));
}

/// One encoded value as user data of a presentation context.
pub fn user_data_ppdu(context: u16, value: &[u8]) -> (r: Vec<u8>)
    ensures
        r@ == user_data(context, value@),
{
    let ppdu = Ppdu::UserData(vec![Pdv::single(context, value)]);
    proof {
        lemma_single(context, value@);
        assert(ppdu@->UserData_0 =~= seq![single_pdv(context, value@)]);
    }
    match ppdu.to_vec() {
        Ok(b) => b,
        Err(_) => Vec::new(),
    }
}

/// The octets of an SPDU.
fn spdu_octets(s: &Spdu<'_>) -> (r: Result<Vec<u8>, Error>)
    ensures
        match spdu_fault(s@) {
            None => r matches Ok(b) && b@ == spdu_bytes(s@),
            Some(f) => r == Err::<Vec<u8>, Error>(f),
        },
{
    let mut out: Vec<u8> = Vec::new();
    s.write(&mut out)?;
    assert(out@ =~= spdu_bytes(s@));
    Ok(out)
}

/// The TSDU that carries an encoded MMS PDU.
pub fn data_message(context: u16, value: &[u8]) -> (r: Vec<u8>)
    ensures
        r@ == spdu_bytes(SpduModel::DataTransfer(user_data(context, value@))),
{
    let ppdu = user_data_ppdu(context, value);
    match spdu_octets(&Spdu::DataTransfer(&ppdu)) {
        Ok(b) => b,
        Err(_) => Vec::new(),
    }
}

/// A release fits the user data of its SPDU.
pub proof fn lemma_release_fits(acse_context: u16, response: bool)
    ensures
        spdu_fault(release_spdu(acse_context, response)) is None,
{
    reveal(release_spdu);
    let zero = sint_octets(0);
    laws::lemma_integer_field(ctx(0), 0, 0);
    laws::lemma_small(ctx(0), zero);
    let reason = opt_integer_bytes(ctx(0), Some(0i64));
    laws::lemma_small(app_cons(2), reason);
    laws::lemma_small(app_cons(3), reason);
    let apdu = apdu_bytes(
        if response {
            ApduModel::ReleaseResponse(Some(0))
        } else {
            ApduModel::Release(Some(0))
        },
    );
    let id = sint_octets(acse_context as int);
    laws::lemma_integer_field(univ(2, false), acse_context as i64, 0);
    laws::lemma_small(univ(2, false), id);
    laws::lemma_small(ctx_cons(0), apdu);
    let s = seq![single_pdv(acse_context, apdu)];
    let contents = tlv(univ(2, false), id) + tlv(ctx_cons(0), apdu);
    laws::lemma_small(univ(16, true), contents);
    assert(s[0] == single_pdv(acse_context, apdu));
    assert(list_from::<Pdv<'static>>(s, 1) =~= Seq::<u8>::empty());
    assert(list_bytes::<Pdv<'static>>(s) =~= tlv(univ(16, true), contents));
    laws::lemma_small(app_cons(1), list_bytes::<Pdv<'static>>(s));
}

/// The TSDU that releases an association, or that confirms its release.
pub fn release_message(acse_context: u16, response: bool) -> (r: Vec<u8>)
    ensures
        r@ == spdu_bytes(release_spdu(acse_context, response)),
{
    reveal(release_spdu);
    let apdu = if response {
        Apdu::ReleaseResponse(Some(0))
    } else {
        Apdu::Release(Some(0))
    };
    let apdu_octets = match apdu.to_vec() {
        Ok(b) => b,
        Err(_) => Vec::new(),
    };
    let ppdu = user_data_ppdu(acse_context, &apdu_octets);
    let spdu = if response {
        Spdu::Disconnect(&ppdu)
    } else {
        Spdu::Finish(&ppdu)
    };
    proof {
        lemma_release_fits(acse_context, response);
    }
    match spdu_octets(&spdu) {
        Ok(b) => b,
        Err(_) => Vec::new(),
    }
}

/// An octet string as a slice, where there is one.
fn opt_slice(v: &Option<Vec<u8>>) -> (r: Option<&[u8]>)
    ensures
        opt_view(r) == opt_view(*v),
{
    match v {
        Some(v) => Some(v.as_slice()),
        None => None,
    }
}

/// The session CONNECT of a client, with the CP, the AARQ and the initiate request inside it.
pub fn connect_message(cfg: &AssociationConfig) -> (r: Result<Vec<u8>, Error>)
    ensures
        match spdu_fault(connect_spdu(cfg@)) {
            None => r matches Ok(b) && b@ == spdu_bytes(connect_spdu(cfg@)),
            Some(f) => r == Err::<Vec<u8>, Error>(f),
        },
{
    reveal(connect_spdu);
    let initiate = Mms::InitiateRequest(
        Initiate::request(
            cfg.max_pdu as i64,
            cfg.max_outstanding as i64,
            parameter_cbb_bits(),
            services_supported_bits(),
        ),
    ).to_vec()?;
    let called = cfg.remote.ap_title_element();
    let calling = cfg.local.ap_title_element();
    let called_q = cfg.remote.ae_qualifier_element();
    let calling_q = cfg.local.ae_qualifier_element();
    let mut password = Encoder::new();
    let mut aarq = Associate::request(
        opt_slice(&called),
        opt_slice(&calling),
        MMS_CONTEXT as i64,
        &initiate,
    );
    aarq.called_ae_qualifier = opt_slice(&called_q);
    aarq.calling_ae_qualifier = opt_slice(&calling_q);
    if let Some(p) = &cfg.password {
        password.utf8_string(Tag::context(0), p.as_str());
        aarq.sender_requirements = Some(version_bits());
        aarq.mechanism_name = Some(Oid::password_mechanism());
        aarq.authentication_value = Some(password.as_bytes());
    }
    assert(aarq@ == associate_request(cfg@));
    let aarq_bytes = Apdu::Associate(aarq).to_vec()?;
    let cp = Cp::connect(
        &cfg.local.p_sel,
        &cfg.remote.p_sel,
        ACSE_CONTEXT,
        MMS_CONTEXT,
        &aarq_bytes,
    );
    proof {
        lemma_single(ACSE_CONTEXT, aarq_bytes@);
    }
    let ppdu = Ppdu::Connect(cp).to_vec()?;
    let c = session::Connect::new(Some(&cfg.local.s_sel), Some(&cfg.remote.s_sel), &ppdu);
    spdu_octets(&Spdu::Connect(c))
}

fn smaller_of(a: i64, b: i64) -> (r: i64)
    ensures
        r == smaller(a, b),
{
    if a <= b {
        a
    } else {
        b
    }
}

/// What a server answers to a proposal.
pub fn answer_to(cfg: &AssociationConfig, peer: &Initiate<'_>) -> (r: Initiate<'static>)
    ensures
        r@ == answer(cfg@, peer@),
{
    let max_pdu: i64 = match peer.local_detail {
        Some(d) => smaller_of(cfg.max_pdu as i64, d),
        None => cfg.max_pdu as i64,
    };
    let mine: i64 = cfg.max_outstanding as i64;
    let mut init = Initiate::request(
        max_pdu,
        mine,
        parameter_cbb_bits(),
        services_supported_bits(),
    );
    let calling: i64 = if peer.max_serv_outstanding_calling < 1 {
        1
    } else {
        peer.max_serv_outstanding_calling
    };
    let called: i64 = if peer.max_serv_outstanding_called < 1 {
        1
    } else {
        peer.max_serv_outstanding_called
    };
    init.max_serv_outstanding_calling = smaller_of(mine, calling);
    init.max_serv_outstanding_called = smaller_of(mine, called);
    init
}

fn accept_all(n: usize) -> (r: Vec<ContextResult<'static>>)
    ensures
        views(r@) == acceptances(n as nat),
{
    let mut out: Vec<ContextResult<'static>> = Vec::new();
    let mut i: usize = 0;
    while i < n
        invariant
            i <= n,
            out@.len() == i,
            forall|j: int| 0 <= j < i ==> (#[trigger] out@[j])@ == acceptances(n as nat)[j],
        decreases n - i,
    {
        let c = ContextResult { result: RESULT_ACCEPTANCE, transfer_syntax: Some(Oid::ber()) };
        assert(c@ == acceptances(n as nat)[i as int]);
        out.push(c);
        i += 1;
    }
    assert(views(out@) =~= acceptances(n as nat));
    out
}

/// The session ACCEPT of a server, with the CPA, the AARE and the initiate response inside it.
pub fn accept_message(
    cfg: &AssociationConfig,
    contexts: usize,
    mms_context: u16,
    acse_context: u16,
    peer: &Initiate<'_>,
) -> (r: Result<Vec<u8>, Error>)
    ensures
        ({
            let s = accept_spdu(cfg@, contexts as nat, mms_context, acse_context, peer@);
            match spdu_fault(s) {
                None => r matches Ok(b) && b@ == spdu_bytes(s),
                Some(f) => r == Err::<Vec<u8>, Error>(f),
            }
        }),
{
    reveal(accept_spdu);
    let initiate = Mms::InitiateResponse(answer_to(cfg, peer)).to_vec()?;
    let responding = cfg.local.ap_title_element();
    let responding_q = cfg.local.ae_qualifier_element();
    let mut aare: Associate<'_> = Default::default();
    aare.protocol_version = Some(version_bits());
    aare.context_name = Some(Oid::mms_application_context());
    aare.result = Some(RESULT_ACCEPTED);
    aare.responding_ap_title = opt_slice(&responding);
    aare.responding_ae_qualifier = opt_slice(&responding_q);
    aare.user_information = Some(
        UserInformation {
            direct_reference: Some(Oid::ber()),
            indirect_reference: Some(mms_context as i64),
            value: &initiate,
        },
    );
    assert(aare@ == associate_response(cfg@, mms_context, peer@));
    let aare_bytes = Apdu::AssociateResponse(aare).to_vec()?;
    let none: (u8, &'static [u8]) = (6, &[0x00]);
    assert(none.1@ =~= seq![0u8]);
    let mut cpa: Cp<'_> = Default::default();
    cpa.protocol_version = Some(version_bits());
    cpa.responding_psel = Some(&cfg.local.p_sel);
    cpa.results = accept_all(contexts);
    cpa.requirements = Some(none);
    cpa.user_data = vec![Pdv::single(acse_context, &aare_bytes)];
    proof {
        lemma_single(acse_context, aare_bytes@);
        assert(views(cpa.user_data@) =~= seq![single_pdv(acse_context, aare_bytes@)]);
    }
    let ppdu = Ppdu::Accept(cpa).to_vec()?;
    let c = session::Connect::new(Some(&cfg.local.s_sel), Some(&cfg.remote.s_sel), &ppdu);
    spdu_octets(&Spdu::Accept(c))
}

} // verus!
