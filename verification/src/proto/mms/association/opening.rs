//! How an association is opened: what each end proposes, answers and agrees to.

use vstd::prelude::*;
use vstd::utf8::*;
use crate::ber::{sint_octets, tlv};
use crate::ber::list::{list_bytes, list_from, Element};
use crate::ber::wire::{element, group_wire};
use crate::common::{bit, Instant};
use crate::common::queue::bounded;
use crate::proto::mms::association::conduct::{ended, in_time, told};
use crate::proto::mms::association::machine::{
    accept_spdu, after_start, answer, associate_request, associate_response, carried, connect_spdu,
    data_size, fresh, on_aare, on_aarq, on_connection_confirm, on_connection_request, on_proposal,
    on_session_accept, on_session_connect, on_tpdu, on_tsdu, parameter_cbb, proposal, refusal_in,
    refused, release_spdu, segments, services_supported, start_fault, user_data, value_in, walked,
    AssociationModel,
};
use crate::proto::mms::association::types::{
    ae_qualifier_bytes, ap_title_bytes, default_selectors, no_selectors, AssociationStats,
    CloseReason, ConfigModel, EventModel, Negotiated, Role, SelectorsModel, State,
};
use crate::proto::mms::initiate::InitiateModel;
use crate::proto::mms::pdu::{mms_of, pdu_bytes, MmsModel};
use crate::proto::osi::acse::{apdu_bytes, apdu_of, ApduModel};
use crate::proto::osi::cotp::{self, clamped, connect_fault, pow2, tpdu_bytes, tpdu_of, TpduModel};
use crate::proto::osi::oid::{encodable, oid_octets};
use crate::proto::osi::presentation::{
    context_from, no_parameters, ppdu_bytes, ppdu_of, single_pdv, ContextDefinitionModel,
    ContextResultModel, CpModel, Pdv, PdvModel, PdvValuesModel, PpduModel,
};
use crate::proto::osi::session::{self, spdu_bytes, spdu_fault, spdu_of, SpduModel};
use crate::proto::osi::tpkt::packet;
use crate::proto::osi::wire::lemma_ppdu_layout;

verus! {

/// A size between the least and the greatest that class 0 negotiates, as its power of two.
pub open spec fn in_class(exp: u8) -> u8 {
    if exp <= 7 {
        7
    } else if exp >= 13 {
        13
    } else {
        exp
    }
}

/// The octets of user data that a TPDU of each size carries: three less than the size.
pub open spec fn carries(exp: u8) -> usize {
    if exp <= 7 {
        125
    } else if exp == 8 {
        253
    } else if exp == 9 {
        509
    } else if exp == 10 {
        1021
    } else if exp == 11 {
        2045
    } else if exp == 12 {
        4093
    } else {
        8189
    }
}

/// The lesser of two numbers.
pub open spec fn least(a: int, b: int) -> int {
    if a < b {
        a
    } else {
        b
    }
}

/// The least number from 1 that is no less.
pub open spec fn from_one(a: int) -> int {
    if a >= 1 {
        a
    } else {
        1
    }
}

proof fn lemma_carries(exp: u8)
    ensures
        data_size(exp) == carries(exp),
        clamped(exp) == in_class(exp),
{
    reveal_with_fuel(pow2, 14);
}

/// A new association is idle. It has sent, told, asked and agreed nothing; it will try identifier 1
/// first, speak ACSE in context 1 and MMS in context 3, and send TPDUs of the size it is to propose.
pub proof fn lemma_new(cfg: ConfigModel, role: Role)
    ensures
        ({
            let a = fresh(cfg, role);
            &&& a.cfg == cfg
            &&& a.role == role
            &&& a.state == State::Idle
            &&& a.pending.len() == 0
            &&& a.parts.len() == 0
            &&& a.out.len() == 0
            &&& a.events.items.len() == 0
            &&& a.events.dropped == 0
            &&& a.events.capacity == from_one(cfg.event_capacity as int)
            &&& a.stats == (AssociationStats {
                requests_sent: 0,
                responses_received: 0,
                reports_received: 0,
                timeouts: 0,
                malformed: 0,
                rejected: 0,
                packets_sent: 0,
                packets_received: 0,
                events_dropped: 0,
            })
            &&& forall|id: i64| !#[trigger] a.outstanding.contains_key(id)
            &&& a.next_invoke == 1
            &&& a.negotiated is None
            &&& a.connect_deadline is None
            &&& a.peer_max_pdu == 0
            &&& a.peer_ref == 0
            &&& a.acse_context == 1
            &&& a.mms_context == 3
            &&& a.tpdu_data == carries(cfg.tpdu_size_exp)
        }),
{
    lemma_carries(cfg.tpdu_size_exp);
}

/// A client that is idle starts by asking for a connection of class 0, from its reference 1 and its
/// own selector to the peer's, with the size it was given. It waits for as long as the configuration
/// says, if it says so.
pub proof fn lemma_start(a: AssociationModel, now: Instant)
    ensures
        ({
            let request = cotp::ConnectModel {
                dst_ref: 0,
                src_ref: 1,
                class_options: 0,
                tpdu_size_exp: Some(in_class(a.cfg.tpdu_size_exp)),
                src_tsel: Some(a.cfg.local.t_sel),
                dst_tsel: Some(a.cfg.remote.t_sel),
            };
            &&& start_fault(a) is None <==> a.role == Role::Client && a.state == State::Idle
                && connect_fault(request) is None
            &&& after_start(a, now) == (AssociationModel {
                state: State::Connecting,
                out: a.out.push(packet(tpdu_bytes(TpduModel::ConnectionRequest(request)))),
                connect_deadline: if a.cfg.connect_timeout_ms == 0 {
                    a.connect_deadline
                } else {
                    Some(in_time(now, a.cfg.connect_timeout_ms))
                },
                ..a
            })
        }),
{
    lemma_carries(a.cfg.tpdu_size_exp);
}

/// The size both ends can use is the smaller of the two; one that is not named is the least.
pub open spec fn common_size(cfg: ConfigModel, c: cotp::ConnectModel) -> u8 {
    least(
        cfg.tpdu_size_exp as int,
        match c.tpdu_size_exp {
            Some(e) => e as int,
            None => 7,
        },
    ) as u8
}

/// A server answers a request for a connection: to the reference it came from, from its own
/// reference 1, of class 0, with the size both can use and the selectors exchanged. It goes by that
/// size, keeps the reference, and waits for the rest for as long as the configuration says. A client
/// does not answer.
pub proof fn lemma_connection_answered(a: AssociationModel, now: Instant, c: cotp::ConnectModel)
    requires
        bounded(a.events),
        a.state != State::Closed,
    ensures
        ({
            let o = on_connection_request(a, now, c);
            let size = common_size(a.cfg, c);
            let confirm = cotp::ConnectModel {
                dst_ref: c.src_ref,
                src_ref: 1,
                class_options: 0,
                tpdu_size_exp: Some(size),
                src_tsel: c.dst_tsel,
                dst_tsel: c.src_tsel,
            };
            &&& a.role == Role::Client ==> o.fault is None && ended(
                a,
                o.a,
                CloseReason::ProtocolError,
            )
            &&& a.role == Role::Server ==> o.fault == connect_fault(confirm)
            &&& a.role == Role::Server && o.fault is None ==> o.a == (AssociationModel {
                state: State::Associating,
                tpdu_data: carries(size),
                peer_ref: c.src_ref,
                out: a.out.push(packet(tpdu_bytes(TpduModel::ConnectionConfirm(confirm)))),
                connect_deadline: if a.cfg.connect_timeout_ms == 0 {
                    a.connect_deadline
                } else {
                    Some(in_time(now, a.cfg.connect_timeout_ms))
                },
                ..a
            })
        }),
{
    lemma_carries(common_size(a.cfg, c));
}

/// A client that asked for a connection takes the answer: it goes by the size both can use, keeps the
/// peer's reference, and sends its CONNECT. Anyone else breaks off.
pub proof fn lemma_connection_confirmed(a: AssociationModel, c: cotp::ConnectModel)
    requires
        bounded(a.events),
        a.state != State::Closed,
    ensures
        ({
            let o = on_connection_confirm(a, c);
            let asked = a.role == Role::Client && a.state == State::Connecting;
            let size = carries(common_size(a.cfg, c));
            &&& !asked ==> o.fault is None && ended(a, o.a, CloseReason::ProtocolError)
            &&& asked ==> o.fault == spdu_fault(connect_spdu(a.cfg))
            &&& asked && o.fault is None ==> o.a == (AssociationModel {
                state: State::Associating,
                tpdu_data: size,
                peer_ref: c.src_ref,
                out: a.out + segments(spdu_bytes(connect_spdu(a.cfg)), size as nat),
                ..a
            })
        }),
{
    lemma_carries(common_size(a.cfg, c));
}

/// A disconnection aborts the association. Data goes behind the parts that are kept, and makes a
/// TSDU with its last part; more of it than the configuration allows is a fault.
pub proof fn lemma_transport(a: AssociationModel, now: Instant, tpdu: Seq<u8>)
    requires
        bounded(a.events),
        a.state != State::Closed,
    ensures
        ({
            let o = on_tpdu(a, now, tpdu);
            match tpdu_of(tpdu) {
                Err(e) => o.a == a && o.fault == Some(e),
                Ok(TpduModel::ConnectionRequest(c)) => o == on_connection_request(a, now, c),
                Ok(TpduModel::ConnectionConfirm(c)) => o == on_connection_confirm(a, c),
                Ok(TpduModel::DisconnectRequest { .. }) => o.fault is None && ended(
                    a,
                    o.a,
                    CloseReason::Aborted,
                ),
                Ok(TpduModel::Data { eot, payload }) => {
                    let fits = a.parts.len() + payload.len() <= a.cfg.max_tsdu;
                    &&& fits && !eot ==> o.fault is None && o.a == (AssociationModel {
                        parts: a.parts + payload,
                        ..a
                    })
                    &&& fits && eot ==> o == on_tsdu(
                        AssociationModel { parts: Seq::empty(), ..a },
                        a.parts + payload,
                    )
                    &&& !fits ==> o.fault is Some && o.a == a
                },
                Ok(TpduModel::Other { .. }) => o.fault is None && ended(
                    a,
                    o.a,
                    CloseReason::ProtocolError,
                ),
            }
        }),
{
    reveal(on_tpdu);
    if let Ok(TpduModel::Data { eot, payload }) = tpdu_of(tpdu) {
        assert(a.parts.len() == 0 ==> a.parts + payload =~= payload);
    }
}

/// Where nothing was engineered an end is addressed by transport selector `0001` alone.
pub proof fn lemma_default_addresses()
    ensures
        default_selectors().t_sel == seq![0u8, 1u8],
        default_selectors().s_sel.len() == 0,
        default_selectors().p_sel.len() == 0,
        default_selectors().ap_title is None,
        default_selectors().ae_qualifier is None,
        no_selectors().t_sel.len() == 0,
        no_selectors().s_sel.len() == 0,
        no_selectors().p_sel.len() == 0,
        no_selectors().ap_title is None,
        no_selectors().ae_qualifier is None,
{
}

// ---- what is proposed ------------------------------------------------------------------

/// The title and the qualifier of an end are its arcs as an object identifier and its number, where
/// it has them.
pub proof fn lemma_titles(s: SelectorsModel)
    ensures
        ap_title_bytes(s) == match s.ap_title {
            Some(arcs) => if encodable(arcs) {
                Some(element(0x06, oid_octets(arcs)))
            } else {
                None
            },
            None => None,
        },
        ae_qualifier_bytes(s) == match s.ae_qualifier {
            Some(q) => Some(element(0x02, sint_octets(q as int))),
            None => None,
        },
{
    broadcast use group_wire;

}

/// The features an end claims are `str1`, `str2`, `vnam`, `valt` and `vlis`: the bits 0, 1, 2, 3 and
/// 7 of eleven.
pub proof fn lemma_features(k: nat)
    ensures
        parameter_cbb().0 == 5,
        parameter_cbb().1.len() == 2,
        k < 11 ==> (bit(parameter_cbb().1, k) <==> k <= 3 || k == 7),
{
}

/// The services an end claims, by their bits of eighty-four: `getNameList` 1, `identify` 2, `read` 4,
/// `write` 5, `getVariableAccessAttributes` 6, `defineNamedVariableList` 11,
/// `getNamedVariableListAttributes` 12, `deleteNamedVariableList` 13, `readJournal` 65, `fileOpen` 72,
/// `fileRead` 73, `fileClose` 74, `fileDelete` 76, `fileDirectory` 77, `informationReport` 79 and
/// `conclude` 82. It claims no other.
pub proof fn lemma_services(k: nat)
    ensures
        services_supported().0 == 4,
        services_supported().1.len() == 11,
        k < 84 ==> (bit(services_supported().1, k) <==> k == 1 || k == 2 || k == 4 || k == 5 || k == 6
            || k == 11 || k == 12 || k == 13 || k == 65 || k == 72 || k == 73 || k == 74 || k == 76
            || k == 77 || k == 79 || k == 82),
{
    let s = services_supported().1;
    if k < 8 {
        assert(s[0] == 0x6E);
    } else if k < 16 {
        assert(s[1] == 0x1C);
    } else if k < 64 {
        assert(s[(k / 8) as int] == 0);
    } else if k < 72 {
        assert(s[8] == 0x40);
    } else if k < 80 {
        assert(s[9] == 0xED);
    } else if k < 84 {
        assert(s[10] == 0x20);
    }
}

/// What a client proposes: the PDU it takes, its budget in either direction, five levels of nesting,
/// version 1, and what it claims.
pub proof fn lemma_proposal(max_pdu: i64, outstanding: i64)
    ensures
        proposal(max_pdu, outstanding) == (InitiateModel {
            local_detail: Some(max_pdu),
            max_serv_outstanding_calling: outstanding,
            max_serv_outstanding_called: outstanding,
            data_structure_nesting_level: Some(5),
            version: 1,
            parameter_cbb: parameter_cbb(),
            services_supported: services_supported(),
        }),
{
}

/// What a server answers exceeds neither what was proposed nor what it has: the PDU is the smaller of
/// the two, and so is each budget, where a proposal below one counts as one.
pub proof fn lemma_answer_proposed(cfg: ConfigModel, peer: InitiateModel)
    ensures
        ({
            let r = answer(cfg, peer);
            let mine = cfg.max_outstanding as int;
            &&& peer.local_detail is None ==> r.local_detail == Some(cfg.max_pdu as i64)
            &&& peer.local_detail matches Some(d) ==> r.local_detail == Some(
                least(cfg.max_pdu as int, d as int) as i64,
            )
            &&& r.max_serv_outstanding_calling == least(
                mine,
                from_one(peer.max_serv_outstanding_calling as int),
            )
            &&& r.max_serv_outstanding_called == least(
                mine,
                from_one(peer.max_serv_outstanding_called as int),
            )
            &&& r.data_structure_nesting_level == Some(5i64)
            &&& r.version == 1
            &&& r.parameter_cbb == parameter_cbb()
            &&& r.services_supported == services_supported()
        }),
{
}

/// What a client asks for: version 1 in the MMS application context, from its own title and
/// qualifier to the peer's, with its proposal in the context of MMS. With a password it names the
/// requirement, the mechanism and the password itself; without one it names none of them.
pub proof fn lemma_request_fields(cfg: ConfigModel)
    ensures
        ({
            let r = associate_request(cfg);
            &&& r.protocol_version == Some((7u8, seq![0x80u8]))
            &&& r.context_name == Some(seq![0x28u8, 0xCA, 0x22, 0x02, 0x03])
            &&& r.result is None
            &&& r.result_diagnostic is None
            &&& r.called_ap_title == ap_title_bytes(cfg.remote)
            &&& r.called_ae_qualifier == ae_qualifier_bytes(cfg.remote)
            &&& r.calling_ap_title == ap_title_bytes(cfg.local)
            &&& r.calling_ae_qualifier == ae_qualifier_bytes(cfg.local)
            &&& r.responding_ap_title is None
            &&& r.responding_ae_qualifier is None
            &&& r.user_information matches Some(u) && u.direct_reference == Some(
                seq![0x51u8, 0x01],
            ) && u.indirect_reference == Some(3i64) && u.value == pdu_bytes(
                MmsModel::InitiateRequest(
                    proposal(cfg.max_pdu as i64, cfg.max_outstanding as i64),
                ),
            )
            &&& cfg.password is None ==> r.sender_requirements is None && r.mechanism_name is None
                && r.authentication_value is None
            &&& cfg.password matches Some(p) ==> r.sender_requirements == Some(
                (7u8, seq![0x80u8]),
            ) && r.mechanism_name == Some(seq![0x52u8, 0x03, 0x01]) && r.authentication_value
                == Some(element(0x80, encode_utf8(p)))
        }),
{
    broadcast use group_wire;

}

/// What a server answers: version 1 in the MMS application context, accepted, under its own title and
/// qualifier, with its answer in the context of MMS.
pub proof fn lemma_response_fields(cfg: ConfigModel, mms_context: u16, peer: InitiateModel)
    ensures
        ({
            let r = associate_response(cfg, mms_context, peer);
            &&& r.protocol_version == Some((7u8, seq![0x80u8]))
            &&& r.context_name == Some(seq![0x28u8, 0xCA, 0x22, 0x02, 0x03])
            &&& r.result == Some(0i64)
            &&& r.result_diagnostic is None
            &&& r.responding_ap_title == ap_title_bytes(cfg.local)
            &&& r.responding_ae_qualifier == ae_qualifier_bytes(cfg.local)
            &&& r.called_ap_title is None
            &&& r.called_ae_qualifier is None
            &&& r.calling_ap_title is None
            &&& r.calling_ae_qualifier is None
            &&& r.sender_requirements is None
            &&& r.mechanism_name is None
            &&& r.authentication_value is None
            &&& r.user_information matches Some(u) && u.direct_reference == Some(
                seq![0x51u8, 0x01],
            ) && u.indirect_reference == Some(mms_context as i64) && u.value == pdu_bytes(
                MmsModel::InitiateResponse(answer(cfg, peer)),
            )
        }),
{
}

/// The CONNECT of a client: session version 2 and the duplex unit, from its own selectors to the
/// peer's, with ACSE defined as context 1 and MMS as context 3, both in BER, and what it asks for in
/// the context of ACSE.
pub proof fn lemma_connect_message(cfg: ConfigModel)
    ensures
        connect_spdu(cfg) == SpduModel::Connect(
            session::ConnectModel {
                protocol_options: 0,
                version: 2,
                requirements: 2,
                calling_ssel: Some(cfg.local.s_sel),
                called_ssel: Some(cfg.remote.s_sel),
                user_data: ppdu_bytes(
                    PpduModel::Connect(
                        CpModel {
                            protocol_version: Some((7u8, seq![0x80u8])),
                            calling_psel: Some(cfg.local.p_sel),
                            called_psel: Some(cfg.remote.p_sel),
                            responding_psel: None,
                            contexts: seq![
                                ContextDefinitionModel {
                                    id: 1,
                                    abstract_syntax: seq![0x52u8, 0x01, 0x00, 0x01],
                                    transfer_syntax: seq![0x51u8, 0x01],
                                },
                                ContextDefinitionModel {
                                    id: 3,
                                    abstract_syntax: seq![0x28u8, 0xCA, 0x22, 0x02, 0x01],
                                    transfer_syntax: seq![0x51u8, 0x01],
                                },
                            ],
                            results: Seq::empty(),
                            requirements: Some((6u8, seq![0u8])),
                            provider_reason: None,
                            user_data: seq![
                                PdvModel {
                                    context_id: 1,
                                    values: PdvValuesModel::SingleAsn1Type(
                                        apdu_bytes(ApduModel::Associate(associate_request(cfg))),
                                    ),
                                },
                            ],
                        },
                    ),
                ),
            },
        ),
{
    reveal(connect_spdu);
}

/// The ACCEPT of a server: the same session, from its own selectors to the peer's, with every context
/// accepted in BER, and what it answers in the context of ACSE.
pub proof fn lemma_accept_message(
    cfg: ConfigModel,
    contexts: nat,
    mms_context: u16,
    acse_context: u16,
    peer: InitiateModel,
)
    ensures
        accept_spdu(cfg, contexts, mms_context, acse_context, peer) == SpduModel::Accept(
            session::ConnectModel {
                protocol_options: 0,
                version: 2,
                requirements: 2,
                calling_ssel: Some(cfg.local.s_sel),
                called_ssel: Some(cfg.remote.s_sel),
                user_data: ppdu_bytes(
                    PpduModel::Accept(
                        CpModel {
                            protocol_version: Some((7u8, seq![0x80u8])),
                            calling_psel: None,
                            called_psel: None,
                            responding_psel: Some(cfg.local.p_sel),
                            contexts: Seq::empty(),
                            results: Seq::new(
                                contexts,
                                |i: int|
                                    ContextResultModel {
                                        result: 0,
                                        transfer_syntax: Some(seq![0x51u8, 0x01]),
                                    },
                            ),
                            requirements: Some((6u8, seq![0u8])),
                            provider_reason: None,
                            user_data: seq![
                                PdvModel {
                                    context_id: acse_context,
                                    values: PdvValuesModel::SingleAsn1Type(
                                        apdu_bytes(
                                            ApduModel::AssociateResponse(
                                                associate_response(cfg, mms_context, peer),
                                            ),
                                        ),
                                    ),
                                },
                            ],
                        },
                    ),
                ),
            },
        ),
{
    reveal(accept_spdu);
    let one = |i: int|
        ContextResultModel { result: 0, transfer_syntax: Some(seq![0x51u8, 0x01]) };
    assert(crate::proto::mms::association::machine::acceptances(contexts) =~= Seq::new(
        contexts,
        one,
    ));
}

/// A release is a FINISH with a release request in the context of ACSE, for the normal reason 0, and
/// its confirmation a DISCONNECT with a release response.
pub proof fn lemma_release_message(acse_context: u16)
    ensures
        release_spdu(acse_context, false) == SpduModel::Finish(
            user_data(acse_context, apdu_bytes(ApduModel::Release(Some(0)))),
        ),
        release_spdu(acse_context, true) == SpduModel::Disconnect(
            user_data(acse_context, apdu_bytes(ApduModel::ReleaseResponse(Some(0)))),
        ),
{
    reveal(release_spdu);
}

// ---- what is agreed --------------------------------------------------------------------

/// A number that an end stated, as a length; where there is none, or none that is a length, zero.
pub open spec fn stated(v: Option<i64>) -> int {
    match v {
        Some(n) => if 0 <= n <= usize::MAX {
            n as int
        } else {
            0
        },
        None => 0,
    }
}

/// What two ends agree on: the longest PDU that the peer stated, or this end's own where it stated
/// none, and as many requests as the peer allows, at least one and at most this end's own budget.
pub open spec fn terms(a: AssociationModel, local_detail: Option<i64>, allowed: i64) -> Negotiated {
    let longest = stated(local_detail);
    Negotiated {
        max_pdu: (if longest > 0 {
            longest
        } else {
            a.cfg.max_pdu as int
        }) as usize,
        max_outstanding: least(
            from_one(stated(Some(allowed))),
            from_one(a.cfg.max_outstanding as int),
        ) as usize,
        tpdu_data: a.tpdu_data,
        mms_context: a.mms_context,
    }
}

/// A server that takes a proposal sends its answer and is established, on terms that go by what the
/// client allows the called end. The application is told of them, and no deadline is left.
pub proof fn lemma_proposal_taken(a: AssociationModel, contexts: nat, peer: InitiateModel)
    requires
        bounded(a.events),
    ensures
        ({
            let o = on_proposal(a, contexts, peer);
            let s = accept_spdu(a.cfg, contexts, a.mms_context, a.acse_context, peer);
            let n = terms(a, peer.local_detail, peer.max_serv_outstanding_called);
            &&& o.fault == spdu_fault(s)
            &&& o.fault is None ==> told(
                AssociationModel {
                    state: State::Established,
                    connect_deadline: None,
                    negotiated: Some(n),
                    peer_max_pdu: stated(peer.local_detail) as usize,
                    out: a.out + segments(spdu_bytes(s), a.tpdu_data as nat),
                    ..a
                },
                o.a,
                EventModel::Established(n),
            )
        }),
{
}

/// A client whose association is accepted is established, on terms that go by what the server allows
/// the calling end. One that is refused is told at which layer and with which result, and is over.
pub proof fn lemma_answer_taken(a: AssociationModel, aare: Seq<u8>)
    requires
        bounded(a.events),
        a.state != State::Closed,
    ensures
        ({
            let o = on_aare(a, aare);
            match apdu_of(aare) {
                Err(e) => o.a == a && o.fault == Some(e),
                Ok(ApduModel::AssociateResponse(r)) => if r.result == Some(0i64) {
                    match r.user_information {
                        None => o.a == a && o.fault is Some,
                        Some(u) => match mms_of(u.value, a.cfg.limits) {
                            Err(e) => o.a == a && o.fault == Some(e),
                            Ok(MmsModel::InitiateResponse(peer)) => {
                                let n = terms(
                                    a,
                                    peer.local_detail,
                                    peer.max_serv_outstanding_calling,
                                );
                                &&& o.fault is None
                                &&& told(
                                    AssociationModel {
                                        state: State::Established,
                                        connect_deadline: None,
                                        negotiated: Some(n),
                                        peer_max_pdu: stated(peer.local_detail) as usize,
                                        ..a
                                    },
                                    o.a,
                                    EventModel::Established(n),
                                )
                            },
                            Ok(MmsModel::InitiateError(_)) => o.fault is None && turned_down(
                                a,
                                o.a,
                                "mms",
                                None,
                            ),
                            Ok(_) => o.fault is None && ended(a, o.a, CloseReason::ProtocolError),
                        },
                    }
                } else {
                    o.fault is None && turned_down(a, o.a, "acse", r.result)
                },
                Ok(_) => o.fault is None && ended(a, o.a, CloseReason::ProtocolError),
            }
        }),
{
    lemma_turned_down(a, "mms", None);
    if let Ok(ApduModel::AssociateResponse(r)) = apdu_of(aare) {
        lemma_turned_down(a, "acse", r.result);
    }
}

/// Whether an association was refused between two states, at this layer and with this code: the
/// application is told so, and then that it is over.
pub open spec fn turned_down(
    a: AssociationModel,
    b: AssociationModel,
    layer: &'static str,
    code: Option<i64>,
) -> bool {
    exists|mid: AssociationModel|
        told(a, mid, EventModel::Refused { layer, code }) && #[trigger] ended(
            mid,
            b,
            CloseReason::Refused,
        )
}

proof fn lemma_turned_down(a: AssociationModel, layer: &'static str, code: Option<i64>)
    requires
        bounded(a.events),
        a.state != State::Closed,
    ensures
        turned_down(a, refused(a, layer, code), layer, code),
{
    let e = EventModel::Refused { layer, code };
    let mid = crate::proto::mms::association::machine::emitted(a, e);
    crate::common::queue::lemma_queue(a.events, e);
    crate::proto::mms::association::conduct::lemma_told(a, e);
    crate::proto::mms::association::conduct::lemma_ends_once(
        mid,
        CloseReason::Refused,
        CloseReason::Refused,
    );
    assert(ended(mid, refused(a, layer, code), CloseReason::Refused));
}

/// The value in a context is that of the first list in it.
pub proof fn lemma_value_found(pdvs: Seq<PdvModel>, context: u16, i: nat)
    ensures
        value_in(pdvs, context, i) matches Some(v) ==> exists|k: int|
            #![trigger pdvs[k]]
            i <= k < pdvs.len() && pdvs[k].context_id == context && pdvs[k].values
                == PdvValuesModel::SingleAsn1Type(v) && forall|j: int|
                i <= j < k ==> (#[trigger] pdvs[j]).context_id != context,
        (forall|k: int| i <= k < pdvs.len() ==> (#[trigger] pdvs[k]).context_id != context)
            ==> value_in(pdvs, context, i) is None,
        i < pdvs.len() && pdvs[i as int].context_id == context ==> value_in(pdvs, context, i)
            == match pdvs[i as int].values {
            PdvValuesModel::SingleAsn1Type(v) => Some(v),
            _ => None,
        },
    decreases pdvs.len() - i,
{
    if i < pdvs.len() && pdvs[i as int].context_id != context {
        lemma_value_found(pdvs, context, i + 1);
    }
}

/// The contexts of a presentation are all accepted, or the first that is not says why.
pub proof fn lemma_contexts_accepted(s: Seq<ContextResultModel>, i: nat)
    ensures
        match refusal_in(s, i) {
            None => forall|k: int| i <= k < s.len() ==> (#[trigger] s[k]).result == 0,
            Some(code) => exists|k: int|
                #![trigger s[k]]
                i <= k < s.len() && s[k].result == code && code != 0 && forall|j: int|
                    i <= j < k ==> (#[trigger] s[j]).result == 0,
        },
    decreases s.len() - i,
{
    if i < s.len() && s[i as int].result == 0 {
        lemma_contexts_accepted(s, i + 1);
    } else if i < s.len() {
        assert(s[i as int].result != 0);
    }
}

/// A client takes an ACCEPT whose contexts are all accepted for what stands in the context of ACSE. A
/// context that is not accepted, or none at all, or a rejection, is a refusal of the presentation.
/// What is not addressed to a client breaks the protocol.
pub proof fn lemma_accept_taken(a: AssociationModel, b: Seq<u8>)
    requires
        bounded(a.events),
        a.state != State::Closed,
    ensures
        ({
            let o = on_session_accept(a, b);
            &&& a.role == Role::Server ==> o.fault is None && ended(
                a,
                o.a,
                CloseReason::ProtocolError,
            )
            &&& a.role == Role::Client ==> match ppdu_of(b, true) {
                Err(e) => o.a == a && o.fault == Some(e),
                Ok(PpduModel::Accept(cp)) => if cp.results.len() == 0 {
                    o.fault is None && turned_down(a, o.a, "presentation", None)
                } else if refusal_in(cp.results, 0) is Some {
                    o.fault is None && turned_down(
                        a,
                        o.a,
                        "presentation",
                        refusal_in(cp.results, 0),
                    )
                } else {
                    match value_in(cp.user_data, a.acse_context, 0) {
                        Some(aare) => o == on_aare(a, aare),
                        None => o.a == a && o.fault is Some,
                    }
                },
                Ok(PpduModel::Reject(cp)) => o.fault is None && turned_down(
                    a,
                    o.a,
                    "presentation",
                    cp.provider_reason,
                ),
                Ok(_) => o.fault is None && ended(a, o.a, CloseReason::ProtocolError),
            }
        }),
{
    if let Ok(PpduModel::Accept(cp)) = ppdu_of(b, true) {
        lemma_turned_down(a, "presentation", refusal_in(cp.results, 0));
    }
    if let Ok(PpduModel::Reject(cp)) = ppdu_of(b, true) {
        lemma_turned_down(a, "presentation", cp.provider_reason);
    }
}

/// A server goes by the contexts that a CONNECT defines for MMS and for ACSE, and by 3 and 1 where it
/// defines none. It takes what stands in the context of ACSE for a request. What is not addressed to a
/// server breaks the protocol.
pub proof fn lemma_connect_taken(a: AssociationModel, b: Seq<u8>)
    requires
        bounded(a.events),
        a.state != State::Closed,
    ensures
        ({
            let o = on_session_connect(a, b);
            &&& a.role == Role::Client ==> o.fault is None && ended(
                a,
                o.a,
                CloseReason::ProtocolError,
            )
            &&& a.role == Role::Server ==> match ppdu_of(b, true) {
                Err(e) => o.a == a && o.fault == Some(e),
                Ok(PpduModel::Connect(cp)) => {
                    let c = AssociationModel {
                        mms_context: match context_from(
                            cp.contexts,
                            seq![0x28u8, 0xCA, 0x22, 0x02, 0x01],
                            0,
                        ) {
                            Some(id) => id,
                            None => 3,
                        },
                        acse_context: match context_from(
                            cp.contexts,
                            seq![0x52u8, 0x01, 0x00, 0x01],
                            0,
                        ) {
                            Some(id) => id,
                            None => 1,
                        },
                        ..a
                    };
                    match value_in(cp.user_data, c.acse_context, 0) {
                        Some(aarq) => o == on_aarq(c, cp.contexts.len(), aarq),
                        None => o.a == c && o.fault is Some,
                    }
                },
                Ok(_) => o.fault is None && ended(a, o.a, CloseReason::ProtocolError),
            }
        }),
{
}

/// A server takes the proposal in a request. A request without one, or with something else in its
/// place, is a fault or breaks the protocol.
pub proof fn lemma_request_taken(a: AssociationModel, contexts: nat, aarq: Seq<u8>)
    requires
        bounded(a.events),
        a.state != State::Closed,
    ensures
        ({
            let o = on_aarq(a, contexts, aarq);
            match apdu_of(aarq) {
                Err(e) => o.a == a && o.fault == Some(e),
                Ok(ApduModel::Associate(r)) => match r.user_information {
                    None => o.a == a && o.fault is Some,
                    Some(u) => match mms_of(u.value, a.cfg.limits) {
                        Err(e) => o.a == a && o.fault == Some(e),
                        Ok(MmsModel::InitiateRequest(peer)) => o == on_proposal(a, contexts, peer),
                        Ok(_) => o.fault is None && ended(a, o.a, CloseReason::ProtocolError),
                    },
                },
                Ok(_) => o.fault is None && ended(a, o.a, CloseReason::ProtocolError),
            }
        }),
{
}

/// What a session brings goes where it belongs: a CONNECT and an ACCEPT to the handshake, data to the
/// values it holds, and a refusal to the application, with its reason.
pub proof fn lemma_session_taken(a: AssociationModel, tsdu: Seq<u8>)
    requires
        bounded(a.events),
        a.state != State::Closed,
    ensures
        ({
            let o = on_tsdu(a, tsdu);
            match spdu_of(tsdu) {
                Ok(SpduModel::Connect(c)) => o == on_session_connect(a, c.user_data),
                Ok(SpduModel::Accept(c)) => o == on_session_accept(a, c.user_data),
                Ok(SpduModel::Refuse { reason, .. }) => o.fault is None && match reason {
                    Some(r) => turned_down(a, o.a, "session", Some(r as i64)),
                    None => turned_down(a, o.a, "session", None),
                },
                Ok(SpduModel::DataTransfer(p)) => match ppdu_of(p, false) {
                    Err(e) => o.a == a && o.fault == Some(e),
                    Ok(PpduModel::UserData(pdvs)) => o.fault is None && o.a == walked(a, pdvs, 0),
                    Ok(_) => o.fault is None && ended(a, o.a, CloseReason::ProtocolError),
                },
                _ => true,
            }
        }),
{
    reveal(on_tsdu);
    lemma_turned_down(a, "session", None);
    if let Ok(SpduModel::Refuse { reason: Some(r), .. }) = spdu_of(tsdu) {
        lemma_turned_down(a, "session", Some(r as i64));
    }
}

/// A value goes out as data of the session, in one presentation data value: the number of its context
/// under 02 and the value under A0, in the TPDUs that were agreed.
pub proof fn lemma_value_carried(a: AssociationModel, context: u16, value: Seq<u8>)
    ensures
        user_data(context, value) == element(
            0x61,
            element(0x30, element(0x02, sint_octets(context as int)) + element(0xA0, value)),
        ),
        carried(a, context, value) == (AssociationModel {
            out: a.out + segments(
                seq![1u8, 0u8, 1u8, 0u8] + user_data(context, value),
                a.tpdu_data as nat,
            ),
            ..a
        }),
{
    broadcast use group_wire;

    let p = seq![single_pdv(context, value)];
    assert(p[0] == single_pdv(context, value));
    let one = tlv(Pdv::<'static>::tag_of(p[0]), Pdv::<'static>::contents_of(p[0]));
    assert(list_from::<Pdv<'static>>(p, 1) =~= Seq::<u8>::empty());
    assert(list_from::<Pdv<'static>>(p, 0) =~= one);
    assert(list_bytes::<Pdv<'static>>(p) == one);
    lemma_ppdu_layout(no_parameters(), p);
}

} // verus!
