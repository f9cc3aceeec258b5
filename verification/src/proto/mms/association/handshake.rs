//! A client and a server complete the handshake over all six layers.

use vstd::prelude::*;
use crate::ber::laws as ber_laws;
use crate::ber::list::list_bytes;
use crate::common::{Error, Instant};
use crate::proto::mms::association::laws::{
    arrived, lemma_packet_arrives, lemma_quiet, lemma_segments, stream,
};
use crate::proto::mms::association::machine::{
    accept_spdu, acceptances, after_bytes, after_start, after_tpdu, agreed_exp, answer,
    associate_request, associate_response, confirm_of, connect_spdu, data_size, fresh, on_aare,
    on_aarq, on_session_accept, on_session_connect, on_tpdu, on_tsdu, opening, packets, proposal,
    refusal_in, segments, smaller, start_fault, transmitted, value_in, AssociationModel,
};
use crate::proto::mms::association::messages::lemma_single;
use crate::proto::mms::association::types::{ConfigModel, Role, State, ACSE_CONTEXT, MMS_CONTEXT};
use crate::proto::mms::initiate::InitiateModel;
use crate::proto::mms::pdu::{lemma_mms_round_trip, mms_of, MmsModel};
use crate::proto::osi::acse::{apdu_bytes, apdu_of, lemma_apdu_round_trip, version_1, ApduModel};
use crate::proto::osi::cotp::{
    connect_fault, lemma_tpdu_round_trip, pow2, tpdu_bytes, ConnectModel, TpduModel,
};
use crate::proto::osi::oid::{acse_syntax, mms_syntax};
use crate::proto::osi::presentation::{
    connect_parameters, context_from, lemma_ppdu_round_trip, no_parameters, ppdu_bytes, ppdu_of,
    single_pdv, CpModel, Pdv, PpduModel,
};
use crate::proto::osi::session::{lemma_spdu_round_trip, spdu_bytes, spdu_fault, spdu_of, SpduModel};
use crate::proto::osi::tpkt::packet;

verus! {

// ---- what each message reads as --------------------------------------------------------

/// User data is no shorter than the value in it.
proof fn lemma_pdv_within(context: u16, value: Seq<u8>)
    ensures
        value.len() <= list_bytes::<Pdv<'static>>(seq![single_pdv(context, value)]).len(),
{
    broadcast use ber_laws::lemma_tlv_len;

    let s = seq![single_pdv(context, value)];
    assert(s[0] == single_pdv(context, value));
}

/// The CP of a client.
pub open spec fn connect_cp(cfg: ConfigModel) -> CpModel {
    connect_parameters(
        cfg.local.p_sel,
        cfg.remote.p_sel,
        ACSE_CONTEXT,
        MMS_CONTEXT,
        apdu_bytes(ApduModel::Associate(associate_request(cfg))),
    )
}

/// What a client proposes.
pub open spec fn client_proposal(cfg: ConfigModel) -> InitiateModel {
    proposal(cfg.max_pdu as i64, cfg.max_outstanding as i64)
}

proof fn lemma_cp_within(cp: CpModel, context: u16, value: Seq<u8>)
    requires
        cp.user_data == seq![single_pdv(context, value)],
    ensures
        value.len() <= ppdu_bytes(PpduModel::Connect(cp)).len(),
        ppdu_bytes(PpduModel::Accept(cp)) == ppdu_bytes(PpduModel::Connect(cp)),
{
    broadcast use ber_laws::lemma_tlv_len;

    lemma_pdv_within(context, value);
    assert(cp.user_data.len() == 1);
}

/// The session CONNECT and the CP in it read back.
proof fn lemma_connect_reads(cfg: ConfigModel)
    requires
        spdu_fault(connect_spdu(cfg)) is None,
    ensures
        spdu_of(spdu_bytes(connect_spdu(cfg))) == Ok::<SpduModel, Error>(connect_spdu(cfg)),
        connect_spdu(cfg) matches SpduModel::Connect(c) && ppdu_of(c.user_data, true) == Ok::<
            PpduModel,
            Error,
        >(PpduModel::Connect(connect_cp(cfg))),
        apdu_bytes(ApduModel::Associate(associate_request(cfg))).len() <= u64::MAX,
{
    reveal(connect_spdu);
    let aarq = apdu_bytes(ApduModel::Associate(associate_request(cfg)));
    lemma_spdu_round_trip(connect_spdu(cfg));
    lemma_single(ACSE_CONTEXT, aarq);
    lemma_cp_within(connect_cp(cfg), ACSE_CONTEXT, aarq);
    lemma_ppdu_round_trip(PpduModel::Connect(connect_cp(cfg)));
}

/// The AARQ and the initiate request in it read back.
proof fn lemma_aarq_reads(cfg: ConfigModel, peer: ConfigModel)
    requires
        apdu_bytes(ApduModel::Associate(associate_request(cfg))).len() <= u64::MAX,
    ensures
        apdu_of(apdu_bytes(ApduModel::Associate(associate_request(cfg)))) == Ok::<ApduModel, Error>(
            ApduModel::Associate(associate_request(cfg)),
        ),
        associate_request(cfg).user_information matches Some(u) && mms_of(u.value, peer.limits)
            == Ok::<MmsModel, Error>(MmsModel::InitiateRequest(client_proposal(cfg))),
{
    broadcast use ber_laws::lemma_tlv_len;

    let a = associate_request(cfg);
    lemma_apdu_round_trip(ApduModel::Associate(a));
    lemma_mms_round_trip(MmsModel::InitiateRequest(client_proposal(cfg)), peer.limits);
}

/// The CPA of a server.
pub open spec fn accept_cp(cfg: ConfigModel, contexts: nat, peer: InitiateModel) -> CpModel {
    CpModel {
        protocol_version: Some(version_1()),
        responding_psel: Some(cfg.local.p_sel),
        results: acceptances(contexts),
        requirements: Some((6, seq![0u8])),
        user_data: seq![
            single_pdv(
                ACSE_CONTEXT,
                apdu_bytes(
                    ApduModel::AssociateResponse(associate_response(cfg, MMS_CONTEXT, peer)),
                ),
            ),
        ],
        ..no_parameters()
    }
}

/// The ACCEPT of a server to the proposal of a client.
pub open spec fn accepting(cfg: ConfigModel, peer: InitiateModel) -> SpduModel {
    accept_spdu(cfg, 2, MMS_CONTEXT, ACSE_CONTEXT, peer)
}

/// The session ACCEPT and the CPA in it read back.
proof fn lemma_accept_reads(cfg: ConfigModel, peer: InitiateModel)
    requires
        spdu_fault(accepting(cfg, peer)) is None,
    ensures
        spdu_of(spdu_bytes(accepting(cfg, peer))) == Ok::<SpduModel, Error>(accepting(cfg, peer)),
        accepting(cfg, peer) matches SpduModel::Accept(c) && ppdu_of(c.user_data, true) == Ok::<
            PpduModel,
            Error,
        >(PpduModel::Accept(accept_cp(cfg, 2, peer))),
        apdu_bytes(
            ApduModel::AssociateResponse(associate_response(cfg, MMS_CONTEXT, peer)),
        ).len() <= u64::MAX,
{
    reveal(accept_spdu);
    let aare = apdu_bytes(
        ApduModel::AssociateResponse(associate_response(cfg, MMS_CONTEXT, peer)),
    );
    lemma_spdu_round_trip(accepting(cfg, peer));
    lemma_single(ACSE_CONTEXT, aare);
    lemma_cp_within(accept_cp(cfg, 2, peer), ACSE_CONTEXT, aare);
    lemma_ppdu_round_trip(PpduModel::Accept(accept_cp(cfg, 2, peer)));
}

/// The AARE and the initiate response in it read back.
proof fn lemma_aare_reads(cfg: ConfigModel, peer: InitiateModel, client: ConfigModel)
    requires
        apdu_bytes(
            ApduModel::AssociateResponse(associate_response(cfg, MMS_CONTEXT, peer)),
        ).len() <= u64::MAX,
    ensures
        apdu_of(
            apdu_bytes(ApduModel::AssociateResponse(associate_response(cfg, MMS_CONTEXT, peer))),
        ) == Ok::<ApduModel, Error>(
            ApduModel::AssociateResponse(associate_response(cfg, MMS_CONTEXT, peer)),
        ),
        associate_response(cfg, MMS_CONTEXT, peer).user_information matches Some(u) && mms_of(
            u.value,
            client.limits,
        ) == Ok::<MmsModel, Error>(MmsModel::InitiateResponse(answer(cfg, peer))),
{
    broadcast use ber_laws::lemma_tlv_len;

    let a = associate_response(cfg, MMS_CONTEXT, peer);
    lemma_apdu_round_trip(ApduModel::AssociateResponse(a));
    lemma_mms_round_trip(MmsModel::InitiateResponse(answer(cfg, peer)), client.limits);
}

// ---- the steps -------------------------------------------------------------------------

/// The smaller of two budgets, and at least one.
pub open spec fn common_budget(a: ConfigModel, b: ConfigModel) -> usize {
    if a.max_outstanding == 0 || b.max_outstanding == 0 {
        1
    } else if a.max_outstanding <= b.max_outstanding {
        a.max_outstanding as usize
    } else {
        b.max_outstanding as usize
    }
}

proof fn lemma_contexts(cfg: ConfigModel)
    ensures
        context_from(connect_cp(cfg).contexts, mms_syntax(), 0) == Some(MMS_CONTEXT),
        context_from(connect_cp(cfg).contexts, acse_syntax(), 0) == Some(ACSE_CONTEXT),
        connect_cp(cfg).contexts.len() == 2,
{
    reveal_with_fuel(context_from, 3);
    assert(acse_syntax().len() != mms_syntax().len());
    let s = connect_cp(cfg).contexts;
    assert(s[0].abstract_syntax == acse_syntax());
    assert(s[1].abstract_syntax == mms_syntax());
}

proof fn lemma_value_in(context: u16, value: Seq<u8>)
    ensures
        value_in(seq![single_pdv(context, value)], context, 0) == Some(value),
{
    let s = seq![single_pdv(context, value)];
    assert(s[0] == single_pdv(context, value));
}

proof fn lemma_all_accepted(n: nat, i: nat)
    ensures
        refusal_in(acceptances(n), i) is None,
    decreases n - i,
{
    if i < n {
        lemma_all_accepted(n, i + 1);
    }
}

/// A server that gets the CONNECT of a client answers it and is established.
proof fn lemma_server_step(s: AssociationModel, client: ConfigModel)
    requires
        s.role == Role::Server,
        spdu_fault(connect_spdu(client)) is None,
        spdu_fault(accepting(s.cfg, client_proposal(client))) is None,
    ensures
        ({
            let o = on_tsdu(s, spdu_bytes(connect_spdu(client)));
            let b = o.a;
            &&& o.fault is None
            &&& b.state == State::Established
            &&& b.out == s.out + segments(
                spdu_bytes(accepting(s.cfg, client_proposal(client))),
                s.tpdu_data as nat,
            )
            &&& b.negotiated matches Some(n) && n.max_outstanding == common_budget(client, s.cfg)
                && n.tpdu_data == s.tpdu_data && n.mms_context == MMS_CONTEXT
            &&& b.peer_max_pdu == client.max_pdu
            &&& b.mms_context == MMS_CONTEXT
            &&& b.acse_context == ACSE_CONTEXT
            &&& b.connect_deadline is None
        }),
{
    reveal(on_tsdu);
    lemma_connect_reads(client);
    lemma_aarq_reads(client, s.cfg);
    lemma_contexts(client);
    let aarq = apdu_bytes(ApduModel::Associate(associate_request(client)));
    lemma_value_in(ACSE_CONTEXT, aarq);
    let c = AssociationModel { mms_context: MMS_CONTEXT, acse_context: ACSE_CONTEXT, ..s };
    assert(on_session_connect(s, connect_spdu(client)->Connect_0.user_data) == on_aarq(
        c,
        2,
        aarq,
    ));
}

/// A client that gets the ACCEPT of a server is established.
proof fn lemma_client_step(c: AssociationModel, server: ConfigModel)
    requires
        c.role == Role::Client,
        c.acse_context == ACSE_CONTEXT,
        c.mms_context == MMS_CONTEXT,
        spdu_fault(accepting(server, client_proposal(c.cfg))) is None,
    ensures
        ({
            let o = on_tsdu(c, spdu_bytes(accepting(server, client_proposal(c.cfg))));
            let b = o.a;
            &&& o.fault is None
            &&& b.state == State::Established
            &&& b.out == c.out
            &&& b.tpdu_data == c.tpdu_data
            &&& b.negotiated matches Some(n) && n.max_outstanding == common_budget(c.cfg, server)
                && n.tpdu_data == c.tpdu_data && n.mms_context == MMS_CONTEXT
            &&& b.peer_max_pdu == smaller(server.max_pdu as i64, c.cfg.max_pdu as i64)
            &&& b.connect_deadline is None
        }),
{
    reveal(on_tsdu);
    let peer = client_proposal(c.cfg);
    lemma_accept_reads(server, peer);
    lemma_aare_reads(server, peer, c.cfg);
    lemma_all_accepted(2, 0);
    let aare = apdu_bytes(
        ApduModel::AssociateResponse(associate_response(server, MMS_CONTEXT, peer)),
    );
    lemma_value_in(ACSE_CONTEXT, aare);
    assert(on_session_accept(c, accepting(server, peer)->Accept_0.user_data) == on_aare(c, aare));
}

proof fn lemma_cr_step(s: AssociationModel, now: Instant, client: ConfigModel)
    requires
        s.role == Role::Server,
        connect_fault(opening(client)) is None,
        connect_fault(confirm_of(s, opening(client))) is None,
    ensures
        ({
            let b = after_tpdu(
                s,
                now,
                tpdu_bytes(TpduModel::ConnectionRequest(opening(client))),
            );
            &&& b.state == State::Associating
            &&& b.out == s.out.push(
                packet(tpdu_bytes(TpduModel::ConnectionConfirm(confirm_of(s, opening(client))))),
            )
            &&& b.tpdu_data == data_size(agreed_exp(s, opening(client)))
            &&& b.cfg == s.cfg
            &&& b.role == s.role
            &&& b.pending == s.pending
            &&& b.parts == s.parts
        }),
{
    lemma_tpdu_round_trip(TpduModel::ConnectionRequest(opening(client)));
    reveal(on_tpdu);
}

proof fn lemma_cc_step(c: AssociationModel, now: Instant, m: ConnectModel)
    requires
        c.role == Role::Client,
        c.state == State::Connecting,
        connect_fault(m) is None,
        spdu_fault(connect_spdu(c.cfg)) is None,
    ensures
        ({
            let b = after_tpdu(c, now, tpdu_bytes(TpduModel::ConnectionConfirm(m)));
            &&& b.state == State::Associating
            &&& b.tpdu_data == data_size(agreed_exp(c, m))
            &&& b.out == c.out + segments(
                spdu_bytes(connect_spdu(c.cfg)),
                data_size(agreed_exp(c, m)) as nat,
            )
            &&& b.cfg == c.cfg
            &&& b.role == c.role
            &&& b.pending == c.pending
            &&& b.parts == c.parts
            &&& b.acse_context == c.acse_context
            &&& b.mms_context == c.mms_context
        }),
{
    lemma_tpdu_round_trip(TpduModel::ConnectionConfirm(m));
    reveal(on_tpdu);
}

/// Both ends settle on the same TPDU size.
proof fn lemma_same_size(
    client: ConfigModel,
    server: ConfigModel,
    s: AssociationModel,
    c: AssociationModel,
)
    requires
        s.cfg == server,
        c.cfg == client,
    ensures
        ({
            let m = confirm_of(s, opening(client));
            data_size(agreed_exp(c, m)) == data_size(agreed_exp(s, opening(client)))
        }),
        125 <= data_size(agreed_exp(s, opening(client))) <= 8189,
{
    reveal_with_fuel(pow2, 14);
}

proof fn lemma_one_packet(a: AssociationModel, now: Instant, tpdu: Seq<u8>)
    requires
        a.state != State::Closed,
        a.pending.len() == 0,
        tpdu.len() + 4 <= 65535,
        after_tpdu(a, now, tpdu).state != State::Closed,
        after_tpdu(a, now, tpdu).pending == a.pending,
    ensures
        after_bytes(a, now, packet(tpdu)) == after_tpdu(a, now, tpdu),
{
    let none = Seq::<u8>::empty();
    assert(a.pending =~= none);
    assert(AssociationModel { pending: none, ..a } == a);
    assert(a.pending + packet(tpdu) =~= packet(tpdu) + none);
    lemma_packet_arrives(a, now, tpdu, none);
    lemma_quiet(after_tpdu(a, now, tpdu), now);
}

/// The server, after the client's connection request.
pub open spec fn server_1(
    client: ConfigModel,
    server: ConfigModel,
    now: Instant,
) -> AssociationModel {
    after_bytes(fresh(server, Role::Server), now, client_1(client, now).out[0])
}

/// The client, after it started.
pub open spec fn client_1(client: ConfigModel, now: Instant) -> AssociationModel {
    after_start(fresh(client, Role::Client), now)
}

/// The client, after the server's confirmation.
pub open spec fn client_2(
    client: ConfigModel,
    server: ConfigModel,
    now: Instant,
) -> AssociationModel {
    after_bytes(
        transmitted(client_1(client, now)),
        now,
        server_1(client, server, now).out[0],
    )
}

/// The server, after the client's CONNECT.
pub open spec fn server_2(
    client: ConfigModel,
    server: ConfigModel,
    now: Instant,
) -> AssociationModel {
    after_bytes(
        transmitted(server_1(client, server, now)),
        now,
        stream(client_2(client, server, now).out),
    )
}

/// The client, after the server's ACCEPT.
pub open spec fn client_3(
    client: ConfigModel,
    server: ConfigModel,
    now: Instant,
) -> AssociationModel {
    after_bytes(
        AssociationModel { out: Seq::empty(), ..client_2(client, server, now) },
        now,
        stream(server_2(client, server, now).out),
    )
}

/// Whether two ends can take each other's messages: each has an encoding, and neither is
/// longer than what the other reassembles.
pub open spec fn compatible(client: ConfigModel, server: ConfigModel) -> bool {
    let s = fresh(server, Role::Server);
    &&& connect_fault(opening(client)) is None
    &&& connect_fault(confirm_of(s, opening(client))) is None
    &&& spdu_fault(connect_spdu(client)) is None
    &&& spdu_fault(accepting(server, client_proposal(client))) is None
    &&& spdu_bytes(connect_spdu(client)).len() <= server.max_tsdu
    &&& spdu_bytes(accepting(server, client_proposal(client))).len() <= client.max_tsdu
}

proof fn lemma_transport(client: ConfigModel, server: ConfigModel, now: Instant)
    requires
        compatible(client, server),
    ensures
        start_fault(fresh(client, Role::Client)) is None,
        client_1(client, now).out.len() == 1,
        ({
            let s = server_1(client, server, now);
            &&& s.state == State::Associating
            &&& s.role == Role::Server
            &&& s.cfg == server
            &&& s.out.len() == 1
            &&& s.pending.len() == 0
            &&& s.parts.len() == 0
            &&& 125 <= s.tpdu_data <= 8189
        }),
        ({
            let c = client_2(client, server, now);
            &&& c.state == State::Associating
            &&& c.role == Role::Client
            &&& c.cfg == client
            &&& c.tpdu_data == server_1(client, server, now).tpdu_data
            &&& c.out == segments(spdu_bytes(connect_spdu(client)), c.tpdu_data as nat)
            &&& c.pending.len() == 0
            &&& c.parts.len() == 0
            &&& c.acse_context == ACSE_CONTEXT
            &&& c.mms_context == MMS_CONTEXT
        }),
{
    let c1 = client_1(client, now);
    let cr = tpdu_bytes(TpduModel::ConnectionRequest(opening(client)));
    assert(c1.out =~= seq![packet(cr)]);
    let s0 = fresh(server, Role::Server);
    lemma_cr_step(s0, now, client);
    lemma_one_packet(s0, now, cr);
    let s1 = server_1(client, server, now);
    let m = confirm_of(s0, opening(client));
    let cc = tpdu_bytes(TpduModel::ConnectionConfirm(m));
    assert(s1.out =~= seq![packet(cc)]);
    let c1t = transmitted(c1);
    assert(c1t.out =~= Seq::<Seq<u8>>::empty());
    lemma_cc_step(c1t, now, m);
    lemma_one_packet(c1t, now, cc);
    lemma_same_size(client, server, s0, c1t);
    let p = segments(spdu_bytes(connect_spdu(client)), data_size(agreed_exp(c1t, m)) as nat);
    assert(c1t.out + p =~= p);
}

/// A client and a server that can take each other's messages are both established after the
/// handshake. They agree on the smaller of their budgets of outstanding requests, but at least one,
/// and on the TPDU size, and each knows the largest PDU that the other accepts.
pub proof fn lemma_handshake(client: ConfigModel, server: ConfigModel, now: Instant)
    requires
        compatible(client, server),
    ensures
        start_fault(fresh(client, Role::Client)) is None,
        ({
            let c = client_3(client, server, now);
            let s = server_2(client, server, now);
            &&& c.state == State::Established
            &&& s.state == State::Established
            &&& c.negotiated matches Some(n) && n.max_outstanding == common_budget(client, server)
                && n.tpdu_data == c.tpdu_data && n.mms_context == MMS_CONTEXT
            &&& s.negotiated matches Some(n) && n.max_outstanding == common_budget(client, server)
                && n.tpdu_data == c.tpdu_data && n.mms_context == MMS_CONTEXT
            &&& s.peer_max_pdu == client.max_pdu
            &&& c.peer_max_pdu == smaller(server.max_pdu as i64, client.max_pdu as i64)
        }),
{
    lemma_transport(client, server, now);
    let s1 = server_1(client, server, now);
    let c2 = client_2(client, server, now);
    let s1t = transmitted(s1);
    assert(s1t.out =~= Seq::<Seq<u8>>::empty());
    let connect = spdu_bytes(connect_spdu(client));
    let n = c2.out.len();
    lemma_tsdu_arrives_sized(c2.tpdu_data, s1t, now, connect);
    let x = AssociationModel { parts: Seq::empty(), pending: Seq::empty(), ..packets(s1t, n) };
    lemma_server_step(x, client);
    let s2 = server_2(client, server, now);
    let accept = spdu_bytes(accepting(server, client_proposal(client)));
    let p = segments(accept, s1.tpdu_data as nat);
    assert(x.out + p =~= p);
    assert(s2.out == p);
    let c2t = AssociationModel { out: Seq::empty(), ..c2 };
    lemma_tsdu_arrives_sized(s1.tpdu_data, c2t, now, accept);
    let y = AssociationModel {
        parts: Seq::empty(),
        pending: Seq::empty(),
        ..packets(c2t, p.len())
    };
    lemma_client_step(y, server);
}

/// A TSDU in packets of a size arrives whole.
proof fn lemma_tsdu_arrives_sized(chunk: usize, b: AssociationModel, now: Instant, tsdu: Seq<u8>)
    requires
        125 <= chunk <= 8189,
        b.state != State::Closed,
        b.pending.len() == 0,
        b.parts.len() == 0,
        tsdu.len() <= b.cfg.max_tsdu,
    ensures
        after_bytes(b, now, stream(segments(tsdu, chunk as nat))) == arrived(
            b,
            segments(tsdu, chunk as nat).len(),
            tsdu,
        ),
{
    assert(b.pending + stream(segments(tsdu, chunk as nat)) =~= stream(
        segments(tsdu, chunk as nat),
    ));
    assert(b.parts + tsdu =~= tsdu);
    lemma_segments(b, now, tsdu, chunk as nat);
}

} // verus!
