//! The transitions of an association, over what it stands for.

use vstd::prelude::*;
use vstd::utf8::*;
use crate::ber::{ctx, tlv, Class, CursorModel};
use crate::common::queue::{bounded, bump, empty_queue, popped, pushed, QueueModel};
use crate::common::{later, sat_add, Error, Instant};
use crate::proto::mms::association::types::{
    ae_qualifier_bytes, ap_title_bytes, no_stats, AssociationStats, CloseReason, ConfigModel,
    EventModel, Negotiated, Role, State, ACSE_CONTEXT, LOCAL_REF, MMS_CONTEXT,
};
use crate::proto::mms::initiate::InitiateModel;
use crate::proto::mms::outstanding::{ascending, due, earliest};
use crate::proto::mms::pdu::{mms_of, pdu_bytes, pdu_fault, MmsModel};
use crate::proto::mms::reject::Reject;
use crate::proto::mms::request::ConfirmedRequestModel;
use crate::proto::osi::acse::{
    apdu_bytes, apdu_of, no_fields, version_1, ApduModel, AssociateModel, UserInformationModel,
    RESULT_ACCEPTED,
};
use crate::proto::osi::cotp::{
    self, clamped, connect_fault, pow2, reassembled, tpdu_bytes, tpdu_of, TpduModel,
};
use crate::proto::osi::oid::{
    acse_syntax, ber_syntax, mms_context_name, mms_syntax, password_mechanism,
};
use crate::proto::osi::presentation::{
    connect_parameters, context_from, no_parameters, ppdu_bytes, ppdu_of, single_of, single_pdv,
    ContextResultModel, CpModel, PdvModel, PpduModel, RESULT_ACCEPTANCE,
};
use crate::proto::osi::session::{
    self, spdu_bytes, spdu_fault, spdu_of, SpduModel, REQUIREMENT_DUPLEX, VERSION_2,
};
use crate::proto::osi::tpkt::{packet, take_tpdu};

verus! {

/// What an association stands for.
#[verifier::ext_equal]
pub struct AssociationModel {
    /// What it was configured with.
    pub cfg: ConfigModel,
    /// Which end it is.
    pub role: Role,
    /// Where the handshake has got to.
    pub state: State,
    /// The octets that arrived and are not yet a whole packet.
    pub pending: Seq<u8>,
    /// The octets of a TSDU that is still incomplete.
    pub parts: Seq<u8>,
    /// The packets that wait to be sent, the oldest first.
    pub out: Seq<Seq<u8>>,
    /// The events that wait for the application.
    pub events: QueueModel<EventModel>,
    /// The counters.
    pub stats: AssociationStats,
    /// The requests that wait for an answer, with their deadlines.
    pub outstanding: Map<i64, Instant>,
    /// The next invoke identifier to try.
    pub next_invoke: i64,
    /// What was agreed, once it was.
    pub negotiated: Option<Negotiated>,
    /// When the handshake, or a release, must be done.
    pub connect_deadline: Option<Instant>,
    /// The largest PDU the peer accepts, `0` where it did not say.
    pub peer_max_pdu: usize,
    /// Octets of user data one DT TPDU carries.
    pub tpdu_data: usize,
    /// The presentation context of ACSE.
    pub acse_context: u16,
    /// The presentation context of MMS.
    pub mms_context: u16,
    /// The peer's COTP reference.
    pub peer_ref: u16,
}

/// What holds of every association: its numbers are in range, what it agreed on is what it goes
/// by once it is established, and no request waits where none can have been issued.
pub open spec fn valid(a: AssociationModel) -> bool {
    sound(a) && agreed(a) && unasked(a)
}

/// An established association goes by what was agreed: the presentation context of MMS, and what
/// a TPDU carries.
pub open spec fn agreed(a: AssociationModel) -> bool {
    a.state == State::Established ==> (a.negotiated matches Some(n) && n.mms_context
        == a.mms_context && n.tpdu_data == a.tpdu_data)
}

/// No request is outstanding before an association is established or after it is over. A server
/// that is connected to again in the middle of one keeps those it has issued.
pub open spec fn unasked(a: AssociationModel) -> bool {
    a.state == State::Idle || a.state == State::Connecting || a.state == State::Closed || (a.state
        == State::Associating && a.role == Role::Client) ==> a.outstanding.dom()
        == Set::<i64>::empty()
}

/// The numbers of an association are in range: its identifiers are positive 32-bit numbers, a
/// TPDU carries what class 0 lets it, the queue is bounded, and no budget exceeds what the
/// configuration can express.
pub open spec fn sound(a: AssociationModel) -> bool {
    &&& 1 <= a.next_invoke <= u32::MAX
    &&& 125 <= a.tpdu_data <= 8189
    &&& bounded(a.events)
    &&& a.outstanding.dom().finite()
    &&& a.negotiated matches Some(n) ==> 1 <= n.max_outstanding <= 255
}

/// Octets of user data in a TPDU of the size `exp` describes.
pub open spec fn data_size(exp: u8) -> usize {
    (pow2(clamped(exp) as nat) - 3) as usize
}

/// A new association.
pub open spec fn fresh(cfg: ConfigModel, role: Role) -> AssociationModel {
    AssociationModel {
        cfg,
        role,
        state: State::Idle,
        pending: Seq::empty(),
        parts: Seq::empty(),
        out: Seq::empty(),
        events: empty_queue(cfg.event_capacity),
        stats: no_stats(),
        outstanding: Map::empty(),
        next_invoke: 1,
        negotiated: None,
        connect_deadline: None,
        peer_max_pdu: 0,
        tpdu_data: data_size(cfg.tpdu_size_exp),
        acse_context: ACSE_CONTEXT,
        mms_context: MMS_CONTEXT,
        peer_ref: 0,
    }
}

// ---- bookkeeping -----------------------------------------------------------------------

/// An event is queued for the application.
pub open spec fn emitted(a: AssociationModel, event: EventModel) -> AssociationModel {
    AssociationModel {
        events: pushed(a.events, event),
        stats: AssociationStats {
            events_dropped: pushed(a.events, event).dropped,
            ..a.stats
        },
        ..a
    }
}

/// The association is over, unless it already was.
pub open spec fn closed(a: AssociationModel, reason: CloseReason) -> AssociationModel {
    if a.state == State::Closed {
        a
    } else {
        emitted(
            AssociationModel {
                state: State::Closed,
                connect_deadline: None,
                outstanding: Map::empty(),
                parts: Seq::empty(),
                ..a
            },
            EventModel::Closed(reason),
        )
    }
}

/// The peer refused at a layer, and the association is over.
pub open spec fn refused(
    a: AssociationModel,
    layer: &'static str,
    code: Option<i64>,
) -> AssociationModel {
    closed(emitted(a, EventModel::Refused { layer, code }), CloseReason::Refused)
}

/// The six layers are up.
pub open spec fn established(a: AssociationModel, n: Negotiated) -> AssociationModel {
    emitted(
        AssociationModel {
            state: State::Established,
            connect_deadline: None,
            negotiated: Some(n),
            ..a
        },
        EventModel::Established(n),
    )
}

/// The handshake gets its deadline, unless there is none.
pub open spec fn armed(a: AssociationModel, now: Instant) -> AssociationModel {
    if a.cfg.connect_timeout_ms > 0 {
        AssociationModel {
            connect_deadline: Some(later(now, a.cfg.connect_timeout_ms as nat)),
            ..a
        }
    } else {
        a
    }
}

/// The identifier after `id`: they are positive and wrap below the 32-bit ceiling.
pub open spec fn id_after(id: i64) -> i64 {
    if id >= u32::MAX {
        1
    } else {
        (id + 1) as i64
    }
}

/// The first of `n` identifiers from `next` on that no request waits under, and the one to try
/// after it.
pub open spec fn free_id(next: i64, m: Map<i64, Instant>, n: nat) -> (i64, i64)
    decreases n,
{
    if n == 0 {
        (next, next)
    } else if !m.contains_key(next) {
        (next, id_after(next))
    } else {
        free_id(id_after(next), m, (n - 1) as nat)
    }
}

// ---- outbound --------------------------------------------------------------------------

/// A TPDU is queued in its packet.
pub open spec fn queued(a: AssociationModel, tpdu: Seq<u8>) -> AssociationModel {
    AssociationModel { out: a.out.push(packet(tpdu)), ..a }
}

/// The packets a TSDU is sent in: DT TPDUs of `chunk` octets, the last one marked.
pub open spec fn segments(tsdu: Seq<u8>, chunk: nat) -> Seq<Seq<u8>>
    decreases tsdu.len(),
{
    if chunk == 0 || tsdu.len() <= chunk {
        seq![packet(tpdu_bytes(TpduModel::Data { eot: true, payload: tsdu }))]
    } else {
        seq![
            packet(
                tpdu_bytes(TpduModel::Data { eot: false, payload: tsdu.take(chunk as int) }),
            ),
        ] + segments(tsdu.skip(chunk as int), chunk)
    }
}

/// A TSDU is queued in its packets.
pub open spec fn sent(a: AssociationModel, tsdu: Seq<u8>) -> AssociationModel {
    AssociationModel { out: a.out + segments(tsdu, a.tpdu_data as nat), ..a }
}

/// One encoded value as user data of a presentation context.
pub open spec fn user_data(context: u16, value: Seq<u8>) -> Seq<u8> {
    ppdu_bytes(PpduModel::UserData(seq![single_pdv(context, value)]))
}

/// One encoded value on its way to the peer.
pub open spec fn carried(a: AssociationModel, context: u16, value: Seq<u8>) -> AssociationModel {
    sent(a, spdu_bytes(SpduModel::DataTransfer(user_data(context, value))))
}

/// Why an MMS PDU of this length cannot be sent.
pub open spec fn length_fault(a: AssociationModel, n: nat) -> Option<Error> {
    if a.peer_max_pdu > 0 && n > a.peer_max_pdu {
        Some(Error::LimitExceeded { limit: "peer max PDU", value: n as usize })
    } else {
        None
    }
}

/// There is no association to send on.
pub open spec fn not_established() -> Error {
    Error::InvalidValue("association is not established")
}

/// Why an MMS PDU cannot be sent.
pub open spec fn send_fault(a: AssociationModel, m: MmsModel) -> Option<Error> {
    if a.state != State::Established {
        Some(not_established())
    } else {
        match pdu_fault(m) {
            Some(f) => Some(f),
            None => length_fault(a, pdu_bytes(m).len()),
        }
    }
}

/// Why encoded octets cannot be sent.
pub open spec fn encoded_fault(a: AssociationModel, pdu: Seq<u8>) -> Option<Error> {
    if a.state != State::Established {
        Some(not_established())
    } else {
        length_fault(a, pdu.len())
    }
}

/// Whether octets start with a `reject-PDU`.
pub open spec fn is_reject(pdu: Seq<u8>) -> bool {
    match (CursorModel { bytes: pdu, offset: 0 }).first() {
        Ok(t) => t.tag.class == Class::Context && t.tag.number == 4,
        Err(_) => false,
    }
}

/// A PDU that this end rejected is counted.
pub open spec fn counted(a: AssociationModel, reject: bool) -> AssociationModel {
    if reject {
        AssociationModel {
            stats: AssociationStats { rejected: bump(a.stats.rejected), ..a.stats },
            ..a
        }
    } else {
        a
    }
}

/// An MMS PDU is on its way to the peer.
pub open spec fn after_send(a: AssociationModel, m: MmsModel) -> AssociationModel {
    counted(carried(a, a.mms_context, pdu_bytes(m)), m is Reject)
}

/// How many requests may be outstanding.
pub open spec fn budget(a: AssociationModel) -> usize {
    match a.negotiated {
        Some(n) => n.max_outstanding,
        None => a.cfg.max_outstanding as usize,
    }
}

/// What `parameterCBB` an end proposes.
pub open spec fn parameter_cbb() -> (u8, Seq<u8>) {
    (5, seq![0xF1u8, 0x00])
}

/// What `servicesSupported` an end proposes: exactly the services that exist here.
pub open spec fn services_supported() -> (u8, Seq<u8>) {
    (4, seq![0x6Eu8, 0x1C, 0x00, 0x00, 0x00, 0x00, 0x00, 0x00, 0x40, 0xED, 0x20])
}

/// The proposal of an end.
pub open spec fn proposal(max_pdu: i64, outstanding: i64) -> InitiateModel {
    InitiateModel {
        local_detail: Some(max_pdu),
        max_serv_outstanding_calling: outstanding,
        max_serv_outstanding_called: outstanding,
        data_structure_nesting_level: Some(5),
        version: 1,
        parameter_cbb: parameter_cbb(),
        services_supported: services_supported(),
    }
}

/// The AARQ of a client.
pub open spec fn associate_request(cfg: ConfigModel) -> AssociateModel {
    let a = AssociateModel {
        protocol_version: Some(version_1()),
        context_name: Some(mms_context_name()),
        called_ap_title: ap_title_bytes(cfg.remote),
        called_ae_qualifier: ae_qualifier_bytes(cfg.remote),
        calling_ap_title: ap_title_bytes(cfg.local),
        calling_ae_qualifier: ae_qualifier_bytes(cfg.local),
        user_information: Some(
            UserInformationModel {
                direct_reference: Some(ber_syntax()),
                indirect_reference: Some(MMS_CONTEXT as i64),
                value: pdu_bytes(
                    MmsModel::InitiateRequest(
                        proposal(cfg.max_pdu as i64, cfg.max_outstanding as i64),
                    ),
                ),
            },
        ),
        ..no_fields()
    };
    match cfg.password {
        Some(p) => AssociateModel {
            sender_requirements: Some(version_1()),
            mechanism_name: Some(password_mechanism()),
            authentication_value: Some(tlv(ctx(0), encode_utf8(p))),
            ..a
        },
        None => a,
    }
}

/// The usual session parameters.
pub open spec fn session_parameters(cfg: ConfigModel, user_data: Seq<u8>) -> session::ConnectModel {
    session::ConnectModel {
        protocol_options: 0,
        version: VERSION_2,
        requirements: REQUIREMENT_DUPLEX,
        calling_ssel: Some(cfg.local.s_sel),
        called_ssel: Some(cfg.remote.s_sel),
        user_data,
    }
}

/// The CONNECT of a client, with everything inside it.
#[verifier::opaque]
pub open spec fn connect_spdu(cfg: ConfigModel) -> SpduModel {
    SpduModel::Connect(
        session_parameters(
            cfg,
            ppdu_bytes(
                PpduModel::Connect(
                    connect_parameters(
                        cfg.local.p_sel,
                        cfg.remote.p_sel,
                        ACSE_CONTEXT,
                        MMS_CONTEXT,
                        apdu_bytes(ApduModel::Associate(associate_request(cfg))),
                    ),
                ),
            ),
        ),
    )
}

/// The smaller of two numbers.
pub open spec fn smaller(a: i64, b: i64) -> i64 {
    if a <= b {
        a
    } else {
        b
    }
}

/// At least one.
pub open spec fn one_or_more(a: i64) -> i64 {
    if a < 1 {
        1
    } else {
        a
    }
}

/// What a server answers to a proposal: never more than was proposed.
pub open spec fn answer(cfg: ConfigModel, peer: InitiateModel) -> InitiateModel {
    let mine = cfg.max_outstanding as i64;
    InitiateModel {
        local_detail: Some(
            match peer.local_detail {
                Some(d) => smaller(cfg.max_pdu as i64, d),
                None => cfg.max_pdu as i64,
            },
        ),
        max_serv_outstanding_calling: smaller(
            mine,
            one_or_more(peer.max_serv_outstanding_calling),
        ),
        max_serv_outstanding_called: smaller(mine, one_or_more(peer.max_serv_outstanding_called)),
        ..proposal(0, 0)
    }
}

/// The AARE of a server.
pub open spec fn associate_response(
    cfg: ConfigModel,
    mms_context: u16,
    peer: InitiateModel,
) -> AssociateModel {
    AssociateModel {
        protocol_version: Some(version_1()),
        context_name: Some(mms_context_name()),
        result: Some(RESULT_ACCEPTED),
        responding_ap_title: ap_title_bytes(cfg.local),
        responding_ae_qualifier: ae_qualifier_bytes(cfg.local),
        user_information: Some(
            UserInformationModel {
                direct_reference: Some(ber_syntax()),
                indirect_reference: Some(mms_context as i64),
                value: pdu_bytes(MmsModel::InitiateResponse(answer(cfg, peer))),
            },
        ),
        ..no_fields()
    }
}

/// Every proposed context is accepted.
pub open spec fn acceptances(n: nat) -> Seq<ContextResultModel> {
    Seq::new(
        n,
        |i: int|
            ContextResultModel { result: RESULT_ACCEPTANCE, transfer_syntax: Some(ber_syntax()) },
    )
}

/// The ACCEPT of a server, with everything inside it.
#[verifier::opaque]
pub open spec fn accept_spdu(
    cfg: ConfigModel,
    contexts: nat,
    mms_context: u16,
    acse_context: u16,
    peer: InitiateModel,
) -> SpduModel {
    let aare = apdu_bytes(
        ApduModel::AssociateResponse(associate_response(cfg, mms_context, peer)),
    );
    SpduModel::Accept(
        session_parameters(
            cfg,
            ppdu_bytes(
                PpduModel::Accept(
                    CpModel {
                        protocol_version: Some(version_1()),
                        responding_psel: Some(cfg.local.p_sel),
                        results: acceptances(contexts),
                        requirements: Some((6, seq![0u8])),
                        user_data: seq![single_pdv(acse_context, aare)],
                        ..no_parameters()
                    },
                ),
            ),
        ),
    )
}

/// The FINISH that releases an association, or the DISCONNECT that confirms it.
#[verifier::opaque]
pub open spec fn release_spdu(acse_context: u16, response: bool) -> SpduModel {
    if response {
        SpduModel::Disconnect(
            user_data(acse_context, apdu_bytes(ApduModel::ReleaseResponse(Some(0)))),
        )
    } else {
        SpduModel::Finish(user_data(acse_context, apdu_bytes(ApduModel::Release(Some(0)))))
    }
}

/// What a fallible step of an association returns and leads to.
pub open spec fn reached(r: Result<(), Error>, a: AssociationModel, o: Outcome) -> bool {
    &&& a == o.a
    &&& r == match o.fault {
        None => Ok(()),
        Some(e) => Err::<(), Error>(e),
    }
}

/// What no step of an association changes.
pub open spec fn kept(a: AssociationModel, b: AssociationModel) -> bool {
    sound(b) && b.cfg == a.cfg && b.role == a.role && b.pending == a.pending
}

// ---- inbound ---------------------------------------------------------------------------

/// What a transition leads to, and why it failed if it did.
pub struct Outcome {
    pub a: AssociationModel,
    pub fault: Option<Error>,
}

/// A transition that went well.
pub open spec fn done(a: AssociationModel) -> Outcome {
    Outcome { a, fault: None }
}

/// A transition that failed.
pub open spec fn failed(a: AssociationModel, fault: Error) -> Outcome {
    Outcome { a, fault: Some(fault) }
}

/// The peer broke the protocol.
pub open spec fn broken(a: AssociationModel) -> Outcome {
    done(closed(a, CloseReason::ProtocolError))
}

/// An SPDU is sent if it has an encoding.
pub open spec fn handed(a: AssociationModel, s: SpduModel) -> Outcome {
    match spdu_fault(s) {
        Some(f) => failed(a, f),
        None => done(sent(a, spdu_bytes(s))),
    }
}

/// The peer released the association: confirm, and it is over.
pub open spec fn peer_finished(a: AssociationModel) -> AssociationModel {
    closed(
        sent(a, spdu_bytes(release_spdu(a.acse_context, true))),
        CloseReason::PeerReleased,
    )
}

/// An MMS PDU arrived.
pub open spec fn delivered(a: AssociationModel, bytes: Seq<u8>) -> AssociationModel {
    match mms_of(bytes, a.cfg.limits) {
        Err(e) => emitted(
            AssociationModel {
                stats: AssociationStats { malformed: bump(a.stats.malformed), ..a.stats },
                ..a
            },
            EventModel::Malformed(e),
        ),
        Ok(m) => match m {
            MmsModel::ConfirmedResponse { invoke_id, .. } => answered(a, invoke_id, bytes),
            MmsModel::ConfirmedError { invoke_id, .. } => answered(a, invoke_id, bytes),
            MmsModel::ConfirmedRequest { invoke_id, .. } => emitted(
                a,
                EventModel::Request { invoke_id, pdu: bytes },
            ),
            MmsModel::Unconfirmed(_) => emitted(
                AssociationModel {
                    stats: AssociationStats {
                        reports_received: bump(a.stats.reports_received),
                        ..a.stats
                    },
                    ..a
                },
                EventModel::Unconfirmed { pdu: bytes },
            ),
            MmsModel::Reject(reject) => rejected(a, reject),
            MmsModel::ConcludeRequest => concluded(a),
            MmsModel::ConcludeResponse => closed(a, CloseReason::Released),
            _ => emitted(a, EventModel::Unconfirmed { pdu: bytes }),
        },
    }
}

/// The peer concluded: confirm, and the association is over.
pub open spec fn concluded(a: AssociationModel) -> AssociationModel {
    closed(
        carried(a, a.mms_context, pdu_bytes(MmsModel::ConcludeResponse)),
        CloseReason::PeerReleased,
    )
}

/// A request was answered, and its identifier is free again.
pub open spec fn answered(a: AssociationModel, invoke_id: i64, bytes: Seq<u8>) -> AssociationModel {
    emitted(
        AssociationModel {
            outstanding: a.outstanding.remove(invoke_id),
            stats: AssociationStats {
                responses_received: bump(a.stats.responses_received),
                ..a.stats
            },
            ..a
        },
        EventModel::Response { invoke_id, pdu: bytes },
    )
}

/// The peer rejected a PDU. If it named a request, that one is answered.
pub open spec fn rejected(a: AssociationModel, reject: Reject) -> AssociationModel {
    emitted(
        AssociationModel {
            outstanding: match reject.original_invoke_id {
                Some(id) => a.outstanding.remove(id),
                None => a.outstanding,
            },
            stats: AssociationStats { rejected: bump(a.stats.rejected), ..a.stats },
            ..a
        },
        EventModel::Rejected { invoke_id: reject.original_invoke_id, reject },
    )
}

/// The PDV lists from index `i` on arrived. A release or an abort ends the walk.
pub open spec fn walked(a: AssociationModel, pdvs: Seq<PdvModel>, i: nat) -> AssociationModel
    decreases pdvs.len() - i,
{
    if i >= pdvs.len() {
        a
    } else {
        match single_of(pdvs[i as int].values) {
            None => walked(a, pdvs, i + 1),
            Some(value) => if pdvs[i as int].context_id == a.acse_context {
                match apdu_of(value) {
                    Ok(ApduModel::Release(_)) => peer_finished(a),
                    Ok(ApduModel::ReleaseResponse(_)) => closed(a, CloseReason::Released),
                    Ok(ApduModel::Abort(_)) => closed(a, CloseReason::Aborted),
                    _ => walked(a, pdvs, i + 1),
                }
            } else {
                walked(delivered(a, value), pdvs, i + 1)
            },
        }
    }
}

/// A PDU arrived after the handshake.
pub open spec fn on_user_data(a: AssociationModel, b: Seq<u8>) -> Outcome {
    match ppdu_of(b, false) {
        Err(e) => failed(a, e),
        Ok(PpduModel::UserData(pdvs)) => done(walked(a, pdvs, 0)),
        Ok(_) => broken(a),
    }
}

/// A number as a length, zero where it is none.
pub open spec fn as_length(v: Option<i64>) -> usize {
    match v {
        Some(n) => if 0 <= n <= usize::MAX {
            n as usize
        } else {
            0
        },
        None => 0,
    }
}

/// A number within a range.
pub open spec fn within(v: usize, low: usize, high: usize) -> usize {
    if v < low {
        low
    } else if v > high {
        high
    } else {
        v
    }
}

/// The encoded value of the first PDV list in a context.
pub open spec fn value_in(pdvs: Seq<PdvModel>, context: u16, i: nat) -> Option<Seq<u8>>
    decreases pdvs.len() - i,
{
    if i >= pdvs.len() {
        None
    } else if pdvs[i as int].context_id == context {
        single_of(pdvs[i as int].values)
    } else {
        value_in(pdvs, context, i + 1)
    }
}

/// A context, or the usual one where it was not defined.
pub open spec fn context_or(c: Option<u16>, usual: u16) -> u16 {
    match c {
        Some(c) => c,
        None => usual,
    }
}

/// The most requests an end may have outstanding, at least one.
pub open spec fn own_budget(cfg: ConfigModel) -> usize {
    if cfg.max_outstanding == 0 {
        1
    } else {
        cfg.max_outstanding as usize
    }
}

/// What an end that knows the peer's proposal has agreed on.
pub open spec fn agreement(a: AssociationModel, max_outstanding: usize) -> Negotiated {
    Negotiated {
        max_pdu: if a.peer_max_pdu == 0 {
            a.cfg.max_pdu as usize
        } else {
            a.peer_max_pdu
        },
        max_outstanding,
        tpdu_data: a.tpdu_data,
        mms_context: a.mms_context,
    }
}

/// A server got the proposal of a client.
pub open spec fn on_proposal(a: AssociationModel, contexts: nat, peer: InitiateModel) -> Outcome {
    let b = AssociationModel { peer_max_pdu: as_length(peer.local_detail), ..a };
    let mine = within(
        as_length(Some(peer.max_serv_outstanding_called)),
        1,
        own_budget(a.cfg),
    );
    let o = handed(b, accept_spdu(a.cfg, contexts, a.mms_context, a.acse_context, peer));
    match o.fault {
        Some(_) => o,
        None => done(established(o.a, agreement(o.a, mine))),
    }
}

/// A server got the AARQ of a client.
pub open spec fn on_aarq(a: AssociationModel, contexts: nat, aarq: Seq<u8>) -> Outcome {
    match apdu_of(aarq) {
        Err(e) => failed(a, e),
        Ok(ApduModel::Associate(r)) => match r.user_information {
            None => failed(a, Error::InvalidValue("AARQ carries no Initiate")),
            Some(u) => match mms_of(u.value, a.cfg.limits) {
                Err(e) => failed(a, e),
                Ok(MmsModel::InitiateRequest(peer)) => on_proposal(a, contexts, peer),
                Ok(_) => broken(a),
            },
        },
        Ok(_) => broken(a),
    }
}

/// A session CONNECT arrived.
pub open spec fn on_session_connect(a: AssociationModel, b: Seq<u8>) -> Outcome {
    if a.role != Role::Server {
        broken(a)
    } else {
        match ppdu_of(b, true) {
            Err(e) => failed(a, e),
            Ok(PpduModel::Connect(cp)) => {
                let c = AssociationModel {
                    mms_context: context_or(
                        context_from(cp.contexts, mms_syntax(), 0),
                        MMS_CONTEXT,
                    ),
                    acse_context: context_or(
                        context_from(cp.contexts, acse_syntax(), 0),
                        ACSE_CONTEXT,
                    ),
                    ..a
                };
                match value_in(cp.user_data, c.acse_context, 0) {
                    None => failed(c, Error::InvalidValue("CP carries no ACSE PDU")),
                    Some(aarq) => on_aarq(c, cp.contexts.len(), aarq),
                }
            },
            Ok(_) => broken(a),
        }
    }
}

/// The first result from index `i` on that is no acceptance.
pub open spec fn refusal_in(s: Seq<ContextResultModel>, i: nat) -> Option<i64>
    decreases s.len() - i,
{
    if i >= s.len() {
        None
    } else if s[i as int].result != RESULT_ACCEPTANCE {
        Some(s[i as int].result)
    } else {
        refusal_in(s, i + 1)
    }
}

/// A client got the AARE of a server.
pub open spec fn on_aare(a: AssociationModel, aare: Seq<u8>) -> Outcome {
    match apdu_of(aare) {
        Err(e) => failed(a, e),
        Ok(ApduModel::AssociateResponse(r)) => if r.result != Some(RESULT_ACCEPTED) {
            done(refused(a, "acse", r.result))
        } else {
            match r.user_information {
                None => failed(a, Error::InvalidValue("AARE carries no Initiate response")),
                Some(u) => match mms_of(u.value, a.cfg.limits) {
                    Err(e) => failed(a, e),
                    Ok(MmsModel::InitiateResponse(peer)) => {
                        let b = AssociationModel {
                            peer_max_pdu: as_length(peer.local_detail),
                            ..a
                        };
                        let mine = within(
                            as_length(Some(peer.max_serv_outstanding_calling)),
                            1,
                            own_budget(a.cfg),
                        );
                        done(established(b, agreement(b, mine)))
                    },
                    Ok(MmsModel::InitiateError(_)) => done(refused(a, "mms", None)),
                    Ok(_) => broken(a),
                },
            }
        },
        Ok(_) => broken(a),
    }
}

/// A session ACCEPT arrived.
pub open spec fn on_session_accept(a: AssociationModel, b: Seq<u8>) -> Outcome {
    if a.role != Role::Client {
        broken(a)
    } else {
        match ppdu_of(b, true) {
            Err(e) => failed(a, e),
            Ok(PpduModel::Accept(cp)) => if cp.results.len() == 0 || refusal_in(
                cp.results,
                0,
            ) is Some {
                done(refused(a, "presentation", refusal_in(cp.results, 0)))
            } else {
                match value_in(cp.user_data, a.acse_context, 0) {
                    None => failed(a, Error::InvalidValue("CPA carries no ACSE PDU")),
                    Some(aare) => on_aare(a, aare),
                }
            },
            Ok(PpduModel::Reject(cp)) => done(refused(a, "presentation", cp.provider_reason)),
            Ok(_) => broken(a),
        }
    }
}

/// A whole TSDU arrived.
#[verifier::opaque]
pub open spec fn on_tsdu(a: AssociationModel, tsdu: Seq<u8>) -> Outcome {
    match spdu_of(tsdu) {
        Err(e) => failed(a, e),
        Ok(s) => match s {
            SpduModel::Connect(c) => on_session_connect(a, c.user_data),
            SpduModel::Accept(c) => on_session_accept(a, c.user_data),
            SpduModel::Refuse { reason, .. } => done(
                refused(
                    a,
                    "session",
                    match reason {
                        Some(r) => Some(r as i64),
                        None => None,
                    },
                ),
            ),
            SpduModel::DataTransfer(p) => on_user_data(a, p),
            SpduModel::Finish(_) => done(peer_finished(a)),
            SpduModel::Disconnect(_) => done(closed(a, CloseReason::Released)),
            SpduModel::Abort(_) => done(closed(a, CloseReason::Aborted)),
            SpduModel::AbortAccept => done(closed(a, CloseReason::Aborted)),
            SpduModel::Other { .. } => broken(a),
        },
    }
}

/// The TPDU size that both ends can use: class 0 negotiates down.
pub open spec fn agreed_exp(a: AssociationModel, c: cotp::ConnectModel) -> u8 {
    let theirs: u8 = match c.tpdu_size_exp {
        Some(e) => e,
        None => 7,
    };
    if theirs <= a.cfg.tpdu_size_exp {
        theirs
    } else {
        a.cfg.tpdu_size_exp
    }
}

/// What is known of the peer after its CR or CC.
pub open spec fn acquainted(a: AssociationModel, c: cotp::ConnectModel) -> AssociationModel {
    AssociationModel {
        tpdu_data: data_size(agreed_exp(a, c)),
        peer_ref: c.src_ref,
        ..a
    }
}

/// The CC that answers a CR.
pub open spec fn confirm_of(a: AssociationModel, c: cotp::ConnectModel) -> cotp::ConnectModel {
    cotp::ConnectModel {
        dst_ref: c.src_ref,
        src_ref: LOCAL_REF,
        class_options: 0,
        tpdu_size_exp: Some(agreed_exp(a, c)),
        src_tsel: c.dst_tsel,
        dst_tsel: c.src_tsel,
    }
}

/// A CR arrived.
pub open spec fn on_connection_request(
    a: AssociationModel,
    now: Instant,
    c: cotp::ConnectModel,
) -> Outcome {
    if a.role != Role::Server {
        broken(a)
    } else {
        let b = acquainted(a, c);
        match connect_fault(confirm_of(a, c)) {
            Some(f) => failed(b, f),
            None => done(
                armed(
                    AssociationModel {
                        state: State::Associating,
                        ..queued(b, tpdu_bytes(TpduModel::ConnectionConfirm(confirm_of(a, c))))
                    },
                    now,
                ),
            ),
        }
    }
}

/// A CC arrived.
pub open spec fn on_connection_confirm(a: AssociationModel, c: cotp::ConnectModel) -> Outcome {
    if a.role != Role::Client || a.state != State::Connecting {
        broken(a)
    } else {
        handed(
            AssociationModel { state: State::Associating, ..acquainted(a, c) },
            connect_spdu(a.cfg),
        )
    }
}

/// A TPDU arrived.
#[verifier::opaque]
pub open spec fn on_tpdu(a: AssociationModel, now: Instant, tpdu: Seq<u8>) -> Outcome {
    match tpdu_of(tpdu) {
        Err(e) => failed(a, e),
        Ok(t) => match t {
            TpduModel::ConnectionRequest(c) => on_connection_request(a, now, c),
            TpduModel::ConnectionConfirm(c) => on_connection_confirm(a, c),
            TpduModel::DisconnectRequest { .. } => done(closed(a, CloseReason::Aborted)),
            TpduModel::Data { eot, payload } => {
                let r = reassembled(a.parts, a.cfg.max_tsdu, eot, payload);
                match r.0 {
                    Err(e) => failed(AssociationModel { parts: r.1, ..a }, e),
                    Ok(None) => done(AssociationModel { parts: r.1, ..a }),
                    Ok(Some(tsdu)) => on_tsdu(AssociationModel { parts: Seq::empty(), ..a }, tsdu),
                }
            },
            TpduModel::Other { .. } => broken(a),
        },
    }
}

/// What a transition settles on. One that failed ends the association.
pub open spec fn settled(o: Outcome) -> AssociationModel {
    match o.fault {
        None => o.a,
        Some(e) => closed(
            emitted(
                AssociationModel {
                    stats: AssociationStats { malformed: bump(o.a.stats.malformed), ..o.a.stats },
                    ..o.a
                },
                EventModel::Malformed(e),
            ),
            CloseReason::ProtocolError,
        ),
    }
}

/// `n` more packets were received.
pub open spec fn packets(a: AssociationModel, n: nat) -> AssociationModel {
    AssociationModel {
        stats: AssociationStats {
            packets_received: if a.stats.packets_received + n > u64::MAX {
                u64::MAX
            } else {
                (a.stats.packets_received + n) as u64
            },
            ..a.stats
        },
        ..a
    }
}

/// What a TPDU leads to.
pub open spec fn after_tpdu(a: AssociationModel, now: Instant, tpdu: Seq<u8>) -> AssociationModel {
    settled(on_tpdu(packets(a, 1), now, tpdu))
}

/// The whole packets of a stream arrived, until the association is over.
pub open spec fn received(a: AssociationModel, now: Instant, stream: Seq<u8>) -> AssociationModel
    decreases stream.len(),
{
    let (t, rest) = take_tpdu(stream);
    match t {
        Err(_) => closed(AssociationModel { pending: stream, ..a }, CloseReason::ProtocolError),
        Ok(None) => AssociationModel { pending: stream, ..a },
        Ok(Some(tpdu)) => {
            let b = after_tpdu(AssociationModel { pending: rest, ..a }, now, tpdu);
            if b.state == State::Closed {
                b
            } else {
                received(b, now, rest)
            }
        },
    }
}

// ---- what the application asks for -----------------------------------------------------

/// Bytes arrived from the transport.
pub open spec fn after_bytes(
    a: AssociationModel,
    now: Instant,
    bytes: Seq<u8>,
) -> AssociationModel {
    if a.state == State::Closed {
        a
    } else {
        received(a, now, a.pending + bytes)
    }
}

/// The CR a client opens with.
pub open spec fn opening(cfg: ConfigModel) -> cotp::ConnectModel {
    cotp::ConnectModel {
        dst_ref: 0,
        src_ref: LOCAL_REF,
        class_options: 0,
        tpdu_size_exp: Some(clamped(cfg.tpdu_size_exp)),
        src_tsel: Some(cfg.local.t_sel),
        dst_tsel: Some(cfg.remote.t_sel),
    }
}

/// Why an association cannot be opened.
pub open spec fn start_fault(a: AssociationModel) -> Option<Error> {
    if a.role != Role::Client {
        Some(Error::InvalidValue("only a client association starts a connection"))
    } else if a.state != State::Idle {
        Some(Error::InvalidValue("association already started"))
    } else {
        connect_fault(opening(a.cfg))
    }
}

/// The association is being opened.
pub open spec fn after_start(a: AssociationModel, now: Instant) -> AssociationModel {
    armed(
        AssociationModel {
            state: State::Connecting,
            ..queued(a, tpdu_bytes(TpduModel::ConnectionRequest(opening(a.cfg))))
        },
        now,
    )
}

/// The requests `ids` went unanswered, in this order.
pub open spec fn timed_out(a: AssociationModel, ids: Seq<i64>) -> AssociationModel
    decreases ids.len(),
{
    if ids.len() == 0 {
        a
    } else {
        timed_out(
            emitted(
                AssociationModel {
                    outstanding: a.outstanding.remove(ids[0]),
                    stats: AssociationStats { timeouts: bump(a.stats.timeouts), ..a.stats },
                    ..a
                },
                EventModel::Timeout { invoke_id: ids[0] },
            ),
            ids.skip(1),
        )
    }
}

/// Time passed.
pub open spec fn after_timeout(a: AssociationModel, now: Instant) -> AssociationModel {
    let late = a.connect_deadline matches Some(d) && now.nanos >= d.nanos;
    if late && a.state == State::Releasing {
        closed(a, CloseReason::Released)
    } else if late && a.state != State::Established && a.state != State::Closed {
        closed(a, CloseReason::ConnectTimeout)
    } else if a.cfg.request_timeout_ms == 0 {
        a
    } else {
        timed_out(a, ascending(due(a.outstanding, now)))
    }
}

/// The sooner of two deadlines.
pub open spec fn sooner(a: Option<Instant>, b: Option<Instant>) -> Option<Instant> {
    match (a, b) {
        (Some(x), Some(y)) => if y.nanos < x.nanos {
            b
        } else {
            a
        },
        (Some(_), None) => a,
        (None, _) => b,
    }
}

/// The next deadline.
pub open spec fn deadline(a: AssociationModel) -> Option<Instant> {
    sooner(
        if a.state == State::Established || a.state == State::Closed {
            None
        } else {
            a.connect_deadline
        },
        if a.cfg.request_timeout_ms == 0 {
            None
        } else {
            earliest(a.outstanding)
        },
    )
}

/// A confirmed request is issued: its identifier, or why it is not, and what follows.
pub open spec fn called(
    a: AssociationModel,
    now: Instant,
    service: ConfirmedRequestModel,
) -> (Result<i64, Error>, AssociationModel) {
    if a.state != State::Established {
        (Err(not_established()), a)
    } else if a.outstanding.len() >= budget(a) {
        (
            Err(
                Error::LimitExceeded {
                    limit: "max_outstanding",
                    value: sat_add(1, a.outstanding.len()),
                },
            ),
            a,
        )
    } else {
        let (id, next) = free_id(a.next_invoke, a.outstanding, a.outstanding.len() + 1);
        let b = AssociationModel { next_invoke: next, ..a };
        let m = MmsModel::ConfirmedRequest { invoke_id: id, service };
        match send_fault(b, m) {
            Some(f) => (Err(f), b),
            None => {
                let c = after_send(b, m);
                (
                    Ok(id),
                    AssociationModel {
                        outstanding: a.outstanding.insert(
                            id,
                            later(now, a.cfg.request_timeout_ms as nat),
                        ),
                        stats: AssociationStats {
                            requests_sent: bump(c.stats.requests_sent),
                            ..c.stats
                        },
                        ..c
                    },
                )
            },
        }
    }
}

/// A release is in flight.
pub open spec fn after_release(a: AssociationModel, now: Instant) -> AssociationModel {
    AssociationModel {
        state: State::Releasing,
        connect_deadline: Some(later(now, a.cfg.connect_timeout_ms as nat)),
        ..sent(a, spdu_bytes(release_spdu(a.acse_context, false)))
    }
}

/// An orderly release is asked for, which takes an association.
pub open spec fn released(a: AssociationModel, now: Instant) -> (
    Result<(), Error>,
    AssociationModel,
) {
    if a.state == State::Established {
        (Ok(()), after_release(a, now))
    } else {
        (Err(not_established()), a)
    }
}

/// The transport is being taken down, and the association is over.
pub open spec fn aborted(a: AssociationModel) -> AssociationModel {
    if a.state == State::Closed {
        a
    } else {
        closed(
            queued(
                a,
                tpdu_bytes(
                    TpduModel::DisconnectRequest {
                        dst_ref: a.peer_ref,
                        src_ref: LOCAL_REF,
                        reason: 0,
                    },
                ),
            ),
            CloseReason::Aborted,
        )
    }
}

/// A packet was handed to the transport.
pub open spec fn transmitted(a: AssociationModel) -> AssociationModel {
    if a.out.len() == 0 {
        a
    } else {
        AssociationModel {
            out: a.out.skip(1),
            stats: AssociationStats { packets_sent: bump(a.stats.packets_sent), ..a.stats },
            ..a
        }
    }
}

/// An event was handed to the application.
pub open spec fn drained(a: AssociationModel) -> AssociationModel {
    AssociationModel {
        events: popped(a.events),
        stats: AssociationStats { events_dropped: a.events.dropped, ..a.stats },
        ..a
    }
}

} // verus!
