//! Every step keeps an association valid.

use vstd::prelude::*;
use crate::common::Instant;
use crate::common::queue::{bump, lemma_queue};
use crate::proto::mms::association::laws::lemma_free_id;
use crate::proto::mms::association::machine::{
    aborted, after_bytes, after_release, after_send, after_start, after_timeout, after_tpdu, agreed,
    agreed_exp, budget, called, closed, context_or, data_size, delivered, drained, emitted, fresh,
    on_aare, on_aarq, on_proposal, on_session_accept, on_session_connect, on_tpdu, on_tsdu, packets,
    peer_finished, received, refusal_in, release_spdu, sent, settled, sound, start_fault, timed_out,
    transmitted, unasked, valid, value_in, walked, AssociationModel, Outcome,
};
use crate::proto::mms::association::types::{
    AssociationStats, CloseReason, ConfigModel, EventModel, Role, State, ACSE_CONTEXT, MMS_CONTEXT,
};
use crate::proto::mms::initiate::InitiateModel;
use crate::proto::mms::outstanding::{ascending, due};
use crate::proto::mms::pdu::{mms_of, MmsModel};
use crate::proto::mms::request::ConfirmedRequestModel;
use crate::proto::osi::acse::{apdu_of, ApduModel};
use crate::proto::osi::cotp::{clamped, pow2, reassembled, tpdu_of, TpduModel};
use crate::proto::osi::oid::{acse_syntax, mms_syntax};
use crate::proto::osi::presentation::{context_from, ppdu_of, single_of, PdvModel, PpduModel};
use crate::proto::osi::session::{spdu_bytes, spdu_of, SpduModel};
use crate::proto::osi::tpkt::take_tpdu;

verus! {

/// What a transition leads to: a valid association, or, where it failed, one that is valid once
/// it is over.
pub open spec fn keeps(o: Outcome) -> bool {
    sound(o.a) && unasked(o.a) && (o.fault is None ==> agreed(o.a))
}

proof fn lemma_data_size(exp: u8)
    ensures
        125 <= data_size(exp) <= 8189,
{
    reveal_with_fuel(pow2, 14);
    assert(7 <= clamped(exp) <= 13);
}

proof fn lemma_emitted(a: AssociationModel, event: EventModel)
    requires
        sound(a),
    ensures
        sound(emitted(a, event)),
        unasked(a) ==> unasked(emitted(a, event)),
        agreed(a) ==> agreed(emitted(a, event)),
{
    lemma_queue(a.events, event);
}

proof fn lemma_closed(a: AssociationModel, reason: CloseReason)
    requires
        sound(a),
        unasked(a),
    ensures
        valid(closed(a, reason)),
{
    let b = AssociationModel {
        state: State::Closed,
        connect_deadline: None,
        outstanding: Map::empty(),
        parts: Seq::empty(),
        ..a
    };
    assert(b.outstanding.dom() =~= Set::<i64>::empty());
    lemma_emitted(b, EventModel::Closed(reason));
}

proof fn lemma_refused(a: AssociationModel, layer: &'static str, code: Option<i64>)
    requires
        sound(a),
        unasked(a),
    ensures
        valid(
            closed(emitted(a, EventModel::Refused { layer, code }), CloseReason::Refused),
        ),
{
    lemma_emitted(a, EventModel::Refused { layer, code });
    lemma_closed(emitted(a, EventModel::Refused { layer, code }), CloseReason::Refused);
}

proof fn lemma_settled(o: Outcome)
    requires
        keeps(o),
    ensures
        valid(settled(o)),
{
    if let Some(e) = o.fault {
        let b = AssociationModel {
            stats: AssociationStats {
                malformed: bump(o.a.stats.malformed),
                ..o.a.stats
            },
            ..o.a
        };
        lemma_emitted(b, EventModel::Malformed(e));
        lemma_closed(emitted(b, EventModel::Malformed(e)), CloseReason::ProtocolError);
    }
}

proof fn lemma_delivered(a: AssociationModel, bytes: Seq<u8>)
    requires
        valid(a),
    ensures
        valid(delivered(a, bytes)),
{
    match mms_of(bytes, a.cfg.limits) {
        Err(e) => lemma_queue(a.events, EventModel::Malformed(e)),
        Ok(m) => match m {
            MmsModel::ConfirmedResponse { invoke_id, .. } => {
                lemma_queue(a.events, EventModel::Response { invoke_id, pdu: bytes });
                lemma_removed(a, invoke_id);
            },
            MmsModel::ConfirmedError { invoke_id, .. } => {
                lemma_queue(a.events, EventModel::Response { invoke_id, pdu: bytes });
                lemma_removed(a, invoke_id);
            },
            MmsModel::ConfirmedRequest { invoke_id, .. } => {
                lemma_queue(a.events, EventModel::Request { invoke_id, pdu: bytes });
            },
            MmsModel::Reject(reject) => {
                lemma_queue(
                    a.events,
                    EventModel::Rejected { invoke_id: reject.original_invoke_id, reject },
                );
                if let Some(id) = reject.original_invoke_id {
                    lemma_removed(a, id);
                }
            },
            MmsModel::ConcludeRequest => lemma_queue(
                a.events,
                EventModel::Closed(CloseReason::PeerReleased),
            ),
            MmsModel::ConcludeResponse => lemma_closed(a, CloseReason::Released),
            _ => lemma_queue(a.events, EventModel::Unconfirmed { pdu: bytes }),
        },
    }
    assert(Map::<i64, Instant>::empty().dom() =~= Set::<i64>::empty());
}

proof fn lemma_removed(a: AssociationModel, id: i64)
    requires
        valid(a),
    ensures
        valid(AssociationModel { outstanding: a.outstanding.remove(id), ..a }),
{
    let b = a.outstanding.remove(id);
    assert(b.dom() =~= a.outstanding.dom().remove(id));
    if a.outstanding.dom() == Set::<i64>::empty() {
        assert(b.dom() =~= Set::<i64>::empty());
    }
}

proof fn lemma_walked(a: AssociationModel, pdvs: Seq<PdvModel>, i: nat)
    requires
        valid(a),
    ensures
        valid(walked(a, pdvs, i)),
    decreases pdvs.len() - i,
{
    if i < pdvs.len() {
        lemma_walked(a, pdvs, i + 1);
        lemma_finished(a);
        lemma_closed(a, CloseReason::Released);
        lemma_closed(a, CloseReason::Aborted);
        if let Some(v) = single_of(pdvs[i as int].values) {
            lemma_delivered(a, v);
            lemma_walked(delivered(a, v), pdvs, i + 1);
        }
    }
}

proof fn lemma_finished(a: AssociationModel)
    requires
        sound(a),
        unasked(a),
    ensures
        valid(peer_finished(a)),
{
    let b = sent(a, spdu_bytes(release_spdu(a.acse_context, true)));
    lemma_closed(b, CloseReason::PeerReleased);
}

proof fn lemma_proposal(a: AssociationModel, contexts: nat, peer: InitiateModel)
    requires
        sound(a),
        unasked(a),
    ensures
        keeps(on_proposal(a, contexts, peer)),
{
    let o = on_proposal(a, contexts, peer);
    if o.fault is None {
        lemma_queue(a.events, EventModel::Established(o.a.negotiated->Some_0));
    }
}

proof fn lemma_aarq(a: AssociationModel, contexts: nat, aarq: Seq<u8>)
    requires
        sound(a),
        unasked(a),
    ensures
        keeps(on_aarq(a, contexts, aarq)),
{
    lemma_closed(a, CloseReason::ProtocolError);
    if let Ok(ApduModel::Associate(r)) = apdu_of(aarq) {
        if let Some(u) = r.user_information {
            if let Ok(MmsModel::InitiateRequest(peer)) = mms_of(u.value, a.cfg.limits) {
                lemma_proposal(a, contexts, peer);
            }
        }
    }
}

proof fn lemma_session_connect(a: AssociationModel, b: Seq<u8>)
    requires
        valid(a),
    ensures
        keeps(on_session_connect(a, b)),
{
    lemma_closed(a, CloseReason::ProtocolError);
    if let Ok(PpduModel::Connect(cp)) = ppdu_of(b, true) {
        let c = AssociationModel {
            mms_context: context_or(context_from(cp.contexts, mms_syntax(), 0), MMS_CONTEXT),
            acse_context: context_or(context_from(cp.contexts, acse_syntax(), 0), ACSE_CONTEXT),
            ..a
        };
        if let Some(aarq) = value_in(cp.user_data, c.acse_context, 0) {
            lemma_aarq(c, cp.contexts.len(), aarq);
        }
    }
}

proof fn lemma_aare(a: AssociationModel, aare: Seq<u8>)
    requires
        valid(a),
    ensures
        keeps(on_aare(a, aare)),
{
    lemma_closed(a, CloseReason::ProtocolError);
    lemma_refused(a, "mms", None);
    let o = on_aare(a, aare);
    if let Ok(ApduModel::AssociateResponse(r)) = apdu_of(aare) {
        lemma_refused(a, "acse", r.result);
    }
    if o.fault is None && o.a.state == State::Established {
        lemma_queue(a.events, EventModel::Established(o.a.negotiated->Some_0));
    }
}

proof fn lemma_session_accept(a: AssociationModel, b: Seq<u8>)
    requires
        valid(a),
    ensures
        keeps(on_session_accept(a, b)),
{
    lemma_closed(a, CloseReason::ProtocolError);
    if let Ok(PpduModel::Accept(cp)) = ppdu_of(b, true) {
        lemma_refused(a, "presentation", refusal_in(cp.results, 0));
        if let Some(aare) = value_in(cp.user_data, a.acse_context, 0) {
            lemma_aare(a, aare);
        }
    }
    if let Ok(PpduModel::Reject(cp)) = ppdu_of(b, true) {
        lemma_refused(a, "presentation", cp.provider_reason);
    }
}

proof fn lemma_tsdu(a: AssociationModel, tsdu: Seq<u8>)
    requires
        valid(a),
    ensures
        keeps(on_tsdu(a, tsdu)),
{
    reveal(on_tsdu);
    lemma_closed(a, CloseReason::ProtocolError);
    lemma_closed(a, CloseReason::Released);
    lemma_closed(a, CloseReason::Aborted);
    lemma_finished(a);
    if let Ok(s) = spdu_of(tsdu) {
        match s {
            SpduModel::Connect(c) => lemma_session_connect(a, c.user_data),
            SpduModel::Accept(c) => lemma_session_accept(a, c.user_data),
            SpduModel::Refuse { reason, .. } => lemma_refused(
                a,
                "session",
                match reason {
                    Some(r) => Some(r as i64),
                    None => None,
                },
            ),
            SpduModel::DataTransfer(p) => {
                if let Ok(PpduModel::UserData(pdvs)) = ppdu_of(p, false) {
                    lemma_walked(a, pdvs, 0);
                }
            },
            _ => {},
        }
    }
}

/// A TPDU keeps an association valid, unless it fails: then it is valid once it is over.
pub proof fn lemma_tpdu_keeps(a: AssociationModel, now: Instant, tpdu: Seq<u8>)
    requires
        valid(a),
    ensures
        keeps(on_tpdu(a, now, tpdu)),
{
    reveal(on_tpdu);
    lemma_closed(a, CloseReason::ProtocolError);
    lemma_closed(a, CloseReason::Aborted);
    if let Ok(t) = tpdu_of(tpdu) {
        match t {
            TpduModel::ConnectionRequest(c) => lemma_data_size(agreed_exp(a, c)),
            TpduModel::ConnectionConfirm(c) => lemma_data_size(agreed_exp(a, c)),
            TpduModel::Data { eot, payload } => {
                let r = reassembled(a.parts, a.cfg.max_tsdu, eot, payload);
                if let Ok(Some(tsdu)) = r.0 {
                    lemma_tsdu(AssociationModel { parts: Seq::empty(), ..a }, tsdu);
                }
            },
            _ => {},
        }
    }
}

proof fn lemma_received(a: AssociationModel, now: Instant, stream: Seq<u8>)
    requires
        valid(a),
    ensures
        valid(received(a, now, stream)),
    decreases stream.len(),
{
    let (t, rest) = take_tpdu(stream);
    match t {
        Err(_) => lemma_closed(
            AssociationModel { pending: stream, ..a },
            CloseReason::ProtocolError,
        ),
        Ok(None) => {},
        Ok(Some(tpdu)) => {
            let b = AssociationModel { pending: rest, ..a };
            lemma_tpdu_keeps(packets(b, 1), now, tpdu);
            lemma_settled(on_tpdu(packets(b, 1), now, tpdu));
            lemma_received(after_tpdu(b, now, tpdu), now, rest);
        },
    }
}

proof fn lemma_timed_out(a: AssociationModel, ids: Seq<i64>)
    requires
        valid(a),
    ensures
        valid(timed_out(a, ids)),
    decreases ids.len(),
{
    if ids.len() > 0 {
        lemma_removed(a, ids[0]);
        lemma_queue(a.events, EventModel::Timeout { invoke_id: ids[0] });
        let b = emitted(
            AssociationModel {
                outstanding: a.outstanding.remove(ids[0]),
                stats: AssociationStats {
                    timeouts: bump(a.stats.timeouts),
                    ..a.stats
                },
                ..a
            },
            EventModel::Timeout { invoke_id: ids[0] },
        );
        lemma_timed_out(b, ids.skip(1));
    }
}

/// A new association is valid.
pub proof fn lemma_fresh_valid(cfg: ConfigModel, role: Role)
    ensures
        valid(fresh(cfg, role)),
{
    lemma_data_size(cfg.tpdu_size_exp);
    assert(Map::<i64, Instant>::empty().dom() =~= Set::<i64>::empty());
}

/// What arrives keeps an association valid.
pub proof fn lemma_bytes_valid(a: AssociationModel, now: Instant, bytes: Seq<u8>)
    requires
        valid(a),
    ensures
        valid(after_bytes(a, now, bytes)),
{
    lemma_received(a, now, a.pending + bytes);
}

/// Time keeps an association valid.
pub proof fn lemma_timeout_valid(a: AssociationModel, now: Instant)
    requires
        valid(a),
    ensures
        valid(after_timeout(a, now)),
{
    lemma_closed(a, CloseReason::Released);
    lemma_closed(a, CloseReason::ConnectTimeout);
    lemma_timed_out(a, ascending(due(a.outstanding, now)));
}

/// A request keeps an association valid.
pub proof fn lemma_call_valid(a: AssociationModel, now: Instant, service: ConfirmedRequestModel)
    requires
        valid(a),
    ensures
        valid(called(a, now, service).1),
{
    if a.state == State::Established && a.outstanding.len()
        < budget(a) {
        lemma_free_id(a.next_invoke, a.outstanding);
    }
}

/// Whatever else the application does keeps an association valid.
pub proof fn lemma_rest_valid(a: AssociationModel, now: Instant, m: MmsModel)
    requires
        valid(a),
    ensures
        start_fault(a) is None ==> valid(after_start(a, now)),
        valid(after_send(a, m)),
        a.state == State::Established ==> valid(after_release(a, now)),
        valid(aborted(a)),
        valid(transmitted(a)),
        valid(drained(a)),
{
    lemma_queue(a.events, EventModel::Closed(CloseReason::Aborted));
    assert(Map::<i64, Instant>::empty().dom() =~= Set::<i64>::empty());
}

} // verus!
