//! What an association does for each thing that happens to it.

use vstd::prelude::*;
use crate::common::{Error, Instant};
use crate::common::queue::{bounded, lemma_queue};
use crate::proto::mms::association::laws::lemma_free_id;
use crate::proto::mms::association::machine::{
    aborted, after_release, after_send, after_timeout, called, carried, closed, deadline, delivered,
    drained, emitted, encoded_fault, on_tsdu, packets, received, release_spdu, released, segments,
    send_fault, sent, settled, timed_out, transmitted, valid, walked, AssociationModel, Outcome,
};
use crate::proto::mms::association::types::{AssociationStats, CloseReason, EventModel, State};
use crate::proto::mms::outstanding::{ascending, due, is_earliest, lemma_ascends, lemma_earliest};
use crate::proto::mms::pdu::{mms_of, pdu_bytes, pdu_fault, MmsModel};
use crate::proto::mms::request::ConfirmedRequestModel;
use crate::proto::osi::acse::{apdu_of, ApduModel};
use crate::proto::osi::cotp::{tpdu_bytes, TpduModel};
use crate::proto::osi::presentation::{single_of, PdvModel};
use crate::proto::osi::session::{spdu_bytes, spdu_of, SpduModel};
use crate::proto::osi::tpkt::{packet, take_tpdu};

verus! {

/// A count one higher, up to its end.
pub open spec fn one_more(n: u64) -> u64 {
    if n == 0xFFFF_FFFF_FFFF_FFFF {
        n
    } else {
        (n + 1) as u64
    }
}

/// The instant that many milliseconds on, up to the last one.
pub open spec fn in_time(now: Instant, ms: u64) -> Instant {
    if now.nanos + 1_000_000 * ms <= 0xFFFF_FFFF_FFFF_FFFF {
        Instant { nanos: (now.nanos + 1_000_000 * ms) as u64 }
    } else {
        Instant { nanos: 0xFFFF_FFFF_FFFF_FFFF }
    }
}

/// Whether all that happened between two states, besides what is given, is that the application was
/// told of an event: it is the newest, and where there was no room the oldest made way.
pub open spec fn told(a: AssociationModel, b: AssociationModel, event: EventModel) -> bool {
    let room = a.events.items.len() < a.events.capacity;
    &&& b.events.capacity == a.events.capacity
    &&& room ==> b.events.items == a.events.items.push(event) && b.events.dropped
        == a.events.dropped
    &&& !room ==> b.events.items == a.events.items.skip(1).push(event) && b.events.dropped
        == one_more(a.events.dropped)
    &&& b == (AssociationModel {
        events: b.events,
        stats: AssociationStats { events_dropped: b.events.dropped, ..a.stats },
        ..a
    })
}

/// An event goes behind those that wait, and pushes out the oldest where there is no room.
pub proof fn lemma_told(a: AssociationModel, event: EventModel)
    requires
        bounded(a.events),
    ensures
        told(a, emitted(a, event), event),
{
}

// ---- what arrives ----------------------------------------------------------------------

/// A response or an error is handed up under its identifier. It frees that identifier and no other,
/// and counts as an answer.
pub proof fn lemma_answer(a: AssociationModel, bytes: Seq<u8>, id: i64)
    requires
        bounded(a.events),
        mms_of(bytes, a.cfg.limits) matches Ok(m) && ((m matches MmsModel::ConfirmedResponse {
            invoke_id,
            ..
        } && invoke_id == id) || (m matches MmsModel::ConfirmedError { invoke_id, .. } && invoke_id
            == id)),
    ensures
        told(
            AssociationModel {
                outstanding: a.outstanding.remove(id),
                stats: AssociationStats {
                    responses_received: one_more(a.stats.responses_received),
                    ..a.stats
                },
                ..a
            },
            delivered(a, bytes),
            EventModel::Response { invoke_id: id, pdu: bytes },
        ),
{
}

/// A request of the peer is handed up under its identifier. A report is handed up and counted. What
/// does not decode is counted and reported. Any other PDU is handed up as it is.
pub proof fn lemma_handed_up(a: AssociationModel, bytes: Seq<u8>)
    requires
        bounded(a.events),
    ensures
        ({
            let b = delivered(a, bytes);
            match mms_of(bytes, a.cfg.limits) {
                Ok(MmsModel::ConfirmedRequest { invoke_id, .. }) => told(
                    a,
                    b,
                    EventModel::Request { invoke_id, pdu: bytes },
                ),
                Ok(MmsModel::Unconfirmed(_)) => told(
                    AssociationModel {
                        stats: AssociationStats {
                            reports_received: one_more(a.stats.reports_received),
                            ..a.stats
                        },
                        ..a
                    },
                    b,
                    EventModel::Unconfirmed { pdu: bytes },
                ),
                Err(e) => told(
                    AssociationModel {
                        stats: AssociationStats { malformed: one_more(a.stats.malformed), ..a.stats },
                        ..a
                    },
                    b,
                    EventModel::Malformed(e),
                ),
                Ok(MmsModel::InitiateRequest(_)) => told(
                    a,
                    b,
                    EventModel::Unconfirmed { pdu: bytes },
                ),
                Ok(MmsModel::InitiateResponse(_)) => told(
                    a,
                    b,
                    EventModel::Unconfirmed { pdu: bytes },
                ),
                Ok(MmsModel::InitiateError(_)) => told(
                    a,
                    b,
                    EventModel::Unconfirmed { pdu: bytes },
                ),
                Ok(MmsModel::CancelRequest(_)) => told(
                    a,
                    b,
                    EventModel::Unconfirmed { pdu: bytes },
                ),
                Ok(MmsModel::CancelResponse(_)) => told(
                    a,
                    b,
                    EventModel::Unconfirmed { pdu: bytes },
                ),
                Ok(MmsModel::CancelError { .. }) => told(
                    a,
                    b,
                    EventModel::Unconfirmed { pdu: bytes },
                ),
                Ok(MmsModel::ConcludeError(_)) => told(
                    a,
                    b,
                    EventModel::Unconfirmed { pdu: bytes },
                ),
                Ok(MmsModel::Other(_)) => told(a, b, EventModel::Unconfirmed { pdu: bytes }),
                _ => true,
            }
        }),
{
}

/// A reject is handed up and counted. It frees the identifier that it names, if it names one.
pub proof fn lemma_rejected(a: AssociationModel, bytes: Seq<u8>)
    requires
        bounded(a.events),
        mms_of(bytes, a.cfg.limits) matches Ok(MmsModel::Reject(_)),
    ensures
        ({
            let r = mms_of(bytes, a.cfg.limits)->Ok_0->Reject_0;
            told(
                AssociationModel {
                    outstanding: if r.original_invoke_id is Some {
                        a.outstanding.remove(r.original_invoke_id->0)
                    } else {
                        a.outstanding
                    },
                    stats: AssociationStats { rejected: one_more(a.stats.rejected), ..a.stats },
                    ..a
                },
                delivered(a, bytes),
                EventModel::Rejected { invoke_id: r.original_invoke_id, reject: r },
            )
        }),
{
}

/// Whether an association ended between two states, for this reason: no request waits any more, no
/// deadline, no part of a TSDU, and the application is told why.
pub open spec fn ended(a: AssociationModel, b: AssociationModel, reason: CloseReason) -> bool {
    told(
        AssociationModel {
            state: State::Closed,
            connect_deadline: None,
            outstanding: Map::empty(),
            parts: Seq::empty(),
            ..a
        },
        b,
        EventModel::Closed(reason),
    )
}

/// An association ends once. What would end it again changes nothing.
pub proof fn lemma_ends_once(a: AssociationModel, reason: CloseReason, other: CloseReason)
    requires
        bounded(a.events),
        a.state != State::Closed,
    ensures
        ended(a, closed(a, reason), reason),
        closed(closed(a, reason), other) == closed(a, reason),
{
}

/// When the peer concludes, its request is confirmed in the context of MMS and the association is
/// over, released by the peer. When it confirms a conclusion the association is over, released.
pub proof fn lemma_concluded(a: AssociationModel, bytes: Seq<u8>)
    requires
        bounded(a.events),
        a.state != State::Closed,
    ensures
        mms_of(bytes, a.cfg.limits) matches Ok(MmsModel::ConcludeRequest) ==> ended(
            carried(a, a.mms_context, pdu_bytes(MmsModel::ConcludeResponse)),
            delivered(a, bytes),
            CloseReason::PeerReleased,
        ),
        mms_of(bytes, a.cfg.limits) matches Ok(MmsModel::ConcludeResponse) ==> ended(
            a,
            delivered(a, bytes),
            CloseReason::Released,
        ),
{
}

/// The values of a TSDU are taken one after the other. What is not in the context of ACSE is
/// delivered. A release there is confirmed and ends the association, released by the peer; its
/// confirmation ends it, released; an abort ends it, aborted. Anything else is passed over.
pub proof fn lemma_values_taken(a: AssociationModel, pdvs: Seq<PdvModel>, i: nat)
    requires
        bounded(a.events),
        a.state != State::Closed,
    ensures
        i >= pdvs.len() ==> walked(a, pdvs, i) == a,
        i < pdvs.len() ==> match single_of(pdvs[i as int].values) {
            None => walked(a, pdvs, i) == walked(a, pdvs, i + 1),
            Some(v) => if pdvs[i as int].context_id != a.acse_context {
                walked(a, pdvs, i) == walked(delivered(a, v), pdvs, i + 1)
            } else {
                match apdu_of(v) {
                    Ok(ApduModel::Release(_)) => ended(
                        sent(a, spdu_bytes(release_spdu(a.acse_context, true))),
                        walked(a, pdvs, i),
                        CloseReason::PeerReleased,
                    ),
                    Ok(ApduModel::ReleaseResponse(_)) => ended(
                        a,
                        walked(a, pdvs, i),
                        CloseReason::Released,
                    ),
                    Ok(ApduModel::Abort(_)) => ended(a, walked(a, pdvs, i), CloseReason::Aborted),
                    _ => walked(a, pdvs, i) == walked(a, pdvs, i + 1),
                }
            },
        },
{
}

/// How the session ends an association: a FINISH is confirmed and the peer has released it, a
/// DISCONNECT confirms a release, and an abort is one.
pub proof fn lemma_session_ends(a: AssociationModel, tsdu: Seq<u8>)
    requires
        bounded(a.events),
        a.state != State::Closed,
    ensures
        ({
            let o = on_tsdu(a, tsdu);
            match spdu_of(tsdu) {
                Err(e) => o.a == a && o.fault == Some(e),
                Ok(SpduModel::Finish(_)) => o.fault is None && ended(
                    sent(a, spdu_bytes(release_spdu(a.acse_context, true))),
                    o.a,
                    CloseReason::PeerReleased,
                ),
                Ok(SpduModel::Disconnect(_)) => o.fault is None && ended(
                    a,
                    o.a,
                    CloseReason::Released,
                ),
                Ok(SpduModel::Abort(_)) => o.fault is None && ended(a, o.a, CloseReason::Aborted),
                Ok(SpduModel::AbortAccept) => o.fault is None && ended(
                    a,
                    o.a,
                    CloseReason::Aborted,
                ),
                Ok(SpduModel::Other { .. }) => o.fault is None && ended(
                    a,
                    o.a,
                    CloseReason::ProtocolError,
                ),
                _ => true,
            }
        }),
{
    reveal(on_tsdu);
}

/// A step that failed ends the association: the failure is counted and reported, and then that the
/// protocol was broken. One that did not stands.
pub proof fn lemma_settles(o: Outcome)
    requires
        bounded(o.a.events),
        o.a.state != State::Closed,
    ensures
        o.fault is None ==> settled(o) == o.a,
        o.fault matches Some(e) ==> exists|mid: AssociationModel|
            {
                &&& told(
                    AssociationModel {
                        stats: AssociationStats {
                            malformed: one_more(o.a.stats.malformed),
                            ..o.a.stats
                        },
                        ..o.a
                    },
                    mid,
                    EventModel::Malformed(e),
                )
                &&& #[trigger] ended(mid, settled(o), CloseReason::ProtocolError)
            },
{
    if let Some(e) = o.fault {
        let start = AssociationModel {
            stats: AssociationStats { malformed: one_more(o.a.stats.malformed), ..o.a.stats },
            ..o.a
        };
        let mid = emitted(start, EventModel::Malformed(e));
        lemma_queue(start.events, EventModel::Malformed(e));
        lemma_told(start, EventModel::Malformed(e));
        lemma_ends_once(mid, CloseReason::ProtocolError, CloseReason::ProtocolError);
        assert(ended(mid, settled(o), CloseReason::ProtocolError));
    }
}

/// A stream that is no packet ends the association; one whose packet is not whole yet is kept.
pub proof fn lemma_stream_broken(a: AssociationModel, now: Instant, stream: Seq<u8>)
    requires
        bounded(a.events),
        a.state != State::Closed,
    ensures
        take_tpdu(stream).0 is Err ==> ended(
            AssociationModel { pending: stream, ..a },
            received(a, now, stream),
            CloseReason::ProtocolError,
        ),
        take_tpdu(stream).0 == Ok::<Option<Seq<u8>>, Error>(None) ==> received(a, now, stream) == (
        AssociationModel { pending: stream, ..a }),
{
}

/// Every packet that arrives is counted.
pub proof fn lemma_packet_counted(a: AssociationModel)
    ensures
        packets(a, 1) == (AssociationModel {
            stats: AssociationStats {
                packets_received: one_more(a.stats.packets_received),
                ..a.stats
            },
            ..a
        }),
{
}

// ---- requests --------------------------------------------------------------------------

/// A request is issued under the next identifier, unless one waits under it. It waits from then on,
/// for as long as the configuration says, it is counted, and its octets go to the peer behind those
/// that wait.
pub proof fn lemma_call(a: AssociationModel, now: Instant, service: ConfirmedRequestModel)
    requires
        valid(a),
        called(a, now, service).0 is Ok,
    ensures
        ({
            let (r, b) = called(a, now, service);
            let id = r->Ok_0;
            let pdu = pdu_bytes(MmsModel::ConfirmedRequest { invoke_id: id, service });
            &&& a.state == State::Established
            &&& 1 <= id <= 0xFFFF_FFFF
            &&& !a.outstanding.contains_key(id)
            &&& !a.outstanding.contains_key(a.next_invoke) ==> id == a.next_invoke
            &&& id < 0xFFFF_FFFF ==> b.next_invoke == id + 1
            &&& id == 0xFFFF_FFFF ==> b.next_invoke == 1
            &&& a.peer_max_pdu > 0 ==> pdu.len() <= a.peer_max_pdu
            &&& b == (AssociationModel {
                outstanding: a.outstanding.insert(id, in_time(now, a.cfg.request_timeout_ms)),
                next_invoke: b.next_invoke,
                out: carried(a, a.mms_context, pdu).out,
                stats: AssociationStats { requests_sent: one_more(a.stats.requests_sent), ..a.stats },
                ..a
            })
        }),
{
    lemma_free_id(a.next_invoke, a.outstanding);
}

/// A request is refused, and nothing is sent or waited for, where the association is not
/// established, where as many wait as were agreed, or where it is longer than the peer accepts.
pub proof fn lemma_call_refused(a: AssociationModel, now: Instant, service: ConfirmedRequestModel)
    requires
        valid(a),
    ensures
        ({
            let (r, b) = called(a, now, service);
            &&& a.state != State::Established ==> r is Err && b == a
            &&& a.state == State::Established ==> {
                let most = a.negotiated->0.max_outstanding;
                &&& a.outstanding.len() >= most ==> b == a && (r matches Err(
                    Error::LimitExceeded { limit, value },
                ) && limit == "max_outstanding" && (a.outstanding.len() < usize::MAX ==> value
                    == a.outstanding.len() + 1))
                &&& a.outstanding.len() < most ==> (r is Err ==> b.outstanding == a.outstanding
                    && b.out == a.out && b.stats == a.stats && b.events == a.events)
            }
        }),
{
}

/// What can be sent: on an association that is established, what has an encoding no longer than
/// what the peer accepts. A peer that did not say accepts any length.
pub proof fn lemma_sendable(a: AssociationModel, m: MmsModel, pdu: Seq<u8>)
    ensures
        send_fault(a, m) is None <==> a.state == State::Established && pdu_fault(m) is None && (
        a.peer_max_pdu == 0 || pdu_bytes(m).len() <= a.peer_max_pdu),
        encoded_fault(a, pdu) is None <==> a.state == State::Established && (a.peer_max_pdu == 0
            || pdu.len() <= a.peer_max_pdu),
        a.state == State::Established && a.peer_max_pdu > 0 && a.peer_max_pdu < pdu.len()
            <= usize::MAX ==> encoded_fault(a, pdu) == Some(
            Error::LimitExceeded { limit: "peer max PDU", value: pdu.len() as usize },
        ),
        after_send(a, m) == (AssociationModel {
            out: carried(a, a.mms_context, pdu_bytes(m)).out,
            stats: if m is Reject {
                AssociationStats { rejected: one_more(a.stats.rejected), ..a.stats }
            } else {
                a.stats
            },
            ..a
        }),
{
}

// ---- time ------------------------------------------------------------------------------

proof fn lemma_first(m: Map<i64, Instant>, ids: Set<i64>) -> (k: Option<i64>)
    requires
        ids.finite(),
    ensures
        match k {
            Some(k) => ids.contains(k) && forall|id: i64| #[trigger]
                ids.contains(id) ==> m[k].nanos <= m[id].nanos,
            None => forall|id: i64| !#[trigger] ids.contains(id),
        },
    decreases ids.len(),
{
    if ids.len() == 0 {
        vstd::set_lib::lemma_set_empty_equivalency_len(ids);
        None
    } else {
        let x = ids.choose();
        let rest = ids.remove(x);
        let k = lemma_first(m, rest);
        let best = if k is Some && m[k->0].nanos < m[x].nanos {
            k->0
        } else {
            x
        };
        assert forall|id: i64| #[trigger] ids.contains(id) implies m[best].nanos <= m[id].nanos by {
            if id != x {
                assert(rest.contains(id));
            }
        }
        Some(best)
    }
}

/// The next instant to wake at is the first of those at which a request is late, where that is
/// checked, and at which the handshake or the release is late, while there is one.
pub proof fn lemma_wakes(a: AssociationModel)
    requires
        a.outstanding.dom().finite(),
    ensures
        ({
            let opening = a.state != State::Established && a.state != State::Closed;
            let checked = a.cfg.request_timeout_ms > 0;
            match deadline(a) {
                Some(t) => {
                    &&& (opening && a.connect_deadline == Some(t)) || (checked && exists|id: i64|
                        #[trigger] a.outstanding.contains_key(id) && a.outstanding[id] == t)
                    &&& opening && a.connect_deadline is Some ==> t.nanos
                        <= a.connect_deadline->0.nanos
                    &&& checked ==> forall|id: i64| #[trigger]
                        a.outstanding.contains_key(id) ==> t.nanos <= a.outstanding[id].nanos
                },
                None => {
                    &&& opening ==> a.connect_deadline is None
                    &&& checked ==> forall|id: i64| !#[trigger] a.outstanding.contains_key(id)
                },
            }
        }),
{
    let m = a.outstanding;
    let k = lemma_first(m, m.dom());
    let t = if k is Some {
        Some(m[k->0])
    } else {
        None
    };
    assert(is_earliest(m, t)) by {
        if k is Some {
            assert(m.contains_key(k->0));
            assert forall|id: i64| #[trigger] m.contains_key(id) implies m[k->0].nanos
                <= m[id].nanos by {
                assert(m.dom().contains(id));
            }
        } else {
            assert forall|id: i64| !#[trigger] m.contains_key(id) by {
                assert(!m.dom().contains(id));
            }
        }
    }
    lemma_earliest(m, t);
}

/// Whether identifiers ascend.
pub open spec fn ascends(ids: Seq<i64>) -> bool {
    forall|i: int, j: int| 0 <= i < j < ids.len() ==> #[trigger] ids[i] < #[trigger] ids[j]
}

/// Whether identifiers are those of the requests whose time is up.
pub open spec fn late(a: AssociationModel, now: Instant, ids: Seq<i64>) -> bool {
    forall|id: i64| #[trigger]
        ids.contains(id) <==> a.outstanding.contains_key(id) && a.outstanding[id].nanos <= now.nanos
}

/// The event of each request that went unanswered.
pub open spec fn unanswered(ids: Seq<i64>) -> Seq<EventModel> {
    Seq::new(ids.len(), |i: int| EventModel::Timeout { invoke_id: ids[i] })
}

/// A count that many higher, up to its end.
pub open spec fn more(n: u64, k: nat) -> u64 {
    if n + k > 0xFFFF_FFFF_FFFF_FFFF {
        0xFFFF_FFFF_FFFF_FFFF
    } else {
        (n + k) as u64
    }
}

proof fn lemma_reported(a: AssociationModel, ids: Seq<i64>)
    requires
        bounded(a.events),
        a.events.items.len() + ids.len() <= a.events.capacity,
    ensures
        timed_out(a, ids).events.items == a.events.items + unanswered(ids),
        timed_out(a, ids).stats.timeouts == more(a.stats.timeouts, ids.len()),
        timed_out(a, ids).state == a.state,
        timed_out(a, ids).out == a.out,
    decreases ids.len(),
{
    if ids.len() > 0 {
        let e = EventModel::Timeout { invoke_id: ids[0] };
        let b = emitted(
            AssociationModel {
                outstanding: a.outstanding.remove(ids[0]),
                stats: AssociationStats { timeouts: one_more(a.stats.timeouts), ..a.stats },
                ..a
            },
            e,
        );
        lemma_queue(a.events, e);
        lemma_reported(b, ids.skip(1));
        assert(b.events.items =~= a.events.items.push(e));
        assert(a.events.items.push(e) + unanswered(ids.skip(1)) =~= a.events.items + unanswered(
            ids,
        ));
    } else {
        assert(a.events.items + unanswered(ids) =~= a.events.items);
    }
}

/// Where the time of requests is up the application is told of each of them, in the order of their
/// identifiers, and each is counted. Nothing is sent.
pub proof fn lemma_late_reported(a: AssociationModel, now: Instant)
    requires
        valid(a),
        a.state == State::Established,
        a.cfg.request_timeout_ms > 0,
        a.events.items.len() + a.outstanding.len() <= a.events.capacity,
    ensures
        exists|ids: Seq<i64>|
            {
                let b = after_timeout(a, now);
                &&& ascends(ids)
                &&& #[trigger] late(a, now, ids)
                &&& b.events.items == a.events.items + unanswered(ids)
                &&& b.stats.timeouts == more(a.stats.timeouts, ids.len())
                &&& b.out == a.out
            },
{
    let d = due(a.outstanding, now);
    let ids = ascending(d);
    lemma_ascends(d);
    assert(ids.no_duplicates()) by {
        assert forall|i: int, j: int| 0 <= i < ids.len() && 0 <= j < ids.len() && i
            != j implies ids[i] != ids[j] by {
            if i < j {
                assert(ids[i] < ids[j]);
            } else {
                assert(ids[j] < ids[i]);
            }
        }
    }
    assert(ids.to_set() =~= d) by {
        assert forall|id: i64| ids.to_set().contains(id) <==> d.contains(id) by {
            assert(ids.contains(id) <==> d.contains(id));
        }
    }
    ids.unique_seq_to_set();
    vstd::set_lib::lemma_len_subset(d, a.outstanding.dom());
    lemma_reported(a, ids);
    assert(late(a, now, ids)) by {
        assert forall|id: i64| #[trigger] ids.contains(id) <==> a.outstanding.contains_key(id)
            && a.outstanding[id].nanos <= now.nanos by {
            assert(ids.contains(id) <==> d.contains(id));
        }
    }
}

/// With the check switched off, or with nothing late, time changes nothing of an association that is
/// established or over.
pub proof fn lemma_in_time(a: AssociationModel, now: Instant)
    requires
        a.state == State::Established || a.state == State::Closed,
        a.outstanding.dom().finite(),
        a.cfg.request_timeout_ms == 0 || forall|id: i64| #[trigger]
            a.outstanding.contains_key(id) ==> now.nanos < a.outstanding[id].nanos,
    ensures
        after_timeout(a, now) == a,
{
    if a.cfg.request_timeout_ms > 0 {
        let d = due(a.outstanding, now);
        lemma_ascends(d);
        let ids = ascending(d);
        if ids.len() > 0 {
            assert(ids.contains(ids[0]));
            assert(d.contains(ids[0]));
        }
    }
}

// ---- what the application asks for -----------------------------------------------------

/// A release sends a FINISH and waits for as long as a handshake may take. An abort sends a
/// disconnection to the peer's reference and ends the association at once.
pub proof fn lemma_leaving(a: AssociationModel, now: Instant)
    requires
        bounded(a.events),
    ensures
        after_release(a, now) == (AssociationModel {
            state: State::Releasing,
            connect_deadline: Some(in_time(now, a.cfg.connect_timeout_ms)),
            out: sent(a, spdu_bytes(release_spdu(a.acse_context, false))).out,
            ..a
        }),
        a.state != State::Closed ==> ended(
            AssociationModel {
                out: a.out.push(
                    packet(
                        tpdu_bytes(
                            TpduModel::DisconnectRequest {
                                dst_ref: a.peer_ref,
                                src_ref: 1,
                                reason: 0,
                            },
                        ),
                    ),
                ),
                ..a
            },
            aborted(a),
            CloseReason::Aborted,
        ),
{
}

/// A release is refused, and changes nothing, where there is no association to release.
pub proof fn lemma_release_refused(a: AssociationModel, now: Instant)
    ensures
        a.state == State::Established ==> released(a, now) == (
            Ok::<(), Error>(()),
            after_release(a, now),
        ),
        a.state != State::Established ==> released(a, now).0 is Err && released(a, now).1 == a,
{
}

/// Packets leave in the order in which they were queued, and each is counted. Events are taken in
/// the order in which they came.
pub proof fn lemma_first_in_first_out(a: AssociationModel)
    ensures
        a.out.len() > 0 ==> transmitted(a) == (AssociationModel {
            out: a.out.subrange(1, a.out.len() as int),
            stats: AssociationStats { packets_sent: one_more(a.stats.packets_sent), ..a.stats },
            ..a
        }),
        a.out.len() == 0 ==> transmitted(a) == a,
        a.events.items.len() > 0 ==> drained(a).events.items == a.events.items.subrange(
            1,
            a.events.items.len() as int,
        ),
        a.events.items.len() == 0 ==> drained(a).events == a.events,
        drained(a).events.capacity == a.events.capacity,
        drained(a).events.dropped == a.events.dropped,
        drained(a).state == a.state,
        drained(a).outstanding == a.outstanding,
        drained(a).out == a.out,
{
    if a.out.len() > 0 {
        assert(a.out.skip(1) =~= a.out.subrange(1, a.out.len() as int));
    }
}

// ---- segmentation ----------------------------------------------------------------------

/// The octets that the `i`-th packet of a TSDU carries.
pub open spec fn share(tsdu: Seq<u8>, chunk: nat, i: int) -> Seq<u8> {
    tsdu.subrange(
        i * chunk,
        if (i + 1) * chunk <= tsdu.len() {
            (i + 1) * chunk
        } else {
            tsdu.len() as int
        },
    )
}

/// A TSDU goes out in as few packets as its size allows. Each but the last carries as many octets as
/// a TPDU takes, and the last alone is marked as such.
pub proof fn lemma_cut(tsdu: Seq<u8>, chunk: nat)
    requires
        chunk > 0,
    ensures
        ({
            let s = segments(tsdu, chunk);
            &&& s.len() >= 1
            &&& (s.len() - 1) * chunk <= tsdu.len() <= s.len() * chunk
            &&& tsdu.len() > 0 ==> (s.len() - 1) * chunk < tsdu.len()
            &&& tsdu.len() == 0 ==> s.len() == 1
            &&& forall|i: int|
                0 <= i < s.len() ==> #[trigger] s[i] == packet(
                    tpdu_bytes(
                        TpduModel::Data {
                            eot: i == s.len() - 1,
                            payload: share(tsdu, chunk, i),
                        },
                    ),
                )
        }),
    decreases tsdu.len(),
{
    let s = segments(tsdu, chunk);
    if tsdu.len() <= chunk {
        assert(share(tsdu, chunk, 0) =~= tsdu) by {
            assert(0 * chunk == 0) by (nonlinear_arith);
            assert((0 + 1) * chunk == chunk) by (nonlinear_arith);
        }
        assert((1 - 1) * chunk == 0) by (nonlinear_arith);
        assert(1 * chunk == chunk) by (nonlinear_arith);
    } else {
        let head = tsdu.take(chunk as int);
        let tail = tsdu.skip(chunk as int);
        lemma_cut(tail, chunk);
        let t = segments(tail, chunk);
        let n = t.len() as int;
        let c = chunk as int;
        assert((n + 1) * c == n * c + c) by (nonlinear_arith);
        assert((n - 1) * c == n * c - c) by (nonlinear_arith);
        assert(s.len() == n + 1);
        assert forall|i: int| 0 <= i < s.len() implies #[trigger] s[i] == packet(
            tpdu_bytes(
                TpduModel::Data { eot: i == s.len() - 1, payload: share(tsdu, chunk, i) },
            ),
        ) by {
            if i == 0 {
                assert(0 * c == 0) by (nonlinear_arith);
                assert((0 + 1) * c == c) by (nonlinear_arith);
                assert(share(tsdu, chunk, 0) =~= head);
            } else {
                let j = i - 1;
                assert(s[i] == t[j]);
                assert(i * c == j * c + c) by (nonlinear_arith)
                    requires
                        i == j + 1,
                ;
                assert((i + 1) * c == (j + 1) * c + c) by (nonlinear_arith)
                    requires
                        i == j + 1,
                ;
                assert(0 <= j * c <= (n - 1) * c) by (nonlinear_arith)
                    requires
                        0 <= j <= n - 1,
                        c > 0,
                ;
                assert((j + 1) * c == j * c + c) by (nonlinear_arith);
                assert(share(tsdu, chunk, i) =~= share(tail, chunk, j));
            }
        }
    }
}

} // verus!
