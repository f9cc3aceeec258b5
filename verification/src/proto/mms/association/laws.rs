//! What holds of an association over all of its transitions.

use vstd::prelude::*;
use crate::ber::list::{list_bytes, list_from};
use crate::common::queue::{bounded, bump, lemma_queue};
use crate::common::{Error, Instant};
use crate::proto::mms::association::machine::{
    aborted, after_bytes, after_release, after_timeout, after_tpdu, called, carried, closed,
    delivered, done, emitted, free_id, id_after, on_tpdu, on_tsdu, packets, peer_finished, received,
    release_spdu, segments, sent, settled, timed_out, user_data, valid, walked, AssociationModel,
};
use crate::proto::mms::association::messages::{lemma_release_fits, lemma_single};
use crate::proto::mms::association::types::{AssociationStats, CloseReason, EventModel, State};
use crate::proto::mms::outstanding::{ascending, due, lemma_ascends};
use crate::proto::mms::pdu::{lemma_mms_round_trip, mms_of, pdu_bytes, pdu_fits, MmsModel};
use crate::proto::mms::request::ConfirmedRequestModel;
use crate::proto::osi::cotp::{lemma_tpdu_round_trip, tpdu_bytes, TpduModel};
use crate::proto::osi::presentation::{
    lemma_ppdu_round_trip, ppdu_of, single_of, single_pdv, Pdv, PdvModel, PpduModel,
};
use crate::proto::osi::session::{lemma_spdu_round_trip, spdu_bytes, spdu_of, SpduModel};
use crate::proto::osi::tpkt::{lemma_packet_round_trip, packet, take_tpdu};

verus! {

/// What arrives depends on the stream alone, not on what was pending before.
pub proof fn lemma_received_pending(a: AssociationModel, now: Instant, stream: Seq<u8>)
    ensures
        received(AssociationModel { pending: stream, ..a }, now, stream) == received(
            a,
            now,
            stream,
        ),
{
}

/// The identifier reached from `id` in `k` steps.
pub open spec fn id_at(id: i64, k: nat) -> int {
    1 + (id - 1 + k) % (u32::MAX as int)
}

proof fn lemma_id_step(id: i64, k: nat)
    requires
        1 <= id <= u32::MAX,
    ensures
        id_at(id_after(id), k) == id_at(id, k + 1),
        1 <= id_at(id, k) <= u32::MAX,
{
    let n = u32::MAX as int;
    let x = k as int;
    assert(x % n == (x + n) % n) by (nonlinear_arith)
        requires
            n == 4294967295,
            x >= 0,
    ;
}

proof fn lemma_taken(next: i64, m: Map<i64, Instant>, n: nat)
    requires
        1 <= next <= u32::MAX,
    ensures
        1 <= free_id(next, m, n).0 <= u32::MAX,
        1 <= free_id(next, m, n).1 <= u32::MAX,
        n > 0 ==> ((!m.contains_key(free_id(next, m, n).0) && free_id(next, m, n).1 == id_after(
            free_id(next, m, n).0,
        )) || forall|k: nat| k < n ==> m.contains_key(#[trigger] id_at(next, k) as i64)),
    decreases n,
{
    if n > 0 && m.contains_key(next) {
        lemma_taken(id_after(next), m, (n - 1) as nat);
        if m.contains_key(free_id(next, m, n).0) || free_id(next, m, n).1 != id_after(
            free_id(next, m, n).0,
        ) {
            assert forall|k: nat| k < n implies m.contains_key(
                #[trigger] id_at(next, k) as i64,
            ) by {
                if k > 0 {
                    lemma_id_step(next, (k - 1) as nat);
                    let j = (k - 1) as nat;
                    assert(m.contains_key(id_at(id_after(next), j) as i64));
                } else {
                    assert(id_at(next, 0) == next);
                }
            }
        }
    }
}

/// The identifier a new request gets is a positive 32-bit number that no outstanding request
/// has, and the one after it is tried next.
pub proof fn lemma_free_id(next: i64, m: Map<i64, Instant>)
    requires
        1 <= next <= u32::MAX,
        m.dom().finite(),
        m.len() + 1 < u32::MAX,
    ensures
        ({
            let (id, after) = free_id(next, m, m.len() + 1);
            1 <= id <= u32::MAX && 1 <= after <= u32::MAX && !m.contains_key(id) && after
                == id_after(id)
        }),
{
    let n = m.len() + 1;
    lemma_taken(next, m, n);
    let (id, after) = free_id(next, m, n);
    if m.contains_key(id) || after != id_after(id) {
        let s = Seq::new(n, |k: int| id_at(next, k as nat) as i64);
        assert(s.no_duplicates()) by {
            assert forall|i: int, j: int| 0 <= i < n && 0 <= j < n && i != j implies s[i]
                != s[j] by {
                lemma_distinct(next, i as nat, j as nat);
            }
        }
        assert(s.to_set().subset_of(m.dom())) by {
            assert forall|x: i64| s.to_set().contains(x) implies m.dom().contains(x) by {
                let k = choose|k: int| 0 <= k < s.len() && s[k] == x;
                assert(m.contains_key(id_at(next, k as nat) as i64));
            }
        }
        s.unique_seq_to_set();
        vstd::set_lib::lemma_len_subset(s.to_set(), m.dom());
    }
}

proof fn lemma_distinct(id: i64, i: nat, j: nat)
    requires
        1 <= id <= u32::MAX,
        i < u32::MAX,
        j < u32::MAX,
        i != j,
    ensures
        id_at(id, i) as i64 != id_at(id, j) as i64,
{
    lemma_id_step(id, i);
    lemma_id_step(id, j);
    let n = u32::MAX as int;
    let a = id - 1 + i;
    let b = id - 1 + j;
    assert(a % n != b % n) by (nonlinear_arith)
        requires
            n == 4294967295,
            0 <= a < 2 * n,
            0 <= b < 2 * n,
            a != b,
            a - b < n,
            b - a < n,
    ;
}

// ---- segmentation ----------------------------------------------------------------------

/// Packets back to back, as a stream carries them.
pub open spec fn stream(p: Seq<Seq<u8>>) -> Seq<u8>
    decreases p.len(),
{
    if p.len() == 0 {
        Seq::empty()
    } else {
        p[0] + stream(p.skip(1))
    }
}

/// A packet at the front of a stream is handled, and then what follows it, unless it ended the
/// association.
pub proof fn lemma_packet_arrives(a: AssociationModel, now: Instant, tpdu: Seq<u8>, rest: Seq<u8>)
    requires
        tpdu.len() + 4 <= 65535,
    ensures
        received(a, now, packet(tpdu) + rest) == {
            let b = after_tpdu(AssociationModel { pending: rest, ..a }, now, tpdu);
            if b.state == State::Closed {
                b
            } else {
                received(b, now, rest)
            }
        },
{
    lemma_packet_round_trip(tpdu, rest, 0);
}

proof fn lemma_walked_pending(a: AssociationModel, pdvs: Seq<PdvModel>, i: nat)
    ensures
        walked(a, pdvs, i).pending == a.pending,
    decreases pdvs.len() - i,
{
    if i < pdvs.len() {
        lemma_walked_pending(a, pdvs, i + 1);
        if let Some(v) = single_of(pdvs[i as int].values) {
            lemma_walked_pending(delivered(a, v), pdvs, i + 1);
        }
    }
}

/// A TSDU changes nothing of what is pending.
proof fn lemma_tsdu_pending(a: AssociationModel, tsdu: Seq<u8>)
    ensures
        on_tsdu(a, tsdu).a.pending == a.pending,
{
    reveal(on_tsdu);
    if let Ok(SpduModel::DataTransfer(p)) = spdu_of(tsdu) {
        if let Ok(PpduModel::UserData(pdvs)) = ppdu_of(p, false) {
            lemma_walked_pending(a, pdvs, 0);
        }
    }
}

/// What a whole TSDU in `n` packets leads to.
pub open spec fn arrived(a: AssociationModel, n: nat, tsdu: Seq<u8>) -> AssociationModel {
    settled(
        on_tsdu(
            AssociationModel { parts: Seq::empty(), pending: Seq::empty(), ..packets(a, n) },
            tsdu,
        ),
    )
}

/// A DT TPDU that is not the last is kept.
proof fn lemma_part(a: AssociationModel, now: Instant, payload: Seq<u8>)
    requires
        a.parts.len() + payload.len() <= a.cfg.max_tsdu,
    ensures
        after_tpdu(a, now, tpdu_bytes(TpduModel::Data { eot: false, payload }))
            == (AssociationModel { parts: a.parts + payload, ..packets(a, 1) }),
{
    lemma_tpdu_round_trip(TpduModel::Data { eot: false, payload });
    reveal(on_tpdu);
}

/// The last DT TPDU completes the TSDU.
proof fn lemma_last(a: AssociationModel, now: Instant, payload: Seq<u8>)
    requires
        a.parts.len() + payload.len() <= a.cfg.max_tsdu,
    ensures
        after_tpdu(a, now, tpdu_bytes(TpduModel::Data { eot: true, payload })) == settled(
            on_tsdu(
                AssociationModel { parts: Seq::empty(), ..packets(a, 1) },
                a.parts + payload,
            ),
        ),
{
    lemma_tpdu_round_trip(TpduModel::Data { eot: true, payload });
    reveal(on_tpdu);
    assert(a.parts.len() == 0 ==> a.parts + payload =~= payload);
}

/// What settles changes nothing of what is pending.
proof fn lemma_settled_pending(a: AssociationModel, tsdu: Seq<u8>)
    ensures
        settled(on_tsdu(a, tsdu)).pending == a.pending,
{
    lemma_tsdu_pending(a, tsdu);
}

/// An association with nothing pending waits.
pub proof fn lemma_quiet(a: AssociationModel, now: Instant)
    requires
        a.pending.len() == 0,
    ensures
        received(a, now, Seq::empty()) == a,
{
    let none = Seq::<u8>::empty();
    assert(a.pending =~= none);
    assert(take_tpdu(none) == (Ok::<Option<Seq<u8>>, Error>(None), none));
}

/// A TSDU of which `parts` arrived before comes together from the packets of the rest.
pub proof fn lemma_segments(a: AssociationModel, now: Instant, rest: Seq<u8>, chunk: nat)
    requires
        a.state != State::Closed,
        1 <= chunk <= 65528,
        a.parts.len() + rest.len() <= a.cfg.max_tsdu,
    ensures
        received(a, now, stream(segments(rest, chunk))) == arrived(
            a,
            segments(rest, chunk).len(),
            a.parts + rest,
        ),
    decreases rest.len(),
{
    let all = segments(rest, chunk);
    let none = Seq::<u8>::empty();
    if rest.len() <= chunk {
        let tpdu = tpdu_bytes(TpduModel::Data { eot: true, payload: rest });
        assert(all.skip(1) =~= Seq::<Seq<u8>>::empty());
        assert(stream(all.skip(1)) =~= none);
        assert(stream(all) =~= packet(tpdu) + none);
        lemma_packet_arrives(a, now, tpdu, none);
        let c = AssociationModel { pending: none, ..a };
        lemma_last(c, now, rest);
        let d = AssociationModel { parts: none, ..packets(c, 1) };
        lemma_settled_pending(d, a.parts + rest);
        lemma_quiet(settled(on_tsdu(d, a.parts + rest)), now);
    } else {
        let head = rest.take(chunk as int);
        let tail = rest.skip(chunk as int);
        let tpdu = tpdu_bytes(TpduModel::Data { eot: false, payload: head });
        let more = segments(tail, chunk);
        assert(all.skip(1) =~= more);
        let s = stream(more);
        assert(stream(all) == packet(tpdu) + s);
        lemma_packet_arrives(a, now, tpdu, s);
        let c = AssociationModel { pending: s, ..a };
        lemma_part(c, now, head);
        let b = AssociationModel { parts: a.parts + head, ..packets(c, 1) };
        assert((a.parts + head) + tail =~= a.parts + rest);
        lemma_segments(b, now, tail, chunk);
        assert(all.len() == 1 + more.len());
    }
}

/// A TSDU that one end sends arrives whole at the other, in however many TPDUs it was cut, if
/// that one reassembles as much.
pub proof fn lemma_tsdu_arrives(
    a: AssociationModel,
    b: AssociationModel,
    now: Instant,
    tsdu: Seq<u8>,
)
    requires
        valid(a),
        b.state != State::Closed,
        b.pending.len() == 0,
        b.parts.len() == 0,
        tsdu.len() <= b.cfg.max_tsdu,
    ensures
        ({
            let p = segments(tsdu, a.tpdu_data as nat);
            &&& sent(a, tsdu).out == a.out + p
            &&& after_bytes(b, now, stream(p)) == arrived(b, p.len(), tsdu)
        }),
{
    let p = segments(tsdu, a.tpdu_data as nat);
    assert(b.pending + stream(p) =~= stream(p));
    assert(b.parts + tsdu =~= tsdu);
    lemma_segments(b, now, tsdu, a.tpdu_data as nat);
}

// ---- what is delivered -----------------------------------------------------------------

/// User data that one end carries reads back at the other as the one value it holds.
proof fn lemma_user_data(context: u16, value: Seq<u8>)
    requires
        user_data(context, value).len() <= u64::MAX,
    ensures
        ({
            let u = user_data(context, value);
            &&& spdu_of(spdu_bytes(SpduModel::DataTransfer(u))) == Ok::<SpduModel, Error>(
                SpduModel::DataTransfer(u),
            )
            &&& ppdu_of(u, false) == Ok::<PpduModel, Error>(
                PpduModel::UserData(seq![single_pdv(context, value)]),
            )
        }),
{
    lemma_spdu_round_trip(SpduModel::DataTransfer(user_data(context, value)));
    lemma_single(context, value);
    lemma_ppdu_round_trip(PpduModel::UserData(seq![single_pdv(context, value)]));
}

/// A value in one PDV list is walked as itself.
proof fn lemma_walked_one(a: AssociationModel, context: u16, value: Seq<u8>)
    requires
        context != a.acse_context,
    ensures
        walked(a, seq![single_pdv(context, value)], 0) == delivered(a, value),
{
    let pdvs = seq![single_pdv(context, value)];
    assert(pdvs[0] == single_pdv(context, value));
    assert(walked(delivered(a, value), pdvs, 1) == delivered(a, value));
}

/// An MMS PDU that one end carries is delivered whole at the other.
pub proof fn lemma_pdu_delivered(
    a: AssociationModel,
    b: AssociationModel,
    now: Instant,
    context: u16,
    value: Seq<u8>,
)
    requires
        valid(a),
        b.state != State::Closed,
        b.pending.len() == 0,
        b.parts.len() == 0,
        context != b.acse_context,
        user_data(context, value).len() + 4 <= b.cfg.max_tsdu,
    ensures
        ({
            let tsdu = spdu_bytes(SpduModel::DataTransfer(user_data(context, value)));
            let p = segments(tsdu, a.tpdu_data as nat);
            &&& carried(a, context, value).out == a.out + p
            &&& after_bytes(b, now, stream(p)) == delivered(packets(b, p.len()), value)
        }),
{
    let u = user_data(context, value);
    let tsdu = spdu_bytes(SpduModel::DataTransfer(u));
    let p = segments(tsdu, a.tpdu_data as nat);
    lemma_tsdu_arrives(a, b, now, tsdu);
    lemma_user_data(context, value);
    let c = packets(b, p.len());
    assert(AssociationModel { parts: Seq::empty(), pending: Seq::empty(), ..c } == c) by {
        assert(c.parts =~= Seq::<u8>::empty());
        assert(c.pending =~= Seq::<u8>::empty());
    }
    reveal(on_tsdu);
    lemma_walked_one(c, context, value);
}

/// The answer to a request releases its identifier, and no other, and is handed up.
pub proof fn lemma_answer_releases(a: AssociationModel, bytes: Seq<u8>, id: i64)
    requires
        mms_of(bytes, a.cfg.limits) matches Ok(m) && answers(m, id),
        bounded(a.events),
    ensures
        ({
            let b = delivered(a, bytes);
            &&& b.outstanding == a.outstanding.remove(id)
            &&& b.state == a.state
            &&& b.events.items.last() is Response || b.events.items.last() is Rejected
        }),
{
    let m = mms_of(bytes, a.cfg.limits)->Ok_0;
    lemma_queue(a.events, EventModel::Response { invoke_id: id, pdu: bytes });
    if let MmsModel::Reject(r) = m {
        lemma_queue(a.events, EventModel::Rejected { invoke_id: Some(id), reject: r });
    }
}

/// Whether a PDU answers the request with this identifier: a response, an error, or a reject
/// that names it.
pub open spec fn answers(m: MmsModel, id: i64) -> bool {
    match m {
        MmsModel::ConfirmedResponse { invoke_id, .. } => invoke_id == id,
        MmsModel::ConfirmedError { invoke_id, .. } => invoke_id == id,
        MmsModel::Reject(r) => r.original_invoke_id == Some(id),
        _ => false,
    }
}

/// A PDU that does not decode ends nothing: it is counted and reported, and the association
/// stays as it was.
pub proof fn lemma_malformed_survives(a: AssociationModel, bytes: Seq<u8>)
    requires
        mms_of(bytes, a.cfg.limits) is Err,
    ensures
        delivered(a, bytes).state == a.state,
        delivered(a, bytes).outstanding == a.outstanding,
        delivered(a, bytes).stats.malformed == bump(a.stats.malformed),
{
}

/// A request that one end issues arrives at the other under its identifier, with the octets of
/// its PDU.
pub proof fn lemma_request_arrives(
    a: AssociationModel,
    b: AssociationModel,
    now: Instant,
    service: ConfirmedRequestModel,
)
    requires
        valid(a),
        called(a, now, service).0 is Ok,
        b.state != State::Closed,
        b.pending.len() == 0,
        b.parts.len() == 0,
        bounded(b.events),
        a.mms_context != b.acse_context,
        ({
            let m = MmsModel::ConfirmedRequest {
                invoke_id: called(a, now, service).0->Ok_0,
                service,
            };
            pdu_fits(m, b.cfg.limits) && user_data(a.mms_context, pdu_bytes(m)).len() + 4
                <= b.cfg.max_tsdu
        }),
    ensures
        ({
            let (r, after) = called(a, now, service);
            let id = r->Ok_0;
            let p = after.out.skip(a.out.len() as int);
            &&& after.out.take(a.out.len() as int) == a.out
            &&& after.outstanding.contains_key(id)
            &&& after_bytes(b, now, stream(p)).events.items.last() == (EventModel::Request {
                invoke_id: id,
                pdu: pdu_bytes(MmsModel::ConfirmedRequest { invoke_id: id, service }),
            })
        }),
{
    broadcast use crate::ber::laws::lemma_tlv_len;

    let (r, after) = called(a, now, service);
    let id = r->Ok_0;
    let m = MmsModel::ConfirmedRequest { invoke_id: id, service };
    let v = pdu_bytes(m);
    let tsdu = spdu_bytes(SpduModel::DataTransfer(user_data(a.mms_context, v)));
    let p = segments(tsdu, a.tpdu_data as nat);
    lemma_pdu_delivered(a, b, now, a.mms_context, v);
    assert(after.out == a.out + p);
    assert(after.out.skip(a.out.len() as int) =~= p);
    assert(after.out.take(a.out.len() as int) =~= a.out);
    lemma_value_within(a.mms_context, v);
    lemma_free_id(a.next_invoke, a.outstanding);
    lemma_mms_round_trip(m, b.cfg.limits);
    lemma_queue(packets(b, p.len()).events, EventModel::Request { invoke_id: id, pdu: v });
}

/// A value is no longer than the user data that carries it.
proof fn lemma_value_within(context: u16, value: Seq<u8>)
    ensures
        value.len() <= user_data(context, value).len(),
{
    broadcast use crate::ber::laws::lemma_tlv_len;

    let s = seq![single_pdv(context, value)];
    assert(s[0] == single_pdv(context, value));
    assert(list_from::<Pdv<'static>>(s, 0) == list_bytes::<Pdv<'static>>(s));
}

// ---- deadlines -------------------------------------------------------------------------

proof fn lemma_timed_out(a: AssociationModel, ids: Seq<i64>)
    ensures
        forall|id: i64| #[trigger]
            timed_out(a, ids).outstanding.contains_key(id) <==> a.outstanding.contains_key(id)
                && !ids.contains(id),
        timed_out(a, ids).state == a.state,
        timed_out(a, ids).out == a.out,
    decreases ids.len(),
{
    if ids.len() > 0 {
        let rest = ids.skip(1);
        let b = emitted(
            AssociationModel {
                outstanding: a.outstanding.remove(ids[0]),
                stats: AssociationStats { timeouts: bump(a.stats.timeouts), ..a.stats },
                ..a
            },
            EventModel::Timeout { invoke_id: ids[0] },
        );
        lemma_timed_out(b, rest);
        assert forall|id: i64| #[trigger]
            timed_out(a, ids).outstanding.contains_key(id) <==> a.outstanding.contains_key(id)
                && !ids.contains(id) by {
            assert(timed_out(a, ids).outstanding.contains_key(id) <==> timed_out(
                b,
                rest,
            ).outstanding.contains_key(id));
            if ids.contains(id) && id != ids[0] {
                let k = choose|k: int| 0 <= k < ids.len() && ids[k] == id;
                assert(rest[k - 1] == id);
            }
            if rest.contains(id) {
                let k = choose|k: int| 0 <= k < rest.len() && rest[k] == id;
                assert(ids[k + 1] == id);
            }
            assert(ids[0] == id ==> ids.contains(id));
        }
    }
}

/// On an established association the requests whose time is up, and no others, stop waiting,
/// and one unanswered request does not end it.
pub proof fn lemma_requests_expire(a: AssociationModel, now: Instant)
    requires
        valid(a),
        a.state == State::Established,
        a.cfg.request_timeout_ms > 0,
    ensures
        ({
            let b = after_timeout(a, now);
            &&& b.state == State::Established
            &&& forall|id: i64| #[trigger]
                b.outstanding.contains_key(id) <==> a.outstanding.contains_key(id) && now.nanos
                    < a.outstanding[id].nanos
        }),
{
    let ids = ascending(due(a.outstanding, now));
    lemma_ascends(due(a.outstanding, now));
    lemma_timed_out(a, ids);
    let b = after_timeout(a, now);
    assert forall|id: i64| #[trigger]
        b.outstanding.contains_key(id) <==> a.outstanding.contains_key(id) && now.nanos
            < a.outstanding[id].nanos by {
        assert(ids.contains(id) <==> due(a.outstanding, now).contains(id));
    }
}

/// A handshake or a release that is late ends the association for the right reason, and one
/// that is not late ends nothing.
pub proof fn lemma_handshake_expires(a: AssociationModel, now: Instant, d: Instant)
    requires
        a.connect_deadline == Some(d),
        a.state != State::Established,
        a.state != State::Closed,
    ensures
        now.nanos >= d.nanos ==> after_timeout(a, now) == closed(
            a,
            if a.state == State::Releasing {
                CloseReason::Released
            } else {
                CloseReason::ConnectTimeout
            },
        ),
        now.nanos < d.nanos ==> after_timeout(a, now).state == a.state,
{
    lemma_timed_out(a, ascending(due(a.outstanding, now)));
}

/// An association that is over stays as it is, whatever arrives.
pub proof fn lemma_over(a: AssociationModel, now: Instant, bytes: Seq<u8>, reason: CloseReason)
    requires
        a.state == State::Closed,
    ensures
        after_bytes(a, now, bytes) == a,
        closed(a, reason) == a,
        aborted(a) == a,
{
}

// ---- release ---------------------------------------------------------------------------

/// What an association does with the FINISH or the DISCONNECT of a release.
proof fn lemma_release_step(a: AssociationModel, acse_context: u16, response: bool)
    ensures
        on_tsdu(a, spdu_bytes(release_spdu(acse_context, response))) == done(
            if response {
                closed(a, CloseReason::Released)
            } else {
                peer_finished(a)
            },
        ),
{
    lemma_release_fits(acse_context, response);
    reveal(release_spdu);
    lemma_spdu_round_trip(release_spdu(acse_context, response));
    reveal(on_tsdu);
}

/// An orderly release ends both ends: the peer is told that it was released, and its answer
/// tells the one that asked that it was confirmed.
pub proof fn lemma_orderly_release(a: AssociationModel, b: AssociationModel, now: Instant)
    requires
        valid(a),
        valid(b),
        a.state == State::Established,
        b.state != State::Closed,
        a.pending.len() == 0,
        a.parts.len() == 0,
        b.pending.len() == 0,
        b.parts.len() == 0,
        spdu_bytes(release_spdu(a.acse_context, false)).len() <= b.cfg.max_tsdu,
        spdu_bytes(release_spdu(b.acse_context, true)).len() <= a.cfg.max_tsdu,
    ensures
        ({
            let a1 = after_release(a, now);
            let b1 = after_bytes(b, now, stream(a1.out.skip(a.out.len() as int)));
            let a2 = after_bytes(a1, now, stream(b1.out.skip(b.out.len() as int)));
            &&& a1.state == State::Releasing
            &&& b1.state == State::Closed
            &&& b1.events.items.last() == EventModel::Closed(CloseReason::PeerReleased)
            &&& a2.state == State::Closed
            &&& a2.events.items.last() == EventModel::Closed(CloseReason::Released)
        }),
{
    let finish = spdu_bytes(release_spdu(a.acse_context, false));
    let p = segments(finish, a.tpdu_data as nat);
    let a1 = after_release(a, now);
    assert(a1.out.skip(a.out.len() as int) =~= p);
    lemma_tsdu_arrives(a, b, now, finish);
    let x = AssociationModel { parts: Seq::empty(), pending: Seq::empty(), ..packets(b, p.len()) };
    lemma_release_step(x, a.acse_context, false);
    let b1 = after_bytes(b, now, stream(p));
    assert(b1 == peer_finished(x));
    let disconnect = spdu_bytes(release_spdu(b.acse_context, true));
    let q = segments(disconnect, b.tpdu_data as nat);
    assert(b1.out == b.out + q);
    assert(b1.out.skip(b.out.len() as int) =~= q);
    lemma_queue(b.events, EventModel::Closed(CloseReason::PeerReleased));
    lemma_tsdu_arrives(b, a1, now, disconnect);
    let y = AssociationModel { parts: Seq::empty(), pending: Seq::empty(), ..packets(a1, q.len()) };
    lemma_release_step(y, b.acse_context, true);
    lemma_queue(a.events, EventModel::Closed(CloseReason::Released));
}

} // verus!
