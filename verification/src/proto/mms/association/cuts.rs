//! How a stream is cut into reads makes no difference to an association.

use vstd::prelude::*;
use crate::common::{Error, Instant};
use crate::proto::mms::association::laws::lemma_received_pending;
use crate::proto::mms::association::machine::{
    after_bytes, after_tpdu, delivered, on_tpdu, on_tsdu, packets, received, walked,
    AssociationModel, Outcome,
};
use crate::proto::mms::association::types::State;
use crate::proto::osi::cotp::{reassembled, tpdu_of, TpduModel};
use crate::proto::osi::presentation::{ppdu_of, single_of, PdvModel, PpduModel};
use crate::proto::osi::session::{spdu_of, SpduModel};
use crate::proto::osi::tpkt::{packet_len_of, take_tpdu, HEADER_LEN};

verus! {

/// An association with something else pending.
pub open spec fn with_pending(a: AssociationModel, pending: Seq<u8>) -> AssociationModel {
    AssociationModel { pending, ..a }
}

/// An outcome with something else pending.
pub open spec fn outcome_with(o: Outcome, pending: Seq<u8>) -> Outcome {
    Outcome { a: with_pending(o.a, pending), ..o }
}

proof fn lemma_delivered(a: AssociationModel, p: Seq<u8>, bytes: Seq<u8>)
    ensures
        delivered(with_pending(a, p), bytes) == with_pending(delivered(a, bytes), p),
{
}

proof fn lemma_walked(a: AssociationModel, p: Seq<u8>, pdvs: Seq<PdvModel>, i: nat)
    ensures
        walked(with_pending(a, p), pdvs, i) == with_pending(walked(a, pdvs, i), p),
    decreases pdvs.len() - i,
{
    if i < pdvs.len() {
        lemma_walked(a, p, pdvs, i + 1);
        if let Some(v) = single_of(pdvs[i as int].values) {
            lemma_delivered(a, p, v);
            lemma_walked(delivered(a, v), p, pdvs, i + 1);
        }
    }
}

proof fn lemma_tsdu(a: AssociationModel, p: Seq<u8>, tsdu: Seq<u8>)
    ensures
        on_tsdu(with_pending(a, p), tsdu) == outcome_with(on_tsdu(a, tsdu), p),
{
    reveal(on_tsdu);
    if let Ok(SpduModel::DataTransfer(d)) = spdu_of(tsdu) {
        if let Ok(PpduModel::UserData(pdvs)) = ppdu_of(d, false) {
            lemma_walked(a, p, pdvs, 0);
        }
    }
}

proof fn lemma_tpdu(a: AssociationModel, p: Seq<u8>, now: Instant, tpdu: Seq<u8>)
    ensures
        after_tpdu(with_pending(a, p), now, tpdu) == with_pending(after_tpdu(a, now, tpdu), p),
{
    reveal(on_tpdu);
    let b = packets(a, 1);
    if let Ok(TpduModel::Data { eot, payload }) = tpdu_of(tpdu) {
        if let Ok(Some(tsdu)) = reassembled(b.parts, b.cfg.max_tsdu, eot, payload).0 {
            lemma_tsdu(AssociationModel { parts: Seq::empty(), ..b }, p, tsdu);
        }
    }
}

/// A whole packet at the front of a stream is there whatever follows.
proof fn lemma_taken(stream: Seq<u8>, more: Seq<u8>)
    ensures
        take_tpdu(stream).0 matches Ok(Some(t)) ==> take_tpdu(stream + more) == (
            Ok::<Option<Seq<u8>>, Error>(Some(t)),
            take_tpdu(stream).1 + more,
        ),
{
    let all = stream + more;
    if let Ok(Some(len)) = packet_len_of(stream) {
        if len <= stream.len() {
            assert(all.subrange(HEADER_LEN as int, len as int) =~= stream.subrange(
                HEADER_LEN as int,
                len as int,
            ));
            assert(all.skip(len as int) =~= stream.skip(len as int) + more);
        }
    }
}

proof fn lemma_received_in_two(
    a: AssociationModel,
    now: Instant,
    stream: Seq<u8>,
    more: Seq<u8>,
)
    requires
        a.state != State::Closed,
        received(a, now, stream).state != State::Closed,
    ensures
        received(a, now, stream + more) == ({
            let b = received(a, now, stream);
            received(b, now, b.pending + more)
        }),
    decreases stream.len(),
{
    let (t, rest) = take_tpdu(stream);
    match t {
        Err(_) => {},
        Ok(None) => lemma_received_pending(with_pending(a, stream), now, stream + more),
        Ok(Some(tpdu)) => {
            lemma_taken(stream, more);
            let b = after_tpdu(with_pending(a, rest), now, tpdu);
            lemma_tpdu(with_pending(a, rest), rest + more, now, tpdu);
            lemma_received_in_two(b, now, rest, more);
            lemma_received_pending(b, now, rest + more);
        },
    }
}

/// What ends an association ends it whatever follows, and what follows stays unread.
proof fn lemma_received_until_closed(
    a: AssociationModel,
    now: Instant,
    stream: Seq<u8>,
    more: Seq<u8>,
)
    requires
        a.state != State::Closed,
        received(a, now, stream).state == State::Closed,
    ensures
        received(a, now, stream) == with_pending(
            received(a, now, stream + more),
            received(a, now, stream).pending,
        ),
    decreases stream.len(),
{
    let (t, rest) = take_tpdu(stream);
    match t {
        Err(_) => {
            assert(packet_len_of(stream + more) == packet_len_of(stream));
        },
        Ok(None) => {},
        Ok(Some(tpdu)) => {
            lemma_taken(stream, more);
            let b = after_tpdu(with_pending(a, rest), now, tpdu);
            lemma_tpdu(with_pending(a, rest), rest + more, now, tpdu);
            if b.state != State::Closed {
                lemma_received_until_closed(b, now, rest, more);
                lemma_received_pending(b, now, rest + more);
            }
        },
    }
}

/// Octets that arrive in two reads do what they do in one, wherever the cut falls. Where those
/// that arrive first end the association, the two differ in nothing but the octets left unread.
pub proof fn lemma_cut(a: AssociationModel, now: Instant, first: Seq<u8>, second: Seq<u8>)
    ensures
        ({
            let between = after_bytes(a, now, first);
            let in_two = after_bytes(between, now, second);
            let in_one = after_bytes(a, now, first + second);
            &&& between.state != State::Closed ==> in_two == in_one
            &&& between.state == State::Closed ==> in_two == with_pending(in_one, in_two.pending)
        }),
{
    assert(a.pending + (first + second) =~= (a.pending + first) + second);
    if a.state != State::Closed {
        if after_bytes(a, now, first).state != State::Closed {
            lemma_received_in_two(a, now, a.pending + first, second);
        } else {
            lemma_received_until_closed(a, now, a.pending + first, second);
        }
    }
}

} // verus!
