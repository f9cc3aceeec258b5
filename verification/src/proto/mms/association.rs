//! The MMS association: the state machine over the six OSI layers, for both roles.
//!
//! Bytes go in with the caller's `now`; bytes, events and a deadline come out. It owns no
//! socket and reads no clock.

pub mod conduct;
pub mod cuts;
pub mod handshake;
pub mod inbound;
pub mod laws;
pub mod machine;
pub mod messages;
pub mod opening;
pub mod types;
pub mod validity;

use std::collections::VecDeque;
use vstd::prelude::*;
use vstd::slice::*;
use crate::ber::list::views;
use crate::ber::{push_all, Class, Cursor, Encoder};
use crate::common::{Error, EventQueue, Instant};
use crate::proto::mms::outstanding::Outstanding;
use crate::proto::mms::pdu::{pdu_bytes, write_request, write_response, Mms, MmsModel};
use crate::proto::mms::request::ConfirmedRequest;
use crate::proto::mms::response::ConfirmedResponse;
use crate::proto::osi::cotp::{self, tpdu_bytes, Reassembler, Tpdu, TpduModel};
use crate::proto::osi::tpkt::{self, packet};
use laws::{lemma_free_id, lemma_received_pending};
use machine::{
    aborted, after_bytes, after_release, after_send, after_start, after_timeout, armed, called,
    carried, closed, counted, deadline, drained, emitted, encoded_fault, established, free_id,
    fresh, is_reject, length_fault, not_established, opening, queued, received, refused, released,
    segments, send_fault, sent, sound, start_fault, timed_out, transmitted, valid, AssociationModel,
};
use messages::{data_message, release_message};

pub use types::{
    AssociationConfig, AssociationEvent, AssociationStats, CloseReason, Negotiated, Role,
    Selectors, State, ACSE_CONTEXT, LOCAL_REF, MMS_CONTEXT, PORT, PORT_TLS,
};
use validity::{
    lemma_bytes_valid, lemma_call_valid, lemma_fresh_valid, lemma_rest_valid, lemma_timeout_valid,
    lemma_tpdu_keeps,
};

verus! {

/// One end of an MMS association.
#[derive(Debug)]
pub struct Association {
    cfg: AssociationConfig,
    role: Role,
    state: State,
    reader: tpkt::Reader,
    reassembler: Reassembler,
    out: VecDeque<Vec<u8>>,
    current: Vec<u8>,
    events: EventQueue<AssociationEvent>,
    stats: AssociationStats,
    outstanding: Outstanding,
    /// The next invoke identifier to try.
    pub next_invoke: i64,
    negotiated: Option<Negotiated>,
    connect_deadline: Option<Instant>,
    peer_max_pdu: usize,
    tpdu_data: usize,
    acse_context: u16,
    mms_context: u16,
    peer_ref: u16,
}

impl View for Association {
    type V = AssociationModel;

    closed spec fn view(&self) -> AssociationModel {
        AssociationModel {
            cfg: self.cfg@,
            role: self.role,
            state: self.state,
            pending: self.reader@,
            parts: self.reassembler@.parts,
            out: views(self.out@),
            events: self.events@,
            stats: self.stats,
            outstanding: self.outstanding@,
            next_invoke: self.next_invoke,
            negotiated: self.negotiated,
            connect_deadline: self.connect_deadline,
            peer_max_pdu: self.peer_max_pdu,
            tpdu_data: self.tpdu_data,
            acse_context: self.acse_context,
            mms_context: self.mms_context,
            peer_ref: self.peer_ref,
        }
    }
}

/// An association between two calls is a valid one, so what is proved of those is true of it.
pub proof fn lemma_wf(a: Association)
    requires
        a.wf(),
    ensures
        valid(a@),
{
}

impl Association {
    /// What holds of every association between two calls.
    pub closed spec fn wf(&self) -> bool {
        valid(self@) && self.holds()
    }

    /// What holds of every association at every step.
    spec fn holds(&self) -> bool {
        sound(self@) && self.reassembler@.limit == self.cfg.max_tsdu
    }

    // ---- bookkeeping -------------------------------------------------------------------

    fn new(cfg: AssociationConfig, role: Role) -> (r: Association)
        ensures
            r@ == fresh(cfg@, role),
            r.wf(),
    {
        let events = EventQueue::new(cfg.event_capacity);
        let reassembler = Reassembler::new(cfg.max_tsdu);
        let tpdu_data: usize = cotp::tpdu_size(cfg.tpdu_size_exp) - 3;
        let r = Association {
            cfg,
            role,
            state: State::Idle,
            reader: tpkt::Reader::new(),
            reassembler,
            out: VecDeque::new(),
            current: Vec::new(),
            events,
            stats: Default::default(),
            outstanding: Outstanding::new(),
            next_invoke: 1,
            negotiated: None,
            connect_deadline: None,
            peer_max_pdu: 0,
            tpdu_data,
            acse_context: ACSE_CONTEXT,
            mms_context: MMS_CONTEXT,
            peer_ref: 0,
        };
        assert(r@.out =~= Seq::<Seq<u8>>::empty());
        proof {
            lemma_fresh_valid(r@.cfg, role);
        }
        r
    }

    fn emit(&mut self, event: AssociationEvent)
        requires
            old(self).holds(),
        ensures
            final(self)@ == emitted(old(self)@, event@),
            final(self).holds(),
    {
        self.events.push(event);
        self.stats.events_dropped = self.events.dropped();
    }

    fn close(&mut self, reason: CloseReason)
        requires
            old(self).holds(),
        ensures
            final(self)@ == closed(old(self)@, reason),
            final(self).holds(),
    {
        if self.state == State::Closed {
            return;
        }
        self.state = State::Closed;
        self.connect_deadline = None;
        self.outstanding.clear();
        self.reassembler.reset();
        self.emit(AssociationEvent::Closed(reason));
    }

    fn refuse(&mut self, layer: &'static str, code: Option<i64>)
        requires
            old(self).holds(),
        ensures
            final(self)@ == refused(old(self)@, layer, code),
            final(self).holds(),
    {
        self.emit(AssociationEvent::Refused { layer, code });
        self.close(CloseReason::Refused);
    }

    fn establish(&mut self, n: Negotiated)
        requires
            old(self).holds(),
            1 <= n.max_outstanding <= 255,
        ensures
            final(self)@ == established(old(self)@, n),
            final(self).holds(),
    {
        self.state = State::Established;
        self.connect_deadline = None;
        self.negotiated = Some(n);
        self.emit(AssociationEvent::Established(n));
    }

    fn arm_connect_deadline(&mut self, now: Instant)
        requires
            old(self).holds(),
        ensures
            final(self)@ == armed(old(self)@, now),
            final(self).holds(),
    {
        if self.cfg.connect_timeout_ms > 0 {
            self.connect_deadline = Some(now.plus_millis(self.cfg.connect_timeout_ms));
        }
    }

    /// An identifier that no outstanding request has. There are never so many of them that
    /// every one that is tried could be taken.
    fn take_invoke_id(&mut self) -> (r: i64)
        requires
            old(self).holds(),
        ensures
            ({
                let a = old(self)@;
                let (id, next) = free_id(a.next_invoke, a.outstanding, a.outstanding.len() + 1);
                r == id && final(self)@ == (AssociationModel { next_invoke: next, ..a })
            }),
            final(self).holds(),
    {
        let n: usize = self.outstanding.len();
        let ghost all = free_id(self.next_invoke, self@.outstanding, (n + 1) as nat);
        let mut i: usize = 0;
        loop
            invariant_except_break
                i <= n,
                all == free_id(self.next_invoke, self@.outstanding, (n + 1 - i) as nat),
            invariant
                n == old(self)@.outstanding.len(),
                all == free_id(old(self).next_invoke, old(self)@.outstanding, (n + 1) as nat),
                self@ == (AssociationModel { next_invoke: self.next_invoke, ..old(self)@ }),
                self.holds(),
            ensures
                all == (self.next_invoke, self.next_invoke),
            decreases n - i,
        {
            let id: i64 = self.next_invoke;
            self.next_invoke =
            if id >= u32::MAX as i64 {
                1
            } else {
                id + 1
            };
            if !self.outstanding.contains(id) {
                return id;
            }
            proof {
                reveal_with_fuel(free_id, 3);
            }
            if i == n {
                break;
            }
            i += 1;
        }
        self.next_invoke
    }

    // ---- outbound ----------------------------------------------------------------------

    fn queue_tpkt(&mut self, tpdu: &[u8])
        requires
            old(self).holds(),
            tpdu@.len() <= 65_531,
        ensures
            final(self)@ == queued(old(self)@, tpdu@),
            final(self).holds(),
    {
        if let Ok(header) = tpkt::header(tpdu.len()) {
            let mut p: Vec<u8> = Vec::new();
            push_all(&mut p, &header);
            push_all(&mut p, tpdu);
            assert(p@ =~= packet(tpdu@));
            let ghost before = self.out@;
            self.out.push_back(p);
            assert(views(self.out@) =~= views(before).push(packet(tpdu@)));
        }
    }

    /// Split a TSDU across DT TPDUs and frame each in TPKT.
    fn send_tsdu(&mut self, tsdu: &[u8])
        requires
            old(self).holds(),
        ensures
            final(self)@ == sent(old(self)@, tsdu@),
            final(self).holds(),
    {
        let chunk: usize = self.tpdu_data;
        let mut at: usize = 0;
        assert(tsdu@.skip(0) =~= tsdu@);
        loop
            invariant_except_break
                at <= tsdu@.len(),
                self@.out + segments(tsdu@.skip(at as int), chunk as nat) == old(self)@.out
                    + segments(tsdu@, chunk as nat),
            invariant
                125 <= chunk <= 8189,
                self@ == (AssociationModel { out: self@.out, ..old(self)@ }),
                self.holds(),
            ensures
                self@.out == old(self)@.out + segments(tsdu@, chunk as nat),
            decreases tsdu@.len() - at,
        {
            let ghost rest = tsdu@.skip(at as int);
            let ghost before = self@.out;
            let eot = tsdu.len() - at <= chunk;
            let end: usize = if eot {
                tsdu.len()
            } else {
                at + chunk
            };
            let payload = slice_subrange(tsdu, at, end);
            let mut body: Vec<u8> = Vec::new();
            assert(payload@ =~= if eot { rest } else { rest.take(chunk as int) });
            let ghost unit = TpduModel::Data { eot, payload: payload@ };
            let _ = (cotp::Tpdu::Data { eot, payload }).write(&mut body);
            assert(body@ =~= tpdu_bytes(unit));
            self.queue_tpkt(&body);
            if eot {
                assert(self@.out =~= before + segments(rest, chunk as nat));
                break;
            }
            assert(tsdu@.skip(end as int) =~= rest.skip(chunk as int));
            assert(self@.out + segments(rest.skip(chunk as int), chunk as nat) =~= before
                + segments(rest, chunk as nat));
            at = end;
        }
    }

    fn send_user_data(&mut self, context: u16, value: &[u8])
        requires
            old(self).holds(),
        ensures
            final(self)@ == carried(old(self)@, context, value@),
            final(self).holds(),
    {
        let tsdu = data_message(context, value);
        self.send_tsdu(&tsdu);
    }

    fn check_length(&self, n: usize) -> (r: Result<(), Error>)
        ensures
            r == match length_fault(self@, n as nat) {
                Some(f) => Err::<(), Error>(f),
                None => Ok(()),
            },
    {
        if self.peer_max_pdu > 0 && n > self.peer_max_pdu {
            return Err(Error::LimitExceeded { limit: "peer max PDU", value: n });
        }
        Ok(())
    }

    fn count_reject(&mut self)
        requires
            old(self).holds(),
        ensures
            final(self)@ == counted(old(self)@, true),
            final(self).holds(),
    {
        self.stats.rejected = self.stats.rejected.saturating_add(1);
    }

    // ---- the two ends ------------------------------------------------------------------

    /// The client end. Nothing is sent until [`Association::start`].
    pub fn client(cfg: AssociationConfig) -> (r: Association)
        ensures
            r@ == fresh(cfg@, Role::Client),
            r.wf(),
    {
        Association::new(cfg, Role::Client)
    }

    /// The server end. It waits for a connection request.
    pub fn server(cfg: AssociationConfig) -> (r: Association)
        ensures
            r@ == fresh(cfg@, Role::Server),
            r.wf(),
    {
        Association::new(cfg, Role::Server)
    }

    /// Where the handshake has got to.
    pub fn state(&self) -> (r: State)
        ensures
            r == self@.state,
    {
        self.state
    }

    /// Whether confirmed requests may be issued.
    pub fn is_established(&self) -> (r: bool)
        ensures
            r == (self@.state == State::Established),
    {
        self.state == State::Established
    }

    /// What the two ends agreed on, once they have.
    pub fn negotiated(&self) -> (r: Option<Negotiated>)
        ensures
            r == self@.negotiated,
    {
        self.negotiated
    }

    /// The counters.
    pub fn stats(&self) -> (r: AssociationStats)
        ensures
            r == self@.stats,
    {
        self.stats
    }

    /// Confirmed requests waiting for an answer.
    pub fn outstanding(&self) -> (r: usize)
        ensures
            r == self@.outstanding.len(),
    {
        self.outstanding.len()
    }

    /// Open the association: queues the connection request.
    pub fn start(&mut self, now: Instant) -> (r: Result<(), Error>)
        requires
            old(self).wf(),
        ensures
            match start_fault(old(self)@) {
                Some(f) => r == Err::<(), Error>(f) && final(self)@ == old(self)@,
                None => r is Ok && final(self)@ == after_start(old(self)@, now),
            },
            final(self).wf(),
    {
        proof {
            lemma_rest_valid(self@, now, MmsModel::ConcludeRequest);
        }
        if self.role != Role::Client {
            return Err(Error::InvalidValue("only a client association starts a connection"));
        }
        if self.state != State::Idle {
            return Err(Error::InvalidValue("association already started"));
        }
        let cr = Tpdu::ConnectionRequest(
            cotp::Connect::request(
                LOCAL_REF,
                cotp::Tsel::new(slice_to_vec(&self.cfg.local.t_sel)),
                cotp::Tsel::new(slice_to_vec(&self.cfg.remote.t_sel)),
                self.cfg.tpdu_size_exp,
            ),
        );
        let mut body: Vec<u8> = Vec::new();
        cr.write(&mut body)?;
        assert(body@ =~= tpdu_bytes(TpduModel::ConnectionRequest(opening(old(self)@.cfg))));
        self.queue_tpkt(&body);
        self.state = State::Connecting;
        self.arm_connect_deadline(now);
        Ok(())
    }

    /// Feed bytes read from the transport.
    pub fn on_bytes(&mut self, now: Instant, bytes: &[u8])
        requires
            old(self).wf(),
        ensures
            final(self)@ == after_bytes(old(self)@, now, bytes@),
            final(self)@.cfg == old(self)@.cfg,
            final(self)@.role == old(self)@.role,
            final(self).wf(),
    {
        if self.state == State::Closed {
            return;
        }
        self.reader.push(bytes);
        let ghost all = received(self@, now, self@.pending);
        assert(all == received(old(self)@, now, self@.pending)) by {
            assert(AssociationModel { pending: self@.pending, ..old(self)@ } == self@);
            lemma_received_pending(old(self)@, now, self@.pending);
        }
        proof {
            lemma_bytes_valid(old(self)@, now, bytes@);
        }
        loop
            invariant
                self.wf(),
                valid(all),
                self@.cfg == old(self)@.cfg,
                self@.role == old(self)@.role,
                all == received(self@, now, self@.pending),
                all == after_bytes(old(self)@, now, bytes@),
            decreases self@.pending.len(),
        {
            let tpdu = match self.reader.next_tpdu() {
                Ok(Some(t)) => slice_to_vec(t),
                Ok(None) => return,
                Err(_) => {
                    self.close(CloseReason::ProtocolError);
                    return;
                },
            };
            self.stats.packets_received = self.stats.packets_received.saturating_add(1);
            proof {
                lemma_tpdu_keeps(self@, now, tpdu@);
            }
            if let Err(e) = self.on_tpdu(now, &tpdu) {
                self.stats.malformed = self.stats.malformed.saturating_add(1);
                self.emit(AssociationEvent::Malformed(e));
                self.close(CloseReason::ProtocolError);
                return;
            }
            if self.state == State::Closed {
                return;
            }
        }
    }

    /// Time passed: expire the handshake, a release, and any request that went unanswered.
    pub fn on_timeout(&mut self, now: Instant)
        requires
            old(self).wf(),
        ensures
            final(self)@ == after_timeout(old(self)@, now),
            final(self).wf(),
    {
        proof {
            lemma_timeout_valid(self@, now);
        }
        if let Some(deadline) = self.connect_deadline {
            if now.nanos >= deadline.nanos {
                match self.state {
                    State::Releasing => {
                        self.close(CloseReason::Released);
                        return;
                    },
                    State::Established | State::Closed => {},
                    _ => {
                        self.close(CloseReason::ConnectTimeout);
                        return;
                    },
                }
            }
        }
        if self.cfg.request_timeout_ms == 0 {
            return;
        }
        let expired = self.outstanding.expired(now);
        let mut i: usize = 0;
        assert(expired@.skip(0) =~= expired@);
        while i < expired.len()
            invariant
                i <= expired.len(),
                self.holds(),
                timed_out(old(self)@, expired@) == timed_out(self@, expired@.skip(i as int)),
            decreases expired.len() - i,
        {
            let id: i64 = expired[i];
            assert(expired@.skip(i as int).skip(1) =~= expired@.skip(i + 1));
            self.outstanding.remove(id);
            self.stats.timeouts = self.stats.timeouts.saturating_add(1);
            self.emit(AssociationEvent::Timeout { invoke_id: id });
            i += 1;
        }
    }

    /// The next deadline the caller should wake this association at.
    pub fn next_timeout(&self) -> (r: Option<Instant>)
        ensures
            r == deadline(self@),
    {
        let handshake = if self.state == State::Established || self.state == State::Closed {
            None
        } else {
            self.connect_deadline
        };
        let request = if self.cfg.request_timeout_ms == 0 {
            None
        } else {
            self.outstanding.earliest()
        };
        match (handshake, request) {
            (Some(a), Some(b)) => if b.nanos < a.nanos {
                Some(b)
            } else {
                Some(a)
            },
            (Some(a), None) => Some(a),
            (None, b) => b,
        }
    }

    /// The next packet to write to the transport. Valid until the next call.
    pub fn poll_transmit(&mut self) -> (r: Option<&[u8]>)
        requires
            old(self).wf(),
        ensures
            match r {
                Some(p) => old(self)@.out.len() > 0 && p@ == old(self)@.out[0],
                None => old(self)@.out.len() == 0,
            },
            final(self)@ == transmitted(old(self)@),
            final(self).wf(),
    {
        let ghost before = self.out@;
        match self.out.pop_front() {
            Some(p) => {
                self.current = p;
                assert(views(self.out@) =~= views(before).skip(1));
                self.stats.packets_sent = self.stats.packets_sent.saturating_add(1);
                Some(self.current.as_slice())
            },
            None => None,
        }
    }

    /// The next event.
    pub fn poll_event(&mut self) -> (r: Option<AssociationEvent>)
        requires
            old(self).wf(),
        ensures
            match r {
                Some(e) => old(self)@.events.items.len() > 0 && e@ == old(self)@.events.items[0],
                None => old(self)@.events.items.len() == 0,
            },
            final(self)@ == drained(old(self)@),
            final(self).wf(),
    {
        proof {
            lemma_rest_valid(self@, Instant { nanos: 0 }, MmsModel::ConcludeRequest);
        }
        let e = self.events.pop();
        self.stats.events_dropped = self.events.dropped();
        e
    }

    /// Issue a confirmed request, returning the invoke identifier its answer will carry.
    ///
    /// Fails when the association is not up, or when this end already has as many requests in
    /// flight as were negotiated.
    pub fn call(&mut self, now: Instant, service: &ConfirmedRequest<'_>) -> (r: Result<i64, Error>)
        requires
            old(self).wf(),
        ensures
            (r, final(self)@) == called(old(self)@, now, service@),
            r matches Ok(id) ==> 1 <= id <= u32::MAX && !old(self)@.outstanding.contains_key(id),
            final(self).wf(),
    {
        if self.state != State::Established {
            return Err(Error::InvalidValue("association is not established"));
        }
        proof {
            lemma_call_valid(self@, now, service@);
        }
        let allowed: usize = match self.negotiated {
            Some(n) => n.max_outstanding,
            None => self.cfg.max_outstanding as usize,
        };
        let waiting: usize = self.outstanding.len();
        if waiting >= allowed {
            return Err(
                Error::LimitExceeded {
                    limit: "max_outstanding",
                    value: waiting.saturating_add(1),
                },
            );
        }
        proof {
            lemma_free_id(self@.next_invoke, self@.outstanding);
        }
        let invoke_id = self.take_invoke_id();
        let mut e = Encoder::new();
        write_request(invoke_id, service, &mut e)?;
        assert(e@ =~= pdu_bytes(MmsModel::ConfirmedRequest { invoke_id, service: service@ }));
        self.check_length(e.len())?;
        let context = self.mms_context;
        self.send_user_data(context, e.as_bytes());
        let deadline = now.plus_millis(self.cfg.request_timeout_ms);
        self.outstanding.insert(invoke_id, deadline);
        self.stats.requests_sent = self.stats.requests_sent.saturating_add(1);
        Ok(invoke_id)
    }

    /// Answer a confirmed request.
    pub fn respond(&mut self, invoke_id: i64, service: &ConfirmedResponse<'_>) -> (r: Result<
        (),
        Error,
    >)
        requires
            old(self).wf(),
        ensures
            ({
                let m = MmsModel::ConfirmedResponse { invoke_id, service: service@ };
                match send_fault(old(self)@, m) {
                    Some(f) => r == Err::<(), Error>(f) && final(self)@ == old(self)@,
                    None => r is Ok && final(self)@ == after_send(old(self)@, m),
                }
            }),
            final(self).wf(),
    {
        if self.state != State::Established {
            return Err(Error::InvalidValue("association is not established"));
        }
        let mut e = Encoder::new();
        write_response(invoke_id, service, &mut e)?;
        assert(e@ =~= pdu_bytes(MmsModel::ConfirmedResponse { invoke_id, service: service@ }));
        self.check_length(e.len())?;
        let context = self.mms_context;
        self.send_user_data(context, e.as_bytes());
        Ok(())
    }

    /// Send any MMS PDU on the established association.
    ///
    /// It is held to the size that the peer accepts before it is framed.
    pub fn send(&mut self, pdu: &Mms<'_>) -> (r: Result<(), Error>)
        requires
            old(self).wf(),
        ensures
            match send_fault(old(self)@, pdu@) {
                Some(f) => r == Err::<(), Error>(f) && final(self)@ == old(self)@,
                None => r is Ok && final(self)@ == after_send(old(self)@, pdu@),
            },
            final(self).wf(),
    {
        if self.state != State::Established {
            return Err(Error::InvalidValue("association is not established"));
        }
        let bytes = pdu.to_vec()?;
        self.check_length(bytes.len())?;
        let context = self.mms_context;
        self.send_user_data(context, &bytes);
        if let Mms::Reject(_) = pdu {
            self.count_reject();
        }
        Ok(())
    }

    /// Send an encoded MMS PDU on the established association.
    pub fn send_encoded(&mut self, pdu: &[u8]) -> (r: Result<(), Error>)
        requires
            old(self).wf(),
        ensures
            match encoded_fault(old(self)@, pdu@) {
                Some(f) => r == Err::<(), Error>(f) && final(self)@ == old(self)@,
                None => r is Ok && final(self)@ == counted(
                    carried(old(self)@, old(self)@.mms_context, pdu@),
                    is_reject(pdu@),
                ),
            },
            final(self).wf(),
    {
        if self.state != State::Established {
            return Err(Error::InvalidValue("association is not established"));
        }
        self.check_length(pdu.len())?;
        let context = self.mms_context;
        self.send_user_data(context, pdu);
        if let Ok(t) = Cursor::new(pdu).next_required() {
            if t.tag.class == Class::Context && t.tag.number == 4 {
                self.count_reject();
            }
        }
        Ok(())
    }

    /// Release the association in an orderly way.
    pub fn release(&mut self, now: Instant) -> (r: Result<(), Error>)
        requires
            old(self).wf(),
        ensures
            (r, final(self)@) == released(old(self)@, now),
            if old(self)@.state != State::Established {
                r == Err::<(), Error>(not_established()) && final(self)@ == old(self)@
            } else {
                r is Ok && final(self)@ == after_release(old(self)@, now)
            },
            final(self).wf(),
    {
        if self.state != State::Established {
            return Err(Error::InvalidValue("association is not established"));
        }
        let tsdu = release_message(self.acse_context, false);
        self.send_tsdu(&tsdu);
        self.state = State::Releasing;
        self.connect_deadline = Some(now.plus_millis(self.cfg.connect_timeout_ms));
        Ok(())
    }

    /// Abort at once: a disconnect request, and the association is over.
    pub fn abort(&mut self)
        requires
            old(self).wf(),
        ensures
            final(self)@ == aborted(old(self)@),
            final(self).wf(),
    {
        if self.state == State::Closed {
            return;
        }
        let dr = Tpdu::DisconnectRequest {
            dst_ref: self.peer_ref,
            src_ref: LOCAL_REF,
            reason: 0,
        };
        proof {
            lemma_rest_valid(self@, Instant { nanos: 0 }, MmsModel::ConcludeRequest);
        }
        let mut body: Vec<u8> = Vec::new();
        let _ = dr.write(&mut body);
        assert(body@ =~= tpdu_bytes(dr@));
        self.queue_tpkt(&body);
        self.close(CloseReason::Aborted);
    }
}

} // verus!
