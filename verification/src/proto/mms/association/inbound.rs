//! What an association does with what arrives.

use vstd::prelude::*;
use vstd::slice::*;
use crate::ber::list::views;
use crate::ber::opt_view;
use crate::common::{Error, Instant};
use crate::proto::mms::association::machine::{
    acquainted, agreed_exp, agreement, answered, as_length, concluded, confirm_of, delivered, done,
    kept, on_aare, on_aarq, on_connection_confirm, on_connection_request, on_proposal,
    on_session_accept, on_session_connect, on_tpdu, on_tsdu, on_user_data, own_budget,
    peer_finished, reached, refusal_in, rejected, value_in, walked, within,
};
use crate::proto::mms::association::messages::{
    accept_message, connect_message, data_message, release_message,
};
use crate::proto::mms::association::types::{
    AssociationEvent, CloseReason, Negotiated, Role, State, ACSE_CONTEXT, LOCAL_REF, MMS_CONTEXT,
};
use crate::proto::mms::association::Association;
use crate::proto::mms::initiate::Initiate;
use crate::proto::mms::pdu::Mms;
use crate::proto::mms::reject::Reject;
use crate::proto::osi::acse::Apdu;
use crate::proto::osi::cotp::{self, tpdu_bytes, Tpdu, TpduModel};
use crate::proto::osi::oid::Oid;
use crate::proto::osi::presentation::{ContextResult, Pdv, Ppdu, RESULT_ACCEPTANCE};
use crate::proto::osi::session::Spdu;

verus! {

fn length_of(v: Option<i64>) -> (r: usize)
    ensures
        r == as_length(v),
{
    match v {
        Some(n) => if n >= 0 && n as u64 <= usize::MAX as u64 {
            n as usize
        } else {
            0
        },
        None => 0,
    }
}

fn kept_within(v: usize, low: usize, high: usize) -> (r: usize)
    ensures
        r == within(v, low, high),
{
    if v < low {
        low
    } else if v > high {
        high
    } else {
        v
    }
}

fn find_value<'a>(pdvs: &Vec<Pdv<'a>>, context: u16) -> (r: Option<&'a [u8]>)
    ensures
        opt_view(r) == value_in(views(pdvs@), context, 0),
{
    let mut i: usize = 0;
    while i < pdvs.len()
        invariant
            i <= pdvs.len(),
            value_in(views(pdvs@), context, 0) == value_in(views(pdvs@), context, i as nat),
        decreases pdvs.len() - i,
    {
        let p = pdvs[i];
        assert(views(pdvs@)[i as int] == p@);
        if p.context_id == context {
            return p.values.single();
        }
        i += 1;
    }
    None
}

fn find_refusal(results: &Vec<ContextResult<'_>>) -> (r: Option<i64>)
    ensures
        r == refusal_in(views(results@), 0),
{
    let mut i: usize = 0;
    while i < results.len()
        invariant
            i <= results.len(),
            refusal_in(views(results@), 0) == refusal_in(views(results@), i as nat),
        decreases results.len() - i,
    {
        let c = results[i];
        assert(views(results@)[i as int] == c@);
        if c.result != RESULT_ACCEPTANCE {
            return Some(c.result);
        }
        i += 1;
    }
    None
}

impl Association {
    /// The peer released the association.
    fn on_peer_finish(&mut self)
        requires
            old(self).holds(),
        ensures
            final(self)@ == peer_finished(old(self)@),
            final(self).holds(),
            kept(old(self)@, final(self)@),
    {
        let spdu = release_message(self.acse_context, true);
        self.send_tsdu(&spdu);
        self.close(CloseReason::PeerReleased);
    }

    fn deliver_mms(&mut self, bytes: &[u8])
        requires
            old(self).holds(),
        ensures
            final(self)@ == delivered(old(self)@, bytes@),
            final(self).holds(),
            kept(old(self)@, final(self)@),
            final(self)@.acse_context == old(self)@.acse_context,
    {
        let pdu = match Mms::parse(bytes, &self.cfg.limits) {
            Ok(p) => p,
            Err(e) => {
                self.stats.malformed = self.stats.malformed.saturating_add(1);
                self.emit(AssociationEvent::Malformed(e));
                return;
            },
        };
        match &pdu {
            Mms::ConfirmedResponse { invoke_id, .. } => self.on_answer(*invoke_id, bytes),
            Mms::ConfirmedError { invoke_id, .. } => self.on_answer(*invoke_id, bytes),
            Mms::ConfirmedRequest { invoke_id, .. } => {
                let invoke_id = *invoke_id;
                self.emit(AssociationEvent::Request { invoke_id, pdu: slice_to_vec(bytes) });
            },
            Mms::Unconfirmed(_) => {
                self.stats.reports_received = self.stats.reports_received.saturating_add(1);
                self.emit(AssociationEvent::Unconfirmed { pdu: slice_to_vec(bytes) });
            },
            Mms::Reject(reject) => self.on_reject(*reject),
            Mms::ConcludeRequest => self.on_conclude(),
            Mms::ConcludeResponse => self.close(CloseReason::Released),
            _ => self.emit(AssociationEvent::Unconfirmed { pdu: slice_to_vec(bytes) }),
        }
    }

    /// A reject. If it names a request, it answers it.
    fn on_reject(&mut self, reject: Reject)
        requires
            old(self).holds(),
        ensures
            final(self)@ == rejected(old(self)@, reject),
            final(self).holds(),
            kept(old(self)@, final(self)@),
            final(self)@.acse_context == old(self)@.acse_context,
    {
        if let Some(id) = reject.original_invoke_id {
            self.outstanding.remove(id);
        }
        self.stats.rejected = self.stats.rejected.saturating_add(1);
        self.emit(AssociationEvent::Rejected { invoke_id: reject.original_invoke_id, reject });
    }

    /// The orderly release of MMS itself.
    fn on_conclude(&mut self)
        requires
            old(self).holds(),
        ensures
            final(self)@ == concluded(old(self)@),
            final(self).holds(),
            kept(old(self)@, final(self)@),
            final(self)@.acse_context == old(self)@.acse_context,
    {
        if let Ok(b) = Mms::ConcludeResponse.to_vec() {
            let tsdu = data_message(self.mms_context, &b);
            self.send_tsdu(&tsdu);
        }
        self.close(CloseReason::PeerReleased);
    }

    /// A response or an error. One to a request that is not outstanding is still handed up.
    fn on_answer(&mut self, invoke_id: i64, bytes: &[u8])
        requires
            old(self).holds(),
        ensures
            final(self)@ == answered(old(self)@, invoke_id, bytes@),
            final(self).holds(),
            kept(old(self)@, final(self)@),
            final(self)@.acse_context == old(self)@.acse_context,
    {
        self.outstanding.remove(invoke_id);
        self.stats.responses_received = self.stats.responses_received.saturating_add(1);
        self.emit(AssociationEvent::Response { invoke_id, pdu: slice_to_vec(bytes) });
    }

    /// A PDU after the handshake: presentation user data.
    fn on_user_data(&mut self, b: &[u8]) -> (r: Result<(), Error>)
        requires
            old(self).holds(),
        ensures
            reached(r, final(self)@, on_user_data(old(self)@, b@)),
            final(self).holds(),
            kept(old(self)@, final(self)@),
    {
        let pdvs = match Ppdu::parse(b, false)? {
            Ppdu::UserData(pdvs) => pdvs,
            _ => {
                self.close(CloseReason::ProtocolError);
                return Ok(());
            },
        };
        let ghost all = views(pdvs@);
        let ghost start = self@;
        let mut i: usize = 0;
        while i < pdvs.len()
            invariant
                i <= pdvs.len(),
                all == views(pdvs@),
                self.holds(),
                kept(start, self@),
                walked(start, all, 0) == walked(self@, all, i as nat),
                start == old(self)@,
                on_user_data(start, b@) == done(
                    walked(start, all, 0),
                ),
            decreases pdvs.len() - i,
        {
            let p = pdvs[i];
            assert(all[i as int] == p@);
            i += 1;
            let value = match p.values.single() {
                Some(value) => value,
                None => continue,
            };
            if p.context_id == self.acse_context {
                match Apdu::parse(value) {
                    Ok(Apdu::Release(_)) => {
                        self.on_peer_finish();
                        return Ok(());
                    },
                    Ok(Apdu::ReleaseResponse(_)) => {
                        self.close(CloseReason::Released);
                        return Ok(());
                    },
                    Ok(Apdu::Abort(_)) => {
                        self.close(CloseReason::Aborted);
                        return Ok(());
                    },
                    _ => {},
                }
            } else {
                self.deliver_mms(value);
            }
        }
        Ok(())
    }

    /// The most requests this end may have outstanding, at least one.
    fn own_budget(&self) -> (r: usize)
        ensures
            r == own_budget(self@.cfg),
    {
        if self.cfg.max_outstanding == 0 {
            1
        } else {
            self.cfg.max_outstanding as usize
        }
    }

    fn agreement(&self, max_outstanding: usize) -> (r: Negotiated)
        ensures
            r == agreement(self@, max_outstanding),
    {
        Negotiated {
            max_pdu: if self.peer_max_pdu == 0 {
                self.cfg.max_pdu as usize
            } else {
                self.peer_max_pdu
            },
            max_outstanding,
            tpdu_data: self.tpdu_data,
            mms_context: self.mms_context,
        }
    }

    fn on_proposal(&mut self, contexts: usize, peer: &Initiate<'_>) -> (r: Result<(), Error>)
        requires
            old(self).holds(),
        ensures
            reached(r, final(self)@, on_proposal(old(self)@, contexts as nat, peer@)),
            final(self).holds(),
            kept(old(self)@, final(self)@),
    {
        self.peer_max_pdu = length_of(peer.local_detail);
        let mine = kept_within(
            length_of(Some(peer.max_serv_outstanding_called)),
            1,
            self.own_budget(),
        );
        let spdu = accept_message(
            &self.cfg,
            contexts,
            self.mms_context,
            self.acse_context,
            peer,
        )?;
        self.send_tsdu(&spdu);
        let n = self.agreement(mine);
        self.establish(n);
        Ok(())
    }

    fn on_aarq(&mut self, contexts: usize, aarq: &[u8]) -> (r: Result<(), Error>)
        requires
            old(self).holds(),
        ensures
            reached(r, final(self)@, on_aarq(old(self)@, contexts as nat, aarq@)),
            final(self).holds(),
            kept(old(self)@, final(self)@),
    {
        let a = match Apdu::parse(aarq)? {
            Apdu::Associate(a) => a,
            _ => {
                self.close(CloseReason::ProtocolError);
                return Ok(());
            },
        };
        let initiate = match a.mms_pdu() {
            Some(b) => b,
            None => return Err(Error::InvalidValue("AARQ carries no Initiate")),
        };
        match Mms::parse(initiate, &self.cfg.limits)? {
            Mms::InitiateRequest(peer) => self.on_proposal(contexts, &peer),
            _ => {
                self.close(CloseReason::ProtocolError);
                Ok(())
            },
        }
    }

    /// Server: the CP with the AARQ and the initiate request inside it.
    fn on_session_connect(&mut self, b: &[u8]) -> (r: Result<(), Error>)
        requires
            old(self).holds(),
        ensures
            reached(r, final(self)@, on_session_connect(old(self)@, b@)),
            final(self).holds(),
            kept(old(self)@, final(self)@),
    {
        if self.role != Role::Server {
            self.close(CloseReason::ProtocolError);
            return Ok(());
        }
        let cp = match Ppdu::parse(b, true)? {
            Ppdu::Connect(cp) => cp,
            _ => {
                self.close(CloseReason::ProtocolError);
                return Ok(());
            },
        };
        self.mms_context =
        match cp.context_for(Oid::mms_abstract_syntax()) {
            Some(c) => c,
            None => MMS_CONTEXT,
        };
        self.acse_context =
        match cp.context_for(Oid::acse_abstract_syntax()) {
            Some(c) => c,
            None => ACSE_CONTEXT,
        };
        match find_value(&cp.user_data, self.acse_context) {
            Some(aarq) => self.on_aarq(cp.contexts.len(), aarq),
            None => Err(Error::InvalidValue("CP carries no ACSE PDU")),
        }
    }

    fn on_aare(&mut self, aare: &[u8]) -> (r: Result<(), Error>)
        requires
            old(self).holds(),
        ensures
            reached(r, final(self)@, on_aare(old(self)@, aare@)),
            final(self).holds(),
            kept(old(self)@, final(self)@),
    {
        let a = match Apdu::parse(aare)? {
            Apdu::AssociateResponse(a) => a,
            _ => {
                self.close(CloseReason::ProtocolError);
                return Ok(());
            },
        };
        if !a.accepted() {
            self.refuse("acse", a.result);
            return Ok(());
        }
        let initiate = match a.mms_pdu() {
            Some(b) => b,
            None => return Err(Error::InvalidValue("AARE carries no Initiate response")),
        };
        match Mms::parse(initiate, &self.cfg.limits)? {
            Mms::InitiateResponse(peer) => {
                self.peer_max_pdu = length_of(peer.local_detail);
                let mine = kept_within(
                    length_of(Some(peer.max_serv_outstanding_calling)),
                    1,
                    self.own_budget(),
                );
                let n = self.agreement(mine);
                self.establish(n);
                Ok(())
            },
            Mms::InitiateError(_) => {
                self.refuse("mms", None);
                Ok(())
            },
            _ => {
                self.close(CloseReason::ProtocolError);
                Ok(())
            },
        }
    }

    /// Client: the CPA with the AARE and the initiate response inside it.
    fn on_session_accept(&mut self, b: &[u8]) -> (r: Result<(), Error>)
        requires
            old(self).holds(),
        ensures
            reached(r, final(self)@, on_session_accept(old(self)@, b@)),
            final(self).holds(),
            kept(old(self)@, final(self)@),
    {
        if self.role != Role::Client {
            self.close(CloseReason::ProtocolError);
            return Ok(());
        }
        let cp = match Ppdu::parse(b, true)? {
            Ppdu::Accept(cp) => cp,
            Ppdu::Reject(cp) => {
                self.refuse("presentation", cp.provider_reason);
                return Ok(());
            },
            _ => {
                self.close(CloseReason::ProtocolError);
                return Ok(());
            },
        };
        let refusal = find_refusal(&cp.results);
        if cp.results.len() == 0 || refusal.is_some() {
            self.refuse("presentation", refusal);
            return Ok(());
        }
        match find_value(&cp.user_data, self.acse_context) {
            Some(aare) => self.on_aare(aare),
            None => Err(Error::InvalidValue("CPA carries no ACSE PDU")),
        }
    }

    fn on_tsdu(&mut self, tsdu: &[u8]) -> (r: Result<(), Error>)
        requires
            old(self).holds(),
        ensures
            reached(r, final(self)@, on_tsdu(old(self)@, tsdu@)),
            final(self).holds(),
            kept(old(self)@, final(self)@),
    {
        reveal(on_tsdu);
        match Spdu::parse(tsdu)? {
            Spdu::Connect(c) => self.on_session_connect(c.user_data),
            Spdu::Accept(c) => self.on_session_accept(c.user_data),
            Spdu::Refuse { reason, .. } => {
                let code: Option<i64> = match reason {
                    Some(r) => Some(r as i64),
                    None => None,
                };
                self.refuse("session", code);
                Ok(())
            },
            Spdu::DataTransfer(p) => self.on_user_data(p),
            Spdu::Finish(_) => {
                self.on_peer_finish();
                Ok(())
            },
            Spdu::Disconnect(_) => {
                self.close(CloseReason::Released);
                Ok(())
            },
            Spdu::Abort(_) => {
                self.close(CloseReason::Aborted);
                Ok(())
            },
            Spdu::AbortAccept => {
                self.close(CloseReason::Aborted);
                Ok(())
            },
            Spdu::Other { .. } => {
                self.close(CloseReason::ProtocolError);
                Ok(())
            },
        }
    }

    /// Learn the TPDU size and the reference of the peer. Class 0 negotiates down.
    fn acquaint(&mut self, c: &cotp::Connect) -> (r: u8)
        requires
            old(self).holds(),
        ensures
            r == agreed_exp(old(self)@, c@),
            final(self)@ == acquainted(old(self)@, c@),
            final(self).holds(),
            kept(old(self)@, final(self)@),
    {
        let theirs: u8 = match c.tpdu_size_exp {
            Some(e) => e,
            None => cotp::TPDU_SIZE_MIN_EXP,
        };
        let exp: u8 = if theirs <= self.cfg.tpdu_size_exp {
            theirs
        } else {
            self.cfg.tpdu_size_exp
        };
        self.tpdu_data = cotp::tpdu_size(exp) - 3;
        self.peer_ref = c.src_ref;
        exp
    }

    fn on_connection_request(&mut self, now: Instant, c: &cotp::Connect) -> (r: Result<(), Error>)
        requires
            old(self).holds(),
        ensures
            reached(r, final(self)@, on_connection_request(old(self)@, now, c@)),
            final(self).holds(),
            kept(old(self)@, final(self)@),
    {
        if self.role != Role::Server {
            self.close(CloseReason::ProtocolError);
            return Ok(());
        }
        let exp = self.acquaint(c);
        let cc = cotp::Connect {
            dst_ref: c.src_ref,
            src_ref: LOCAL_REF,
            class_options: 0,
            tpdu_size_exp: Some(exp),
            src_tsel: cotp::duplicate_tsel(&c.dst_tsel),
            dst_tsel: cotp::duplicate_tsel(&c.src_tsel),
        };
        assert(cc@ == confirm_of(old(self)@, c@));
        let tpdu = Tpdu::ConnectionConfirm(cc);
        let mut body: Vec<u8> = Vec::new();
        tpdu.write(&mut body)?;
        assert(body@ =~= tpdu_bytes(TpduModel::ConnectionConfirm(confirm_of(old(self)@, c@))));
        self.queue_tpkt(&body);
        self.state = State::Associating;
        self.arm_connect_deadline(now);
        Ok(())
    }

    fn on_connection_confirm(&mut self, c: &cotp::Connect) -> (r: Result<(), Error>)
        requires
            old(self).holds(),
        ensures
            reached(r, final(self)@, on_connection_confirm(old(self)@, c@)),
            final(self).holds(),
            kept(old(self)@, final(self)@),
    {
        if self.role != Role::Client || self.state != State::Connecting {
            self.close(CloseReason::ProtocolError);
            return Ok(());
        }
        let _ = self.acquaint(c);
        self.state = State::Associating;
        let spdu = connect_message(&self.cfg)?;
        self.send_tsdu(&spdu);
        Ok(())
    }

    pub(super) fn on_tpdu(&mut self, now: Instant, tpdu: &[u8]) -> (r: Result<(), Error>)
        requires
            old(self).holds(),
        ensures
            reached(r, final(self)@, on_tpdu(old(self)@, now, tpdu@)),
            final(self).holds(),
            kept(old(self)@, final(self)@),
    {
        reveal(on_tpdu);
        match Tpdu::parse(tpdu)? {
            Tpdu::ConnectionRequest(c) => self.on_connection_request(now, &c),
            Tpdu::ConnectionConfirm(c) => self.on_connection_confirm(&c),
            Tpdu::DisconnectRequest { .. } => {
                self.close(CloseReason::Aborted);
                Ok(())
            },
            Tpdu::Data { eot, payload } => {
                let tsdu = match self.reassembler.push(eot, payload)? {
                    Some(t) => slice_to_vec(t),
                    None => return Ok(()),
                };
                self.reassembler.take();
                self.on_tsdu(&tsdu)
            },
            Tpdu::Other { .. } => {
                self.close(CloseReason::ProtocolError);
                Ok(())
            },
        }
    }
}

} // verus!
