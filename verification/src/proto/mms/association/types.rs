//! What an association is configured with, and what it tells the layer above.

use vstd::prelude::*;
use vstd::slice::*;
use crate::ber::{opt_view, sint_octets, tlv, univ, Encoder, Tag, UNIVERSAL_INTEGER, UNIVERSAL_OID};
use crate::common::{default_limits, Error, Limits};
use crate::model::OsiAddress;
use crate::proto::mms::reject::Reject;
use crate::proto::osi::cotp;
use crate::proto::osi::oid::{self, encodable, oid_octets};

verus! {

/// The presentation context ACSE travels in.
pub const ACSE_CONTEXT: u16 = 1;
/// The presentation context MMS travels in.
pub const MMS_CONTEXT: u16 = 3;
/// The TCP port for MMS.
pub const PORT: u16 = 102;
/// The TCP port for MMS over TLS.
pub const PORT_TLS: u16 = 3782;
/// This end's COTP reference.
pub const LOCAL_REF: u16 = 1;

/// Which end of the association this is.
#[derive(Clone, Copy, Debug, PartialEq, Eq, Structural)]
pub enum Role {
    /// The side that opens the connection and issues confirmed requests.
    Client,
    /// The side that accepts it and answers them.
    Server,
}

/// Where the handshake has got to.
#[derive(Clone, Copy, Debug, PartialEq, Eq, Structural)]
pub enum State {
    /// Nothing sent yet.
    Idle,
    /// A connection request is on the wire.
    Connecting,
    /// The transport is up and the association handshake is in flight.
    Associating,
    /// Confirmed requests may be issued.
    Established,
    /// A release is in flight.
    Releasing,
    /// Over.
    Closed,
}

/// Why an association ended.
#[derive(Clone, Copy, Debug, PartialEq, Eq, Structural)]
pub enum CloseReason {
    /// This end released it and the peer confirmed.
    Released,
    /// The peer released it.
    PeerReleased,
    /// The peer aborted, or this end did.
    Aborted,
    /// The handshake did not finish in time.
    ConnectTimeout,
    /// The peer refused the association.
    Refused,
    /// The byte stream stopped being the protocol.
    ProtocolError,
}

/// What the two ends agreed on.
#[derive(Clone, Copy, Debug, PartialEq, Eq, Structural)]
pub struct Negotiated {
    /// The largest MMS PDU the peer accepts.
    pub max_pdu: usize,
    /// Confirmed requests this end may have outstanding.
    pub max_outstanding: usize,
    /// Octets of user data one DT TPDU carries.
    pub tpdu_data: usize,
    /// The presentation context of MMS.
    pub mms_context: u16,
}

/// The counters of an association.
#[derive(Clone, Copy, Debug, PartialEq, Eq, Structural)]
pub struct AssociationStats {
    /// Confirmed requests issued.
    pub requests_sent: u64,
    /// Confirmed responses and errors received.
    pub responses_received: u64,
    /// Unconfirmed PDUs received.
    pub reports_received: u64,
    /// Requests that went unanswered.
    pub timeouts: u64,
    /// PDUs that did not decode.
    pub malformed: u64,
    /// PDUs the peer rejected, and PDUs this end rejected.
    pub rejected: u64,
    /// TPKT packets sent.
    pub packets_sent: u64,
    /// TPKT packets received.
    pub packets_received: u64,
    /// Events pushed out because the application was not draining the queue.
    pub events_dropped: u64,
}

/// Every counter at zero.
pub open spec fn no_stats() -> AssociationStats {
    AssociationStats {
        requests_sent: 0,
        responses_received: 0,
        reports_received: 0,
        timeouts: 0,
        malformed: 0,
        rejected: 0,
        packets_sent: 0,
        packets_received: 0,
        events_dropped: 0,
    }
}

impl Default for AssociationStats {
    fn default() -> (r: AssociationStats)
        ensures
            r == no_stats(),
    {
        AssociationStats {
            requests_sent: 0,
            responses_received: 0,
            reports_received: 0,
            timeouts: 0,
            malformed: 0,
            rejected: 0,
            packets_sent: 0,
            packets_received: 0,
            events_dropped: 0,
        }
    }
}

/// The addressing of one end: the selectors of each layer, and the ACSE names.
#[derive(Clone, Debug, PartialEq, Eq)]
pub struct Selectors {
    /// The transport selector.
    pub t_sel: Vec<u8>,
    /// The session selector.
    pub s_sel: Vec<u8>,
    /// The presentation selector.
    pub p_sel: Vec<u8>,
    /// The application process title, as its arcs.
    pub ap_title: Option<Vec<u32>>,
    /// The application entity qualifier.
    pub ae_qualifier: Option<i64>,
}

/// What [`Selectors`] stand for.
pub struct SelectorsModel {
    pub t_sel: Seq<u8>,
    pub s_sel: Seq<u8>,
    pub p_sel: Seq<u8>,
    pub ap_title: Option<Seq<u32>>,
    pub ae_qualifier: Option<i64>,
}

impl View for Selectors {
    type V = SelectorsModel;

    open spec fn view(&self) -> SelectorsModel {
        SelectorsModel {
            t_sel: self.t_sel@,
            s_sel: self.s_sel@,
            p_sel: self.p_sel@,
            ap_title: opt_view(self.ap_title),
            ae_qualifier: self.ae_qualifier,
        }
    }
}

/// No selector and no name.
pub open spec fn no_selectors() -> SelectorsModel {
    SelectorsModel {
        t_sel: Seq::empty(),
        s_sel: Seq::empty(),
        p_sel: Seq::empty(),
        ap_title: None,
        ae_qualifier: None,
    }
}

/// Transport selector `0001`, and nothing else.
pub open spec fn default_selectors() -> SelectorsModel {
    SelectorsModel { t_sel: seq![0u8, 1u8], ..no_selectors() }
}

impl Default for Selectors {
    fn default() -> (r: Selectors)
        ensures
            r@ == no_selectors(),
    {
        Selectors {
            t_sel: Vec::new(),
            s_sel: Vec::new(),
            p_sel: Vec::new(),
            ap_title: None,
            ae_qualifier: None,
        }
    }
}

/// The octets of an optional selector, none where it is absent.
pub open spec fn or_empty(v: Option<Vec<u8>>) -> Seq<u8> {
    match v {
        Some(v) => v@,
        None => Seq::empty(),
    }
}

fn copy_or_empty(v: &Option<Vec<u8>>) -> (r: Vec<u8>)
    ensures
        r@ == or_empty(*v),
{
    match v {
        Some(v) => slice_to_vec(v),
        None => Vec::new(),
    }
}

/// The element of an application process title, where it has one.
pub open spec fn ap_title_bytes(s: SelectorsModel) -> Option<Seq<u8>> {
    match s.ap_title {
        Some(arcs) => if encodable(arcs) {
            Some(tlv(univ(6, false), oid_octets(arcs)))
        } else {
            None
        },
        None => None,
    }
}

/// The element of an application entity qualifier, where there is one.
pub open spec fn ae_qualifier_bytes(s: SelectorsModel) -> Option<Seq<u8>> {
    match s.ae_qualifier {
        Some(q) => Some(tlv(univ(2, false), sint_octets(q as int))),
        None => None,
    }
}

impl Selectors {
    /// What is used where nothing was engineered: transport selector `0001`, and empty session
    /// and presentation selectors.
    pub fn defaults() -> (r: Selectors)
        ensures
            r@ == default_selectors(),
    {
        let mut r: Selectors = Default::default();
        r.t_sel = vec![0x00, 0x01];
        assert(r.t_sel@ =~= seq![0u8, 1u8]);
        r
    }

    /// The selectors an access point is addressed by.
    pub fn from_address(a: &OsiAddress) -> (r: Selectors)
        ensures
            r@ == (SelectorsModel {
                t_sel: or_empty(a.t_sel),
                s_sel: or_empty(a.s_sel),
                p_sel: or_empty(a.p_sel),
                ap_title: opt_view(a.ap_title),
                ae_qualifier: a.ae_qualifier,
            }),
    {
        Selectors {
            t_sel: copy_or_empty(&a.t_sel),
            s_sel: copy_or_empty(&a.s_sel),
            p_sel: copy_or_empty(&a.p_sel),
            ap_title: match &a.ap_title {
                Some(arcs) => Some(slice_to_vec(arcs)),
                None => None,
            },
            ae_qualifier: a.ae_qualifier,
        }
    }

    /// The encoded `AP-title`, an OBJECT IDENTIFIER element.
    pub fn ap_title_element(&self) -> (r: Option<Vec<u8>>)
        ensures
            opt_view(r) == ap_title_bytes(self@),
    {
        match &self.ap_title {
            Some(arcs) => match oid::encode(arcs) {
                Some(contents) => {
                    let mut e = Encoder::new();
                    e.primitive(Tag::universal(UNIVERSAL_OID, false), &contents);
                    assert(e@ =~= tlv(univ(6, false), contents@));
                    Some(e.into_vec())
                },
                None => None,
            },
            None => None,
        }
    }

    /// The encoded `AE-qualifier`, an INTEGER element.
    pub fn ae_qualifier_element(&self) -> (r: Option<Vec<u8>>)
        ensures
            opt_view(r) == ae_qualifier_bytes(self@),
    {
        match self.ae_qualifier {
            Some(q) => {
                let mut e = Encoder::new();
                e.integer(Tag::universal(UNIVERSAL_INTEGER, false), q);
                assert(e@ =~= tlv(univ(2, false), sint_octets(q as int)));
                Some(e.into_vec())
            },
            None => None,
        }
    }
}

/// How an association is opened and how patient it is.
#[derive(Clone, Debug, PartialEq, Eq)]
pub struct AssociationConfig {
    /// This end's addressing.
    pub local: Selectors,
    /// The peer's addressing.
    pub remote: Selectors,
    /// The largest MMS PDU this end accepts.
    pub max_pdu: u32,
    /// The TPDU size to propose, as its exponent.
    pub tpdu_size_exp: u8,
    /// Confirmed requests this end may have outstanding at once.
    pub max_outstanding: u8,
    /// The ACSE password, where the server asks for one.
    pub password: Option<String>,
    /// How long the handshake may take.
    pub connect_timeout_ms: u64,
    /// How long a confirmed request may go unanswered. `0` disables the check.
    pub request_timeout_ms: u64,
    /// The longest TSDU that is reassembled.
    pub max_tsdu: usize,
    /// What is decoded from the peer.
    pub limits: Limits,
    /// Events kept for the application.
    pub event_capacity: usize,
}

/// What an [`AssociationConfig`] stands for.
pub struct ConfigModel {
    pub local: SelectorsModel,
    pub remote: SelectorsModel,
    pub max_pdu: u32,
    pub tpdu_size_exp: u8,
    pub max_outstanding: u8,
    pub password: Option<Seq<char>>,
    pub connect_timeout_ms: u64,
    pub request_timeout_ms: u64,
    pub max_tsdu: usize,
    pub limits: Limits,
    pub event_capacity: usize,
}

impl View for AssociationConfig {
    type V = ConfigModel;

    open spec fn view(&self) -> ConfigModel {
        ConfigModel {
            local: self.local@,
            remote: self.remote@,
            max_pdu: self.max_pdu,
            tpdu_size_exp: self.tpdu_size_exp,
            max_outstanding: self.max_outstanding,
            password: opt_view(self.password),
            connect_timeout_ms: self.connect_timeout_ms,
            request_timeout_ms: self.request_timeout_ms,
            max_tsdu: self.max_tsdu,
            limits: self.limits,
            event_capacity: self.event_capacity,
        }
    }
}

impl Default for AssociationConfig {
    fn default() -> (r: AssociationConfig)
        ensures
            r@ == (ConfigModel {
                local: default_selectors(),
                remote: default_selectors(),
                max_pdu: 64_000,
                tpdu_size_exp: 13,
                max_outstanding: 10,
                password: None,
                connect_timeout_ms: 10_000,
                request_timeout_ms: 30_000,
                max_tsdu: 262_144,
                limits: default_limits(),
                event_capacity: 64,
            }),
    {
        AssociationConfig {
            local: Selectors::defaults(),
            remote: Selectors::defaults(),
            max_pdu: 64_000,
            tpdu_size_exp: cotp::TPDU_SIZE_MAX_EXP,
            max_outstanding: 10,
            password: None,
            connect_timeout_ms: 10_000,
            request_timeout_ms: 30_000,
            max_tsdu: 262_144,
            limits: Limits::default(),
            event_capacity: 64,
        }
    }
}

/// What the association tells the layer above.
#[derive(Clone, Debug, PartialEq)]
pub enum AssociationEvent {
    /// The six layers are up and confirmed requests may be issued.
    Established(Negotiated),
    /// The peer refused, at the named layer.
    Refused {
        /// `session`, `presentation`, `acse` or `mms`.
        layer: &'static str,
        /// The reason or result code, where the refusal carried one.
        code: Option<i64>,
    },
    /// A response or error to a request this end made.
    Response {
        /// The request it answers.
        invoke_id: i64,
        /// The encoded PDU.
        pdu: Vec<u8>,
    },
    /// A confirmed request of the peer.
    Request {
        /// The identifier the answer must carry.
        invoke_id: i64,
        /// The encoded PDU.
        pdu: Vec<u8>,
    },
    /// An unconfirmed PDU: how a report is delivered.
    Unconfirmed {
        /// The encoded PDU.
        pdu: Vec<u8>,
    },
    /// A PDU arrived that could not be decoded.
    Malformed(Error),
    /// The peer rejected a PDU. A reject that names an outstanding request answers it.
    Rejected {
        /// The request it rejects, where the peer named one.
        invoke_id: Option<i64>,
        /// Why.
        reject: Reject,
    },
    /// No answer arrived in time. The invoke identifier is released.
    Timeout {
        /// The request that went unanswered.
        invoke_id: i64,
    },
    /// The association is over.
    Closed(CloseReason),
}

/// What an [`AssociationEvent`] stands for.
pub enum EventModel {
    Established(Negotiated),
    Refused { layer: &'static str, code: Option<i64> },
    Response { invoke_id: i64, pdu: Seq<u8> },
    Request { invoke_id: i64, pdu: Seq<u8> },
    Unconfirmed { pdu: Seq<u8> },
    Malformed(Error),
    Rejected { invoke_id: Option<i64>, reject: Reject },
    Timeout { invoke_id: i64 },
    Closed(CloseReason),
}

impl View for AssociationEvent {
    type V = EventModel;

    open spec fn view(&self) -> EventModel {
        match *self {
            AssociationEvent::Established(n) => EventModel::Established(n),
            AssociationEvent::Refused { layer, code } => EventModel::Refused { layer, code },
            AssociationEvent::Response { invoke_id, pdu } => EventModel::Response {
                invoke_id,
                pdu: pdu@,
            },
            AssociationEvent::Request { invoke_id, pdu } => EventModel::Request {
                invoke_id,
                pdu: pdu@,
            },
            AssociationEvent::Unconfirmed { pdu } => EventModel::Unconfirmed { pdu: pdu@ },
            AssociationEvent::Malformed(e) => EventModel::Malformed(e),
            AssociationEvent::Rejected { invoke_id, reject } => EventModel::Rejected {
                invoke_id,
                reject,
            },
            AssociationEvent::Timeout { invoke_id } => EventModel::Timeout { invoke_id },
            AssociationEvent::Closed(reason) => EventModel::Closed(reason),
        }
    }
}

} // verus!
