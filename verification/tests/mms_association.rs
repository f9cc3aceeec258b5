//! The association, both ends against each other.

use iec61850_rs::common::{Error, Instant, Limits};
use iec61850_rs::proto::mms::association::messages::{
    parameter_cbb_bits, services_supported_bits,
};
use iec61850_rs::proto::mms::association::{
    Association, AssociationConfig, AssociationEvent, CloseReason, Selectors, State, ACSE_CONTEXT,
    LOCAL_REF, MMS_CONTEXT,
};
use iec61850_rs::proto::mms::object_class;
use iec61850_rs::proto::mms::reject::{Reject, RejectReason, INVALID_PDU, UNRECOGNIZED_SERVICE};
use iec61850_rs::proto::mms::{
    ConfirmedRequest, ConfirmedResponse, Initiate, Mms, ObjectName, ObjectScope, Unconfirmed,
    VariableAccess, VariableSpecification,
};
use iec61850_rs::proto::osi::acse::{self, Apdu, Associate};
use iec61850_rs::proto::osi::cotp::{self, Tpdu};
use iec61850_rs::proto::osi::presentation::{ContextResult, Cp, Pdv, Ppdu, RESULT_ACCEPTANCE};
use iec61850_rs::proto::osi::session::{self, Spdu};
use iec61850_rs::proto::osi::{tpkt, Oid};

fn pair() -> (Association, Association) {
    let cfg = AssociationConfig::default();
    (Association::client(cfg.clone()), Association::server(cfg))
}

fn pump(a: &mut Association, b: &mut Association, now: Instant) {
    for _ in 0..32 {
        let mut moved = false;
        while let Some(packet) = a.poll_transmit() {
            let packet = packet.to_vec();
            b.on_bytes(now, &packet);
            moved = true;
        }
        while let Some(packet) = b.poll_transmit() {
            let packet = packet.to_vec();
            a.on_bytes(now, &packet);
            moved = true;
        }
        if !moved {
            return;
        }
    }
    panic!("the two ends never went quiet");
}

fn events(a: &mut Association) -> Vec<AssociationEvent> {
    let mut v = Vec::new();
    while let Some(e) = a.poll_event() {
        v.push(e);
    }
    v
}

fn connect() -> (Association, Association) {
    let (mut c, mut s) = pair();
    c.start(Instant::zero()).unwrap();
    pump(&mut c, &mut s, Instant::zero());
    (c, s)
}

#[test]
fn the_outstanding_call_budget_is_negotiated_down_from_both_sides() {
    for (client_max, server_max) in [(2u8, 10u8), (10, 2), (4, 4)] {
        let c_cfg = AssociationConfig { max_outstanding: client_max, ..AssociationConfig::default() };
        let s_cfg = AssociationConfig { max_outstanding: server_max, ..AssociationConfig::default() };
        let (mut c, mut s) = (Association::client(c_cfg), Association::server(s_cfg));
        c.start(Instant::zero()).unwrap();
        pump(&mut c, &mut s, Instant::zero());
        let agreed = usize::from(client_max.min(server_max));
        assert_eq!(c.negotiated().unwrap().max_outstanding, agreed, "client with {client_max} against server with {server_max}");
        assert_eq!(s.negotiated().unwrap().max_outstanding, agreed, "server with {server_max} against client with {client_max}");
    }
}

#[test]
fn a_client_may_not_exceed_the_budget_the_server_agreed_to() {
    let c_cfg = AssociationConfig { max_outstanding: 10, request_timeout_ms: 0, ..AssociationConfig::default() };
    let s_cfg = AssociationConfig { max_outstanding: 2, ..AssociationConfig::default() };
    let (mut c, mut s) = (Association::client(c_cfg), Association::server(s_cfg));
    c.start(Instant::zero()).unwrap();
    pump(&mut c, &mut s, Instant::zero());
    let req = ConfirmedRequest::Identify;
    assert!(c.call(Instant::zero(), &req).is_ok());
    assert!(c.call(Instant::zero(), &req).is_ok());
    assert!(matches!(c.call(Instant::zero(), &req), Err(Error::LimitExceeded { limit: "max_outstanding", .. })), "the third exceeds the agreed two");
}

#[test]
fn a_disconnect_request_names_the_reference_the_peer_issued() {
    let mut c = Association::client(AssociationConfig::default());
    c.start(Instant::zero()).unwrap();
    while c.poll_transmit().is_some() {}
    let cc = cotp::Connect { dst_ref: 1, src_ref: 0x1234, class_options: 0, tpdu_size_exp: Some(cotp::TPDU_SIZE_MAX_EXP), src_tsel: None, dst_tsel: None };
    let mut body = Vec::new();
    Tpdu::ConnectionConfirm(cc).write(&mut body).unwrap();
    let mut packet = tpkt::header(body.len()).unwrap().to_vec();
    packet.extend_from_slice(&body);
    c.on_bytes(Instant::zero(), &packet);
    while c.poll_transmit().is_some() {}
    c.abort();
    let dr = c.poll_transmit().expect("a disconnect request").to_vec();
    let tpdu = Tpdu::parse(dr.get(tpkt::HEADER_LEN..).unwrap()).unwrap();
    assert!(matches!(tpdu, Tpdu::DisconnectRequest { dst_ref: 0x1234, src_ref: LOCAL_REF, .. }), "{tpdu:?}");
}

#[test]
fn a_reject_answers_the_request_it_names_and_releases_it() {

    let (mut c, mut s) = connect();
    let id = c.call(Instant::zero(), &ConfirmedRequest::Identify).unwrap();
    pump(&mut c, &mut s, Instant::zero());
    assert_eq!(c.outstanding(), 1);
    let _ = events(&mut c);

    s.send(&Mms::Reject(Reject::confirmed_request(id, UNRECOGNIZED_SERVICE))).unwrap();
    pump(&mut c, &mut s, Instant::zero());

    assert_eq!(c.outstanding(), 0, "the reject released the invoke identifier");
    assert_eq!(c.stats().rejected, 1);
    let seen = events(&mut c);
    assert!(
        matches!(
            seen.as_slice(),
            [AssociationEvent::Rejected { invoke_id: Some(got), reject: Reject { reason: RejectReason::ConfirmedRequest(UNRECOGNIZED_SERVICE), .. } }]
                if *got == id
        ),
        "{seen:?}"
    );
    assert_eq!(c.stats().reports_received, 0);
}

#[test]
fn a_reject_without_an_invoke_identifier_is_still_reported() {

    let (mut c, mut s) = connect();
    let id = c.call(Instant::zero(), &ConfirmedRequest::Identify).unwrap();
    pump(&mut c, &mut s, Instant::zero());
    let _ = events(&mut c);

    s.send(&Mms::Reject(Reject::pdu_error(INVALID_PDU))).unwrap();
    pump(&mut c, &mut s, Instant::zero());

    assert_eq!(c.outstanding(), 1, "nothing was named, so nothing is released");
    let seen = events(&mut c);
    assert!(
        matches!(seen.as_slice(), [AssociationEvent::Rejected { invoke_id: None, reject: Reject { reason: RejectReason::PduError(INVALID_PDU), .. } }]),
        "{seen:?}"
    );
    let _ = id;
}

#[test]
fn the_two_ends_complete_the_six_layer_handshake() {
    let (mut c, mut s) = connect();
    assert!(c.is_established(), "client state {:?}", c.state());
    assert!(s.is_established(), "server state {:?}", s.state());
    assert!(matches!(events(&mut c).as_slice(), [AssociationEvent::Established(_)]));
    assert!(matches!(events(&mut s).as_slice(), [AssociationEvent::Established(_)]));
    let n = c.negotiated().unwrap();
    assert_eq!(n.mms_context, MMS_CONTEXT);
    assert_eq!(n.tpdu_data, cotp::tpdu_size(cotp::TPDU_SIZE_MAX_EXP) - 3, "class 0 negotiates down, so both ends land on the smaller proposal");
    assert_eq!(n.max_pdu, AssociationConfig::default().max_pdu as usize);
    assert_eq!(c.next_timeout(), None, "an established association waits for nothing by itself");
}

#[test]
fn a_request_reaches_the_server_and_its_answer_comes_back() {
    let (mut c, mut s) = connect();
    let (_, _) = (events(&mut c), events(&mut s));
    let now = Instant::zero();

    let id = c.call(now, &ConfirmedRequest::Identify).unwrap();
    assert_eq!(c.outstanding(), 1);
    assert_eq!(c.next_timeout(), Some(now.plus_millis(30_000)));
    pump(&mut c, &mut s, now);

    let seen = events(&mut s);
    let [AssociationEvent::Request { invoke_id, pdu }] = seen.as_slice() else {
        panic!("the server saw no request: {seen:?}");
    };
    assert_eq!(*invoke_id, id);
    assert!(matches!(Mms::parse(pdu, &Limits::default()).unwrap(), Mms::ConfirmedRequest { service: ConfirmedRequest::Identify, .. }));

    s.respond(id, &ConfirmedResponse::Identify { vendor: "hupe1980", model: "iec61850-rs", revision: "0.1" }).unwrap();
    pump(&mut c, &mut s, now);

    let seen = events(&mut c);
    let [AssociationEvent::Response { invoke_id, pdu }] = seen.as_slice() else {
        panic!("the client saw no response: {seen:?}");
    };
    assert_eq!(*invoke_id, id);
    let Mms::ConfirmedResponse { service: ConfirmedResponse::Identify { vendor, .. }, .. } = Mms::parse(pdu, &Limits::default()).unwrap() else {
        panic!("not an Identify response");
    };
    assert_eq!(vendor, "hupe1980");
    assert_eq!(c.outstanding(), 0, "the answer releases the invoke identifier");
    assert_eq!(c.next_timeout(), None);
    assert_eq!(c.stats().requests_sent, 1);
    assert_eq!(c.stats().responses_received, 1);
}

#[test]
fn a_report_arrives_unsolicited() {
    let (mut c, mut s) = connect();
    let (_, _) = (events(&mut c), events(&mut s));
    let report = Mms::Unconfirmed(Unconfirmed::InformationReport {
        access: VariableAccess::VariableListName(ObjectName::DomainSpecific { domain: "IED1LD0", item: "LLN0$RP$urcb01" }),
        results: Vec::new(),
    });
    s.send(&report).unwrap();
    pump(&mut c, &mut s, Instant::zero());
    assert!(matches!(events(&mut c).as_slice(), [AssociationEvent::Unconfirmed { .. }]));
    assert_eq!(c.stats().reports_received, 1);
}

#[test]
fn a_request_that_is_never_answered_times_out_and_frees_its_slot() {
    let (mut c, mut s) = connect();
    let (_, _) = (events(&mut c), events(&mut s));
    let now = Instant::zero();
    let id =
        c.call(now, &ConfirmedRequest::GetNameList { object_class: object_class::DOMAIN, scope: ObjectScope::VmdSpecific, continue_after: None }).unwrap();
    c.on_timeout(now.plus_millis(29_999));
    assert!(events(&mut c).is_empty(), "not yet");
    c.on_timeout(now.plus_millis(30_000));
    assert_eq!(events(&mut c).as_slice(), [AssociationEvent::Timeout { invoke_id: id }]);
    assert_eq!(c.outstanding(), 0);
    assert!(c.is_established(), "one unanswered request does not end an association");
    let _ = s;
}

#[test]
fn the_outstanding_limit_is_enforced_here_rather_than_discovered_as_a_reject() {
    let cfg = AssociationConfig { max_outstanding: 2, ..AssociationConfig::default() };
    let (mut c, mut s) = (Association::client(cfg.clone()), Association::server(cfg));
    c.start(Instant::zero()).unwrap();
    pump(&mut c, &mut s, Instant::zero());
    let now = Instant::zero();
    c.call(now, &ConfirmedRequest::Identify).unwrap();
    c.call(now, &ConfirmedRequest::Identify).unwrap();
    assert!(matches!(c.call(now, &ConfirmedRequest::Identify), Err(Error::LimitExceeded { limit: "max_outstanding", .. })));
}

#[test]
fn the_clients_budget_is_the_calling_one_and_the_servers_is_the_called_one() {
    let cfg = AssociationConfig { max_outstanding: 40, ..AssociationConfig::default() };
    let mut c = Association::client(cfg);
    c.start(Instant::zero()).unwrap();
    let _cr = c.poll_transmit().map(<[u8]>::to_vec).unwrap();
    c.on_bytes(
        Instant::zero(),
        &tpkt_packet(&{
            let cc = cotp::Connect { dst_ref: 1, src_ref: 2, class_options: 0, tpdu_size_exp: Some(10), src_tsel: None, dst_tsel: None };
            let mut body = Vec::new();
            Tpdu::ConnectionConfirm(cc).write(&mut body).unwrap();
            body
        }),
    );
    let _connect = c.poll_transmit().map(<[u8]>::to_vec).unwrap();

    let mut init = Initiate::request(16_000, 10, parameter_cbb_bits(), services_supported_bits());
    init.max_serv_outstanding_calling = 5;
    init.max_serv_outstanding_called = 1;
    c.on_bytes(Instant::zero(), &tpkt_packet(&server_accept(&init)));
    assert!(c.is_established(), "state {:?}, events {:?}", c.state(), events(&mut c));
    assert_eq!(c.negotiated().unwrap().max_outstanding, 5, "the calling budget, not the called one");
}

fn tpkt_packet(tpdu: &[u8]) -> Vec<u8> {
    let mut p = tpkt::header(tpdu.len()).unwrap().to_vec();
    p.extend_from_slice(tpdu);
    p
}

fn server_accept(init: &Initiate<'_>) -> Vec<u8> {
    let initiate = Mms::InitiateResponse(*init).to_vec().unwrap();
    let aare = Apdu::AssociateResponse(Associate {
        protocol_version: Some((7, &[0x80])),
        context_name: Some(Oid::mms_application_context()),
        result: Some(acse::RESULT_ACCEPTED),
        user_information: Some(acse::UserInformation { direct_reference: Some(Oid::ber()), indirect_reference: Some(3), value: &initiate }),
        ..Associate::default()
    })
    .to_vec()
    .unwrap();
    let cpa = Cp {
        protocol_version: Some((7, &[0x80])),
        results: vec![
            ContextResult { result: RESULT_ACCEPTANCE, transfer_syntax: Some(Oid::ber()) },
            ContextResult { result: RESULT_ACCEPTANCE, transfer_syntax: Some(Oid::ber()) },
        ],
        user_data: vec![Pdv::single(ACSE_CONTEXT, &aare)],
        ..Cp::default()
    };
    let ppdu = Ppdu::Accept(cpa).to_vec().unwrap();
    let mut spdu = Vec::new();
    Spdu::Accept(session::Connect::new(None, None, &ppdu)).write(&mut spdu).unwrap();
    let mut body = Vec::new();
    Tpdu::Data { eot: true, payload: &spdu }.write(&mut body).unwrap();
    body
}

#[test]
fn a_handshake_that_never_finishes_expires() {
    let mut c = Association::client(AssociationConfig::default());
    c.start(Instant::zero()).unwrap();
    assert_eq!(c.next_timeout(), Some(Instant::zero().plus_millis(10_000)));
    c.on_timeout(Instant::zero().plus_millis(10_000));
    assert_eq!(events(&mut c).as_slice(), [AssociationEvent::Closed(CloseReason::ConnectTimeout)]);
    assert_eq!(c.state(), State::Closed);
    assert!(c.call(Instant::zero(), &ConfirmedRequest::Identify).is_err());
}

#[test]
fn an_orderly_release_ends_both_ends() {
    let (mut c, mut s) = connect();
    let (_, _) = (events(&mut c), events(&mut s));
    c.release(Instant::zero()).unwrap();
    pump(&mut c, &mut s, Instant::zero());
    assert_eq!(events(&mut s).as_slice(), [AssociationEvent::Closed(CloseReason::PeerReleased)]);
    assert_eq!(events(&mut c).as_slice(), [AssociationEvent::Closed(CloseReason::Released)]);
    assert_eq!(c.state(), State::Closed);
}

#[test]
fn a_release_the_peer_never_confirms_is_still_a_release() {
    let (mut c, mut s) = connect();
    let (_, _) = (events(&mut c), events(&mut s));
    c.release(Instant::zero()).unwrap();
    while c.poll_transmit().is_some() {}
    c.on_timeout(Instant::zero().plus_millis(10_000));
    assert_eq!(events(&mut c).as_slice(), [AssociationEvent::Closed(CloseReason::Released)], "not a handshake timeout");
    assert_eq!(c.state(), State::Closed);
}

#[test]
fn a_tsdu_larger_than_a_tpdu_is_segmented_and_reassembled() {
    let cfg = AssociationConfig { tpdu_size_exp: cotp::TPDU_SIZE_MIN_EXP, ..AssociationConfig::default() };
    let (mut c, mut s) = (Association::client(cfg.clone()), Association::server(cfg));
    c.start(Instant::zero()).unwrap();
    pump(&mut c, &mut s, Instant::zero());
    assert!(c.is_established(), "even the handshake needs more than one TPDU here");
    let (_, _) = (events(&mut c), events(&mut s));

    let names: Vec<VariableSpecification<'_>> =
        (0..40).map(|_| VariableSpecification::Name(ObjectName::DomainSpecific { domain: "IED1LD0", item: "MMXU1$MX$TotW$mag$f" })).collect();
    let id = c.call(Instant::zero(), &ConfirmedRequest::Read { specification_with_result: false, access: VariableAccess::ListOfVariable(names) }).unwrap();
    let before = c.stats().packets_sent;
    pump(&mut c, &mut s, Instant::zero());
    assert!(c.stats().packets_sent > before + 1, "the read fitted one TPDU, so nothing was segmented: {:?}", c.stats());
    let seen = events(&mut s);
    let [AssociationEvent::Request { invoke_id, pdu }] = seen.as_slice() else {
        panic!("the segmented request did not arrive whole: {seen:?}");
    };
    assert_eq!(*invoke_id, id);
    let Mms::ConfirmedRequest { service: ConfirmedRequest::Read { access: VariableAccess::ListOfVariable(v), .. }, .. } =
        Mms::parse(pdu, &Limits::default()).unwrap()
    else {
        panic!("not a read");
    };
    assert_eq!(v.len(), 40, "every variable survived the segmentation");
}

#[test]
fn a_password_travels_in_the_aarq_where_the_server_looks_for_it() {
    let cfg = AssociationConfig {
        password: Some(String::from("s3cret")),
        local: Selectors { ap_title: Some(vec![1, 3, 9999, 33]), ae_qualifier: Some(12), ..Selectors::defaults() },
        remote: Selectors { ap_title: Some(vec![1, 3, 9999, 23]), ..Selectors::defaults() },
        ..AssociationConfig::default()
    };
    let mut c = Association::client(cfg);
    c.start(Instant::zero()).unwrap();
    let _cr = c.poll_transmit().map(<[u8]>::to_vec).unwrap();
    c.on_bytes(Instant::zero(), &{
        let cc = cotp::Connect { dst_ref: 1, src_ref: 2, class_options: 0, tpdu_size_exp: Some(10), src_tsel: None, dst_tsel: None };
        let mut body = Vec::new();
        Tpdu::ConnectionConfirm(cc).write(&mut body).unwrap();
        let mut p = tpkt::header(body.len()).unwrap().to_vec();
        p.extend_from_slice(&body);
        p
    });
    let connect = c.poll_transmit().map(<[u8]>::to_vec).expect("the session CONNECT");
    let spdu = &connect[tpkt::HEADER_LEN + 3..];
    let Spdu::Connect(sc) = Spdu::parse(spdu).unwrap() else { panic!("not a CONNECT") };
    let Ppdu::Connect(cp) = Ppdu::parse(sc.user_data, true).unwrap() else { panic!("not a CP") };
    let aarq = cp.user_data.iter().find(|p| p.context_id == ACSE_CONTEXT).and_then(|p| p.values.single()).unwrap();
    let Apdu::Associate(a) = Apdu::parse(aarq).unwrap() else { panic!("not an AARQ") };
    assert_eq!(a.mechanism_name, Some(Oid::password_mechanism()));
    assert_eq!(a.authentication_value, Some(&[0x80, 6, b's', b'3', b'c', b'r', b'e', b't'][..]));
    assert!(a.calling_ap_title.is_some() && a.called_ap_title.is_some());
    assert_eq!(a.calling_ae_qualifier, Some(&[0x02, 0x01, 12][..]), "form 2 is an INTEGER element");
    assert!(a.mms_pdu().is_some());
}

#[test]
fn a_stream_that_is_not_the_protocol_closes_the_association_rather_than_looping() {
    let mut c = Association::client(AssociationConfig::default());
    c.start(Instant::zero()).unwrap();
    c.on_bytes(Instant::zero(), &[0x16, 0x03, 0x01, 0x00, 0x05]); // a TLS record on port 102
    assert_eq!(c.state(), State::Closed);
    assert_eq!(events(&mut c).as_slice(), [AssociationEvent::Closed(CloseReason::ProtocolError)]);
}

#[test]
fn services_supported_names_exactly_the_services_that_exist() {
    let (unused, bytes) = services_supported_bits();
    let bit = |n: usize| bytes.get(n / 8).is_some_and(|b| b >> (7 - (n % 8)) & 1 == 1);
    for n in [1, 2, 4, 5, 6, 11, 12, 13, 65, 72, 73, 74, 76, 77, 79, 82] {
        assert!(bit(n), "service {n} is implemented and must be claimed");
    }
    for n in [0, 3, 7, 46, 75, 80, 81] {
        assert!(!bit(n), "service {n} is not implemented and must not be claimed");
    }
    assert_eq!(bytes.len() * 8 - usize::from(unused), 84, "the highest claimed bit is 82");
}

#[test]
fn invoke_identifiers_do_not_collide_after_a_wrap() {
    let (mut c, mut s) = connect();
    let (_, _) = (events(&mut c), events(&mut s));
    c.next_invoke = i64::from(u32::MAX) - 1;
    let ids: Vec<i64> = (0..4).map(|_| c.call(Instant::zero(), &ConfirmedRequest::Identify).unwrap()).collect();
    assert_eq!(ids, [i64::from(u32::MAX) - 1, i64::from(u32::MAX), 1, 2]);
}
