//! Corners of the protocols, one by one.

use iec61850_rs::ber::{Cursor, Encoder, Float, Tag};
use iec61850_rs::common::{DecodeReason, Error, Instant, Limits, TimeQuality, UtcTime};
use iec61850_rs::model::OsiAddress;
use iec61850_rs::proto::data::{decode_all, DataView, Value};
use iec61850_rs::proto::ethernet::{
    Frame, FrameAddress, FrameHeader, MacAddr, ETHERTYPE_GOOSE, ETHERTYPE_GSE_MGMT,
};
use iec61850_rs::proto::goose::{
    FrameDeltas, GoosePdu, GoosePduView, Publisher, PublisherConfig, Retransmission,
    SimulationMode, Subscriber, SubscriberConfig, SubscriberEvent, SubscriptionKey,
};
use iec61850_rs::proto::mms::association::{Association, AssociationConfig, Selectors, State};
use iec61850_rs::proto::mms::control::Check;
use iec61850_rs::proto::mms::reject::{Reject, UNRECOGNIZED_SERVICE};
use iec61850_rs::proto::mms::report::{OptFlds, Report, ReportAssembler, ReportEntry};
use iec61850_rs::proto::mms::typespec::TypeSpec;
use iec61850_rs::proto::mms::{ConfirmedRequest, ConfirmedResponse, Mms, ReadJournal};
use iec61850_rs::proto::osi::cotp::{tpdu_size, Connect, Reassembler, Tpdu, Tsel, ER};
use iec61850_rs::proto::osi::session::{self, Spdu};
use iec61850_rs::proto::osi::{oid, tpkt, Oid};

fn header() -> FrameHeader {
    FrameHeader {
        dst: MacAddr::goose_base(),
        src: MacAddr([2, 0, 0, 0, 0, 1]),
        vlan: None,
        ethertype: ETHERTYPE_GOOSE,
        appid: 1,
        reserved1: 0,
        reserved2: 0,
    }
}

fn publisher(values: &[Value]) -> Publisher {
    let cfg = PublisherConfig::new(header(), "LD0/LLN0$GO$g".into(), "LD0/LLN0$ds".into());
    Publisher::new(cfg, values, UtcTime::default()).unwrap()
}

fn subscriber() -> Subscriber {
    let key = SubscriptionKey { dst: MacAddr::goose_base(), appid: 1, gocb_ref: "LD0/LLN0$GO$g".into() };
    Subscriber::new(SubscriberConfig::new(key).with_conf_rev(1))
}

fn state(st_num: u32, sq_num: u32) -> Vec<u8> {
    let pdu = GoosePdu {
        gocb_ref: "LD0/LLN0$GO$g".into(),
        time_allowed_to_live: 100,
        dat_set: "LD0/LLN0$ds".into(),
        go_id: None,
        t: UtcTime::from_unix(100, 0, TimeQuality::synchronized()),
        st_num,
        sq_num,
        simulation: false,
        conf_rev: 1,
        nds_com: false,
        all_data: vec![],
    };
    header().to_frame(&pdu.encode().unwrap()).unwrap()
}

#[test]
fn a_frame_of_management_traffic_has_an_address_and_no_pdu() {
    let mut frame = state(1, 0);
    assert!(Frame::parse(&frame).is_ok());
    frame[13] = 0xB9;
    assert!(matches!(Frame::parse(&frame), Err(Error::Decode { reason: DecodeReason::NotProcessBusFrame, .. })));
    let address = FrameAddress { dst: MacAddr::goose_base(), ethertype: ETHERTYPE_GSE_MGMT, appid: 1 };
    assert_eq!(FrameAddress::peek(&frame), Some(address));
    frame[13] = 0xB7;
    assert_eq!(FrameAddress::peek(&frame), None);
}

#[test]
fn the_sequence_number_is_that_of_the_frame_last_built() {
    let mut p = publisher(&[]);
    p.on_timeout(Instant::zero()).unwrap();
    for expected in 0..3 {
        assert_eq!(p.sq_num(), expected);
        let frame = p.poll_transmit().unwrap().to_vec();
        let apdu = Frame::parse(&frame).unwrap().apdu;
        assert_eq!(GoosePduView::parse(apdu).unwrap().sq_num, expected);
        let due = p.next_timeout().unwrap();
        p.on_timeout(due).unwrap();
    }
}

#[test]
fn an_interval_doubles_until_it_reaches_the_longest() {
    let r = Retransmission { min_time_ms: 1, max_time_ms: u32::MAX, tal_factor: 2 };
    assert_eq!(r.interval_after(1), 1);
    assert_eq!(r.interval_after(32), 0x8000_0000);
    assert_eq!(r.interval_after(33), u32::MAX);
    assert_eq!(r.tal_after(33), u32::MAX);
}

#[test]
fn what_is_published_is_what_arrives() {
    let mut p = publisher(&[Value::Boolean(false)]);
    let mut s = subscriber();
    let values = vec![Value::Boolean(true), Value::Structure(vec![Value::Integer(-7)])];
    p.publish(Instant::zero(), &values, UtcTime::from_unix(9, 0, TimeQuality::synchronized())).unwrap();
    let frame = p.poll_transmit().unwrap().to_vec();
    match s.feed(Instant::zero(), &frame).as_slice() {
        [SubscriberEvent::NewState { st_num: 2, values: got, simulation: false, .. }] => assert_eq!(*got, values),
        other => panic!("{other:?}"),
    }
    let due = p.next_timeout().unwrap();
    p.on_timeout(due).unwrap();
    let frame = p.poll_transmit().unwrap().to_vec();
    assert_eq!(s.feed(due, &frame), [SubscriberEvent::Retransmission { st_num: 2, sq_num: 1 }]);
}

#[test]
fn states_missed_across_the_wrap_are_counted() {
    let mut s = subscriber();
    s.feed(Instant::zero(), &state(u32::MAX - 2, 0));
    s.feed(Instant::zero(), &state(2, 0));
    assert_eq!((s.stats().state_gaps, s.stats().states_missed), (1, 3), "two before the wrap, one after");
}

#[test]
fn a_member_count_that_disagrees_is_reported() {
    let view_of = |apdu: &[u8]| GoosePduView::parse(apdu).unwrap().member_count_matches();
    let frame = state(1, 0);
    let apdu = Frame::parse(&frame).unwrap().apdu;
    assert!(view_of(apdu));
    let mut lying = apdu.to_vec();
    let n = lying.len();
    assert_eq!(lying[n - 5..], [0x8A, 0x01, 0x00, 0xAB, 0x00]);
    lying[n - 3] = 1;
    assert!(!view_of(&lying));
}

fn segment(number: u32, more: bool) -> Report {
    Report {
        rpt_id: "r".into(),
        opt_flds: OptFlds::none().with_sequence_number(true).with_segmentation(true),
        seq_num: Some(9),
        time_of_entry: None,
        data_set: None,
        buf_ovfl: None,
        entry_id: None,
        conf_rev: None,
        sub_seq_num: Some(number),
        more_segments_follow: more,
        inclusion: Report::inclusion_for(4, &[number as usize]),
        entries: vec![ReportEntry { index: number as usize, reference: None, value: Value::Boolean(true), reason: None }],
    }
}

#[test]
fn a_segment_that_continues_nothing_is_not_delivered() {
    let mut a = ReportAssembler::new(4);
    assert_eq!(a.push(segment(2, false)), None, "a last segment without its first");
    assert_eq!(a.push(segment(0, true)), None);
    let whole = a.push(segment(1, false)).expect("both segments are there");
    assert_eq!(whole.entries.iter().map(|e| e.index).collect::<Vec<_>>(), [0, 1]);
    assert_eq!(whole.inclusion, (4, vec![0b1100_0000]));
    assert_eq!((a.pending(), a.stats().reassembled), (0, 1));
}

#[test]
fn a_check_is_exactly_two_bits() {
    let bits = |unused: u8, bytes: &[u8]| Check::from_value(&Value::BitString { unused, bytes: bytes.to_vec() });
    assert_eq!(bits(6, &[0xC0]), Some(Check::both()));
    assert_eq!(bits(6, &[0x00, 0xC0]), None);
    assert_eq!(bits(5, &[0xC0]), None);
    assert_eq!(Check::from_value(&Value::Boolean(true)), None);
}

#[test]
fn the_reassembly_limit_holds_for_a_single_tpdu_too() {
    let mut r = Reassembler::new(4);
    assert_eq!(r.push(true, &[1, 2, 3, 4]).unwrap(), Some(&[1, 2, 3, 4][..]));
    assert!(matches!(r.push(true, &[0; 5]), Err(Error::LimitExceeded { value: 5, .. })));
}

#[test]
fn an_unknown_tpdu_keeps_everything_behind_its_code() {
    let octets = [0x02, ER, 0x01, 0xAA, 0xBB];
    assert_eq!(Tpdu::parse(&octets), Ok(Tpdu::Other { code: ER, body: &[0x01, 0xAA, 0xBB] }));
}

#[test]
fn the_size_of_a_tpdu_is_a_power_of_two_within_bounds() {
    assert_eq!((tpdu_size(7), tpdu_size(13)), (128, 8192));
    let c = Connect::request(1, Tsel::new(vec![0, 1]), Tsel::new(vec![]), 10);
    assert_eq!(c.max_data(), 1024 - 3);
    let long = Connect::request(1, Tsel::new(vec![0; 256]), Tsel::new(vec![]), 10);
    assert_eq!(Tpdu::ConnectionRequest(long).write(&mut Vec::new()), Err(Error::Encode("transport selector too long")));
}

#[test]
fn a_packet_has_to_fit_its_length_field() {
    assert_eq!(tpkt::header(65_531).unwrap(), [3, 0, 0xFF, 0xFF]);
    assert!(matches!(tpkt::header(65_532), Err(Error::Encode(_))));
    assert_eq!(tpkt::packet_len(&[3, 0, 0, 3]), Err(Error::Decode { reason: DecodeReason::BadLength, offset: 2 }));
    let mut r = tpkt::Reader::new();
    r.push(&[3, 0, 0, 6, 1]);
    assert_eq!(r.next_tpdu(), Ok(None));
    r.push(&[2, 3, 0]);
    assert_eq!(r.next_tpdu(), Ok(Some(&[1u8, 2][..])));
    assert_eq!(r.next_tpdu(), Ok(None));
    assert_eq!(r.buffered(), 2);
}

#[test]
fn an_identifier_survives_its_arcs() {
    for arcs in [&[1u32, 0, 9506, 2, 3][..], &[2, 999, 3], &[0, 39], &[2, 1, 0, u32::MAX]] {
        let octets = oid::encode(arcs).unwrap();
        assert_eq!(Oid(&octets).arcs().collect(), arcs);
    }
    for arcs in [&[][..], &[1], &[3, 1], &[1, 40]] {
        assert_eq!(oid::encode(arcs), None, "{arcs:?}");
    }
    assert_eq!(Oid::mms_abstract_syntax().to_text(), "1.0.9506.2.1");
}

#[test]
fn a_title_that_is_no_identifier_is_left_out() {
    let mut a = OsiAddress { t_sel: Some(vec![0, 1]), s_sel: None, p_sel: Some(vec![7]), ap_title: Some(vec![1, 1]), ae_qualifier: Some(12) };
    let s = Selectors::from_address(&a);
    assert_eq!((s.t_sel.as_slice(), s.s_sel.as_slice(), s.p_sel.as_slice()), (&[0u8, 1][..], &[][..], &[7u8][..]));
    assert_eq!(s.ap_title_element(), Some(vec![0x06, 0x01, 0x29]));
    assert_eq!(s.ae_qualifier_element(), Some(vec![0x02, 0x01, 0x0C]));
    a.ap_title = Some(vec![9, 1]);
    assert_eq!(Selectors::from_address(&a).ap_title_element(), None);
}

fn pump(a: &mut Association, b: &mut Association) {
    for _ in 0..16 {
        while let Some(p) = a.poll_transmit() {
            let p = p.to_vec();
            b.on_bytes(Instant::zero(), &p);
        }
        while let Some(p) = b.poll_transmit() {
            let p = p.to_vec();
            a.on_bytes(Instant::zero(), &p);
        }
    }
}

#[test]
fn a_reject_this_end_sends_is_counted_too() {
    let cfg = AssociationConfig::default();
    let (mut c, mut s) = (Association::client(cfg.clone()), Association::server(cfg));
    c.start(Instant::zero()).unwrap();
    pump(&mut c, &mut s);
    assert_eq!((c.state(), s.state()), (State::Established, State::Established));
    let id = c.call(Instant::zero(), &ConfirmedRequest::Identify).unwrap();
    pump(&mut c, &mut s);
    s.send(&Mms::Reject(Reject::confirmed_request(id, UNRECOGNIZED_SERVICE))).unwrap();
    pump(&mut c, &mut s);
    assert_eq!((s.stats().rejected, c.stats().rejected), (1, 1));
    assert_eq!(c.outstanding(), 0);
}

#[test]
fn an_answer_releases_its_call() {
    let cfg = AssociationConfig::default();
    let (mut c, mut s) = (Association::client(cfg.clone()), Association::server(cfg));
    c.start(Instant::zero()).unwrap();
    pump(&mut c, &mut s);
    let id = c.call(Instant::zero(), &ConfirmedRequest::Identify).unwrap();
    pump(&mut c, &mut s);
    assert_eq!(c.outstanding(), 1);
    let answer = ConfirmedResponse::Identify { vendor: "v", model: "m", revision: "r" };
    s.respond(id, &answer).unwrap();
    pump(&mut c, &mut s);
    assert_eq!((c.outstanding(), c.stats().responses_received), (0, 1));
    assert_eq!((c.stats().malformed, c.state()), (0, State::Established));
}

#[test]
fn octets_fed_one_at_a_time_do_what_they_do_at_once() {
    let cfg = AssociationConfig::default();
    let (mut c, mut s) = (Association::client(cfg.clone()), Association::server(cfg));
    c.start(Instant::zero()).unwrap();
    for _ in 0..4 {
        while let Some(p) = c.poll_transmit() {
            for octet in p.to_vec() {
                s.on_bytes(Instant::zero(), &[octet]);
            }
        }
        while let Some(p) = s.poll_transmit() {
            for octet in p.to_vec() {
                c.on_bytes(Instant::zero(), &[octet]);
            }
        }
    }
    assert_eq!((c.state(), s.state()), (State::Established, State::Established));
    assert_eq!((c.stats().packets_received, s.stats().packets_received), (2, 2));
}

#[test]
fn octets_that_are_no_packet_end_the_association() {
    let cfg = AssociationConfig::default();
    let (mut c, mut s) = (Association::client(cfg.clone()), Association::server(cfg));
    c.start(Instant::zero()).unwrap();
    pump(&mut c, &mut s);
    c.on_bytes(Instant::zero(), &[0x47, 0x45, 0x54, 0x20]);
    assert_eq!(c.state(), State::Closed);
    assert!(c.call(Instant::zero(), &ConfirmedRequest::Identify).is_err());
}

#[test]
fn values_nested_past_the_limit_are_refused() {
    let limits = Limits { max_depth: 2, ..Limits::default() };
    let nest = |n: usize| (0..n).fold(Value::Boolean(true), |v, _| Value::Structure(vec![v]));
    for (n, ok) in [(2, true), (3, false)] {
        let mut e = Encoder::new();
        nest(n).encode(&mut e).unwrap();
        let octets = e.into_vec();
        let got = decode_all(&octets, &limits);
        assert_eq!(got.is_ok(), ok, "{n}");
        if !ok {
            assert_eq!(got, Err(Error::LimitExceeded { limit: "max_depth", value: 3 }));
        }
    }
}

#[test]
fn an_element_under_another_tag_is_named_by_its_place() {
    let mut e = Encoder::new();
    e.null(Tag::context(1));
    e.null(Tag::context(2));
    let octets = e.into_vec();
    let mut c = Cursor::new(&octets);
    assert!(c.next_tag(Tag::context(1)).is_ok());
    assert_eq!(c.next_tag(Tag::context(3)), Err(Error::Decode { reason: DecodeReason::UnexpectedTag, offset: 2 }));
}

#[test]
fn a_write_response_is_held_to_the_limits() {
    let buf = [0xA1, 0x0A, 0x02, 0x01, 0x08, 0xA5, 0x05, 0x81, 0x00, 0x80, 0x01, 0x02];
    let two = Limits { max_list_items: 2, max_dataset_members: 2, ..Limits::default() };
    match Mms::parse(&buf, &two).unwrap() {
        Mms::ConfirmedResponse { service: ConfirmedResponse::Write(results), .. } => assert_eq!(results.len(), 2),
        other => panic!("{other:?}"),
    }
    let one = Limits { max_list_items: 1, max_dataset_members: 1, ..Limits::default() };
    assert_eq!(Mms::parse(&buf, &one), Err(Error::LimitExceeded { limit: "max_dataset_members", value: 2 }));
}

#[test]
fn the_variables_of_a_journal_request_are_held_to_the_limits() {
    let mut r = ReadJournal::default();
    r.variables = vec!["a", "b"];
    let buf = Mms::ConfirmedRequest { invoke_id: 1, service: ConfirmedRequest::ReadJournal(r) }.to_vec().unwrap();
    assert!(Mms::parse(&buf, &Limits { max_dataset_members: 2, ..Limits::default() }).is_ok());
    assert_eq!(
        Mms::parse(&buf, &Limits { max_dataset_members: 1, ..Limits::default() }),
        Err(Error::LimitExceeded { limit: "max_dataset_members", value: 2 })
    );
}

#[test]
fn an_end_that_allows_no_request_still_agrees_on_one() {
    for (client, server) in [(0, 10), (10, 0), (0, 0)] {
        let mut c = Association::client(AssociationConfig { max_outstanding: client, ..AssociationConfig::default() });
        let mut s = Association::server(AssociationConfig { max_outstanding: server, ..AssociationConfig::default() });
        c.start(Instant::zero()).unwrap();
        pump(&mut c, &mut s);
        assert_eq!((c.state(), s.state()), (State::Established, State::Established));
        assert_eq!(c.negotiated().unwrap().max_outstanding, 1);
        assert_eq!(s.negotiated().unwrap().max_outstanding, 1);
    }
}

#[test]
fn a_value_without_an_encoding_leaves_those_before_it() {
    let t = UtcTime::from_unix(9, 0, TimeQuality::synchronized());
    let bad = [Value::Boolean(true), Value::VisibleString("\u{fc}".into())];
    let mut p = publisher(&[Value::Boolean(false)]);
    assert!(matches!(p.publish_if_changed(Instant::zero(), &bad, t), Err(Error::Encode(_))));
    p.on_timeout(Instant::zero()).unwrap();
    let frame = p.poll_transmit().unwrap().to_vec();
    let view = GoosePduView::parse(Frame::parse(&frame).unwrap().apdu).unwrap();
    assert_eq!(view.all_data_bytes(), [0x83, 0x01, 0x00], "values that are only compared change nothing");

    assert!(matches!(p.publish(Instant::zero(), &bad, t), Err(Error::Encode(_))));
    assert_eq!((p.st_num(), p.sq_num()), (1, 0));
    assert!(p.poll_transmit().is_none());
    let due = p.next_timeout().unwrap();
    p.on_timeout(due).unwrap();
    let frame = p.poll_transmit().unwrap().to_vec();
    let view = GoosePduView::parse(Frame::parse(&frame).unwrap().apdu).unwrap();
    assert_eq!((view.st_num, view.sq_num, view.num_dat_set_entries), (1, 1, 1));
    assert_eq!(view.all_data_bytes(), [0x83, 0x01, 0xFF]);
}

#[test]
fn values_too_large_for_a_frame_begin_a_state_without_one() {
    let t = UtcTime::from_unix(9, 0, TimeQuality::synchronized());
    let large = [Value::OctetString(vec![7; 70_000])];
    let mut p = publisher(&[Value::Boolean(false)]);
    p.on_timeout(Instant::zero()).unwrap();
    assert!(matches!(p.publish(Instant::zero(), &large, t), Err(Error::Encode(_))));
    assert_eq!((p.st_num(), p.sq_num(), p.dropped()), (2, 0, 0));
    let frame = p.poll_transmit().unwrap().to_vec();
    assert!(frame.len() > 70_000 && frame.iter().all(|&b| b == 0), "the buffer is left blank");
    assert!(p.poll_transmit().is_none());
    p.publish(Instant::zero(), &[Value::Boolean(true)], t).unwrap();
    assert_eq!((p.st_num(), p.sq_num()), (3, 0));
}

#[test]
fn a_simulated_publisher_takes_over_and_asks_for_commissioning() {
    let mut cfg = PublisherConfig::new(header(), "LD0/LLN0$GO$g".into(), "LD0/LLN0$ds".into());
    cfg = cfg.with_simulation(true).with_nds_com(true);
    let mut p = Publisher::new(cfg, &[], UtcTime::default()).unwrap();
    let key = SubscriptionKey { dst: MacAddr::goose_base(), appid: 1, gocb_ref: "LD0/LLN0$GO$g".into() };
    let mut s = Subscriber::new(SubscriberConfig::new(key).with_simulation(SimulationMode::Preferred));
    s.feed(Instant::zero(), &state(9, 9));
    let values = vec![Value::Boolean(true)];
    p.publish(Instant::zero(), &values, UtcTime::default()).unwrap();
    let frame = p.poll_transmit().unwrap().to_vec();
    let events = s.feed(Instant::zero(), &frame);
    assert_eq!(
        events,
        [
            SubscriberEvent::SimulationTakeover,
            SubscriberEvent::NewState { st_num: 2, t: UtcTime::default(), values, simulation: true },
            SubscriberEvent::NeedsCommissioning,
        ]
    );
    assert!(s.simulation_active() && s.needs_commissioning() && s.is_live());
}

#[test]
fn a_connection_request_that_is_refused_leaves_what_was_written() {
    let mut out = vec![0xEE];
    let long = Connect::request(1, Tsel::new(vec![0; 256]), Tsel::default(), 10);
    assert!(Tpdu::ConnectionRequest(long).write(&mut out).is_err());
    assert_eq!(out, [0xEE, 0, 0xE0, 0, 0, 0, 1, 0, 0xC0, 1, 10]);
    let mut out = Vec::new();
    let wide = Connect::request(1, Tsel::new(vec![7; 200]), Tsel::new(vec![8; 100]), 10);
    assert_eq!(Tpdu::ConnectionConfirm(wide).write(&mut out), Err(Error::Encode("COTP header too long")));
    assert_eq!((out.len(), out[0], out[1]), (2 + 5 + 3 + 202 + 102, 0, 0xD0));
}

#[test]
fn a_session_pdu_that_is_too_long_leaves_its_identifier() {
    let body = vec![0; 65_536];
    let mut out = vec![0xEE];
    assert!(Spdu::Other { si: 99, body: &body }.write(&mut out).is_err());
    assert_eq!(out, [0xEE, 99]);
    let ssel = vec![0; 40_000];
    let c = session::Connect::new(Some(&ssel), Some(&ssel), &[]);
    let mut out = Vec::new();
    assert!(Spdu::Connect(c).write(&mut out).is_err());
    assert_eq!(out, [session::SI_CONNECT]);
    let mut out = Vec::new();
    assert!(Spdu::Connect(session::Connect::new(Some(&body), None, &[])).write(&mut out).is_err());
    assert!(out.is_empty());
}

#[test]
fn floating_point_values_are_equal_as_numbers_are() {
    let single = |v: f32| Value::Float32(v.to_bits());
    let double = |v: f64| Value::Float64(v.to_bits());
    for (a, b) in [(0.0f32, -0.0f32), (1.5, 1.5), (1.5, -1.5), (f32::NAN, f32::NAN), (f32::INFINITY, f32::INFINITY), (f32::MIN_POSITIVE, 0.0)] {
        assert_eq!(single(a) == single(b), a == b, "{a} {b}");
        assert_eq!(double(a.into()) == double(b.into()), a == b, "{a} {b}");
        let (x, y) = (Value::Structure(vec![single(a)]), Value::Structure(vec![single(b)]));
        assert_eq!(x == y, a == b);
        assert_eq!(DataView::Float32(a.to_bits()) == DataView::Float32(b.to_bits()), a == b);
        assert_eq!(Float::Single(a.to_bits()) == Float::Single(b.to_bits()), a == b);
    }
    assert_ne!(single(1.5), double(1.5), "the width is part of the value");
    assert_ne!(Value::Array(vec![Value::Boolean(true)]), Value::Array(vec![]));
    assert_ne!(Value::Array(vec![]), Value::Structure(vec![]));
}

#[test]
fn defaults_hold_nothing() {
    assert_eq!(Connect::default(), Connect { dst_ref: 0, src_ref: 0, class_options: 0, tpdu_size_exp: None, src_tsel: None, dst_tsel: None });
    assert_eq!(session::Connect::default().user_data, &[] as &[u8]);
    assert_eq!(tpkt::Reader::default().buffered(), 0);
    assert_eq!(FrameDeltas::default().since_state_change, 0);
}

#[test]
fn what_follows_the_end_of_an_association_is_ignored_in_one_read_as_in_two() {
    let cfg = AssociationConfig::default();
    let mut ends = Vec::new();
    for in_two in [false, true] {
        let (mut c, mut s) = (Association::client(cfg.clone()), Association::server(cfg.clone()));
        c.start(Instant::zero()).unwrap();
        pump(&mut c, &mut s);
        let disconnect = [3, 0, 0, 11, 6, 0x80, 0, 1, 0, 1, 0];
        let more = [3, 0, 0, 11, 6, 0x80, 0, 1, 0, 1, 0, 0x47];
        if in_two {
            c.on_bytes(Instant::zero(), &disconnect);
            c.on_bytes(Instant::zero(), &more);
        } else {
            c.on_bytes(Instant::zero(), &[&disconnect[..], &more[..]].concat());
        }
        let mut events = Vec::new();
        while let Some(e) = c.poll_event() {
            events.push(e);
        }
        ends.push((c.state(), c.stats(), c.next_timeout(), events));
    }
    assert_eq!(ends[0].0, State::Closed);
    assert_eq!(ends[0], ends[1]);
}

#[test]
fn a_type_nested_past_the_limit_is_refused() {
    let limits = Limits { max_depth: 2, ..Limits::default() };
    let nest = |n: usize| {
        (0..n).fold(TypeSpec::Boolean, |t, _| TypeSpec::Array { packed: false, elements: 1, element_type: Box::new(t) })
    };
    for n in [2, 3] {
        let mut e = Encoder::new();
        nest(n).write(&mut e).unwrap();
        let octets = e.into_vec();
        let t = Cursor::new(&octets).next_required().unwrap();
        let want = if n == 2 { Ok(nest(2)) } else { Err(Error::LimitExceeded { limit: "max_depth", value: 3 }) };
        assert_eq!(TypeSpec::parse(&t, &limits), want);
    }
}

#[test]
fn a_server_that_is_connected_to_again_keeps_the_requests_it_issued() {
    let cfg = AssociationConfig::default();
    let (mut c, mut s) = (Association::client(cfg.clone()), Association::server(cfg));
    c.start(Instant::zero()).unwrap();
    let request = c.poll_transmit().unwrap().to_vec();
    s.on_bytes(Instant::zero(), &request);
    pump(&mut c, &mut s);
    s.call(Instant::zero(), &ConfirmedRequest::Identify).unwrap();
    s.on_bytes(Instant::zero(), &request);
    assert_eq!((s.state(), s.outstanding()), (State::Associating, 1));
    s.abort();
    assert_eq!((s.state(), s.outstanding()), (State::Closed, 0));
}
