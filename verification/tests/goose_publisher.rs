//! The GOOSE publisher.

use iec61850_rs::common::{Instant, UtcTime};
use iec61850_rs::proto::data::Value;
use iec61850_rs::proto::ethernet::{Frame, FrameHeader, MacAddr, ETHERTYPE_GOOSE};
use iec61850_rs::proto::goose::{GoosePduView, Publisher, PublisherConfig, Retransmission};

fn cfg() -> PublisherConfig {
    PublisherConfig {
        header: FrameHeader {
            dst: MacAddr::goose_base(),
            src: MacAddr([2, 0, 0, 0, 0, 1]),
            vlan: None,
            ethertype: ETHERTYPE_GOOSE,
            appid: 1,
            reserved1: 0,
            reserved2: 0,
        },
        gocb_ref: "IED1LD0/LLN0$GO$gcb1".into(),
        dat_set: "IED1LD0/LLN0$ds1".into(),
        go_id: None,
        conf_rev: 1,
        retransmission: Retransmission::default(),
        simulation: false,
        nds_com: false,
    }
}

fn take(p: &mut Publisher) -> Option<(u32, u32, u32)> {
    let frame = p.poll_transmit()?.to_vec();
    let fr = Frame::parse(&frame).unwrap();
    let pdu = GoosePduView::parse(fr.apdu).unwrap();
    Some((pdu.st_num, pdu.sq_num, pdu.time_allowed_to_live))
}

#[test]
fn the_curve_matches_t1_t1_t2_t3_t0() {
    let r = Retransmission::default();
    assert_eq!([0, 1, 2, 3, 4, 8, 9].map(|n| r.interval_after(n)), [4, 4, 8, 16, 32, 512, 1000]);
    assert_eq!(r.tal_after(0), 8);
    let z = Retransmission { min_time_ms: 0, max_time_ms: 0, tal_factor: 0 };
    assert_eq!((z.interval_after(0), z.interval_after(40), z.tal_after(3)), (1, 1, 1));
}

#[test]
fn counters_and_scheduling() {
    let mut p = Publisher::new(cfg(), &[Value::Boolean(false)], UtcTime::default()).unwrap();
    assert_eq!(p.next_timeout(), Some(Instant::zero()));
    assert!(p.poll_transmit().is_none(), "nothing is built before the first tick");

    let mut now = Instant::zero();
    p.on_timeout(now).unwrap();
    assert_eq!(take(&mut p), Some((1, 0, 8)));
    assert!(p.poll_transmit().is_none(), "a frame is handed out once");
    assert_eq!(p.next_timeout(), Some(now.plus_millis(4)));

    now = p.next_timeout().unwrap();
    p.on_timeout(now).unwrap();
    assert_eq!(take(&mut p), Some((1, 1, 8)));
    now = p.next_timeout().unwrap();
    p.on_timeout(now).unwrap();
    assert_eq!(take(&mut p), Some((1, 2, 16)));

    p.publish(now, &[Value::Boolean(true)], UtcTime::default()).unwrap();
    assert_eq!(take(&mut p), Some((2, 0, 8)));
    assert_eq!(p.next_timeout(), Some(now.plus_millis(4)));

    p.on_timeout(now).unwrap();
    assert!(p.poll_transmit().is_none());
}

#[test]
fn publishing_unchanged_values_is_not_a_state_change() {
    let mut p = Publisher::new(cfg(), &[Value::Boolean(false)], UtcTime::default()).unwrap();
    p.on_timeout(Instant::zero()).unwrap();
    assert_eq!(take(&mut p), Some((1, 0, 8)));

    assert!(!p.publish_if_changed(Instant::zero(), &[Value::Boolean(false)], UtcTime::default()).unwrap());
    assert_eq!(p.st_num(), 1);
    assert!(p.poll_transmit().is_none(), "nothing new to send");
    assert_eq!(p.next_timeout(), Some(Instant::zero().plus_millis(4)));

    assert!(p.publish_if_changed(Instant::zero(), &[Value::Boolean(true)], UtcTime::default()).unwrap());
    assert_eq!(take(&mut p), Some((2, 0, 8)));
    assert!(p.publish_if_changed(Instant::zero(), &[Value::Boolean(true), Value::Boolean(true)], UtcTime::default()).unwrap());
    assert_eq!(take(&mut p).unwrap().0, 3);
    assert!(!p.publish_if_changed(Instant::zero(), &[Value::Boolean(true), Value::Boolean(true)], UtcTime::default()).unwrap());
}

#[test]
fn st_num_wraps_to_one_never_zero() {
    let mut p = Publisher::new(cfg(), &[], UtcTime::default()).unwrap();
    for st in [u32::MAX, 1, 2] {
        p.st_num = st;
        p.publish(Instant::zero(), &[], UtcTime::default()).unwrap();
        let expected = if st == u32::MAX { 1 } else { st + 1 };
        assert_eq!(take(&mut p).unwrap().0, expected);
    }
}

#[test]
fn uncollected_frames_are_counted_not_queued() {
    let mut p = Publisher::new(cfg(), &[], UtcTime::default()).unwrap();
    let mut now = Instant::zero();
    for _ in 0..5 {
        p.on_timeout(now).unwrap();
        now = p.next_timeout().unwrap();
    }
    assert_eq!(p.dropped(), 4, "only the newest frame is kept");
    assert!(p.poll_transmit().is_some());
}

#[test]
fn simulation_sets_both_flags() {
    let mut c = cfg();
    c.simulation = true;
    let mut p = Publisher::new(c, &[], UtcTime::default()).unwrap();
    p.on_timeout(Instant::zero()).unwrap();
    let frame = p.poll_transmit().unwrap().to_vec();
    let fr = Frame::parse(&frame).unwrap();
    assert!(fr.simulation());
    assert!(GoosePduView::parse(fr.apdu).unwrap().simulation);
}

#[test]
fn non_ascii_configuration_is_rejected_at_construction() {
    let mut c = cfg();
    c.gocb_ref = "IED1LD0/LLN0$GO$gcbü".into();
    assert!(Publisher::new(c, &[], UtcTime::default()).is_err());
}
